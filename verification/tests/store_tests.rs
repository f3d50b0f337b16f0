use track_and_trace::{EndBlockNum, Entity, NewVersion, TemporalStore, TraceError, MAX_BLOCK_NUM};

fn record(record_id: &str, start: i64) -> NewVersion {
    NewVersion {
        entity: Entity::Record { record_id: record_id.to_string() },
        start_block_num: start,
    }
}

fn property(record_id: &str, name: &str, start: i64) -> NewVersion {
    NewVersion {
        entity: Entity::Property { record_id: record_id.to_string(), name: name.to_string() },
        start_block_num: start,
    }
}

fn open_rows_for(store: &TemporalStore, record_id: &str) -> usize {
    store
        .rows
        .iter()
        .filter(|r| {
            matches!(&r.entity, Entity::Record { record_id: rid } if rid == record_id)
                && r.end_block_num == EndBlockNum::Open
        })
        .count()
}

#[test]
fn single_open_version_after_each_batch_prefix() {
    let mut store = TemporalStore::new();
    store.insert_records(vec![record("r1", 10)]).unwrap();
    assert_eq!(open_rows_for(&store, "r1"), 1);
    store.insert_records(vec![record("r1", 20)]).unwrap();
    assert_eq!(open_rows_for(&store, "r1"), 1);
    store
        .insert_records(vec![record("r1", 30), record("r1", 40)])
        .unwrap();
    assert_eq!(open_rows_for(&store, "r1"), 1);
    let probe = Entity::Record { record_id: "r1".to_string() };
    let current = store.fetch_current(&probe).unwrap();
    assert_eq!(current.start_block_num, 40);
    assert_eq!(current.end_block_num, EndBlockNum::Open);
}

#[test]
fn gapless_history_at_ten_then_twenty() {
    let mut store = TemporalStore::new();
    store.insert_records(vec![record("r1", 10)]).unwrap();
    store.insert_records(vec![record("r1", 20)]).unwrap();

    assert_eq!(store.rows.len(), 2);
    assert_eq!(store.rows[0].start_block_num, 10);
    assert_eq!(store.rows[0].end_block_num, EndBlockNum::ClosedAt(20));
    assert_eq!(store.rows[1].start_block_num, 20);
    assert_eq!(store.rows[1].end_block_num, EndBlockNum::Open);

    let probe = Entity::Record { record_id: "r1".to_string() };
    let v1 = store.fetch_as_of(&probe, 15).unwrap();
    assert_eq!(v1.start_block_num, 10);
    let v2 = store.fetch_as_of(&probe, 25).unwrap();
    assert_eq!(v2.start_block_num, 20);
}

#[test]
fn reapply_of_identical_batch_conflicts() {
    let mut store = TemporalStore::new();
    let batch = vec![record("r1", 10), record("r2", 10)];
    let again = vec![record("r1", 10), record("r2", 10)];
    assert!(store.insert_records(batch).is_ok());
    let before = store.rows.len();
    assert_eq!(store.insert_records(again), Err(TraceError::Conflict));
    // the failed batch left nothing behind
    assert_eq!(store.rows.len(), before);
    assert_eq!(open_rows_for(&store, "r1"), 1);
    assert_eq!(open_rows_for(&store, "r2"), 1);
}

#[test]
fn conflicting_batch_rolls_back_in_full() {
    let mut store = TemporalStore::new();
    store.insert_records(vec![record("r1", 10)]).unwrap();
    // the second version regresses the block number and must conflict
    let bad = vec![record("r2", 20), record("r1", 5)];
    assert_eq!(store.insert_records(bad), Err(TraceError::Conflict));
    // r2 from the failed batch is not visible
    assert_eq!(open_rows_for(&store, "r2"), 0);
    assert_eq!(store.rows.len(), 1);
    assert_eq!(store.rows[0].end_block_num, EndBlockNum::Open);
}

#[test]
fn history_of_three_versions_is_ascending_and_tiles() {
    let mut store = TemporalStore::new();
    store.insert_records(vec![record("r1", 10)]).unwrap();
    store.insert_records(vec![record("r1", 20)]).unwrap();
    store.insert_records(vec![record("r1", 35)]).unwrap();
    // an unrelated key interleaved in storage
    store.insert_records(vec![record("other", 12)]).unwrap();

    let probe = Entity::Record { record_id: "r1".to_string() };
    let history = store.list_history(&probe);
    assert_eq!(history.len(), 3);
    assert_eq!(history[0].start_block_num, 10);
    assert_eq!(history[1].start_block_num, 20);
    assert_eq!(history[2].start_block_num, 35);
    assert_eq!(history[0].end_block_num, EndBlockNum::ClosedAt(20));
    assert_eq!(history[1].end_block_num, EndBlockNum::ClosedAt(35));
    assert_eq!(history[2].end_block_num, EndBlockNum::Open);
}

#[test]
fn history_as_of_restricts_to_earlier_starts() {
    let mut store = TemporalStore::new();
    store.insert_records(vec![record("r1", 10)]).unwrap();
    store.insert_records(vec![record("r1", 20)]).unwrap();
    store.insert_records(vec![record("r1", 30)]).unwrap();
    let probe = Entity::Record { record_id: "r1".to_string() };
    let upto = store.list_history_as_of(&probe, 20);
    assert_eq!(upto.len(), 1);
    assert_eq!(upto[0].start_block_num, 10);
    let all = store.list_history_as_of(&probe, 100);
    assert_eq!(all.len(), 3);
}

#[test]
fn fetch_current_absent_key_is_none() {
    let mut store = TemporalStore::new();
    store.insert_records(vec![record("r1", 10)]).unwrap();
    let probe = Entity::Record { record_id: "missing".to_string() };
    assert!(store.fetch_current(&probe).is_none());
}

#[test]
fn fetch_as_of_outside_any_interval_is_not_found() {
    let mut store = TemporalStore::new();
    store.insert_records(vec![record("r1", 10)]).unwrap();
    let probe = Entity::Record { record_id: "r1".to_string() };
    assert!(matches!(store.fetch_as_of(&probe, 5), Err(TraceError::NotFound)));
}

#[test]
fn mixed_entity_kinds_version_independently() {
    let mut store = TemporalStore::new();
    store.insert_records(vec![record("r1", 10)]).unwrap();
    store
        .insert_properties(vec![property("r1", "temperature", 10)])
        .unwrap();
    store
        .insert_properties(vec![property("r1", "temperature", 20)])
        .unwrap();
    // the record's open version is untouched by property versions
    assert_eq!(open_rows_for(&store, "r1"), 1);
    let prop = store.fetch_property("r1", "temperature").unwrap();
    assert_eq!(prop.start_block_num, 20);
    assert!(store.fetch_property("r1", "weight").is_none());
}

#[test]
fn wire_sentinel_round_trip() {
    assert_eq!(EndBlockNum::Open.to_wire(), MAX_BLOCK_NUM);
    assert_eq!(EndBlockNum::ClosedAt(42).to_wire(), 42);
    assert_eq!(EndBlockNum::from_wire(MAX_BLOCK_NUM), EndBlockNum::Open);
    assert_eq!(EndBlockNum::from_wire(42), EndBlockNum::ClosedAt(42));
}

#[test]
fn standalone_close_sets_the_end_bound() {
    let mut store = TemporalStore::new();
    store.insert_records(vec![record("r1", 10)]).unwrap();
    store.update_record_end_block_num("r1", 17);
    assert_eq!(store.rows[0].end_block_num, EndBlockNum::ClosedAt(17));
    // with no open row left, a second close changes nothing
    store.update_record_end_block_num("r1", 23);
    assert_eq!(store.rows[0].end_block_num, EndBlockNum::ClosedAt(17));
    // and a close for an absent key changes nothing
    store.update_record_end_block_num("other", 23);
    assert_eq!(store.rows.len(), 1);
}

#[test]
fn standalone_close_touches_only_its_key() {
    let mut store = TemporalStore::new();
    store.insert_records(vec![record("r1", 10), record("r2", 10)]).unwrap();
    store
        .insert_properties(vec![property("r1", "temp", 10)])
        .unwrap();
    store.update_property_end_block_num("temp", "r1", 12);
    for row in &store.rows {
        match &row.entity {
            Entity::Property { .. } => {
                assert_eq!(row.end_block_num, EndBlockNum::ClosedAt(12))
            }
            _ => assert_eq!(row.end_block_num, EndBlockNum::Open),
        }
    }
}
