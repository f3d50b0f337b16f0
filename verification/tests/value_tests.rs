use track_and_trace::{
    DataIntegrityKind, DataType, EndBlockNum, Entity, LatLong, LatLongValue, NewVersion,
    PropertyValue, ReportedValueData, Row, TemporalStore, TraceError,
};

fn empty_data(data_type: DataType) -> ReportedValueData {
    ReportedValueData {
        data_type,
        timestamp: 7,
        reporter_index: 0,
        string_value: None,
        boolean_value: None,
        number_value: None,
        enum_value: None,
        bytes_value: None,
        lat_long_value: None,
        struct_values: None,
    }
}

fn reported(record_id: &str, name: &str, start: i64, data: ReportedValueData) -> NewVersion {
    NewVersion {
        entity: Entity::ReportedValue {
            record_id: record_id.to_string(),
            property_name: name.to_string(),
            value: data,
        },
        start_block_num: start,
    }
}

fn property(record_id: &str, name: &str, start: i64) -> NewVersion {
    NewVersion {
        entity: Entity::Property { record_id: record_id.to_string(), name: name.to_string() },
        start_block_num: start,
    }
}

fn reporter(
    record_id: &str,
    name: &str,
    public_key: &str,
    authorized: bool,
    index: i32,
    metadata: Option<serde_json::Value>,
    start: i64,
) -> NewVersion {
    NewVersion {
        entity: Entity::Reporter {
            record_id: record_id.to_string(),
            property_name: name.to_string(),
            public_key: public_key.to_string(),
            authorized,
            reporter_index: index,
            metadata,
        },
        start_block_num: start,
    }
}

fn text_data(s: &str) -> ReportedValueData {
    let mut d = empty_data(DataType::Text);
    d.string_value = Some(s.to_string());
    d
}

fn number_data(n: i64) -> ReportedValueData {
    let mut d = empty_data(DataType::Number);
    d.number_value = Some(n);
    d
}

fn struct_data(children: &[&str]) -> ReportedValueData {
    let mut d = empty_data(DataType::Struct);
    d.struct_values = Some(children.iter().map(|c| c.to_string()).collect());
    d
}

fn find_reported_value_row(store: &TemporalStore, name: &str) -> usize {
    store
        .rows
        .iter()
        .position(|r| {
            matches!(&r.entity, Entity::ReportedValue { property_name, .. } if property_name == name)
                && r.end_block_num == EndBlockNum::Open
        })
        .unwrap()
}

#[test]
fn struct_reconstruction_orders_children() {
    let mut store = TemporalStore::new();
    store
        .insert_reported_values(vec![
            reported("r1", "a", 10, text_data("x")),
            reported("r1", "b", 10, number_data(5)),
            reported("r1", "parent", 10, struct_data(&["a", "b"])),
        ])
        .unwrap();

    let parent = find_reported_value_row(&store, "parent");
    let mut path = Vec::new();
    let node = store.parse_reported_values(parent, &mut path).unwrap();
    match node.value {
        PropertyValue::Struct(children) => {
            assert_eq!(children.len(), 2);
            assert!(matches!(&children[0].value, PropertyValue::Text(t) if t == "x"));
            assert!(matches!(children[1].value, PropertyValue::Number(5)));
        }
        other => panic!("expected a struct value, got {:?}", std::mem::discriminant(&other)),
    }
}

#[test]
fn cycle_detection_fails_fast() {
    let mut store = TemporalStore::new();
    // s -> t -> s : the cycle is transitive
    store
        .insert_reported_values(vec![
            reported("r1", "s", 10, struct_data(&["t"])),
            reported("r1", "t", 10, struct_data(&["s"])),
        ])
        .unwrap();
    let s = find_reported_value_row(&store, "s");
    let mut path = Vec::new();
    assert_eq!(
        store.parse_reported_values(s, &mut path).err(),
        Some(TraceError::DataIntegrity(DataIntegrityKind::StructCycle))
    );
    // a struct directly referencing itself fails the same way
    let mut store2 = TemporalStore::new();
    store2
        .insert_reported_values(vec![reported("r1", "me", 10, struct_data(&["me"]))])
        .unwrap();
    let me = find_reported_value_row(&store2, "me");
    let mut path2 = Vec::new();
    assert_eq!(
        store2.parse_reported_values(me, &mut path2).err(),
        Some(TraceError::DataIntegrity(DataIntegrityKind::StructCycle))
    );
}

#[test]
fn missing_boolean_payload_names_boolean() {
    let mut store = TemporalStore::new();
    store
        .insert_reported_values(vec![reported("r1", "flag", 10, empty_data(DataType::Boolean))])
        .unwrap();
    let i = find_reported_value_row(&store, "flag");
    let mut path = Vec::new();
    assert_eq!(
        store.parse_reported_values(i, &mut path).err(),
        Some(TraceError::Validation(DataType::Boolean))
    );
}

#[test]
fn missing_child_is_a_data_integrity_error() {
    let mut store = TemporalStore::new();
    store
        .insert_reported_values(vec![reported("r1", "parent", 10, struct_data(&["absent"]))])
        .unwrap();
    let i = find_reported_value_row(&store, "parent");
    let mut path = Vec::new();
    assert_eq!(
        store.parse_reported_values(i, &mut path).err(),
        Some(TraceError::DataIntegrity(DataIntegrityKind::MissingChild))
    );
}

#[test]
fn fetch_record_property_assembles_the_slice() {
    let meta = serde_json::Value::String("factory-7".to_string());
    let mut store = TemporalStore::new();
    store.insert_properties(vec![property("r1", "temp", 10)]).unwrap();
    store
        .insert_reporters(vec![
            reporter("r1", "temp", "key-auth", true, 0, Some(meta.clone()), 10),
            reporter("r1", "temp", "key-revoked", false, 1, None, 10),
        ])
        .unwrap();
    let mut d = number_data(21);
    d.reporter_index = 0;
    store.insert_reported_values(vec![reported("r1", "temp", 10, d)]).unwrap();
    let mut d2 = number_data(25);
    d2.reporter_index = 0;
    store.insert_reported_values(vec![reported("r1", "temp", 20, d2)]).unwrap();

    let slice = store.fetch_record_property("r1", "temp").unwrap();
    assert_eq!(slice.name, "temp");
    assert_eq!(slice.record_id, "r1");
    assert_eq!(slice.data_type, "Number");
    // only the authorized reporter's key is listed
    assert_eq!(slice.reporters, vec!["key-auth".to_string()]);
    // the current value is the latest version, carrying reporter metadata
    assert!(matches!(slice.value.value, PropertyValue::Number(25)));
    assert_eq!(slice.value.reporter.public_key, "key-auth");
    assert_eq!(slice.value.reporter.metadata, Some(meta));
    assert_eq!(slice.value.timestamp, 7);
    // both versions appear among the updates, in storage order
    assert_eq!(slice.updates.len(), 2);
    assert!(matches!(slice.updates[0].value, PropertyValue::Number(21)));
    assert!(matches!(slice.updates[1].value, PropertyValue::Number(25)));
}

#[test]
fn fetch_record_property_absent_is_not_found() {
    let store = TemporalStore::new();
    assert_eq!(
        store.fetch_record_property("r1", "temp").err(),
        Some(TraceError::NotFound)
    );
    // a property row without any reported value is not found either
    let mut store2 = TemporalStore::new();
    store2.insert_properties(vec![property("r1", "temp", 10)]).unwrap();
    assert_eq!(
        store2.fetch_record_property("r1", "temp").err(),
        Some(TraceError::NotFound)
    );
}

#[test]
fn unresolved_reporter_gives_empty_descriptor() {
    let mut store = TemporalStore::new();
    let mut d = text_data("hello");
    d.reporter_index = 9;
    store.insert_reported_values(vec![reported("r1", "note", 10, d)]).unwrap();
    let i = find_reported_value_row(&store, "note");
    let mut path = Vec::new();
    let node = store.parse_reported_values(i, &mut path).unwrap();
    assert_eq!(node.reporter.public_key, "");
    assert_eq!(node.reporter.metadata, None);
}

#[test]
fn parse_value_covers_every_scalar_kind() {
    let mut bytes = empty_data(DataType::Bytes);
    bytes.bytes_value = Some(vec![1, 2, 3]);
    let mut latlong = empty_data(DataType::LatLong);
    latlong.lat_long_value = Some(LatLongValue(44_000_000, -93_000_000));
    let mut en = empty_data(DataType::Enum);
    en.enum_value = Some(2);
    let mut boolean = empty_data(DataType::Boolean);
    boolean.boolean_value = Some(true);

    assert!(matches!(
        track_and_trace::value::parse_value(&text_data("x"), None),
        Ok(PropertyValue::Text(s)) if s == "x"
    ));
    assert!(matches!(
        track_and_trace::value::parse_value(&boolean, None),
        Ok(PropertyValue::Boolean(true))
    ));
    assert!(matches!(
        track_and_trace::value::parse_value(&en, None),
        Ok(PropertyValue::Enum(2))
    ));
    assert!(matches!(
        track_and_trace::value::parse_value(&number_data(5), None),
        Ok(PropertyValue::Number(5))
    ));
    assert!(matches!(
        track_and_trace::value::parse_value(&bytes, None),
        Ok(PropertyValue::Bytes(b)) if b == vec![1, 2, 3]
    ));
    assert!(matches!(
        track_and_trace::value::parse_value(&latlong, None),
        Ok(PropertyValue::LatLong(LatLong { latitude: 44_000_000, longitude: -93_000_000 }))
    ));
    // a struct row without supplied children is rejected naming Struct
    assert_eq!(
        track_and_trace::value::parse_value(&struct_data(&["a"]), None).err(),
        Some(TraceError::Validation(DataType::Struct))
    );
}

#[test]
fn ambiguous_as_of_on_corrupted_rows_is_surfaced() {
    // built behind the store's back: two overlapping versions of one key
    let store = TemporalStore {
        rows: vec![
            Row {
                entity: Entity::Record { record_id: "r1".to_string() },
                start_block_num: 10,
                end_block_num: EndBlockNum::ClosedAt(30),
            },
            Row {
                entity: Entity::Record { record_id: "r1".to_string() },
                start_block_num: 20,
                end_block_num: EndBlockNum::Open,
            },
        ],
    };
    let probe = Entity::Record { record_id: "r1".to_string() };
    assert!(matches!(
        store.fetch_as_of(&probe, 25),
        Err(TraceError::DataIntegrity(DataIntegrityKind::AmbiguousAsOf))
    ));
}

#[test]
fn data_type_wire_names_round_trip() {
    for dt in [
        DataType::Text,
        DataType::Boolean,
        DataType::Enum,
        DataType::LatLong,
        DataType::Number,
        DataType::Bytes,
        DataType::Struct,
    ] {
        assert_eq!(DataType::from_wire_name(dt.wire_name()), Some(dt));
    }
    assert_eq!(DataType::from_wire_name("Text"), None);
    assert_eq!(DataType::from_wire_name(""), None);
    assert_eq!(DataType::Text.wire_name(), "String");
}

#[test]
fn lat_long_from_model_copies_both_coordinates() {
    let ll = LatLong::from_model(LatLongValue(1, -2));
    assert_eq!(ll.latitude, 1);
    assert_eq!(ll.longitude, -2);
}

#[test]
fn fetch_record_property_reconstructs_a_struct_tree() {
    let mut store = TemporalStore::new();
    store.insert_properties(vec![property("r1", "origin", 10)]).unwrap();
    store
        .insert_reported_values(vec![
            reported("r1", "a", 10, text_data("x")),
            reported("r1", "b", 10, number_data(5)),
            reported("r1", "origin", 10, struct_data(&["a", "b"])),
        ])
        .unwrap();

    let slice = store.fetch_record_property("r1", "origin").unwrap();
    assert_eq!(slice.data_type, "Struct");
    match &slice.value.value {
        PropertyValue::Struct(children) => {
            assert_eq!(children.len(), 2);
            assert!(matches!(&children[0].value, PropertyValue::Text(t) if t == "x"));
            assert!(matches!(children[1].value, PropertyValue::Number(5)));
        }
        _ => panic!("expected a struct value"),
    }
    // a cycle introduced later surfaces as a data-integrity error
    store
        .insert_reported_values(vec![reported("r1", "a", 20, struct_data(&["origin"]))])
        .unwrap();
    assert_eq!(
        store.fetch_record_property("r1", "origin").err(),
        Some(TraceError::DataIntegrity(DataIntegrityKind::StructCycle))
    );
}
