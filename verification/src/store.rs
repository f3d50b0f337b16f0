//! The temporal store: applies ordered batches of new entity versions,
//! closing each key's predecessor as its successor arrives, and keeps the
//! single-open-version and gapless-history invariants.

use vstd::prelude::*;
use crate::block_num::EndBlockNum;
use crate::entity::{DataType, Entity, KeyView, ReportedValueData};
use crate::error::TraceError;

verus! {

/// One stored version: an entity payload plus its validity interval from
/// `start_block_num` inclusive to `end_block_num` exclusive.
pub struct Row {
    pub entity: Entity,
    pub start_block_num: i64,
    pub end_block_num: EndBlockNum,
}

/// One new entity version arriving from the ledger processor. Its
/// interval starts at `start_block_num` and is open until a successor for
/// the same key arrives.
pub struct NewVersion {
    pub entity: Entity,
    pub start_block_num: i64,
}

impl Row {
    /// The natural key this row versions.
    pub open spec fn key(self) -> KeyView {
        self.entity.key()
    }

    /// Whether this row is the current version for its key.
    pub open spec fn is_open(self) -> bool {
        self.end_block_num is Open
    }

    /// The closing block of a closed row.
    pub open spec fn end(self) -> int {
        self.end_block_num.bound()
    }

    /// Whether `block_num` lies inside this row's validity interval.
    pub open spec fn covers(self, block_num: i64) -> bool {
        self.end_block_num.spec_contains_block(self.start_block_num, block_num)
    }
}

/// Invariant I2, ordering half: stored versions of one key stand in
/// start-ascending order, all but the last closed, without overlaps.
pub open spec fn wf_ordered(rows: Seq<Row>) -> bool {
    forall|i: int, j: int|
        0 <= i < j < rows.len() && #[trigger] rows[i].key() == #[trigger] rows[j].key() ==> {
            &&& rows[i].end_block_num is ClosedAt
            &&& rows[i].end() <= rows[j].start_block_num
        }
}

/// Every closed version's interval is non-empty.
pub open spec fn wf_intervals(rows: Seq<Row>) -> bool {
    forall|i: int|
        0 <= i < rows.len() && (#[trigger] rows[i]).end_block_num is ClosedAt ==> rows[i].start_block_num
            < rows[i].end()
}

/// Invariant I2, gapless half: a version is closed only because a
/// successor for the same key starts exactly at its closing block.
pub open spec fn wf_gapless(rows: Seq<Row>) -> bool {
    forall|i: int|
        0 <= i < rows.len() && (#[trigger] rows[i]).end_block_num is ClosedAt ==> exists|j: int|
            i < j < rows.len() && rows[j].key() == rows[i].key() && rows[j].start_block_num
                == rows[i].end()
}

/// Store well-formedness: what every batch application preserves.
pub open spec fn wf_rows(rows: Seq<Row>) -> bool {
    &&& wf_ordered(rows)
    &&& wf_intervals(rows)
    &&& wf_gapless(rows)
}

/// Invariant I1 (single open version), as a consequence of ordering: two
/// open rows for one key cannot both exist.
pub proof fn lemma_single_open(rows: Seq<Row>, i: int, j: int)
    requires
        wf_ordered(rows),
        0 <= i < rows.len(),
        0 <= j < rows.len(),
        rows[i].is_open(),
        rows[j].is_open(),
        rows[i].key() == rows[j].key(),
    ensures
        i == j,
{
    if i < j {
        assert(rows[i].end_block_num is ClosedAt);
    } else if j < i {
        assert(rows[j].end_block_num is ClosedAt);
    }
}

/// Every closed row for a key is eventually succeeded by the key's open
/// row, and ends no later than that open row starts.
pub proof fn lemma_open_successor(rows: Seq<Row>, i: int)
    requires
        wf_rows(rows),
        0 <= i < rows.len(),
        rows[i].end_block_num is ClosedAt,
    ensures
        exists|o: int|
            i < o < rows.len() && (#[trigger] rows[o].key()) == rows[i].key() && rows[o].is_open()
                && rows[i].end() <= rows[o].start_block_num,
    decreases rows.len() - i,
{
    let j = choose|j: int|
        i < j < rows.len() && rows[j].key() == rows[i].key() && rows[j].start_block_num == rows[i].end();
    if rows[j].is_open() {
        assert(i < j < rows.len() && rows[j].key() == rows[i].key() && rows[j].is_open() && rows[i].end() <= rows[j].start_block_num);
    } else {
        lemma_open_successor(rows, j);
        let o = choose|o: int|
            j < o < rows.len() && (#[trigger] rows[o].key()) == rows[j].key() && rows[o].is_open()
                && rows[j].end() <= rows[o].start_block_num;
        assert(rows[i].end() == rows[j].start_block_num < rows[j].end());
        assert(i < o < rows.len() && rows[o].key() == rows[i].key() && rows[o].is_open() && rows[i].end() <= rows[o].start_block_num);
    }
}

/// An arriving version conflicts when an open row for its key does not
/// strictly precede it: applying it could not keep the history gapless
/// and non-overlapping.
pub open spec fn conflicts(rows: Seq<Row>, v: NewVersion) -> bool {
    exists|i: int|
        0 <= i < rows.len() && (#[trigger] rows[i]).is_open() && rows[i].key() == v.entity.key()
            && rows[i].start_block_num >= v.start_block_num
}

/// The row a closed version becomes: same entity and start, closed `at`.
pub open spec fn close_row(r: Row, at: i64) -> Row {
    Row { end_block_num: EndBlockNum::ClosedAt(at), ..r }
}

/// The row a new version opens.
pub open spec fn open_row(v: NewVersion) -> Row {
    Row { entity: v.entity, start_block_num: v.start_block_num, end_block_num: EndBlockNum::Open }
}

/// Closes every open row of key `k` at block `at`.
pub open spec fn close_open_rows(rows: Seq<Row>, k: KeyView, at: i64) -> Seq<Row> {
    Seq::new(
        rows.len(),
        |i: int|
            if rows[i].is_open() && rows[i].key() == k {
                close_row(rows[i], at)
            } else {
                rows[i]
            },
    )
}

/// Effect of one new version: close its key's open predecessor at the new
/// start, then append the new version as the key's open row.
pub open spec fn apply_version(rows: Seq<Row>, v: NewVersion) -> Seq<Row> {
    close_open_rows(rows, v.entity.key(), v.start_block_num).push(open_row(v))
}

/// Effect of an ordered batch, first version first.
pub open spec fn apply_versions(rows: Seq<Row>, batch: Seq<NewVersion>) -> Seq<Row>
    decreases batch.len(),
{
    if batch.len() == 0 {
        rows
    } else {
        apply_versions(apply_version(rows, batch[0]), batch.skip(1))
    }
}

/// Whether an ordered batch applies without conflict, each version judged
/// against the store state its predecessors in the batch produced.
pub open spec fn batch_accepted(rows: Seq<Row>, batch: Seq<NewVersion>) -> bool
    decreases batch.len(),
{
    if batch.len() == 0 {
        true
    } else {
        !conflicts(rows, batch[0]) && batch_accepted(apply_version(rows, batch[0]), batch.skip(1))
    }
}

/// Unfolds a batch application from the right.
pub proof fn lemma_apply_versions_push(rows: Seq<Row>, batch: Seq<NewVersion>, v: NewVersion)
    ensures
        apply_versions(rows, batch.push(v)) == apply_version(apply_versions(rows, batch), v),
    decreases batch.len(),
{
    let b1 = batch.push(v);
    if batch.len() == 0 {
        assert(b1.skip(1) =~= Seq::<NewVersion>::empty());
        assert(b1[0] == v);
        assert(apply_versions(rows, b1) == apply_versions(apply_version(rows, v), b1.skip(1)));
        assert(apply_versions(apply_version(rows, v), b1.skip(1)) == apply_version(rows, v));
        assert(apply_versions(rows, batch) == rows);
    } else {
        assert(b1.skip(1) =~= batch.skip(1).push(v));
        assert(b1[0] == batch[0]);
        lemma_apply_versions_push(apply_version(rows, batch[0]), batch.skip(1), v);
        assert(apply_versions(rows, b1) == apply_versions(apply_version(rows, batch[0]), b1.skip(1)));
        assert(apply_versions(rows, batch) == apply_versions(
            apply_version(rows, batch[0]),
            batch.skip(1),
        ));
    }
}

/// Unfolds batch acceptance from the right.
pub proof fn lemma_batch_accepted_push(rows: Seq<Row>, batch: Seq<NewVersion>, v: NewVersion)
    ensures
        batch_accepted(rows, batch.push(v)) == (batch_accepted(rows, batch) && !conflicts(
            apply_versions(rows, batch),
            v,
        )),
    decreases batch.len(),
{
    let b1 = batch.push(v);
    if batch.len() == 0 {
        assert(b1.skip(1) =~= Seq::<NewVersion>::empty());
        assert(b1[0] == v);
        assert(batch_accepted(rows, b1) == (!conflicts(rows, v) && batch_accepted(
            apply_version(rows, v),
            b1.skip(1),
        )));
        assert(batch_accepted(apply_version(rows, v), b1.skip(1)));
        assert(batch_accepted(rows, batch));
        assert(apply_versions(rows, batch) == rows);
    } else {
        assert(b1.skip(1) =~= batch.skip(1).push(v));
        assert(b1[0] == batch[0]);
        lemma_batch_accepted_push(apply_version(rows, batch[0]), batch.skip(1), v);
        assert(batch_accepted(rows, b1) == (!conflicts(rows, batch[0]) && batch_accepted(
            apply_version(rows, batch[0]),
            b1.skip(1),
        )));
        assert(batch_accepted(rows, batch) == (!conflicts(rows, batch[0]) && batch_accepted(
            apply_version(rows, batch[0]),
            batch.skip(1),
        )));
        assert(apply_versions(rows, batch) == apply_versions(
            apply_version(rows, batch[0]),
            batch.skip(1),
        ));
    }
}

/// A batch accepted as a whole is accepted on every prefix.
pub proof fn lemma_batch_accepted_prefix(rows: Seq<Row>, batch: Seq<NewVersion>, n: int)
    requires
        batch_accepted(rows, batch),
        0 <= n <= batch.len(),
    ensures
        batch_accepted(rows, batch.take(n)),
    decreases batch.len(),
{
    if n == 0 {
        assert(batch.take(0) =~= Seq::<NewVersion>::empty());
    } else {
        assert(batch.take(n)[0] == batch[0]);
        assert(batch.take(n).skip(1) =~= batch.skip(1).take(n - 1));
        lemma_batch_accepted_prefix(apply_version(rows, batch[0]), batch.skip(1), n - 1);
    }
}


/// An open row for a key with a start no earlier than `s0` survives any
/// accepted batch: versions only ever move a key's open start forward.
pub proof fn lemma_open_key_persists(rows: Seq<Row>, batch: Seq<NewVersion>, k: KeyView, s0: i64)
    requires
        batch_accepted(rows, batch),
        exists|w: int|
            0 <= w < rows.len() && (#[trigger] rows[w]).is_open() && rows[w].key() == k && rows[w].start_block_num >= s0,
    ensures
        exists|w: int|
            0 <= w < apply_versions(rows, batch).len() && (#[trigger] apply_versions(rows, batch)[w]).is_open() && apply_versions(rows, batch)[w].key() == k && apply_versions(
                rows,
                batch,
            )[w].start_block_num >= s0,
    decreases batch.len(),
{
    if batch.len() == 0 {
        assert(apply_versions(rows, batch) == rows);
    } else {
        let b0 = batch[0];
        let rows1 = apply_version(rows, b0);
        let w = choose|w: int|
            0 <= w < rows.len() && (#[trigger] rows[w]).is_open() && rows[w].key() == k && rows[w].start_block_num >= s0;
        if b0.entity.key() == k {
            // The batch replaces the key's open row with a later one.
            assert(!conflicts(rows, b0));
            assert(rows[w].start_block_num < b0.start_block_num);
            let n = rows.len() as int;
            assert(rows1[n] == open_row(b0));
            assert(rows1[n].is_open() && rows1[n].key() == k && rows1[n].start_block_num >= s0);
        } else {
            assert(rows1[w] == rows[w]);
            assert(rows1[w].is_open() && rows1[w].key() == k && rows1[w].start_block_num >= s0);
        }
        lemma_open_key_persists(rows1, batch.skip(1), k, s0);
        assert(apply_versions(rows, batch) == apply_versions(rows1, batch.skip(1)));
    }
}

/// Applying an identical non-empty batch twice conflicts on the second
/// application: re-application is never a silent merge.
pub proof fn lemma_reapply_conflicts(rows: Seq<Row>, batch: Seq<NewVersion>)
    requires
        batch_accepted(rows, batch),
        batch.len() > 0,
    ensures
        !batch_accepted(apply_versions(rows, batch), batch),
{
    let b0 = batch[0];
    let k = b0.entity.key();
    let s0 = b0.start_block_num;
    let rows1 = apply_version(rows, b0);
    let n = rows.len() as int;
    assert(rows1[n] == open_row(b0));
    assert(rows1[n].is_open() && rows1[n].key() == k && rows1[n].start_block_num >= s0);
    lemma_open_key_persists(rows1, batch.skip(1), k, s0);
    let fin = apply_versions(rows, batch);
    assert(fin == apply_versions(rows1, batch.skip(1)));
    assert(conflicts(fin, b0));
}

/// Whether some entry of `s`, at position `from` or later, records row
/// index `j`.
pub open spec fn idx_recorded(s: Seq<usize>, from: int, j: int) -> bool {
    exists|t: int| from <= t < s.len() && (#[trigger] s[t]) as int == j
}

/// Applying a conflict-free version preserves well-formedness.
pub proof fn lemma_apply_version_wf(rows: Seq<Row>, v: NewVersion)
    requires
        wf_rows(rows),
        !conflicts(rows, v),
    ensures
        wf_rows(apply_version(rows, v)),
{
    let k = v.entity.key();
    let at = v.start_block_num;
    let out = apply_version(rows, v);
    let n = rows.len() as int;
    assert(out.len() == n + 1);
    assert(out[n] == open_row(v));
    assert(forall|i: int| 0 <= i < n ==> #[trigger] out[i].key() == rows[i].key());
    assert(forall|i: int|
        0 <= i < n ==> #[trigger] out[i].start_block_num == rows[i].start_block_num);

    // Any closed row of key `k` ends strictly before `at`.
    assert forall|i: int|
        0 <= i < n && #[trigger] rows[i].key() == k && rows[i].end_block_num is ClosedAt implies rows[i].end() < at by {
        lemma_open_successor(rows, i);
        let o = choose|o: int|
            i < o < rows.len() && (#[trigger] rows[o].key()) == rows[i].key() && rows[o].is_open()
                && rows[i].end() <= rows[o].start_block_num;
        assert(rows[o].start_block_num < at);
    };

    // There is no same-key row after an open row.
    assert forall|i: int, j: int|
        0 <= i < j < n && #[trigger] rows[i].key() == #[trigger] rows[j].key() implies !rows[i].is_open() by {
        assert(rows[i].end_block_num is ClosedAt);
    };

    assert forall|i: int, j: int|
        0 <= i < j < out.len() && #[trigger] out[i].key() == #[trigger] out[j].key() implies {
        &&& out[i].end_block_num is ClosedAt
        &&& out[i].end() <= out[j].start_block_num
    } by {
        if j < n {
            assert(rows[i].key() == rows[j].key());
            assert(rows[i].end_block_num is ClosedAt);
            assert(out[i] == rows[i]);
            assert(out[i].end() <= out[j].start_block_num);
        } else {
            // j == n: the appended open row of key k.
            assert(rows[i].key() == k);
            if rows[i].is_open() {
                assert(out[i] == close_row(rows[i], at));
                assert(rows[i].start_block_num < at);
                assert(out[i].end() == at);
            } else {
                assert(out[i] == rows[i]);
                assert(rows[i].end() < at);
            }
        }
    };

    assert forall|i: int|
        0 <= i < out.len() && (#[trigger] out[i]).end_block_num is ClosedAt implies out[i].start_block_num < out[i].end() by {
        if i < n {
            if rows[i].is_open() && rows[i].key() == k {
                assert(out[i] == close_row(rows[i], at));
                assert(rows[i].start_block_num < at);
            } else {
                assert(out[i] == rows[i]);
            }
        }
    };

    assert forall|i: int|
        0 <= i < out.len() && (#[trigger] out[i]).end_block_num is ClosedAt implies exists|j: int|
        i < j < out.len() && out[j].key() == out[i].key() && out[j].start_block_num == out[i].end() by {
        if i < n {
            if rows[i].is_open() && rows[i].key() == k {
                assert(out[i] == close_row(rows[i], at));
                assert(out[n].key() == out[i].key() && out[n].start_block_num == out[i].end());
            } else {
                assert(out[i] == rows[i]);
                let j = choose|j: int|
                    i < j < n && rows[j].key() == rows[i].key() && rows[j].start_block_num == rows[i].end();
                assert(out[j].key() == out[i].key() && out[j].start_block_num == out[i].end());
            }
        }
    };
}


/// The in-memory temporal store: one row per stored entity version.
///
/// The write path owns the rows exclusively; queries are read-only.
pub struct TemporalStore {
    pub rows: Vec<Row>,
}

/// Finds the open row for `entity`'s natural key, if any.
pub(crate) fn find_open(rows: &Vec<Row>, entity: &Entity) -> (r: Option<usize>)
    ensures
        match r {
            Some(i) => i < rows@.len() && rows@[i as int].is_open() && rows@[i as int].key()
                == entity.key(),
            None => forall|i: int|
                0 <= i < rows@.len() ==> !((#[trigger] rows@[i]).is_open() && rows@[i].key()
                    == entity.key()),
        },
{
    let mut j: usize = 0;
    let mut found: Option<usize> = None;
    while j < rows.len()
        invariant
            j <= rows@.len(),
            match found {
                Some(i) => i < j && rows@[i as int].is_open() && rows@[i as int].key()
                    == entity.key(),
                None => forall|t: int|
                    0 <= t < j ==> !((#[trigger] rows@[t]).is_open() && rows@[t].key()
                        == entity.key()),
            },
        decreases rows@.len() - j,
    {
        if found.is_none() && rows[j].end_block_num == EndBlockNum::Open && rows[j].entity.same_key(
            entity,
        ) {
            found = Some(j);
        }
        j = j + 1;
    }
    found
}

/// Sets the end bound of row `i`, leaving every other row alone.
fn set_row_end(rows: &mut Vec<Row>, i: usize, e: EndBlockNum)
    requires
        i < old(rows)@.len(),
    ensures
        final(rows)@ == old(rows)@.update(
            i as int,
            Row {
                entity: old(rows)@[i as int].entity,
                start_block_num: old(rows)@[i as int].start_block_num,
                end_block_num: e,
            },
        ),
{
    let row = rows.remove(i);
    rows.insert(
        i,
        Row { entity: row.entity, start_block_num: row.start_block_num, end_block_num: e },
    );
    proof {
        assert(rows@ =~= old(rows)@.update(
            i as int,
            Row {
                entity: old(rows)@[i as int].entity,
                start_block_num: old(rows)@[i as int].start_block_num,
                end_block_num: e,
            },
        ));
    }
}

impl TemporalStore {
    /// Store well-formedness: invariants I1 and I2 hold of the rows.
    pub open spec fn wf(self) -> bool {
        wf_rows(self.rows@)
    }

    /// An empty, well-formed store.
    pub fn new() -> (s: TemporalStore)
        ensures
            s.rows@ == Seq::<Row>::empty(),
            s.wf(),
    {
        let s = TemporalStore { rows: Vec::new() };
        proof {
            assert(s.wf());
        }
        s
    }

    /// Applies a single new version: closes its key's open row at the new
    /// start block and appends the version as the key's open row. On
    /// conflict the rows are untouched. Returns which stored row was
    /// closed, if any.
    fn apply_one(rows: &mut Vec<Row>, v: NewVersion) -> (r: Result<Option<usize>, TraceError>)
        requires
            wf_rows(old(rows)@),
        ensures
            match r {
                Ok(ci) => {
                    &&& !conflicts(old(rows)@, v)
                    &&& final(rows)@ == apply_version(old(rows)@, v)
                    &&& wf_rows(final(rows)@)
                    &&& match ci {
                        Some(i) => i < old(rows)@.len() && old(rows)@[i as int].is_open()
                            && final(rows)@ == old(rows)@.update(
                            i as int,
                            close_row(old(rows)@[i as int], v.start_block_num),
                        ).push(open_row(v)),
                        None => final(rows)@ == old(rows)@.push(open_row(v)),
                    }
                },
                Err(e) => {
                    &&& e == TraceError::Conflict
                    &&& conflicts(old(rows)@, v)
                    &&& final(rows)@ == old(rows)@
                },
            },
    {
        let ghost prev = rows@;
        let found = find_open(rows, &v.entity);
        match found {
            Some(i) => {
                if rows[i].start_block_num >= v.start_block_num {
                    proof {
                        assert(conflicts(prev, v));
                    }
                    Err(TraceError::Conflict)
                } else {
                    let at = v.start_block_num;
                    set_row_end(rows, i, EndBlockNum::ClosedAt(at));
                    let ghost vg = v;
                    let NewVersion { entity, start_block_num } = v;
                    rows.push(Row { entity, start_block_num, end_block_num: EndBlockNum::Open });
                    proof {
                        let kv = vg.entity.key();
                        assert forall|j: int|
                            0 <= j < prev.len() && (#[trigger] prev[j]).is_open() && prev[j].key()
                                == kv implies j == i as int by {
                            lemma_single_open(prev, j, i as int);
                        };
                        assert(!conflicts(prev, vg));
                        assert(rows@ =~= apply_version(prev, vg));
                        assert(rows@ =~= prev.update(
                            i as int,
                            close_row(prev[i as int], vg.start_block_num),
                        ).push(open_row(vg)));
                        lemma_apply_version_wf(prev, vg);
                    }
                    Ok(Some(i))
                }
            },
            None => {
                let ghost vg = v;
                let NewVersion { entity, start_block_num } = v;
                rows.push(Row { entity, start_block_num, end_block_num: EndBlockNum::Open });
                proof {
                    assert(!conflicts(prev, vg));
                    assert(rows@ =~= apply_version(prev, vg));
                    lemma_apply_version_wf(prev, vg);
                }
                Ok(None)
            },
        }
    }

    /// Applies one ordered batch of new versions as a single atomic unit.
    ///
    /// For each version in the caller's order: the currently open row for
    /// its natural key, if any, is closed at the version's start block,
    /// and the version is appended as the key's new open row. If any
    /// version conflicts -- its key's open row does not start strictly
    /// before it -- the whole batch is rolled back and nothing is visible
    /// to readers.
    #[verifier::rlimit(100)]
    pub fn apply_batch(&mut self, batch: Vec<NewVersion>) -> (r: Result<(), TraceError>)
        requires
            old(self).wf(),
        ensures
            final(self).wf(),
            match r {
                Ok(u) => batch_accepted(old(self).rows@, batch@) && final(self).rows@
                    == apply_versions(old(self).rows@, batch@),
                Err(e) => {
                    &&& e == TraceError::Conflict
                    &&& !batch_accepted(old(self).rows@, batch@)
                    &&& final(self).rows@ == old(self).rows@
                },
            },
    {
        let ghost rows0 = self.rows@;
        let ghost batch0 = batch@;
        let rows0_len: usize = self.rows.len();
        let mut pending = batch;
        let mut closed_idx: Vec<usize> = Vec::new();
        let mut conflict = false;

        proof {
            assert(batch0.take(0) =~= Seq::<NewVersion>::empty());
            assert(apply_versions(rows0, batch0.take(0)) == rows0);
            assert(batch_accepted(rows0, batch0.take(0)));
        }

        while pending.len() > 0 && !conflict
            invariant
                rows0.len() == rows0_len,
                pending@.len() <= batch0.len(),
                pending@ == batch0.skip(batch0.len() - pending@.len()),
                wf_rows(self.rows@),
                !conflict ==> {
                    let k = batch0.len() - pending@.len();
                    &&& self.rows@ == apply_versions(rows0, batch0.take(k as int))
                    &&& batch_accepted(rows0, batch0.take(k as int))
                },
                conflict ==> !batch_accepted(rows0, batch0),
                rows0_len as int <= self.rows@.len(),
                forall|j: int|
                    0 <= j < rows0_len ==> (#[trigger] self.rows@[j]).entity == rows0[j].entity
                        && self.rows@[j].start_block_num == rows0[j].start_block_num,
                forall|j: int|
                    0 <= j < rows0_len && !idx_recorded(closed_idx@, 0, j) ==> self.rows@[j]
                        == rows0[j],
                forall|j: int|
                    0 <= j < rows0_len && idx_recorded(closed_idx@, 0, j) ==> rows0[j].is_open(),
            decreases pending@.len(),
        {
            let ghost prev = self.rows@;
            let ghost k = batch0.len() - pending@.len();
            let v = pending.remove(0);
            let ghost vg = v;
            proof {
                assert(vg == batch0[k as int]);
                assert(pending@ =~= batch0.skip(batch0.len() - pending@.len()));
                assert(batch0.take(k + 1) =~= batch0.take(k as int).push(vg));
            }
            let step = Self::apply_one(&mut self.rows, v);
            match step {
                Ok(ci) => {
                    proof {
                        lemma_batch_accepted_push(rows0, batch0.take(k as int), vg);
                        lemma_apply_versions_push(rows0, batch0.take(k as int), vg);
                        assert(batch_accepted(rows0, batch0.take(k + 1)));
                        assert(self.rows@ == apply_versions(rows0, batch0.take(k + 1)));
                    }
                    match ci {
                        Some(i) => {
                            let ghost ci0 = closed_idx@;
                            closed_idx.push(i);
                            proof {
                                assert(closed_idx@ =~= ci0.push(i));
                                assert forall|j: int|
                                    0 <= j < rows0_len && !idx_recorded(closed_idx@, 0, j) implies self.rows@[j]
                                    == rows0[j] by {
                                    assert(!idx_recorded(ci0, 0, j)) by {
                                        if idx_recorded(ci0, 0, j) {
                                            let t = choose|t: int|
                                                0 <= t < ci0.len() && (#[trigger] ci0[t]) as int
                                                    == j;
                                            assert((closed_idx@[t]) as int == j);
                                        }
                                    };
                                    assert(j != i as int) by {
                                        if j == i as int {
                                            assert((closed_idx@[ci0.len() as int]) as int == j);
                                        }
                                    };
                                    assert(prev[j] == rows0[j]);
                                };
                                assert forall|j: int|
                                    0 <= j < rows0_len && idx_recorded(closed_idx@, 0, j) implies rows0[j].is_open() by {
                                    let t = choose|t: int|
                                        0 <= t < closed_idx@.len() && (#[trigger] closed_idx@[t])
                                            as int == j;
                                    if t < ci0.len() {
                                        assert((ci0[t]) as int == j);
                                        assert(idx_recorded(ci0, 0, j));
                                    } else {
                                        assert(j == i as int);
                                        if !idx_recorded(ci0, 0, j) {
                                            assert(prev[j] == rows0[j]);
                                        }
                                    }
                                };
                            }
                        },
                        None => {
                            proof {
                                assert forall|j: int|
                                    0 <= j < rows0_len && !idx_recorded(closed_idx@, 0, j) implies self.rows@[j]
                                    == rows0[j] by {
                                    assert(prev[j] == rows0[j]);
                                };
                            }
                        },
                    }
                },
                Err(e) => {
                    conflict = true;
                    proof {
                        lemma_batch_accepted_push(rows0, batch0.take(k as int), vg);
                        lemma_apply_versions_push(rows0, batch0.take(k as int), vg);
                        assert(!batch_accepted(rows0, batch0.take(k + 1)));
                        if batch_accepted(rows0, batch0) {
                            lemma_batch_accepted_prefix(rows0, batch0, k + 1);
                        }
                    }
                },
            }
        }

        if conflict {
            self.rows.truncate(rows0_len);
            let mut m: usize = 0;
            while m < closed_idx.len()
                invariant
                    rows0.len() == rows0_len,
                    self.rows@.len() == rows0_len,
                    m <= closed_idx@.len(),
                    forall|j: int|
                        0 <= j < rows0_len ==> (#[trigger] self.rows@[j]).entity == rows0[j].entity
                            && self.rows@[j].start_block_num == rows0[j].start_block_num,
                    forall|j: int|
                        0 <= j < rows0_len && idx_recorded(closed_idx@, 0, j) ==> rows0[j].is_open(),
                    forall|j: int|
                        0 <= j < rows0_len && !idx_recorded(closed_idx@, m as int, j)
                            ==> self.rows@[j] == rows0[j],
                decreases closed_idx@.len() - m,
            {
                let j = closed_idx[m];
                if j < rows0_len {
                    set_row_end(&mut self.rows, j, EndBlockNum::Open);
                    proof {
                        assert(idx_recorded(closed_idx@, 0, j as int));
                        assert(rows0[j as int].is_open());
                        assert(self.rows@[j as int] == rows0[j as int]);
                    }
                }
                m = m + 1;
                proof {
                    assert forall|t: int|
                        0 <= t < rows0_len && !idx_recorded(closed_idx@, m as int, t) implies self.rows@[t]
                        == rows0[t] by {
                        if t != j as int {
                            if !idx_recorded(closed_idx@, m as int - 1, t) {
                            }
                        }
                    };
                }
            }
            proof {
                assert forall|j: int| 0 <= j < rows0_len implies self.rows@[j] == rows0[j] by {
                    assert(!idx_recorded(closed_idx@, closed_idx@.len() as int, j));
                };
                assert(self.rows@ =~= rows0);
            }
            Err(TraceError::Conflict)
        } else {
            proof {
                assert(batch0.take(batch0.len() as int) =~= batch0);
            }
            Ok(())
        }
    }

    /// Stores a batch of new record versions: for each one, the key's open
    /// predecessor is closed at the new start block and the new version
    /// becomes current. One atomic unit: all or nothing.
    pub fn insert_records(&mut self, records: Vec<NewVersion>) -> (r: Result<(), TraceError>)
        requires
            old(self).wf(),
            forall|i: int|
                0 <= i < records@.len() ==> (#[trigger] records@[i]).entity is Record,
        ensures
            final(self).wf(),
            match r {
                Ok(u) => batch_accepted(old(self).rows@, records@) && final(self).rows@
                    == apply_versions(old(self).rows@, records@),
                Err(e) => {
                    &&& e == TraceError::Conflict
                    &&& !batch_accepted(old(self).rows@, records@)
                    &&& final(self).rows@ == old(self).rows@
                },
            },
    {
        self.apply_batch(records)
    }

    /// Stores a batch of new associated agent versions: for each one, the key's open
    /// predecessor is closed at the new start block and the new version
    /// becomes current. One atomic unit: all or nothing.
    pub fn insert_associated_agents(&mut self, agents: Vec<NewVersion>) -> (r: Result<(), TraceError>)
        requires
            old(self).wf(),
            forall|i: int|
                0 <= i < agents@.len() ==> (#[trigger] agents@[i]).entity is AssociatedAgent,
        ensures
            final(self).wf(),
            match r {
                Ok(u) => batch_accepted(old(self).rows@, agents@) && final(self).rows@
                    == apply_versions(old(self).rows@, agents@),
                Err(e) => {
                    &&& e == TraceError::Conflict
                    &&& !batch_accepted(old(self).rows@, agents@)
                    &&& final(self).rows@ == old(self).rows@
                },
            },
    {
        self.apply_batch(agents)
    }

    /// Stores a batch of new property versions: for each one, the key's open
    /// predecessor is closed at the new start block and the new version
    /// becomes current. One atomic unit: all or nothing.
    pub fn insert_properties(&mut self, properties: Vec<NewVersion>) -> (r: Result<(), TraceError>)
        requires
            old(self).wf(),
            forall|i: int|
                0 <= i < properties@.len() ==> (#[trigger] properties@[i]).entity is Property,
        ensures
            final(self).wf(),
            match r {
                Ok(u) => batch_accepted(old(self).rows@, properties@) && final(self).rows@
                    == apply_versions(old(self).rows@, properties@),
                Err(e) => {
                    &&& e == TraceError::Conflict
                    &&& !batch_accepted(old(self).rows@, properties@)
                    &&& final(self).rows@ == old(self).rows@
                },
            },
    {
        self.apply_batch(properties)
    }

    /// Stores a batch of new proposal versions: for each one, the key's open
    /// predecessor is closed at the new start block and the new version
    /// becomes current. One atomic unit: all or nothing.
    pub fn insert_proposals(&mut self, proposals: Vec<NewVersion>) -> (r: Result<(), TraceError>)
        requires
            old(self).wf(),
            forall|i: int|
                0 <= i < proposals@.len() ==> (#[trigger] proposals@[i]).entity is Proposal,
        ensures
            final(self).wf(),
            match r {
                Ok(u) => batch_accepted(old(self).rows@, proposals@) && final(self).rows@
                    == apply_versions(old(self).rows@, proposals@),
                Err(e) => {
                    &&& e == TraceError::Conflict
                    &&& !batch_accepted(old(self).rows@, proposals@)
                    &&& final(self).rows@ == old(self).rows@
                },
            },
    {
        self.apply_batch(proposals)
    }

    /// Stores a batch of new reporter versions: for each one, the key's open
    /// predecessor is closed at the new start block and the new version
    /// becomes current. One atomic unit: all or nothing.
    pub fn insert_reporters(&mut self, reporters: Vec<NewVersion>) -> (r: Result<(), TraceError>)
        requires
            old(self).wf(),
            forall|i: int|
                0 <= i < reporters@.len() ==> (#[trigger] reporters@[i]).entity is Reporter,
        ensures
            final(self).wf(),
            match r {
                Ok(u) => batch_accepted(old(self).rows@, reporters@) && final(self).rows@
                    == apply_versions(old(self).rows@, reporters@),
                Err(e) => {
                    &&& e == TraceError::Conflict
                    &&& !batch_accepted(old(self).rows@, reporters@)
                    &&& final(self).rows@ == old(self).rows@
                },
            },
    {
        self.apply_batch(reporters)
    }

    /// Stores a batch of new reported value versions: for each one, the key's open
    /// predecessor is closed at the new start block and the new version
    /// becomes current. One atomic unit: all or nothing.
    pub fn insert_reported_values(&mut self, values: Vec<NewVersion>) -> (r: Result<(), TraceError>)
        requires
            old(self).wf(),
            forall|i: int|
                0 <= i < values@.len() ==> (#[trigger] values@[i]).entity is ReportedValue,
        ensures
            final(self).wf(),
            match r {
                Ok(u) => batch_accepted(old(self).rows@, values@) && final(self).rows@
                    == apply_versions(old(self).rows@, values@),
                Err(e) => {
                    &&& e == TraceError::Conflict
                    &&& !batch_accepted(old(self).rows@, values@)
                    &&& final(self).rows@ == old(self).rows@
                },
            },
    {
        self.apply_batch(values)
    }

    /// Closes every open row of the probe's natural key at `at`: the
    /// close half of the versioned upsert, exactly as the write path
    /// performs it before inserting a successor. Standing alone it leaves
    /// the key with no current version, so the gapless-history shape is
    /// only preserved when a successor starting at `at` follows;
    /// [`Self::apply_batch`] does both as one atomic unit.
    fn close_open_key(&mut self, probe: &Entity, at: i64)
        ensures
            final(self).rows@ == close_open_rows(old(self).rows@, probe.key(), at),
    {
        let ghost rows0 = self.rows@;
        let mut j: usize = 0;
        while j < self.rows.len()
            invariant
                rows0.len() == self.rows@.len(),
                j <= rows0.len(),
                forall|t: int|
                    0 <= t < rows0.len() ==> #[trigger] self.rows@[t] == (if t < j && rows0[t].is_open()
                        && rows0[t].key() == probe.key() {
                        close_row(rows0[t], at)
                    } else {
                        rows0[t]
                    }),
            decreases rows0.len() - j,
        {
            let open_now = self.rows[j].end_block_num == EndBlockNum::Open;
            let hit = open_now && self.rows[j].entity.same_key(probe);
            if hit {
                set_row_end(&mut self.rows, j, EndBlockNum::ClosedAt(at));
            }
            j = j + 1;
        }
        proof {
            assert(self.rows@ =~= close_open_rows(rows0, probe.key(), at));
        }
    }

    /// An empty reported-value payload, used only to shape a key probe.
    fn probe_value_data() -> ReportedValueData {
        ReportedValueData {
            data_type: DataType::Struct,
            timestamp: 0,
            reporter_index: 0,
            string_value: None,
            boolean_value: None,
            number_value: None,
            enum_value: None,
            bytes_value: None,
            lat_long_value: None,
            struct_values: None,
        }
    }

    /// Closes the open record version, if any, at `current_block_num`.
    pub fn update_record_end_block_num(&mut self, record_id: &str, current_block_num: i64)
        ensures
            final(self).rows@ == close_open_rows(
                old(self).rows@,
                KeyView::Record { record_id: record_id@ },
                current_block_num,
            ),
    {
        let probe = Entity::Record { record_id: record_id.to_owned() };
        self.close_open_key(&probe, current_block_num)
    }

    /// Closes the open associated-agent version, if any, at
    /// `current_block_num`.
    pub fn update_associated_agent_end_block_num(
        &mut self,
        record_id: &str,
        agent_id: &str,
        current_block_num: i64,
    )
        ensures
            final(self).rows@ == close_open_rows(
                old(self).rows@,
                KeyView::AssociatedAgent { record_id: record_id@, agent_id: agent_id@ },
                current_block_num,
            ),
    {
        let probe = Entity::AssociatedAgent {
            record_id: record_id.to_owned(),
            agent_id: agent_id.to_owned(),
        };
        self.close_open_key(&probe, current_block_num)
    }

    /// Closes the open property version, if any, at `current_block_num`.
    pub fn update_property_end_block_num(
        &mut self,
        name: &str,
        record_id: &str,
        current_block_num: i64,
    )
        ensures
            final(self).rows@ == close_open_rows(
                old(self).rows@,
                KeyView::Property { record_id: record_id@, name: name@ },
                current_block_num,
            ),
    {
        let probe = Entity::Property { record_id: record_id.to_owned(), name: name.to_owned() };
        self.close_open_key(&probe, current_block_num)
    }

    /// Closes the open proposal version, if any, at `current_block_num`.
    pub fn update_proposal_end_block_num(
        &mut self,
        record_id: &str,
        receiving_agent: &str,
        current_block_num: i64,
    )
        ensures
            final(self).rows@ == close_open_rows(
                old(self).rows@,
                KeyView::Proposal {
                    record_id: record_id@,
                    receiving_agent: receiving_agent@,
                },
                current_block_num,
            ),
    {
        let probe = Entity::Proposal {
            record_id: record_id.to_owned(),
            receiving_agent: receiving_agent.to_owned(),
        };
        self.close_open_key(&probe, current_block_num)
    }

    /// Closes the open reported-value version, if any, at
    /// `current_block_num`.
    pub fn update_reported_value_end_block_num(
        &mut self,
        property_name: &str,
        record_id: &str,
        current_block_num: i64,
    )
        ensures
            final(self).rows@ == close_open_rows(
                old(self).rows@,
                KeyView::ReportedValue {
                    record_id: record_id@,
                    property_name: property_name@,
                },
                current_block_num,
            ),
    {
        let probe = Entity::ReportedValue {
            record_id: record_id.to_owned(),
            property_name: property_name.to_owned(),
            value: Self::probe_value_data(),
        };
        self.close_open_key(&probe, current_block_num)
    }

    /// Closes the open reporter version, if any, at `current_block_num`.
    pub fn update_reporter_end_block_num(
        &mut self,
        property_name: &str,
        record_id: &str,
        public_key: &str,
        current_block_num: i64,
    )
        ensures
            final(self).rows@ == close_open_rows(
                old(self).rows@,
                KeyView::Reporter {
                    record_id: record_id@,
                    property_name: property_name@,
                    public_key: public_key@,
                },
                current_block_num,
            ),
    {
        let probe = Entity::Reporter {
            record_id: record_id.to_owned(),
            property_name: property_name.to_owned(),
            public_key: public_key.to_owned(),
            authorized: false,
            reporter_index: 0,
            metadata: None,
        };
        self.close_open_key(&probe, current_block_num)
    }
}

} // verus!
