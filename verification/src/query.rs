//! The history query engine: current and as-of-block lookups, and ordered
//! version histories. All operations here are read-only.

use vstd::prelude::*;
use crate::block_num::EndBlockNum;
use crate::entity::{str_eq, Entity, KeyView};
use crate::error::{DataIntegrityKind, TraceError};
use crate::store::{find_open, wf_intervals, wf_ordered, wf_rows, Row, TemporalStore};

verus! {

/// Natural key of a property entity.
pub open spec fn property_key(record_id: Seq<char>, name: Seq<char>) -> KeyView {
    KeyView::Property { record_id, name }
}

/// Natural key of a reported-value entity.
pub open spec fn reported_value_key(record_id: Seq<char>, property_name: Seq<char>) -> KeyView {
    KeyView::ReportedValue { record_id, property_name }
}

/// Indices of the rows versioning key `k`, in storage order.
pub open spec fn history_idxs(rows: Seq<Row>, k: KeyView) -> Seq<int>
    decreases rows.len(),
{
    if rows.len() == 0 {
        Seq::empty()
    } else {
        let t = history_idxs(rows.drop_last(), k);
        if rows.last().key() == k {
            t.push(rows.len() - 1)
        } else {
            t
        }
    }
}

/// The full version history of key `k`, in storage order.
pub open spec fn history_of(rows: Seq<Row>, k: KeyView) -> Seq<Row> {
    history_idxs(rows, k).map_values(|i: int| rows[i])
}

/// The indices produced by [`history_idxs`] are exactly the positions of
/// the key's rows, listed in strictly increasing order.
pub proof fn lemma_history_idxs(rows: Seq<Row>, k: KeyView)
    ensures
        forall|m: int|
            0 <= m < history_idxs(rows, k).len() ==> {
                &&& 0 <= #[trigger] history_idxs(rows, k)[m] < rows.len()
                &&& rows[history_idxs(rows, k)[m]].key() == k
            },
        forall|m1: int, m2: int|
            0 <= m1 < m2 < history_idxs(rows, k).len() ==> #[trigger] history_idxs(rows, k)[m1]
                < #[trigger] history_idxs(rows, k)[m2],
        forall|i: int|
            0 <= i < rows.len() && (#[trigger] rows[i]).key() == k ==> history_idxs(
                rows,
                k,
            ).contains(i),
    decreases rows.len(),
{
    if rows.len() > 0 {
        let prev = rows.drop_last();
        lemma_history_idxs(prev, k);
        let t = history_idxs(prev, k);
        let h = history_idxs(rows, k);
        assert(forall|m: int| 0 <= m < t.len() ==> prev[#[trigger] t[m]] == rows[t[m]]);
        assert forall|i: int|
            0 <= i < rows.len() && (#[trigger] rows[i]).key() == k implies h.contains(i) by {
            if i < rows.len() - 1 {
                assert(prev[i] == rows[i]);
                assert(t.contains(i));
                let m = choose|m: int| 0 <= m < t.len() && t[m] == i;
                assert(h[m] == i);
            } else {
                assert(h[h.len() - 1] == i);
            }
        };
    }
}

/// The listed history of a well-formed store is ascending by start block
/// and tiles the key's observed block range: each version ends exactly
/// where the next one starts, and only the last version is open.
pub proof fn lemma_history_ordered(rows: Seq<Row>, k: KeyView)
    requires
        wf_rows(rows),
    ensures
        forall|m1: int, m2: int|
            0 <= m1 < m2 < history_of(rows, k).len() ==> #[trigger] history_of(rows, k)[m1].start_block_num
                < #[trigger] history_of(rows, k)[m2].start_block_num,
        forall|m: int|
            0 <= m < history_of(rows, k).len() - 1 ==> (#[trigger] history_of(rows, k)[m]).end_block_num
                is ClosedAt && history_of(rows, k)[m].end() == history_of(rows, k)[m
                + 1].start_block_num,
        history_of(rows, k).len() > 0 ==> history_of(rows, k).last().is_open(),
{
    lemma_history_idxs(rows, k);
    let idxs = history_idxs(rows, k);
    let h = history_of(rows, k);
    assert(h.len() == idxs.len());
    assert(forall|m: int| 0 <= m < h.len() ==> h[m] == rows[#[trigger] idxs[m]]);

    assert forall|m1: int, m2: int| 0 <= m1 < m2 < h.len() implies #[trigger] h[m1].start_block_num
        < #[trigger] h[m2].start_block_num by {
        let i1 = idxs[m1];
        let i2 = idxs[m2];
        assert(rows[i1].key() == k && rows[i2].key() == k);
        assert(rows[i1].end_block_num is ClosedAt && rows[i1].end() <= rows[i2].start_block_num);
        assert(rows[i1].start_block_num < rows[i1].end());
    };

    assert forall|m: int| 0 <= m < h.len() - 1 implies (#[trigger] h[m]).end_block_num is ClosedAt
        && h[m].end() == h[m + 1].start_block_num by {
        let i1 = idxs[m];
        let i2 = idxs[m + 1];
        assert(rows[i1].key() == k && rows[i2].key() == k);
        assert(rows[i1].end_block_num is ClosedAt && rows[i1].end() <= rows[i2].start_block_num);
        // The gapless successor of i1 can only be i2 itself.
        let j = choose|j: int|
            i1 < j < rows.len() && rows[j].key() == rows[i1].key() && rows[j].start_block_num
                == rows[i1].end();
        assert(idxs.contains(j));
        let mj = choose|mj: int| 0 <= mj < idxs.len() && idxs[mj] == j;
        assert(mj > m);
        if mj > m + 1 {
            assert(idxs[m + 1] < idxs[mj]);
            assert(rows[i2].end_block_num is ClosedAt && rows[i2].end() <= rows[j].start_block_num);
            assert(rows[i2].start_block_num < rows[i2].end());
            assert(rows[i1].end() <= rows[i2].start_block_num);
            assert(false);
        }
    };

    if h.len() > 0 {
        let il = idxs[idxs.len() - 1];
        if rows[il].end_block_num is ClosedAt {
            let j = choose|j: int|
                il < j < rows.len() && rows[j].key() == rows[il].key() && rows[j].start_block_num
                    == rows[il].end();
            assert(idxs.contains(j));
            let mj = choose|mj: int| 0 <= mj < idxs.len() && idxs[mj] == j;
            assert(idxs[mj] <= il);
            assert(false);
        }
        assert(h.last() == rows[il]);
    }
}

/// In a well-formed store an as-of lookup can never be ambiguous: two
/// rows of one key with overlapping validity intervals cannot coexist.
pub proof fn lemma_as_of_unique(rows: Seq<Row>, k: KeyView, block_num: i64, i: int, j: int)
    requires
        wf_ordered(rows),
        wf_intervals(rows),
        0 <= i < rows.len(),
        0 <= j < rows.len(),
        rows[i].key() == k,
        rows[j].key() == k,
        rows[i].covers(block_num),
        rows[j].covers(block_num),
    ensures
        i == j,
{
    if i < j {
        assert(rows[i].end_block_num is ClosedAt && rows[i].end() <= rows[j].start_block_num);
    } else if j < i {
        assert(rows[j].end_block_num is ClosedAt && rows[j].end() <= rows[i].start_block_num);
    }
}

/// Whether `r` is a reported-value row for the given record and property.
pub(crate) fn is_reported_value_row_pub(r: &Row, record_id: &str, property_name: &str) -> (b: bool)
    ensures
        b == (r.key() == reported_value_key(record_id@, property_name@)),
{
    is_reported_value_row(r, record_id, property_name)
}

/// Whether `r` is a reported-value row for the given record and property.
fn is_reported_value_row(r: &Row, record_id: &str, property_name: &str) -> (b: bool)
    ensures
        b == (r.key() == reported_value_key(record_id@, property_name@)),
{
    match &r.entity {
        Entity::ReportedValue { record_id: rid, property_name: pn, .. } => {
            str_eq(rid.as_str(), record_id) && str_eq(pn.as_str(), property_name)
        },
        _ => false,
    }
}

/// Whether `r` is a property row for the given record and name.
fn is_property_row(r: &Row, record_id: &str, name: &str) -> (b: bool)
    ensures
        b == (r.key() == property_key(record_id@, name@)),
{
    match &r.entity {
        Entity::Property { record_id: rid, name: n } => {
            str_eq(rid.as_str(), record_id) && str_eq(n.as_str(), name)
        },
        _ => false,
    }
}

/// Whether `r` is a reporter row authorized over the given record and
/// property, whatever its public key.
pub open spec fn spec_is_reporter_row(r: Row, record_id: Seq<char>, property_name: Seq<char>) -> bool {
    match r.entity {
        Entity::Reporter { record_id: rid, property_name: pn, .. } => rid@ == record_id && pn@
            == property_name,
        _ => false,
    }
}

/// Executable form of [`spec_is_reporter_row`].
fn is_reporter_row(r: &Row, record_id: &str, property_name: &str) -> (b: bool)
    ensures
        b == spec_is_reporter_row(*r, record_id@, property_name@),
{
    match &r.entity {
        Entity::Reporter { record_id: rid, property_name: pn, .. } => {
            str_eq(rid.as_str(), record_id) && str_eq(pn.as_str(), property_name)
        },
        _ => false,
    }
}

/// The current (open) reporter rows for a record's property, in storage
/// order: one per authorized-or-revoked reporter public key.
pub open spec fn current_reporters_of(
    rows: Seq<Row>,
    record_id: Seq<char>,
    property_name: Seq<char>,
) -> Seq<Row>
    decreases rows.len(),
{
    if rows.len() == 0 {
        Seq::empty()
    } else {
        let t = current_reporters_of(rows.drop_last(), record_id, property_name);
        if spec_is_reporter_row(rows.last(), record_id, property_name) && rows.last().is_open() {
            t.push(rows.last())
        } else {
            t
        }
    }
}


/// Whether `r` is the open reported-value row for the given key.
pub open spec fn open_rv_hit(r: Row, record_id: Seq<char>, property_name: Seq<char>) -> bool {
    r.is_open() && r.key() == reported_value_key(record_id, property_name)
}

/// First open reported-value row for the key, scanning in storage order.
pub open spec fn spec_find_open_rv(
    rows: Seq<Row>,
    record_id: Seq<char>,
    property_name: Seq<char>,
) -> Option<int>
    decreases rows.len(),
{
    if rows.len() == 0 {
        None
    } else {
        let p = spec_find_open_rv(rows.drop_last(), record_id, property_name);
        if p is Some {
            p
        } else if open_rv_hit(rows.last(), record_id, property_name) {
            Some(rows.len() - 1)
        } else {
            None
        }
    }
}

/// Whether `r` is the open property row for the given key.
pub open spec fn open_prop_hit(r: Row, record_id: Seq<char>, name: Seq<char>) -> bool {
    r.is_open() && r.key() == property_key(record_id, name)
}

/// First open property row for the key, scanning in storage order.
pub open spec fn spec_find_open_prop(rows: Seq<Row>, record_id: Seq<char>, name: Seq<char>) -> Option<
    int,
>
    decreases rows.len(),
{
    if rows.len() == 0 {
        None
    } else {
        let p = spec_find_open_prop(rows.drop_last(), record_id, name);
        if p is Some {
            p
        } else if open_prop_hit(rows.last(), record_id, name) {
            Some(rows.len() - 1)
        } else {
            None
        }
    }
}

/// Whether `r` is an open reporter row for the given record and property
/// carrying the given reporter index.
pub open spec fn reporter_hit(
    r: Row,
    record_id: Seq<char>,
    property_name: Seq<char>,
    index: i32,
) -> bool {
    match r.entity {
        Entity::Reporter { record_id: rid, property_name: pn, reporter_index, .. } => {
            r.is_open() && rid@ == record_id && pn@ == property_name && reporter_index == index
        },
        _ => false,
    }
}

/// First open reporter row joining the given reported value's reporter
/// index, scanning in storage order.
pub open spec fn spec_find_reporter(
    rows: Seq<Row>,
    record_id: Seq<char>,
    property_name: Seq<char>,
    index: i32,
) -> Option<int>
    decreases rows.len(),
{
    if rows.len() == 0 {
        None
    } else {
        let p = spec_find_reporter(rows.drop_last(), record_id, property_name, index);
        if p is Some {
            p
        } else if reporter_hit(rows.last(), record_id, property_name, index) {
            Some(rows.len() - 1)
        } else {
            None
        }
    }
}


/// A found first-match open property row satisfies its hit predicate.
pub proof fn lemma_find_open_prop_hit(rows: Seq<Row>, record_id: Seq<char>, name: Seq<char>)
    ensures
        spec_find_open_prop(rows, record_id, name) matches Some(i) ==> 0 <= i < rows.len()
            && open_prop_hit(rows[i], record_id, name),
    decreases rows.len(),
{
    if rows.len() > 0 {
        lemma_find_open_prop_hit(rows.drop_last(), record_id, name);
        match spec_find_open_prop(rows.drop_last(), record_id, name) {
            Some(i) => {
                assert(rows.drop_last()[i] == rows[i]);
            },
            None => {},
        }
    }
}

/// A found first-match open reported-value row satisfies its hit
/// predicate.
pub proof fn lemma_find_open_rv_hit(rows: Seq<Row>, record_id: Seq<char>, property_name: Seq<char>)
    ensures
        spec_find_open_rv(rows, record_id, property_name) matches Some(i) ==> 0 <= i < rows.len()
            && open_rv_hit(rows[i], record_id, property_name),
    decreases rows.len(),
{
    if rows.len() > 0 {
        lemma_find_open_rv_hit(rows.drop_last(), record_id, property_name);
        match spec_find_open_rv(rows.drop_last(), record_id, property_name) {
            Some(i) => {
                assert(rows.drop_last()[i] == rows[i]);
            },
            None => {},
        }
    }
}

/// A found first-match reporter row satisfies its hit predicate.
pub proof fn lemma_find_reporter_hit(
    rows: Seq<Row>,
    record_id: Seq<char>,
    property_name: Seq<char>,
    index: i32,
)
    ensures
        spec_find_reporter(rows, record_id, property_name, index) matches Some(i) ==> 0 <= i
            < rows.len() && reporter_hit(rows[i], record_id, property_name, index),
    decreases rows.len(),
{
    if rows.len() > 0 {
        lemma_find_reporter_hit(rows.drop_last(), record_id, property_name, index);
        match spec_find_reporter(rows.drop_last(), record_id, property_name, index) {
            Some(i) => {
                assert(rows.drop_last()[i] == rows[i]);
            },
            None => {},
        }
    }
}

impl TemporalStore {
    /// The open row for the natural key of `entity`, if any: the key's
    /// current version. Payload fields of `entity` play no part.
    pub fn fetch_current(&self, entity: &Entity) -> (r: Option<&Row>)
        ensures
            match r {
                Some(row) => {
                    &&& exists|i: int|
                        0 <= i < self.rows@.len() && #[trigger] self.rows@[i] == *row
                    &&& row.is_open()
                    &&& row.key() == entity.key()
                },
                None => forall|i: int|
                    0 <= i < self.rows@.len() ==> !((#[trigger] self.rows@[i]).is_open()
                        && self.rows@[i].key() == entity.key()),
            },
    {
        match find_open(&self.rows, entity) {
            Some(i) => {
                let row = &self.rows[i];
                proof {
                    assert(self.rows@[i as int] == *row);
                }
                Some(row)
            },
            None => None,
        }
    }

    /// The unique row whose validity interval contains `block_num`, for
    /// the natural key of `entity`.
    ///
    /// In a well-formed store at most one row can match
    /// ([`lemma_as_of_unique`]); finding two is corruption, surfaced as a
    /// data-integrity error rather than silently picking one.
    pub fn fetch_as_of(&self, entity: &Entity, block_num: i64) -> (r: Result<&Row, TraceError>)
        ensures
            match r {
                Ok(row) => {
                    &&& exists|i: int|
                        0 <= i < self.rows@.len() && #[trigger] self.rows@[i] == *row
                    &&& row.key() == entity.key()
                    &&& row.covers(block_num)
                },
                Err(e) => {
                    &&& (e == TraceError::NotFound || e == TraceError::DataIntegrity(
                        DataIntegrityKind::AmbiguousAsOf,
                    ))
                    &&& e == TraceError::NotFound ==> forall|i: int|
                        0 <= i < self.rows@.len() ==> !((#[trigger] self.rows@[i]).key()
                            == entity.key() && self.rows@[i].covers(block_num))
                    &&& e == TraceError::DataIntegrity(DataIntegrityKind::AmbiguousAsOf)
                        ==> exists|i: int, j: int|
                        0 <= i < j < self.rows@.len() && (#[trigger] self.rows@[i]).key()
                            == entity.key() && (#[trigger] self.rows@[j]).key() == entity.key()
                            && self.rows@[i].covers(block_num) && self.rows@[j].covers(block_num)
                },
            },
    {
        let mut j: usize = 0;
        let mut found: Option<usize> = None;
        let mut ambiguous = false;
        while j < self.rows.len()
            invariant
                j <= self.rows@.len(),
                match found {
                    Some(i) => i < j && self.rows@[i as int].key() == entity.key()
                        && self.rows@[i as int].covers(block_num),
                    None => forall|t: int|
                        0 <= t < j ==> !((#[trigger] self.rows@[t]).key() == entity.key()
                            && self.rows@[t].covers(block_num)),
                },
                ambiguous ==> exists|i1: int, i2: int|
                    0 <= i1 < i2 < self.rows@.len() && (#[trigger] self.rows@[i1]).key()
                        == entity.key() && (#[trigger] self.rows@[i2]).key() == entity.key()
                        && self.rows@[i1].covers(block_num) && self.rows@[i2].covers(block_num),
            decreases self.rows@.len() - j,
        {
            if self.rows[j].entity.same_key(entity) && self.rows[j].end_block_num.contains_block(
                self.rows[j].start_block_num,
                block_num,
            ) {
                match found {
                    Some(i) => {
                        ambiguous = true;
                        proof {
                            let i1 = i as int;
                            let i2 = j as int;
                            assert(0 <= i1 < i2 < self.rows@.len() && self.rows@[i1].key()
                                == entity.key() && self.rows@[i2].key() == entity.key()
                                && self.rows@[i1].covers(block_num) && self.rows@[i2].covers(
                                block_num,
                            ));
                        }
                    },
                    None => {
                        found = Some(j);
                    },
                }
            }
            j = j + 1;
        }
        if ambiguous {
            Err(TraceError::DataIntegrity(DataIntegrityKind::AmbiguousAsOf))
        } else {
            match found {
                Some(i) => {
                    let row = &self.rows[i];
                    proof {
                        assert(self.rows@[i as int] == *row);
                    }
                    Ok(row)
                },
                None => Err(TraceError::NotFound),
            }
        }
    }

    /// The full ordered version history of the natural key of `entity`,
    /// in storage order: ascending by start block in a well-formed store
    /// ([`lemma_history_ordered`]).
    pub fn list_history(&self, entity: &Entity) -> (r: Vec<&Row>)
        ensures
            r@.len() == history_of(self.rows@, entity.key()).len(),
            forall|m: int|
                0 <= m < r@.len() ==> *(#[trigger] r@[m]) == history_of(self.rows@, entity.key())[m],
    {
        let ghost k = entity.key();
        let mut out: Vec<&Row> = Vec::new();
        let mut j: usize = 0;
        while j < self.rows.len()
            invariant
                k == entity.key(),
                j <= self.rows@.len(),
                out@.len() == history_of(self.rows@.take(j as int), k).len(),
                forall|m: int|
                    0 <= m < out@.len() ==> *(#[trigger] out@[m]) == history_of(
                        self.rows@.take(j as int),
                        k,
                    )[m],
            decreases self.rows@.len() - j,
        {
            let ghost pre = self.rows@.take(j as int);
            let ghost out0 = out@;
            let row = &self.rows[j];
            let matches_key = row.entity.same_key(entity);
            proof {
                assert(*row == self.rows@[j as int]);
                assert(matches_key == (self.rows@[j as int].entity.key() == entity.key()));
            }
            if matches_key {
                out.push(row);
                proof {
                    assert(out@.len() == out0.len() + 1);
                    assert(forall|m: int| 0 <= m < out0.len() ==> out@[m] == out0[m]);
                    assert(*out@[out0.len() as int] == self.rows@[j as int]);
                    assert(self.rows@[j as int].key() == k);
                }
            } else {
                proof {
                    assert(out@ == out0);
                    assert(!(self.rows@[j as int].key() == k));
                }
            }
            j = j + 1;
            proof {
                assert(out0.len() == history_of(pre, k).len());
                let cur = self.rows@.take(j as int);
                assert(cur.drop_last() =~= pre);
                assert(cur.last() == self.rows@[j - 1]);
                assert(history_idxs(cur, k) == (if cur.last().key() == k {
                    history_idxs(cur.drop_last(), k).push(cur.len() - 1)
                } else {
                    history_idxs(cur.drop_last(), k)
                }));
                lemma_history_idxs(pre, k);
                let ti = history_idxs(pre, k);
                assert(forall|m: int| 0 <= m < ti.len() ==> pre[#[trigger] ti[m]] == cur[ti[m]]);
                assert(forall|m: int|
                    0 <= m < ti.len() ==> #[trigger] history_of(pre, k)[m] == pre[ti[m]]);
                if cur.last().key() == k {
                    assert(history_idxs(cur, k) == ti.push(cur.len() - 1));
                    assert(forall|m: int|
                        0 <= m < ti.len() ==> #[trigger] history_of(cur, k)[m] == cur[ti[m]]);
                    assert(history_of(cur, k)[ti.len() as int] == cur[cur.len() - 1]);
                    assert(history_of(cur, k).len() == ti.len() + 1);
                } else {
                    assert(history_idxs(cur, k) == ti);
                    assert(forall|m: int|
                        0 <= m < ti.len() ==> #[trigger] history_of(cur, k)[m] == cur[ti[m]]);
                    assert(history_of(cur, k).len() == ti.len());
                }
                assert(history_of(pre, k).len() == ti.len());
                assert(out@.len() == history_of(cur, k).len());
                assert(forall|m: int|
                    0 <= m < out@.len() ==> *(#[trigger] out@[m]) == history_of(cur, k)[m]);
                assert(cur == self.rows@.take(j as int));
            }
        }
        proof {
            assert(self.rows@.take(self.rows@.len() as int) =~= self.rows@);
        }
        out
    }

    /// The version history of the natural key of `entity`, restricted to
    /// versions whose interval start precedes `block_num`: the key's
    /// updates observed so far at that block.
    pub fn list_history_as_of(&self, entity: &Entity, block_num: i64) -> (r: Vec<&Row>)
        ensures
            ({
                let h = history_of(self.rows@, entity.key()).filter(
                    |row: Row| row.start_block_num < block_num,
                );
                r@.len() == h.len() && forall|m: int|
                    0 <= m < r@.len() ==> *(#[trigger] r@[m]) == h[m]
            }),
    {
        let all = self.list_history(entity);
        let ghost h = history_of(self.rows@, entity.key());
        let mut out: Vec<&Row> = Vec::new();
        let mut j: usize = 0;
        while j < all.len()
            invariant
                j <= all@.len(),
                all@.len() == h.len(),
                forall|m: int| 0 <= m < all@.len() ==> *(#[trigger] all@[m]) == h[m],
                ({
                    let f = h.take(j as int).filter(|row: Row| row.start_block_num < block_num);
                    out@.len() == f.len() && forall|m: int|
                        0 <= m < out@.len() ==> *(#[trigger] out@[m]) == f[m]
                }),
            decreases all@.len() - j,
        {
            let ghost pre = h.take(j as int);
            if all[j].start_block_num < block_num {
                out.push(all[j]);
            }
            j = j + 1;
            proof {
                let cur = h.take(j as int);
                assert(cur.drop_last() =~= pre);
                assert(cur.last() == h[j - 1]);
                reveal_with_fuel(Seq::filter, 2);
            }
        }
        proof {
            assert(h.take(h.len() as int) =~= h);
        }
        out
    }

    /// Index of the current reported-value row for a record's property.
    pub fn find_open_reported_value(&self, record_id: &str, property_name: &str) -> (r: Option<
        usize,
    >)
        ensures
            match r {
                Some(i) => Some(i as int) == spec_find_open_rv(
                    self.rows@,
                    record_id@,
                    property_name@,
                ) && i < self.rows@.len(),
                None => spec_find_open_rv(self.rows@, record_id@, property_name@) is None,
            },
    {
        let mut j: usize = 0;
        let mut found: Option<usize> = None;
        while j < self.rows.len()
            invariant
                j <= self.rows@.len(),
                match found {
                    Some(i) => Some(i as int) == spec_find_open_rv(
                        self.rows@.take(j as int),
                        record_id@,
                        property_name@,
                    ) && i < j,
                    None => spec_find_open_rv(self.rows@.take(j as int), record_id@, property_name@)
                        is None,
                },
            decreases self.rows@.len() - j,
        {
            let ghost pre = self.rows@.take(j as int);
            let row = &self.rows[j];
            let open_now = row.end_block_num == EndBlockNum::Open;
            let hit = open_now && is_reported_value_row(row, record_id, property_name);
            if found.is_none() && hit {
                found = Some(j);
            }
            j = j + 1;
            proof {
                let cur = self.rows@.take(j as int);
                assert(cur.drop_last() =~= pre);
                assert(cur.last() == self.rows@[j - 1]);
                assert(hit == open_rv_hit(cur.last(), record_id@, property_name@));
            }
        }
        proof {
            assert(self.rows@.take(self.rows@.len() as int) =~= self.rows@);
        }
        found
    }

    /// Index of the current property row for a record and property name.
    pub fn find_open_property(&self, record_id: &str, name: &str) -> (r: Option<usize>)
        ensures
            match r {
                Some(i) => Some(i as int) == spec_find_open_prop(self.rows@, record_id@, name@)
                    && i < self.rows@.len(),
                None => spec_find_open_prop(self.rows@, record_id@, name@) is None,
            },
    {
        let mut j: usize = 0;
        let mut found: Option<usize> = None;
        while j < self.rows.len()
            invariant
                j <= self.rows@.len(),
                match found {
                    Some(i) => Some(i as int) == spec_find_open_prop(
                        self.rows@.take(j as int),
                        record_id@,
                        name@,
                    ) && i < j,
                    None => spec_find_open_prop(self.rows@.take(j as int), record_id@, name@)
                        is None,
                },
            decreases self.rows@.len() - j,
        {
            let ghost pre = self.rows@.take(j as int);
            let row = &self.rows[j];
            let open_now = row.end_block_num == EndBlockNum::Open;
            let hit = open_now && is_property_row(row, record_id, name);
            if found.is_none() && hit {
                found = Some(j);
            }
            j = j + 1;
            proof {
                let cur = self.rows@.take(j as int);
                assert(cur.drop_last() =~= pre);
                assert(cur.last() == self.rows@[j - 1]);
                assert(hit == open_prop_hit(cur.last(), record_id@, name@));
            }
        }
        proof {
            assert(self.rows@.take(self.rows@.len() as int) =~= self.rows@);
        }
        found
    }

    /// The current property row for a record and property name, if any.
    pub fn fetch_property(&self, record_id: &str, property_name: &str) -> (r: Option<&Row>)
        ensures
            match r {
                Some(row) => {
                    &&& spec_find_open_prop(self.rows@, record_id@, property_name@) matches Some(i)
                        && *row == self.rows@[i]
                    &&& row.is_open()
                    &&& row.key() == property_key(record_id@, property_name@)
                },
                None => spec_find_open_prop(self.rows@, record_id@, property_name@) is None,
            },
    {
        match self.find_open_property(record_id, property_name) {
            Some(i) => {
                let row = &self.rows[i];
                proof {
                    lemma_find_open_prop_hit(self.rows@, record_id@, property_name@);
                }
                Some(row)
            },
            None => None,
        }
    }

    /// The current reporter row carrying `reporter_index` for a record's
    /// property, if any: the reporter half of the value/reporter join.
    pub fn fetch_reporter_with_metadata(
        &self,
        record_id: &str,
        property_name: &str,
        reporter_index: i32,
    ) -> (r: Option<&Row>)
        ensures
            match r {
                Some(row) => spec_find_reporter(
                    self.rows@,
                    record_id@,
                    property_name@,
                    reporter_index,
                ) matches Some(i) && *row == self.rows@[i] && reporter_hit(
                    *row,
                    record_id@,
                    property_name@,
                    reporter_index,
                ),
                None => spec_find_reporter(self.rows@, record_id@, property_name@, reporter_index)
                    is None,
            },
    {
        let mut j: usize = 0;
        let mut found: Option<usize> = None;
        while j < self.rows.len()
            invariant
                j <= self.rows@.len(),
                match found {
                    Some(i) => Some(i as int) == spec_find_reporter(
                        self.rows@.take(j as int),
                        record_id@,
                        property_name@,
                        reporter_index,
                    ) && i < j,
                    None => spec_find_reporter(
                        self.rows@.take(j as int),
                        record_id@,
                        property_name@,
                        reporter_index,
                    ) is None,
                },
            decreases self.rows@.len() - j,
        {
            let ghost pre = self.rows@.take(j as int);
            let row = &self.rows[j];
            let hit = match &row.entity {
                Entity::Reporter { record_id: rid, property_name: pn, reporter_index: ix, .. } => {
                    row.end_block_num == EndBlockNum::Open && str_eq(rid.as_str(), record_id)
                        && str_eq(pn.as_str(), property_name) && *ix == reporter_index
                },
                _ => false,
            };
            if found.is_none() && hit {
                found = Some(j);
            }
            j = j + 1;
            proof {
                let cur = self.rows@.take(j as int);
                assert(cur.drop_last() =~= pre);
                assert(cur.last() == self.rows@[j - 1]);
                assert(hit == reporter_hit(cur.last(), record_id@, property_name@, reporter_index));
            }
        }
        proof {
            assert(self.rows@.take(self.rows@.len() as int) =~= self.rows@);
            lemma_find_reporter_hit(self.rows@, record_id@, property_name@, reporter_index);
        }
        match found {
            Some(i) => Some(&self.rows[i]),
            None => None,
        }
    }

    /// The current reporter rows for a record's property, in storage
    /// order: authorized and revoked reporters alike.
    pub fn list_reporters(&self, record_id: &str, property_name: &str) -> (r: Vec<&Row>)
        ensures
            ({
                let cr = current_reporters_of(self.rows@, record_id@, property_name@);
                r@.len() == cr.len() && forall|m: int|
                    0 <= m < r@.len() ==> *(#[trigger] r@[m]) == cr[m]
            }),
    {
        let mut out: Vec<&Row> = Vec::new();
        let mut j: usize = 0;
        while j < self.rows.len()
            invariant
                j <= self.rows@.len(),
                ({
                    let cr = current_reporters_of(
                        self.rows@.take(j as int),
                        record_id@,
                        property_name@,
                    );
                    out@.len() == cr.len() && forall|m: int|
                        0 <= m < out@.len() ==> *(#[trigger] out@[m]) == cr[m]
                }),
            decreases self.rows@.len() - j,
        {
            let ghost pre = self.rows@.take(j as int);
            let row = &self.rows[j];
            let hit = is_reporter_row(row, record_id, property_name) && row.end_block_num
                == EndBlockNum::Open;
            if hit {
                out.push(row);
            }
            j = j + 1;
            proof {
                let cur = self.rows@.take(j as int);
                assert(cur.drop_last() =~= pre);
                assert(cur.last() == self.rows@[j - 1]);
            }
        }
        proof {
            assert(self.rows@.take(self.rows@.len() as int) =~= self.rows@);
        }
        out
    }
}

} // verus!
