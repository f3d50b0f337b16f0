//! The temporal axis: block numbers and the two-state upper bound of a
//! version interval.
//!
//! In memory a version's end is either `Open` (the live, current version)
//! or `ClosedAt(b)` (superseded at block `b`). At the storage and wire
//! boundary the open state is encoded as [`MAX_BLOCK_NUM`], a sentinel
//! strictly greater than any real block number.

use vstd::prelude::*;

verus! {

/// Sentinel for an open version at the storage/wire boundary: strictly
/// greater than any block number the ledger ever issues.
pub const MAX_BLOCK_NUM: i64 = i64::MAX;

/// Upper bound of a version's half-open validity interval
/// from `start_block_num` inclusive to `end_block_num` exclusive.
#[derive(Clone, Copy, PartialEq, Eq, Structural, Debug)]
pub enum EndBlockNum {
    /// No end bound yet: this is the current version for its key.
    Open,
    /// Superseded from this block number on.
    ClosedAt(i64),
}

impl EndBlockNum {
    /// True of the bound of a current (live) version.
    pub open spec fn is_open(self) -> bool {
        self is Open
    }

    /// The block number at which a closed version stopped holding.
    pub open spec fn bound(self) -> int {
        self->ClosedAt_0 as int
    }

    /// Whether the interval from `start` inclusive to `self` exclusive contains `block_num`,
    /// treating `Open` as plus infinity.
    pub open spec fn spec_contains_block(self, start: i64, block_num: i64) -> bool {
        &&& start <= block_num
        &&& match self {
            EndBlockNum::Open => true,
            EndBlockNum::ClosedAt(end) => block_num < end,
        }
    }

    /// Executable form of [`Self::spec_contains_block`].
    pub fn contains_block(self, start: i64, block_num: i64) -> (r: bool)
        ensures
            r == self.spec_contains_block(start, block_num),
    {
        match self {
            EndBlockNum::Open => start <= block_num,
            EndBlockNum::ClosedAt(end) => start <= block_num && block_num < end,
        }
    }

    /// Wire form of the bound: `Open` is the [`MAX_BLOCK_NUM`] sentinel.
    pub open spec fn spec_to_wire(self) -> i64 {
        match self {
            EndBlockNum::Open => MAX_BLOCK_NUM,
            EndBlockNum::ClosedAt(end) => end,
        }
    }

    /// Bound denoted by a wire value: the sentinel denotes `Open`.
    pub open spec fn spec_from_wire(raw: i64) -> EndBlockNum {
        if raw == MAX_BLOCK_NUM {
            EndBlockNum::Open
        } else {
            EndBlockNum::ClosedAt(raw)
        }
    }

    /// Encodes the bound for storage or the wire: `Open` becomes the
    /// [`MAX_BLOCK_NUM`] sentinel.
    #[verifier::when_used_as_spec(spec_to_wire)]
    pub fn to_wire(self) -> (r: i64)
        ensures
            r == self.spec_to_wire(),
    {
        match self {
            EndBlockNum::Open => MAX_BLOCK_NUM,
            EndBlockNum::ClosedAt(end) => end,
        }
    }

    /// Decodes a stored or wire-level end bound: the sentinel becomes
    /// `Open`, every other value is a real closing block number.
    pub fn from_wire(raw: i64) -> (r: EndBlockNum)
        ensures
            r == EndBlockNum::spec_from_wire(raw),
    {
        if raw == MAX_BLOCK_NUM {
            EndBlockNum::Open
        } else {
            EndBlockNum::ClosedAt(raw)
        }
    }
}

/// Wire encoding is lossless: decoding an encoded bound gives the bound
/// back, provided a closed bound never carries the sentinel itself.
pub proof fn lemma_wire_round_trip(e: EndBlockNum)
    requires
        e is ClosedAt ==> e->ClosedAt_0 != MAX_BLOCK_NUM,
    ensures
        EndBlockNum::spec_from_wire(e.spec_to_wire()) == e,
{
}

} // verus!
