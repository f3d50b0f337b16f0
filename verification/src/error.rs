//! The error taxonomy of the core. Every error is typed and propagates to
//! the immediate caller; none is swallowed or retried here. The API
//! boundary maps these kinds to its own status vocabulary.

use vstd::prelude::*;
use crate::entity::DataType;

verus! {

/// What a data-integrity failure found: surfaced, never repaired.
#[derive(Clone, Copy, PartialEq, Eq, Structural, Debug)]
pub enum DataIntegrityKind {
    /// More than one stored version matched an as-of lookup.
    AmbiguousAsOf,
    /// A struct-typed value's children reference, directly or
    /// transitively, a value already on the active reconstruction path.
    StructCycle,
    /// A struct-typed value names a child with no current version.
    MissingChild,
}

/// Error kinds of the core.
#[derive(Clone, Copy, PartialEq, Eq, Structural, Debug)]
pub enum TraceError {
    /// The requested key or value is absent.
    NotFound,
    /// More than one open version, or a non-advancing start block, was
    /// found for a key before closing its predecessor: invariant
    /// corruption upstream, never silently repaired.
    Conflict,
    /// Stored data contradicts itself; carries what was found.
    DataIntegrity(DataIntegrityKind),
    /// A reported value's declared data type names a payload field that is
    /// absent; carries the declared type.
    Validation(DataType),
}

} // verus!
