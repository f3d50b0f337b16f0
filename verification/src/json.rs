//! Trusted surface for the arbitrary JSON metadata that reporters carry.
//!
//! Reporter metadata is opaque to the core: it is stored and handed back,
//! never inspected. The type is declared so that it can appear in fields
//! and signatures; cloning is the only operation the core needs.

use vstd::prelude::*;

verus! {

#[verifier::external_type_specification]
#[verifier::external_body]
pub struct ExJsonValue(serde_json::Value);

/// Relies on serde_json::Value's Clone: a deep copy of the JSON tree,
/// equal to the original value.
#[verifier::external_body]
pub(crate) fn clone_json_value(v: &serde_json::Value) -> (r: serde_json::Value)
    ensures
        r == *v,
{
    v.clone()
}

/// Copies an optional metadata value.
pub(crate) fn clone_json_opt(m: &Option<serde_json::Value>) -> (r: Option<serde_json::Value>)
    ensures
        r == *m,
{
    match m {
        Some(v) => Some(clone_json_value(v)),
        None => None,
    }
}

} // verus!
