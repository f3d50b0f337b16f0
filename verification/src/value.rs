//! The value-tree reconstructor: turns flat, tagged reported-value rows
//! into typed, possibly recursively nested value trees, with cycle
//! protection over corrupted data.

use vstd::prelude::*;
use crate::block_num::EndBlockNum;
use crate::entity::{str_eq, DataType, Entity, LatLongValue, ReportedValueData};
use crate::error::{DataIntegrityKind, TraceError};
use crate::json::clone_json_opt;
use crate::query::{history_idxs, history_of, reported_value_key, spec_find_open_prop, spec_find_open_rv, spec_find_reporter};
use crate::store::Row;

verus! {

broadcast use vstd::std_specs::vec::axiom_vec_index_decreases;

/// Geographic coordinate pair of a reconstructed location value.
#[derive(Clone, Copy, PartialEq, Eq, Structural, Debug)]
pub struct LatLong {
    pub latitude: i64,
    pub longitude: i64,
}

impl LatLong {
    /// Builds the API form of a stored coordinate pair.
    pub fn from_model(lat_long_value: LatLongValue) -> (r: LatLong)
        ensures
            r.latitude == lat_long_value.0,
            r.longitude == lat_long_value.1,
    {
        LatLong { latitude: lat_long_value.0, longitude: lat_long_value.1 }
    }
}

/// The reporter descriptor carried by each reconstructed value node: the
/// reporting key, or empty when the reporter could not be resolved, plus
/// whatever metadata the reporter carries.
///
/// Absent metadata stays `None` here, deliberately: the encoded form
/// writes an empty JSON object in its place, but a freshly built JSON
/// object is a value no contract could name, so that defaulting belongs
/// to the serialization boundary and absence stays explicit -- and
/// exactly specified -- in the core.
pub struct ReporterSlice {
    pub public_key: String,
    pub metadata: Option<serde_json::Value>,
}

/// A typed reconstructed value: exactly one of the seven kinds.
pub enum PropertyValue {
    Text(String),
    Boolean(bool),
    Struct(Vec<PropertyValueSlice>),
    LatLong(LatLong),
    Number(i64),
    Enum(i32),
    Bytes(Vec<u8>),
}

/// One node of a reconstructed value tree: a timestamp, a typed value and
/// the reporter that reported it.
pub struct PropertyValueSlice {
    pub timestamp: u64,
    pub value: PropertyValue,
    pub reporter: ReporterSlice,
}

/// The API answer for a property fetch: the property's identity, its
/// declared data type on the wire, the authorized reporter keys, the
/// ordered historical value nodes, and the current value node.
pub struct PropertySlice {
    pub name: String,
    pub record_id: String,
    pub data_type: String,
    pub reporters: Vec<String>,
    pub updates: Vec<PropertyValueSlice>,
    pub value: PropertyValueSlice,
}

impl PropertySlice {
    /// Assembles the API answer from its parts.
    pub fn from_model(
        property: &Row,
        reporters: Vec<String>,
        data_type: &str,
        updates: Vec<PropertyValueSlice>,
        value: PropertyValueSlice,
    ) -> (r: PropertySlice)
        requires
            property.entity is Property,
        ensures
            ({
                &&& match property.entity {
                    Entity::Property { record_id, name } => r.name == name && r.record_id
                        == record_id,
                    _ => false,
                }
                &&& r.data_type@ == data_type@
                &&& r.reporters == reporters
                &&& r.updates == updates
                &&& r.value == value
            }),
    {
        match &property.entity {
            Entity::Property { record_id, name } => PropertySlice {
                name: name.clone(),
                record_id: record_id.clone(),
                data_type: data_type.to_owned(),
                reporters,
                updates,
                value,
            },
            _ => {
                proof {
                    assert(false);
                }
                PropertySlice {
                    name: String::new(),
                    record_id: String::new(),
                    data_type: data_type.to_owned(),
                    reporters,
                    updates,
                    value,
                }
            },
        }
    }
}

impl ReporterSlice {
    /// Builds the reporter descriptor from a stored reporter row, the
    /// metadata carried through unchanged; see [`ReporterSlice`] for why
    /// absent metadata is not defaulted here.
    pub fn from_model(reporter: &Row) -> (r: ReporterSlice)
        requires
            reporter.entity is Reporter,
        ensures
            match reporter.entity {
                Entity::Reporter { public_key, metadata, .. } => r.public_key == public_key
                    && r.metadata == metadata,
                _ => false,
            },
    {
        match &reporter.entity {
            Entity::Reporter { public_key, metadata, .. } => ReporterSlice {
                public_key: public_key.clone(),
                metadata: clone_json_opt(metadata),
            },
            _ => {
                proof {
                    assert(false);
                }
                ReporterSlice { public_key: String::new(), metadata: None }
            },
        }
    }
}

impl PropertyValueSlice {
    /// Builds one value node from a stored reported-value row, its
    /// resolved reporter descriptor and, for a struct-typed row, its
    /// already reconstructed children.
    pub fn from_model(
        reported_value: &Row,
        reporter: ReporterSlice,
        struct_values: Option<Vec<PropertyValueSlice>>,
    ) -> (r: Result<PropertyValueSlice, TraceError>)
        requires
            reported_value.entity is ReportedValue,
        ensures
            match reported_value.entity {
                Entity::ReportedValue { value: d, .. } => match r {
                    Ok(node) => {
                        &&& node.timestamp == d.timestamp as u64
                        &&& node.reporter == reporter
                        &&& match d.data_type {
                            DataType::Text => d.string_value matches Some(s) && node.value
                                == PropertyValue::Text(s),
                            DataType::Boolean => d.boolean_value matches Some(b) && node.value
                                == PropertyValue::Boolean(b),
                            DataType::Enum => d.enum_value matches Some(x) && node.value
                                == PropertyValue::Enum(x),
                            DataType::LatLong => d.lat_long_value matches Some(ll) && node.value
                                == PropertyValue::LatLong(
                                LatLong { latitude: ll.0, longitude: ll.1 },
                            ),
                            DataType::Number => d.number_value matches Some(n) && node.value
                                == PropertyValue::Number(n),
                            DataType::Bytes => d.bytes_value matches Some(b) && node.value
                                matches PropertyValue::Bytes(vb) && vb@ == b@,
                            DataType::Struct => struct_values matches Some(sv) && node.value
                                == PropertyValue::Struct(sv),
                        }
                    },
                    Err(e) => {
                        &&& e == TraceError::Validation(d.data_type)
                        &&& match d.data_type {
                            DataType::Text => d.string_value is None,
                            DataType::Boolean => d.boolean_value is None,
                            DataType::Enum => d.enum_value is None,
                            DataType::LatLong => d.lat_long_value is None,
                            DataType::Number => d.number_value is None,
                            DataType::Bytes => d.bytes_value is None,
                            DataType::Struct => struct_values is None,
                        }
                    },
                },
                _ => false,
            },
    {
        match &reported_value.entity {
            Entity::ReportedValue { value: d, .. } => match parse_value(d, struct_values) {
                Ok(v) => Ok(
                    PropertyValueSlice {
                        timestamp: #[verifier::truncate] (d.timestamp as u64),
                        value: v,
                        reporter,
                    },
                ),
                Err(e) => Err(e),
            },
            _ => {
                proof {
                    assert(false);
                }
                Err(TraceError::NotFound)
            },
        }
    }
}

/// Copies a byte payload.
fn clone_bytes(v: &Vec<u8>) -> (r: Vec<u8>)
    ensures
        r@ == v@,
{
    let mut r: Vec<u8> = Vec::new();
    let mut i: usize = 0;
    while i < v.len()
        invariant
            i <= v@.len(),
            r@ == v@.take(i as int),
        decreases v@.len() - i,
    {
        r.push(v[i]);
        i = i + 1;
        proof {
            assert(v@.take(i as int).drop_last() =~= v@.take(i as int - 1));
            assert(r@ =~= v@.take(i as int));
        }
    }
    proof {
        assert(v@.take(v@.len() as int) =~= v@);
    }
    r
}

/// Turns a stored tagged row into its typed value.
///
/// Exactly the payload field named by the declared data type must be
/// present; for a struct-typed row the caller supplies the already
/// reconstructed children. Absence is a validation error naming the
/// declared type.
pub fn parse_value(data: &ReportedValueData, struct_values: Option<Vec<PropertyValueSlice>>) -> (r:
    Result<PropertyValue, TraceError>)
    ensures
        match r {
            Ok(v) => match data.data_type {
                DataType::Text => data.string_value matches Some(s) && v == PropertyValue::Text(s),
                DataType::Boolean => data.boolean_value matches Some(b) && v == PropertyValue::Boolean(b),
                DataType::Enum => data.enum_value matches Some(x) && v == PropertyValue::Enum(x),
                DataType::LatLong => data.lat_long_value matches Some(ll) && v == PropertyValue::LatLong(
                    LatLong { latitude: ll.0, longitude: ll.1 },
                ),
                DataType::Number => data.number_value matches Some(n) && v == PropertyValue::Number(n),
                DataType::Bytes => data.bytes_value matches Some(b) && v matches PropertyValue::Bytes(vb)
                    && vb@ == b@,
                DataType::Struct => struct_values matches Some(sv) && v == PropertyValue::Struct(sv),
            },
            Err(e) => {
                &&& e == TraceError::Validation(data.data_type)
                &&& match data.data_type {
                    DataType::Text => data.string_value is None,
                    DataType::Boolean => data.boolean_value is None,
                    DataType::Enum => data.enum_value is None,
                    DataType::LatLong => data.lat_long_value is None,
                    DataType::Number => data.number_value is None,
                    DataType::Bytes => data.bytes_value is None,
                    DataType::Struct => struct_values is None,
                }
            },
        },
{
    match data.data_type {
        DataType::Text => match &data.string_value {
            Some(s) => Ok(PropertyValue::Text(s.clone())),
            None => Err(TraceError::Validation(DataType::Text)),
        },
        DataType::Boolean => match data.boolean_value {
            Some(b) => Ok(PropertyValue::Boolean(b)),
            None => Err(TraceError::Validation(DataType::Boolean)),
        },
        DataType::Enum => match data.enum_value {
            Some(x) => Ok(PropertyValue::Enum(x)),
            None => Err(TraceError::Validation(DataType::Enum)),
        },
        DataType::LatLong => match data.lat_long_value {
            Some(ll) => Ok(PropertyValue::LatLong(LatLong::from_model(ll))),
            None => Err(TraceError::Validation(DataType::LatLong)),
        },
        DataType::Number => match data.number_value {
            Some(n) => Ok(PropertyValue::Number(n)),
            None => Err(TraceError::Validation(DataType::Number)),
        },
        DataType::Bytes => match &data.bytes_value {
            Some(b) => Ok(PropertyValue::Bytes(clone_bytes(b))),
            None => Err(TraceError::Validation(DataType::Bytes)),
        },
        DataType::Struct => match struct_values {
            Some(sv) => Ok(PropertyValue::Struct(sv)),
            None => Err(TraceError::Validation(DataType::Struct)),
        },
    }
}

/// How a reconstructed node's reporter descriptor relates to the store:
/// the joined reporter's key and metadata, or the empty key when the
/// reported value's reporter index resolves to no current reporter.
pub open spec fn reporter_resolved(
    rows: Seq<Row>,
    record_id: Seq<char>,
    property_name: Seq<char>,
    index: i32,
    rep: ReporterSlice,
) -> bool {
    match spec_find_reporter(rows, record_id, property_name, index) {
        Some(ri) => match rows[ri].entity {
            Entity::Reporter { public_key, metadata, .. } => rep.public_key == public_key
                && rep.metadata == metadata,
            _ => false,
        },
        None => rep.public_key@ == Seq::<char>::empty() && rep.metadata is None,
    }
}

/// Full correctness of a reconstructed value tree rooted at row `i`: the
/// node carries the row's timestamp and reporter, its value is the row's
/// typed payload, and for a struct-typed row its children are, in order,
/// the reconstructions of the declared child names' current values.
pub open spec fn reconstructed(rows: Seq<Row>, i: int, node: PropertyValueSlice) -> bool
    decreases node, 0int, 0int,
{
    &&& 0 <= i < rows.len()
    &&& match rows[i].entity {
        Entity::ReportedValue { record_id, property_name, value: d } => {
            &&& node.timestamp == d.timestamp as u64
            &&& reporter_resolved(rows, record_id@, property_name@, d.reporter_index, node.reporter)
            &&& match d.data_type {
                DataType::Text => d.string_value matches Some(s) && node.value == PropertyValue::Text(s),
                DataType::Boolean => d.boolean_value matches Some(b) && node.value
                    == PropertyValue::Boolean(b),
                DataType::Enum => d.enum_value matches Some(x) && node.value == PropertyValue::Enum(x),
                DataType::LatLong => d.lat_long_value matches Some(ll) && node.value
                    == PropertyValue::LatLong(LatLong { latitude: ll.0, longitude: ll.1 }),
                DataType::Number => d.number_value matches Some(n) && node.value == PropertyValue::Number(
                    n,
                ),
                DataType::Bytes => d.bytes_value matches Some(b) && node.value matches PropertyValue::Bytes(
                    vb,
                ) && vb@ == b@,
                DataType::Struct => {
                    &&& d.struct_values matches Some(names) && node.value matches PropertyValue::Struct(
                        children,
                    ) && children@.len() == names@.len() && children_reconstructed_from(
                        rows,
                        record_id@,
                        names@,
                        children,
                        0,
                    )
                },
            }
        },
        _ => false,
    }
}

/// A child node is the reconstruction of the named property's current
/// reported value within the same record.
pub open spec fn child_reconstructed(
    rows: Seq<Row>,
    record_id: Seq<char>,
    child_name: Seq<char>,
    child: PropertyValueSlice,
) -> bool
    decreases child, 1int, 0int,
{
    match spec_find_open_rv(rows, record_id, child_name) {
        Some(ci) => reconstructed(rows, ci, child),
        None => false,
    }
}

/// Children at positions `c` and later are, in order, the reconstructions
/// of the correspondingly named properties' current values.
pub open spec fn children_reconstructed_from(
    rows: Seq<Row>,
    record_id: Seq<char>,
    names: Seq<String>,
    children: Vec<PropertyValueSlice>,
    c: int,
) -> bool
    decreases children, 1int, names.len() - c,
{
    if c < 0 || c >= names.len() || children@.len() != names.len() {
        true
    } else {
        &&& child_reconstructed(rows, record_id, names[c]@, children@[c])
        &&& children_reconstructed_from(rows, record_id, names, children, c + 1)
    }
}

/// Packages elementwise child reconstructions into the ordered form.
proof fn lemma_children_reconstructed(
    rows: Seq<Row>,
    record_id: Seq<char>,
    names: Seq<String>,
    children: Vec<PropertyValueSlice>,
    c: int,
)
    requires
        0 <= c <= names.len(),
        children@.len() == names.len(),
        forall|t: int|
            c <= t < names.len() ==> #[trigger] child_reconstructed(
                rows,
                record_id,
                names[t]@,
                children@[t],
            ),
    ensures
        children_reconstructed_from(rows, record_id, names, children, c),
    decreases names.len() - c,
{
    if c < names.len() {
        assert(child_reconstructed(rows, record_id, names[c]@, children@[c]));
        lemma_children_reconstructed(rows, record_id, names, children, c + 1);
        assert(children_reconstructed_from(rows, record_id, names, children, c + 1));
        assert(!(c < 0 || c >= names.len() || children@.len() != names.len()));
    } else {
        assert(c >= names.len());
    }
}


/// A well-formed recursion path: distinct row indices into `rows`.
pub open spec fn path_ok(rows: Seq<Row>, path: Seq<usize>) -> bool {
    &&& path.no_duplicates()
    &&& forall|t: int| 0 <= t < path.len() ==> ((#[trigger] path[t]) as int) < rows.len()
}

/// The outcome of reconstructing the value tree rooted at reported-value
/// row `i` with the given active recursion path: `Ok` exactly when the
/// whole tree resolves, otherwise the error the reconstructor owes -- a
/// validation error naming the declared type whose payload is absent, a
/// missing-child integrity error when a named child has no current value,
/// or a cycle integrity error when a child resolves back onto the path.
/// The first failure, in declared child order, wins.
pub open spec fn reconstruct_status(rows: Seq<Row>, i: int, path: Seq<usize>) -> Result<
    (),
    TraceError,
>
    decreases rows.len() - path.len(), 0int, 0int,
        when 0 <= i < rows.len() && path_ok(rows, path) && !path.contains(i as usize)
{
    match rows[i].entity {
        Entity::ReportedValue { record_id, property_name, value: d } => match d.data_type {
            DataType::Text => if d.string_value is Some {
                Ok(())
            } else {
                Err(TraceError::Validation(DataType::Text))
            },
            DataType::Boolean => if d.boolean_value is Some {
                Ok(())
            } else {
                Err(TraceError::Validation(DataType::Boolean))
            },
            DataType::Enum => if d.enum_value is Some {
                Ok(())
            } else {
                Err(TraceError::Validation(DataType::Enum))
            },
            DataType::LatLong => if d.lat_long_value is Some {
                Ok(())
            } else {
                Err(TraceError::Validation(DataType::LatLong))
            },
            DataType::Number => if d.number_value is Some {
                Ok(())
            } else {
                Err(TraceError::Validation(DataType::Number))
            },
            DataType::Bytes => if d.bytes_value is Some {
                Ok(())
            } else {
                Err(TraceError::Validation(DataType::Bytes))
            },
            DataType::Struct => match d.struct_values {
                Some(names) => {
                    proof {
                        assert forall|t: int| 0 <= t < path.len() implies path[t] != i as usize by {
                            if path[t] == i as usize {
                                assert(path.contains(i as usize));
                            }
                        };
                        lemma_distinct_indices(path.push(i as usize), rows.len() as int);
                    }
                    children_status(rows, record_id@, names@, 0, path.push(i as usize))
                },
                None => Err(TraceError::Validation(DataType::Struct)),
            },
        },
        _ => Err(TraceError::NotFound),
    }
}

/// The outcome of reconstructing the children of a struct-typed row at
/// positions `c` and later, each resolved to its current reported value.
pub open spec fn children_status(
    rows: Seq<Row>,
    record_id: Seq<char>,
    names: Seq<String>,
    c: int,
    path: Seq<usize>,
) -> Result<(), TraceError>
    decreases rows.len() - path.len(), 1int, names.len() - c,
        when 0 <= c && path_ok(rows, path)
{
    if c >= names.len() {
        Ok(())
    } else {
        match spec_find_open_rv(rows, record_id, names[c]@) {
            None => Err(TraceError::DataIntegrity(DataIntegrityKind::MissingChild)),
            Some(ci) => if path.contains(ci as usize) {
                Err(TraceError::DataIntegrity(DataIntegrityKind::StructCycle))
            } else {
                match reconstruct_status(rows, ci, path) {
                    Ok(u) => children_status(rows, record_id, names, c + 1, path),
                    Err(e) => Err(e),
                }
            },
        }
    }
}

/// Distinct row indices below the row count cannot outnumber the rows.
pub proof fn lemma_distinct_indices(s: Seq<usize>, n: int)
    requires
        s.no_duplicates(),
        forall|t: int| 0 <= t < s.len() ==> ((#[trigger] s[t]) as int) < n,
        0 <= n,
    ensures
        s.len() <= n,
{
    let si = s.map_values(|u: usize| u as int);
    assert(si.no_duplicates()) by {
        assert forall|a: int, b: int| 0 <= a < b < si.len() implies si[a] != si[b] by {
            assert(s[a] != s[b]);
        }
    };
    si.unique_seq_to_set();
    let rng = vstd::set_lib::set_int_range(0, n);
    vstd::set_lib::lemma_int_range(0, n);
    assert(si.to_set().subset_of(rng)) by {
        assert forall|x: int| si.to_set().contains(x) implies rng.contains(x) by {
            assert(si.contains(x));
            let t = choose|t: int| 0 <= t < si.len() && si[t] == x;
            assert((s[t]) as int == x);
        }
    };
    vstd::set_lib::lemma_len_subset(si.to_set(), rng);
}

/// Whether `path` already holds row index `x`.
fn contains_idx(path: &Vec<usize>, x: usize) -> (b: bool)
    ensures
        b == path@.contains(x),
{
    let mut t: usize = 0;
    let mut hit = false;
    while t < path.len()
        invariant
            t <= path@.len(),
            hit == exists|u: int| 0 <= u < t && path@[u] == x,
        decreases path@.len() - t,
    {
        if path[t] == x {
            hit = true;
        }
        t = t + 1;
    }
    proof {
        if hit {
            let u = choose|u: int| 0 <= u < path@.len() && path@[u] == x;
            assert(path@.contains(x));
        }
        if path@.contains(x) {
            let u = choose|u: int| 0 <= u < path@.len() && path@[u] == x;
        }
    }
    hit
}

/// The public keys of the currently authorized reporters of a record's
/// property, in storage order.
pub open spec fn authorized_keys(rows: Seq<Row>, record_id: Seq<char>, property_name: Seq<char>) -> Seq<
    Seq<char>,
>
    decreases rows.len(),
{
    if rows.len() == 0 {
        Seq::empty()
    } else {
        let t = authorized_keys(rows.drop_last(), record_id, property_name);
        match rows.last().entity {
            Entity::Reporter { record_id: rid, property_name: pn, public_key, authorized, .. } => {
                if rows.last().is_open() && rid@ == record_id && pn@ == property_name
                    && authorized {
                    t.push(public_key@)
                } else {
                    t
                }
            },
            _ => t,
        }
    }
}

impl crate::store::TemporalStore {
    /// Resolves the reporter descriptor a reported value points at: the
    /// joined current reporter's key and metadata, or an empty descriptor
    /// when no current reporter carries the index.
    fn resolve_reporter(&self, record_id: &str, property_name: &str, reporter_index: i32) -> (r:
        ReporterSlice)
        ensures
            reporter_resolved(self.rows@, record_id@, property_name@, reporter_index, r),
    {
        match self.fetch_reporter_with_metadata(record_id, property_name, reporter_index) {
            Some(rep_row) => ReporterSlice::from_model(rep_row),
            None => ReporterSlice { public_key: String::new(), metadata: None },
        }
    }

    /// The current reported value of a record's property, joined with its
    /// reporter's public key and metadata, or `None` when the property has
    /// no current reported value.
    pub fn fetch_reported_value_with_reporter_and_metadata(
        &self,
        record_id: &str,
        property_name: &str,
    ) -> (r: Option<(&Row, ReporterSlice)>)
        ensures
            match r {
                Some(p) => {
                    &&& spec_find_open_rv(self.rows@, record_id@, property_name@) matches Some(i)
                        && *(p.0) == self.rows@[i]
                    &&& match p.0.entity {
                        Entity::ReportedValue { record_id: rid, property_name: pn, value: d } => reporter_resolved(
                            self.rows@,
                            rid@,
                            pn@,
                            d.reporter_index,
                            p.1,
                        ),
                        _ => false,
                    }
                },
                None => spec_find_open_rv(self.rows@, record_id@, property_name@) is None,
            },
    {
        match self.find_open_reported_value(record_id, property_name) {
            Some(i) => {
                proof {
                    crate::query::lemma_find_open_rv_hit(self.rows@, record_id@, property_name@);
                }
                let row = &self.rows[i];
                proof {
                    assert(row.key() is ReportedValue);
                    assert(row.entity is ReportedValue);
                }
                match &row.entity {
                    Entity::ReportedValue { record_id: rid, property_name: pn, value: d } => {
                        let rep = self.resolve_reporter(rid.as_str(), pn.as_str(), d.reporter_index);
                        Some((row, rep))
                    },
                    _ => {
                        proof {
                            assert(false);
                        }
                        None
                    },
                }
            },
            None => None,
        }
    }

    /// Recursively reconstructs the value tree rooted at reported-value
    /// row `i`, which may be a current or a historical version; child
    /// lookups always resolve to the children's current values, pinned to
    /// the one store snapshot `self`.
    ///
    /// `path` holds the row indices on the active recursive path. A child
    /// resolving to a row already on the path is a cycle in the stored
    /// data and fails fast with a data-integrity error instead of
    /// recursing further, which bounds the work by the number of distinct
    /// nodes and guarantees termination even over corrupted data.
    ///
    /// The result equals [`reconstruct_status`] exactly: success is owed
    /// whenever the whole tree resolves, and each failure carries the
    /// error that the first unresolvable point owes -- an absent payload
    /// its validation error, a missing child or a cycle its
    /// data-integrity error.
    #[verifier::loop_isolation(false)]
    pub fn parse_reported_values(&self, i: usize, path: &mut Vec<usize>) -> (r: Result<
        PropertyValueSlice,
        TraceError,
    >)
        requires
            i < self.rows@.len(),
            self.rows@[i as int].entity is ReportedValue,
            old(path)@.no_duplicates(),
            forall|t: int|
                0 <= t < old(path)@.len() ==> ((#[trigger] old(path)@[t]) as int)
                    < self.rows@.len(),
            !old(path)@.contains(i),
        ensures
            final(path)@ == old(path)@,
            match r {
                Ok(node) => reconstruct_status(self.rows@, i as int, old(path)@) is Ok
                    && reconstructed(self.rows@, i as int, node),
                Err(e) => reconstruct_status(self.rows@, i as int, old(path)@) == Err::<
                    (),
                    TraceError,
                >(e),
            },
            match r {
                Ok(node) => true,
                Err(e) => e matches TraceError::Validation(_) || e == TraceError::DataIntegrity(
                    DataIntegrityKind::StructCycle,
                ) || e == TraceError::DataIntegrity(DataIntegrityKind::MissingChild),
            },
        decreases self.rows@.len() - old(path)@.len(),
    {
        proof {
            lemma_distinct_indices(path@, self.rows@.len() as int);
        }
        let ghost path0 = path@;
        let row = &self.rows[i];
        match &row.entity {
            Entity::ReportedValue { record_id, property_name, value: d } => {
                let reporter = self.resolve_reporter(
                    record_id.as_str(),
                    property_name.as_str(),
                    d.reporter_index,
                );
                if d.data_type == DataType::Struct {
                    match &d.struct_values {
                        None => {
                            proof {
                                assert(reconstruct_status(self.rows@, i as int, path0) == Err::<
                                    (),
                                    TraceError,
                                >(TraceError::Validation(DataType::Struct)));
                            }
                            Err(TraceError::Validation(DataType::Struct))
                        },
                        Some(names) => {
                            proof {
                                assert(reconstruct_status(self.rows@, i as int, path0)
                                    == children_status(
                                    self.rows@,
                                    record_id@,
                                    names@,
                                    0,
                                    path0.push(i),
                                ));
                            }
                            path.push(i);
                            let mut children: Vec<PropertyValueSlice> = Vec::new();
                            let mut c: usize = 0;
                            while c < names.len()
                                invariant
                                    path@ == path0.push(i),
                                    c <= names@.len(),
                                    children@.len() == c,
                                    children_status(self.rows@, record_id@, names@, 0, path0.push(i))
                                        == children_status(
                                        self.rows@,
                                        record_id@,
                                        names@,
                                        c as int,
                                        path0.push(i),
                                    ),
                                    forall|t: int|
                                        0 <= t < c ==> #[trigger] child_reconstructed(
                                            self.rows@,
                                            record_id@,
                                            names@[t]@,
                                            children@[t],
                                        ),
                                decreases names@.len() - c,
                            {
                                let child_name = &names[c];
                                match self.find_open_reported_value(
                                    record_id.as_str(),
                                    child_name.as_str(),
                                ) {
                                    None => {
                                        let popped = path.pop();
                                        proof {
                                            assert(path@ =~= path0);
                                            assert(child_name@ == names@[c as int]@);
                                            assert(children_status(
                                                self.rows@,
                                                record_id@,
                                                names@,
                                                c as int,
                                                path0.push(i),
                                            ) == Err::<(), TraceError>(TraceError::DataIntegrity(
                                                DataIntegrityKind::MissingChild,
                                            )));
                                        }
                                        return Err(TraceError::DataIntegrity(
                                            DataIntegrityKind::MissingChild,
                                        ));
                                    },
                                    Some(ci) => {
                                        if contains_idx(path, ci) {
                                            let popped = path.pop();
                                            proof {
                                                assert(path@ =~= path0);
                                                assert(child_name@ == names@[c as int]@);
                                                assert(((ci as int) as usize) == ci);
                                                assert(children_status(
                                                    self.rows@,
                                                    record_id@,
                                                    names@,
                                                    c as int,
                                                    path0.push(i),
                                                ) == Err::<(), TraceError>(
                                                    TraceError::DataIntegrity(
                                                        DataIntegrityKind::StructCycle,
                                                    ),
                                                ));
                                            }
                                            return Err(TraceError::DataIntegrity(
                                                DataIntegrityKind::StructCycle,
                                            ));
                                        }
                                        proof {
                                            crate::query::lemma_find_open_rv_hit(
                                                self.rows@,
                                                record_id@,
                                                child_name@,
                                            );
                                            assert(self.rows@[ci as int].key() is ReportedValue);
                                            assert(self.rows@[ci as int].entity is ReportedValue);
                                            assert(path@.no_duplicates());
                                            assert(forall|t: int|
                                                0 <= t < path@.len() ==> ((#[trigger] path@[t]) as int)
                                                    < self.rows@.len());
                                            lemma_distinct_indices(path@, self.rows@.len() as int);
                                        }
                                        match self.parse_reported_values(ci, path) {
                                            Ok(node) => {
                                                children.push(node);
                                                proof {
                                                    assert(child_reconstructed(
                                                        self.rows@,
                                                        record_id@,
                                                        names@[c as int]@,
                                                        node,
                                                    ));
                                                    assert(child_name@ == names@[c as int]@);
                                                    assert(((ci as int) as usize) == ci);
                                                    assert(children_status(
                                                        self.rows@,
                                                        record_id@,
                                                        names@,
                                                        c as int,
                                                        path0.push(i),
                                                    ) == children_status(
                                                        self.rows@,
                                                        record_id@,
                                                        names@,
                                                        c as int + 1,
                                                        path0.push(i),
                                                    ));
                                                }
                                            },
                                            Err(e) => {
                                                let popped = path.pop();
                                                proof {
                                                    assert(path@ =~= path0);
                                                    assert(child_name@ == names@[c as int]@);
                                                    assert(((ci as int) as usize) == ci);
                                                    assert(children_status(
                                                        self.rows@,
                                                        record_id@,
                                                        names@,
                                                        c as int,
                                                        path0.push(i),
                                                    ) == Err::<(), TraceError>(e));
                                                }
                                                return Err(e);
                                            },
                                        }
                                    },
                                }
                                c = c + 1;
                            }
                            let popped = path.pop();
                            proof {
                                assert(path@ =~= path0);
                                assert(children_status(
                                    self.rows@,
                                    record_id@,
                                    names@,
                                    c as int,
                                    path0.push(i),
                                ) == Ok::<(), TraceError>(()));
                                assert(reconstruct_status(self.rows@, i as int, path0) is Ok);
                            }
                            let ghost childreng = children;
                            match PropertyValueSlice::from_model(row, reporter, Some(children)) {
                                Ok(node) => {
                                    proof {
                                        assert(node.value == PropertyValue::Struct(childreng));
                                        assert(childreng@.len() == names@.len());
                                        lemma_children_reconstructed(
                                            self.rows@,
                                            record_id@,
                                            names@,
                                            childreng,
                                            0,
                                        );
                                        assert(reconstructed(self.rows@, i as int, node));
                                    }
                                    Ok(node)
                                },
                                Err(e) => {
                                    proof {
                                        assert(false);
                                    }
                                    Err(e)
                                },
                            }
                        },
                    }
                } else {
                    match PropertyValueSlice::from_model(row, reporter, None) {
                        Ok(node) => {
                            proof {
                                assert(reconstructed(self.rows@, i as int, node));
                                assert(reconstruct_status(self.rows@, i as int, path0) is Ok);
                            }
                            Ok(node)
                        },
                        Err(e) => {
                            proof {
                                assert(reconstruct_status(self.rows@, i as int, path0) == Err::<
                                    (),
                                    TraceError,
                                >(e));
                            }
                            Err(e)
                        },
                    }
                }
            },
            _ => {
                proof {
                    assert(false);
                }
                Err(TraceError::NotFound)
            },
        }
    }
}


impl crate::store::TemporalStore {
    /// Every stored version of a record's property, in storage order, each
    /// joined with the reporter descriptor its reporter index resolves to.
    #[verifier::loop_isolation(false)]
    pub fn list_reported_value_with_reporter_and_metadata(
        &self,
        record_id: &str,
        property_name: &str,
    ) -> (r: Vec<(&Row, ReporterSlice)>)
        ensures
            ({
                let h = history_of(self.rows@, reported_value_key(record_id@, property_name@));
                &&& r@.len() == h.len()
                &&& forall|m: int|
                    0 <= m < r@.len() ==> *((#[trigger] r@[m]).0) == h[m] && (match h[m].entity {
                        Entity::ReportedValue { record_id: rid, property_name: pn, value: d } => reporter_resolved(
                            self.rows@,
                            rid@,
                            pn@,
                            d.reporter_index,
                            r@[m].1,
                        ),
                        _ => false,
                    })
            }),
    {
        let ghost k = reported_value_key(record_id@, property_name@);
        let mut out: Vec<(&Row, ReporterSlice)> = Vec::new();
        let mut j: usize = 0;
        while j < self.rows.len()
            invariant
                j <= self.rows@.len(),
                ({
                    let h = history_of(self.rows@.take(j as int), k);
                    &&& out@.len() == h.len()
                    &&& forall|m: int|
                        0 <= m < out@.len() ==> *((#[trigger] out@[m]).0) == h[m] && (
                        match h[m].entity {
                            Entity::ReportedValue { record_id: rid, property_name: pn, value: d } => reporter_resolved(
                                self.rows@,
                                rid@,
                                pn@,
                                d.reporter_index,
                                out@[m].1,
                            ),
                            _ => false,
                        })
                }),
            decreases self.rows@.len() - j,
        {
            let ghost pre = self.rows@.take(j as int);
            let row = &self.rows[j];
            let hit = crate::query::is_reported_value_row_pub(row, record_id, property_name);
            if hit {
                match &row.entity {
                    Entity::ReportedValue { record_id: rid, property_name: pn, value: d } => {
                        let rep = self.resolve_reporter(
                            rid.as_str(),
                            pn.as_str(),
                            d.reporter_index,
                        );
                        out.push((row, rep));
                    },
                    _ => {
                        proof {
                            assert(false);
                        }
                    },
                }
            }
            j = j + 1;
            proof {
                let cur = self.rows@.take(j as int);
                assert(cur.drop_last() =~= pre);
                assert(cur.last() == self.rows@[j - 1]);
                assert(history_idxs(cur, k) == (if cur.last().key() == k {
                    history_idxs(cur.drop_last(), k).push(cur.len() - 1)
                } else {
                    history_idxs(cur.drop_last(), k)
                }));
                crate::query::lemma_history_idxs(pre, k);
                crate::query::lemma_history_idxs(cur, k);
                let ti = history_idxs(pre, k);
                assert(forall|m: int| 0 <= m < ti.len() ==> pre[#[trigger] ti[m]] == cur[ti[m]]);
                assert(forall|m: int|
                    0 <= m < ti.len() ==> #[trigger] history_of(pre, k)[m] == pre[ti[m]]);
                assert(forall|m: int|
                    0 <= m < history_idxs(cur, k).len() ==> #[trigger] history_of(cur, k)[m]
                        == cur[history_idxs(cur, k)[m]]);
            }
        }
        proof {
            assert(self.rows@.take(self.rows@.len() as int) =~= self.rows@);
        }
        out
    }

    /// Serves the API's property fetch for `(record_id, property_name)`:
    /// the current property's identity, its declared data type on the
    /// wire, the currently authorized reporter keys, the reconstructed
    /// current value, and the reconstructed value of every stored version
    /// in storage order.
    ///
    /// Absent property or absent current reported value is `NotFound`,
    /// exactly. When both exist and the current value and every stored
    /// version reconstruct, success is owed; otherwise the first
    /// reconstruction failure propagates unchanged, as a validation or
    /// data-integrity error.
    #[verifier::loop_isolation(false)]
    pub fn fetch_record_property(&self, record_id: &str, property_name: &str) -> (r: Result<
        PropertySlice,
        TraceError,
    >)
        ensures
            match r {
                Ok(ps) => {
                    &&& spec_find_open_prop(self.rows@, record_id@, property_name@) matches Some(pi)
                        && (match self.rows@[pi].entity {
                        Entity::Property { record_id: rid, name } => ps.record_id == rid && ps.name
                            == name,
                        _ => false,
                    })
                    &&& spec_find_open_rv(self.rows@, record_id@, property_name@) matches Some(vi)
                        && reconstructed(self.rows@, vi, ps.value) && (
                    match self.rows@[vi].entity {
                        Entity::ReportedValue { value: d, .. } => ps.data_type@
                            == d.data_type.spec_wire_name(),
                        _ => false,
                    })
                    &&& ps.reporters@.len() == authorized_keys(
                        self.rows@,
                        record_id@,
                        property_name@,
                    ).len()
                    &&& forall|t: int|
                        0 <= t < ps.reporters@.len() ==> (#[trigger] ps.reporters@[t])@
                            == authorized_keys(self.rows@, record_id@, property_name@)[t]
                    &&& ps.updates@.len() == history_idxs(
                        self.rows@,
                        reported_value_key(record_id@, property_name@),
                    ).len()
                    &&& forall|m: int|
                        0 <= m < ps.updates@.len() ==> reconstructed(
                            self.rows@,
                            history_idxs(
                                self.rows@,
                                reported_value_key(record_id@, property_name@),
                            )[m],
                            #[trigger] ps.updates@[m],
                        )
                },
                Err(e) => {
                    &&& (e == TraceError::NotFound) <==> (spec_find_open_prop(
                        self.rows@,
                        record_id@,
                        property_name@,
                    ) is None || spec_find_open_rv(self.rows@, record_id@, property_name@)
                        is None)
                    &&& e != TraceError::NotFound ==> (e matches TraceError::Validation(_) || e
                        == TraceError::DataIntegrity(DataIntegrityKind::StructCycle) || e
                        == TraceError::DataIntegrity(DataIntegrityKind::MissingChild))
                },
            },
            match spec_find_open_rv(self.rows@, record_id@, property_name@) {
                Some(vi) => (spec_find_open_prop(self.rows@, record_id@, property_name@) is Some
                    && reconstruct_status(self.rows@, vi, Seq::<usize>::empty()) is Ok && (
                forall|m: int|
                    0 <= m < history_idxs(
                        self.rows@,
                        reported_value_key(record_id@, property_name@),
                    ).len() ==> reconstruct_status(
                        self.rows@,
                        #[trigger] history_idxs(
                            self.rows@,
                            reported_value_key(record_id@, property_name@),
                        )[m],
                        Seq::<usize>::empty(),
                    ) is Ok)) ==> r is Ok,
                None => true,
            },
            match r {
                Ok(ps) => true,
                Err(e) => e != TraceError::NotFound ==> (match spec_find_open_rv(
                    self.rows@,
                    record_id@,
                    property_name@,
                ) {
                    Some(vi) => reconstruct_status(self.rows@, vi, Seq::<usize>::empty()) == Err::<
                        (),
                        TraceError,
                    >(e) || exists|m: int|
                        0 <= m < history_idxs(
                            self.rows@,
                            reported_value_key(record_id@, property_name@),
                        ).len() && reconstruct_status(
                            self.rows@,
                            #[trigger] history_idxs(
                                self.rows@,
                                reported_value_key(record_id@, property_name@),
                            )[m],
                            Seq::<usize>::empty(),
                        ) == Err::<(), TraceError>(e),
                    None => false,
                }),
            },
    {
        let pi = match self.find_open_property(record_id, property_name) {
            Some(pi) => pi,
            None => {
                return Err(TraceError::NotFound);
            },
        };
        proof {
            crate::query::lemma_find_open_prop_hit(self.rows@, record_id@, property_name@);
            assert(self.rows@[pi as int].entity is Property);
        }
        let vi = match self.find_open_reported_value(record_id, property_name) {
            Some(vi) => vi,
            None => {
                return Err(TraceError::NotFound);
            },
        };
        proof {
            crate::query::lemma_find_open_rv_hit(self.rows@, record_id@, property_name@);
            assert(self.rows@[vi as int].entity is ReportedValue);
        }

        // Currently authorized reporter keys, in storage order.
        let mut reporters: Vec<String> = Vec::new();
        let mut j: usize = 0;
        while j < self.rows.len()
            invariant
                j <= self.rows@.len(),
                ({
                    let a = authorized_keys(self.rows@.take(j as int), record_id@, property_name@);
                    reporters@.len() == a.len() && forall|t: int|
                        0 <= t < reporters@.len() ==> (#[trigger] reporters@[t])@ == a[t]
                }),
            decreases self.rows@.len() - j,
        {
            let ghost pre = self.rows@.take(j as int);
            let row = &self.rows[j];
            match &row.entity {
                Entity::Reporter {
                    record_id: rid,
                    property_name: pn,
                    public_key,
                    authorized,
                    ..
                } => {
                    if row.end_block_num == EndBlockNum::Open && *authorized && str_eq(
                        rid.as_str(),
                        record_id,
                    ) && str_eq(pn.as_str(), property_name) {
                        reporters.push(public_key.clone());
                    }
                },
                _ => {},
            }
            j = j + 1;
            proof {
                let cur = self.rows@.take(j as int);
                assert(cur.drop_last() =~= pre);
                assert(cur.last() == self.rows@[j - 1]);
            }
        }
        proof {
            assert(self.rows@.take(self.rows@.len() as int) =~= self.rows@);
        }

        // Reconstruct the current value.
        let mut path: Vec<usize> = Vec::new();
        let value_node = match self.parse_reported_values(vi, &mut path) {
            Ok(n) => n,
            Err(e) => {
                proof {
                    assert(reconstruct_status(self.rows@, vi as int, Seq::<usize>::empty())
                        == Err::<(), TraceError>(e));
                }
                return Err(e);
            },
        };

        // The declared data type, as its wire name.
        let vrow = &self.rows[vi];
        let dt_name = match &vrow.entity {
            Entity::ReportedValue { value: d, .. } => d.data_type.wire_name(),
            _ => {
                proof {
                    assert(false);
                }
                ""
            },
        };

        // Reconstruct every stored version, in storage order.
        let ghost k = reported_value_key(record_id@, property_name@);
        let mut updates: Vec<PropertyValueSlice> = Vec::new();
        let mut u: usize = 0;
        while u < self.rows.len()
            invariant
                u <= self.rows@.len(),
                path@ == Seq::<usize>::empty(),
                ({
                    let hi = history_idxs(self.rows@.take(u as int), k);
                    updates@.len() == hi.len() && forall|m: int|
                        0 <= m < updates@.len() ==> reconstructed(
                            self.rows@,
                            hi[m],
                            #[trigger] updates@[m],
                        )
                }),
            decreases self.rows@.len() - u,
        {
            let ghost pre = self.rows@.take(u as int);
            let row = &self.rows[u];
            let hit = crate::query::is_reported_value_row_pub(row, record_id, property_name);
            if hit {
                proof {
                    assert(self.rows@[u as int].entity is ReportedValue);
                }
                match self.parse_reported_values(u, &mut path) {
                    Ok(n) => {
                        updates.push(n);
                    },
                    Err(e) => {
                        proof {
                            crate::query::lemma_history_idxs(self.rows@, k);
                            assert(self.rows@[u as int].key() == k);
                            assert(history_idxs(self.rows@, k).contains(u as int));
                            let m = choose|m: int|
                                0 <= m < history_idxs(self.rows@, k).len() && history_idxs(
                                    self.rows@,
                                    k,
                                )[m] == u as int;
                            assert(reconstruct_status(
                                self.rows@,
                                history_idxs(self.rows@, k)[m],
                                Seq::<usize>::empty(),
                            ) == Err::<(), TraceError>(e));
                        }
                        return Err(e);
                    },
                }
            }
            u = u + 1;
            proof {
                let cur = self.rows@.take(u as int);
                assert(cur.drop_last() =~= pre);
                assert(cur.last() == self.rows@[u - 1]);
                assert(history_idxs(cur, k) == (if cur.last().key() == k {
                    history_idxs(cur.drop_last(), k).push(cur.len() - 1)
                } else {
                    history_idxs(cur.drop_last(), k)
                }));
            }
        }
        proof {
            assert(self.rows@.take(self.rows@.len() as int) =~= self.rows@);
        }

        let prow = &self.rows[pi];
        let ps = PropertySlice::from_model(prow, reporters, dt_name, updates, value_node);
        Ok(ps)
    }
}

} // verus!
