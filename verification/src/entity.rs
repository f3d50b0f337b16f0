//! The versioned entity model: natural keys, kind-specific payloads, and
//! the tagged reported-value row.

use vstd::prelude::*;

verus! {

/// Relies on str's PartialEq: two string slices are equal exactly when
/// their character sequences are equal.
#[verifier::external_body]
pub(crate) fn str_eq(a: &str, b: &str) -> (r: bool)
    ensures
        r == (a@ == b@),
{
    a == b
}

/// Geographic coordinate pair carried by a location-typed reported value:
/// latitude and longitude, in the ledger's fixed-point encoding.
#[derive(Clone, Copy, PartialEq, Eq, Structural, Debug)]
pub struct LatLongValue(pub i64, pub i64);

/// Declared type tag of a reported value. Exactly one payload field of
/// [`ReportedValueData`] must be populated for each tag.
#[derive(Clone, Copy, PartialEq, Eq, Structural, Debug)]
pub enum DataType {
    Text,
    Boolean,
    Enum,
    LatLong,
    Number,
    Bytes,
    Struct,
}

impl DataType {
    /// The tag's name on the wire.
    pub open spec fn spec_wire_name(self) -> Seq<char> {
        match self {
            DataType::Text => "String"@,
            DataType::Boolean => "Boolean"@,
            DataType::Enum => "Enum"@,
            DataType::LatLong => "LatLong"@,
            DataType::Number => "Number"@,
            DataType::Bytes => "Bytes"@,
            DataType::Struct => "Struct"@,
        }
    }

    /// The tag's name on the wire, as a string slice.
    pub fn wire_name(self) -> (r: &'static str)
        ensures
            r@ == self.spec_wire_name(),
    {
        match self {
            DataType::Text => "String",
            DataType::Boolean => "Boolean",
            DataType::Enum => "Enum",
            DataType::LatLong => "LatLong",
            DataType::Number => "Number",
            DataType::Bytes => "Bytes",
            DataType::Struct => "Struct",
        }
    }

    /// Parses a wire tag name. Returns `None` exactly when the tag matches
    /// no declared data type.
    pub fn from_wire_name(s: &str) -> (r: Option<DataType>)
        ensures
            match r {
                Some(dt) => s@ == dt.spec_wire_name(),
                None => forall|dt: DataType| s@ != #[trigger] dt.spec_wire_name(),
            },
    {
        if str_eq(s, "String") {
            Some(DataType::Text)
        } else if str_eq(s, "Boolean") {
            Some(DataType::Boolean)
        } else if str_eq(s, "Enum") {
            Some(DataType::Enum)
        } else if str_eq(s, "LatLong") {
            Some(DataType::LatLong)
        } else if str_eq(s, "Number") {
            Some(DataType::Number)
        } else if str_eq(s, "Bytes") {
            Some(DataType::Bytes)
        } else if str_eq(s, "Struct") {
            Some(DataType::Struct)
        } else {
            None
        }
    }
}

/// Payload of one reported-value version, as it arrives from the ledger:
/// a declared type tag and at most one populated value field. Which field
/// must be populated is checked at reconstruction time, not assumed here.
pub struct ReportedValueData {
    pub data_type: DataType,
    pub timestamp: i64,
    pub reporter_index: i32,
    pub string_value: Option<String>,
    pub boolean_value: Option<bool>,
    pub number_value: Option<i64>,
    pub enum_value: Option<i32>,
    pub bytes_value: Option<Vec<u8>>,
    pub lat_long_value: Option<LatLongValue>,
    pub struct_values: Option<Vec<String>>,
}

/// One versioned entity: its natural-key fields together with its
/// kind-specific payload.
pub enum Entity {
    Record { record_id: String },
    AssociatedAgent { record_id: String, agent_id: String },
    Property { record_id: String, name: String },
    Proposal { record_id: String, receiving_agent: String },
    Reporter {
        record_id: String,
        property_name: String,
        public_key: String,
        authorized: bool,
        reporter_index: i32,
        metadata: Option<serde_json::Value>,
    },
    ReportedValue { record_id: String, property_name: String, value: ReportedValueData },
}

/// Spec-level natural key of an entity: the entity kind together with the
/// views of its key fields. Payload fields do not take part.
pub enum KeyView {
    Record { record_id: Seq<char> },
    AssociatedAgent { record_id: Seq<char>, agent_id: Seq<char> },
    Property { record_id: Seq<char>, name: Seq<char> },
    Proposal { record_id: Seq<char>, receiving_agent: Seq<char> },
    Reporter { record_id: Seq<char>, property_name: Seq<char>, public_key: Seq<char> },
    ReportedValue { record_id: Seq<char>, property_name: Seq<char> },
}

impl Entity {
    /// The entity's natural key.
    pub open spec fn key(self) -> KeyView {
        match self {
            Entity::Record { record_id } => KeyView::Record { record_id: record_id@ },
            Entity::AssociatedAgent { record_id, agent_id } => KeyView::AssociatedAgent {
                record_id: record_id@,
                agent_id: agent_id@,
            },
            Entity::Property { record_id, name } => KeyView::Property {
                record_id: record_id@,
                name: name@,
            },
            Entity::Proposal { record_id, receiving_agent } => KeyView::Proposal {
                record_id: record_id@,
                receiving_agent: receiving_agent@,
            },
            Entity::Reporter { record_id, property_name, public_key, .. } => KeyView::Reporter {
                record_id: record_id@,
                property_name: property_name@,
                public_key: public_key@,
            },
            Entity::ReportedValue { record_id, property_name, .. } => KeyView::ReportedValue {
                record_id: record_id@,
                property_name: property_name@,
            },
        }
    }

    /// Whether two entities version the same natural key.
    pub fn same_key(&self, other: &Entity) -> (r: bool)
        ensures
            r == (self.key() == other.key()),
    {
        match (self, other) {
            (Entity::Record { record_id: a }, Entity::Record { record_id: b }) => {
                str_eq(a.as_str(), b.as_str())
            },
            (
                Entity::AssociatedAgent { record_id: a, agent_id: a2 },
                Entity::AssociatedAgent { record_id: b, agent_id: b2 },
            ) => str_eq(a.as_str(), b.as_str()) && str_eq(a2.as_str(), b2.as_str()),
            (
                Entity::Property { record_id: a, name: a2 },
                Entity::Property { record_id: b, name: b2 },
            ) => str_eq(a.as_str(), b.as_str()) && str_eq(a2.as_str(), b2.as_str()),
            (
                Entity::Proposal { record_id: a, receiving_agent: a2 },
                Entity::Proposal { record_id: b, receiving_agent: b2 },
            ) => str_eq(a.as_str(), b.as_str()) && str_eq(a2.as_str(), b2.as_str()),
            (
                Entity::Reporter { record_id: a, property_name: a2, public_key: a3, .. },
                Entity::Reporter { record_id: b, property_name: b2, public_key: b3, .. },
            ) => {
                str_eq(a.as_str(), b.as_str()) && str_eq(a2.as_str(), b2.as_str()) && str_eq(
                    a3.as_str(),
                    b3.as_str(),
                )
            },
            (
                Entity::ReportedValue { record_id: a, property_name: a2, .. },
                Entity::ReportedValue { record_id: b, property_name: b2, .. },
            ) => str_eq(a.as_str(), b.as_str()) && str_eq(a2.as_str(), b2.as_str()),
            _ => false,
        }
    }
}

} // verus!
