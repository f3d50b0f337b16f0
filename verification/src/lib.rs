//! A queryable, versioned record of supply-chain entities.
//!
//! State changes arrive as ordered batches of new entity versions, each
//! tagged with the block number at which it starts to hold. The temporal
//! store keeps exactly one open ("current") version per natural key while
//! preserving a gapless, non-overlapping history; the query engine answers
//! current and as-of-block lookups and produces ordered version histories;
//! the value-tree reconstructor turns flat, tagged reported-value rows into
//! typed, possibly recursively nested value trees.

pub mod block_num;
pub mod entity;
pub mod error;
pub mod json;
pub mod query;
pub mod store;
pub mod value;

pub use block_num::{EndBlockNum, MAX_BLOCK_NUM};
pub use entity::{DataType, Entity, KeyView, LatLongValue, ReportedValueData};
pub use error::{DataIntegrityKind, TraceError};
pub use store::{NewVersion, Row, TemporalStore};
pub use value::{LatLong, PropertySlice, PropertyValueSlice, ReporterSlice, PropertyValue};
