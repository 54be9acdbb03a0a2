//! Structural schema inference for JSON documents.
//!
//! A document is classified value by value, the observations of every field
//! are gathered over all object instances, and each field is summarised by
//! the list of type summaries seen for it, recursively for nested objects
//! and arrays. [`Schema::from_json`] infers the schema of a document and
//! [`Schema::to_json`] encodes it.
//!
//! Every executable function is verified against a mathematical description
//! of its result. [`model`] holds the values that contracts speak of,
//! [`reduction`] says which schema a collection of shapes has, [`runs`] how
//! objects are grouped by the fingerprint of their keys, and [`inference`]
//! and [`encoding`] what is owed for whole documents and for the JSON form
//! of a schema. [`laws`] proves what holds of every reduction.
//!
//! Two calls go to the `itertools` crate, in [`fingerprint`]: sorting key
//! names and cutting a sequence into runs. What the library assumes of them
//! is stated there; everything else is proved.

pub mod buckets;
pub mod encoding;
pub mod equivalence;
pub mod fingerprint;
pub mod heights;
pub mod inference;
pub mod json;
pub mod laws;
pub mod membership;
pub mod model;
pub mod reduction;
pub mod runs;
pub mod schema;
pub mod schema_object;
pub mod schema_object_key;
pub mod schema_value_type;
pub mod text;
pub mod value_type;

pub use json::{JsonMember, JsonValue};
pub use schema::{Schema, SchemaError, SchemaField};
pub use schema_object::SchemaObject;
pub use schema_object_key::SchemaObjectKey;
pub use schema_value_type::SchemaValueType;
pub use value_type::ValueType;
