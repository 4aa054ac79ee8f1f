//! A schema-driven mock HTTP backend: route-annotated interface declarations
//! are reduced to primitive schemas, and each schema drives a GET endpoint
//! that answers with synthetic JSON of the declared shape.

pub mod catalog;
pub mod extract;
pub mod schema;
pub mod source;
pub mod synth;
pub mod text;
