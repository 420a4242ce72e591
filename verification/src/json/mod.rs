//! JSON values and the JSON forms of the service's types.

pub mod alias;
pub mod body_laws;
pub mod entries;
pub mod fields;
pub mod filters;
pub mod hybrid;
pub mod pk;
pub mod schema;
pub mod schema_laws;
pub mod value;
pub mod values;
pub mod whole_schema;
