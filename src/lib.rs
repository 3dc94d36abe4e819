//! A JSON Schema validation engine over an in-memory JSON value tree.
pub mod error;
pub mod laws;
pub mod number;
pub mod pattern;
pub mod semantics;
pub mod validate;
pub mod value;

pub use error::ValidationError;
pub use number::JsonNumber;
pub use validate::{has_unique_elements, is_valid, run_validators, ValidatorResult};
pub use value::JsonValue;
