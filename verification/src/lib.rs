//! Schema-driven forms: JSON Schema 2020-12 documents, their reading and
//! normalization, validation, effective schemas under conditions, and the
//! runtime that keeps a form's field tree in step with its value.
pub mod json;
pub mod text;
pub mod pointer;
pub mod schema;
pub mod number;
pub mod util;
pub mod default;
pub mod effective;
pub mod ipv6;
pub mod validate;
pub mod resolve;
pub mod dependency;
pub mod schema_util;
pub mod children;
pub mod runtime;
pub mod display;
pub mod laws;
pub mod decode;
pub mod normalize;
