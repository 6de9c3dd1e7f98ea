//! Flattens a JSON document into shell-style `KEY=VALUE` assignments.
//!
//! `JsonParser::parse` walks a `JsonValue` and yields its entries in document
//! order; `EnvVar::to_string` renders one entry as a line, and `format_env`
//! renders them all.
pub mod env_var;
pub mod json;
pub mod parser;
pub mod text;

pub use env_var::{format_env, EnvVar};
pub use json::JsonValue;
pub use parser::{JsonParser, ParseOptions};
