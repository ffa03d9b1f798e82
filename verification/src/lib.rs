//! From the description of a REST API to a routing table and to type
//! declarations, in Scala and in TypeScript, for what each operation takes
//! and gives.

pub mod document;
pub mod emit;
pub mod error;
pub mod loader;
pub mod parser;
pub mod path;
pub mod routes;
pub mod schema;
pub mod sequence;
pub mod text;

pub use crate::document::{Entry, Node};
pub use crate::emit::{
    content_to_string_scala, content_to_string_ts, emit, generate_command_scala,
    generate_command_ts, generate_view_model_scala, generate_view_model_ts, head_uppercase, Role,
    Target,
};
pub use crate::error::{LoadError, RouteError, SchemaError, SchemaFault, Side};
pub use crate::loader::{describe, load_apis};
pub use crate::parser::from_yaml;
pub use crate::path::nomalize_play_variable_path;
pub use crate::routes::to_play_routings;
pub use crate::schema::{Api, Content, Method, ParamType, Property};
