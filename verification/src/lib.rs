pub mod action;
pub mod error;
pub mod loader;
pub mod paint;
pub mod parser;
pub mod render;
pub mod scan;
pub mod schema;
pub mod span;
pub mod text;
pub mod token;
pub mod type_trait;
pub mod types;
pub mod vfs;

pub use crate::loader::LogixLoader;
pub use crate::parser::LogixParser;
pub use crate::type_trait::LogixType;
pub use token::{Action, Brace, Delim, Literal, StrLit, StrTag, StrTagSuffix, Token};
