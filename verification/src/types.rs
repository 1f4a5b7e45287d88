//! Types that the schema-driven parsers produce.

pub mod array;
pub mod data;
pub mod executable_path;
pub mod map;
pub mod string;
pub mod valid_path;
