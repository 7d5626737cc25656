//! A small line-oriented text search: the lines of a text that contain a
//! query, and the resolution of a query and a file path from an argument
//! list.

pub mod config;
pub mod lines;
pub mod math;
pub mod search;
pub mod substring;
pub mod text;

pub use config::{Config, ConfigError};
pub use search::search;
