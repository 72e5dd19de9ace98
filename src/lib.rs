//! Line-oriented text search: the lines of a text that contain a query,
//! exactly or regardless of case.
pub mod config;
pub mod laws;
pub mod search;
pub mod text;

pub use config::Config;
pub use search::{search, search_case_insensitive};
