//! A small line-oriented text search library.
//!
//! Given a query string and the full contents of a text file, the library
//! reports every line of the contents in which the query occurs as a
//! contiguous substring, either case-sensitively or after ASCII
//! lowercasing of both sides.  A `Config` bundles the query, the file
//! name and the matching mode for one run.

pub mod config;
pub mod laws;
pub mod search;
pub mod text;

pub use config::Config;
pub use config::ConfigError;
pub use config::Env;
pub use search::run_search;
pub use search::search;
pub use search::search_case_insensitive;
