//! Tags, the files that carry them, and queries over both.

pub mod db;
pub mod grammar;
pub mod resolve;
pub mod tag_relations;
pub mod types;
