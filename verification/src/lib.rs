//! Tagging of files: the query language over tags, the filter a query
//! parses to, and the store of files, tags and their connections against
//! which a filter is resolved.

pub mod cli;
pub mod tags;
