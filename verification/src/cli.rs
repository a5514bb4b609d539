//! What the command line needs settled before it touches the store.

pub mod config;
