//! Library core of a tmux session manager: glob and fuzzy matching of entry
//! keys, resolution of configured entries into sessions, tmux argument
//! construction, and the store edits behind the command line.
pub mod cli;
pub mod completions;
pub mod config;
pub mod error;
pub mod matcher;
pub mod migrate;
pub mod model;
pub mod ordered;
pub mod paths;
pub mod select;
pub mod text;
pub mod tmux;
