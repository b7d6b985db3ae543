//! Line-oriented substring search over in-memory text, with a small
//! command-line configuration resolver.

pub mod config;
pub mod search;
pub mod text;
