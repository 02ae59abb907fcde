//! Provider identifiers of cluster nodes, and the templates that display them.

pub mod config;
pub mod identifier;
pub mod laws;
pub mod node;
pub mod print;
pub mod template;
pub mod text;
