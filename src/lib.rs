//! A small line-search library: split a text into lines, keep the lines that
//! contain a query (exactly or after lowering both sides), and resolve the
//! run configuration from invocation arguments.

pub mod config;
pub mod laws;
pub mod search;
pub mod text;
