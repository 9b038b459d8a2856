//! Verified core of a sandboxed filesystem tool server and a URL reputation filter.

pub mod fs;
pub mod reputation;
pub mod text;
