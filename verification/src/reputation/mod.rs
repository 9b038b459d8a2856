//! URL reputation checks: host classification, domain heuristics, pattern lists
//! and the screening pipeline that decides whether a URL may be fetched.

pub mod ip;
pub mod heuristic;
pub mod regex_pattern;
pub mod url_parts;
pub mod patterns;
pub mod engine;
pub mod prefetch;
pub mod laws;
