//! The filesystem tool server's logic: sandbox containment, paths, edits,
//! listings, searches and the checks around reads and writes.

pub mod path;
pub mod sandbox;
pub mod edit;
pub mod search;
pub mod info;
pub mod params;
pub mod read;
pub mod write;
pub mod laws;
