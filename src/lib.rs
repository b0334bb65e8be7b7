//! Desktop-entry files of a launcher registry: a verified parser for the
//! entry text and the decisions of the directory-scan operations built on it.

pub mod entry;
pub mod repository;
pub mod laws;
