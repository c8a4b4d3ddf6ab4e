//! A record store with one save and one lookup method per kind of record.

pub mod savables;
pub mod toml_save;
