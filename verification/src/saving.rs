//! A record store whose saves and lookups go through one generic trait,
//! `Stores<T>`, implemented for each kind of record.

pub mod savables;
pub mod toml_save;
