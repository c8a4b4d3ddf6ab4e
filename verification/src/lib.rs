//! Invoice management: the invoice model, the TOML front end, HTML rendering
//! and the in-memory side of the invoice store.

pub mod text;
pub mod ids;
pub mod date;
pub mod invoice;
pub mod codegen;
pub mod toml_frontend;
pub mod naming;
pub mod records;
pub mod saves;
pub mod saving;
