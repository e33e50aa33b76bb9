//! Localization: dictionary compilation, access policies and translation.

pub mod compiler;
pub mod toml_doc;
pub mod dict;
pub mod compile;
pub mod engine;
