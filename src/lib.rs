//! Line-oriented maintenance of an Elm module that holds a `Translations`
//! record type and one record literal per language.
pub mod text;
pub mod types;
pub mod parser;
pub mod generator;
pub mod templates;
pub mod laws;
