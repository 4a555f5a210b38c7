//! The values the locator hands out, and their mathematical views.
use vstd::prelude::*;

verus! {

/// One entry of the translation file: its key, the text for each language,
/// and the type annotation where the entry is a function.
#[derive(Debug, Clone, PartialEq, Eq)]
pub struct Translation {
    pub key: String,
    pub en: String,
    pub fr: String,
    pub is_function: bool,
    pub type_signature: Option<String>,
}

pub struct TranslationView {
    pub key: Seq<char>,
    pub en: Seq<char>,
    pub fr: Seq<char>,
    pub is_function: bool,
    pub type_signature: Option<Seq<char>>,
}

pub open spec fn opt_view(o: Option<String>) -> Option<Seq<char>> {
    match o {
        Some(s) => Some(s@),
        None => None,
    }
}

impl View for Translation {
    type V = TranslationView;

    open spec fn view(&self) -> TranslationView {
        TranslationView {
            key: self.key@,
            en: self.en@,
            fr: self.fr@,
            is_function: self.is_function,
            type_signature: opt_view(self.type_signature),
        }
    }
}

/// A field of the type declaration.
#[derive(Debug, Clone, PartialEq, Eq)]
pub struct TypeField {
    pub name: String,
    pub type_annotation: String,
}

/// A field of a record literal.
#[derive(Debug, Clone, PartialEq, Eq)]
pub struct RecordField {
    pub name: String,
    pub value: String,
}

/// Where the three regions lie (inclusive line indices) and the
/// translations they declare, one per field of the type declaration, in
/// order.
#[derive(Debug, Clone)]
pub struct ParseResult {
    pub type_start_line: usize,
    pub type_end_line: usize,
    pub en_start_line: usize,
    pub en_end_line: usize,
    pub fr_start_line: usize,
    pub fr_end_line: usize,
    pub translations: Vec<Translation>,
}

/// What can go wrong with a file that was read.
#[derive(Debug, Clone, PartialEq, Eq)]
pub enum I18nError {
    /// One of the three regions is missing; carries its label.
    RegionNotFound(String),
    /// No translation has this key.
    KeyNotFound(String),
}

} // verus!
