//! A reader for metadata files of the short layout, and canonical names
//! without transliteration.

pub mod parsing;
pub mod string_normalization;
