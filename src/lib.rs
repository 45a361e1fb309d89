//! Furigana for Japanese text: reading hints over the kanji of each word,
//! and the models of manuscripts and settings that carry them.
pub mod script;
pub mod segment;
pub mod runs;
pub mod align;
pub mod annotate;
pub mod analyzer;
pub mod manuscript;
pub mod settings;
pub mod fonts;
