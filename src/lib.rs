//! Conversion and clean-up of flashcard decks exported as delimited text.

pub mod codec;
pub mod error;
pub mod file;
pub mod markup;
pub mod minimal_pair_note;
pub mod note;
pub mod parse;
pub mod simple_note;
pub mod spelling_note;
pub mod text;

pub use codec::{decode_fields, join_fields};
pub use error::Error;
pub use file::{body_of, parse_lines, File, Header};
pub use markup::remove_html;
pub use minimal_pair_note::{
    count_duplicate_pairs, deduplicate, pair_simple_notes, split_ipa_from_word, MinimalPairNote,
};
pub use note::Note;
pub use parse::{
    extract_header, find_header_entry, parse_separator, separator_named, FieldInfo,
};
pub use simple_note::SimpleNote;
pub use spelling_note::SpellingNote;
pub use text::{lines_of, split_on};
