//! String helpers for building SBPL (Seatbelt profile language) text.
//!
//! `StrExt::escape` turns arbitrary text into the body of an SBPL string
//! literal: every backslash and every double quote is preceded by a backslash,
//! every other character is kept as it is.

mod str_ext;

pub use str_ext::StrExt;
pub use str_ext::{
    escape_char, escaped, special_count, unescaped, lemma_escape_leaves_plain_text_untouched,
    lemma_escape_concat, lemma_escape_len, lemma_unescape_escape_roundtrip,
};
