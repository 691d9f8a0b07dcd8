//! Bourne-shell-style word splitting and escaping.
//!
//! `split` tokenizes a string the way the shell would, honoring single
//! quotes, double quotes and backslash escapes; `escape` renders one
//! literal string so that the shell (and `split`) reads it back as a
//! single word; `join` escapes a list of literals and glues them with
//! spaces into one command line.

mod classes;
mod escaping;
mod laws;
mod model;
mod tokenize;

pub use laws::lemma_escape_prefixes_unsafe;
pub use laws::lemma_split_escape;
pub use laws::lemma_split_join;
pub use laws::lemma_split_trailing_whitespace;
pub use laws::lemma_split_whitespace;

pub use tokenize::MismatchedQuotes;
pub use tokenize::split;

pub use escaping::escape;
pub use escaping::join;
pub use escaping::escape_char;
pub use escaping::escape_chars;
pub use escaping::escape_spec;
pub use escaping::join_spec;

pub use model::Mode;
pub use model::St;
pub use model::split_spec;
pub use model::init_st;
pub use model::step;
pub use model::run;
pub use model::finish;
pub use classes::is_safe_char;
pub use classes::is_space_char;
pub use classes::is_letter_char;
pub use classes::is_digit_char;
pub use classes::is_dq_meta;
pub use classes::wide_letter;
pub use classes::wide_space;
