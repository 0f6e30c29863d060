//! Line-oriented text search: find the lines of a document that contain a
//! query, optionally ignoring letter case, and validate the invocation that
//! asks for such a search.

mod config;
mod laws;
mod lines;
mod search;
mod text;

pub use config::{Config, ConfigError};
pub use laws::{
    lemma_empty_document, lemma_exact_search_selects_matches, lemma_folded_search_selects_matches,
    lemma_lone_newline, lemma_search_deterministic, lemma_trailing_newline,
};
pub use lines::{line_pieces, lines_of, split_lines, strip_cr, views_of};
pub use search::{
    keep_folded, line_matches, lower_of, matching_lines, search, search_insensitive, search_lines,
    select_folded, string_views,
};
pub use text::has_substring;
pub use text::line_contains;
