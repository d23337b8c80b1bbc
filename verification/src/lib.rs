//! A small line-search library: resolve a configuration from positional
//! arguments, then select the lines of a text that contain a query string,
//! case-sensitively or not.

mod config;
mod lowercase;
mod search;
mod text;

pub use config::{parse_args, AppError, Config, MissingPart};
pub use lowercase::lower_of;
pub use search::{
    lemma_search_boundary, lemma_search_deterministic, lemma_search_matches,
    lemma_search_superset_insensitive, search, search_case_insensitive, search_with_config,
    spec_filter_insensitive, spec_filter_matching, spec_search, spec_search_insensitive,
};
pub use text::{
    contains_substr, first_newline, lemma_contains_empty, lemma_first_newline_unique,
    spec_contains, spec_contains_at, spec_lines, split_lines, strip_cr, views_of,
};
