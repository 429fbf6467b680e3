//! Application search engine: a case-insensitive, grapheme-aware substring
//! index over application names, a learned-preference index fed by the
//! user's selections, a multi-key ranking, and token-based cancellation of
//! deferred searches.

pub mod app_string;
pub mod matching;
pub mod apps;
pub mod substring_index;
pub mod learned_index;
pub mod ranking;
pub mod deferred;
pub mod search;
pub mod extensions;
pub mod deterministic_search;
pub mod catalog;
pub mod config;
pub mod url;
pub mod command;
