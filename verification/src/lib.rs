//! A parser for a plain-text outline markup: headings marked by leading
//! `*`, with an optional status keyword and optional tags, lists, and free
//! text. A text is parsed into a tree of sections that can be walked and
//! written back as text.
//!
//! `parser::parse_org_text` is the entry point. What it returns is stated
//! over plain data: `parser::document_of` says which document a text
//! spells, and the modules `nesting`, `grouping` and `round_trip` state
//! what holds of every such document.

pub mod config;
pub mod content;
pub mod error;
pub mod grouping;
pub mod headline;
pub mod iter;
pub mod nesting;
pub mod object;
pub mod parser;
pub mod round_trip;
pub mod status_labels;
pub mod text;
