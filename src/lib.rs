//! Reduces parsed web pages to a compact tree of their structural content
//! (headings, paragraphs, lists, links and tables) and attaches to each
//! link the reduced page it points to, one hop deep.
//!
//! - `text`: whitespace normalization of text nodes.
//! - `tags`, `config`: classification of tag names.
//! - `html`: the parsed markup that is read.
//! - `reduced`: the reduced tree and its views.
//! - `table`: tables as headers and records.
//! - `reduce`: the tree reducer.
//! - `links`, `expand`: link resolution and one-hop expansion.
//! - `batch`: address lists and per-item results.
use vstd::prelude::*;

pub mod batch;
pub mod config;
pub mod expand;
pub mod html;
pub mod links;
pub mod reduce;
pub mod reduced;
pub mod table;
pub mod tags;
pub mod text;

verus! {

} // verus!
