//! A manuscript library: chapters kept as frontmatter-and-body text, a tree of book, part,
//! chapter and scene nodes, and exports of the manuscript to markdown, plain text, HTML,
//! LaTeX and EPUB 3. Every function here is verified; reading and writing files is left to
//! the caller.

use vstd::prelude::*;

pub mod blocks;
pub mod chapter;
pub mod epub;
pub mod export;
pub mod fonts;
pub mod inline;
pub mod latex;
pub mod plain;
pub mod project;
pub mod search;
pub mod text;
pub mod time;

verus! {

} // verus!
