//! Structural comparison of two versions of a legal text: a parser that
//! recovers the tree of parts, chapters, sections, articles, clauses and
//! items, a similarity scorer, and an aligner that maps the articles of the
//! old version to those of the new one.

pub mod api;
pub mod ast;
pub mod diff;
pub mod models;
pub mod nlp;
pub mod pattern;
pub mod text;
pub mod tree_laws;
