//! Compiles an embedded tag-markup literal into a runtime document tree.
//!
//! The pipeline has three stages: a context-sensitive lexer that classifies
//! primitive tokens into typed markup tokens ([`html_parse`]), a finite-state
//! analyzer that turns the token stream into an element tree ([`html_analyse`]),
//! and an identity-keyed tree store that holds the compiled document and
//! supports incremental mutation ([`vdom`]).

pub mod html;
pub mod html_analyse;
pub mod html_build;
pub mod html_parse;
pub mod vdom;
