//! A parser for a CSS-superset stylesheet language with nested rules,
//! variables, mixins and string interpolation.
//!
//! The grammar is defined twice: once as mathematical functions over
//! sequences of characters (the `spec_*` functions), and once as executable
//! functions over `&str`. Every executable rule is proved to return exactly
//! what its mathematical counterpart prescribes: the same tree, the same
//! remaining input, and on failure the same category, place and commitment.
//!
//! * [`text`] holds the character-level primitives, which rest on the
//!   `nom` crate.
//! * [`lexer`] skips whitespace and comments and recognizes tokens,
//!   identifiers and at-keywords.
//! * [`parser`] holds the grammar of values, selectors and items, and the
//!   entry point [`parser::parse_stylesheet`].
//! * [`ast`] is the tree, [`outcome`] the result of a rule.
//! * [`laws`] states and proves what holds of the grammar as a whole.

pub mod ast;
pub mod outcome;
pub mod text;
pub mod lexer;
pub mod parser;
pub mod laws;
