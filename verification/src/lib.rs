//! A compiler for a whitespace-indented markup shorthand: each line is one
//! element, nesting is expressed by indentation, and an inline syntax gives an
//! element its id, classes, attributes and trailing text content.
//!
//! The pipeline has four stages: a tokenizer that classifies character runs
//! into raw tokens, a structural lexer that turns indentation changes into
//! explicit `Indent`/`Dedent`/`Newline` tokens (the off-side rule), a
//! recursive-descent parser that builds the element tree, and a serializer
//! that renders a tree back to markup text.

pub mod ast;
pub mod errors;
pub mod iter;
pub mod lexer;
pub mod parser;

pub use parser::parse;
