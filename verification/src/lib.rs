//! Front end of a template-expression language with `{{ ... }}` / `{% ... %}`
//! tags: a tokenizer that splits template text into literal and tag slices, a
//! lexer that turns one tag's interior into typed tokens, a recursive-descent
//! parser over those tokens, and a scope-chain variable store.
//!
//! Positions, lengths and slice boundaries are counted in characters, and the
//! contracts speak of strings through their `Seq<char>` views.

pub mod context;
pub mod errors;
pub mod lexer;
pub mod parser;
pub mod pattern;
pub mod scanner;
pub mod tokenizer;
