//! An interpreter core for a small imperative scripting language: lexing,
//! recursive-descent parsing into a span-tagged syntax tree, diagnostics that
//! point at exact byte ranges of the source, and a resumable evaluator.
//!
//! - `spans`, `tokens`, `text`: byte ranges, the token vocabulary, slicing.
//! - `token_lexer`: source bytes to tokens, one scan at a time.
//! - `grammar`: the grammar as mathematical functions from bytes to trees.
//! - `token_parser`, `program`: the parser, which computes what `grammar` defines.
//! - `placement`: where trees and failures lie in the text.
//! - `ast_nodes`: the syntax tree.
//! - `lang_errors`: failures, their messages, and their rendering with the
//!   source line and carets.
//! - `values`, `scopes`, `interpreter`: runtime values, the chain of scopes,
//!   and the machine that evaluates a tree step by step.
//! - `commands`: what a command line asks for.

pub mod ast_nodes;
pub mod commands;
pub mod grammar;
pub mod interpreter;
pub mod lang_errors;
pub mod placement;
pub mod program;
pub mod scopes;
pub mod spans;
pub mod text;
pub mod token_lexer;
pub mod token_parser;
pub mod tokens;
pub mod values;
