//! A minimal front end for a small subset of the C language: a tokenizer that
//! turns source text into a sequence of lexical tokens ending in a single
//! end-of-stream marker, and a recursive-descent parser that turns such a
//! token sequence into an abstract syntax tree of top-level function
//! declarations, or into a structured parse error.

pub mod ast;
pub mod lexer;
pub mod parser;
