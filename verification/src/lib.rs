//! Lexical analysis and a flat, pointer-free syntax tree for the Yada language.
//!
//! * [`token`]: token kinds, tokens and the ordered table of token patterns.
//! * [`matching`]: the interface to the regular-expression engine.
//! * [`lexer`]: the scanner that turns source text into tokens.
//! * [`ast`]: the syntax tree, stored in pre-order in one growable array.
//! * [`text`]: the small text-building helpers the renderers share.
#![allow(non_camel_case_types)]

pub mod ast;
pub mod lexer;
pub mod matching;
pub mod text;
pub mod token;
