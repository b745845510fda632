//! A parser for a small declarative grammar-description language.
//!
//! Each entry of a source file describes one operator: its name,
//! associativity, precedence, a "meaningful" flag, and up to three
//! embedded sub-grammars (`syntax`/`grammar`, `parse`, `fullform`)
//! written in a recursive pattern language of sequences, alternation,
//! repetition, literals and metavariables. The parsers in [`grammar`]
//! mirror specification functions over the input bytes, so what each one
//! accepts and returns is stated and proved exactly.

pub mod errors;
pub mod grammar;
pub mod render;
pub mod scan;
pub mod symbol_table;
pub mod syntax;
