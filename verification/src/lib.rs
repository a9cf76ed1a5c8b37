//! A grammar-table-driven JSON parser.
//!
//! Raw bytes are lexed into a token sequence, and a shift-reduce engine
//! drives the tokens through a declarative table of grammar productions,
//! building a tagged value tree through one semantic action per production.
//! No parser automaton is precomputed: every shift/reduce decision rescans
//! the table, which keeps the grammar a small piece of read-only data.

pub mod action;
pub mod grammar;
pub mod lexer;
pub mod parse;
pub mod unmarshal;
pub mod util;
