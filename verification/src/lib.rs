//! Front end and evaluator for a minimal expression/statement language.
//!
//! Source text is turned into tokens by the lexer, tokens into an abstract
//! syntax tree by a recursive-descent parser, and the tree into evaluated
//! results against a mutable variable environment.  A diagnostic subsystem
//! renders positioned error reports, and an auxiliary symbol table performs
//! duplicate-definition checking with memory-offset bookkeeping.

pub mod text;
pub mod token;
pub mod lexer_error;
pub mod error;
pub mod lexer;
pub mod parser;
pub mod environment;
pub mod sym_table;
