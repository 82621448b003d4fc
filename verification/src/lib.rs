//! A small tree-walking interpreter for a dynamically typed scripting
//! language: a scanner over raw source bytes, a recursive-descent parser
//! building a statement list, and an evaluator running against a chained
//! lexical-scope environment, with one entry point that runs a whole
//! source unit.  Each stage is specified against a mathematical model and
//! verified: the scanner against a recursive tokenization function, the
//! parser against a grammar written as spec functions (including the
//! parse-time desugaring of `for` into `while` plus blocks), the
//! environment against a scope-chain model, and the evaluator against a
//! big-step semantics with a step budget.

pub mod token;
pub mod error;
pub mod environ;
pub mod expr;
pub mod stmt;
pub mod parser;
pub mod scanner;
pub mod eval;
pub mod mlox;
