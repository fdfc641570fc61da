//! A small dynamically-typed Lisp-family interpreter whose surface syntax
//! uses Devanagari lexemes. Source text is read into a tree of symbolic
//! expressions, which a tree-walking evaluator reduces against a lexically
//! scoped environment.

pub mod ntypes;
pub mod types;
pub mod environment;
pub mod display;
pub mod parser;
pub mod semantics;
pub mod builtins;
pub mod evaluator;
pub mod props;
