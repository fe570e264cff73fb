//! A small Lisp-family language engine: a reader that turns text into
//! symbolic-expression trees, and a tree-walking evaluator that runs
//! those trees against a chain of binding scopes.
//!
//! The meaning of every operation is written down once, as spec
//! functions — `sp_expression` and friends for the reader, `s_eval`
//! and friends for the evaluator — and each executable function is
//! proved to return exactly what those say.
//!
//! Recoverable errors (unknown symbols, uncallable values, argument
//! errors, failed assertions) travel as exception values that collect
//! a backtrace while unwinding.  Conditions the language cannot catch
//! (malformed special forms, arity mismatches, arithmetic overflow,
//! exhausted recursion budget) are reported as fatal, for the caller
//! to treat as the end of the program.

pub mod atom_parser;
pub mod builtins;
pub mod environment;
pub mod evaluator;
pub mod expressions;
pub mod function;
pub mod loader;
pub mod parser;
pub mod semantics;
pub mod to_string;
