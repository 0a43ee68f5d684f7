//! A small scripting language: its syntax tree, a parser for its source text,
//! and a tree-walking evaluator.
//!
//! The evaluator performs no outside effect itself. A run of a program is
//! driven step by step: [`interpreter::Interpreter::run`] names the next
//! [`visitor::Action`] (print a value, read a line, run a shell command, or
//! compute with doubles), the caller performs it and hands back the
//! [`visitor::Event`] that came of it through
//! [`interpreter::Interpreter::resume`], until the run finishes. Numbers are
//! IEEE-754 doubles, carried as their bit patterns; arithmetic and comparison
//! on them are such actions.
//!
//! Scoping: a lookup walks from the current scope out through its enclosing
//! ones, and a binding is made in the current scope only; blocks and `if`
//! bodies share the scope they stand in.
pub mod parser;
pub mod runtime;
pub mod visitor;
pub mod interpreter;
pub mod laws;
pub mod number;
pub mod grammar;
