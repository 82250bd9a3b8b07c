//! A tiny arithmetic-expression engine: a formula is compiled once into a flat program for a stack
//! machine, then evaluated per cell against a fixed variable environment.
//!
//! It is an expression language, not a script: no statements, control flow, or assignment.
//! Identifiers resolve to the caller's variables or to the built-in constants and functions; an
//! unknown name is a compile error, so a typo is reported rather than silently zero.

pub mod error;
pub mod grammar;
pub mod lexer;
pub mod meaning_laws;
pub mod program;
pub mod syntax;
pub mod token_laws;
pub mod wrapping;
