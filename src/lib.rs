//! A parser for the untyped lambda calculus that builds a hash-consed term
//! graph with variables resolved to de Bruijn indices.
pub mod tables;
pub mod text;
pub mod lexing;
pub mod parsing;
pub mod evaluating;
