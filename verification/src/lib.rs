//! A small compiler for a C-like language: tokens, syntax tree, an SSA-style
//! intermediate representation with a cursor-based builder, two optimisation
//! passes and a C back end.

pub mod codegen;
pub mod common;
pub mod ir;
pub mod irgen;
pub mod parse;
pub mod pass;
pub mod text;
pub mod tokenize;
pub mod ty;
