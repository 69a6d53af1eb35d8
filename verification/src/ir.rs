//! The intermediate representation: blocks, instructions and memories held in
//! arenas and addressed by stable identifiers.

pub mod arena;
pub mod block;
pub mod builder;
pub mod builder_trait;
pub mod idset;
pub mod function;
pub mod inst;
pub mod links;
pub mod memory;
pub mod module;
pub mod traverse;
pub mod visitor;
pub mod visitor_trait;
