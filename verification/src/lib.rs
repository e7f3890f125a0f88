//! Semantic queries on smart contracts: their functions, events and fields,
//! the maps from names to them, the special functions and the dependency
//! graphs; together with the AST node wrapper they work on.

pub mod span;
pub mod node;
pub mod diagnostics;
pub mod ast;
pub mod items;
pub mod depgraph;
pub mod name_maps;
pub mod db;
pub mod intern;
pub mod scope;
pub mod contracts;
pub mod properties;
