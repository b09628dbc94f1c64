//! A multi-language syntax-tree inspector: grammars compiled as native
//! modules are loaded at run time, source text is parsed into a concrete
//! syntax tree, and the tree is walked deterministically into a sequence of
//! (depth, kind, position) records for rendering.

pub mod engine;
pub mod error;
pub mod grammar;
pub mod lang;
pub mod registry;
pub mod render;
pub mod tree;
