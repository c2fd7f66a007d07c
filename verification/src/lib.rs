//! Static checking of physical dimensions for a small calculator language.

pub mod arithmetic;
pub mod ast;
pub mod dim;
pub mod dimension;
pub mod fault;
pub mod laws;
pub mod meaning;
pub mod name_map;
pub mod ratio;
pub mod registry;
pub mod rules;
pub mod typechecker;
pub mod typed_ast;
