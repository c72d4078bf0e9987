//! Constant folding for DreamMaker object trees.
pub mod ast;
pub mod constant;
pub mod constants;
pub mod equality;
pub mod error;
pub mod laws;
pub mod objtree;
pub mod orderly;
pub mod render;
pub mod semantics;
pub mod shared;
pub mod text;
pub mod vars;
