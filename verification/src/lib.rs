//! Assembles a declaration file for the exported symbols of a native module.

pub mod assemble;
pub mod cli;
pub mod codegen;
pub mod error;
pub mod indent;
pub mod laws;
pub mod merge;
pub mod prepare;
pub mod reader;
pub mod record;
pub mod render;
pub mod substitute;
pub mod text;
