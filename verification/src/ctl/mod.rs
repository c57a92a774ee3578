//! The console command language: line editing, text primitives and the
//! command parser.

pub mod text;
pub mod cli;
