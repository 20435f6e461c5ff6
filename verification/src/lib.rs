pub mod parser;
pub mod vm;
pub mod lexer;
pub mod diagnostic;
mod text;
pub mod containers;
pub mod tinyvec;
pub mod interpreter;
