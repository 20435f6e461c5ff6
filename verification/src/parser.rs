pub mod builder;
pub mod copy;
pub mod format;
pub mod grammar;
pub mod parser;
pub mod resolver;
