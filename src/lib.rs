pub mod ast;
pub mod interpreter;
pub mod laws;
