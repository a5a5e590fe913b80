pub mod token;
pub mod lexer;
pub mod ast;
pub mod parser;
pub mod vars;
pub mod interp;
pub mod laws;
