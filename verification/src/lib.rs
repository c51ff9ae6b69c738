pub mod text;
pub mod location;
pub mod lexer;
pub mod actions;
pub mod laws;
