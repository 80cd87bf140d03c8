pub mod conservation;
pub mod evaluator;
pub mod inline;
pub mod lexer;
pub mod lexer_laws;
pub mod parser;
pub mod structure;
pub mod text;
