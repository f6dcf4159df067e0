pub mod ast;
pub mod core_ast;
pub mod value;
pub mod eval;
pub mod surface_eval;
pub mod desugar;
pub mod preservation;
pub mod lexer;
pub mod parse_ast;
pub mod parse;
pub mod entry;
