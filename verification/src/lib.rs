pub mod error;
pub mod grammar_laws;
pub mod lexer;
pub mod parser;
pub mod parser_laws;
pub mod rule;
pub mod rule_file;
pub mod rule_repr;
pub mod trace;
pub mod validate;
