//! Front end of a small expression language: a tokenizer, a recursive-descent
//! parser and a scope-aware type system. Each stage is proved to compute what a
//! mathematical model of it says: `lexer::lex_spec`, `parser::p_program` and
//! `typing::synth`.
pub mod lexer;
pub mod parser;
pub mod pipeline;
pub mod syntax;
pub mod text;
pub mod type_def;
pub mod typing;
