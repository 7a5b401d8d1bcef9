use vstd::prelude::*;

pub mod ast;
pub mod ast_printer;
pub mod chunk;
pub mod class;
pub mod codegen;
pub mod driver;
pub mod environment;
pub mod lexer;
pub mod native;
pub mod parser;
pub mod parser_laws;
pub mod parser_spec;
pub mod resolver;
pub mod runtime;
pub mod test_runner;
pub mod text;
pub mod token;

verus! {
} // verus!
