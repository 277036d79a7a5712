//! A transpiler core for a small statically typed scripting language: a
//! lexer, a recursive-descent parser and a generator of C source text, each
//! stated as a function on sequences and proved against that statement.

pub mod ast;
pub mod c_generator;
pub mod errors;
pub mod lexer;
pub mod parser;
pub mod text;

pub use ast::{Expr, Statement, Type};
pub use c_generator::{generate_c_code, translate_type};
pub use errors::Error;
pub use lexer::{tokenize, Token};
pub use parser::parse;
