//! Front end of a small statically-typed expression language: a lexer that
//! turns source text into tokens, a recursive-descent parser that builds an
//! abstract syntax tree, and a type checker that validates the tree.

pub mod types;
pub mod token;
pub mod ast;
pub mod tokenizer;
pub mod parser;
pub mod type_checker;

pub use types::Type;
pub use token::Token;
