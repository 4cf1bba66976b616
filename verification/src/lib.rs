//! Front end for a small experimental language: a lexer that turns source
//! text into a token sequence, and a recursive-descent parser that recognizes
//! function declarations.

pub mod ast;
pub mod classes;
pub mod laws;
pub mod parser;
pub mod token;
pub mod tokenizer;

pub use ast::FunctionDeclaration;
pub use parser::{parse_function_declaration, Parser};
pub use token::Token;
pub use tokenizer::{tokenize, LexError, Tokenizer};
