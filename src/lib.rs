//! A small arithmetic-expression front end: a lexer, a precedence-climbing
//! parser that builds a lossless green tree, typed views over that tree and an
//! evaluator.
pub mod syntax_kind;
pub mod text;
pub mod lexer;
pub mod green;
pub mod errors;
pub mod ast;
pub mod grammar;
pub mod parser;
pub mod eval;
pub mod dump;

pub use ast::Op;
pub use errors::{SyntaxError, SyntaxErrorKind};
pub use eval::EvalError;
pub use lexer::{Lexeme, Lexer, Span};
pub use parser::{Parse, Parser};
pub use syntax_kind::SyntaxKind;
