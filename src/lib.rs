//! A two-stage front end: a tokenizer that turns source characters into a
//! line-stamped token stream, and a builder that folds that stream into a
//! tree of syntax nodes kept in an arena and addressed by keys.

pub mod arena;
pub mod ast;
pub mod building_laws;
pub mod lexer;
pub mod lexing_laws;
pub mod node;
pub mod number;
pub mod token;

pub use ast::{Ast, BuildError, BuildErrorKind, MAX_TOKENS};
pub use lexer::{LexError, LexErrorKind, Lexer};
pub use node::{BinaryExpr, BinaryOp, LiteralExpr, LiteralType, Node, NodeKey};
pub use token::{Token, TokenType};
