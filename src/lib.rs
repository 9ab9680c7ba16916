//! A toplevel for a small ML-like expression language: integers, booleans,
//! integer lists, arithmetic, equality, and global and local bindings. A
//! statement is split into tokens, parsed into a syntax tree, and evaluated
//! against an environment that the caller owns across statements.

mod bounds;
mod eval;
mod eval_ast;
pub mod laws;
mod lexer;
mod list;
mod parser;
mod roundtrip;
mod text;
mod value;

pub use bounds::Bounds;
pub use eval::{eval, Error};
pub use eval_ast::{eval_ast, EvalError, Output};
pub use lexer::{tokenize, KwKind, LexError, Token};
pub use list::ListStruct;
pub use parser::{parse, BinOp, BindStruct, LocalBindStruct, Node, ParseError};
pub use value::{List, Value};
