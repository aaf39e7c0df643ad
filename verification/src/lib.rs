pub mod ast;
pub mod eval;
pub mod formula;
pub mod heaviside;
pub mod lexer;
pub mod nesting;
pub mod number;
pub mod parser;
pub mod roundtrip;
pub mod semantics;
pub mod shape;
pub mod stack;
pub mod text;

pub use formula::parse;
pub use parser::parse_ast;
