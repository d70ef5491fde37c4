//! A scanner and recursive-descent parser for a small SQL dialect: `SELECT`
//! queries and `CREATE TABLE` definitions over a shared expression grammar.

pub mod token;
pub mod lexicon;
pub mod tokenizer;
pub mod statement;
pub mod grammar;
pub mod parser;
pub mod render;

pub use grammar::{Expected, ParseError};
pub use parser::Parser;
pub use statement::{BinaryOperator, Constraint, DBType, Expression, Statement, TableColumn, UnaryOperator};
pub use token::{Keyword, Token};
pub use tokenizer::{tokenize, Tokenizer};
