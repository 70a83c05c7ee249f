//! The parser: tokens to a syntax tree.
//!
//! `grammar` says what each phrase of the language is; the other modules read them.
pub mod declarations;
pub mod grammar;
mod parse_attr;
mod parse_def;
mod parse_expr;
mod parse_func;
mod parse_item;
mod parse_pattern;
mod parse_stmt;
mod parse_type;
pub mod parser;
pub mod patterns;
pub mod phrases;
pub mod printing;
pub mod sentences;
pub mod steps;

pub use parser::Parser;
