//! The front and middle end of the Xiyi compiler.

pub mod ast;
pub mod binding;
pub mod building;
pub mod engine;
pub mod escapes;
pub mod guide;
pub mod hir;
pub mod intrinsic;
pub mod judgement;
pub mod layout;
pub mod leaving;
pub mod lexer;
pub mod lexical;
pub mod literal;
pub mod lowering;
pub mod meaning;
pub mod mir;
pub mod mir_builder;
pub mod mir_match;
pub mod mir_program;
pub mod numerals;
pub mod preservation;
pub mod repeating;
pub mod running;
pub mod semantic;
pub mod spelling;
pub mod state;
pub mod symbol_pool;
pub mod syntactic;
pub mod text;
pub mod token;
pub mod typing;
pub mod unicode_ident;
