//! Tokens of the Xiyi language.
use crate::lexer::Span;
use crate::symbol_pool::Symbol;
use crate::text::Chars;
use vstd::prelude::*;

verus! {

/// A token. Literals carry the bytes of the source that they span, identifiers
/// the symbol of their name.
#[derive(Clone, Copy, PartialEq, Eq, Structural, Debug)]
pub enum Token {
    Ident(Symbol),
    Integer(Span),
    Float(Span),
    String(Span),
    CharLiteral(Span),
    Fn,
    Let,
    Var,
    Mut,
    Const,
    Struct,
    Enum,
    Interface,
    Implement,
    TypeKw,
    Mod,
    Use,
    Pub,
    Priv,
    Extern,
    Crate,
    Super,
    Here,
    If,
    Else,
    Lack,
    Match,
    For,
    In,
    While,
    Loop,
    Break,
    Continue,
    Return,
    Yield,
    Bind,
    Is,
    As,
    Where,
    Try,
    Async,
    Await,
    Gen,
    Snapshot,
    Ref,
    Persist,
    Proto,
    Unsafe,
    Verify,
    Deterministic,
    Probabilistic,
    Checkpoint,
    Actor,
    Model,
    Tensor,
    SelfType,
    SelfLower,
    True,
    False,
    Nil,
    Bytes,
    I8,
    I16,
    I32,
    I64,
    I128,
    ISize,
    U8,
    U16,
    U32,
    U64,
    U128,
    USize,
    F16,
    F32,
    F64,
    Bool,
    Char,
    Str,
    Never,
    Plus,
    PlusEq,
    Minus,
    MinusEq,
    Arrow,
    Star,
    StarEq,
    Slash,
    SlashEq,
    Percent,
    PercentEq,
    Eq,
    EqEq,
    FatArrow,
    Bang,
    Neq,
    Lt,
    Le,
    Gt,
    Ge,
    Amp,
    And,
    Pipe,
    Or,
    Question,
    Dot,
    Range,
    Colon,
    PathSep,
    LBrace,
    RBrace,
    LBracket,
    RBracket,
    LParen,
    RParen,
    Semicolon,
    Comma,
    Pound,
}

/// How many symbols every pool starts with.
pub const PREDEFINED_SYMBOL_COUNT: usize = 75;

/// The spelling of the `i`-th predefined symbol.
pub open spec fn predefined_text(i: int) -> Chars {
    if i == 0 {
        "fn"@
    } else if i == 1 {
        "let"@
    } else if i == 2 {
        "var"@
    } else if i == 3 {
        "mut"@
    } else if i == 4 {
        "const"@
    } else if i == 5 {
        "struct"@
    } else if i == 6 {
        "enum"@
    } else if i == 7 {
        "interface"@
    } else if i == 8 {
        "implement"@
    } else if i == 9 {
        "type"@
    } else if i == 10 {
        "mod"@
    } else if i == 11 {
        "use"@
    } else if i == 12 {
        "pub"@
    } else if i == 13 {
        "priv"@
    } else if i == 14 {
        "extern"@
    } else if i == 15 {
        "crate"@
    } else if i == 16 {
        "super"@
    } else if i == 17 {
        "here"@
    } else if i == 18 {
        "if"@
    } else if i == 19 {
        "else"@
    } else if i == 20 {
        "lack"@
    } else if i == 21 {
        "match"@
    } else if i == 22 {
        "for"@
    } else if i == 23 {
        "in"@
    } else if i == 24 {
        "while"@
    } else if i == 25 {
        "loop"@
    } else if i == 26 {
        "break"@
    } else if i == 27 {
        "continue"@
    } else if i == 28 {
        "return"@
    } else if i == 29 {
        "yield"@
    } else if i == 30 {
        "bind"@
    } else if i == 31 {
        "is"@
    } else if i == 32 {
        "as"@
    } else if i == 33 {
        "where"@
    } else if i == 34 {
        "try"@
    } else if i == 35 {
        "async"@
    } else if i == 36 {
        "await"@
    } else if i == 37 {
        "gen"@
    } else if i == 38 {
        "snapshot"@
    } else if i == 39 {
        "ref"@
    } else if i == 40 {
        "persist"@
    } else if i == 41 {
        "proto"@
    } else if i == 42 {
        "unsafe"@
    } else if i == 43 {
        "verify"@
    } else if i == 44 {
        "deterministic"@
    } else if i == 45 {
        "probabilistic"@
    } else if i == 46 {
        "checkpoint"@
    } else if i == 47 {
        "actor"@
    } else if i == 48 {
        "model"@
    } else if i == 49 {
        "tensor"@
    } else if i == 50 {
        "Self"@
    } else if i == 51 {
        "self"@
    } else if i == 52 {
        "true"@
    } else if i == 53 {
        "false"@
    } else if i == 54 {
        "nil"@
    } else if i == 55 {
        "bytes"@
    } else if i == 56 {
        "i8"@
    } else if i == 57 {
        "i16"@
    } else if i == 58 {
        "i32"@
    } else if i == 59 {
        "i64"@
    } else if i == 60 {
        "i128"@
    } else if i == 61 {
        "isize"@
    } else if i == 62 {
        "u8"@
    } else if i == 63 {
        "u16"@
    } else if i == 64 {
        "u32"@
    } else if i == 65 {
        "u64"@
    } else if i == 66 {
        "u128"@
    } else if i == 67 {
        "usize"@
    } else if i == 68 {
        "f16"@
    } else if i == 69 {
        "f32"@
    } else if i == 70 {
        "f64"@
    } else if i == 71 {
        "bool"@
    } else if i == 72 {
        "char"@
    } else if i == 73 {
        "str"@
    } else if i == 74 {
        "never"@
    } else {
        Seq::empty()
    }
}

/// The token of the `i`-th predefined symbol.
pub open spec fn predefined_token(i: int) -> Token {
    if i == 0 {
        Token::Fn
    } else if i == 1 {
        Token::Let
    } else if i == 2 {
        Token::Var
    } else if i == 3 {
        Token::Mut
    } else if i == 4 {
        Token::Const
    } else if i == 5 {
        Token::Struct
    } else if i == 6 {
        Token::Enum
    } else if i == 7 {
        Token::Interface
    } else if i == 8 {
        Token::Implement
    } else if i == 9 {
        Token::TypeKw
    } else if i == 10 {
        Token::Mod
    } else if i == 11 {
        Token::Use
    } else if i == 12 {
        Token::Pub
    } else if i == 13 {
        Token::Priv
    } else if i == 14 {
        Token::Extern
    } else if i == 15 {
        Token::Crate
    } else if i == 16 {
        Token::Super
    } else if i == 17 {
        Token::Here
    } else if i == 18 {
        Token::If
    } else if i == 19 {
        Token::Else
    } else if i == 20 {
        Token::Lack
    } else if i == 21 {
        Token::Match
    } else if i == 22 {
        Token::For
    } else if i == 23 {
        Token::In
    } else if i == 24 {
        Token::While
    } else if i == 25 {
        Token::Loop
    } else if i == 26 {
        Token::Break
    } else if i == 27 {
        Token::Continue
    } else if i == 28 {
        Token::Return
    } else if i == 29 {
        Token::Yield
    } else if i == 30 {
        Token::Bind
    } else if i == 31 {
        Token::Is
    } else if i == 32 {
        Token::As
    } else if i == 33 {
        Token::Where
    } else if i == 34 {
        Token::Try
    } else if i == 35 {
        Token::Async
    } else if i == 36 {
        Token::Await
    } else if i == 37 {
        Token::Gen
    } else if i == 38 {
        Token::Snapshot
    } else if i == 39 {
        Token::Ref
    } else if i == 40 {
        Token::Persist
    } else if i == 41 {
        Token::Proto
    } else if i == 42 {
        Token::Unsafe
    } else if i == 43 {
        Token::Verify
    } else if i == 44 {
        Token::Deterministic
    } else if i == 45 {
        Token::Probabilistic
    } else if i == 46 {
        Token::Checkpoint
    } else if i == 47 {
        Token::Actor
    } else if i == 48 {
        Token::Model
    } else if i == 49 {
        Token::Tensor
    } else if i == 50 {
        Token::SelfType
    } else if i == 51 {
        Token::SelfLower
    } else if i == 52 {
        Token::True
    } else if i == 53 {
        Token::False
    } else if i == 54 {
        Token::Nil
    } else if i == 55 {
        Token::Bytes
    } else if i == 56 {
        Token::I8
    } else if i == 57 {
        Token::I16
    } else if i == 58 {
        Token::I32
    } else if i == 59 {
        Token::I64
    } else if i == 60 {
        Token::I128
    } else if i == 61 {
        Token::ISize
    } else if i == 62 {
        Token::U8
    } else if i == 63 {
        Token::U16
    } else if i == 64 {
        Token::U32
    } else if i == 65 {
        Token::U64
    } else if i == 66 {
        Token::U128
    } else if i == 67 {
        Token::USize
    } else if i == 68 {
        Token::F16
    } else if i == 69 {
        Token::F32
    } else if i == 70 {
        Token::F64
    } else if i == 71 {
        Token::Bool
    } else if i == 72 {
        Token::Char
    } else if i == 73 {
        Token::Str
    } else if i == 74 {
        Token::Never
    } else {
        Token::Ident(Symbol(i as usize))
    }
}

/// The spelling of the `i`-th predefined symbol.
pub fn predefined_str(i: usize) -> (r: &'static str)
    requires
        i < PREDEFINED_SYMBOL_COUNT,
    ensures
        r@ == predefined_text(i as int),
{
    match i {
        0 => "fn",
        1 => "let",
        2 => "var",
        3 => "mut",
        4 => "const",
        5 => "struct",
        6 => "enum",
        7 => "interface",
        8 => "implement",
        9 => "type",
        10 => "mod",
        11 => "use",
        12 => "pub",
        13 => "priv",
        14 => "extern",
        15 => "crate",
        16 => "super",
        17 => "here",
        18 => "if",
        19 => "else",
        20 => "lack",
        21 => "match",
        22 => "for",
        23 => "in",
        24 => "while",
        25 => "loop",
        26 => "break",
        27 => "continue",
        28 => "return",
        29 => "yield",
        30 => "bind",
        31 => "is",
        32 => "as",
        33 => "where",
        34 => "try",
        35 => "async",
        36 => "await",
        37 => "gen",
        38 => "snapshot",
        39 => "ref",
        40 => "persist",
        41 => "proto",
        42 => "unsafe",
        43 => "verify",
        44 => "deterministic",
        45 => "probabilistic",
        46 => "checkpoint",
        47 => "actor",
        48 => "model",
        49 => "tensor",
        50 => "Self",
        51 => "self",
        52 => "true",
        53 => "false",
        54 => "nil",
        55 => "bytes",
        56 => "i8",
        57 => "i16",
        58 => "i32",
        59 => "i64",
        60 => "i128",
        61 => "isize",
        62 => "u8",
        63 => "u16",
        64 => "u32",
        65 => "u64",
        66 => "u128",
        67 => "usize",
        68 => "f16",
        69 => "f32",
        70 => "f64",
        71 => "bool",
        72 => "char",
        73 => "str",
        _ => "never",
    }
}

/// The token of the symbol with index `i`.
pub fn token_of_symbol(i: usize) -> (r: Token)
    ensures
        r == predefined_token(i as int),
{
    match i {
        0 => Token::Fn,
        1 => Token::Let,
        2 => Token::Var,
        3 => Token::Mut,
        4 => Token::Const,
        5 => Token::Struct,
        6 => Token::Enum,
        7 => Token::Interface,
        8 => Token::Implement,
        9 => Token::TypeKw,
        10 => Token::Mod,
        11 => Token::Use,
        12 => Token::Pub,
        13 => Token::Priv,
        14 => Token::Extern,
        15 => Token::Crate,
        16 => Token::Super,
        17 => Token::Here,
        18 => Token::If,
        19 => Token::Else,
        20 => Token::Lack,
        21 => Token::Match,
        22 => Token::For,
        23 => Token::In,
        24 => Token::While,
        25 => Token::Loop,
        26 => Token::Break,
        27 => Token::Continue,
        28 => Token::Return,
        29 => Token::Yield,
        30 => Token::Bind,
        31 => Token::Is,
        32 => Token::As,
        33 => Token::Where,
        34 => Token::Try,
        35 => Token::Async,
        36 => Token::Await,
        37 => Token::Gen,
        38 => Token::Snapshot,
        39 => Token::Ref,
        40 => Token::Persist,
        41 => Token::Proto,
        42 => Token::Unsafe,
        43 => Token::Verify,
        44 => Token::Deterministic,
        45 => Token::Probabilistic,
        46 => Token::Checkpoint,
        47 => Token::Actor,
        48 => Token::Model,
        49 => Token::Tensor,
        50 => Token::SelfType,
        51 => Token::SelfLower,
        52 => Token::True,
        53 => Token::False,
        54 => Token::Nil,
        55 => Token::Bytes,
        56 => Token::I8,
        57 => Token::I16,
        58 => Token::I32,
        59 => Token::I64,
        60 => Token::I128,
        61 => Token::ISize,
        62 => Token::U8,
        63 => Token::U16,
        64 => Token::U32,
        65 => Token::U64,
        66 => Token::U128,
        67 => Token::USize,
        68 => Token::F16,
        69 => Token::F32,
        70 => Token::F64,
        71 => Token::Bool,
        72 => Token::Char,
        73 => Token::Str,
        74 => Token::Never,
        _ => Token::Ident(Symbol(i)),
    }
}

impl Token {
    /// The spelling of a token that has only one: keywords and punctuation.
    #[verifier::opaque]
    pub open spec fn fixed_text(self) -> Chars {
        match self {
            Token::Fn => "fn"@,
            Token::Let => "let"@,
            Token::Var => "var"@,
            Token::Mut => "mut"@,
            Token::Const => "const"@,
            Token::Struct => "struct"@,
            Token::Enum => "enum"@,
            Token::Interface => "interface"@,
            Token::Implement => "implement"@,
            Token::TypeKw => "type"@,
            Token::Mod => "mod"@,
            Token::Use => "use"@,
            Token::Pub => "pub"@,
            Token::Priv => "priv"@,
            Token::Extern => "extern"@,
            Token::Crate => "crate"@,
            Token::Super => "super"@,
            Token::Here => "here"@,
            Token::If => "if"@,
            Token::Else => "else"@,
            Token::Lack => "lack"@,
            Token::Match => "match"@,
            Token::For => "for"@,
            Token::In => "in"@,
            Token::While => "while"@,
            Token::Loop => "loop"@,
            Token::Break => "break"@,
            Token::Continue => "continue"@,
            Token::Return => "return"@,
            Token::Yield => "yield"@,
            Token::Bind => "bind"@,
            Token::Is => "is"@,
            Token::As => "as"@,
            Token::Where => "where"@,
            Token::Try => "try"@,
            Token::Async => "async"@,
            Token::Await => "await"@,
            Token::Gen => "gen"@,
            Token::Snapshot => "snapshot"@,
            Token::Ref => "ref"@,
            Token::Persist => "persist"@,
            Token::Proto => "proto"@,
            Token::Unsafe => "unsafe"@,
            Token::Verify => "verify"@,
            Token::Deterministic => "deterministic"@,
            Token::Probabilistic => "probabilistic"@,
            Token::Checkpoint => "checkpoint"@,
            Token::Actor => "actor"@,
            Token::Model => "model"@,
            Token::Tensor => "tensor"@,
            Token::SelfType => "Self"@,
            Token::SelfLower => "self"@,
            Token::True => "true"@,
            Token::False => "false"@,
            Token::Nil => "nil"@,
            Token::Bytes => "bytes"@,
            Token::I8 => "i8"@,
            Token::I16 => "i16"@,
            Token::I32 => "i32"@,
            Token::I64 => "i64"@,
            Token::I128 => "i128"@,
            Token::ISize => "isize"@,
            Token::U8 => "u8"@,
            Token::U16 => "u16"@,
            Token::U32 => "u32"@,
            Token::U64 => "u64"@,
            Token::U128 => "u128"@,
            Token::USize => "usize"@,
            Token::F16 => "f16"@,
            Token::F32 => "f32"@,
            Token::F64 => "f64"@,
            Token::Bool => "bool"@,
            Token::Char => "char"@,
            Token::Str => "str"@,
            Token::Never => "never"@,
            Token::Plus => "+"@,
            Token::PlusEq => "+="@,
            Token::Minus => "-"@,
            Token::MinusEq => "-="@,
            Token::Arrow => "->"@,
            Token::Star => "*"@,
            Token::StarEq => "*="@,
            Token::Slash => "/"@,
            Token::SlashEq => "/="@,
            Token::Percent => "%"@,
            Token::PercentEq => "%="@,
            Token::Eq => "="@,
            Token::EqEq => "=="@,
            Token::FatArrow => "=>"@,
            Token::Bang => "!"@,
            Token::Neq => "!="@,
            Token::Lt => "<"@,
            Token::Le => "<="@,
            Token::Gt => ">"@,
            Token::Ge => ">="@,
            Token::Amp => "&"@,
            Token::And => "&&"@,
            Token::Pipe => "|"@,
            Token::Or => "|="@,
            Token::Question => "?"@,
            Token::Dot => "."@,
            Token::Range => ".."@,
            Token::Colon => ":"@,
            Token::PathSep => "::"@,
            Token::LBrace => "{"@,
            Token::RBrace => "}"@,
            Token::LBracket => "["@,
            Token::RBracket => "]"@,
            Token::LParen => "("@,
            Token::RParen => ")"@,
            Token::Semicolon => ";"@,
            Token::Comma => ","@,
            Token::Pound => "#"@,
            Token::Ident(_) | Token::Integer(_) | Token::Float(_) | Token::String(_)
            | Token::CharLiteral(_) => Seq::empty(),
        }
    }

    /// The name of the token's kind, as error messages give it.
    #[verifier::opaque]
    pub open spec fn kind_text(self) -> Chars {
        match self {
            Token::Ident(_) => "Ident"@,
            Token::Integer(_) => "Integer"@,
            Token::Float(_) => "Float"@,
            Token::String(_) => "String"@,
            Token::CharLiteral(_) => "CharLiteral"@,
            Token::Fn => "Fn"@,
            Token::Let => "Let"@,
            Token::Var => "Var"@,
            Token::Mut => "Mut"@,
            Token::Const => "Const"@,
            Token::Struct => "Struct"@,
            Token::Enum => "Enum"@,
            Token::Interface => "Interface"@,
            Token::Implement => "Implement"@,
            Token::TypeKw => "TypeKw"@,
            Token::Mod => "Mod"@,
            Token::Use => "Use"@,
            Token::Pub => "Pub"@,
            Token::Priv => "Priv"@,
            Token::Extern => "Extern"@,
            Token::Crate => "Crate"@,
            Token::Super => "Super"@,
            Token::Here => "Here"@,
            Token::If => "If"@,
            Token::Else => "Else"@,
            Token::Lack => "Lack"@,
            Token::Match => "Match"@,
            Token::For => "For"@,
            Token::In => "In"@,
            Token::While => "While"@,
            Token::Loop => "Loop"@,
            Token::Break => "Break"@,
            Token::Continue => "Continue"@,
            Token::Return => "Return"@,
            Token::Yield => "Yield"@,
            Token::Bind => "Bind"@,
            Token::Is => "Is"@,
            Token::As => "As"@,
            Token::Where => "Where"@,
            Token::Try => "Try"@,
            Token::Async => "Async"@,
            Token::Await => "Await"@,
            Token::Gen => "Gen"@,
            Token::Snapshot => "Snapshot"@,
            Token::Ref => "Ref"@,
            Token::Persist => "Persist"@,
            Token::Proto => "Proto"@,
            Token::Unsafe => "Unsafe"@,
            Token::Verify => "Verify"@,
            Token::Deterministic => "Deterministic"@,
            Token::Probabilistic => "Probabilistic"@,
            Token::Checkpoint => "Checkpoint"@,
            Token::Actor => "Actor"@,
            Token::Model => "Model"@,
            Token::Tensor => "Tensor"@,
            Token::SelfType => "SelfType"@,
            Token::SelfLower => "SelfLower"@,
            Token::True => "True"@,
            Token::False => "False"@,
            Token::Nil => "Nil"@,
            Token::Bytes => "Bytes"@,
            Token::I8 => "I8"@,
            Token::I16 => "I16"@,
            Token::I32 => "I32"@,
            Token::I64 => "I64"@,
            Token::I128 => "I128"@,
            Token::ISize => "ISize"@,
            Token::U8 => "U8"@,
            Token::U16 => "U16"@,
            Token::U32 => "U32"@,
            Token::U64 => "U64"@,
            Token::U128 => "U128"@,
            Token::USize => "USize"@,
            Token::F16 => "F16"@,
            Token::F32 => "F32"@,
            Token::F64 => "F64"@,
            Token::Bool => "Bool"@,
            Token::Char => "Char"@,
            Token::Str => "Str"@,
            Token::Never => "Never"@,
            Token::Plus => "Plus"@,
            Token::PlusEq => "PlusEq"@,
            Token::Minus => "Minus"@,
            Token::MinusEq => "MinusEq"@,
            Token::Arrow => "Arrow"@,
            Token::Star => "Star"@,
            Token::StarEq => "StarEq"@,
            Token::Slash => "Slash"@,
            Token::SlashEq => "SlashEq"@,
            Token::Percent => "Percent"@,
            Token::PercentEq => "PercentEq"@,
            Token::Eq => "Eq"@,
            Token::EqEq => "EqEq"@,
            Token::FatArrow => "FatArrow"@,
            Token::Bang => "Bang"@,
            Token::Neq => "Neq"@,
            Token::Lt => "Lt"@,
            Token::Le => "Le"@,
            Token::Gt => "Gt"@,
            Token::Ge => "Ge"@,
            Token::Amp => "Amp"@,
            Token::And => "And"@,
            Token::Pipe => "Pipe"@,
            Token::Or => "Or"@,
            Token::Question => "Question"@,
            Token::Dot => "Dot"@,
            Token::Range => "Range"@,
            Token::Colon => "Colon"@,
            Token::PathSep => "PathSep"@,
            Token::LBrace => "LBrace"@,
            Token::RBrace => "RBrace"@,
            Token::LBracket => "LBracket"@,
            Token::RBracket => "RBracket"@,
            Token::LParen => "LParen"@,
            Token::RParen => "RParen"@,
            Token::Semicolon => "Semicolon"@,
            Token::Comma => "Comma"@,
            Token::Pound => "Pound"@,
        }
    }

    /// The name of the token's kind, as error messages give it.
    pub fn kind_str(self) -> (r: &'static str)
        ensures
            r@ == self.kind_text(),
    {
        proof {
            reveal(Token::kind_text);
        }
        match self {
            Token::Ident(_) => "Ident",
            Token::Integer(_) => "Integer",
            Token::Float(_) => "Float",
            Token::String(_) => "String",
            Token::CharLiteral(_) => "CharLiteral",
            Token::Fn => "Fn",
            Token::Let => "Let",
            Token::Var => "Var",
            Token::Mut => "Mut",
            Token::Const => "Const",
            Token::Struct => "Struct",
            Token::Enum => "Enum",
            Token::Interface => "Interface",
            Token::Implement => "Implement",
            Token::TypeKw => "TypeKw",
            Token::Mod => "Mod",
            Token::Use => "Use",
            Token::Pub => "Pub",
            Token::Priv => "Priv",
            Token::Extern => "Extern",
            Token::Crate => "Crate",
            Token::Super => "Super",
            Token::Here => "Here",
            Token::If => "If",
            Token::Else => "Else",
            Token::Lack => "Lack",
            Token::Match => "Match",
            Token::For => "For",
            Token::In => "In",
            Token::While => "While",
            Token::Loop => "Loop",
            Token::Break => "Break",
            Token::Continue => "Continue",
            Token::Return => "Return",
            Token::Yield => "Yield",
            Token::Bind => "Bind",
            Token::Is => "Is",
            Token::As => "As",
            Token::Where => "Where",
            Token::Try => "Try",
            Token::Async => "Async",
            Token::Await => "Await",
            Token::Gen => "Gen",
            Token::Snapshot => "Snapshot",
            Token::Ref => "Ref",
            Token::Persist => "Persist",
            Token::Proto => "Proto",
            Token::Unsafe => "Unsafe",
            Token::Verify => "Verify",
            Token::Deterministic => "Deterministic",
            Token::Probabilistic => "Probabilistic",
            Token::Checkpoint => "Checkpoint",
            Token::Actor => "Actor",
            Token::Model => "Model",
            Token::Tensor => "Tensor",
            Token::SelfType => "SelfType",
            Token::SelfLower => "SelfLower",
            Token::True => "True",
            Token::False => "False",
            Token::Nil => "Nil",
            Token::Bytes => "Bytes",
            Token::I8 => "I8",
            Token::I16 => "I16",
            Token::I32 => "I32",
            Token::I64 => "I64",
            Token::I128 => "I128",
            Token::ISize => "ISize",
            Token::U8 => "U8",
            Token::U16 => "U16",
            Token::U32 => "U32",
            Token::U64 => "U64",
            Token::U128 => "U128",
            Token::USize => "USize",
            Token::F16 => "F16",
            Token::F32 => "F32",
            Token::F64 => "F64",
            Token::Bool => "Bool",
            Token::Char => "Char",
            Token::Str => "Str",
            Token::Never => "Never",
            Token::Plus => "Plus",
            Token::PlusEq => "PlusEq",
            Token::Minus => "Minus",
            Token::MinusEq => "MinusEq",
            Token::Arrow => "Arrow",
            Token::Star => "Star",
            Token::StarEq => "StarEq",
            Token::Slash => "Slash",
            Token::SlashEq => "SlashEq",
            Token::Percent => "Percent",
            Token::PercentEq => "PercentEq",
            Token::Eq => "Eq",
            Token::EqEq => "EqEq",
            Token::FatArrow => "FatArrow",
            Token::Bang => "Bang",
            Token::Neq => "Neq",
            Token::Lt => "Lt",
            Token::Le => "Le",
            Token::Gt => "Gt",
            Token::Ge => "Ge",
            Token::Amp => "Amp",
            Token::And => "And",
            Token::Pipe => "Pipe",
            Token::Or => "Or",
            Token::Question => "Question",
            Token::Dot => "Dot",
            Token::Range => "Range",
            Token::Colon => "Colon",
            Token::PathSep => "PathSep",
            Token::LBrace => "LBrace",
            Token::RBrace => "RBrace",
            Token::LBracket => "LBracket",
            Token::RBracket => "RBracket",
            Token::LParen => "LParen",
            Token::RParen => "RParen",
            Token::Semicolon => "Semicolon",
            Token::Comma => "Comma",
            Token::Pound => "Pound",
        }
    }
}

/// A number that tells the predefined spellings apart.
spec fn text_key(s: Chars) -> int {
    s.len() * 16777216 + (s[0] as int) * 65536 + (s[s.len() as int / 2] as int) * 256 + (s[s.len() - 1] as int)
}

/// The predefined symbol whose spelling has the key `k`.
spec fn key_index(k: int) -> int {
    if k == 40267374 {
        0
    } else if k == 57435508 {
        1
    } else if k == 58089842 {
        2
    } else if k == 57505140 {
        3
    } else if k == 90402420 {
        4
    } else if k == 108230004 {
        5
    } else if k == 73758061 {
        6
    } else if k == 157905509 {
        7
    } else if k == 157902196 {
        8
    } else if k == 74739813 {
        9
    } else if k == 57503588 {
        10
    } else if k == 58028901 {
        11
    } else if k == 57701730 {
        12
    } else if k == 74475894 {
        13
    } else if k == 107308398 {
        14
    } else if k == 90399077 {
        15
    } else if k == 91451506 {
        16
    } else if k == 73953893 {
        17
    } else if k == 40461926 {
        18
    } else if k == 73757541 {
        19
    } else if k == 74212203 {
        20
    } else if k == 91059304 {
        21
    } else if k == 57044850 {
        22
    } else if k == 40463982 {
        23
    } else if k == 91711845 {
        24
    } else if k == 74215280 {
        25
    } else if k == 90334571 {
        26
    } else if k == 140732773 {
        27
    } else if k == 108164462 {
        28
    } else if k == 91841892 {
        29
    } else if k == 73559652 {
        30
    } else if k == 40465267 {
        31
    } else if k == 39940979 {
        32
    } else if k == 91710821 {
        33
    } else if k == 57963129 {
        34
    } else if k == 90274147 {
        35
    } else if k == 90268020 {
        36
    } else if k == 57107822 {
        37
    } else if k == 141783924 {
        38
    } else if k == 57828710 {
        39
    } else if k == 124810100 {
        40
    } else if k == 91254639 {
        41
    } else if k == 108355941 {
        42
    } else if k == 108423545 {
        43
    } else if k == 224684387 {
        44
    } else if k == 225470819 {
        45
    } else if k == 174289012 {
        46
    } else if k == 90272882 {
        47
    } else if k == 91055212 {
        48
    } else if k == 108295026 {
        49
    } else if k == 72576102 {
        50
    } else if k == 74673254 {
        51
    } else if k == 74741093 {
        52
    } else if k == 90598501 {
        53
    } else if k == 57567596 {
        54
    } else if k == 90338419 {
        55
    } else if k == 40450104 {
        56
    } else if k == 57225526 {
        57
    } else if k == 57226034 {
        58
    } else if k == 57226804 {
        59
    } else if k == 74003000 {
        60
    } else if k == 90794341 {
        61
    } else if k == 41236536 {
        62
    } else if k == 58011958 {
        63
    } else if k == 58012466 {
        64
    } else if k == 58013236 {
        65
    } else if k == 74789432 {
        66
    } else if k == 91580773 {
        67
    } else if k == 57028918 {
        68
    } else if k == 57029426 {
        69
    } else if k == 57030196 {
        70
    } else if k == 73559916 {
        71
    } else if k == 73621874 {
        72
    } else if k == 57898098 {
        73
    } else if k == 91125362 {
        74
    } else {
        -1
    }
}

proof fn lemma_key_index(i: int)
    requires
        0 <= i < PREDEFINED_SYMBOL_COUNT,
    ensures
        key_index(text_key(predefined_text(i))) == i,
        predefined_token(i).fixed_text() == predefined_text(i),
{
    reveal(Token::fixed_text);
    if i == 0 {
        reveal_strlit("fn");
    } else if i == 1 {
        reveal_strlit("let");
    } else if i == 2 {
        reveal_strlit("var");
    } else if i == 3 {
        reveal_strlit("mut");
    } else if i == 4 {
        reveal_strlit("const");
    } else if i == 5 {
        reveal_strlit("struct");
    } else if i == 6 {
        reveal_strlit("enum");
    } else if i == 7 {
        reveal_strlit("interface");
    } else if i == 8 {
        reveal_strlit("implement");
    } else if i == 9 {
        reveal_strlit("type");
    } else if i == 10 {
        reveal_strlit("mod");
    } else if i == 11 {
        reveal_strlit("use");
    } else if i == 12 {
        reveal_strlit("pub");
    } else if i == 13 {
        reveal_strlit("priv");
    } else if i == 14 {
        reveal_strlit("extern");
    } else if i == 15 {
        reveal_strlit("crate");
    } else if i == 16 {
        reveal_strlit("super");
    } else if i == 17 {
        reveal_strlit("here");
    } else if i == 18 {
        reveal_strlit("if");
    } else if i == 19 {
        reveal_strlit("else");
    } else if i == 20 {
        reveal_strlit("lack");
    } else if i == 21 {
        reveal_strlit("match");
    } else if i == 22 {
        reveal_strlit("for");
    } else if i == 23 {
        reveal_strlit("in");
    } else if i == 24 {
        reveal_strlit("while");
    } else if i == 25 {
        reveal_strlit("loop");
    } else if i == 26 {
        reveal_strlit("break");
    } else if i == 27 {
        reveal_strlit("continue");
    } else if i == 28 {
        reveal_strlit("return");
    } else if i == 29 {
        reveal_strlit("yield");
    } else if i == 30 {
        reveal_strlit("bind");
    } else if i == 31 {
        reveal_strlit("is");
    } else if i == 32 {
        reveal_strlit("as");
    } else if i == 33 {
        reveal_strlit("where");
    } else if i == 34 {
        reveal_strlit("try");
    } else if i == 35 {
        reveal_strlit("async");
    } else if i == 36 {
        reveal_strlit("await");
    } else if i == 37 {
        reveal_strlit("gen");
    } else if i == 38 {
        reveal_strlit("snapshot");
    } else if i == 39 {
        reveal_strlit("ref");
    } else if i == 40 {
        reveal_strlit("persist");
    } else if i == 41 {
        reveal_strlit("proto");
    } else if i == 42 {
        reveal_strlit("unsafe");
    } else if i == 43 {
        reveal_strlit("verify");
    } else if i == 44 {
        reveal_strlit("deterministic");
    } else if i == 45 {
        reveal_strlit("probabilistic");
    } else if i == 46 {
        reveal_strlit("checkpoint");
    } else if i == 47 {
        reveal_strlit("actor");
    } else if i == 48 {
        reveal_strlit("model");
    } else if i == 49 {
        reveal_strlit("tensor");
    } else if i == 50 {
        reveal_strlit("Self");
    } else if i == 51 {
        reveal_strlit("self");
    } else if i == 52 {
        reveal_strlit("true");
    } else if i == 53 {
        reveal_strlit("false");
    } else if i == 54 {
        reveal_strlit("nil");
    } else if i == 55 {
        reveal_strlit("bytes");
    } else if i == 56 {
        reveal_strlit("i8");
    } else if i == 57 {
        reveal_strlit("i16");
    } else if i == 58 {
        reveal_strlit("i32");
    } else if i == 59 {
        reveal_strlit("i64");
    } else if i == 60 {
        reveal_strlit("i128");
    } else if i == 61 {
        reveal_strlit("isize");
    } else if i == 62 {
        reveal_strlit("u8");
    } else if i == 63 {
        reveal_strlit("u16");
    } else if i == 64 {
        reveal_strlit("u32");
    } else if i == 65 {
        reveal_strlit("u64");
    } else if i == 66 {
        reveal_strlit("u128");
    } else if i == 67 {
        reveal_strlit("usize");
    } else if i == 68 {
        reveal_strlit("f16");
    } else if i == 69 {
        reveal_strlit("f32");
    } else if i == 70 {
        reveal_strlit("f64");
    } else if i == 71 {
        reveal_strlit("bool");
    } else if i == 72 {
        reveal_strlit("char");
    } else if i == 73 {
        reveal_strlit("str");
    } else if i == 74 {
        reveal_strlit("never");
    }
}

/// No two predefined symbols are spelled alike.
pub proof fn predefined_texts_are_distinct(i: int, j: int)
    requires
        0 <= i < PREDEFINED_SYMBOL_COUNT,
        0 <= j < PREDEFINED_SYMBOL_COUNT,
        predefined_text(i) == predefined_text(j),
    ensures
        i == j,
{
    lemma_key_index(i);
    lemma_key_index(j);
}

/// A keyword's token is spelled as its symbol is.
pub proof fn predefined_token_is_spelled_alike(i: int)
    requires
        0 <= i < PREDEFINED_SYMBOL_COUNT,
    ensures
        predefined_token(i).fixed_text() == predefined_text(i),
{
    lemma_key_index(i);
}

/// Only literals carry spans: a symbol's token is no literal.
pub proof fn lemma_symbol_token(i: int)
    ensures
        !(predefined_token(i) is Integer),
        !(predefined_token(i) is Float),
        !(predefined_token(i) is String),
        !(predefined_token(i) is CharLiteral),
{
}

} // verus!
