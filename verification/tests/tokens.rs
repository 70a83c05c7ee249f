use xiyi_compiler::lexer::{is_float_type, is_interger_type, unescape_string, LexError, Lexer, Span};
use xiyi_compiler::symbol_pool::SymbolPool;
use xiyi_compiler::token::Token;

fn tokens(input: &str) -> Vec<Token> {
    let mut pool = SymbolPool::new();
    Lexer::new(input).tokenize(&mut pool).unwrap()
}

fn fault(input: &str) -> LexError {
    let mut pool = SymbolPool::new();
    Lexer::new(input).tokenize(&mut pool).unwrap_err()
}

#[test]
fn white_space_and_comments_are_skipped() {
    assert_eq!(tokens(""), vec![]);
    assert_eq!(tokens(" \t\r\n"), vec![]);
    assert_eq!(tokens("+ // - * /\n-"), vec![Token::Plus, Token::Minus]);
    assert_eq!(tokens("+ // the end"), vec![Token::Plus]);
}

#[test]
fn the_longest_operator_wins() {
    assert_eq!(tokens("+="), vec![Token::PlusEq]);
    assert_eq!(tokens("+ ="), vec![Token::Plus, Token::Eq]);
    assert_eq!(tokens("->=>"), vec![Token::Arrow, Token::FatArrow]);
    assert_eq!(tokens("==="), vec![Token::EqEq, Token::Eq]);
    assert_eq!(tokens("a::b..c"), {
        let mut pool = SymbolPool::new();
        let a = pool.intern("a");
        let b = pool.intern("b");
        let c = pool.intern("c");
        vec![
            Token::Ident(a),
            Token::PathSep,
            Token::Ident(b),
            Token::Range,
            Token::Ident(c),
        ]
    });
    assert_eq!(tokens("! != & && | %"), vec![
        Token::Bang,
        Token::Neq,
        Token::Amp,
        Token::And,
        Token::Pipe,
        Token::Percent,
    ]);
}

#[test]
fn numbers_have_the_spans_of_their_text() {
    assert_eq!(tokens("10"), vec![Token::Integer(Span::new(0, 2))]);
    assert_eq!(tokens(" 1_000u64"), vec![Token::Integer(Span::new(1, 9))]);
    assert_eq!(tokens("1.5"), vec![Token::Float(Span::new(0, 3))]);
    assert_eq!(tokens("2f32"), vec![Token::Float(Span::new(0, 4))]);
    assert_eq!(tokens("1.5e-3f64"), vec![Token::Float(Span::new(0, 9))]);
    assert_eq!(tokens("0xFFu8"), vec![Token::Integer(Span::new(0, 6))]);
    assert_eq!(tokens("0b1010"), vec![Token::Integer(Span::new(0, 6))]);
    assert_eq!(tokens("0o17"), vec![Token::Integer(Span::new(0, 4))]);
    assert_eq!(tokens("0"), vec![Token::Integer(Span::new(0, 1))]);
}

#[test]
fn strings_keep_their_quotes_in_the_span() {
    assert_eq!(tokens("\"a\\\"b\""), vec![Token::String(Span::new(0, 6))]);
    assert_eq!(tokens("'x'"), vec![Token::CharLiteral(Span::new(0, 3))]);
}

#[test]
fn spans_are_in_bytes() {
    let input = "变量 \"值\"";
    let mut pool = SymbolPool::new();
    let mut lexer = Lexer::new(input);
    let found = lexer.tokenize(&mut pool).unwrap();
    let name = pool.get("变量").unwrap();
    assert_eq!(found, vec![Token::Ident(name), Token::String(Span::new(7, 12))]);
    assert_eq!(lexer.get_str(Span::new(7, 12)), "\"值\"");
    assert_eq!(lexer.get_str(Span::new(0, 6)), "变量");
}

#[test]
fn words_follow_the_unicode_rules() {
    assert_eq!(tokens("αβγ").len(), 1);
    assert_eq!(tokens("a1_b").len(), 1);
    assert_eq!(tokens("é").len(), 1);
    assert_eq!(tokens("_ _x").len(), 2);
    assert_eq!(fault("€").message, "unrecognized character '€' (U+20AC)");
}

#[test]
fn identifiers_stand_for_their_text() {
    let mut pool = SymbolPool::new();
    let found = Lexer::new("one two one").tokenize(&mut pool).unwrap();
    let one = pool.get("one").unwrap();
    let two = pool.get("two").unwrap();
    assert_eq!(found, vec![Token::Ident(one), Token::Ident(two), Token::Ident(one)]);
    assert_eq!(pool.resolve(one), "one");
}

#[test]
fn faults_say_where_they_are() {
    let f = fault("fn\n  $");
    assert_eq!(f.message, "unrecognized character '$' (U+0024)");
    assert_eq!((f.byte_offset, f.line, f.column), (5, 2, 3));
    assert_eq!(f.to_text(), "unrecognized character '$' (U+0024) (line 2, column 3)");
}

#[test]
fn open_literals_and_comments_reach_the_end() {
    assert_eq!(fault("\"abc").message, "unexpected end of input");
    assert_eq!(fault("'a").message, "unexpected end of input");
    assert_eq!(fault("/* a */").message, "unexpected end of input");
}

#[test]
fn wrong_suffixes_are_named() {
    assert_eq!(fault("10abc").message, "unknown suffix abc");
    assert_eq!(fault("1.5i32").message, "invalid suffix i32 for float literal");
    assert_eq!(fault("0b1f32").message, "invalid suffix f32 for interger literal");
    assert_eq!(fault("1.5e+").message, "expected at least one digit in exponent");
}

#[test]
fn a_radix_needs_a_digit() {
    assert_eq!(fault("0x").message, "unexpected end of input");
    assert_eq!(fault("0b2").message, "unrecognized character '2' (U+0032)");
}

#[test]
fn types_of_suffixes() {
    assert!(is_interger_type("i32"));
    assert!(is_interger_type("usize"));
    assert!(!is_interger_type("f32"));
    assert!(is_float_type("f64"));
    assert!(!is_float_type("i64"));
}

#[test]
fn escapes_are_replaced() {
    assert_eq!(unescape_string("plain"), "plain");
    assert_eq!(unescape_string("a\\nb\\tc\\\\d\\\"e"), "a\nb\tc\\d\"e");
    assert_eq!(unescape_string("\\x41"), "A");
    assert_eq!(unescape_string("\\u{4e2d}"), "中");
}

#[test]
fn broken_escapes_stay_as_they_are() {
    assert_eq!(unescape_string("\\q"), "\\q");
    assert_eq!(unescape_string("end\\"), "end\\");
    assert_eq!(unescape_string("\\xzz"), "\\xzz");
    assert_eq!(unescape_string("\\u{d800}"), "\\u{d800}");
}

#[test]
fn doubled_backslashes_are_the_text() {
    for text in ["", "a", "\\", "a\\n", "\\\\u{41}", "\\x"] {
        let doubled = text.replace('\\', "\\\\");
        assert_eq!(unescape_string(&doubled), text);
        let longer = format!("{}{}", doubled, "\\x41!");
        assert_eq!(unescape_string(&longer), format!("{}A!", text));
    }
}

#[test]
fn every_word_has_the_token_of_its_symbol() {
    let mut pool = SymbolPool::new();
    let before = pool.intern("earlier");
    let source = "fn alpha(_x: i32) { \"fn beta\" alpha } // gamma";
    let found = Lexer::new(source).tokenize(&mut pool).unwrap();
    let words: Vec<Token> = ["fn", "alpha", "_x", "i32", "alpha"]
        .iter()
        .map(|w| pool.get(w).unwrap().into_token())
        .collect();
    let read: Vec<Token> = found
        .into_iter()
        .filter(|t| matches!(t, Token::Fn | Token::I32 | Token::Ident(_)))
        .collect();
    assert_eq!(read, words);
    assert_eq!(words[0], Token::Fn);
    assert_eq!(words[1], words[4]);
    match words[1] {
        Token::Ident(symbol) => assert_eq!(pool.resolve(symbol), "alpha"),
        other => panic!("{:?}", other),
    }
    assert!(pool.get("beta").is_none());
    assert!(pool.get("gamma").is_none());
    assert_eq!(pool.resolve(before), "earlier");
}
