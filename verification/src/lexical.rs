//! The lexical grammar: which token stands at each place of a source text.
use crate::lexer::Span;
use crate::symbol_pool::{predefined_texts, with_text};
use crate::text::{byte_len, byte_offset, char_debug, Chars, hex_upper, lemma_byte_offset_mono};
use crate::token::{PREDEFINED_SYMBOL_COUNT, predefined_text, predefined_token, Token};
use crate::unicode_ident::{xid_continue, xid_start};
use vstd::prelude::*;

verus! {

/// The sets of characters of which the lexer reads runs.
#[derive(Clone, Copy, PartialEq, Eq, Structural, Debug)]
pub enum Class {
    /// What continues an identifier.
    Word,
    /// A decimal digit or an underscore.
    Decimal,
    Underscore,
    HexDigit,
    /// A hexadecimal digit or an underscore.
    Hex,
    BinaryDigit,
    /// A binary digit or an underscore.
    Binary,
    OctalDigit,
    /// An octal digit or an underscore.
    Octal,
    /// All but a line feed.
    Comment,
}

/// A hexadecimal digit of either case.
pub open spec fn is_hex_digit(c: char) -> bool {
    ('0' <= c && c <= '9') || ('a' <= c && c <= 'f') || ('A' <= c && c <= 'F')
}

/// Whether `c` belongs to the class.
pub open spec fn in_class(class: Class, c: char) -> bool {
    match class {
        Class::Word => xid_continue(c),
        Class::Decimal => ('0' <= c && c <= '9') || c == '_',
        Class::Underscore => c == '_',
        Class::HexDigit => is_hex_digit(c),
        Class::Hex => is_hex_digit(c) || c == '_',
        Class::BinaryDigit => c == '0' || c == '1',
        Class::Binary => c == '0' || c == '1' || c == '_',
        Class::OctalDigit => '0' <= c && c <= '7',
        Class::Octal => ('0' <= c && c <= '7') || c == '_',
        Class::Comment => c != '\n',
    }
}

/// The end of the longest run of characters of the class from `i` on.
pub open spec fn run_end(s: Chars, i: int, class: Class) -> int
    decreases s.len() - i,
{
    if i < s.len() && in_class(class, s[i]) {
        run_end(s, i + 1, class)
    } else {
        i
    }
}

/// The end of the identifier that starts at `i`; `i` where none does.
pub open spec fn suffix_end(s: Chars, i: int) -> int {
    if i < s.len() && xid_start(s[i]) {
        run_end(s, i + 1, Class::Word)
    } else {
        i
    }
}

/// Where the literal that `quote` closes ends: the place of that quote. A
/// backslash takes the character behind it along.
pub open spec fn quote_end(s: Chars, i: int, quote: char) -> Option<int>
    decreases s.len() + 1 - i,
{
    if i >= s.len() {
        None
    } else if s[i] == quote {
        Some(i)
    } else if s[i] == '\\' {
        quote_end(s, i + 2, quote)
    } else {
        quote_end(s, i + 1, quote)
    }
}

/// The names of the integer types, which a literal may have as suffix.
pub open spec fn integer_type(t: Chars) -> bool {
    ||| t == "u8"@
    ||| t == "u16"@
    ||| t == "u32"@
    ||| t == "u64"@
    ||| t == "u128"@
    ||| t == "usize"@
    ||| t == "i8"@
    ||| t == "i16"@
    ||| t == "i32"@
    ||| t == "i64"@
    ||| t == "i128"@
    ||| t == "isize"@
}

/// The names of the floating-point types, which a literal may have as suffix.
pub open spec fn float_type(t: Chars) -> bool {
    t == "f16"@ || t == "f32"@ || t == "f64"@
}

/// What is known of a text that is no sequence of tokens.
pub struct Fault {
    pub message: Chars,
    pub byte_offset: nat,
    pub line: nat,
    pub column: nat,
}

/// The line of the place `k`, counted from one.
pub open spec fn line_at(s: Chars, k: int) -> nat
    decreases k,
{
    if k <= 0 {
        1
    } else if s[k - 1] == '\n' {
        line_at(s, k - 1) + 1
    } else {
        line_at(s, k - 1)
    }
}

/// The column of the place `k`, in characters from one.
pub open spec fn column_at(s: Chars, k: int) -> nat
    decreases k,
{
    if k <= 0 {
        1
    } else if s[k - 1] == '\n' {
        1
    } else {
        column_at(s, k - 1) + 1
    }
}

/// The fault with that message at the place `k`.
pub open spec fn fault_at(s: Chars, message: Chars, k: int) -> Fault {
    Fault {
        message,
        byte_offset: byte_offset(s, k),
        line: line_at(s, k),
        column: column_at(s, k),
    }
}

/// The message on a character that starts no token, or on the end of the text.
pub open spec fn bad_char_message(s: Chars, k: int) -> Chars {
    if k < s.len() {
        "unrecognized character "@ + char_debug(s[k]) + " (U+"@ + hex_upper((s[k] as u32) as nat, 4) + ")"@
    } else {
        "unexpected end of input"@
    }
}

/// The fault of a character, or of the end of the text, that is not expected.
pub open spec fn bad_char(s: Chars, k: int) -> Fault {
    fault_at(s, bad_char_message(s, k), k)
}

/// What stands at a place of the source, and where it ends.
pub enum Piece {
    /// A word: a keyword or an identifier.
    Word { end: int },
    Fixed { token: Token, end: int },
    /// White space or a comment.
    Blank { end: int },
    Bad(Fault),
}

/// The bytes of the characters from `a` up to `b`.
pub open spec fn span(s: Chars, a: int, b: int) -> Span {
    Span { start: byte_offset(s, a) as usize, end: byte_offset(s, b) as usize }
}

/// Whether the span holds the characters from `a` up to `b`.
pub open spec fn covers(s: Chars, span: Span, a: int, b: int) -> bool {
    &&& 0 <= a <= b <= s.len()
    &&& span.start == byte_offset(s, a)
    &&& span.end == byte_offset(s, b)
}

/// The fault of a suffix that names no type.
pub open spec fn unknown_suffix(s: Chars, a: int, b: int) -> Piece {
    Piece::Bad(fault_at(s, "unknown suffix "@ + s.subrange(a, b), a))
}

/// The decimal literal that starts at `start`, read up to `i`.
///
/// Digits, then either a suffix or: a point and more digits, an exponent where
/// the point has digits behind it or there is no point, and a suffix.
pub open spec fn number_piece(s: Chars, start: int, i: int) -> Piece {
    let a = run_end(s, i, Class::Decimal);
    let b = suffix_end(s, a);
    if a < b {
        let suffix = s.subrange(a, b);
        if integer_type(suffix) {
            Piece::Fixed { token: Token::Integer(span(s, start, b)), end: b }
        } else if float_type(suffix) {
            Piece::Fixed { token: Token::Float(span(s, start, b)), end: b }
        } else {
            unknown_suffix(s, a, b)
        }
    } else {
        let dot = a < s.len() && s[a] == '.';
        let p = if dot {
            a + 1
        } else {
            a
        };
        let q = if dot {
            run_end(s, p, Class::Decimal)
        } else {
            p
        };
        if dot == (p < q) && q < s.len() && (s[q] == 'e' || s[q] == 'E') {
            let r = exponent_digits(s, q + 1);
            let t = run_end(s, r, Class::Decimal);
            if t == r {
                Piece::Bad(fault_at(s, "expected at least one digit in exponent"@, r))
            } else {
                number_tail(s, start, t, true)
            }
        } else {
            number_tail(s, start, q, dot)
        }
    }
}

/// Where the digits of an exponent start: behind its sign, if it has one.
pub open spec fn exponent_digits(s: Chars, i: int) -> int {
    if i < s.len() && (s[i] == '-' || s[i] == '+') {
        i + 1
    } else {
        i
    }
}

/// The decimal literal from `start`, read up to its suffix at `i`.
pub open spec fn number_tail(s: Chars, start: int, i: int, is_float: bool) -> Piece {
    let e = suffix_end(s, i);
    let suffix = s.subrange(i, e);
    if i < e && integer_type(suffix) && is_float {
        Piece::Bad(fault_at(s, "invalid suffix "@ + suffix + " for float literal"@, i))
    } else if i < e && !integer_type(suffix) && !float_type(suffix) {
        unknown_suffix(s, i, e)
    } else if is_float {
        Piece::Fixed { token: Token::Float(span(s, start, e)), end: e }
    } else {
        Piece::Fixed { token: Token::Integer(span(s, start, e)), end: e }
    }
}

/// The integer literal with a radix that starts at `start`, read up to behind
/// the letter: underscores, a digit, digits and underscores, a suffix.
pub open spec fn radix_piece(s: Chars, start: int, i: int, first: Class, more: Class) -> Piece {
    let a = run_end(s, i, Class::Underscore);
    if a < s.len() && in_class(first, s[a]) {
        let b = run_end(s, a, more);
        let e = suffix_end(s, b);
        if b < e && !integer_type(s.subrange(b, e)) {
            Piece::Bad(
                fault_at(
                    s,
                    "invalid suffix "@ + s.subrange(b, e) + " for interger literal"@,
                    b,
                ),
            )
        } else {
            Piece::Fixed { token: Token::Integer(span(s, start, e)), end: e }
        }
    } else {
        Piece::Bad(bad_char(s, a))
    }
}

/// The literal that starts with the zero at `i`.
pub open spec fn zero_piece(s: Chars, i: int) -> Piece {
    if i + 1 < s.len() && s[i + 1] == 'x' {
        radix_piece(s, i, i + 2, Class::HexDigit, Class::Hex)
    } else if i + 1 < s.len() && s[i + 1] == 'b' {
        radix_piece(s, i, i + 2, Class::BinaryDigit, Class::Binary)
    } else if i + 1 < s.len() && s[i + 1] == 'o' {
        radix_piece(s, i, i + 2, Class::OctalDigit, Class::Octal)
    } else {
        number_piece(s, i, i + 1)
    }
}

/// The token of the character `c` alone, if it is one.
pub open spec fn single_token(c: char) -> Option<Token> {
    match c {
        '+' => Some(Token::Plus),
        '-' => Some(Token::Minus),
        '*' => Some(Token::Star),
        '/' => Some(Token::Slash),
        '%' => Some(Token::Percent),
        '=' => Some(Token::Eq),
        '!' => Some(Token::Bang),
        '<' => Some(Token::Lt),
        '>' => Some(Token::Gt),
        '&' => Some(Token::Amp),
        '|' => Some(Token::Pipe),
        '?' => Some(Token::Question),
        '.' => Some(Token::Dot),
        ':' => Some(Token::Colon),
        '{' => Some(Token::LBrace),
        '}' => Some(Token::RBrace),
        '[' => Some(Token::LBracket),
        ']' => Some(Token::RBracket),
        '(' => Some(Token::LParen),
        ')' => Some(Token::RParen),
        ';' => Some(Token::Semicolon),
        ',' => Some(Token::Comma),
        '#' => Some(Token::Pound),
        _ => None,
    }
}

/// The token of the characters `c` and `d` together, if they are one.
pub open spec fn double_token(c: char, d: char) -> Option<Token> {
    if d == '=' {
        match c {
            '+' => Some(Token::PlusEq),
            '-' => Some(Token::MinusEq),
            '*' => Some(Token::StarEq),
            '/' => Some(Token::SlashEq),
            '%' => Some(Token::PercentEq),
            '=' => Some(Token::EqEq),
            '!' => Some(Token::Neq),
            '<' => Some(Token::Le),
            '>' => Some(Token::Ge),
            '|' => Some(Token::Or),
            _ => None,
        }
    } else if d == '>' {
        match c {
            '-' => Some(Token::Arrow),
            '=' => Some(Token::FatArrow),
            _ => None,
        }
    } else if c == '&' && d == '&' {
        Some(Token::And)
    } else if c == '.' && d == '.' {
        Some(Token::Range)
    } else if c == ':' && d == ':' {
        Some(Token::PathSep)
    } else {
        None
    }
}

/// The characters between tokens.
pub open spec fn blank(c: char) -> bool {
    c == ' ' || c == '\t' || c == '\n' || c == '\r'
}

/// What stands at the place `i` of the source.
///
/// The longest token wins. A text that opens a block comment never ends it.
pub open spec fn piece_at(s: Chars, i: int) -> Piece {
    let c = s[i];
    if xid_start(c) || c == '_' {
        Piece::Word { end: run_end(s, i + 1, Class::Word) }
    } else if blank(c) {
        Piece::Blank { end: i + 1 }
    } else if c == '0' {
        zero_piece(s, i)
    } else if '1' <= c && c <= '9' {
        number_piece(s, i, i + 1)
    } else if c == '"' || c == '\'' {
        match quote_end(s, i + 1, c) {
            Some(e) => Piece::Fixed {
                token: if c == '"' {
                    Token::String(span(s, i, e + 1))
                } else {
                    Token::CharLiteral(span(s, i, e + 1))
                },
                end: e + 1,
            },
            None => Piece::Bad(bad_char(s, s.len() as int)),
        }
    } else if c == '/' && i + 1 < s.len() && s[i + 1] == '/' {
        Piece::Blank { end: run_end(s, i + 2, Class::Comment) }
    } else if c == '/' && i + 1 < s.len() && s[i + 1] == '*' {
        Piece::Bad(bad_char(s, s.len() as int))
    } else if i + 1 < s.len() && double_token(c, s[i + 1]) is Some {
        Piece::Fixed { token: double_token(c, s[i + 1])->0, end: i + 2 }
    } else {
        match single_token(c) {
            Some(token) => Piece::Fixed { token, end: i + 1 },
            None => Piece::Bad(bad_char(s, i)),
        }
    }
}

/// A token and the characters that it is made of.
pub struct Place {
    pub token: Token,
    pub from: int,
    pub to: int,
}

/// What a run over a source gives: the tokens and the names that are then in the
/// pool, or the fault that ended it and the names that were in the pool by then.
pub struct Lexing {
    pub places: Seq<Place>,
    pub names: Seq<Chars>,
    pub fault: Option<Fault>,
}

/// The run over `s` from `i` on, with those tokens and names so far.
pub open spec fn lex_from(s: Chars, i: int, places: Seq<Place>, names: Seq<Chars>) -> Lexing
    decreases s.len() - i,
{
    proof {
        lemma_piece_end(s, i);
    }
    if i < 0 || i >= s.len() {
        Lexing { places, names, fault: None }
    } else {
        match piece_at(s, i) {
            Piece::Word { end } => {
                let names1 = with_text(names, s.subrange(i, end));
                let token = predefined_token(names1.index_of(s.subrange(i, end)));
                lex_from(s, end, places.push(Place { token, from: i, to: end }), names1)
            },
            Piece::Fixed { token, end } => {
                lex_from(s, end, places.push(Place { token, from: i, to: end }), names)
            },
            Piece::Blank { end } => lex_from(s, end, places, names),
            Piece::Bad(f) => Lexing { places, names, fault: Some(f) },
        }
    }
}

/// The run over the whole of `s`.
pub open spec fn lex(s: Chars, names: Seq<Chars>) -> Lexing {
    lex_from(s, 0, Seq::empty(), names)
}

/// The tokens of a run.
pub open spec fn tokens_of(places: Seq<Place>) -> Seq<Token> {
    places.map_values(|p: Place| p.token)
}

pub proof fn lemma_run_end(s: Chars, i: int, class: Class)
    ensures
        i <= run_end(s, i, class),
        i <= s.len() ==> run_end(s, i, class) <= s.len(),
    decreases s.len() - i,
{
    if i < s.len() && in_class(class, s[i]) {
        lemma_run_end(s, i + 1, class);
    }
}

pub proof fn lemma_suffix_end(s: Chars, i: int)
    ensures
        i <= suffix_end(s, i),
        i <= s.len() ==> suffix_end(s, i) <= s.len(),
{
    lemma_run_end(s, i + 1, Class::Word);
}

pub proof fn lemma_quote_end(s: Chars, i: int, quote: char)
    ensures
        quote_end(s, i, quote) matches Some(e) ==> i <= e < s.len() && s[e] == quote,
    decreases s.len() + 1 - i,
{
    if i < s.len() && s[i] != quote {
        lemma_quote_end(s, i + 1, quote);
        lemma_quote_end(s, i + 2, quote);
    }
}

proof fn lemma_number_piece(s: Chars, start: int, i: int)
    requires
        i <= s.len(),
    ensures
        number_piece(s, start, i) matches Piece::Fixed { token, end } ==> i <= end <= s.len(),
        number_piece(s, start, i) is Fixed || number_piece(s, start, i) is Bad,
{
    let a = run_end(s, i, Class::Decimal);
    lemma_run_end(s, i, Class::Decimal);
    lemma_suffix_end(s, a);
    let dot = a < s.len() && s[a] == '.';
    let p = if dot {
        a + 1
    } else {
        a
    };
    let q = if dot {
        run_end(s, p, Class::Decimal)
    } else {
        p
    };
    lemma_run_end(s, p, Class::Decimal);
    let r = exponent_digits(s, q + 1);
    lemma_run_end(s, r, Class::Decimal);
    lemma_suffix_end(s, run_end(s, r, Class::Decimal));
    lemma_suffix_end(s, q);
}

proof fn lemma_radix_piece(s: Chars, start: int, i: int, first: Class, more: Class)
    requires
        i <= s.len(),
    ensures
        radix_piece(s, start, i, first, more) matches Piece::Fixed { token, end } ==> i <= end
            <= s.len(),
        radix_piece(s, start, i, first, more) is Fixed || radix_piece(
            s,
            start,
            i,
            first,
            more,
        ) is Bad,
{
    let a = run_end(s, i, Class::Underscore);
    lemma_run_end(s, i, Class::Underscore);
    lemma_run_end(s, a, more);
    lemma_suffix_end(s, run_end(s, a, more));
}

/// Each piece holds at least one character and ends within the text.
pub proof fn lemma_piece_end(s: Chars, i: int)
    ensures
        0 <= i < s.len() ==> match piece_at(s, i) {
            Piece::Word { end } => i < end <= s.len(),
            Piece::Fixed { token, end } => i < end <= s.len(),
            Piece::Blank { end } => i < end <= s.len(),
            Piece::Bad(_) => true,
        },
{
    if 0 <= i < s.len() {
        lemma_run_end(s, i + 1, Class::Word);
        lemma_number_piece(s, i, i + 1);
        lemma_quote_end(s, i + 1, s[i]);
        if i + 1 < s.len() {
            lemma_radix_piece(s, i, i + 2, Class::HexDigit, Class::Hex);
            lemma_radix_piece(s, i, i + 2, Class::BinaryDigit, Class::Binary);
            lemma_radix_piece(s, i, i + 2, Class::OctalDigit, Class::Octal);
            lemma_run_end(s, i + 2, Class::Comment);
        }
    }
}

// Escapes in string and character literals.

/// The value of a hexadecimal digit.
pub open spec fn hex_digit_value(c: char) -> nat {
    if '0' <= c && c <= '9' {
        (c as nat - 48) as nat
    } else if 'a' <= c && c <= 'f' {
        (c as nat - 87) as nat
    } else {
        (c as nat - 55) as nat
    }
}

/// The number whose hexadecimal digits are `s`.
pub open spec fn hex_value(s: Chars) -> nat
    decreases s.len(),
{
    if s.len() == 0 {
        0
    } else {
        hex_value(s.drop_last()) * 16 + hex_digit_value(s.last())
    }
}

/// The digits of a hexadecimal number: a plus sign may stand before them.
pub open spec fn unsigned_digits(s: Chars) -> Chars {
    if s.len() > 0 && s[0] == '+' {
        s.skip(1)
    } else {
        s
    }
}

/// Whether `s` is a hexadecimal number.
pub open spec fn is_hex_number(s: Chars) -> bool {
    let d = unsigned_digits(s);
    d.len() > 0 && forall|k: int| 0 <= k < d.len() ==> is_hex_digit(#[trigger] d[k])
}

/// Whether `n` is the number of a character.
pub open spec fn is_scalar(n: nat) -> bool {
    n <= 0xD7FF || 0xE000 <= n <= 0x10FFFF
}

/// The place of the first brace that closes, from `i` on, or the end.
pub open spec fn brace_end(s: Chars, i: int) -> int
    decreases s.len() - i,
{
    if i < s.len() && s[i] != '}' {
        brace_end(s, i + 1)
    } else {
        i
    }
}

/// The character of an escape of one letter, if `c` is such a letter.
pub open spec fn simple_escape(c: char) -> Option<char> {
    match c {
        'n' => Some('\n'),
        'r' => Some('\r'),
        't' => Some('\t'),
        '\\' => Some('\\'),
        '"' => Some('"'),
        '\'' => Some('\''),
        '0' => Some('\0'),
        _ => None,
    }
}

/// What an escape stands for, and where it ends.
pub struct Escape {
    pub text: Chars,
    pub end: int,
}

/// The escape `\x` whose digits start at `i`: two bytes that are a number, or
/// else left as it is written; without its digits where they are not two bytes.
pub open spec fn byte_escape(s: Chars, i: int) -> Escape {
    let end = if i + 2 <= s.len() {
        i + 2
    } else {
        s.len() as int
    };
    let hex = s.subrange(i, end);
    let text = if byte_len(hex) == 2 {
        if is_hex_number(hex) {
            seq![hex_value(unsigned_digits(hex)) as char]
        } else {
            "\\x"@ + hex
        }
    } else {
        "\\x"@
    };
    Escape { text, end }
}

/// The escape `\u` with what stands at `i` behind it: a number in braces of up
/// to six bytes that is a character's, or else left as it is written.
pub open spec fn unicode_escape(s: Chars, i: int) -> Escape {
    if i < s.len() && s[i] == '{' {
        let e = brace_end(s, i + 1);
        let hex = s.subrange(i + 1, e);
        let text = if 0 < byte_len(hex) <= 6 && is_hex_number(hex) && is_scalar(
            hex_value(unsigned_digits(hex)),
        ) {
            seq![hex_value(unsigned_digits(hex)) as char]
        } else {
            "\\u{"@ + hex + "}"@
        };
        Escape {
            text,
            end: if e < s.len() {
                e + 1
            } else {
                e
            },
        }
    } else {
        Escape {
            text: "\\u"@,
            end: if i < s.len() {
                i + 1
            } else {
                i
            },
        }
    }
}

/// The escape whose backslash stands before `i`.
pub open spec fn escape_at(s: Chars, i: int) -> Escape {
    if i >= s.len() {
        Escape { text: seq!['\\'], end: i }
    } else if simple_escape(s[i]) is Some {
        Escape { text: seq![simple_escape(s[i])->0], end: i + 1 }
    } else if s[i] == 'x' {
        byte_escape(s, i + 1)
    } else if s[i] == 'u' {
        unicode_escape(s, i + 1)
    } else {
        Escape { text: seq!['\\', s[i]], end: i + 1 }
    }
}

/// The text of a literal from `i` on, with its escapes replaced.
pub open spec fn unescape_from(s: Chars, i: int) -> Chars
    decreases s.len() - i,
{
    proof {
        lemma_escape_end(s, i + 1);
    }
    if i < 0 || i >= s.len() {
        Seq::empty()
    } else if s[i] == '\\' {
        let e = escape_at(s, i + 1);
        e.text + unescape_from(s, e.end)
    } else {
        seq![s[i]] + unescape_from(s, i + 1)
    }
}

/// The text of a literal, with its escapes replaced.
pub open spec fn unescape(s: Chars) -> Chars {
    unescape_from(s, 0)
}

pub proof fn lemma_brace_end(s: Chars, i: int)
    ensures
        i <= brace_end(s, i),
        i <= s.len() ==> brace_end(s, i) <= s.len(),
    decreases s.len() - i,
{
    if i < s.len() && s[i] != '}' {
        lemma_brace_end(s, i + 1);
    }
}

pub proof fn lemma_escape_end(s: Chars, i: int)
    ensures
        0 <= i <= s.len() ==> i <= escape_at(s, i).end <= s.len(),
{
    lemma_brace_end(s, i + 2);
}

/// The text of a token: the inside of a string or character literal with its
/// escapes replaced, and of all others what is written.
pub open spec fn place_text(s: Chars, p: Place) -> Chars {
    match p.token {
        Token::String(_) | Token::CharLiteral(_) => unescape(s.subrange(p.from + 1, p.to - 1)),
        _ => s.subrange(p.from, p.to),
    }
}

/// A token with its text.
pub type TokenWord = (Token, Chars);

/// The tokens of a run with their texts.
pub open spec fn places_words(s: Chars, places: Seq<Place>) -> Seq<TokenWord> {
    places.map_values(|p: Place| (p.token, place_text(s, p)))
}

/// Tokens with their texts, as a sequence.
pub open spec fn words_of(v: Seq<(Token, String)>) -> Seq<TokenWord> {
    v.map_values(|w: (Token, String)| (w.0, w.1@))
}

// What holds of every run.

/// Whether a literal's span is that of its characters.
pub open spec fn span_fits(s: Chars, p: Place) -> bool {
    match p.token {
        Token::Integer(span) => covers(s, span, p.from, p.to),
        Token::Float(span) => covers(s, span, p.from, p.to),
        Token::String(span) => covers(s, span, p.from, p.to),
        Token::CharLiteral(span) => covers(s, span, p.from, p.to),
        _ => true,
    }
}

/// Whether the tokens stand one behind the other in the first `end` characters.
pub open spec fn in_order(s: Chars, places: Seq<Place>, end: int) -> bool {
    &&& forall|k: int|
        0 <= k < places.len() ==> {
            let p = #[trigger] places[k];
            0 <= p.from < p.to <= end && span_fits(s, p)
        }
    &&& forall|j: int, k: int|
        0 <= j < k < places.len() ==> (#[trigger] places[j]).to <= (#[trigger] places[k]).from
}

proof fn lemma_span(s: Chars, a: int, b: int)
    requires
        0 <= a <= b <= s.len(),
        byte_len(s) <= usize::MAX,
    ensures
        covers(s, span(s, a, b), a, b),
{
    lemma_byte_offset_mono(s, a, b);
}

proof fn lemma_number_span(s: Chars, start: int, i: int)
    requires
        0 <= start <= i <= s.len(),
        byte_len(s) <= usize::MAX,
    ensures
        number_piece(s, start, i) matches Piece::Fixed { token, end } ==> span_fits(
            s,
            Place { token, from: start, to: end },
        ),
{
    lemma_number_piece(s, start, i);
    if let Piece::Fixed { token, end } = number_piece(s, start, i) {
        lemma_span(s, start, end);
    }
}

proof fn lemma_radix_span(s: Chars, start: int, i: int, first: Class, more: Class)
    requires
        0 <= start <= i <= s.len(),
        byte_len(s) <= usize::MAX,
    ensures
        radix_piece(s, start, i, first, more) matches Piece::Fixed { token, end } ==> span_fits(
            s,
            Place { token, from: start, to: end },
        ),
{
    lemma_radix_piece(s, start, i, first, more);
    if let Piece::Fixed { token, end } = radix_piece(s, start, i, first, more) {
        lemma_span(s, start, end);
    }
}

proof fn lemma_piece_span(s: Chars, i: int)
    requires
        0 <= i < s.len(),
        byte_len(s) <= usize::MAX,
    ensures
        piece_at(s, i) matches Piece::Fixed { token, end } ==> span_fits(
            s,
            Place { token, from: i, to: end },
        ),
{
    lemma_piece_end(s, i);
    lemma_number_span(s, i, i + 1);
    if i + 1 < s.len() {
        lemma_radix_span(s, i, i + 2, Class::HexDigit, Class::Hex);
        lemma_radix_span(s, i, i + 2, Class::BinaryDigit, Class::Binary);
        lemma_radix_span(s, i, i + 2, Class::OctalDigit, Class::Octal);
    }
    if let Piece::Fixed { token, end } = piece_at(s, i) {
        lemma_span(s, i, end);
    }
}

proof fn lemma_lex_in_order(s: Chars, i: int, places: Seq<Place>, names: Seq<Chars>)
    requires
        0 <= i <= s.len(),
        byte_len(s) <= usize::MAX,
        in_order(s, places, i),
    ensures
        in_order(s, lex_from(s, i, places, names).places, s.len() as int),
    decreases s.len() - i,
{
    if i < s.len() {
        lemma_piece_end(s, i);
        lemma_piece_span(s, i);
        match piece_at(s, i) {
            Piece::Word { end } => {
                let names1 = with_text(names, s.subrange(i, end));
                let token = predefined_token(names1.index_of(s.subrange(i, end)));
                let p = Place { token, from: i, to: end };
                assert(span_fits(s, p)) by {
                    crate::token::lemma_symbol_token(names1.index_of(s.subrange(i, end)));
                }
                lemma_lex_in_order(s, end, places.push(p), names1);
            },
            Piece::Fixed { token, end } => {
                lemma_lex_in_order(s, end, places.push(Place { token, from: i, to: end }), names);
            },
            Piece::Blank { end } => {
                lemma_lex_in_order(s, end, places, names);
            },
            Piece::Bad(_) => {},
        }
    }
}

/// The tokens of a source stand one behind the other in it, and the span of each
/// literal is that of its characters.
pub proof fn tokens_are_in_source_order(s: Chars, names: Seq<Chars>)
    requires
        byte_len(s) <= usize::MAX,
    ensures
        in_order(s, lex(s, names).places, s.len() as int),
{
    lemma_lex_in_order(s, 0, Seq::empty(), names);
}

/// In a pool that starts with the predefined names, the word that spells a
/// predefined name becomes its token, and every other an identifier of a symbol
/// that the pool gives this word for.
pub proof fn words_become_keywords_or_identifiers(names: Seq<Chars>, word: Chars)
    requires
        names.no_duplicates(),
        predefined_texts().is_prefix_of(names),
        names.len() < usize::MAX,
    ensures
        ({
            let names1 = with_text(names, word);
            let token = predefined_token(names1.index_of(word));
            &&& forall|k: int|
                0 <= k < PREDEFINED_SYMBOL_COUNT && word == #[trigger] predefined_text(k) ==> token
                    == predefined_token(k)
            &&& !predefined_texts().contains(word) ==> (token matches Token::Ident(symbol)
                && names1[symbol.0 as int] == word && symbol.0 < names1.len())
        }),
{
    let names1 = with_text(names, word);
    if !names.contains(word) {
        assert(names1[names.len() as int] == word);
    }
    assert(names1.contains(word));
    let i = names1.index_of(word);
    assert(names1[i] == word);
    assert forall|k: int|
        0 <= k < PREDEFINED_SYMBOL_COUNT && word == #[trigger] predefined_text(k) implies k
        == i by {
        assert(predefined_texts()[k] == names[k]);
        assert(names.contains(word));
    }
    if !predefined_texts().contains(word) {
        if i < PREDEFINED_SYMBOL_COUNT {
            assert(predefined_texts()[i] == names[i]);
        }
    }
}

/// Whether each identifier's symbol stands for the text of its token.
pub open spec fn identifiers_named(s: Chars, places: Seq<Place>, names: Seq<Chars>) -> bool {
    forall|k: int|
        0 <= k < places.len() ==> match (#[trigger] places[k]).token {
            Token::Ident(symbol) => symbol.0 < names.len() && names[symbol.0 as int] == s.subrange(
                places[k].from,
                places[k].to,
            ),
            _ => true,
        }
}

#[verifier::spinoff_prover]
#[verifier::rlimit(60)]
proof fn lemma_lex_names(s: Chars, i: int, places: Seq<Place>, names: Seq<Chars>)
    requires
        0 <= i <= s.len(),
        names.no_duplicates(),
        predefined_texts().is_prefix_of(names),
        names.len() + s.len() - i < usize::MAX,
        identifiers_named(s, places, names),
    ensures
        ({
            let after = lex_from(s, i, places, names);
            &&& names.is_prefix_of(after.names)
            &&& after.names.no_duplicates()
            &&& identifiers_named(s, after.places, after.names)
        }),
    decreases s.len() - i,
{
    assert(names.take(names.len() as int) =~= names);
    if i < s.len() {
        lemma_piece_end(s, i);
        match piece_at(s, i) {
            Piece::Word { end } => {
                let word = s.subrange(i, end);
                let names1 = with_text(names, word);
                let token = predefined_token(names1.index_of(word));
                let p = Place { token, from: i, to: end };
                crate::symbol_pool::interning_keeps_symbols(names, word);
                assert forall|k: int| 0 <= k < names.len() implies #[trigger] names1[k]
                    == names[k] by {}
                assert(predefined_texts().is_prefix_of(names1)) by {
                    let n = predefined_texts().len() as int;
                    assert(names1.take(n) =~= names.take(n));
                }
                words_become_keywords_or_identifiers(names, word);
                assert(token matches Token::Ident(symbol) ==> symbol.0 < names1.len()
                    && names1[symbol.0 as int] == word) by {
                    if predefined_texts().contains(word) {
                        let k = choose|k: int|
                            0 <= k < predefined_texts().len() && predefined_texts()[k] == word;
                        assert(predefined_text(k) == word);
                        crate::token::lemma_symbol_token(k);
                    }
                }
                let places1 = places.push(p);
                assert(identifiers_named(s, places1, names1)) by {
                    assert forall|k: int| 0 <= k < places1.len() implies match (
                    #[trigger] places1[k]).token {
                        Token::Ident(symbol) => symbol.0 < names1.len() && names1[symbol.0 as int]
                            == s.subrange(places1[k].from, places1[k].to),
                        _ => true,
                    } by {
                        if k < places.len() {
                            assert(places1[k] == places[k]);
                        }
                    }
                }
                lemma_lex_names(s, end, places1, names1);
                let after = lex_from(s, i, places, names);
                assert(names.is_prefix_of(after.names)) by {
                    let n = names.len() as int;
                    assert(names1.take(n) =~= names);
                    assert(after.names.take(n) =~= names1.take(n));
                }
            },
            Piece::Fixed { token, end } => {
                lemma_fixed_is_no_identifier(s, i);
                let places1 = places.push(Place { token, from: i, to: end });
                assert forall|k: int| 0 <= k < places1.len() implies match (
                #[trigger] places1[k]).token {
                    Token::Ident(symbol) => symbol.0 < names.len() && names[symbol.0 as int]
                        == s.subrange(places1[k].from, places1[k].to),
                    _ => true,
                } by {
                    if k < places.len() {
                        assert(places1[k] == places[k]);
                    }
                }
                lemma_lex_names(s, end, places1, names);
            },
            Piece::Blank { end } => {
                lemma_lex_names(s, end, places, names);
            },
            Piece::Bad(_) => {},
        }
    }
}

/// Only words become identifiers.
proof fn lemma_fixed_is_no_identifier(s: Chars, i: int)
    ensures
        piece_at(s, i) matches Piece::Fixed { token, end } ==> !(token is Ident),
{
}

/// A run only adds names to the pool, and each identifier's symbol stands for the
/// text of its token.
pub proof fn identifiers_stand_for_their_text(s: Chars, names: Seq<Chars>)
    requires
        names.no_duplicates(),
        predefined_texts().is_prefix_of(names),
        names.len() + s.len() < usize::MAX,
    ensures
        names.is_prefix_of(lex(s, names).names),
        lex(s, names).names.no_duplicates(),
        identifiers_named(s, lex(s, names).places, lex(s, names).names),
{
    lemma_lex_names(s, 0, Seq::empty(), names);
}

/// A text without a backslash has no escapes to replace.
pub proof fn plain_text_is_itself(s: Chars)
    requires
        forall|i: int| 0 <= i < s.len() ==> #[trigger] s[i] != '\\',
    ensures
        unescape(s) == s,
{
    lemma_plain_from(s, 0);
    assert(s.skip(0) =~= s);
}

proof fn lemma_plain_from(s: Chars, i: int)
    requires
        0 <= i <= s.len(),
        forall|k: int| 0 <= k < s.len() ==> #[trigger] s[k] != '\\',
    ensures
        unescape_from(s, i) == s.skip(i),
    decreases s.len() - i,
{
    if i < s.len() {
        lemma_plain_from(s, i + 1);
        assert(seq![s[i]] + s.skip(i + 1) =~= s.skip(i));
    } else {
        assert(s.skip(i) =~= Seq::empty());
    }
}

/// A text with each backslash doubled.
pub open spec fn doubled(t: Chars) -> Chars
    decreases t.len(),
{
    if t.len() == 0 {
        Seq::empty()
    } else if t[0] == '\\' {
        seq!['\\', '\\'] + doubled(t.skip(1))
    } else {
        seq![t[0]] + doubled(t.skip(1))
    }
}

proof fn lemma_brace_end_behind(p: Chars, s: Chars, i: int)
    requires
        0 <= i,
    ensures
        brace_end(p + s, p.len() + i) == p.len() + brace_end(s, i),
    decreases s.len() - i,
{
    if i < s.len() {
        assert((p + s)[p.len() + i] == s[i]);
        if s[i] != '}' {
            lemma_brace_end_behind(p, s, i + 1);
        }
    }
}

/// An escape means the same whatever stands before it.
pub(crate) proof fn lemma_escape_behind(p: Chars, s: Chars, i: int)
    requires
        0 <= i <= s.len(),
    ensures
        escape_at(p + s, p.len() + i).text == escape_at(s, i).text,
        escape_at(p + s, p.len() + i).end == p.len() + escape_at(s, i).end,
{
    let x = p + s;
    let n = p.len() as int;
    if i < s.len() {
        assert(x[n + i] == s[i]);
        let end = if i + 3 <= s.len() {
            i + 3
        } else {
            s.len() as int
        };
        assert(x.subrange(n + i + 1, n + end) =~= s.subrange(i + 1, end));
        if i + 1 < s.len() {
            assert(x[n + i + 1] == s[i + 1]);
            lemma_brace_end_behind(p, s, i + 2);
            lemma_brace_end(s, i + 2);
            let e = brace_end(s, i + 2);
            assert(x.subrange(n + i + 2, n + e) =~= s.subrange(i + 2, e));
        }
    }
}

/// The text of a literal does not depend on what stands before it.
pub(crate) proof fn lemma_unescape_behind(p: Chars, s: Chars, i: int)
    requires
        0 <= i <= s.len(),
    ensures
        unescape_from(p + s, p.len() + i) == unescape_from(s, i),
    decreases s.len() - i,
{
    if i < s.len() {
        assert((p + s)[p.len() + i] == s[i]);
        if s[i] == '\\' {
            lemma_escape_behind(p, s, i + 1);
            lemma_escape_end(s, i + 1);
            lemma_unescape_behind(p, s, escape_at(s, i + 1).end);
        } else {
            lemma_unescape_behind(p, s, i + 1);
        }
    }
}

/// A text with each backslash doubled stands for itself, whatever follows it.
pub proof fn doubled_backslashes_stand_for_the_text(t: Chars, rest: Chars)
    ensures
        unescape(doubled(t) + rest) == t + unescape(rest),
    decreases t.len(),
{
    if t.len() == 0 {
        assert(doubled(t) + rest =~= rest);
        assert(t + unescape(rest) =~= unescape(rest));
    } else {
        let tail = doubled(t.skip(1)) + rest;
        doubled_backslashes_stand_for_the_text(t.skip(1), rest);
        let head = if t[0] == '\\' {
            seq!['\\', '\\']
        } else {
            seq![t[0]]
        };
        let x = head + tail;
        assert(doubled(t) + rest =~= x);
        lemma_unescape_behind(head, tail, 0);
        assert(x[0] == t[0]);
        if t[0] == '\\' {
            assert(x[1] == '\\');
            assert(escape_at(x, 1).text == seq!['\\'] && escape_at(x, 1).end == 2);
        }
        assert(unescape(x) == seq![t[0]] + unescape(tail));
        assert(seq![t[0]] + (t.skip(1) + unescape(rest)) =~= t + unescape(rest));
    }
}

// Words.

/// Whether a word starts with that character.
pub open spec fn starts_word(c: char) -> bool {
    xid_start(c) || c == '_'
}

/// The words of a source from `i` on, outside of literals and comments and up to a
/// fault: where each starts and ends.
pub open spec fn words_from(s: Chars, i: int) -> Seq<(int, int)>
    decreases s.len() - i,
{
    proof {
        lemma_piece_end(s, i);
    }
    if i < 0 || i >= s.len() {
        Seq::empty()
    } else {
        match piece_at(s, i) {
            Piece::Word { end } => seq![(i, end)] + words_from(s, end),
            Piece::Fixed { token, end } => words_from(s, end),
            Piece::Blank { end } => words_from(s, end),
            Piece::Bad(_) => Seq::empty(),
        }
    }
}

/// Where the tokens that are words start and end.
pub open spec fn word_ends(s: Chars, places: Seq<Place>) -> Seq<(int, int)>
    decreases places.len(),
{
    if places.len() == 0 {
        Seq::empty()
    } else {
        let before = word_ends(s, places.drop_last());
        let p = places.last();
        if starts_word(s[p.from]) {
            before.push((p.from, p.to))
        } else {
            before
        }
    }
}

/// Whether each word goes to its end, is in the pool, and has the token of its
/// symbol there.
pub open spec fn words_named(s: Chars, places: Seq<Place>, names: Seq<Chars>) -> bool {
    forall|k: int|
        0 <= k < places.len() && starts_word(s[(#[trigger] places[k]).from]) ==> {
            let p = places[k];
            let word = s.subrange(p.from, p.to);
            &&& p.to == run_end(s, p.from + 1, Class::Word)
            &&& names.contains(word)
            &&& p.token == predefined_token(names.index_of(word))
        }
}

#[verifier::spinoff_prover]
#[verifier::rlimit(60)]
proof fn lemma_lex_words(s: Chars, i: int, places: Seq<Place>, names: Seq<Chars>)
    requires
        0 <= i <= s.len(),
        names.no_duplicates(),
        words_named(s, places, names),
    ensures
        ({
            let after = lex_from(s, i, places, names);
            &&& word_ends(s, after.places) == word_ends(s, places) + words_from(s, i)
            &&& words_named(s, after.places, after.names)
            &&& after.names.len() <= names.len() + s.len() - i
        }),
    decreases s.len() - i,
{
    let after = lex_from(s, i, places, names);
    assert(word_ends(s, places) + Seq::empty() =~= word_ends(s, places));
    if i < s.len() {
        lemma_piece_end(s, i);
        match piece_at(s, i) {
            Piece::Word { end } => {
                let word = s.subrange(i, end);
                let names1 = with_text(names, word);
                let p = Place {
                    token: predefined_token(names1.index_of(word)),
                    from: i,
                    to: end,
                };
                let places1 = places.push(p);
                crate::symbol_pool::interning_keeps_symbols(names, word);
                assert(names1.contains(word)) by {
                    if !names.contains(word) {
                        assert(names1[names.len() as int] == word);
                    }
                }
                assert(words_named(s, places1, names1)) by {
                    assert forall|k: int|
                        0 <= k < places1.len() && starts_word(
                            s[(#[trigger] places1[k]).from],
                        ) implies {
                        let q = places1[k];
                        let w = s.subrange(q.from, q.to);
                        &&& q.to == run_end(s, q.from + 1, Class::Word)
                        &&& names1.contains(w)
                        &&& q.token == predefined_token(names1.index_of(w))
                    } by {
                        if k < places.len() {
                            assert(places1[k] == places[k]);
                            let w = s.subrange(places[k].from, places[k].to);
                            let j = names.index_of(w);
                            assert(names[j] == w);
                            assert(names1[j] == w);
                            assert(names1.contains(w));
                            assert(names1[names1.index_of(w)] == w);
                        }
                    }
                }
                assert(places1.drop_last() =~= places);
                assert(word_ends(s, places1) == word_ends(s, places).push((i, end)));
                lemma_lex_words(s, end, places1, names1);
                assert(word_ends(s, places).push((i, end)) + words_from(s, end)
                    =~= word_ends(s, places) + (seq![(i, end)] + words_from(s, end)));
            },
            Piece::Fixed { token, end } => {
                let p = Place { token, from: i, to: end };
                let places1 = places.push(p);
                assert(!starts_word(s[i]));
                assert(places1.drop_last() =~= places);
                assert(words_named(s, places1, names)) by {
                    assert forall|k: int|
                        0 <= k < places1.len() && starts_word(
                            s[(#[trigger] places1[k]).from],
                        ) implies {
                        let q = places1[k];
                        let w = s.subrange(q.from, q.to);
                        &&& q.to == run_end(s, q.from + 1, Class::Word)
                        &&& names.contains(w)
                        &&& q.token == predefined_token(names.index_of(w))
                    } by {
                        if k < places.len() {
                            assert(places1[k] == places[k]);
                        }
                    }
                }
                lemma_lex_words(s, end, places1, names);
            },
            Piece::Blank { end } => {
                lemma_lex_words(s, end, places, names);
            },
            Piece::Bad(_) => {},
        }
    }
}

/// Each word of a source, outside of literals and comments, gives one token, in the
/// order of the source. It goes as far as a word can. Its token is that of the
/// symbol that the pool then has for it: the keyword's, and so no identifier, if
/// the word is one of the predefined ones; else an identifier whose symbol stands
/// for the word. Every name that was in the pool keeps its symbol.
pub proof fn every_word_becomes_its_token(s: Chars, names: Seq<Chars>)
    requires
        names.no_duplicates(),
        predefined_texts().is_prefix_of(names),
        names.len() + s.len() < usize::MAX,
    ensures
        ({
            let run = lex(s, names);
            &&& names.is_prefix_of(run.names)
            &&& run.names.no_duplicates()
            &&& word_ends(s, run.places) == words_from(s, 0)
            &&& forall|k: int|
                0 <= k < run.places.len() && starts_word(s[(#[trigger] run.places[k]).from]) ==> {
                    let p = run.places[k];
                    let word = s.subrange(p.from, p.to);
                    &&& p.to == run_end(s, p.from + 1, Class::Word)
                    &&& run.names.contains(word)
                    &&& p.token == predefined_token(run.names.index_of(word))
                    &&& predefined_texts().contains(word) ==> !(p.token is Ident) && exists|n: int|
                        0 <= n < PREDEFINED_SYMBOL_COUNT && #[trigger] predefined_text(n) == word
                            && p.token == predefined_token(n)
                    &&& !predefined_texts().contains(word) ==> (p.token matches Token::Ident(symbol)
                        && symbol.0 < run.names.len() && run.names[symbol.0 as int] == word)
                }
        }),
{
    let run = lex(s, names);
    identifiers_stand_for_their_text(s, names);
    lemma_lex_words(s, 0, Seq::empty(), names);
    assert(word_ends(s, Seq::empty()) + words_from(s, 0) =~= words_from(s, 0));
    assert(predefined_texts().is_prefix_of(run.names)) by {
        let n = predefined_texts().len() as int;
        assert(run.names.take(n) =~= names.take(n)) by {
            assert forall|k: int| 0 <= k < n implies run.names[k] == names[k] by {
                assert(run.names.take(names.len() as int)[k] == names[k]);
            }
        }
    }
    assert forall|k: int|
        0 <= k < run.places.len() && starts_word(s[(#[trigger] run.places[k]).from]) implies {
        let p = run.places[k];
        let word = s.subrange(p.from, p.to);
        &&& p.to == run_end(s, p.from + 1, Class::Word)
        &&& run.names.contains(word)
        &&& p.token == predefined_token(run.names.index_of(word))
        &&& predefined_texts().contains(word) ==> !(p.token is Ident) && exists|n: int|
            0 <= n < PREDEFINED_SYMBOL_COUNT && #[trigger] predefined_text(n) == word && p.token
                == predefined_token(n)
        &&& !predefined_texts().contains(word) ==> (p.token matches Token::Ident(symbol)
            && symbol.0 < run.names.len() && run.names[symbol.0 as int] == word)
    } by {
        let p = run.places[k];
        let word = s.subrange(p.from, p.to);
        assert(with_text(run.names, word) == run.names);
        words_become_keywords_or_identifiers(run.names, word);
        if predefined_texts().contains(word) {
            let n = choose|n: int|
                0 <= n < predefined_texts().len() && predefined_texts()[n] == word;
            assert(predefined_text(n) == word);
            crate::token::lemma_symbol_token(n);
        }
    }
}

} // verus!
