//! Turns a source text into tokens.
use crate::lexical::{
    bad_char, brace_end, byte_escape, Class, column_at, covers, double_token, escape_at,
    exponent_digits, Fault, fault_at, float_type, hex_value, in_class, integer_type, is_hex_digit,
    is_hex_number, lemma_escape_end, lemma_piece_end, lemma_quote_end, lex, lex_from, line_at,
    number_piece, number_tail, Piece, piece_at, Place, places_words, quote_end, radix_piece,
    run_end, simple_escape, single_token, span, suffix_end, tokens_of, unescape, unescape_from,
    unicode_escape, unsigned_digits, words_of,
};
use crate::symbol_pool::SymbolPool;
use crate::text::{
    byte_len, byte_offset, char_debug_of, Chars, chars_of, decimal, decimal_of, hex_upper_of, join2,
    join3, join5, lemma_byte_len, lemma_byte_offset_mono, lemma_byte_offset_step,
    lemma_char_boundary, lemma_encode_injective, lemma_encode_subrange, text_of, width_of,
};
use crate::token::Token;
use crate::unicode_ident::{is_xid_continue, is_xid_start};
use vstd::prelude::*;
use vstd::string::StringSliceAdditionalSpecFns;
use vstd::utf8::encode_utf8;

verus! {

/// A range of bytes of the source.
#[derive(Clone, Copy, PartialEq, Eq, Structural, Debug)]
pub struct Span {
    pub start: usize,
    pub end: usize,
}

impl Span {
    /// The bytes from `start` up to `end`.
    pub fn new(start: usize, end: usize) -> (r: Self)
        ensures
            r.start == start,
            r.end == end,
    {
        Span { start, end }
    }
}

/// Why a text could not be turned into tokens, and where.
#[derive(Debug)]
pub struct LexError {
    pub message: String,
    pub byte_offset: usize,
    pub line: usize,
    pub column: usize,
}

impl View for LexError {
    type V = Fault;

    open spec fn view(&self) -> Fault {
        Fault {
            message: self.message@,
            byte_offset: self.byte_offset as nat,
            line: self.line as nat,
            column: self.column as nat,
        }
    }
}

impl LexError {
    /// The message with the place, for people to read.
    pub fn to_text(&self) -> (r: String)
        ensures
            r@ == self.message@ + " (line "@ + decimal(self.line as nat) + ", column "@ + decimal(
                self.column as nat,
            ) + ")"@,
    {
        let line: String = decimal_of(self.line);
        let column: String = decimal_of(self.column);
        join5(
            self.message.as_str(),
            " (line ",
            line.as_str(),
            ", column ",
            column.as_str(),
        ).concat(")")
    }
}

/// Whether `t` names an integer type.
pub fn is_interger_type(t: &str) -> (r: bool)
    ensures
        r == integer_type(t@),
{
    t.eq("u8") || t.eq("u16") || t.eq("u32") || t.eq("u64") || t.eq("u128") || t.eq("usize")
        || t.eq("i8") || t.eq("i16") || t.eq("i32") || t.eq("i64") || t.eq("i128") || t.eq("isize")
}

/// Whether `t` names a floating-point type.
pub fn is_float_type(t: &str) -> (r: bool)
    ensures
        r == float_type(t@),
{
    t.eq("f16") || t.eq("f32") || t.eq("f64")
}

fn hex_digit(c: char) -> (r: bool)
    ensures
        r == is_hex_digit(c),
{
    ('0' <= c && c <= '9') || ('a' <= c && c <= 'f') || ('A' <= c && c <= 'F')
}

/// Whether `c` belongs to the class.
pub fn class_has(class: Class, c: char) -> (r: bool)
    ensures
        r == in_class(class, c),
{
    match class {
        Class::Word => is_xid_continue(c),
        Class::Decimal => ('0' <= c && c <= '9') || c == '_',
        Class::Underscore => c == '_',
        Class::HexDigit => hex_digit(c),
        Class::Hex => hex_digit(c) || c == '_',
        Class::BinaryDigit => c == '0' || c == '1',
        Class::Binary => c == '0' || c == '1' || c == '_',
        Class::OctalDigit => '0' <= c && c <= '7',
        Class::Octal => ('0' <= c && c <= '7') || c == '_',
        Class::Comment => c != '\n',
    }
}

fn one_char_token(c: char) -> (r: Option<Token>)
    ensures
        r == single_token(c),
{
    match c {
        '+' => Some(Token::Plus),
        '-' => Some(Token::Minus),
        '*' => Some(Token::Star),
        '/' => Some(Token::Slash),
        '%' => Some(Token::Percent),
        '=' => Some(Token::Eq),
        '!' => Some(Token::Bang),
        '<' => Some(Token::Lt),
        '>' => Some(Token::Gt),
        '&' => Some(Token::Amp),
        '|' => Some(Token::Pipe),
        '?' => Some(Token::Question),
        '.' => Some(Token::Dot),
        ':' => Some(Token::Colon),
        '{' => Some(Token::LBrace),
        '}' => Some(Token::RBrace),
        '[' => Some(Token::LBracket),
        ']' => Some(Token::RBracket),
        '(' => Some(Token::LParen),
        ')' => Some(Token::RParen),
        ';' => Some(Token::Semicolon),
        ',' => Some(Token::Comma),
        '#' => Some(Token::Pound),
        _ => None,
    }
}

fn two_char_token(c: char, d: char) -> (r: Option<Token>)
    ensures
        r == double_token(c, d),
{
    if d == '=' {
        match c {
            '+' => Some(Token::PlusEq),
            '-' => Some(Token::MinusEq),
            '*' => Some(Token::StarEq),
            '/' => Some(Token::SlashEq),
            '%' => Some(Token::PercentEq),
            '=' => Some(Token::EqEq),
            '!' => Some(Token::Neq),
            '<' => Some(Token::Le),
            '>' => Some(Token::Ge),
            '|' => Some(Token::Or),
            _ => None,
        }
    } else if d == '>' {
        match c {
            '-' => Some(Token::Arrow),
            '=' => Some(Token::FatArrow),
            _ => None,
        }
    } else if c == '&' && d == '&' {
        Some(Token::And)
    } else if c == '.' && d == '.' {
        Some(Token::Range)
    } else if c == ':' && d == ':' {
        Some(Token::PathSep)
    } else {
        None
    }
}

/// What stands at a place of the source, as the scanner reports it.
enum Step {
    Word(usize),
    Fixed(Token, usize),
    Blank(usize),
}

spec fn step_is(r: Result<Step, LexError>, p: Piece) -> bool {
    match r {
        Ok(Step::Word(e)) => p == (Piece::Word { end: e as int }),
        Ok(Step::Fixed(t, e)) => p == (Piece::Fixed { token: t, end: e as int }),
        Ok(Step::Blank(e)) => p == (Piece::Blank { end: e as int }),
        Err(e) => p == Piece::Bad(e@),
    }
}

/// A token and the characters that it is made of.
struct Lexeme {
    token: Token,
    from: usize,
    to: usize,
}

impl View for Lexeme {
    type V = Place;

    closed spec fn view(&self) -> Place {
        Place { token: self.token, from: self.from as int, to: self.to as int }
    }
}

spec fn places(v: Seq<Lexeme>) -> Seq<Place> {
    v.map_values(|l: Lexeme| l@)
}

/// Whether the characters of the token lie in `s`, and those of a literal with
/// quotes hold both.
spec fn fits(s: Chars, l: Lexeme) -> bool {
    &&& l.from < l.to <= s.len()
    &&& (l.token is String || l.token is CharLiteral) ==> l.from + 2 <= l.to
}

/// A source by its characters, with the offset of each.
struct Scanner {
    chars: Vec<char>,
    offsets: Vec<usize>,
}

impl Scanner {
    spec fn wf(self) -> bool {
        &&& self.offsets.len() == self.chars.len() + 1
        &&& forall|k: int|
            0 <= k <= self.chars.len() ==> #[trigger] self.offsets[k] == byte_offset(
                self.chars@,
                k,
            )
    }

    fn new(source: &str) -> (r: Self)
        ensures
            r.wf(),
            r.chars@ == source@,
    {
        let chars = chars_of(source);
        let total: usize = source.as_bytes().len();
        proof {
            lemma_byte_len(source@);
        }
        let mut offsets: Vec<usize> = Vec::new();
        offsets.push(0);
        let mut i: usize = 0;
        while i < chars.len()
            invariant
                i <= chars.len(),
                byte_len(chars@) == total,
                offsets.len() == i + 1,
                forall|k: int| 0 <= k <= i ==> #[trigger] offsets[k] == byte_offset(chars@, k),
            decreases chars.len() - i,
        {
            proof {
                lemma_byte_offset_step(chars@, i as int);
                lemma_byte_offset_mono(chars@, i + 1, i + 1);
            }
            let next: usize = offsets[i] + width_of(chars[i]);
            offsets.push(next);
            i = i + 1;
        }
        Scanner { chars, offsets }
    }

    fn span(&self, a: usize, b: usize) -> (r: Span)
        requires
            self.wf(),
            a <= b <= self.chars.len(),
        ensures
            r == span(self.chars@, a as int, b as int),
    {
        Span::new(self.offsets[a], self.offsets[b])
    }

    /// The line and the column of a place.
    fn line_col(&self, k: usize) -> (r: (usize, usize))
        requires
            self.wf(),
            k <= self.chars.len(),
        ensures
            r.0 == line_at(self.chars@, k as int),
            r.1 == column_at(self.chars@, k as int),
    {
        let mut line: usize = 1;
        let mut col: usize = 1;
        let mut i: usize = 0;
        assert(self.offsets.len() == self.chars.len() + 1);
        while i < k
            invariant
                i <= k <= self.chars.len(),
                self.chars.len() < usize::MAX,
                line <= i + 1,
                col <= i + 1,
                line == line_at(self.chars@, i as int),
                col == column_at(self.chars@, i as int),
            decreases k - i,
        {
            if self.chars[i] == '\n' {
                line = line + 1;
                col = 1;
            } else {
                col = col + 1;
            }
            i = i + 1;
        }
        (line, col)
    }

    fn build_error(&self, message: String, k: usize) -> (r: LexError)
        requires
            self.wf(),
            k <= self.chars.len(),
        ensures
            r@ == fault_at(self.chars@, message@, k as int),
    {
        let (line, column) = self.line_col(k);
        LexError { message, byte_offset: self.offsets[k], line, column }
    }

    fn build_error_bad_char(&self, k: usize) -> (r: LexError)
        requires
            self.wf(),
            k <= self.chars.len(),
        ensures
            r@ == bad_char(self.chars@, k as int),
    {
        let message: String = if k < self.chars.len() {
            let shown = char_debug_of(self.chars[k]);
            let number = hex_upper_of(self.chars[k] as u32, 4);
            join5("unrecognized character ", shown.as_str(), " (U+", number.as_str(), ")")
        } else {
            "unexpected end of input".to_string()
        };
        self.build_error(message, k)
    }

    fn at(&self, i: usize, c: char) -> (r: bool)
        ensures
            r == (i < self.chars.len() && self.chars[i as int] == c),
    {
        i < self.chars.len() && self.chars[i] == c
    }

    /// The end of the run of characters of the class.
    fn skip_run(&self, from: usize, class: Class) -> (r: usize)
        requires
            from <= self.chars.len(),
        ensures
            r == run_end(self.chars@, from as int, class),
            from <= r <= self.chars.len(),
    {
        let mut i: usize = from;
        while i < self.chars.len() && class_has(class, self.chars[i])
            invariant
                from <= i <= self.chars.len(),
                run_end(self.chars@, from as int, class) == run_end(self.chars@, i as int, class),
            decreases self.chars.len() - i,
        {
            i = i + 1;
        }
        i
    }

    /// The end of the suffix of a literal.
    fn parse_suffix(&self, from: usize) -> (r: usize)
        requires
            from <= self.chars.len(),
        ensures
            r == suffix_end(self.chars@, from as int),
            from <= r <= self.chars.len(),
    {
        if from < self.chars.len() && is_xid_start(self.chars[from]) {
            self.skip_run(from + 1, Class::Word)
        } else {
            from
        }
    }

    fn unknown_suffix(&self, a: usize, b: usize) -> (r: LexError)
        requires
            self.wf(),
            a <= b <= self.chars.len(),
        ensures
            Piece::Bad(r@) == crate::lexical::unknown_suffix(self.chars@, a as int, b as int),
    {
        let suffix = text_of(&self.chars, a, b);
        self.build_error(join2("unknown suffix ", suffix.as_str()), a)
    }

    /// A decimal literal, read up to its suffix.
    fn finish_number(&self, start: usize, i: usize, is_float: bool) -> (r: Result<Step, LexError>)
        requires
            self.wf(),
            start <= i <= self.chars.len(),
        ensures
            step_is(r, number_tail(self.chars@, start as int, i as int, is_float)),
    {
        let e: usize = self.parse_suffix(i);
        if i < e {
            let suffix = text_of(&self.chars, i, e);
            if is_interger_type(suffix.as_str()) {
                if is_float {
                    let message = join3("invalid suffix ", suffix.as_str(), " for float literal");
                    return Err(self.build_error(message, i));
                }
            } else if !is_float_type(suffix.as_str()) {
                return Err(self.unknown_suffix(i, e));
            }
        }
        if is_float {
            Ok(Step::Fixed(Token::Float(self.span(start, e)), e))
        } else {
            Ok(Step::Fixed(Token::Integer(self.span(start, e)), e))
        }
    }

    /// A decimal literal, read up to `i`.
    fn parse_number(&self, start: usize, i: usize) -> (r: Result<Step, LexError>)
        requires
            self.wf(),
            start <= i <= self.chars.len(),
        ensures
            step_is(r, number_piece(self.chars@, start as int, i as int)),
    {
        let a: usize = self.skip_run(i, Class::Decimal);
        let b: usize = self.parse_suffix(a);
        if a < b {
            let suffix = text_of(&self.chars, a, b);
            return if is_interger_type(suffix.as_str()) {
                Ok(Step::Fixed(Token::Integer(self.span(start, b)), b))
            } else if is_float_type(suffix.as_str()) {
                Ok(Step::Fixed(Token::Float(self.span(start, b)), b))
            } else {
                Err(self.unknown_suffix(a, b))
            };
        }
        let dot: bool = self.at(a, '.');
        let p: usize = if dot {
            a + 1
        } else {
            a
        };
        let q: usize = if dot {
            self.skip_run(p, Class::Decimal)
        } else {
            p
        };
        let part: bool = p < q;
        if dot == part && (self.at(q, 'e') || self.at(q, 'E')) {
            let r: usize = if self.at(q + 1, '-') || self.at(q + 1, '+') {
                q + 2
            } else {
                q + 1
            };
            assert(r == exponent_digits(self.chars@, q + 1));
            let t: usize = self.skip_run(r, Class::Decimal);
            if t == r {
                return Err(
                    self.build_error("expected at least one digit in exponent".to_string(), r),
                );
            }
            self.finish_number(start, t, true)
        } else {
            self.finish_number(start, q, dot)
        }
    }

    /// An integer literal with a radix, read up to behind the letter.
    fn parse_radix(&self, start: usize, i: usize, first: Class, more: Class) -> (r: Result<
        Step,
        LexError,
    >)
        requires
            self.wf(),
            start <= i <= self.chars.len(),
        ensures
            step_is(r, radix_piece(self.chars@, start as int, i as int, first, more)),
    {
        let a: usize = self.skip_run(i, Class::Underscore);
        if a < self.chars.len() && class_has(first, self.chars[a]) {
            let b: usize = self.skip_run(a, more);
            let e: usize = self.parse_suffix(b);
            if b < e {
                let suffix = text_of(&self.chars, b, e);
                if !is_interger_type(suffix.as_str()) {
                    let message = join3(
                        "invalid suffix ",
                        suffix.as_str(),
                        " for interger literal",
                    );
                    return Err(self.build_error(message, b));
                }
            }
            Ok(Step::Fixed(Token::Integer(self.span(start, e)), e))
        } else {
            Err(self.build_error_bad_char(a))
        }
    }

    /// A literal with quotes, read up to behind the first.
    fn parse_quoted(&self, from: usize, quote: char) -> (r: Option<usize>)
        requires
            from <= self.chars.len(),
        ensures
            match r {
                Some(e) => quote_end(self.chars@, from as int, quote) == Some(e as int) && from <= e
                    < self.chars.len(),
                None => quote_end(self.chars@, from as int, quote) is None,
            },
    {
        let mut i: usize = from;
        while i < self.chars.len() && self.chars[i] != quote
            invariant
                from <= i <= self.chars.len(),
                quote_end(self.chars@, from as int, quote) == quote_end(
                    self.chars@,
                    i as int,
                    quote,
                ),
            decreases self.chars.len() - i,
        {
            if self.chars[i] == '\\' && i + 1 < self.chars.len() {
                i = i + 2;
            } else {
                assert(quote_end(self.chars@, self.chars.len() as int, quote) is None);
                assert(quote_end(self.chars@, self.chars.len() + 1, quote) is None);
                i = i + 1;
            }
        }
        if i < self.chars.len() {
            Some(i)
        } else {
            None
        }
    }

    /// What stands at the place `i`.
    fn step(&self, i: usize) -> (r: Result<Step, LexError>)
        requires
            self.wf(),
            i < self.chars.len(),
        ensures
            step_is(r, piece_at(self.chars@, i as int)),
    {
        let n: usize = self.chars.len();
        let c: char = self.chars[i];
        if is_xid_start(c) || c == '_' {
            Ok(Step::Word(self.skip_run(i + 1, Class::Word)))
        } else if c == ' ' || c == '\t' || c == '\n' || c == '\r' {
            Ok(Step::Blank(i + 1))
        } else if c == '0' {
            if self.at(i + 1, 'x') {
                self.parse_radix(i, i + 2, Class::HexDigit, Class::Hex)
            } else if self.at(i + 1, 'b') {
                self.parse_radix(i, i + 2, Class::BinaryDigit, Class::Binary)
            } else if self.at(i + 1, 'o') {
                self.parse_radix(i, i + 2, Class::OctalDigit, Class::Octal)
            } else {
                self.parse_number(i, i + 1)
            }
        } else if '1' <= c && c <= '9' {
            self.parse_number(i, i + 1)
        } else if c == '"' {
            match self.parse_quoted(i + 1, '"') {
                Some(e) => Ok(Step::Fixed(Token::String(self.span(i, e + 1)), e + 1)),
                None => Err(self.build_error_bad_char(n)),
            }
        } else if c == '\'' {
            match self.parse_quoted(i + 1, '\'') {
                Some(e) => Ok(Step::Fixed(Token::CharLiteral(self.span(i, e + 1)), e + 1)),
                None => Err(self.build_error_bad_char(n)),
            }
        } else if c == '/' && self.at(i + 1, '/') {
            Ok(Step::Blank(self.skip_run(i + 2, Class::Comment)))
        } else if c == '/' && self.at(i + 1, '*') {
            Err(self.build_error_bad_char(n))
        } else {
            if i + 1 < n {
                if let Some(token) = two_char_token(c, self.chars[i + 1]) {
                    return Ok(Step::Fixed(token, i + 2));
                }
            }
            match one_char_token(c) {
                Some(token) => Ok(Step::Fixed(token, i + 1)),
                None => Err(self.build_error_bad_char(i)),
            }
        }
    }
}

/// Turns a source text into tokens.
pub struct Lexer<'a> {
    source: &'a str,
}

impl<'a> Lexer<'a> {
    /// The source text.
    pub closed spec fn source(self) -> Chars {
        self.source@
    }

    /// A lexer of that source.
    pub fn new(input: &'a str) -> (r: Self)
        ensures
            r.source() == input@,
    {
        Lexer { source: input }
    }

    /// The part of the source that a span covers.
    pub fn get_str(&self, span: Span) -> (r: &str)
        requires
            exists|a: int, b: int| covers(self.source(), span, a, b),
        ensures
            forall|a: int, b: int|
                covers(self.source(), span, a, b) ==> r@ == #[trigger] self.source().subrange(a, b),
    {
        let ghost s = self.source@;
        let ghost (a0, b0) = choose|a: int, b: int| covers(s, span, a, b);
        proof {
            lemma_encode_subrange(s, a0, b0);
            lemma_char_boundary(s.take(a0), s.skip(a0));
            assert(s.take(a0) + s.skip(a0) =~= s);
            lemma_char_boundary(s.subrange(a0, b0), s.skip(b0));
            assert(s.subrange(a0, b0) + s.skip(b0) =~= s.skip(a0));
        }
        let (_, tail) = self.source.split_at(span.start);
        assert(encode_utf8(tail@) =~= encode_utf8(s).skip(span.start as int));
        let (head, _) = tail.split_at(span.end - span.start);
        proof {
            assert forall|a: int, b: int| covers(self.source(), span, a, b) implies head@
                == #[trigger] self.source().subrange(a, b) by {
                lemma_encode_subrange(s, a, b);
                assert(encode_utf8(head@) =~= encode_utf8(s.subrange(a, b)));
                lemma_encode_injective(head@, s.subrange(a, b));
            }
        }
        head
    }

    fn scan(&self, symbol_pool: &mut SymbolPool) -> (r: Result<Vec<Lexeme>, LexError>)
        requires
            old(symbol_pool).wf(),
        ensures
            final(symbol_pool).wf(),
            final(symbol_pool).texts() == lex(self.source(), old(symbol_pool).texts()).names,
            match r {
                Ok(v) => {
                    &&& lex(self.source(), old(symbol_pool).texts()).fault is None
                    &&& lex(self.source(), old(symbol_pool).texts()).places == places(v@)
                    &&& forall|k: int| 0 <= k < v@.len() ==> fits(self.source(), #[trigger] v@[k])
                },
                Err(e) => lex(self.source(), old(symbol_pool).texts()).fault == Some(e@),
            },
    {
        let scanner = Scanner::new(self.source);
        let ghost s = self.source@;
        let mut out: Vec<Lexeme> = Vec::new();
        let mut i: usize = 0;
        assert(places(out@) =~= Seq::<Place>::empty());
        while i < scanner.chars.len()
            invariant
                scanner.wf(),
                scanner.chars@ == s,
                s == self.source(),
                i <= scanner.chars.len(),
                symbol_pool.wf(),
                lex(s, old(symbol_pool).texts()) == lex_from(
                    s,
                    i as int,
                    places(out@),
                    symbol_pool.texts(),
                ),
                forall|k: int| 0 <= k < out@.len() ==> fits(s, #[trigger] out@[k]),
            decreases scanner.chars.len() - i,
        {
            proof {
                lemma_piece_end(s, i as int);
                lemma_quote_end(s, i + 1, s[i as int]);
            }
            let ghost out0 = out@;
            match scanner.step(i) {
                Err(e) => {
                    return Err(e);
                },
                Ok(Step::Blank(end)) => {
                    i = end;
                },
                Ok(Step::Fixed(token, end)) => {
                    out.push(Lexeme { token, from: i, to: end });
                    assert(places(out@) =~= places(out0).push(
                        Place { token, from: i as int, to: end as int },
                    ));
                    i = end;
                },
                Ok(Step::Word(end)) => {
                    let word = text_of(&scanner.chars, i, end);
                    let symbol = symbol_pool.intern(word.as_str());
                    let token = symbol.into_token();
                    out.push(Lexeme { token, from: i, to: end });
                    assert(places(out@) =~= places(out0).push(
                        Place { token, from: i as int, to: end as int },
                    ));
                    i = end;
                },
            }
        }
        Ok(out)
    }

    /// The tokens of the source. The names of its words go to the pool, those
    /// before a fault too.
    pub fn tokenize(&mut self, symbol_pool: &mut SymbolPool) -> (r: Result<Vec<Token>, LexError>)
        requires
            old(symbol_pool).wf(),
        ensures
            *final(self) == *old(self),
            final(symbol_pool).wf(),
            ({
                let run = lex(old(self).source(), old(symbol_pool).texts());
                &&& final(symbol_pool).texts() == run.names
                &&& match r {
                    Ok(v) => run.fault is None && v@ == tokens_of(run.places),
                    Err(e) => run.fault == Some(e@),
                }
            }),
    {
        let lexemes = match self.scan(symbol_pool) {
            Ok(v) => v,
            Err(e) => {
                return Err(e);
            },
        };
        let mut tokens: Vec<Token> = Vec::new();
        let mut i: usize = 0;
        while i < lexemes.len()
            invariant
                i <= lexemes.len(),
                tokens@ == tokens_of(places(lexemes@)).take(i as int),
            decreases lexemes.len() - i,
        {
            tokens.push(lexemes[i].token);
            i = i + 1;
            assert(tokens@ =~= tokens_of(places(lexemes@)).take(i as int));
        }
        assert(tokens@ =~= tokens_of(places(lexemes@)));
        Ok(tokens)
    }
}

impl<'a> Lexer<'a> {
    /// The tokens of the source, each with its text.
    pub fn tokenize_with_text(&mut self, symbol_pool: &mut SymbolPool) -> (r: Result<
        Vec<(Token, String)>,
        LexError,
    >)
        requires
            old(symbol_pool).wf(),
        ensures
            *final(self) == *old(self),
            final(symbol_pool).wf(),
            ({
                let run = lex(old(self).source(), old(symbol_pool).texts());
                &&& final(symbol_pool).texts() == run.names
                &&& match r {
                    Ok(v) => run.fault is None && words_of(v@) == places_words(
                        old(self).source(),
                        run.places,
                    ),
                    Err(e) => run.fault == Some(e@),
                }
            }),
    {
        let lexemes = match self.scan(symbol_pool) {
            Ok(v) => v,
            Err(e) => {
                return Err(e);
            },
        };
        let chars = chars_of(self.source);
        let ghost s = self.source@;
        let mut out: Vec<(Token, String)> = Vec::new();
        let mut i: usize = 0;
        assert(words_of(out@) =~= places_words(s, places(lexemes@)).take(0));
        while i < lexemes.len()
            invariant
                i <= lexemes.len(),
                chars@ == s,
                forall|k: int| 0 <= k < lexemes@.len() ==> fits(s, #[trigger] lexemes@[k]),
                words_of(out@) == places_words(s, places(lexemes@)).take(i as int),
            decreases lexemes.len() - i,
        {
            let ghost out0 = out@;
            let token: Token = lexemes[i].token;
            let from: usize = lexemes[i].from;
            let to: usize = lexemes[i].to;
            let text: String = match token {
                Token::String(_) | Token::CharLiteral(_) => {
                    let inside = text_of(&chars, from + 1, to - 1);
                    unescape_string(inside.as_str())
                },
                _ => text_of(&chars, from, to),
            };
            out.push((token, text));
            i = i + 1;
            assert(words_of(out@) =~= words_of(out0).push((token, text@)));
            assert(words_of(out@) =~= places_words(s, places(lexemes@)).take(i as int));
        }
        assert(words_of(out@) =~= places_words(s, places(lexemes@)));
        Ok(out)
    }
}

/// The value of a hexadecimal number, or nothing where `s` is none.
fn hex_number(s: &Vec<char>, from: usize, to: usize) -> (r: Option<u32>)
    requires
        from <= to <= s.len(),
        to - from <= 6,
    ensures
        match r {
            Some(n) => {
                &&& is_hex_number(s@.subrange(from as int, to as int))
                &&& n == hex_value(unsigned_digits(s@.subrange(from as int, to as int)))
                &&& n < 0x1000000
                &&& to - from <= 2 ==> n < 0x100
            },
            None => !is_hex_number(s@.subrange(from as int, to as int)),
        },
{
    let ghost whole = s@.subrange(from as int, to as int);
    let ghost digits = unsigned_digits(whole);
    let start: usize = if from < to && s[from] == '+' {
        from + 1
    } else {
        from
    };
    assert(digits =~= s@.subrange(start as int, to as int));
    if start == to {
        return None;
    }
    let mut n: u32 = 0;
    let mut i: usize = start;
    let mut bound: u32 = 1;
    assert(digits.take(0) =~= Seq::<char>::empty());
    while i < to
        invariant
            from <= start <= i <= to <= s.len(),
            to - from <= 6,
            digits == s@.subrange(start as int, to as int),
            digits == unsigned_digits(s@.subrange(from as int, to as int)),
            forall|k: int| 0 <= k < i - start ==> is_hex_digit(#[trigger] digits[k]),
            n == hex_value(digits.take(i - start)),
            n < bound,
            i - start == 0 ==> bound == 1,
            i - start == 1 ==> bound == 0x10,
            i - start == 2 ==> bound == 0x100,
            i - start == 3 ==> bound == 0x1000,
            i - start == 4 ==> bound == 0x10000,
            i - start == 5 ==> bound == 0x100000,
            i - start == 6 ==> bound == 0x1000000,
        decreases to - i,
    {
        let c: char = s[i];
        assert(c == digits[i - start]);
        if !hex_digit(c) {
            return None;
        }
        let v: u32 = c as u32;
        let d: u32 = if '0' <= c && c <= '9' {
            v - 48
        } else if 'a' <= c && c <= 'f' {
            v - 87
        } else {
            v - 55
        };
        n = n * 16 + d;
        bound = bound * 16;
        i = i + 1;
        assert(digits.take(i - start).drop_last() =~= digits.take(i - start - 1));
        assert(digits.take(i - start).last() == c);
    }
    assert(digits.take(to - start) =~= digits);
    Some(n)
}

fn bytes_in(s: &Vec<char>, from: usize, to: usize) -> (r: usize)
    requires
        from <= to <= s.len(),
        to - from <= 6,
    ensures
        r == byte_len(s@.subrange(from as int, to as int)),
{
    let mut i: usize = from;
    let mut n: usize = 0;
    while i < to
        invariant
            from <= i <= to <= s.len(),
            to - from <= 6,
            n == byte_len(s@.subrange(from as int, i as int)),
            n <= 4 * (i - from),
        decreases to - i,
    {
        n = n + width_of(s[i]);
        i = i + 1;
        assert(s@.subrange(from as int, i as int).drop_last() =~= s@.subrange(
            from as int,
            i - 1,
        ));
    }
    n
}

/// Appends what the escape `\x` at `i` stands for, and gives its end.
fn unescape_byte(s: &Vec<char>, i: usize, out: &mut String) -> (r: usize)
    requires
        i <= s.len(),
    ensures
        r == byte_escape(s@, i as int).end,
        final(out)@ == old(out)@ + byte_escape(s@, i as int).text,
        i <= r <= s.len(),
{
    let n: usize = s.len();
    let end: usize = if n - i >= 2 {
        i + 2
    } else {
        n
    };
    if bytes_in(s, i, end) == 2 {
        match hex_number(s, i, end) {
            Some(v) => {
                let b: u8 = v as u8;
                out.push(b as char);
            },
            None => {
                out.append("\\x");
                let hex = text_of(s, i, end);
                out.append(hex.as_str());
            },
        }
    } else {
        out.append("\\x");
    }
    assert(out@ =~= old(out)@ + byte_escape(s@, i as int).text);
    end
}

/// Appends what the escape `\u` at `i` stands for, and gives its end.
fn unescape_unicode(s: &Vec<char>, i: usize, out: &mut String) -> (r: usize)
    requires
        i <= s.len(),
    ensures
        r == unicode_escape(s@, i as int).end,
        final(out)@ == old(out)@ + unicode_escape(s@, i as int).text,
        i <= r <= s.len(),
{
    let n: usize = s.len();
    if i < n && s[i] == '{' {
        let mut e: usize = i + 1;
        while e < n && s[e] != '}'
            invariant
                n == s.len(),
                i + 1 <= e <= n,
                brace_end(s@, i + 1) == brace_end(s@, e as int),
            decreases n - e,
        {
            e = e + 1;
        }
        let ghost hex = s@.subrange(i + 1, e as int);
        proof {
            lemma_byte_len(hex);
        }
        let mut known: Option<char> = None;
        if e - (i + 1) <= 6 {
            let bytes: usize = bytes_in(s, i + 1, e);
            if 0 < bytes && bytes <= 6 {
                if let Some(v) = hex_number(s, i + 1, e) {
                    known = char::from_u32(v);
                }
            }
        }
        match known {
            Some(c) => {
                out.push(c);
            },
            None => {
                out.append("\\u{");
                let text = text_of(s, i + 1, e);
                out.append(text.as_str());
                out.append("}");
            },
        }
        assert(out@ =~= old(out)@ + unicode_escape(s@, i as int).text);
        if e < n {
            e + 1
        } else {
            e
        }
    } else {
        out.append("\\u");
        if i < n {
            i + 1
        } else {
            i
        }
    }
}

fn simple_escape_of(c: char) -> (r: Option<char>)
    ensures
        r == simple_escape(c),
{
    match c {
        'n' => Some('\n'),
        'r' => Some('\r'),
        't' => Some('\t'),
        '\\' => Some('\\'),
        '"' => Some('"'),
        '\'' => Some('\''),
        '0' => Some('\0'),
        _ => None,
    }
}

/// The text of a literal with its escapes replaced: those of one letter, two
/// hexadecimal digits behind `\x`, and a number in braces behind `\u`. One that
/// is not known is left as it is written.
pub fn unescape_string(s: &str) -> (r: String)
    ensures
        r@ == unescape(s@),
{
    let chars = chars_of(s);
    unescape_chars(&chars)
}

fn unescape_chars(chars: &Vec<char>) -> (r: String)
    ensures
        r@ == unescape(chars@),
{
    let n: usize = chars.len();
    let mut out: String = String::new();
    let mut i: usize = 0;
    while i < n
        invariant
            i <= n,
            n == chars.len(),
            out@ + unescape_from(chars@, i as int) == unescape(chars@),
        decreases n - i,
    {
        let c: char = chars[i];
        let ghost out0 = out@;
        let ghost i0 = i as int;
        i = i + 1;
        proof {
            lemma_escape_end(chars@, i as int);
        }
        if c != '\\' {
            out.push(c);
            assert(out@ =~= out0 + seq![c]);
            assert(out@ + unescape_from(chars@, i as int) =~= out0 + unescape_from(chars@, i0));
        } else {
            if i == n {
                out.push('\\');
                assert(out@ =~= out0 + escape_at(chars@, i as int).text);
            } else {
                let d: char = chars[i];
                if let Some(e) = simple_escape_of(d) {
                    out.push(e);
                    assert(out@ =~= out0 + escape_at(chars@, i as int).text);
                    i = i + 1;
                } else if d == 'x' {
                    i = unescape_byte(chars, i + 1, &mut out);
                } else if d == 'u' {
                    i = unescape_unicode(chars, i + 1, &mut out);
                } else {
                    out.push('\\');
                    out.push(d);
                    assert(out@ =~= out0 + escape_at(chars@, i as int).text);
                    i = i + 1;
                }
            }
            assert(out@ + unescape_from(chars@, i as int) =~= out0 + unescape_from(chars@, i0));
        }
    }
    assert(out@ + unescape_from(chars@, n as int) =~= out@);
    out
}

} // verus!
