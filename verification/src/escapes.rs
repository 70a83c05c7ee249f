//! How texts are written in literals, and that they are read back.
use crate::lexical::{
    escape_at, hex_value, is_hex_number, is_scalar, lemma_unescape_behind, Piece, piece_at, Place,
    place_text, quote_end, span, unescape, unescape_from, unsigned_digits,
};
use crate::literal::digits_value;
use crate::numerals::{digits_of, lemma_digits};
use crate::text::{byte_len, Chars};
use crate::token::Token;
use crate::unicode_ident::xid_start;
use vstd::prelude::*;

verus! {

/// A character as it is written in a literal.
pub open spec fn escaped_char(c: char) -> Chars {
    if c == '\n' {
        seq!['\\', 'n']
    } else if c == '\r' {
        seq!['\\', 'r']
    } else if c == '\t' {
        seq!['\\', 't']
    } else if c == '\0' {
        seq!['\\', '0']
    } else if c == '\\' {
        seq!['\\', '\\']
    } else if c == '"' {
        seq!['\\', '"']
    } else if c == '\'' {
        seq!['\\', '\'']
    } else {
        seq![c]
    }
}

/// A text as it is written in a literal.
pub open spec fn escaped(t: Chars) -> Chars
    decreases t.len(),
{
    if t.len() == 0 {
        Seq::empty()
    } else {
        escaped_char(t[0]) + escaped(t.skip(1))
    }
}

/// A text that is written with escapes stands for itself, whatever follows it.
pub proof fn escaped_text_stands_for_itself(t: Chars, rest: Chars)
    ensures
        unescape(escaped(t) + rest) == t + unescape(rest),
    decreases t.len(),
{
    if t.len() == 0 {
        assert(escaped(t) + rest =~= rest);
        assert(t + unescape(rest) =~= unescape(rest));
    } else {
        let tail = escaped(t.skip(1)) + rest;
        escaped_text_stands_for_itself(t.skip(1), rest);
        let head = escaped_char(t[0]);
        let x = head + tail;
        assert(escaped(t) + rest =~= x);
        lemma_unescape_behind(head, tail, 0);
        assert(x[0] == head[0]);
        if head.len() == 2 {
            assert(x[1] == head[1]);
            assert(escape_at(x, 1).text == seq![t[0]] && escape_at(x, 1).end == 2);
        }
        assert(unescape(x) == seq![t[0]] + unescape(tail));
        assert(seq![t[0]] + (t.skip(1) + unescape(rest)) =~= t + unescape(rest));
    }
}

proof fn lemma_quote_over(s: Chars, i: int, t: Chars, quote: char)
    requires
        quote == '"' || quote == '\'',
        0 <= i,
        i + escaped(t).len() < s.len(),
        s.subrange(i, i + escaped(t).len()) == escaped(t),
        s[i + escaped(t).len()] == quote,
    ensures
        quote_end(s, i, quote) == Some(i + escaped(t).len()),
    decreases t.len(),
{
    if t.len() > 0 {
        let head = escaped_char(t[0]);
        let tail = escaped(t.skip(1));
        let n = head.len() as int;
        let w = s.subrange(i, i + escaped(t).len());
        assert(w[0] == s[i] && w[0] == head[0]);
        assert(s.subrange(i + n, i + n + tail.len()) =~= tail) by {
            assert forall|k: int| 0 <= k < tail.len() implies s[i + n + k] == tail[k] by {
                assert(w[n + k] == s[i + n + k]);
                assert(w[n + k] == tail[k]);
            }
        }
        lemma_quote_over(s, i + n, t.skip(1), quote);
    }
}

/// A text that is written with escapes between double quotes is one token, a string, whose
/// text it is; and between single ones a character.
pub proof fn written_text_is_read_back(s: Chars, i: int, t: Chars, quote: char)
    requires
        quote == '"' || quote == '\'',
        !xid_start(quote),
        0 <= i,
        i + 1 + escaped(t).len() < s.len(),
        s[i] == quote,
        s.subrange(i + 1, i + 1 + escaped(t).len()) == escaped(t),
        s[i + 1 + escaped(t).len()] == quote,
    ensures
        ({
            let end = i + 2 + escaped(t).len();
            let token = if quote == '"' {
                Token::String(span(s, i, end))
            } else {
                Token::CharLiteral(span(s, i, end))
            };
            piece_at(s, i) == (Piece::Fixed { token, end }) && place_text(
                s,
                Place { token, from: i, to: end },
            ) == t
        }),
{
    lemma_quote_over(s, i + 1, t, quote);
    escaped_text_stands_for_itself(t, Seq::empty());
    assert(escaped(t) + Seq::empty() =~= escaped(t));
    assert(t + unescape(Seq::empty()) =~= t);
}

proof fn lemma_hex(s: Chars)
    requires
        forall|k: int| 0 <= k < s.len() ==> #[trigger] s[k] != '_',
    ensures
        hex_value(s) == digits_value(s, 16),
    decreases s.len(),
{
    if s.len() > 0 {
        assert(s[s.len() - 1] == s.last());
        assert forall|k: int| 0 <= k < s.drop_last().len() implies #[trigger] s.drop_last()[k]
            != '_' by {
            assert(s.drop_last()[k] == s[k]);
        }
        lemma_hex(s.drop_last());
    }
}

/// The number of a character in braces behind `\u` stands for the character, whatever
/// follows it.
pub proof fn numbered_character_stands_for_itself(v: nat, rest: Chars)
    requires
        is_scalar(v),
        0 < byte_len(digits_of(v, 16)) <= 6,
    ensures
        unescape(seq!['\\', 'u', '{'] + digits_of(v, 16) + seq!['}'] + rest) == seq![v as char]
            + unescape(rest),
{
    let d = digits_of(v, 16);
    let head = seq!['\\', 'u', '{'] + d + seq!['}'];
    let x = head + rest;
    let n = d.len() as int;
    lemma_digits(v, 16);
    lemma_hex(d);
    assert(x[0] == '\\' && x[1] == 'u' && x[2] == '{');
    assert forall|k: int| 0 <= k < n implies #[trigger] x[3 + k] == d[k] by {}
    assert(x[3 + n] == '}');
    lemma_brace(x, 3, 3 + n);
    assert(x.subrange(3, 3 + n) =~= d);
    assert(d[0] != '+');
    assert(unsigned_digits(d) == d);
    assert(is_hex_number(d));
    lemma_unescape_behind(head, rest, 0);
    assert(escape_at(x, 1).text == seq![v as char] && escape_at(x, 1).end == 4 + n);
    assert(unescape(x) == seq![v as char] + unescape_from(x, 4 + n));
}

proof fn lemma_brace(s: Chars, i: int, e: int)
    requires
        0 <= i <= e < s.len(),
        s[e] == '}',
        forall|k: int| i <= k < e ==> #[trigger] s[k] != '}',
    ensures
        crate::lexical::brace_end(s, i) == e,
    decreases e - i,
{
    if i < e {
        lemma_brace(s, i + 1, e);
    }
}

} // verus!
