//! How tokens are spelled: what the characters of a source say of its tokens.
use crate::lexical::{
    blank, Class, column_at, double_token, in_class, is_hex_digit, lemma_piece_end, lemma_quote_end,
    lex, lex_from, line_at, number_piece, Piece, piece_at, Place, quote_end, radix_piece, run_end,
    single_token, span, starts_word,
};
use crate::literal::radix_class;
use crate::numerals::{digits_of, lemma_digits, lemma_run, radix_mark};
use crate::symbol_pool::{predefined_texts, with_text};
use crate::text::Chars;
use crate::token::{predefined_text, predefined_token, predefined_token_is_spelled_alike, Token};
use crate::unicode_ident::xid_start;
use vstd::prelude::*;

verus! {

/// Whether the characters of a token are those that such a token is written with:
/// of a literal its first and last, and of a keyword, an operator or a mark its own
/// spelling.
pub open spec fn spelled(s: Chars, p: Place) -> bool {
    match p.token {
        Token::Ident(_) => starts_word(s[p.from]),
        Token::Integer(_) => '0' <= s[p.from] && s[p.from] <= '9',
        Token::Float(_) => '0' <= s[p.from] && s[p.from] <= '9',
        Token::String(_) => p.to - p.from >= 2 && s[p.from] == '"' && s[p.to - 1] == '"',
        Token::CharLiteral(_) => p.to - p.from >= 2 && s[p.from] == '\'' && s[p.to - 1] == '\'',
        _ => s.subrange(p.from, p.to) == p.token.fixed_text(),
    }
}

/// Whether a token of one character, if it is no word and no literal, is not the start of
/// a longer one: no token is spelled like it and the next character together.
pub open spec fn longest(s: Chars, p: Place) -> bool {
    match p.token {
        Token::Integer(_) | Token::Float(_) | Token::String(_) | Token::CharLiteral(_) => true,
        _ => p.to == p.from + 1 && p.to < s.len() && !starts_word(s[p.from]) ==> forall|t: Token|
            #[trigger] t.fixed_text() != seq![s[p.from], s[p.from + 1]],
    }
}

/// Whether `k` stands in a comment: behind `//` on its line.
pub open spec fn in_comment(s: Chars, k: int) -> bool {
    exists|j: int|
        0 <= j && j + 1 < s.len() && j <= k && s[j] == '/' && s[j + 1] == '/' && #[trigger] same_line(
            s,
            j,
            k,
        )
}

/// Whether no line ends from `j` up to and with `k`.
pub open spec fn same_line(s: Chars, j: int, k: int) -> bool {
    forall|m: int| j <= m <= k ==> s[m] != '\n'
}

/// Whether `k` is one of the characters of a token.
pub open spec fn in_token(places: Seq<Place>, k: int) -> bool {
    exists|n: int| 0 <= n < places.len() && (#[trigger] places[n]).from <= k < places[n].to
}

/// Whether each character before `end` belongs to a token, to a comment, or is blank.
pub open spec fn all_read(s: Chars, places: Seq<Place>, end: int) -> bool {
    forall|k: int|
        0 <= k < end ==> blank(s[k]) || #[trigger] in_comment(s, k) || in_token(places, k)
}

#[verifier::spinoff_prover]
#[verifier::rlimit(40)]
proof fn lemma_double_spelled(c: char, d: char)
    ensures
        double_token(c, d) matches Some(t) ==> t.fixed_text() == seq![c, d] && !(t is Ident) && !(
        t is Integer) && !(t is Float) && !(t is String) && !(t is CharLiteral),
{
    reveal(Token::fixed_text);
    reveal_strlit("+=");
    reveal_strlit("-=");
    reveal_strlit("->");
    reveal_strlit("*=");
    reveal_strlit("/=");
    reveal_strlit("%=");
    reveal_strlit("==");
    reveal_strlit("=>");
    reveal_strlit("!=");
    reveal_strlit("<=");
    reveal_strlit(">=");
    reveal_strlit("&&");
    reveal_strlit("|=");
    reveal_strlit("..");
    reveal_strlit("::");
    if let Some(t) = double_token(c, d) {
        assert(t.fixed_text() =~= seq![c, d]);
    }
}

#[verifier::spinoff_prover]
#[verifier::rlimit(40)]
proof fn lemma_single_spelled(c: char)
    ensures
        single_token(c) matches Some(t) ==> t.fixed_text() == seq![c] && !(t is Ident) && !(
        t is Integer) && !(t is Float) && !(t is String) && !(t is CharLiteral),
{
    reveal(Token::fixed_text);
    reveal_strlit("+");
    reveal_strlit("-");
    reveal_strlit("*");
    reveal_strlit("/");
    reveal_strlit("%");
    reveal_strlit("=");
    reveal_strlit("!");
    reveal_strlit("<");
    reveal_strlit(">");
    reveal_strlit("&");
    reveal_strlit("|");
    reveal_strlit("?");
    reveal_strlit(".");
    reveal_strlit(":");
    reveal_strlit("{");
    reveal_strlit("}");
    reveal_strlit("[");
    reveal_strlit("]");
    reveal_strlit("(");
    reveal_strlit(")");
    reveal_strlit(";");
    reveal_strlit(",");
    reveal_strlit("#");
    if let Some(t) = single_token(c) {
        assert(t.fixed_text() =~= seq![c]);
    }
}

/// What is spelled by two characters, the first of them no letter.
#[verifier::spinoff_prover]
#[verifier::rlimit(100)]
proof fn lemma_spelled_double(t: Token, c: char, d: char)
    requires
        single_token(c) is Some,
        t.fixed_text() == seq![c, d],
    ensures
        double_token(c, d) == Some(t),
{
    reveal(Token::fixed_text);
    let w = t.fixed_text();
    assert(w.len() == 2 && w[0] == c && w[1] == d);
    reveal_strlit("fn");
    reveal_strlit("let");
    reveal_strlit("var");
    reveal_strlit("mut");
    reveal_strlit("const");
    reveal_strlit("struct");
    reveal_strlit("enum");
    reveal_strlit("interface");
    reveal_strlit("implement");
    reveal_strlit("type");
    reveal_strlit("mod");
    reveal_strlit("use");
    reveal_strlit("pub");
    reveal_strlit("priv");
    reveal_strlit("extern");
    reveal_strlit("crate");
    reveal_strlit("super");
    reveal_strlit("here");
    reveal_strlit("if");
    reveal_strlit("else");
    reveal_strlit("lack");
    reveal_strlit("match");
    reveal_strlit("for");
    reveal_strlit("in");
    reveal_strlit("while");
    reveal_strlit("loop");
    reveal_strlit("break");
    reveal_strlit("continue");
    reveal_strlit("return");
    reveal_strlit("yield");
    reveal_strlit("bind");
    reveal_strlit("is");
    reveal_strlit("as");
    reveal_strlit("where");
    reveal_strlit("try");
    reveal_strlit("async");
    reveal_strlit("await");
    reveal_strlit("gen");
    reveal_strlit("snapshot");
    reveal_strlit("ref");
    reveal_strlit("persist");
    reveal_strlit("proto");
    reveal_strlit("unsafe");
    reveal_strlit("verify");
    reveal_strlit("deterministic");
    reveal_strlit("probabilistic");
    reveal_strlit("checkpoint");
    reveal_strlit("actor");
    reveal_strlit("model");
    reveal_strlit("tensor");
    reveal_strlit("Self");
    reveal_strlit("self");
    reveal_strlit("true");
    reveal_strlit("false");
    reveal_strlit("nil");
    reveal_strlit("bytes");
    reveal_strlit("i8");
    reveal_strlit("i16");
    reveal_strlit("i32");
    reveal_strlit("i64");
    reveal_strlit("i128");
    reveal_strlit("isize");
    reveal_strlit("u8");
    reveal_strlit("u16");
    reveal_strlit("u32");
    reveal_strlit("u64");
    reveal_strlit("u128");
    reveal_strlit("usize");
    reveal_strlit("f16");
    reveal_strlit("f32");
    reveal_strlit("f64");
    reveal_strlit("bool");
    reveal_strlit("char");
    reveal_strlit("str");
    reveal_strlit("never");
    reveal_strlit("+=");
    reveal_strlit("-=");
    reveal_strlit("->");
    reveal_strlit("*=");
    reveal_strlit("/=");
    reveal_strlit("%=");
    reveal_strlit("==");
    reveal_strlit("=>");
    reveal_strlit("!=");
    reveal_strlit("<=");
    reveal_strlit(">=");
    reveal_strlit("&&");
    reveal_strlit("|=");
    reveal_strlit("..");
    reveal_strlit("::");
    reveal_strlit("+");
    reveal_strlit("-");
    reveal_strlit("*");
    reveal_strlit("/");
    reveal_strlit("%");
    reveal_strlit("=");
    reveal_strlit("!");
    reveal_strlit("<");
    reveal_strlit(">");
    reveal_strlit("&");
    reveal_strlit("|");
    reveal_strlit("?");
    reveal_strlit(".");
    reveal_strlit(":");
    reveal_strlit("{");
    reveal_strlit("}");
    reveal_strlit("[");
    reveal_strlit("]");
    reveal_strlit("(");
    reveal_strlit(")");
    reveal_strlit(";");
    reveal_strlit(",");
    reveal_strlit("#");
}

proof fn lemma_piece_spelled(s: Chars, i: int)
    requires
        0 <= i < s.len(),
    ensures
        piece_at(s, i) matches Piece::Fixed { token, end } ==> spelled(
            s,
            Place { token, from: i, to: end },
        ) && longest(s, Place { token, from: i, to: end }),
{
    lemma_piece_end(s, i);
    let c = s[i];
    lemma_quote_end(s, i + 1, c);
    lemma_single_spelled(c);
    assert(s.subrange(i, i + 1) =~= seq![c]);
    if i + 1 < s.len() {
        lemma_double_spelled(c, s[i + 1]);
        assert(s.subrange(i, i + 2) =~= seq![c, s[i + 1]]);
        if single_token(c) is Some && double_token(c, s[i + 1]) is None {
            assert forall|t: Token| #[trigger] t.fixed_text() != seq![c, s[i + 1]] by {
                if t.fixed_text() == seq![c, s[i + 1]] {
                    lemma_spelled_double(t, c, s[i + 1]);
                }
            }
        }
    }
}

proof fn lemma_comment(s: Chars, i: int, j: int)
    requires
        0 <= i <= j <= s.len(),
    ensures
        forall|k: int| j <= k < run_end(s, j, Class::Comment) ==> s[k] != '\n',
    decreases s.len() - j,
{
    if j < s.len() && in_class(Class::Comment, s[j]) {
        lemma_comment(s, i, j + 1);
    }
}

#[verifier::spinoff_prover]
#[verifier::rlimit(60)]
proof fn lemma_lex_spelled(s: Chars, i: int, places: Seq<Place>, names: Seq<Chars>)
    requires
        0 <= i <= s.len(),
        names.no_duplicates(),
        predefined_texts().is_prefix_of(names),
        names.len() + s.len() - i < usize::MAX,
        forall|k: int| 0 <= k < places.len() ==> spelled(s, #[trigger] places[k]) && longest(
            s,
            places[k],
        ),
        all_read(s, places, i),
    ensures
        ({
            let after = lex_from(s, i, places, names);
            &&& forall|k: int|
                0 <= k < after.places.len() ==> spelled(s, #[trigger] after.places[k]) && longest(
                    s,
                    after.places[k],
                )
            &&& after.fault is None ==> all_read(s, after.places, s.len() as int)
        }),
    decreases s.len() - i,
{
    if i < s.len() {
        lemma_piece_end(s, i);
        match piece_at(s, i) {
            Piece::Word { end } => {
                let word = s.subrange(i, end);
                let names1 = with_text(names, word);
                let token = predefined_token(names1.index_of(word));
                let p = Place { token, from: i, to: end };
                crate::lexical::words_become_keywords_or_identifiers(names, word);
                crate::symbol_pool::interning_keeps_symbols(names, word);
                assert(predefined_texts().is_prefix_of(names1)) by {
                    let n = predefined_texts().len() as int;
                    assert(names1.take(n) =~= names.take(n));
                }
                if predefined_texts().contains(word) {
                    let k = choose|k: int|
                        0 <= k < predefined_texts().len() && predefined_texts()[k] == word;
                    assert(predefined_text(k) == word);
                    crate::token::lemma_symbol_token(k);
                    predefined_token_is_spelled_alike(k);
                }
                assert(spelled(s, p));
                lemma_read_on(s, places, p);
                lemma_lex_spelled(s, end, places.push(p), names1);
            },
            Piece::Fixed { token, end } => {
                let p = Place { token, from: i, to: end };
                lemma_piece_spelled(s, i);
                lemma_read_on(s, places, p);
                lemma_lex_spelled(s, end, places.push(p), names);
            },
            Piece::Blank { end } => {
                if !blank(s[i]) {
                    lemma_comment(s, i, i + 2);
                    assert forall|k: int| i <= k < end implies #[trigger] in_comment(s, k) by {
                        assert(same_line(s, i, k));
                    }
                }
                lemma_lex_spelled(s, end, places, names);
            },
            Piece::Bad(_) => {},
        }
    }
}

proof fn lemma_read_on(s: Chars, places: Seq<Place>, p: Place)
    requires
        0 <= p.from <= p.to <= s.len(),
        all_read(s, places, p.from),
    ensures
        all_read(s, places.push(p), p.to),
{
    let more = places.push(p);
    assert forall|k: int| 0 <= k < p.to implies blank(s[k]) || #[trigger] in_comment(s, k)
        || in_token(more, k) by {
        if k < p.from {
            if in_token(places, k) {
                let n = choose|n: int|
                    0 <= n < places.len() && (#[trigger] places[n]).from <= k < places[n].to;
                assert(more[n] == places[n]);
            }
        } else {
            assert(more[places.len() as int] == p);
        }
    }
}

/// Each token of a run is written as such a token is: a keyword, an operator and a mark
/// by its own spelling, a string and a character between their quotes, a number from
/// a digit on, an identifier as a word. Where a character could start a longer operator or
/// mark, it does.
pub proof fn tokens_are_spelled_as_written(s: Chars, names: Seq<Chars>)
    requires
        names.no_duplicates(),
        predefined_texts().is_prefix_of(names),
        names.len() + s.len() < usize::MAX,
    ensures
        forall|k: int|
            0 <= k < lex(s, names).places.len() ==> spelled(
                s,
                #[trigger] lex(s, names).places[k],
            ) && longest(s, lex(s, names).places[k]),
{
    lemma_lex_spelled(s, 0, Seq::empty(), names);
}

/// A run that ends without a fault leaves nothing out: what belongs to no token is blank or
/// stands in a comment.
pub proof fn nothing_is_left_out(s: Chars, names: Seq<Chars>)
    requires
        names.no_duplicates(),
        predefined_texts().is_prefix_of(names),
        names.len() + s.len() < usize::MAX,
        lex(s, names).fault is None,
    ensures
        all_read(s, lex(s, names).places, s.len() as int),
{
    lemma_lex_spelled(s, 0, Seq::empty(), names);
}

// Places in a source.

/// How many lines end from `i` up to `k`.
pub open spec fn line_ends(s: Chars, i: int, k: int) -> nat
    decreases k - i,
{
    if i >= k {
        0
    } else {
        line_ends(s, i + 1, k) + (if s[i] == '\n' {
            1nat
        } else {
            0
        })
    }
}

proof fn lemma_line_ends(s: Chars, i: int, k: int)
    requires
        i <= k,
    ensures
        line_ends(s, i, k + 1) == line_ends(s, i, k) + (if s[k] == '\n' {
            1nat
        } else {
            0
        }),
    decreases k - i,
{
    if i < k {
        lemma_line_ends(s, i + 1, k);
    } else {
        assert(line_ends(s, k + 1, k + 1) == 0);
    }
}

/// The line of a place is one more than the line ends before it, and its column one more than
/// the characters between it and the last of them.
pub proof fn places_are_counted_by_lines(s: Chars, k: int)
    requires
        0 <= k <= s.len(),
    ensures
        line_at(s, k) == 1 + line_ends(s, 0, k),
        ({
            let c = column_at(s, k) as int;
            &&& 1 <= c <= k + 1
            &&& c == k + 1 || s[k - c] == '\n'
            &&& forall|j: int| k - c < j < k ==> #[trigger] s[j] != '\n'
        }),
    decreases k,
{
    if k > 0 {
        places_are_counted_by_lines(s, k - 1);
        lemma_line_ends(s, 0, k - 1);
    }
}

// Literals.

/// Whether no digit starts a word.
pub open spec fn digits_are_no_letters() -> bool {
    forall|c: char| '0' <= c && c <= '9' ==> !#[trigger] xid_start(c)
}

/// Whether a number ends before a place: what stands there is no digit, letter or point.
pub open spec fn number_ends(s: Chars, k: int) -> bool {
    k >= s.len() || (!xid_start(s[k]) && s[k] != 'x' && s[k] != 'o' && s[k] != '_' && s[k] != '.'
        && !is_hex_digit(s[k]))
}

/// A whole number that is written in a radix is one token, an integer.
#[verifier::spinoff_prover]
#[verifier::rlimit(60)]
pub proof fn written_number_is_one_token(s: Chars, i: int, v: nat, radix: nat)
    requires
        radix == 2 || radix == 8 || radix == 10 || radix == 16,
        digits_are_no_letters(),
        0 <= i,
        i + (radix_mark(radix) + digits_of(v, radix)).len() <= s.len(),
        s.subrange(i, i + (radix_mark(radix) + digits_of(v, radix)).len()) == radix_mark(radix)
            + digits_of(v, radix),
        number_ends(s, i + (radix_mark(radix) + digits_of(v, radix)).len()),
    ensures
        ({
            let end = i + (radix_mark(radix) + digits_of(v, radix)).len();
            piece_at(s, i) == (Piece::Fixed { token: Token::Integer(span(s, i, end)), end })
        }),
{
    let m = radix_mark(radix);
    let d = digits_of(v, radix);
    let t = m + d;
    let a = i + m.len();
    let end = i + t.len();
    lemma_digits(v, radix);
    let class = radix_class(radix);
    assert forall|k: int| 0 <= k < t.len() implies #[trigger] s[i + k] == t[k] by {
        assert(s.subrange(i, end)[k] == s[i + k]);
    }
    assert forall|k: int| a <= k < end implies in_class(class, #[trigger] s[k]) && s[k] != '_' by {
        assert(s[i + (k - i)] == t[k - i]);
        assert(t[k - i] == d[k - a]);
    }
    assert(s[i + 0] == t[0]);
    if radix == 10 {
        assert(t[0] == d[0]);
        lemma_run(s, i + 1, end, class);
        if s[i] == '0' {
            assert(d.len() == 1);
        }
        assert(in_class(class, s[i]) && s[i] != '_');
        assert(number_piece(s, i, i + 1) == (Piece::Fixed {
            token: Token::Integer(span(s, i, end)),
            end,
        }));
    } else {
        assert(t[0] == '0');
        assert(s[i + 1] == t[1]);
        assert(t[1] == m[1]);
        assert(in_class(class, s[a]) && s[a] != '_');
        assert(run_end(s, a, Class::Underscore) == a);
        lemma_run(s, a, end, class);
        let first = if radix == 16 {
            Class::HexDigit
        } else if radix == 2 {
            Class::BinaryDigit
        } else {
            Class::OctalDigit
        };
        assert(in_class(first, s[a]));
        assert(radix_piece(s, i, a, first, class) == (Piece::Fixed {
            token: Token::Integer(span(s, i, end)),
            end,
        }));
    }
}

/// A number with a point and digits on both its sides is one token, with a fraction.
pub proof fn written_fraction_is_one_token(s: Chars, i: int, v: nat, f: nat)
    requires
        digits_are_no_letters(),
        0 <= i,
        i + (digits_of(v, 10) + seq!['.'] + digits_of(f, 10)).len() <= s.len(),
        s.subrange(i, i + (digits_of(v, 10) + seq!['.'] + digits_of(f, 10)).len()) == digits_of(v, 10)
            + seq!['.'] + digits_of(f, 10),
        number_ends(s, i + (digits_of(v, 10) + seq!['.'] + digits_of(f, 10)).len()),
        !xid_start('.'),
    ensures
        ({
            let end = i + (digits_of(v, 10) + seq!['.'] + digits_of(f, 10)).len();
            piece_at(s, i) == (Piece::Fixed { token: Token::Float(span(s, i, end)), end })
        }),
{
    let d = digits_of(v, 10);
    let g = digits_of(f, 10);
    let t = d + seq!['.'] + g;
    let a = i + d.len();
    let end = i + t.len();
    lemma_digits(v, 10);
    lemma_digits(f, 10);
    let class = Class::Decimal;
    assert forall|k: int| 0 <= k < t.len() implies #[trigger] s[i + k] == t[k] by {
        assert(s.subrange(i, end)[k] == s[i + k]);
    }
    assert forall|k: int| i <= k < a implies in_class(class, #[trigger] s[k]) by {
        assert(s[i + (k - i)] == t[k - i]);
        assert(t[k - i] == d[k - i]);
    }
    assert(s[a] == '.') by {
        assert(s[i + d.len()] == t[d.len() as int]);
    }
    assert forall|k: int| a + 1 <= k < end implies in_class(class, #[trigger] s[k]) by {
        assert(s[i + (k - i)] == t[k - i]);
        assert(t[k - i] == g[k - a - 1]);
    }
    assert(s[i + 0] == t[0]);
    assert(t[0] == d[0] && d[0] != '_');
    assert(in_class(class, s[i]));
    if s[i] == '0' {
        assert(d.len() == 1);
        assert(s[i + 1] == '.');
    }
    lemma_run(s, i + 1, a, class);
    lemma_run(s, a + 1, end, class);
}

proof fn lemma_plain_quote(s: Chars, i: int, e: int, quote: char)
    requires
        0 <= i <= e < s.len(),
        s[e] == quote,
        forall|k: int| i <= k < e ==> #[trigger] s[k] != quote && s[k] != '\\',
    ensures
        quote_end(s, i, quote) == Some(e),
    decreases e - i,
{
    if i < e {
        lemma_plain_quote(s, i + 1, e, quote);
    }
}

/// A text in quotes, with neither quotes nor backslashes in it, is one token: a string in
/// double quotes, a character in single ones.
pub proof fn quoted_text_is_one_token(s: Chars, i: int, e: int)
    requires
        0 <= i < e < s.len(),
        s[i] == '"' || s[i] == '\'',
        s[e] == s[i],
        !xid_start(s[i]),
        forall|k: int| i < k < e ==> #[trigger] s[k] != s[i] && s[k] != '\\',
    ensures
        piece_at(s, i) == (Piece::Fixed {
            token: if s[i] == '"' {
                Token::String(span(s, i, e + 1))
            } else {
                Token::CharLiteral(span(s, i, e + 1))
            },
            end: e + 1,
        }),
{
    lemma_plain_quote(s, i + 1, e, s[i]);
}

} // verus!
