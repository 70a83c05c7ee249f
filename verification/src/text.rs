//! Strings as character sequences: the few operations that the compiler needs,
//! and their byte lengths in UTF-8.
use vstd::prelude::*;
use vstd::utf8::*;

verus! {

/// `String::push` appends one character.
pub assume_specification[ std::string::String::push ](s: &mut std::string::String, c: char)
    ensures
        final(s)@ == old(s)@.push(c),
;

/// `str` equality compares the characters.
pub assume_specification[ <str as PartialEq>::eq ](a: &str, b: &str) -> (r: bool)
    ensures
        r == (a@ == b@),
;

/// How the `Debug` format shows a character.
pub uninterp spec fn char_debug(c: char) -> Seq<char>;

/// Formats a character with `{:?}`, the `Debug` of `char`.
///
/// The result is a function of the character, which is named and not written
/// out: which characters it escapes, and how, is not stated.
#[verifier::external_body]
pub(crate) fn char_debug_of(c: char) -> (r: String)
    ensures
        r@ == char_debug(c),
{
    format!("{:?}", c)
}

/// How the `Debug` format shows a text.
pub uninterp spec fn str_debug(s: Seq<char>) -> Seq<char>;

/// Formats a text with `{:?}`, the `Debug` of `str`.
///
/// The result is a function of the text, which is named and not written out: the
/// quotes around it, which characters it escapes, and how, are not stated.
#[verifier::external_body]
pub(crate) fn str_debug_of(s: &str) -> (r: String)
    ensures
        r@ == str_debug(s@),
{
    format!("{:?}", s)
}

/// `char::from_u32` gives the character of that number, if it is one's.
pub assume_specification[ std::primitive::char::from_u32 ](i: u32) -> (r: Option<char>)
    ensures
        r == (if i <= 0xD7FF || 0xE000 <= i <= 0x10FFFF {
            Some(i as char)
        } else {
            None::<char>
        }),
;

/// The characters of a text.
pub type Chars = Seq<char>;

/// How many bytes the UTF-8 encoding of `c` takes.
pub open spec fn char_width(c: char) -> nat {
    let v = c as u32;
    if v < 0x80 {
        1
    } else if v < 0x800 {
        2
    } else if v < 0x10000 {
        3
    } else {
        4
    }
}

/// How many bytes the UTF-8 encoding of `s` takes.
pub open spec fn byte_len(s: Chars) -> nat
    decreases s.len(),
{
    if s.len() == 0 {
        0
    } else {
        byte_len(s.drop_last()) + char_width(s.last())
    }
}

/// The byte offset of the `i`-th character of `s`.
pub open spec fn byte_offset(s: Chars, i: int) -> nat {
    byte_len(s.take(i))
}

/// Encoding a concatenation concatenates the encodings.
pub proof fn lemma_encode_concat(a: Chars, b: Chars)
    ensures
        encode_utf8(a + b) == encode_utf8(a) + encode_utf8(b),
    decreases a.len(),
{
    if a.len() == 0 {
        assert(a + b =~= b);
        assert(encode_utf8(a) =~= Seq::<u8>::empty());
    } else {
        lemma_encode_concat(a.drop_first(), b);
        assert((a + b).drop_first() =~= a.drop_first() + b);
        assert((a + b)[0] == a[0]);
        assert(encode_utf8(a + b) =~= encode_utf8(a) + encode_utf8(b));
    }
}

/// `byte_len` is the length of the UTF-8 encoding.
pub proof fn lemma_byte_len(s: Chars)
    ensures
        byte_len(s) == encode_utf8(s).len(),
        byte_len(s) >= s.len(),
    decreases s.len(),
{
    if s.len() > 0 {
        lemma_byte_len(s.drop_last());
        let last = seq![s.last()];
        assert(s.drop_last() + last =~= s);
        lemma_encode_concat(s.drop_last(), last);
        assert(encode_utf8(last) =~= encode_scalar(last[0] as u32)) by {
            assert(last.drop_first() =~= Seq::<char>::empty());
            reveal_with_fuel(encode_utf8, 2);
        }
        char_is_scalar(last[0]);
    }
}

/// The offset of the next character.
pub proof fn lemma_byte_offset_step(s: Chars, i: int)
    requires
        0 <= i < s.len(),
    ensures
        byte_offset(s, i + 1) == byte_offset(s, i) + char_width(s[i]),
{
    assert(s.take(i + 1).drop_last() =~= s.take(i));
}

/// Offsets grow with the index.
pub proof fn lemma_byte_offset_mono(s: Chars, i: int, j: int)
    requires
        0 <= i <= j <= s.len(),
    ensures
        byte_offset(s, i) <= byte_offset(s, j),
        byte_offset(s, j) - byte_offset(s, i) >= j - i,
        byte_offset(s, j) <= byte_len(s),
    decreases s.len() - i,
{
    if i < j {
        lemma_byte_offset_step(s, i);
        lemma_byte_offset_mono(s, i + 1, j);
    } else if j < s.len() {
        lemma_byte_offset_step(s, j);
        lemma_byte_offset_mono(s, j + 1, j + 1);
    } else {
        assert(s.take(j) =~= s);
    }
}

/// The encoding of the first characters ends at a character boundary.
pub proof fn lemma_char_boundary(a: Chars, b: Chars)
    ensures
        is_char_boundary(encode_utf8(a + b), encode_utf8(a).len() as int),
    decreases a.len(),
{
    broadcast use encode_utf8_valid_utf8;

    if a.len() > 0 {
        let whole = a + b;
        let bytes = encode_utf8(whole);
        encode_utf8_first_scalar(whole);
        assert(whole.drop_first() =~= a.drop_first() + b);
        assert(pop_first_scalar(bytes) =~= encode_utf8(whole.drop_first()));
        lemma_char_boundary(a.drop_first(), b);
        lemma_encode_concat(a, b);
        assert(whole[0] == a[0]);
    }
}

/// A text is known by its encoding.
pub proof fn lemma_encode_injective(a: Chars, b: Chars)
    requires
        encode_utf8(a) == encode_utf8(b),
    ensures
        a == b,
{
    encode_utf8_decode_utf8(a);
    encode_utf8_decode_utf8(b);
}

/// The encoding of a part of a text is a part of its encoding.
#[verifier::spinoff_prover]
#[verifier::rlimit(30)]
pub proof fn lemma_encode_subrange(s: Chars, a: int, b: int)
    requires
        0 <= a <= b <= s.len(),
    ensures
        byte_offset(s, a) <= byte_offset(s, b) <= encode_utf8(s).len(),
        encode_utf8(s.subrange(a, b)) == encode_utf8(s).subrange(
            byte_offset(s, a) as int,
            byte_offset(s, b) as int,
        ),
        encode_utf8(s.take(a)).len() == byte_offset(s, a),
        encode_utf8(s.skip(a)) == encode_utf8(s).skip(byte_offset(s, a) as int),
        encode_utf8(s.subrange(a, b)).len() == byte_offset(s, b) - byte_offset(s, a),
{
    lemma_byte_offset_mono(s, a, b);
    lemma_byte_len(s);
    lemma_byte_len(s.take(a));
    lemma_byte_len(s.take(b));
    lemma_encode_concat(s.take(a), s.skip(a));
    assert(s.take(a) + s.skip(a) =~= s);
    assert(encode_utf8(s.skip(a)) =~= encode_utf8(s).skip(byte_offset(s, a) as int));
    lemma_encode_concat(s.take(b), s.skip(b));
    assert(s.take(b) + s.skip(b) =~= s);
    lemma_encode_concat(s.take(a), s.subrange(a, b));
    assert(s.take(a) + s.subrange(a, b) =~= s.take(b));
    assert(encode_utf8(s.subrange(a, b)) =~= encode_utf8(s).subrange(
        byte_offset(s, a) as int,
        byte_offset(s, b) as int,
    ));
}

/// The width of one character.
pub fn width_of(c: char) -> (r: usize)
    ensures
        r == char_width(c),
{
    let v: u32 = c as u32;
    if v < 0x80 {
        1
    } else if v < 0x800 {
        2
    } else if v < 0x10000 {
        3
    } else {
        4
    }
}

/// The characters of `s`.
pub fn chars_of(s: &str) -> (r: Vec<char>)
    ensures
        r@ == s@,
{
    let mut out: Vec<char> = Vec::new();
    for c in it: s.chars()
        invariant
            out@ == it.seq().take(it.index() as int),
            it.seq() == s@,
    {
        out.push(c);
    }
    out
}

/// The characters from `from` up to `to`, as a string.
pub fn text_of(chars: &Vec<char>, from: usize, to: usize) -> (r: String)
    requires
        from <= to <= chars.len(),
    ensures
        r@ == chars@.subrange(from as int, to as int),
{
    let mut out: String = String::new();
    let mut i: usize = from;
    while i < to
        invariant
            from <= i <= to <= chars.len(),
            out@ == chars@.subrange(from as int, i as int),
        decreases to - i,
    {
        out.push(chars[i]);
        i = i + 1;
        assert(chars@.subrange(from as int, i as int) =~= chars@.subrange(
            from as int,
            i - 1,
        ).push(chars@[i - 1]));
    }
    out
}

/// The concatenation of two texts.
pub fn join2(a: &str, b: &str) -> (r: String)
    ensures
        r@ == a@ + b@,
{
    a.to_string().concat(b)
}

/// The concatenation of three texts.
pub fn join3(a: &str, b: &str, c: &str) -> (r: String)
    ensures
        r@ == a@ + b@ + c@,
{
    a.to_string().concat(b).concat(c)
}

/// The concatenation of four texts.
pub fn join4(a: &str, b: &str, c: &str, d: &str) -> (r: String)
    ensures
        r@ == a@ + b@ + c@ + d@,
{
    a.to_string().concat(b).concat(c).concat(d)
}

/// The concatenation of five texts.
pub fn join5(a: &str, b: &str, c: &str, d: &str, e: &str) -> (r: String)
    ensures
        r@ == a@ + b@ + c@ + d@ + e@,
{
    a.to_string().concat(b).concat(c).concat(d).concat(e)
}

/// The decimal digit of value `d`.
pub open spec fn digit_char(d: int) -> char {
    (d + 48) as char
}

/// `n` in decimal, without leading zeros.
pub open spec fn decimal(n: nat) -> Chars
    decreases n,
{
    if n < 10 {
        seq![digit_char(n as int)]
    } else {
        decimal(n / 10).push(digit_char((n % 10) as int))
    }
}

/// `n` in decimal, without leading zeros.
pub fn decimal_of(n: usize) -> (r: String)
    ensures
        r@ == decimal(n as nat),
    decreases n,
{
    let d: u8 = 48u8 + (n % 10) as u8;
    let mut out: String = if n < 10 {
        String::new()
    } else {
        decimal_of(n / 10)
    };
    out.push(d as char);
    assert(n < 10 ==> out@ =~= decimal(n as nat));
    out
}

/// The upper-case hexadecimal digit of value `d`.
pub open spec fn hex_upper_char(d: int) -> char {
    if d < 10 {
        (d + 48) as char
    } else {
        (d + 55) as char
    }
}

/// `n` in upper-case hexadecimal with at least `width` digits.
pub open spec fn hex_upper(n: nat, width: nat) -> Chars
    decreases n, width,
{
    if n < 16 && width <= 1 {
        seq![hex_upper_char(n as int)]
    } else {
        hex_upper(n / 16, if width > 0 { (width - 1) as nat } else { 0 }).push(
            hex_upper_char((n % 16) as int),
        )
    }
}

/// `n` in upper-case hexadecimal with at least `width` digits.
pub fn hex_upper_of(n: u32, width: u32) -> (r: String)
    ensures
        r@ == hex_upper(n as nat, width as nat),
    decreases n, width,
{
    let low: u8 = (n % 16) as u8;
    let d: u8 = if low < 10 {
        48u8 + low
    } else {
        55u8 + low
    };
    let mut out: String = if n < 16 && width <= 1 {
        String::new()
    } else {
        hex_upper_of(
            n / 16,
            if width > 0 {
                width - 1
            } else {
                0
            },
        )
    };
    out.push(d as char);
    assert(n < 16 && width <= 1 ==> out@ =~= hex_upper(n as nat, width as nat));
    out
}

} // verus!
