//! The values of integer literals.
use crate::ast::{Literal, LiteralView};
use crate::lexer::{class_has, is_interger_type};
use crate::lexical::{Class, hex_digit_value, in_class, integer_type, is_hex_digit, run_end};
use crate::text::{Chars, chars_of, text_of};
use vstd::prelude::*;

verus! {

/// The number whose digits in that radix are `s`, underscores left out.
pub open spec fn digits_value(s: Chars, radix: nat) -> nat
    decreases s.len(),
{
    if s.len() == 0 {
        0
    } else if s.last() == '_' {
        digits_value(s.drop_last(), radix)
    } else {
        digits_value(s.drop_last(), radix) * radix + hex_digit_value(s.last())
    }
}

/// The radix of a literal: by the letter behind its first digit, else ten.
pub open spec fn radix_of(s: Chars) -> nat {
    if s.len() >= 2 && s[0] == '0' && s[1] == 'x' {
        16
    } else if s.len() >= 2 && s[0] == '0' && s[1] == 'b' {
        2
    } else if s.len() >= 2 && s[0] == '0' && s[1] == 'o' {
        8
    } else {
        10
    }
}

/// The digits of that radix.
pub open spec fn radix_class(radix: nat) -> Class {
    if radix == 16 {
        Class::Hex
    } else if radix == 2 {
        Class::Binary
    } else if radix == 8 {
        Class::Octal
    } else {
        Class::Decimal
    }
}

/// Where the digits of a literal start.
pub open spec fn digits_start(s: Chars) -> int {
    if radix_of(s) == 10 {
        0
    } else {
        2
    }
}

/// Where the digits of a literal end and its suffix starts.
pub open spec fn digits_end(s: Chars) -> int {
    run_end(s, digits_start(s), radix_class(radix_of(s)))
}

/// The value of a literal, without regard to its type.
pub open spec fn magnitude(s: Chars) -> nat {
    digits_value(s.subrange(digits_start(s), digits_end(s)), radix_of(s))
}

/// The value of an integer literal: its suffix is empty or an integer type.
pub open spec fn integer_value(s: Chars) -> Option<nat> {
    let suffix = s.skip(digits_end(s));
    if suffix.len() == 0 || integer_type(suffix) {
        Some(magnitude(s))
    } else {
        None
    }
}

/// The number that decimal digits alone spell.
pub open spec fn decimal_value(s: Chars) -> Option<nat> {
    if s.len() > 0 && forall|k: int| 0 <= k < s.len() ==> '0' <= #[trigger] s[k] && s[k] <= '9' {
        Some(digits_value(s, 10))
    } else {
        None
    }
}

/// The literal of that type, if the value fits; `i32` where no type is named.
pub open spec fn typed_integer(suffix: Chars, v: nat) -> Option<LiteralView> {
    if suffix == "i8"@ {
        if v <= i8::MAX { Some(LiteralView::Int8(v as i8)) } else { None }
    } else if suffix == "i16"@ {
        if v <= i16::MAX { Some(LiteralView::Int16(v as i16)) } else { None }
    } else if suffix == "i64"@ {
        if v <= i64::MAX { Some(LiteralView::Int64(v as i64)) } else { None }
    } else if suffix == "i128"@ {
        if v <= i128::MAX { Some(LiteralView::Int128(v as i128)) } else { None }
    } else if suffix == "isize"@ {
        if v <= isize::MAX { Some(LiteralView::Isize(v as isize)) } else { None }
    } else if suffix == "u8"@ {
        if v <= u8::MAX { Some(LiteralView::Uint8(v as u8)) } else { None }
    } else if suffix == "u16"@ {
        if v <= u16::MAX { Some(LiteralView::Uint16(v as u16)) } else { None }
    } else if suffix == "u32"@ {
        if v <= u32::MAX { Some(LiteralView::Uint32(v as u32)) } else { None }
    } else if suffix == "u64"@ {
        if v <= u64::MAX { Some(LiteralView::Uint64(v as u64)) } else { None }
    } else if suffix == "u128"@ {
        if v <= u128::MAX { Some(LiteralView::Uint128(v as u128)) } else { None }
    } else if suffix == "usize"@ {
        if v <= usize::MAX { Some(LiteralView::Usize(v as usize)) } else { None }
    } else if suffix == "i32"@ || suffix.len() == 0 {
        if v <= i32::MAX { Some(LiteralView::Int32(v as i32)) } else { None }
    } else {
        None
    }
}

/// The literal that an integer token's text spells.
pub open spec fn integer_literal(s: Chars) -> Option<LiteralView> {
    typed_integer(s.skip(digits_end(s)), magnitude(s))
}

/// More digits make no smaller number.
proof fn lemma_digits_grow(s: Chars, k: int, radix: nat)
    requires
        0 <= k <= s.len(),
        radix >= 1,
    ensures
        digits_value(s.take(k), radix) <= digits_value(s, radix),
    decreases s.len() - k,
{
    if k < s.len() {
        lemma_digits_grow(s.drop_last(), k, radix);
        assert(s.drop_last().take(k) =~= s.take(k));
        let d = digits_value(s.drop_last(), radix);
        assert(d * radix >= d) by (nonlinear_arith)
            requires
                radix >= 1,
        ;
    } else {
        assert(s.take(k) =~= s);
    }
}

/// The number that the digits spell, or nothing where it is too large.
fn digits_of(s: &Vec<char>, from: usize, to: usize, radix: u128) -> (r: Option<u128>)
    requires
        from <= to <= s.len(),
        2 <= radix <= 16,
        forall|k: int| from <= k < to ==> is_hex_digit(#[trigger] s[k]) || s[k] == '_',
    ensures
        match r {
            Some(v) => v == digits_value(s@.subrange(from as int, to as int), radix as nat),
            None => digits_value(s@.subrange(from as int, to as int), radix as nat) > u128::MAX,
        },
{
    let ghost digits = s@.subrange(from as int, to as int);
    let mut v: u128 = 0;
    let mut i: usize = from;
    assert(digits.take(0) =~= Seq::<char>::empty());
    while i < to
        invariant
            from <= i <= to <= s.len(),
            2 <= radix <= 16,
            digits == s@.subrange(from as int, to as int),
            forall|k: int| from <= k < to ==> is_hex_digit(#[trigger] s[k]) || s[k] == '_',
            v == digits_value(digits.take(i - from), radix as nat),
        decreases to - i,
    {
        let c: char = s[i];
        let ghost next = digits.take(i - from + 1);
        assert(next.drop_last() =~= digits.take(i - from));
        assert(next.last() == c);
        proof {
            lemma_digits_grow(digits, i - from + 1, radix as nat);
        }
        if c != '_' {
            assert(is_hex_digit(c));
            let n: u32 = c as u32;
            let d: u32 = if '0' <= c && c <= '9' {
                n - 48
            } else if 'a' <= c && c <= 'f' {
                n - 87
            } else {
                n - 55
            };
            let scaled: u128 = match v.checked_mul(radix) {
                Some(x) => x,
                None => {
                    return None;
                },
            };
            v = match scaled.checked_add(d as u128) {
                Some(x) => x,
                None => {
                    return None;
                },
            };
        }
        i = i + 1;
    }
    assert(digits.take(to - from) =~= digits);
    Some(v)
}

/// The place where the digits of a literal start, its radix and their class.
fn radix_parts(s: &Vec<char>) -> (r: (usize, u128, Class))
    ensures
        r.0 == digits_start(s@),
        r.1 == radix_of(s@),
        r.2 == radix_class(radix_of(s@)),
        r.0 <= s.len(),
{
    if s.len() >= 2 && s[0] == '0' {
        if s[1] == 'x' {
            return (2, 16, Class::Hex);
        }
        if s[1] == 'b' {
            return (2, 2, Class::Binary);
        }
        if s[1] == 'o' {
            return (2, 8, Class::Octal);
        }
    }
    (0, 10, Class::Decimal)
}

/// The value of a literal, or nothing where it is too large, and where its suffix
/// starts.
fn magnitude_of(s: &Vec<char>) -> (r: (Option<u128>, usize))
    ensures
        match r.0 {
            Some(v) => v == magnitude(s@),
            None => magnitude(s@) > u128::MAX,
        },
        r.1 == digits_end(s@),
        r.1 <= s.len(),
{
    let (start, radix, class) = radix_parts(s);
    let mut i: usize = start;
    while i < s.len() && class_has(class, s[i])
        invariant
            start <= i <= s.len(),
            start == digits_start(s@),
            class == radix_class(radix_of(s@)),
            digits_end(s@) == run_end(s@, i as int, class),
            forall|k: int| start <= k < i ==> in_class(class, #[trigger] s[k]),
        decreases s.len() - i,
    {
        i = i + 1;
    }
    (digits_of(s, start, i, radix), i)
}

/// The literal of that type, if the value fits; `i32` where no type is named.
fn typed_integer_of(suffix: &str, v: u128) -> (r: Option<Literal>)
    ensures
        match r {
            Some(l) => typed_integer(suffix@, v as nat) == Some(l.model()),
            None => typed_integer(suffix@, v as nat) is None,
        },
{
    proof {
        reveal_strlit("");
        assert(""@ =~= Seq::<char>::empty());
        assert(suffix@.len() == 0 ==> suffix@ =~= Seq::<char>::empty());
    }
    if suffix.eq("i8") {
        if v <= i8::MAX as u128 {
            Some(Literal::Int8(v as i8))
        } else {
            None
        }
    } else if suffix.eq("i16") {
        if v <= i16::MAX as u128 {
            Some(Literal::Int16(v as i16))
        } else {
            None
        }
    } else if suffix.eq("i64") {
        if v <= i64::MAX as u128 {
            Some(Literal::Int64(v as i64))
        } else {
            None
        }
    } else if suffix.eq("i128") {
        if v <= i128::MAX as u128 {
            Some(Literal::Int128(v as i128))
        } else {
            None
        }
    } else if suffix.eq("isize") {
        if v <= isize::MAX as u128 {
            Some(Literal::Isize(v as isize))
        } else {
            None
        }
    } else if suffix.eq("u8") {
        if v <= u8::MAX as u128 {
            Some(Literal::Uint8(v as u8))
        } else {
            None
        }
    } else if suffix.eq("u16") {
        if v <= u16::MAX as u128 {
            Some(Literal::Uint16(v as u16))
        } else {
            None
        }
    } else if suffix.eq("u32") {
        if v <= u32::MAX as u128 {
            Some(Literal::Uint32(v as u32))
        } else {
            None
        }
    } else if suffix.eq("u64") {
        if v <= u64::MAX as u128 {
            Some(Literal::Uint64(v as u64))
        } else {
            None
        }
    } else if suffix.eq("u128") {
        if v <= u128::MAX as u128 {
            Some(Literal::Uint128(v as u128))
        } else {
            None
        }
    } else if suffix.eq("usize") {
        if v <= usize::MAX as u128 {
            Some(Literal::Usize(v as usize))
        } else {
            None
        }
    } else if suffix.eq("i32") || suffix.eq("") {
        if v <= i32::MAX as u128 {
            Some(Literal::Int32(v as i32))
        } else {
            None
        }
    } else {
        None
    }
}

/// The literal that an integer token's text spells: the value of its digits, of
/// the type that its suffix names, or `i32`. Nothing where the type cannot hold it.
pub fn parse_integer(text: &str) -> (r: Option<Literal>)
    ensures
        match r {
            Some(l) => integer_literal(text@) == Some(l.model()),
            None => integer_literal(text@) is None,
        },
{
    let chars = chars_of(text);
    let (value, end) = magnitude_of(&chars);
    assert(chars@.subrange(end as int, chars@.len() as int) =~= text@.skip(end as int));
    match value {
        Some(v) => {
            let suffix = text_of(&chars, end, chars.len());
            typed_integer_of(suffix.as_str(), v)
        },
        None => None,
    }
}

/// The value that an integer token's text spells, whatever its type.
pub fn parse_integer_value(text: &str) -> (r: Option<u128>)
    ensures
        match r {
            Some(v) => integer_value(text@) == Some(v as nat),
            None => integer_value(text@) matches Some(v) ==> v > u128::MAX,
        },
{
    let chars = chars_of(text);
    let (value, end) = magnitude_of(&chars);
    assert(chars@.subrange(end as int, chars@.len() as int) =~= text@.skip(end as int));
    let suffix = text_of(&chars, end, chars.len());
    if end == chars.len() || is_interger_type(suffix.as_str()) {
        value
    } else {
        None
    }
}

/// The number that decimal digits alone spell.
pub fn parse_decimal(text: &str) -> (r: Option<u128>)
    ensures
        match r {
            Some(v) => decimal_value(text@) == Some(v as nat),
            None => decimal_value(text@) matches Some(v) ==> v > u128::MAX,
        },
{
    let chars = chars_of(text);
    if chars.len() == 0 {
        return None;
    }
    let mut i: usize = 0;
    while i < chars.len()
        invariant
            i <= chars.len(),
            chars@ == text@,
            forall|k: int| 0 <= k < i ==> '0' <= #[trigger] text@[k] && text@[k] <= '9',
        decreases chars.len() - i,
    {
        let c: char = chars[i];
        if !('0' <= c && c <= '9') {
            assert(c == text@[i as int]);
            return None;
        }
        i = i + 1;
    }
    assert(chars@.subrange(0, chars@.len() as int) =~= text@);
    digits_of(&chars, 0, chars.len(), 10)
}

} // verus!
