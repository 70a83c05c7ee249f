//! How numbers and the names of types are written, and that they are read back.
use crate::ast::{LiteralView, TypeView};
use crate::lexical::{Class, hex_digit_value, in_class, integer_type, run_end};
use crate::literal::{digits_value, integer_literal, radix_class, radix_of, typed_integer};
use crate::meaning::{Scalar, scalar_of};
use crate::syntactic::grammar::primitive;
use crate::text::Chars;
use crate::token::Token;
use vstd::prelude::*;

verus! {

/// The character of a digit.
pub open spec fn digit_char(d: nat) -> char {
    if d == 0 {
        '0'
    } else if d == 1 {
        '1'
    } else if d == 2 {
        '2'
    } else if d == 3 {
        '3'
    } else if d == 4 {
        '4'
    } else if d == 5 {
        '5'
    } else if d == 6 {
        '6'
    } else if d == 7 {
        '7'
    } else if d == 8 {
        '8'
    } else if d == 9 {
        '9'
    } else if d == 10 {
        'a'
    } else if d == 11 {
        'b'
    } else if d == 12 {
        'c'
    } else if d == 13 {
        'd'
    } else if d == 14 {
        'e'
    } else {
        'f'
    }
}

/// A number in that radix, without zeros before it.
pub open spec fn digits_of(v: nat, radix: nat) -> Chars
    decreases v,
{
    proof {
        lemma_quotient(v, radix);
    }
    if v < radix || radix < 2 {
        seq![digit_char(v)]
    } else {
        digits_of(v / radix, radix).push(digit_char(v % radix))
    }
}

pub proof fn lemma_quotient(v: nat, radix: nat)
    ensures
        v >= radix && radix >= 2 ==> v / radix < v,
{
    if v >= radix && radix >= 2 {
        assert(v / radix < v) by (nonlinear_arith)
            requires
                v >= radix,
                radix >= 2,
        ;
    }
}

/// What stands before the digits.
pub open spec fn radix_mark(radix: nat) -> Chars {
    if radix == 16 {
        seq!['0', 'x']
    } else if radix == 2 {
        seq!['0', 'b']
    } else if radix == 8 {
        seq!['0', 'o']
    } else {
        Seq::empty()
    }
}

/// The largest number of the type that a suffix names, `i32` where there is none.
pub open spec fn suffix_limit(t: Chars) -> int {
    if t == "u8"@ {
        0xff
    } else if t == "u16"@ {
        0xffff
    } else if t == "u32"@ {
        0xffff_ffff
    } else if t == "u64"@ {
        0xffff_ffff_ffff_ffff
    } else if t == "u128"@ {
        0xffff_ffff_ffff_ffff_ffff_ffff_ffff_ffff
    } else if t == "usize"@ {
        usize::MAX as int
    } else if t == "i8"@ {
        0x7f
    } else if t == "i16"@ {
        0x7fff
    } else if t == "i64"@ {
        0x7fff_ffff_ffff_ffff
    } else if t == "i128"@ {
        0x7fff_ffff_ffff_ffff_ffff_ffff_ffff_ffff
    } else if t == "isize"@ {
        isize::MAX as int
    } else {
        0x7fff_ffff
    }
}

/// The name of the type of a whole number.
pub open spec fn suffix_of(l: LiteralView) -> Chars {
    match l {
        LiteralView::Int8(_) => "i8"@,
        LiteralView::Int16(_) => "i16"@,
        LiteralView::Int32(_) => "i32"@,
        LiteralView::Int64(_) => "i64"@,
        LiteralView::Int128(_) => "i128"@,
        LiteralView::Isize(_) => "isize"@,
        LiteralView::Uint8(_) => "u8"@,
        LiteralView::Uint16(_) => "u16"@,
        LiteralView::Uint32(_) => "u32"@,
        LiteralView::Uint64(_) => "u64"@,
        LiteralView::Uint128(_) => "u128"@,
        LiteralView::Usize(_) => "usize"@,
        _ => Seq::empty(),
    }
}

proof fn lemma_digit(d: nat, radix: nat)
    requires
        d < radix,
        radix == 2 || radix == 8 || radix == 10 || radix == 16,
    ensures
        hex_digit_value(digit_char(d)) == d,
        digit_char(d) != '_',
        in_class(radix_class(radix), digit_char(d)),
        digit_char(d) == '0' <==> d == 0,
{
}

pub(crate) proof fn lemma_digits(v: nat, radix: nat)
    requires
        radix == 2 || radix == 8 || radix == 10 || radix == 16,
    ensures
        ({
            let s = digits_of(v, radix);
            &&& s.len() > 0
            &&& digits_value(s, radix) == v
            &&& forall|k: int| 0 <= k < s.len() ==> in_class(radix_class(radix), #[trigger] s[k])
            &&& forall|k: int| 0 <= k < s.len() ==> #[trigger] s[k] != '_'
            &&& s.len() > 1 ==> s[0] != '0'
            &&& v > 0 ==> s[0] != '0'
        }),
    decreases v,
{
    let s = digits_of(v, radix);
    if v < radix {
        lemma_digit(v, radix);
        assert(s.drop_last() =~= Seq::<char>::empty());
        assert(digits_value(s.drop_last(), radix) == 0);
        assert(0 * radix == 0);
    } else {
        let q = v / radix;
        let d = v % radix;
        assert(q < v && 0 < q && v == q * radix + d && d < radix) by (nonlinear_arith)
            requires
                q == v / radix,
                d == v % radix,
                v >= radix,
                radix >= 2,
        ;
        lemma_digits(q, radix);
        lemma_digit(d, radix);
        assert(s.drop_last() =~= digits_of(q, radix));
        assert forall|k: int| 0 <= k < s.len() implies in_class(
            radix_class(radix),
            #[trigger] s[k],
        ) && s[k] != '_' by {
            if k < s.len() - 1 {
                assert(s[k] == digits_of(q, radix)[k]);
            }
        }
        assert(s[0] == digits_of(q, radix)[0]);
    }
}

pub(crate) proof fn lemma_run(s: Chars, i: int, n: int, class: Class)
    requires
        0 <= i <= n <= s.len(),
        forall|k: int| i <= k < n ==> in_class(class, #[trigger] s[k]),
        n < s.len() ==> !in_class(class, s[n]),
    ensures
        run_end(s, i, class) == n,
    decreases n - i,
{
    if i < n {
        lemma_run(s, i + 1, n, class);
    }
}

#[verifier::spinoff_prover]
#[verifier::rlimit(40)]
proof fn lemma_suffix(t: Chars)
    requires
        t.len() == 0 || integer_type(t),
    ensures
        t.len() > 0 ==> t[0] == 'i' || t[0] == 'u',
{
    reveal_strlit("u8");
    reveal_strlit("u16");
    reveal_strlit("u32");
    reveal_strlit("u64");
    reveal_strlit("u128");
    reveal_strlit("usize");
    reveal_strlit("i8");
    reveal_strlit("i16");
    reveal_strlit("i32");
    reveal_strlit("i64");
    reveal_strlit("i128");
    reveal_strlit("isize");
}

#[verifier::spinoff_prover]
#[verifier::rlimit(80)]
proof fn lemma_typed_integer(t: Chars, v: nat)
    requires
        t.len() == 0 || integer_type(t),
    ensures
        match typed_integer(t, v) {
            Some(l) => v <= suffix_limit(t) && scalar_of(l) == Scalar::Int(v as int) && suffix_of(l)
                == (if t.len() == 0 {
                "i32"@
            } else {
                t
            }),
            None => v > suffix_limit(t),
        },
{
    reveal_strlit("u8");
    reveal_strlit("u16");
    reveal_strlit("u32");
    reveal_strlit("u64");
    reveal_strlit("u128");
    reveal_strlit("usize");
    reveal_strlit("i8");
    reveal_strlit("i16");
    reveal_strlit("i32");
    reveal_strlit("i64");
    reveal_strlit("i128");
    reveal_strlit("isize");
    assert("u8"@[0] == 'u' && "i8"@[0] == 'i');
    assert("u16"@[0] == 'u' && "u16"@[1] == '1');
    assert("u32"@[0] == 'u' && "u32"@[1] == '3');
    assert("u64"@[0] == 'u' && "u64"@[1] == '6');
    assert("i16"@[0] == 'i' && "i16"@[1] == '1');
    assert("i32"@[0] == 'i' && "i32"@[1] == '3');
    assert("i64"@[0] == 'i' && "i64"@[1] == '6');
    assert("u128"@[0] == 'u' && "i128"@[0] == 'i');
    assert("usize"@[0] == 'u' && "isize"@[0] == 'i');
}

/// A whole number that is written in a radix, with the name of its type behind it or none,
/// is read as that number and of that type, `i32` where none is named; it is refused just
/// where the type does not hold it.
pub proof fn written_number_is_read_back(v: nat, radix: nat, suffix: Chars)
    requires
        radix == 2 || radix == 8 || radix == 10 || radix == 16,
        suffix.len() == 0 || integer_type(suffix),
    ensures
        match integer_literal(radix_mark(radix) + digits_of(v, radix) + suffix) {
            Some(l) => v <= suffix_limit(suffix) && scalar_of(l) == Scalar::Int(v as int)
                && suffix_of(l) == (if suffix.len() == 0 {
                "i32"@
            } else {
                suffix
            }),
            None => v > suffix_limit(suffix),
        },
{
    let m = radix_mark(radix);
    let d = digits_of(v, radix);
    let s = m + d + suffix;
    let a = m.len() as int;
    let b = a + d.len();
    lemma_digits(v, radix);
    lemma_suffix(suffix);
    if radix == 10 {
        assert(s[0] == d[0]);
        if s.len() >= 2 && s[0] == '0' {
            assert(d.len() == 1);
            assert(s[1] == suffix[0]);
        }
    } else {
        assert(s[0] == m[0] && s[1] == m[1]);
    }
    assert(radix_of(s) == radix);
    assert forall|k: int| a <= k < b implies in_class(radix_class(radix), #[trigger] s[k]) by {
        assert(s[k] == d[k - a]);
    }
    if b < s.len() {
        assert(s[b] == suffix[0]);
    }
    lemma_run(s, a, b, radix_class(radix));
    assert(s.subrange(a, b) =~= d);
    assert(s.skip(b) =~= suffix);
    lemma_typed_integer(suffix, v);
}

/// The name of a type that is a keyword.
pub open spec fn name_of_type(t: TypeView) -> Option<Chars> {
    match t {
        TypeView::I8 => Some("i8"@),
        TypeView::I16 => Some("i16"@),
        TypeView::I32 => Some("i32"@),
        TypeView::I64 => Some("i64"@),
        TypeView::I128 => Some("i128"@),
        TypeView::ISize => Some("isize"@),
        TypeView::U8 => Some("u8"@),
        TypeView::U16 => Some("u16"@),
        TypeView::U32 => Some("u32"@),
        TypeView::U64 => Some("u64"@),
        TypeView::U128 => Some("u128"@),
        TypeView::USize => Some("usize"@),
        TypeView::F16 => Some("f16"@),
        TypeView::F32 => Some("f32"@),
        TypeView::F64 => Some("f64"@),
        TypeView::Bool => Some("bool"@),
        TypeView::Char => Some("char"@),
        TypeView::Str => Some("str"@),
        TypeView::Bytes => Some("bytes"@),
        TypeView::Never => Some("never"@),
        TypeView::SelfType => Some("Self"@),
        _ => None,
    }
}

/// A keyword that is read as a type is spelled as that type's name.
pub proof fn type_keywords_are_spelled_alike(t: Token)
    ensures
        primitive(t) matches Some(ty) ==> name_of_type(ty) == Some(t.fixed_text()),
{
    reveal(primitive);
    reveal(Token::fixed_text);
}

} // verus!
