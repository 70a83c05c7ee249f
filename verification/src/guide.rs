//! Places, literals and patterns as the builder needs them.
use crate::ast::{
    lemma_opt_string_views, lemma_string_string_views, Literal, opt_string_views, Pattern,
    string_string_views, Type,
};
use crate::lowering::{
    int_literal, int_literal_message, list_debug, option_debug, pattern_debug, place_base,
    signed_decimal,
};
use crate::mir::{MirPlace, SsaLocal};
use crate::text::{char_debug_of, decimal, join2, join3, join5, str_debug, str_debug_of};
use vstd::prelude::*;

verus! {

/// The local that a place lies in, if it lies in one.
pub fn place_base_ssa(p: &MirPlace) -> (r: Option<SsaLocal>)
    ensures
        r == place_base(p.model()),
    decreases p,
{
    match p {
        MirPlace::Ssa(s) => Some(*s),
        MirPlace::Static(_) => None,
        MirPlace::Field { base, field } => place_base_ssa(base),
        MirPlace::Index { base, index } => place_base_ssa(base),
        MirPlace::EnumPayload { base, enum_name, variant_name } => place_base_ssa(base),
    }
}

/// A number in decimal, without leading zeros.
fn decimal_wide(n: u128) -> (r: String)
    ensures
        r@ == decimal(n as nat),
    decreases n,
{
    let d: u8 = 48u8 + (n % 10) as u8;
    let mut out: String = if n < 10 {
        String::new()
    } else {
        decimal_wide(n / 10)
    };
    out.push(d as char);
    assert(n < 10 ==> out@ =~= decimal(n as nat));
    out
}

/// An integer in decimal, with its sign where it is negative.
pub fn signed_decimal_of(v: i128) -> (r: String)
    ensures
        r@ == signed_decimal(v),
{
    if v < 0 {
        let n: u128 = if v == i128::MIN {
            0x8000_0000_0000_0000_0000_0000_0000_0000u128
        } else {
            (-v) as u128
        };
        let digits = decimal_wide(n);
        join2("-", digits.as_str())
    } else {
        decimal_wide(v as u128)
    }
}

/// The literal of an integer type, if the value fits.
pub fn int_literal_for_type(v: i128, ty: &Type) -> (r: Result<Literal, String>)
    ensures
        match r {
            Ok(l) => int_literal(v, ty.model()) == Some(l.model()),
            Err(e) => int_literal(v, ty.model()) is None && e@ == int_literal_message(v),
        },
{
    let l: Option<Literal> = match ty {
        Type::I8 => if i8::MIN as i128 <= v && v <= i8::MAX as i128 {
            Some(Literal::Int8(v as i8))
        } else {
            None
        },
        Type::I16 => if i16::MIN as i128 <= v && v <= i16::MAX as i128 {
            Some(Literal::Int16(v as i16))
        } else {
            None
        },
        Type::I32 => if i32::MIN as i128 <= v && v <= i32::MAX as i128 {
            Some(Literal::Int32(v as i32))
        } else {
            None
        },
        Type::I64 => if i64::MIN as i128 <= v && v <= i64::MAX as i128 {
            Some(Literal::Int64(v as i64))
        } else {
            None
        },
        Type::I128 => Some(Literal::Int128(v)),
        Type::ISize => if isize::MIN as i128 <= v && v <= isize::MAX as i128 {
            Some(Literal::Isize(v as isize))
        } else {
            None
        },
        Type::U8 => if 0 <= v && v <= u8::MAX as i128 {
            Some(Literal::Uint8(v as u8))
        } else {
            None
        },
        Type::U16 => if 0 <= v && v <= u16::MAX as i128 {
            Some(Literal::Uint16(v as u16))
        } else {
            None
        },
        Type::U32 => if 0 <= v && v <= u32::MAX as i128 {
            Some(Literal::Uint32(v as u32))
        } else {
            None
        },
        Type::U64 => if 0 <= v && v <= u64::MAX as i128 {
            Some(Literal::Uint64(v as u64))
        } else {
            None
        },
        Type::U128 => if 0 <= v {
            Some(Literal::Uint128(v as u128))
        } else {
            None
        },
        Type::USize => if 0 <= v && v <= usize::MAX as i128 {
            Some(Literal::Usize(v as usize))
        } else {
            None
        },
        _ => None,
    };
    match l {
        Some(l) => Ok(l),
        None => {
            let shown = signed_decimal_of(v);
            Err(join3("integer pattern ", shown.as_str(), " does not fit the matched type"))
        },
    }
}

fn option_debug_of(o: &Option<String>) -> (r: String)
    ensures
        r@ == option_debug(
            match *o {
                Some(s) => Some(s@),
                None => None,
            },
        ),
{
    match o {
        Some(s) => {
            let shown = str_debug_of(s.as_str());
            join3("Some(", shown.as_str(), ")")
        },
        None => "None".to_string(),
    }
}

/// The names of a pattern as messages show them.
fn bindings_debug(list: &Vec<Option<String>>) -> (r: String)
    ensures
        ({
            let views = opt_string_views(list@);
            let items = Seq::new(views.len(), |i: int| option_debug(views[i]));
            r@ == list_debug(items, items.len())
        }),
{
    let ghost views = opt_string_views(list@);
    let ghost items = Seq::new(views.len(), |i: int| option_debug(views[i]));
    proof {
        lemma_opt_string_views(list@);
    }
    let mut out: String = String::new();
    let mut i: usize = 0;
    while i < list.len()
        invariant
            i <= list.len(),
            views.len() == list@.len(),
            items.len() == views.len(),
            forall|k: int|
                0 <= k < list@.len() ==> #[trigger] views[k] == (match list@[k] {
                    Some(y) => Some(y@),
                    None => None,
                }),
            forall|k: int| 0 <= k < items.len() ==> #[trigger] items[k] == option_debug(views[k]),
            out@ == list_debug(items, i as nat),
        decreases list.len() - i,
    {
        let shown = option_debug_of(&list[i]);
        assert(items[i as int] == option_debug(views[i as int]));
        if i == 0 {
            out = shown;
        } else {
            out = join3(out.as_str(), ", ", shown.as_str());
        }
        i = i + 1;
    }
    out
}

/// The fields of a pattern as messages show them.
fn fields_debug(list: &Vec<(String, String)>) -> (r: String)
    ensures
        ({
            let views = string_string_views(list@);
            let items = Seq::new(
                views.len(),
                |i: int| "("@ + str_debug(views[i].0) + ", "@ + str_debug(views[i].1) + ")"@,
            );
            r@ == list_debug(items, items.len())
        }),
{
    let ghost views = string_string_views(list@);
    let ghost items = Seq::new(
        views.len(),
        |i: int| "("@ + str_debug(views[i].0) + ", "@ + str_debug(views[i].1) + ")"@,
    );
    proof {
        lemma_string_string_views(list@);
    }
    let mut out: String = String::new();
    let mut i: usize = 0;
    while i < list.len()
        invariant
            i <= list.len(),
            views.len() == list@.len(),
            items.len() == views.len(),
            forall|k: int|
                0 <= k < list@.len() ==> #[trigger] views[k] == (list@[k].0@, list@[k].1@),
            forall|k: int|
                0 <= k < items.len() ==> #[trigger] items[k] == "("@ + str_debug(views[k].0)
                    + ", "@ + str_debug(views[k].1) + ")"@,
            out@ == list_debug(items, i as nat),
        decreases list.len() - i,
    {
        let a = str_debug_of(list[i].0.as_str());
        let b = str_debug_of(list[i].1.as_str());
        let shown = join5("(", a.as_str(), ", ", b.as_str(), ")");
        assert(views[i as int] == (list@[i as int].0@, list@[i as int].1@));
        assert(items[i as int] == shown@);
        if i == 0 {
            out = shown;
        } else {
            out = join3(out.as_str(), ", ", shown.as_str());
        }
        i = i + 1;
    }
    out
}

/// A pattern as messages show it.
#[verifier::spinoff_prover]
pub fn describe_pattern(p: &Pattern) -> (r: String)
    ensures
        r@ == pattern_debug(p.model()),
{
    match p {
        Pattern::Wildcard => "Wildcard".to_string(),
        Pattern::IntLiteral(v) => {
            let shown = signed_decimal_of(*v);
            join3("IntLiteral(", shown.as_str(), ")")
        },
        Pattern::BoolLiteral(v) => if *v {
            "BoolLiteral(true)".to_string()
        } else {
            "BoolLiteral(false)".to_string()
        },
        Pattern::CharLiteral(c) => {
            let shown = char_debug_of(*c);
            join3("CharLiteral(", shown.as_str(), ")")
        },
        Pattern::EnumVariant { enum_name, variant_name } => {
            let a = str_debug_of(enum_name.as_str());
            let b = str_debug_of(variant_name.as_str());
            join5(
                "EnumVariant { enum_name: ",
                a.as_str(),
                ", variant_name: ",
                b.as_str(),
                " }",
            )
        },
        Pattern::EnumVariantWithBinding { enum_name, variant_name, binding } => {
            let a = str_debug_of(enum_name.as_str());
            let b = str_debug_of(variant_name.as_str());
            let c = str_debug_of(binding.as_str());
            join5(
                "EnumVariantWithBinding { enum_name: ",
                a.as_str(),
                ", variant_name: ",
                b.as_str(),
                ", binding: ",
            ).concat(c.as_str()).concat(" }")
        },
        Pattern::Struct { name, fields } => {
            let a = str_debug_of(name.as_str());
            let b = fields_debug(fields);
            join5("Struct { name: ", a.as_str(), ", fields: [", b.as_str(), "] }")
        },
        Pattern::Tuple(list) => {
            let a = bindings_debug(list);
            join3("Tuple([", a.as_str(), "])")
        },
        Pattern::Array(list) => {
            let a = bindings_debug(list);
            join3("Array([", a.as_str(), "])")
        },
    }
}

} // verus!
