//! How patterns are written, and that the parser reads them back.
use crate::ast::PatternView;
use crate::literal::integer_value;
use crate::syntactic::grammar::{
    bindings, field_patterns, integer_pattern, is_integer, is_name, is_token, name_pattern, ok,
    pattern, relay, St, Words,
};
use crate::syntactic::printing::{
    Ink, lemma_first, lemma_mark, lemma_name, lemma_stands, mark, name_word, stands,
};
use crate::syntactic::steps::token_is;
use crate::text::Chars;
use crate::token::Token;
use vstd::prelude::*;

verus! {

/// A pattern as it is written.
pub enum Shape {
    /// `_`.
    Any,
    /// An integer, with a minus sign or without.
    Int(bool, Chars),
    Bool(bool),
    Char(char),
    Variant(Chars, Chars),
    VariantWith(Chars, Chars, Chars),
    Tuple(Seq<Option<Chars>>),
    Array(Seq<Option<Chars>>),
    Struct(Chars, Seq<(Chars, Chars)>),
}

/// A name, or an underscore where there is none.
pub open spec fn write_binding(ink: Ink, x: Option<Chars>) -> Words {
    match x {
        Some(name) => name_word(ink, name),
        None => name_word(ink, "_"@),
    }
}

/// Names from the `i`-th on, with commas between them, and the token that closes them.
pub open spec fn write_bindings(ink: Ink, list: Seq<Option<Chars>>, i: nat, close: Token) -> Words
    decreases list.len() - i,
{
    if i >= list.len() {
        mark(close)
    } else if i + 1 == list.len() {
        write_binding(ink, list[i as int]) + mark(close)
    } else {
        write_binding(ink, list[i as int]) + (mark(Token::Comma) + write_bindings(
            ink,
            list,
            i + 1,
            close,
        ))
    }
}

/// Fields with their names from the `i`-th on, each with a comma, and the brace that closes
/// them.
pub open spec fn write_fields(ink: Ink, list: Seq<(Chars, Chars)>, i: nat) -> Words
    decreases list.len() - i,
{
    if i >= list.len() {
        mark(Token::RBrace)
    } else {
        name_word(ink, list[i as int].0) + (mark(Token::Colon) + (name_word(ink, list[i as int].1)
            + (mark(Token::Comma) + write_fields(ink, list, i + 1))))
    }
}

/// The words of a pattern.
pub open spec fn write_pattern(ink: Ink, x: Shape) -> Words {
    match x {
        Shape::Any => name_word(ink, "_"@),
        Shape::Int(negative, text) => {
            let number = seq![(Token::Integer((ink.span)(text)), text)];
            if negative {
                mark(Token::Minus) + number
            } else {
                number
            }
        },
        Shape::Bool(true) => mark(Token::True),
        Shape::Bool(false) => mark(Token::False),
        Shape::Char(c) => seq![(Token::CharLiteral((ink.span)(seq![c])), seq![c])],
        Shape::Variant(owner, name) => name_word(ink, owner) + (mark(Token::PathSep) + name_word(
            ink,
            name,
        )),
        Shape::VariantWith(owner, name, binding) => name_word(ink, owner) + (mark(Token::PathSep) + (
        name_word(ink, name) + (mark(Token::LParen) + (name_word(ink, binding) + mark(
            Token::RParen,
        ))))),
        Shape::Tuple(list) => mark(Token::LParen) + write_bindings(ink, list, 0, Token::RParen),
        Shape::Array(list) => mark(Token::LBracket) + write_bindings(ink, list, 0, Token::RBracket),
        Shape::Struct(name, fields) => name_word(ink, name) + (mark(Token::LBrace) + write_fields(
            ink,
            fields,
            0,
        )),
    }
}

/// Whether no name of a list is the underscore, which stands for none.
pub open spec fn real_names(list: Seq<Option<Chars>>) -> bool {
    forall|k: int| 0 <= k < list.len() ==> #[trigger] list[k] != Some("_"@)
}

/// Whether a pattern can be written.
pub open spec fn can_match(x: Shape) -> bool {
    match x {
        Shape::Int(negative, text) => match integer_value(text) {
            None => false,
            Some(v) => if negative {
                0 - v >= i128::MIN
            } else {
                v <= i128::MAX
            },
        },
        Shape::Variant(owner, _) => owner != "_"@,
        Shape::VariantWith(owner, _, _) => owner != "_"@,
        Shape::Tuple(list) => real_names(list),
        Shape::Array(list) => real_names(list),
        Shape::Struct(name, _) => name != "_"@,
        _ => true,
    }
}

/// Whether a pattern is that one.
pub open spec fn is_pattern(p: PatternView, x: Shape) -> bool {
    match x {
        Shape::Any => p is Wildcard,
        Shape::Int(negative, text) => p matches PatternView::IntLiteral(v) && integer_value(text)
            == Some(
            (if negative {
                0 - v
            } else {
                v as int
            }) as nat,
        ) && (negative ==> v <= 0) && (!negative ==> v >= 0),
        Shape::Bool(v) => p == PatternView::BoolLiteral(v),
        Shape::Char(c) => p == PatternView::CharLiteral(c),
        Shape::Variant(owner, name) => p matches PatternView::EnumVariant {
            enum_name,
            variant_name,
        } && enum_name == owner && variant_name == name,
        Shape::VariantWith(owner, name, x) => p matches PatternView::EnumVariantWithBinding {
            enum_name,
            variant_name,
            binding,
        } && enum_name == owner && variant_name == name && binding == x,
        Shape::Tuple(list) => p matches PatternView::Tuple(xs) && xs == list,
        Shape::Array(list) => p matches PatternView::Array(xs) && xs == list,
        Shape::Struct(name, list) => p matches PatternView::Struct { name: name1, fields } && name1
            == name && fields == list,
    }
}

#[verifier::rlimit(40)]
proof fn lemma_reads_bindings(
    ts: Words,
    p: St,
    ink: Ink,
    list: Seq<Option<Chars>>,
    i: nat,
    close: Token,
    done: Seq<Option<Chars>>,
)
    requires
        i <= list.len(),
        real_names(list),
        done == list.take(i as int),
        close == Token::RParen || close == Token::RBracket,
        stands(ts, p.pos, write_bindings(ink, list, i, close)),
    ensures
        bindings(ts, p, close, done) == ok(
            p,
            (St { pos: p.pos + write_bindings(ink, list, i, close).len(), ..p }),
            list,
        ),
    decreases list.len() - i,
{
    reveal(is_token);
    reveal(is_name);
    reveal(bindings);
    if i >= list.len() {
        lemma_mark(ts, p.pos, close);
        assert(list.take(i as int) =~= list);
    } else {
        let x = list[i as int];
        let name = match x {
            Some(name) => name,
            None => "_"@,
        };
        let more = done.push(x);
        assert(more =~= list.take(i as int + 1));
        let rest = if i + 1 == list.len() {
            mark(close)
        } else {
            mark(Token::Comma) + write_bindings(ink, list, i + 1, close)
        };
        lemma_stands(ts, p.pos, name_word(ink, name), rest);
        lemma_name(ts, p.pos, ink, name);
        let p1 = p.step();
        if i + 1 == list.len() {
            lemma_mark(ts, p1.pos, close);
            assert(list.take(i as int + 1) =~= list);
        } else {
            let tail = write_bindings(ink, list, i + 1, close);
            lemma_stands(ts, p1.pos, mark(Token::Comma), tail);
            lemma_mark(ts, p1.pos, Token::Comma);
            lemma_reads_bindings(ts, p1.step(), ink, list, i + 1, close, more);
            assert(bindings(ts, p, close, done) == relay(
                p,
                p1.step(),
                bindings(ts, p1.step(), close, more),
            ));
        }
    }
}

#[verifier::rlimit(40)]
proof fn lemma_reads_fields(
    ts: Words,
    p: St,
    ink: Ink,
    list: Seq<(Chars, Chars)>,
    i: nat,
    done: Seq<(Chars, Chars)>,
)
    requires
        i <= list.len(),
        done == list.take(i as int),
        stands(ts, p.pos, write_fields(ink, list, i)),
    ensures
        field_patterns(ts, p, done) == ok(
            p,
            (St { pos: p.pos + write_fields(ink, list, i).len(), ..p }),
            list,
        ),
    decreases list.len() - i,
{
    reveal(is_token);
    reveal(is_name);
    reveal(field_patterns);
    if i >= list.len() {
        lemma_mark(ts, p.pos, Token::RBrace);
        assert(list.take(i as int) =~= list);
    } else {
        let (field, name) = list[i as int];
        let more = done.push((field, name));
        assert(more =~= list.take(i as int + 1));
        let d = write_fields(ink, list, i + 1);
        let c = mark(Token::Comma) + d;
        let b = name_word(ink, name) + c;
        let a = mark(Token::Colon) + b;
        lemma_stands(ts, p.pos, name_word(ink, field), a);
        lemma_name(ts, p.pos, ink, field);
        lemma_stands(ts, p.pos + 1, mark(Token::Colon), b);
        lemma_mark(ts, p.pos + 1, Token::Colon);
        lemma_stands(ts, p.pos + 2, name_word(ink, name), c);
        lemma_name(ts, p.pos + 2, ink, name);
        lemma_stands(ts, p.pos + 3, mark(Token::Comma), d);
        lemma_mark(ts, p.pos + 3, Token::Comma);
        let p3 = p.step().step().step().step();
        lemma_reads_fields(ts, p3, ink, list, i + 1, more);
        assert(field_patterns(ts, p, done) == relay(p, p3, field_patterns(ts, p3, more)));
    }
}

/// What is written as a pattern is read as that pattern.
#[verifier::spinoff_prover]
#[verifier::rlimit(80)]
pub proof fn written_pattern_is_read_back(ts: Words, p: St, ink: Ink, x: Shape)
    requires
        can_match(x),
        stands(ts, p.pos, write_pattern(ink, x)),
        !token_is(ts, p.pos + write_pattern(ink, x).len(), Token::LParen),
    ensures
        ({
            let o = pattern(ts, p);
            &&& o.res matches Ok(q) && is_pattern(q, x)
            &&& o.adv == write_pattern(ink, x).len()
            &&& o.ids == p.ids
            &&& o.no_struct == p.no_struct
            &&& o.scopes == p.scopes
        }),
{
    reveal(is_token);
    reveal(is_name);
    reveal(is_integer);
    reveal(pattern);
    let w = write_pattern(ink, x);
    match x {
        Shape::Any => {
            lemma_name(ts, p.pos, ink, "_"@);
            reveal(name_pattern);
        },
        Shape::Int(negative, text) => {
            let number = seq![(Token::Integer((ink.span)(text)), text)];
            reveal(integer_pattern);
            if negative {
                lemma_stands(ts, p.pos, mark(Token::Minus), number);
                lemma_mark(ts, p.pos, Token::Minus);
                lemma_first(ts, p.pos + 1, number);
            } else {
                lemma_first(ts, p.pos, number);
            }
        },
        Shape::Bool(v) => {
            lemma_mark(
                ts,
                p.pos,
                if v {
                    Token::True
                } else {
                    Token::False
                },
            );
        },
        Shape::Char(c) => {
            lemma_first(ts, p.pos, w);
        },
        Shape::Variant(owner, name) => {
            reveal(name_pattern);
            let rest = mark(Token::PathSep) + name_word(ink, name);
            lemma_stands(ts, p.pos, name_word(ink, owner), rest);
            lemma_name(ts, p.pos, ink, owner);
            lemma_stands(ts, p.pos + 1, mark(Token::PathSep), name_word(ink, name));
            lemma_mark(ts, p.pos + 1, Token::PathSep);
            lemma_name(ts, p.pos + 2, ink, name);
        },
        Shape::VariantWith(owner, name, binding) => {
            reveal(name_pattern);
            let d = name_word(ink, binding) + mark(Token::RParen);
            let c = mark(Token::LParen) + d;
            let b = name_word(ink, name) + c;
            let a = mark(Token::PathSep) + b;
            lemma_stands(ts, p.pos, name_word(ink, owner), a);
            lemma_name(ts, p.pos, ink, owner);
            lemma_stands(ts, p.pos + 1, mark(Token::PathSep), b);
            lemma_mark(ts, p.pos + 1, Token::PathSep);
            lemma_stands(ts, p.pos + 2, name_word(ink, name), c);
            lemma_name(ts, p.pos + 2, ink, name);
            lemma_stands(ts, p.pos + 3, mark(Token::LParen), d);
            lemma_mark(ts, p.pos + 3, Token::LParen);
            lemma_stands(ts, p.pos + 4, name_word(ink, binding), mark(Token::RParen));
            lemma_name(ts, p.pos + 4, ink, binding);
            lemma_mark(ts, p.pos + 5, Token::RParen);
        },
        Shape::Tuple(list) => {
            let rest = write_bindings(ink, list, 0, Token::RParen);
            lemma_stands(ts, p.pos, mark(Token::LParen), rest);
            lemma_mark(ts, p.pos, Token::LParen);
            assert(list.take(0) =~= Seq::<Option<Chars>>::empty());
            lemma_reads_bindings(ts, p.step(), ink, list, 0, Token::RParen, Seq::empty());
        },
        Shape::Array(list) => {
            let rest = write_bindings(ink, list, 0, Token::RBracket);
            lemma_stands(ts, p.pos, mark(Token::LBracket), rest);
            lemma_mark(ts, p.pos, Token::LBracket);
            assert(list.take(0) =~= Seq::<Option<Chars>>::empty());
            lemma_reads_bindings(ts, p.step(), ink, list, 0, Token::RBracket, Seq::empty());
        },
        Shape::Struct(name, fields) => {
            reveal(name_pattern);
            let b = write_fields(ink, fields, 0);
            lemma_stands(ts, p.pos, name_word(ink, name), mark(Token::LBrace) + b);
            lemma_name(ts, p.pos, ink, name);
            lemma_stands(ts, p.pos + 1, mark(Token::LBrace), b);
            lemma_mark(ts, p.pos + 1, Token::LBrace);
            assert(fields.take(0) =~= Seq::<(Chars, Chars)>::empty());
            lemma_reads_fields(ts, p.step().step(), ink, fields, 0, Seq::empty());
        },
    }
}

} // verus!
