//! How items are written, and that the parser reads them back.
use crate::ast::{
    ConstDefView, EnumDefView, EnumVariantDefView, FnDefView, FnSigView, ItemView, ParamView,
    StructDefView, TypeView,
};
use crate::syntactic::grammar::{
    attributes, block, const_def, definition, enum_def, expr, field_defs, fn_def, fn_head, fn_tail,
    generic_params, is_name, is_token, item, items, ok, optional_type, param_names, params, payload,
    primitive, program, relay, St, struct_def, ty, variant_defs, Words,
};
use crate::syntactic::printing::{
    Ink, is_tree, lemma_first, lemma_mark, lemma_name, lemma_stands, mark, name_word, print, stands,
    Tree, writable,
};
use crate::syntactic::sentences::{
    are_sentences, can_write_all, lemma_reads_before, lemma_reads_block, moves, Sentence,
    write_block,
};
use crate::syntactic::steps::{name_is, step_type, token_is};
use crate::text::Chars;
use crate::token::Token;
use vstd::prelude::*;

verus! {

/// An item without the numbers of its expressions.
pub enum Decl {
    Fn { name: Chars, params: Seq<(Chars, Token)>, ret: Option<Token>, body: Seq<Sentence> },
    Struct { name: Chars, fields: Seq<(Chars, Token)> },
    Enum { name: Chars, variants: Seq<(Chars, Option<Token>)> },
    Const { name: Chars, ty: Token, value: Tree },
}

/// A name and its type.
pub open spec fn write_typed(ink: Ink, x: (Chars, Token)) -> Words {
    name_word(ink, x.0) + (mark(Token::Colon) + mark(x.1))
}

/// Names and types from the `i`-th on, with commas between them.
pub open spec fn write_typed_list(ink: Ink, list: Seq<(Chars, Token)>, i: nat) -> Words
    decreases list.len() - i,
{
    if i >= list.len() {
        Seq::empty()
    } else if i + 1 == list.len() {
        write_typed(ink, list[i as int])
    } else {
        write_typed(ink, list[i as int]) + (mark(Token::Comma) + write_typed_list(ink, list, i + 1))
    }
}

/// A variant, with the type of its value in parentheses.
pub open spec fn write_variant(ink: Ink, x: (Chars, Option<Token>)) -> Words {
    match x.1 {
        Some(t) => name_word(ink, x.0) + (mark(Token::LParen) + (mark(t) + mark(Token::RParen))),
        None => name_word(ink, x.0),
    }
}

/// Variants from the `i`-th on, with commas between them.
pub open spec fn write_variants(ink: Ink, list: Seq<(Chars, Option<Token>)>, i: nat) -> Words
    decreases list.len() - i,
{
    if i >= list.len() {
        Seq::empty()
    } else if i + 1 == list.len() {
        write_variant(ink, list[i as int])
    } else {
        write_variant(ink, list[i as int]) + (mark(Token::Comma) + write_variants(ink, list, i + 1))
    }
}

/// The words of an item.
pub open spec fn write_decl(ink: Ink, d: Decl) -> Words {
    match d {
        Decl::Fn { name, params, ret, body } => mark(Token::Fn) + (name_word(ink, name) + (mark(
            Token::LParen,
        ) + (write_typed_list(ink, params, 0) + (mark(Token::RParen) + match ret {
            Some(t) => mark(Token::Arrow) + (mark(t) + write_block(ink, body)),
            None => write_block(ink, body),
        })))),
        Decl::Struct { name, fields } => mark(Token::Struct) + (name_word(ink, name) + (mark(
            Token::LBrace,
        ) + (write_typed_list(ink, fields, 0) + mark(Token::RBrace)))),
        Decl::Enum { name, variants } => mark(Token::Enum) + (name_word(ink, name) + (mark(
            Token::LBrace,
        ) + (write_variants(ink, variants, 0) + mark(Token::RBrace)))),
        Decl::Const { name, ty, value } => mark(Token::Const) + (name_word(ink, name) + (mark(
            Token::Colon,
        ) + (mark(ty) + (mark(Token::Eq) + (print(ink, value, 8) + mark(Token::Semicolon)))))),
    }
}

/// Items from the `i`-th on.
pub open spec fn write_decls(ink: Ink, list: Seq<Decl>, i: nat) -> Words
    decreases list.len() - i,
{
    if i >= list.len() {
        Seq::empty()
    } else {
        write_decl(ink, list[i as int]) + write_decls(ink, list, i + 1)
    }
}

/// Whether the types of a list are keywords.
pub open spec fn typed_by_keywords(list: Seq<(Chars, Token)>) -> bool {
    forall|k: int| 0 <= k < list.len() ==> primitive((#[trigger] list[k]).1) is Some
}

/// Whether an item can be written.
pub open spec fn can_declare(d: Decl) -> bool {
    match d {
        Decl::Fn { name, params, ret, body } => typed_by_keywords(params) && (ret matches Some(t)
            ==> primitive(t) is Some) && can_write_all(body, 0),
        Decl::Struct { name, fields } => typed_by_keywords(fields),
        Decl::Enum { name, variants } => forall|k: int|
            0 <= k < variants.len() ==> ((#[trigger] variants[k]).1 matches Some(t) ==> primitive(t)
                is Some),
        Decl::Const { name, ty, value } => primitive(ty) is Some && writable(value),
    }
}

/// Whether parameters or fields are those names with those types.
pub open spec fn are_typed(ps: Seq<ParamView>, list: Seq<(Chars, Token)>) -> bool {
    &&& ps.len() == list.len()
    &&& forall|k: int|
        0 <= k < list.len() ==> (#[trigger] ps[k]).name == list[k].0 && Some(ps[k].ty) == primitive(
            list[k].1,
        )
}

/// The type that a keyword may name.
pub open spec fn keyword_type(t: Option<Token>) -> Option<TypeView> {
    match t {
        Some(x) => primitive(x),
        None => None,
    }
}

/// Whether an item is that one, whatever the numbers of its expressions are.
pub open spec fn is_decl(x: ItemView, d: Decl) -> bool {
    match d {
        Decl::Fn { name, params, ret, body } => x matches ItemView::FnDef(f) && f.name == name
            && f.attributes.len() == 0 && f.generic_params.len() == 0 && are_typed(
            f.params,
            params,
        ) && f.return_type == keyword_type(ret) && are_sentences(f.body.stmts, body),
        Decl::Struct { name, fields } => x matches ItemView::StructDef(s) && s.name == name
            && s.generic_params.len() == 0 && are_typed(s.fields, fields),
        Decl::Enum { name, variants } => x matches ItemView::EnumDef(e) && e.name == name
            && e.generic_params.len() == 0 && e.variants.len() == variants.len() && forall|k: int|
            0 <= k < variants.len() ==> (#[trigger] e.variants[k]).name == variants[k].0
                && e.variants[k].ty == keyword_type(variants[k].1),
        Decl::Const { name, ty, value } => x matches ItemView::ConstDef(c) && c.name == name && Some(
            c.ty,
        ) == primitive(ty) && is_tree(c.value, value),
    }
}

/// A name and its type stand at a place.
proof fn lemma_typed(ts: Words, at: nat, ink: Ink, x: (Chars, Token))
    requires
        stands(ts, at, write_typed(ink, x)),
    ensures
        name_is(ts, at, x.0),
        token_is(ts, at + 1, Token::Colon),
        token_is(ts, at + 2, x.1),
        write_typed(ink, x).len() == 3,
{
    lemma_stands(ts, at, name_word(ink, x.0), mark(Token::Colon) + mark(x.1));
    lemma_name(ts, at, ink, x.0);
    lemma_stands(ts, at + 1, mark(Token::Colon), mark(x.1));
    lemma_mark(ts, at + 1, Token::Colon);
    lemma_mark(ts, at + 2, x.1);
}

#[verifier::rlimit(40)]
proof fn lemma_reads_params(
    ts: Words,
    p: St,
    ink: Ink,
    list: Seq<(Chars, Token)>,
    i: nat,
    done: Seq<ParamView>,
)
    requires
        i <= list.len(),
        typed_by_keywords(list),
        are_typed(done, list.take(i as int)),
        stands(ts, p.pos, write_typed_list(ink, list, i)),
        token_is(ts, p.pos + write_typed_list(ink, list, i).len(), Token::RParen),
    ensures
        moves(params(ts, p, done), p, write_typed_list(ink, list, i).len()),
        params(ts, p, done).ids == p.ids,
        are_typed(params(ts, p, done).res->Ok_0, list),
    decreases list.len() - i,
{
    reveal(is_token);
    reveal(is_name);
    reveal(params);
    if i >= list.len() {
        assert(list.take(i as int) =~= list);
    } else {
        let x = list[i as int];
        let a = write_typed(ink, x);
        let last = i + 1 == list.len();
        if !last {
            let rest = write_typed_list(ink, list, i + 1);
            lemma_stands(ts, p.pos, a, mark(Token::Comma) + rest);
            lemma_typed(ts, p.pos, ink, x);
            lemma_stands(ts, p.pos + 3, mark(Token::Comma), rest);
            lemma_mark(ts, p.pos + 3, Token::Comma);
        } else {
            lemma_typed(ts, p.pos, ink, x);
        }
        let p2 = p.step().step();
        step_type(ts, p2, x.1);
        let more = done.push(ParamView { name: x.0, ty: primitive(x.1)->0 });
        assert(list.take(i as int + 1) =~= list.take(i as int).push(x));
        let p3 = p2.step();
        if last {
            assert(list.take(i as int + 1) =~= list);
            assert(params(ts, p, done) == ok(p, p3, more));
        } else {
            lemma_reads_params(ts, p3.step(), ink, list, i + 1, more);
            assert(params(ts, p, done) == relay(p, p3.step(), params(ts, p3.step(), more)));
        }
    }
}

#[verifier::rlimit(40)]
proof fn lemma_reads_fields(
    ts: Words,
    p: St,
    ink: Ink,
    list: Seq<(Chars, Token)>,
    i: nat,
    done: Seq<ParamView>,
)
    requires
        i <= list.len(),
        typed_by_keywords(list),
        are_typed(done, list.take(i as int)),
        stands(ts, p.pos, write_typed_list(ink, list, i)),
        token_is(ts, p.pos + write_typed_list(ink, list, i).len(), Token::RBrace),
    ensures
        moves(field_defs(ts, p, done), p, write_typed_list(ink, list, i).len()),
        are_typed(field_defs(ts, p, done).res->Ok_0, list),
    decreases list.len() - i,
{
    reveal(is_token);
    reveal(is_name);
    reveal(field_defs);
    if i >= list.len() {
        assert(list.take(i as int) =~= list);
    } else {
        let x = list[i as int];
        let a = write_typed(ink, x);
        let last = i + 1 == list.len();
        if !last {
            let rest = write_typed_list(ink, list, i + 1);
            lemma_stands(ts, p.pos, a, mark(Token::Comma) + rest);
            lemma_typed(ts, p.pos, ink, x);
            lemma_stands(ts, p.pos + 3, mark(Token::Comma), rest);
            lemma_mark(ts, p.pos + 3, Token::Comma);
        } else {
            lemma_typed(ts, p.pos, ink, x);
        }
        let p2 = p.step().step();
        step_type(ts, p2, x.1);
        let more = done.push(ParamView { name: x.0, ty: primitive(x.1)->0 });
        assert(list.take(i as int + 1) =~= list.take(i as int).push(x));
        let p3 = p2.step();
        if last {
            assert(list.take(i as int + 1) =~= list);
            assert(field_defs(ts, p, done) == ok(p, p3, more));
        } else {
            lemma_reads_fields(ts, p3.step(), ink, list, i + 1, more);
            assert(field_defs(ts, p, done) == relay(p, p3.step(), field_defs(ts, p3.step(), more)));
        }
    }
}

/// Whether variants are those names with those types.
spec fn are_variants(vs: Seq<EnumVariantDefView>, list: Seq<(Chars, Option<Token>)>) -> bool {
    &&& vs.len() == list.len()
    &&& forall|k: int|
        0 <= k < list.len() ==> (#[trigger] vs[k]).name == list[k].0 && vs[k].ty == keyword_type(
            list[k].1,
        )
}

/// A variant stands at a place, before a mark that is no parenthesis.
proof fn lemma_reads_variant(ts: Words, p: St, ink: Ink, x: (Chars, Option<Token>))
    requires
        stands(ts, p.pos, write_variant(ink, x)),
        x.1 matches Some(t) ==> primitive(t) is Some,
        !token_is(ts, p.pos + write_variant(ink, x).len(), Token::LParen),
    ensures
        name_is(ts, p.pos, x.0),
        write_variant(ink, x).len() > 0,
        payload(ts, p.step()) == ok(
            p.step(),
            (St { pos: p.pos + write_variant(ink, x).len(), ..p }),
            keyword_type(x.1),
        ),
{
    reveal(is_token);
    reveal(payload);
    match x.1 {
        Some(t) => {
            let rest = mark(t) + mark(Token::RParen);
            lemma_stands(ts, p.pos, name_word(ink, x.0), mark(Token::LParen) + rest);
            lemma_name(ts, p.pos, ink, x.0);
            lemma_stands(ts, p.pos + 1, mark(Token::LParen), rest);
            lemma_mark(ts, p.pos + 1, Token::LParen);
            lemma_stands(ts, p.pos + 2, mark(t), mark(Token::RParen));
            lemma_mark(ts, p.pos + 2, t);
            lemma_mark(ts, p.pos + 3, Token::RParen);
            step_type(ts, p.step().step(), t);
        },
        None => {
            lemma_name(ts, p.pos, ink, x.0);
        },
    }
}

#[verifier::rlimit(40)]
proof fn lemma_reads_variants(
    ts: Words,
    p: St,
    ink: Ink,
    list: Seq<(Chars, Option<Token>)>,
    i: nat,
    done: Seq<EnumVariantDefView>,
)
    requires
        i <= list.len(),
        forall|k: int|
            0 <= k < list.len() ==> ((#[trigger] list[k]).1 matches Some(t) ==> primitive(t) is Some),
        are_variants(done, list.take(i as int)),
        stands(ts, p.pos, write_variants(ink, list, i)),
        token_is(ts, p.pos + write_variants(ink, list, i).len(), Token::RBrace),
    ensures
        moves(variant_defs(ts, p, done), p, write_variants(ink, list, i).len()),
        are_variants(variant_defs(ts, p, done).res->Ok_0, list),
    decreases list.len() - i,
{
    reveal(is_token);
    reveal(is_name);
    reveal(variant_defs);
    if i >= list.len() {
        assert(list.take(i as int) =~= list);
    } else {
        let x = list[i as int];
        let a = write_variant(ink, x);
        let last = i + 1 == list.len();
        if !last {
            let rest = write_variants(ink, list, i + 1);
            lemma_stands(ts, p.pos, a, mark(Token::Comma) + rest);
            lemma_stands(ts, p.pos + a.len(), mark(Token::Comma), rest);
            lemma_mark(ts, p.pos + a.len(), Token::Comma);
        }
        lemma_reads_variant(ts, p, ink, x);
        let more = done.push(EnumVariantDefView { name: x.0, ty: keyword_type(x.1) });
        assert(list.take(i as int + 1) =~= list.take(i as int).push(x));
        let p3 = St { pos: p.pos + a.len(), ..p };
        assert(p.step().after(payload(ts, p.step())) == p3);
        if last {
            assert(list.take(i as int + 1) =~= list);
            assert(variant_defs(ts, p, done) == ok(p, p3, more));
        } else {
            lemma_reads_variants(ts, p3.step(), ink, list, i + 1, more);
            assert(variant_defs(ts, p, done) == relay(
                p,
                p3.step(),
                variant_defs(ts, p3.step(), more),
            ));
        }
    }
}

/// A keyword and a name, with no type parameters behind them.
proof fn lemma_head(ts: Words, p: St, ink: Ink, key: Token, name: Chars, rest: Words, next: Token)
    requires
        stands(ts, p.pos, mark(key) + (name_word(ink, name) + (mark(next) + rest))),
        next != Token::Lt,
    ensures
        token_is(ts, p.pos, key),
        name_is(ts, p.pos + 1, name),
        token_is(ts, p.pos + 2, next),
        stands(ts, p.pos + 3, rest),
        (mark(key) + (name_word(ink, name) + (mark(next) + rest))).len() == 3 + rest.len(),
        generic_params(ts, p.step().step()) == ok(
            p.step().step(),
            p.step().step(),
            Seq::<crate::ast::GenericParamView>::empty(),
        ),
{
    lemma_stands(ts, p.pos, mark(key), name_word(ink, name) + (mark(next) + rest));
    lemma_mark(ts, p.pos, key);
    lemma_stands(ts, p.pos + 1, name_word(ink, name), mark(next) + rest);
    lemma_name(ts, p.pos + 1, ink, name);
    lemma_stands(ts, p.pos + 2, mark(next), rest);
    lemma_mark(ts, p.pos + 2, next);
    reveal(is_token);
    reveal(generic_params);
}

/// No attributes stand before an item.
proof fn lemma_no_attributes(ts: Words, p: St)
    requires
        !token_is(ts, p.pos, Token::Pound),
    ensures
        attributes(ts, p, Seq::empty()) == ok(
            p,
            p,
            Seq::<crate::ast::AttributeView>::empty(),
        ),
{
    reveal(is_token);
    reveal(attributes);
}

#[verifier::spinoff_prover]
#[verifier::rlimit(60)]
proof fn lemma_reads_fn(ts: Words, p: St, ink: Ink, d: Decl)
    requires
        d is Fn,
        can_declare(d),
        stands(ts, p.pos, write_decl(ink, d)),
    ensures
        moves(item(ts, p), p, write_decl(ink, d).len()),
        item(ts, p).res->Ok_0.len() == 1,
        is_decl(item(ts, p).res->Ok_0[0], d),
{
    match d {
        Decl::Fn { name, params: list, ret, body } => {
            let a = write_typed_list(ink, list, 0);
            let b = write_block(ink, body);
            let tail = match ret {
                Some(t) => mark(Token::Arrow) + (mark(t) + b),
                None => b,
            };
            let close = mark(Token::RParen);
            lemma_head(ts, p, ink, Token::Fn, name, a + (close + tail), Token::LParen);
            lemma_stands(ts, p.pos + 3, a, close + tail);
            lemma_stands(ts, p.pos + 3 + a.len(), close, tail);
            lemma_mark(ts, p.pos + 3 + a.len(), Token::RParen);
            lemma_no_attributes(ts, p);
            let p2 = p.step().step();
            let p4 = p2.push_scope(Seq::empty());
            let gs = Seq::<crate::ast::GenericParamView>::empty();
            assert(param_names(gs) =~= Seq::<Chars>::empty());
            let p5 = p4.step();
            lemma_reads_params(ts, p5, ink, list, 0, Seq::empty());
            let o = params(ts, p5, Seq::empty());
            let p6 = p5.after(o).step();
            let at = p6.pos;
            let p7 = match ret {
                Some(t) => {
                    lemma_stands(ts, at, mark(Token::Arrow), mark(t) + b);
                    lemma_mark(ts, at, Token::Arrow);
                    lemma_stands(ts, at + 1, mark(t), b);
                    lemma_mark(ts, at + 1, t);
                    step_type(ts, p6.step(), t);
                    p6.step().step()
                },
                None => p6,
            };
            lemma_reads_block(ts, p7, ink, body);
            assert(optional_type(ts, p6, Token::Arrow) == ok(p6, p7, keyword_type(ret))) by {
                reveal(is_token);
                reveal(optional_type);
            }
            let sig = FnSigView {
                name,
                params: o.res->Ok_0,
                return_type: keyword_type(ret),
                generic_params: gs,
            };
            assert(fn_tail(ts, p4, name, gs) == ok(p4, p7, sig)) by {
                reveal(is_token);
                reveal(fn_tail);
            }
            assert(fn_head(ts, p) == ok(p, p7, sig)) by {
                reveal(is_token);
                reveal(is_name);
                reveal(fn_head);
            }
            let o2 = block(ts, p7);
            let p8 = p7.after(o2);
            assert(p8.scopes.drop_last() =~= p.scopes);
            let f = FnDefView {
                attributes: Seq::empty(),
                name,
                generic_params: gs,
                params: sig.params,
                return_type: sig.return_type,
                body: o2.res->Ok_0,
            };
            assert(fn_def(ts, p, Seq::empty()) == ok(p, p8.pop_scope(), f)) by {
                reveal(fn_def);
            }
            assert(item(ts, p) == ok(p, p8.pop_scope(), seq![ItemView::FnDef(f)])) by {
                reveal(is_token);
                reveal(item);
            }
        },
        _ => {},
    }
}

#[verifier::spinoff_prover]
#[verifier::rlimit(60)]
proof fn lemma_reads_type(ts: Words, p: St, ink: Ink, d: Decl)
    requires
        d is Struct || d is Enum,
        can_declare(d),
        stands(ts, p.pos, write_decl(ink, d)),
    ensures
        moves(item(ts, p), p, write_decl(ink, d).len()),
        item(ts, p).res->Ok_0.len() == 1,
        is_decl(item(ts, p).res->Ok_0[0], d),
{
    let close = mark(Token::RBrace);
    let p2 = p.step().step();
    let p4 = p2.push_scope(Seq::empty());
    let gs = Seq::<crate::ast::GenericParamView>::empty();
    assert(param_names(gs) =~= Seq::<Chars>::empty());
    let p5 = p4.step();
    match d {
        Decl::Struct { name, fields } => {
            let a = write_typed_list(ink, fields, 0);
            lemma_head(ts, p, ink, Token::Struct, name, a + close, Token::LBrace);
            lemma_stands(ts, p.pos + 3, a, close);
            lemma_mark(ts, p.pos + 3 + a.len(), Token::RBrace);
            lemma_no_attributes(ts, p);
            lemma_reads_fields(ts, p5, ink, fields, 0, Seq::empty());
            let o = field_defs(ts, p5, Seq::empty());
            let p7 = p5.after(o).step();
            assert(p7.scopes.drop_last() =~= p.scopes);
            let s = StructDefView { name, generic_params: gs, fields: o.res->Ok_0 };
            assert(struct_def(ts, p) == ok(p, p7.pop_scope(), s)) by {
                reveal(is_token);
                reveal(is_name);
                reveal(struct_def);
            }
            assert(definition(ts, p) == ok(p, p7.pop_scope(), ItemView::StructDef(s))) by {
                reveal(is_token);
                reveal(definition);
            }
            assert(item(ts, p) == ok(p, p7.pop_scope(), seq![ItemView::StructDef(s)])) by {
                reveal(is_token);
                reveal(item);
            }
        },
        Decl::Enum { name, variants } => {
            let a = write_variants(ink, variants, 0);
            lemma_head(ts, p, ink, Token::Enum, name, a + close, Token::LBrace);
            lemma_stands(ts, p.pos + 3, a, close);
            lemma_mark(ts, p.pos + 3 + a.len(), Token::RBrace);
            lemma_no_attributes(ts, p);
            lemma_reads_variants(ts, p5, ink, variants, 0, Seq::empty());
            let o = variant_defs(ts, p5, Seq::empty());
            let p7 = p5.after(o).step();
            assert(p7.scopes.drop_last() =~= p.scopes);
            let e = EnumDefView { name, generic_params: gs, variants: o.res->Ok_0 };
            assert(enum_def(ts, p) == ok(p, p7.pop_scope(), e)) by {
                reveal(is_token);
                reveal(is_name);
                reveal(enum_def);
            }
            assert(definition(ts, p) == ok(p, p7.pop_scope(), ItemView::EnumDef(e))) by {
                reveal(is_token);
                reveal(definition);
            }
            assert(item(ts, p) == ok(p, p7.pop_scope(), seq![ItemView::EnumDef(e)])) by {
                reveal(is_token);
                reveal(item);
            }
        },
        _ => {},
    }
}

#[verifier::spinoff_prover]
#[verifier::rlimit(60)]
proof fn lemma_reads_const(ts: Words, p: St, ink: Ink, d: Decl)
    requires
        d is Const,
        can_declare(d),
        stands(ts, p.pos, write_decl(ink, d)),
    ensures
        moves(item(ts, p), p, write_decl(ink, d).len()),
        item(ts, p).res->Ok_0.len() == 1,
        is_decl(item(ts, p).res->Ok_0[0], d),
{
    match d {
        Decl::Const { name, ty: t, value } => {
            let end = mark(Token::Semicolon);
            let a = print(ink, value, 8);
            let rest = mark(t) + (mark(Token::Eq) + (a + end));
            lemma_head(ts, p, ink, Token::Const, name, rest, Token::Colon);
            lemma_stands(ts, p.pos + 3, mark(t), mark(Token::Eq) + (a + end));
            lemma_mark(ts, p.pos + 3, t);
            lemma_stands(ts, p.pos + 4, mark(Token::Eq), a + end);
            lemma_mark(ts, p.pos + 4, Token::Eq);
            lemma_stands(ts, p.pos + 5, a, end);
            lemma_mark(ts, p.pos + 5 + a.len(), Token::Semicolon);
            lemma_no_attributes(ts, p);
            let p3 = p.step().step().step();
            step_type(ts, p3, t);
            let p5 = p3.step().step();
            lemma_reads_before(ts, p5, ink, value, end, Token::Semicolon);
            let o = expr(ts, p5);
            let p7 = p5.after(o).step();
            let c = ConstDefView { name, ty: primitive(t)->0, value: o.res->Ok_0 };
            assert(const_def(ts, p) == ok(p, p7, c)) by {
                reveal(is_token);
                reveal(is_name);
                reveal(const_def);
            }
            assert(definition(ts, p) == ok(p, p7, ItemView::ConstDef(c))) by {
                reveal(is_token);
                reveal(definition);
            }
            assert(item(ts, p) == ok(p, p7, seq![ItemView::ConstDef(c)])) by {
                reveal(is_token);
                reveal(item);
            }
        },
        _ => {},
    }
}

/// What is written as an item is read as that item.
pub proof fn written_item_is_read_back(ts: Words, p: St, ink: Ink, d: Decl)
    requires
        can_declare(d),
        stands(ts, p.pos, write_decl(ink, d)),
    ensures
        moves(item(ts, p), p, write_decl(ink, d).len()),
        item(ts, p).res->Ok_0.len() == 1,
        is_decl(item(ts, p).res->Ok_0[0], d),
{
    match d {
        Decl::Fn { name, params, ret, body } => lemma_reads_fn(ts, p, ink, d),
        Decl::Const { name, ty, value } => lemma_reads_const(ts, p, ink, d),
        _ => lemma_reads_type(ts, p, ink, d),
    }
}

/// Whether the items from the `i`-th on are those.
pub open spec fn are_decls(xs: Seq<ItemView>, list: Seq<Decl>) -> bool {
    xs.len() == list.len() && forall|k: int|
        0 <= k < list.len() ==> is_decl(#[trigger] xs[k], list[k])
}

#[verifier::spinoff_prover]
#[verifier::rlimit(40)]
proof fn lemma_reads_items(ts: Words, p: St, ink: Ink, list: Seq<Decl>, i: nat, done: Seq<ItemView>)
    requires
        i <= list.len(),
        forall|k: int| 0 <= k < list.len() ==> can_declare(#[trigger] list[k]),
        are_decls(done, list.take(i as int)),
        stands(ts, p.pos, write_decls(ink, list, i)),
        p.pos + write_decls(ink, list, i).len() == ts.len(),
    ensures
        items(ts, p, done).res is Ok,
        are_decls(items(ts, p, done).res->Ok_0, list),
    decreases list.len() - i,
{
    reveal(items);
    if i >= list.len() {
        assert(list.take(i as int) =~= list);
    } else {
        let d = list[i as int];
        let a = write_decl(ink, d);
        let rest = write_decls(ink, list, i + 1);
        lemma_stands(ts, p.pos, a, rest);
        written_item_is_read_back(ts, p, ink, d);
        lemma_first(ts, p.pos, a);
        let o = item(ts, p);
        let p1 = p.after(o);
        let more = done + o.res->Ok_0;
        assert(list.take(i as int + 1) =~= list.take(i as int).push(d));
        assert forall|k: int| 0 <= k < i + 1 implies is_decl(
            #[trigger] more[k],
            list.take(i as int + 1)[k],
        ) by {
            if k < i {
                assert(more[k] == done[k]);
                assert(list.take(i as int)[k] == list[k]);
                assert(is_decl(done[k], list.take(i as int)[k]));
            } else {
                assert(more[k] == o.res->Ok_0[0]);
            }
        }
        assert(a.len() > 0) by {
            match d {
                Decl::Fn { name, params, ret, body } => {},
                _ => {},
            }
        }
        lemma_reads_items(ts, p1, ink, list, i + 1, more);
        assert(items(ts, p, done) == relay(p, p1, items(ts, p1, more)));
    }
}

/// A program that is written item by item is read as those items, in order.
pub proof fn written_program_is_read_back(ts: Words, ink: Ink, list: Seq<Decl>, p: St)
    requires
        forall|k: int| 0 <= k < list.len() ==> can_declare(#[trigger] list[k]),
        stands(ts, p.pos, write_decls(ink, list, 0)),
        p.pos + write_decls(ink, list, 0).len() == ts.len(),
    ensures
        program(ts, p).res matches Ok(r) && are_decls(r.items, list),
{
    lemma_reads_items(ts, p, ink, list, 0, Seq::empty());
    reveal(program);
}

} // verus!
