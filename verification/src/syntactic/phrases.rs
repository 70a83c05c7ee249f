//! How choices, ranges and structures are written, and that the parser reads them back.
use crate::ast::{ExprKindView, ExprView, MatchArmView, MatchExprView};
use crate::syntactic::grammar::{
    binary, dots, expr, expr_rule, head_expr, is_name, is_token, literal, match_arms,
    match_arms_rule, match_expr, match_expr_rule, name_primary, name_primary_rule, node, ok,
    ok_node, pattern, primary, primary_rule, range, range_rule, relay, St, struct_fields,
    struct_fields_rule, struct_literal, struct_literal_rule, Words,
};
use crate::syntactic::patterns::{
    can_match, is_pattern, Shape, write_pattern, written_pattern_is_read_back,
};
use crate::syntactic::printing::{
    Ink, is_tree, lemma_first, lemma_mark, lemma_name, lemma_opens, lemma_reads_binary,
    lemma_stands, mark, name_word, print, stands, stops, Tree, writable,
};
use crate::syntactic::sentences::{lemma_reads_before, lemma_reads_head, moves};
use crate::syntactic::steps::{name_is, step_expr, step_no_dot, token_is};
use crate::text::Chars;
use crate::token::Token;
use vstd::prelude::*;

verus! {

// Choices.

/// The arms of a `match` from the `i`-th on, each with a comma, and the brace that closes
/// them.
pub open spec fn write_arms(ink: Ink, list: Seq<(Shape, Tree)>, i: nat) -> Words
    decreases list.len() - i,
{
    if i >= list.len() {
        mark(Token::RBrace)
    } else {
        write_pattern(ink, list[i as int].0) + (mark(Token::FatArrow) + (print(
            ink,
            list[i as int].1,
            8,
        ) + (mark(Token::Comma) + write_arms(ink, list, i + 1))))
    }
}

/// A `match`.
pub open spec fn write_match(ink: Ink, cond: Tree, list: Seq<(Shape, Tree)>) -> Words {
    mark(Token::Match) + (print(ink, cond, 8) + (mark(Token::LBrace) + write_arms(ink, list, 0)))
}

/// Whether the arms of a `match` can be written.
pub open spec fn can_choose(list: Seq<(Shape, Tree)>) -> bool {
    forall|k: int| 0 <= k < list.len() ==> can_match((#[trigger] list[k]).0) && writable(list[k].1)
}

/// Whether arms are those, each with its pattern and its body.
pub open spec fn are_arms(arms: Seq<MatchArmView>, list: Seq<(Shape, Tree)>) -> bool {
    &&& arms.len() == list.len()
    &&& forall|k: int|
        0 <= k < list.len() ==> is_pattern((#[trigger] arms[k]).pattern, list[k].0) && is_tree(
            *arms[k].expr,
            list[k].1,
        )
}

/// One arm.
proof fn step_arm(ts: Words, p: St, arms: Seq<MatchArmView>)
    requires
        p.pos < ts.len(),
        !token_is(ts, p.pos, Token::RBrace),
        pattern(ts, p).res is Ok,
        token_is(ts, p.pos + pattern(ts, p).adv, Token::FatArrow),
        expr(ts, p.after(pattern(ts, p)).step()).res is Ok,
        token_is(
            ts,
            p.pos + pattern(ts, p).adv + 1 + expr(ts, p.after(pattern(ts, p)).step()).adv,
            Token::Comma,
        ),
    ensures
        ({
            let o1 = pattern(ts, p);
            let p2 = p.after(o1).step();
            let o3 = expr(ts, p2);
            let p4 = p2.after(o3).step();
            let arm = MatchArmView { pattern: o1.res->Ok_0, expr: Box::new(o3.res->Ok_0) };
            match_arms(ts, p, arms) == relay(p, p4, match_arms(ts, p4, arms.push(arm)))
        }),
{
    reveal(is_token);
    reveal(match_arms);
    reveal(match_arms_rule);
    reveal(expr);
    assert(match_arms(ts, p, arms) == match_arms_rule(ts, p, arms));
}

proof fn step_no_arm(ts: Words, p: St, arms: Seq<MatchArmView>)
    requires
        token_is(ts, p.pos, Token::RBrace),
    ensures
        match_arms(ts, p, arms) == ok(p, p, arms),
{
    reveal(is_token);
    reveal(match_arms);
    reveal(match_arms_rule);
    assert(match_arms(ts, p, arms) == match_arms_rule(ts, p, arms));
}

proof fn step_match(ts: Words, p: St)
    requires
        token_is(ts, p.pos, Token::Match),
        head_expr(ts, p.step()).res is Ok,
        token_is(ts, p.pos + 1 + head_expr(ts, p.step()).adv, Token::LBrace),
        ({
            let p3 = p.step().after(head_expr(ts, p.step())).step();
            let o = match_arms(ts, p3, Seq::empty());
            o.res is Ok && token_is(ts, p3.pos + o.adv, Token::RBrace)
        }),
    ensures
        ({
            let o2 = head_expr(ts, p.step());
            let p3 = p.step().after(o2).step();
            let o = match_arms(ts, p3, Seq::empty());
            expr(ts, p) == ok_node(
                p,
                p3.after(o).step(),
                ExprKindView::Match(
                    MatchExprView { cond: Box::new(o2.res->Ok_0), arms: o.res->Ok_0 },
                ),
            )
        }),
{
    reveal(is_token);
    assert(expr(ts, p) == match_expr(ts, p)) by {
        reveal(expr);
        reveal(expr_rule);
        reveal(match_expr);
        assert(expr(ts, p) == expr_rule(ts, p));
    }
    reveal(match_expr);
    reveal(match_expr_rule);
    reveal(head_expr);
    reveal(match_arms);
    assert(match_expr(ts, p) == match_expr_rule(ts, p));
}

#[verifier::spinoff_prover]
#[verifier::rlimit(60)]
proof fn lemma_reads_arms(
    ts: Words,
    p: St,
    ink: Ink,
    list: Seq<(Shape, Tree)>,
    i: nat,
    done: Seq<MatchArmView>,
)
    requires
        i <= list.len(),
        can_choose(list),
        are_arms(done, list.take(i as int)),
        stands(ts, p.pos, write_arms(ink, list, i)),
    ensures
        ({
            let o = match_arms(ts, p, done);
            &&& moves(o, p, (write_arms(ink, list, i).len() - 1) as nat)
            &&& are_arms(o.res->Ok_0, list)
            &&& write_arms(ink, list, i).len() > 0
            &&& token_is(ts, p.pos + o.adv, Token::RBrace)
        }),
    decreases list.len() - i,
{
    if i >= list.len() {
        lemma_mark(ts, p.pos, Token::RBrace);
        step_no_arm(ts, p, done);
        assert(list.take(i as int) =~= list);
    } else {
        let (x, e) = list[i as int];
        let w = write_pattern(ink, x);
        let a = print(ink, e, 8);
        let rest = write_arms(ink, list, i + 1);
        let c = mark(Token::Comma) + rest;
        lemma_stands(ts, p.pos, w, mark(Token::FatArrow) + (a + c));
        lemma_stands(ts, p.pos + w.len(), mark(Token::FatArrow), a + c);
        lemma_mark(ts, p.pos + w.len(), Token::FatArrow);
        lemma_stands(ts, p.pos + w.len() + 1, a, c);
        lemma_stands(ts, p.pos + w.len() + 1 + a.len(), mark(Token::Comma), rest);
        lemma_mark(ts, p.pos + w.len() + 1 + a.len(), Token::Comma);
        lemma_pattern_first(ink, x);
        lemma_first(ts, p.pos, w);
        written_pattern_is_read_back(ts, p, ink, x);
        let o1 = pattern(ts, p);
        let p2 = p.after(o1).step();
        lemma_reads_before(ts, p2, ink, e, c, Token::Comma);
        let o3 = expr(ts, p2);
        let p4 = p2.after(o3).step();
        step_arm(ts, p, done);
        let arm = MatchArmView { pattern: o1.res->Ok_0, expr: Box::new(o3.res->Ok_0) };
        let more = done.push(arm);
        assert(list.take(i as int + 1) =~= list.take(i as int).push((x, e)));
        assert forall|k: int| 0 <= k < i + 1 implies is_pattern(
            (#[trigger] more[k]).pattern,
            list.take(i as int + 1)[k].0,
        ) && is_tree(*more[k].expr, list.take(i as int + 1)[k].1) by {
            if k < i {
                assert(more[k] == done[k]);
                assert(list.take(i as int)[k] == list[k]);
            }
        }
        lemma_reads_arms(ts, p4, ink, list, i + 1, more);
    }
}

/// The first word of a pattern closes no braces.
proof fn lemma_pattern_first(ink: Ink, x: Shape)
    ensures
        write_pattern(ink, x).len() > 0,
        write_pattern(ink, x)[0].0 != Token::RBrace,
{
}

/// What is written as a `match` is read as it: with its condition, and its arms in order, each
/// with its pattern and its body.
pub proof fn written_match_is_read_back(
    ts: Words,
    p: St,
    ink: Ink,
    cond: Tree,
    list: Seq<(Shape, Tree)>,
)
    requires
        writable(cond),
        can_choose(list),
        stands(ts, p.pos, write_match(ink, cond, list)),
    ensures
        moves(expr(ts, p), p, write_match(ink, cond, list).len()),
        expr(ts, p).res->Ok_0.kind matches ExprKindView::Match(m) && is_tree(*m.cond, cond)
            && are_arms(m.arms, list),
{
    let a = print(ink, cond, 8);
    let b = write_arms(ink, list, 0);
    lemma_stands(ts, p.pos, mark(Token::Match), a + (mark(Token::LBrace) + b));
    lemma_mark(ts, p.pos, Token::Match);
    lemma_stands(ts, p.pos + 1, a, mark(Token::LBrace) + b);
    lemma_stands(ts, p.pos + 1 + a.len(), mark(Token::LBrace), b);
    lemma_mark(ts, p.pos + 1 + a.len(), Token::LBrace);
    lemma_reads_head(ts, p.step(), ink, cond);
    let p3 = p.step().after(head_expr(ts, p.step())).step();
    lemma_reads_arms(ts, p3, ink, list, 0, Seq::empty());
    step_match(ts, p);
}

// Ranges.

/// A range.
pub open spec fn write_range(ink: Ink, a: Tree, b: Tree) -> Words {
    print(ink, a, 8) + (mark(Token::Range) + print(ink, b, 8))
}

/// What is written as a range is read as it: from its first operand to its second.
#[verifier::spinoff_prover]
#[verifier::rlimit(40)]
pub proof fn written_range_is_read_back(ts: Words, p: St, ink: Ink, a: Tree, b: Tree)
    requires
        writable(a),
        writable(b),
        stands(ts, p.pos, write_range(ink, a, b)),
        stops(ts, p.pos + write_range(ink, a, b).len(), 8, p.no_struct),
    ensures
        moves(expr(ts, p), p, write_range(ink, a, b).len()),
        expr(ts, p).res->Ok_0.kind matches ExprKindView::Range { start, end } && is_tree(*start, a)
            && is_tree(*end, b),
{
    let x = print(ink, a, 8);
    let y = print(ink, b, 8);
    lemma_stands(ts, p.pos, x, mark(Token::Range) + y);
    lemma_stands(ts, p.pos + x.len(), mark(Token::Range), y);
    lemma_mark(ts, p.pos + x.len(), Token::Range);
    lemma_opens(ink, a, 8);
    lemma_first(ts, p.pos, x);
    lemma_reads_binary(ts, p, ink, a, 5);
    let o1 = binary(ts, p, 5);
    let p1 = p.after(o1);
    lemma_reads_binary(ts, p1.step(), ink, b, 5);
    let o2 = binary(ts, p1.step(), 5);
    step_expr(ts, p);
    assert(range(ts, p) == ok_node(
        p,
        p1.step().after(o2),
        ExprKindView::Range { start: Box::new(o1.res->Ok_0), end: Box::new(o2.res->Ok_0) },
    )) by {
        reveal(is_token);
        reveal(range);
        reveal(range_rule);
        reveal(binary);
        assert(range(ts, p) == range_rule(ts, p));
    }
}

// Structures.

/// The fields of a structure from the `i`-th on, each with a comma, and the brace that closes
/// them.
pub open spec fn write_inits(ink: Ink, list: Seq<(Chars, Tree)>, i: nat) -> Words
    decreases list.len() - i,
{
    if i >= list.len() {
        mark(Token::RBrace)
    } else {
        name_word(ink, list[i as int].0) + (mark(Token::Colon) + (print(ink, list[i as int].1, 8)
            + (mark(Token::Comma) + write_inits(ink, list, i + 1))))
    }
}

/// A structure.
pub open spec fn write_struct(ink: Ink, name: Chars, list: Seq<(Chars, Tree)>) -> Words {
    name_word(ink, name) + (mark(Token::LBrace) + write_inits(ink, list, 0))
}

/// Whether fields are those, each with its name and its value.
pub open spec fn are_inits(fs: Seq<(Chars, ExprView)>, list: Seq<(Chars, Tree)>) -> bool {
    &&& fs.len() == list.len()
    &&& forall|k: int|
        0 <= k < list.len() ==> (#[trigger] fs[k]).0 == list[k].0 && is_tree(fs[k].1, list[k].1)
}

proof fn step_init(ts: Words, p: St, fs: Seq<(Chars, ExprView)>, name: Chars)
    requires
        name_is(ts, p.pos, name),
        token_is(ts, p.pos + 1, Token::Colon),
        expr(ts, p.step().step()).res is Ok,
        token_is(ts, p.pos + 2 + expr(ts, p.step().step()).adv, Token::Comma),
    ensures
        ({
            let o = expr(ts, p.step().step());
            let p4 = p.step().step().after(o).step();
            struct_fields(ts, p, fs) == relay(
                p,
                p4,
                struct_fields(ts, p4, fs.push((name, o.res->Ok_0))),
            )
        }),
{
    reveal(is_token);
    reveal(is_name);
    reveal(struct_fields);
    reveal(struct_fields_rule);
    reveal(expr);
    assert(struct_fields(ts, p, fs) == struct_fields_rule(ts, p, fs));
}

proof fn step_no_init(ts: Words, p: St, fs: Seq<(Chars, ExprView)>)
    requires
        token_is(ts, p.pos, Token::RBrace),
    ensures
        struct_fields(ts, p, fs) == ok(p, p.step(), fs),
{
    reveal(is_token);
    reveal(struct_fields);
    reveal(struct_fields_rule);
    assert(struct_fields(ts, p, fs) == struct_fields_rule(ts, p, fs));
}

#[verifier::spinoff_prover]
#[verifier::rlimit(60)]
proof fn lemma_reads_inits(
    ts: Words,
    p: St,
    ink: Ink,
    list: Seq<(Chars, Tree)>,
    i: nat,
    done: Seq<(Chars, ExprView)>,
)
    requires
        i <= list.len(),
        forall|k: int| 0 <= k < list.len() ==> writable((#[trigger] list[k]).1),
        are_inits(done, list.take(i as int)),
        stands(ts, p.pos, write_inits(ink, list, i)),
    ensures
        moves(struct_fields(ts, p, done), p, write_inits(ink, list, i).len()),
        are_inits(struct_fields(ts, p, done).res->Ok_0, list),
    decreases list.len() - i,
{
    if i >= list.len() {
        lemma_mark(ts, p.pos, Token::RBrace);
        step_no_init(ts, p, done);
        assert(list.take(i as int) =~= list);
    } else {
        let (name, e) = list[i as int];
        let a = print(ink, e, 8);
        let rest = write_inits(ink, list, i + 1);
        let c = mark(Token::Comma) + rest;
        lemma_stands(ts, p.pos, name_word(ink, name), mark(Token::Colon) + (a + c));
        lemma_name(ts, p.pos, ink, name);
        lemma_stands(ts, p.pos + 1, mark(Token::Colon), a + c);
        lemma_mark(ts, p.pos + 1, Token::Colon);
        lemma_stands(ts, p.pos + 2, a, c);
        lemma_stands(ts, p.pos + 2 + a.len(), mark(Token::Comma), rest);
        lemma_mark(ts, p.pos + 2 + a.len(), Token::Comma);
        let p2 = p.step().step();
        lemma_reads_before(ts, p2, ink, e, c, Token::Comma);
        let o = expr(ts, p2);
        let p4 = p2.after(o).step();
        step_init(ts, p, done, name);
        let more = done.push((name, o.res->Ok_0));
        assert(list.take(i as int + 1) =~= list.take(i as int).push((name, e)));
        assert forall|k: int| 0 <= k < i + 1 implies (#[trigger] more[k]).0 == list.take(
            i as int + 1,
        )[k].0 && is_tree(more[k].1, list.take(i as int + 1)[k].1) by {
            if k < i {
                assert(more[k] == done[k]);
                assert(list.take(i as int)[k] == list[k]);
            }
        }
        lemma_reads_inits(ts, p4, ink, list, i + 1, more);
    }
}

/// What is written as a structure is read as it: with its name, and its fields in order, each
/// with its name and its value.
#[verifier::spinoff_prover]
#[verifier::rlimit(60)]
pub proof fn written_structure_is_read_back(
    ts: Words,
    p: St,
    ink: Ink,
    name: Chars,
    list: Seq<(Chars, Tree)>,
)
    requires
        forall|k: int| 0 <= k < list.len() ==> writable((#[trigger] list[k]).1),
        name != "Sym"@,
        !p.no_struct,
        stands(ts, p.pos, write_struct(ink, name, list)),
        !token_is(ts, p.pos + write_struct(ink, name, list).len(), Token::Dot),
    ensures
        moves(primary(ts, p), p, write_struct(ink, name, list).len()),
        primary(ts, p).res->Ok_0.kind matches ExprKindView::StructInit { struct_name, fields }
            && struct_name == name && are_inits(fields, list),
{
    let b = write_inits(ink, list, 0);
    lemma_stands(ts, p.pos, name_word(ink, name), mark(Token::LBrace) + b);
    lemma_name(ts, p.pos, ink, name);
    lemma_stands(ts, p.pos + 1, mark(Token::LBrace), b);
    lemma_mark(ts, p.pos + 1, Token::LBrace);
    let p1 = p.step();
    let p2 = p1.step();
    lemma_reads_inits(ts, p2, ink, list, 0, Seq::empty());
    let o = struct_fields(ts, p2, Seq::empty());
    let p3 = p2.after(o);
    let e = node(p3, ExprKindView::StructInit { struct_name: name, fields: o.res->Ok_0 });
    step_no_dot(ts, p3.fresh(), e);
    assert(struct_literal(ts, p1, name) == relay(p1, p3.fresh(), dots(ts, p3.fresh(), e))) by {
        reveal(struct_literal);
        reveal(struct_literal_rule);
        reveal(struct_fields);
        reveal(dots);
        assert(struct_literal(ts, p1, name) == struct_literal_rule(ts, p1, name));
    }
    assert(name_primary(ts, p1, name) == struct_literal(ts, p1, name)) by {
        reveal(is_token);
        reveal(name_primary);
        reveal(name_primary_rule);
        reveal(struct_literal);
        assert(name_primary(ts, p1, name) == name_primary_rule(ts, p1, name));
    }
    assert(primary(ts, p) == relay(p, p1, name_primary(ts, p1, name))) by {
        reveal(is_token);
        reveal(is_name);
        reveal(literal);
        reveal(primary);
        reveal(primary_rule);
        reveal(name_primary);
        assert(primary(ts, p) == primary_rule(ts, p));
    }
}

} // verus!
