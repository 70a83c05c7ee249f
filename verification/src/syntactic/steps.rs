//! What single phrases of the grammar read, one step at a time.
use crate::ast::{
    AssignStmtView, BinaryOp, BlockView, CallArgView, ExprKindView, ExprView, ForStmtView, IfKind,
    LetStmtView, LiteralView, LoopStmtView, StmtView, UnaryOp, WhileStmtView,
};
use crate::literal::integer_literal;
use crate::syntactic::grammar::{
    arguments, arguments_rule, assign_op, assign_stmt, assign_stmt_rule, binary, binary_op,
    binary_rule, binary_tail, binary_tail_rule, binding, binding_rule, block, block_rule,
    break_stmt, call_args, call_args_rule, cast, cast_rule, cast_tail, cast_tail_rule, dots,
    dots_rule, elements, elements_rule, expr, expr_rule, expr_stmt, expr_stmt_rule, for_stmt,
    for_stmt_rule, head_expr, head_expr_rule, if_expr, if_expr_rule, is_name, is_token, literal,
    loop_stmt, loop_stmt_rule, name_primary, name_primary_rule, named_call, named_call_rule, node,
    ok, ok_node, optional_type, postfix, postfix_rule, postfix_tail, postfix_tail_rule, primary,
    primary_rule, primitive, range, range_rule, relay, return_stmt, return_stmt_rule, St, stmt,
    stmt_rule, stmts, stmts_rule, ty, unary, unary_rule, variant, variant_rule, while_stmt,
    while_stmt_rule, Words,
};
use crate::text::Chars;
use crate::token::Token;
use vstd::prelude::*;

verus! {

/// Whether the token at a place is that one.
pub open spec fn token_is(ts: Words, at: nat, t: Token) -> bool {
    at < ts.len() && ts[at as int].0 == t
}

/// Whether the token at a place is a name.
pub open spec fn name_is(ts: Words, at: nat, name: Chars) -> bool {
    at < ts.len() && ts[at as int].0 is Ident && ts[at as int].1 == name
}

pub(super) proof fn step_expr(ts: Words, p: St)
    requires
        !token_is(ts, p.pos, Token::Lack),
        !token_is(ts, p.pos, Token::If),
        !token_is(ts, p.pos, Token::Match),
    ensures
        expr(ts, p) == range(ts, p),
{
    reveal(is_token);
    reveal(expr);
    reveal(expr_rule);
    reveal(range);
    assert(expr(ts, p) == expr_rule(ts, p));
}

pub(super) proof fn step_range(ts: Words, p: St)
    requires
        binary(ts, p, 5).res is Ok,
        !token_is(ts, p.pos + binary(ts, p, 5).adv, Token::Range),
    ensures
        range(ts, p) == binary(ts, p, 5),
{
    reveal(is_token);
    reveal(range);
    reveal(range_rule);
    reveal(binary);
    assert(range(ts, p) == range_rule(ts, p));
}

pub(super) proof fn step_binary(ts: Words, p: St, level: nat)
    requires
        level > 0,
        binary(ts, p, (level - 1) as nat).res is Ok,
    ensures
        ({
            let o = binary(ts, p, (level - 1) as nat);
            binary(ts, p, level) == relay(
                p,
                p.after(o),
                binary_tail(ts, p.after(o), level, o.res->Ok_0),
            )
        }),
{
    reveal(binary);
    reveal(binary_rule);
    reveal(cast);
    reveal(binary_tail);
    assert(binary(ts, p, level) == binary_rule(ts, p, level));
}

pub(super) proof fn step_operator(ts: Words, p: St, level: nat, left: ExprView, op: BinaryOp)
    requires
        level > 0,
        p.pos < ts.len(),
        binary_op(level, ts[p.pos as int].0) == Some(op),
        binary(ts, p.step(), (level - 1) as nat).res is Ok,
    ensures
        ({
            let o = binary(ts, p.step(), (level - 1) as nat);
            let p1 = p.step().after(o);
            let e = node(
                p1,
                ExprKindView::BinaryOp {
                    op,
                    left: Box::new(left),
                    right: Box::new(o.res->Ok_0),
                },
            );
            binary_tail(ts, p, level, left) == relay(
                p,
                p1.fresh(),
                binary_tail(ts, p1.fresh(), level, e),
            )
        }),
{
    reveal(binary_tail);
    reveal(binary_tail_rule);
    reveal(binary);
    assert(binary_tail(ts, p, level, left) == binary_tail_rule(ts, p, level, left));
}

pub(super) proof fn step_no_operator(ts: Words, p: St, level: nat, left: ExprView)
    requires
        p.pos < ts.len() ==> binary_op(level, ts[p.pos as int].0) is None,
    ensures
        binary_tail(ts, p, level, left) == ok(p, p, left),
{
    reveal(binary_tail);
    reveal(binary_tail_rule);
    reveal(binary);
    assert(binary_tail(ts, p, level, left) == binary_tail_rule(ts, p, level, left));
}

pub(super) proof fn step_cast(ts: Words, p: St)
    requires
        unary(ts, p).res is Ok,
    ensures
        ({
            let o = unary(ts, p);
            cast(ts, p) == relay(p, p.after(o), cast_tail(ts, p.after(o), o.res->Ok_0))
        }),
{
    reveal(cast);
    reveal(cast_rule);
    reveal(unary);
    reveal(cast_tail);
    assert(cast(ts, p) == cast_rule(ts, p));
}

pub(super) proof fn step_as(ts: Words, p: St, e: ExprView, to: Token)
    requires
        token_is(ts, p.pos, Token::As),
        token_is(ts, p.pos + 1, to),
        primitive(to) is Some,
    ensures
        ({
            let p1 = p.step().step();
            let e1 = node(p1, ExprKindView::Cast { expr: Box::new(e), ty: primitive(to)->0 });
            cast_tail(ts, p, e) == relay(p, p1.fresh(), cast_tail(ts, p1.fresh(), e1))
        }),
{
    reveal(is_token);
    reveal(ty);
    assert(primitive(Token::Amp) is None && primitive(Token::LParen) is None && primitive(
        Token::LBracket,
    ) is None) by {
        reveal(primitive);
    }
    assert(ty(ts, p.step()) == ok(p.step(), p.step().step(), primitive(to)->0));
    reveal(cast_tail);
    reveal(cast_tail_rule);
    reveal(ty);
    assert(cast_tail(ts, p, e) == cast_tail_rule(ts, p, e));
}

pub(super) proof fn step_no_as(ts: Words, p: St, e: ExprView)
    requires
        !token_is(ts, p.pos, Token::As),
    ensures
        cast_tail(ts, p, e) == ok(p, p, e),
{
    reveal(is_token);
    reveal(cast_tail);
    reveal(cast_tail_rule);
    reveal(ty);
    assert(cast_tail(ts, p, e) == cast_tail_rule(ts, p, e));
}

pub(super) proof fn step_sign(ts: Words, p: St)
    requires
        token_is(ts, p.pos, Token::Bang) || token_is(ts, p.pos, Token::Minus),
        unary(ts, p.step()).res is Ok,
    ensures
        ({
            let o = unary(ts, p.step());
            let op = if token_is(ts, p.pos, Token::Bang) {
                UnaryOp::Not
            } else {
                UnaryOp::Neg
            };
            unary(ts, p) == ok_node(
                p,
                p.step().after(o),
                ExprKindView::Unary { op, expr: Box::new(o.res->Ok_0) },
            )
        }),
{
    reveal(is_token);
    reveal(unary);
    reveal(unary_rule);
    reveal(postfix);
    assert(unary(ts, p) == unary_rule(ts, p));
}

pub(super) proof fn step_no_sign(ts: Words, p: St)
    requires
        !token_is(ts, p.pos, Token::Bang),
        !token_is(ts, p.pos, Token::Minus),
    ensures
        unary(ts, p) == postfix(ts, p),
{
    reveal(is_token);
    reveal(unary);
    reveal(unary_rule);
    reveal(postfix);
    assert(unary(ts, p) == unary_rule(ts, p));
}

pub(super) proof fn step_postfix(ts: Words, p: St)
    requires
        primary(ts, p).res is Ok,
    ensures
        ({
            let o = primary(ts, p);
            postfix(ts, p) == relay(p, p.after(o), postfix_tail(ts, p.after(o), o.res->Ok_0))
        }),
{
    reveal(postfix);
    reveal(postfix_rule);
    reveal(primary);
    reveal(postfix_tail);
    assert(postfix(ts, p) == postfix_rule(ts, p));
}

pub(super) proof fn step_index(ts: Words, p: St, e: ExprView)
    requires
        token_is(ts, p.pos, Token::LBracket),
        expr(ts, p.step()).res is Ok,
        token_is(ts, p.pos + 1 + expr(ts, p.step()).adv, Token::RBracket),
    ensures
        ({
            let o = expr(ts, p.step());
            let p2 = p.step().after(o).step();
            let e1 = node(
                p2,
                ExprKindView::Index { expr: Box::new(e), index: Box::new(o.res->Ok_0) },
            );
            postfix_tail(ts, p, e) == relay(p, p2.fresh(), postfix_tail(ts, p2.fresh(), e1))
        }),
{
    reveal(is_token);
    reveal(postfix_tail);
    reveal(postfix_tail_rule);
    reveal(expr);
    assert(postfix_tail(ts, p, e) == postfix_tail_rule(ts, p, e));
}

pub(super) proof fn step_no_index(ts: Words, p: St, e: ExprView)
    requires
        !token_is(ts, p.pos, Token::LBracket),
    ensures
        postfix_tail(ts, p, e) == ok(p, p, e),
{
    reveal(is_token);
    reveal(postfix_tail);
    reveal(postfix_tail_rule);
    reveal(expr);
    assert(postfix_tail(ts, p, e) == postfix_tail_rule(ts, p, e));
}

/// The tokens that are literals by themselves.
pub open spec fn literal_of(t: Token, text: Chars) -> Option<LiteralView> {
    match t {
        Token::Integer(_) => integer_literal(text),
        Token::Float(_) => Some(LiteralView::Float(text)),
        Token::String(_) => Some(LiteralView::Str(text)),
        Token::True => Some(LiteralView::Bool(true)),
        Token::False => Some(LiteralView::Bool(false)),
        _ => None,
    }
}

pub(super) proof fn step_literal(ts: Words, p: St)
    requires
        p.pos < ts.len(),
        literal_of(ts[p.pos as int].0, ts[p.pos as int].1) is Some,
    ensures
        primary(ts, p) == ok_node(
            p,
            p.step(),
            ExprKindView::Literal(literal_of(ts[p.pos as int].0, ts[p.pos as int].1)->0),
        ),
{
    reveal(literal);
    reveal(primary);
    reveal(primary_rule);
    reveal(dots);
    reveal(name_primary);
    reveal(expr);
    reveal(elements);
    assert(primary(ts, p) == primary_rule(ts, p));
}

pub(super) proof fn step_unit(ts: Words, p: St)
    requires
        token_is(ts, p.pos, Token::LParen),
        token_is(ts, p.pos + 1, Token::RParen),
    ensures
        primary(ts, p) == ok_node(
            p,
            p.step().step(),
            ExprKindView::Literal(LiteralView::Unit),
        ),
{
    reveal(is_token);
    reveal(literal);
    reveal(primary);
    reveal(primary_rule);
    reveal(dots);
    reveal(name_primary);
    reveal(expr);
    reveal(elements);
    assert(primary(ts, p) == primary_rule(ts, p));
}

pub(super) proof fn step_paren(ts: Words, p: St)
    requires
        token_is(ts, p.pos, Token::LParen),
        !token_is(ts, p.pos + 1, Token::RParen),
        expr(ts, p.step()).res is Ok,
        token_is(ts, p.pos + 1 + expr(ts, p.step()).adv, Token::RParen),
    ensures
        ({
            let o = expr(ts, p.step());
            primary(ts, p) == ok(p, p.step().after(o).step(), o.res->Ok_0)
        }),
{
    reveal(is_token);
    reveal(is_name);
    reveal(literal);
    reveal(primary);
    reveal(primary_rule);
    reveal(dots);
    reveal(name_primary);
    reveal(expr);
    reveal(elements);
    assert(primary(ts, p) == primary_rule(ts, p));
}

pub(super) proof fn step_array(ts: Words, p: St)
    requires
        token_is(ts, p.pos, Token::LBracket),
        elements(ts, p.step(), Seq::empty()).res is Ok,
        token_is(ts, p.pos + 1 + elements(ts, p.step(), Seq::empty()).adv, Token::RBracket),
    ensures
        ({
            let o = elements(ts, p.step(), Seq::empty());
            primary(ts, p) == ok_node(
                p,
                p.step().after(o).step(),
                ExprKindView::ArrayLiteral(o.res->Ok_0),
            )
        }),
{
    reveal(is_token);
    reveal(is_name);
    reveal(literal);
    reveal(primary);
    reveal(primary_rule);
    reveal(dots);
    reveal(name_primary);
    reveal(expr);
    reveal(elements);
    assert(primary(ts, p) == primary_rule(ts, p));
}

pub(super) proof fn step_own(ts: Words, p: St)
    requires
        token_is(ts, p.pos, Token::SelfLower),
    ensures
        ({
            let p1 = p.step();
            let e = node(p1, ExprKindView::Ident("self"@));
            primary(ts, p) == relay(p, p1.fresh(), dots(ts, p1.fresh(), e))
        }),
{
    reveal(is_token);
    reveal(literal);
    reveal(primary);
    reveal(primary_rule);
    reveal(dots);
    reveal(name_primary);
    reveal(expr);
    reveal(elements);
    assert(primary(ts, p) == primary_rule(ts, p));
}

proof fn step_name_primary(ts: Words, p: St, name: Chars)
    requires
        name_is(ts, p.pos, name),
    ensures
        primary(ts, p) == relay(p, p.step(), name_primary(ts, p.step(), name)),
{
    reveal(is_token);
    reveal(is_name);
    reveal(literal);
    reveal(primary);
    reveal(primary_rule);
    reveal(dots);
    reveal(name_primary);
    reveal(expr);
    reveal(elements);
    assert(primary(ts, p) == primary_rule(ts, p));
}

pub(super) proof fn step_name(ts: Words, p: St, name: Chars)
    requires
        name_is(ts, p.pos, name),
        name != "Sym"@,
        !token_is(ts, p.pos + 1, Token::PathSep),
        !token_is(ts, p.pos + 1, Token::LParen),
        p.no_struct || !token_is(ts, p.pos + 1, Token::LBrace),
    ensures
        ({
            let p1 = p.step();
            let e = node(p1, ExprKindView::Ident(name));
            primary(ts, p) == relay(p, p1.fresh(), dots(ts, p1.fresh(), e))
        }),
{
    step_name_primary(ts, p, name);
    reveal(is_token);
    reveal(name_primary);
    reveal(name_primary_rule);
    reveal(variant);
    reveal(named_call);
    reveal(dots);
    assert(name_primary(ts, p.step(), name) == name_primary_rule(ts, p.step(), name));
}

pub(super) proof fn step_call(ts: Words, p: St, name: Chars)
    requires
        name_is(ts, p.pos, name),
        name != "Sym"@,
        token_is(ts, p.pos + 1, Token::LParen),
        arguments(ts, p.step().step()).res is Ok,
    ensures
        ({
            let p2 = p.step().step();
            let o = arguments(ts, p2);
            primary(ts, p) == ok_node(
                p,
                p2.after(o),
                ExprKindView::Call {
                    qualifier: None,
                    func: name,
                    args: o.res->Ok_0,
                    is_method: false,
                },
            )
        }),
{
    step_name_primary(ts, p, name);
    reveal(is_token);
    reveal(name_primary);
    reveal(name_primary_rule);
    reveal(variant);
    reveal(named_call);
    reveal(dots);
    assert(name_primary(ts, p.step(), name) == name_primary_rule(ts, p.step(), name));
    reveal(named_call);
    reveal(named_call_rule);
    reveal(arguments);
    assert(named_call(ts, p.step(), name) == named_call_rule(ts, p.step(), name));
}

pub(super) proof fn step_variant(ts: Words, p: St, owner: Chars, name: Chars)
    requires
        name_is(ts, p.pos, owner),
        owner != "Sym"@,
        token_is(ts, p.pos + 1, Token::PathSep),
        name_is(ts, p.pos + 2, name),
        !token_is(ts, p.pos + 3, Token::LParen),
    ensures
        primary(ts, p) == ok_node(
            p,
            p.step().step().step(),
            ExprKindView::EnumVariantAccess { enum_name: owner, variant_name: name },
        ),
{
    step_name_primary(ts, p, owner);
    reveal(is_token);
    reveal(is_name);
    reveal(name_primary);
    reveal(name_primary_rule);
    reveal(variant);
    reveal(named_call);
    reveal(dots);
    assert(name_primary(ts, p.step(), owner) == name_primary_rule(ts, p.step(), owner));
    reveal(variant);
    reveal(variant_rule);
    reveal(arguments);
    assert(variant(ts, p.step(), owner) == variant_rule(ts, p.step(), owner));
}

pub(super) proof fn step_variant_of(ts: Words, p: St, owner: Chars, name: Chars)
    requires
        name_is(ts, p.pos, owner),
        owner != "Sym"@,
        token_is(ts, p.pos + 1, Token::PathSep),
        name_is(ts, p.pos + 2, name),
        token_is(ts, p.pos + 3, Token::LParen),
        arguments(ts, p.step().step().step().step()).res is Ok,
    ensures
        ({
            let p2 = p.step().step().step().step();
            let o = arguments(ts, p2);
            primary(ts, p) == ok_node(
                p,
                p2.after(o),
                ExprKindView::EnumVariantConstruction {
                    enum_name: owner,
                    variant_name: name,
                    args: o.res->Ok_0,
                },
            )
        }),
{
    step_name_primary(ts, p, owner);
    reveal(is_token);
    reveal(is_name);
    reveal(name_primary);
    reveal(name_primary_rule);
    reveal(variant);
    reveal(named_call);
    reveal(dots);
    assert(name_primary(ts, p.step(), owner) == name_primary_rule(ts, p.step(), owner));
    reveal(variant);
    reveal(variant_rule);
    reveal(arguments);
    assert(variant(ts, p.step(), owner) == variant_rule(ts, p.step(), owner));
}

pub(super) proof fn step_field(ts: Words, p: St, e: ExprView, name: Chars)
    requires
        token_is(ts, p.pos, Token::Dot),
        name_is(ts, p.pos + 1, name),
        !token_is(ts, p.pos + 2, Token::LParen),
    ensures
        ({
            let p1 = p.step().step();
            let e1 = node(
                p1,
                ExprKindView::FieldAccess { struct_expr: Box::new(e), field_name: name },
            );
            dots(ts, p, e) == relay(p, p1.fresh(), dots(ts, p1.fresh(), e1))
        }),
{
    reveal(is_token);
    reveal(is_name);
    reveal(dots);
    reveal(dots_rule);
    reveal(arguments);
    assert(dots(ts, p, e) == dots_rule(ts, p, e));
}

pub(super) proof fn step_method(ts: Words, p: St, e: ExprView, name: Chars)
    requires
        token_is(ts, p.pos, Token::Dot),
        name_is(ts, p.pos + 1, name),
        token_is(ts, p.pos + 2, Token::LParen),
        arguments(ts, p.step().step().step()).res is Ok,
    ensures
        ({
            let p1 = p.step().step().step();
            let o = arguments(ts, p1);
            let p2 = p1.after(o);
            let e1 = node(
                p2,
                ExprKindView::Call {
                    qualifier: None,
                    func: name,
                    args: seq![CallArgView::Positional(e)] + o.res->Ok_0,
                    is_method: true,
                },
            );
            dots(ts, p, e) == relay(p, p2.fresh(), dots(ts, p2.fresh(), e1))
        }),
{
    reveal(is_token);
    reveal(is_name);
    reveal(dots);
    reveal(dots_rule);
    reveal(arguments);
    assert(dots(ts, p, e) == dots_rule(ts, p, e));
}

pub(super) proof fn step_no_dot(ts: Words, p: St, e: ExprView)
    requires
        !token_is(ts, p.pos, Token::Dot),
    ensures
        dots(ts, p, e) == ok(p, p, e),
{
    reveal(is_token);
    reveal(dots);
    reveal(dots_rule);
    reveal(arguments);
    assert(dots(ts, p, e) == dots_rule(ts, p, e));
}

pub(super) proof fn step_arguments(ts: Words, p: St)
    requires
        call_args(ts, p, Seq::empty()).res is Ok,
        token_is(ts, p.pos + call_args(ts, p, Seq::empty()).adv, Token::RParen),
    ensures
        ({
            let o = call_args(ts, p, Seq::empty());
            arguments(ts, p) == ok(p, p.after(o).step(), o.res->Ok_0)
        }),
{
    reveal(is_token);
    reveal(arguments);
    reveal(arguments_rule);
    reveal(call_args);
    assert(arguments(ts, p) == arguments_rule(ts, p));
}

pub(super) proof fn step_no_argument(ts: Words, p: St, args: Seq<CallArgView>)
    requires
        token_is(ts, p.pos, Token::RParen),
    ensures
        call_args(ts, p, args) == ok(p, p, args),
{
    reveal(is_token);
    reveal(call_args);
    reveal(call_args_rule);
    reveal(expr);
    assert(call_args(ts, p, args) == call_args_rule(ts, p, args));
}

pub(super) proof fn step_argument(ts: Words, p: St, args: Seq<CallArgView>)
    requires
        p.pos < ts.len(),
        !token_is(ts, p.pos, Token::RParen),
        !token_is(ts, p.pos + 1, Token::Colon),
        expr(ts, p).res is Ok,
    ensures
        ({
            let o = expr(ts, p);
            let p1 = p.after(o);
            let args1 = args.push(CallArgView::Positional(o.res->Ok_0));
            call_args(ts, p, args) == if token_is(ts, p1.pos, Token::Comma) {
                relay(p, p1.step(), call_args(ts, p1.step(), args1))
            } else {
                ok(p, p1, args1)
            }
        }),
{
    reveal(is_token);
    reveal(is_name);
    reveal(call_args);
    reveal(call_args_rule);
    reveal(expr);
    assert(call_args(ts, p, args) == call_args_rule(ts, p, args));
}

pub(super) proof fn step_no_element(ts: Words, p: St, list: Seq<ExprView>)
    requires
        token_is(ts, p.pos, Token::RBracket),
    ensures
        elements(ts, p, list) == ok(p, p, list),
{
    reveal(is_token);
    reveal(elements);
    reveal(elements_rule);
    reveal(expr);
    assert(elements(ts, p, list) == elements_rule(ts, p, list));
}

pub(super) proof fn step_element(ts: Words, p: St, list: Seq<ExprView>)
    requires
        p.pos < ts.len(),
        !token_is(ts, p.pos, Token::RBracket),
        expr(ts, p).res is Ok,
    ensures
        ({
            let o = expr(ts, p);
            let p1 = p.after(o);
            let list1 = list.push(o.res->Ok_0);
            elements(ts, p, list) == if token_is(ts, p1.pos, Token::Comma) {
                relay(p, p1.step(), elements(ts, p1.step(), list1))
            } else {
                ok(p, p1, list1)
            }
        }),
{
    reveal(is_token);
    reveal(elements);
    reveal(elements_rule);
    reveal(expr);
    assert(elements(ts, p, list) == elements_rule(ts, p, list));
}

// Statements.

/// Whether a token starts a statement of its own kind.
pub open spec fn starts_stmt(t: Token) -> bool {
    match t {
        Token::Persist | Token::Let | Token::Var | Token::Break | Token::Return => true,
        Token::While | Token::For | Token::Loop | Token::If | Token::Lack | Token::Unsafe => true,
        _ => false,
    }
}

pub(super) proof fn step_block_primary(ts: Words, p: St)
    requires
        token_is(ts, p.pos, Token::LBrace),
        block(ts, p).res is Ok,
    ensures
        primary(ts, p) == ok_node(
            p,
            p.after(block(ts, p)),
            ExprKindView::Block(block(ts, p).res->Ok_0),
        ),
{
    reveal(is_token);
    reveal(is_name);
    reveal(literal);
    reveal(primary);
    reveal(primary_rule);
    reveal(block);
    assert(primary(ts, p) == primary_rule(ts, p));
}

pub(super) proof fn step_head(ts: Words, p: St)
    requires
        expr(ts, p.with_no_struct(true)).res is Ok,
    ensures
        ({
            let o = expr(ts, p.with_no_struct(true));
            head_expr(ts, p) == ok(p, p.after(o).with_no_struct(p.no_struct), o.res->Ok_0)
        }),
{
    reveal(head_expr);
    reveal(head_expr_rule);
    reveal(expr);
    assert(head_expr(ts, p) == head_expr_rule(ts, p));
}

pub(super) proof fn step_block(ts: Words, p: St)
    requires
        token_is(ts, p.pos, Token::LBrace),
        stmts(ts, p.step(), Seq::empty()).res is Ok,
        token_is(ts, p.pos + 1 + stmts(ts, p.step(), Seq::empty()).adv, Token::RBrace),
    ensures
        ({
            let o = stmts(ts, p.step(), Seq::empty());
            block(ts, p) == ok(
                p,
                p.step().after(o).step(),
                BlockView { stmts: o.res->Ok_0 },
            )
        }),
{
    reveal(is_token);
    reveal(block);
    reveal(block_rule);
    reveal(stmts);
    assert(block(ts, p) == block_rule(ts, p));
}

pub(super) proof fn step_no_stmt(ts: Words, p: St, list: Seq<StmtView>)
    requires
        token_is(ts, p.pos, Token::RBrace),
    ensures
        stmts(ts, p, list) == ok(p, p, list),
{
    reveal(is_token);
    reveal(stmts);
    reveal(stmts_rule);
    assert(stmts(ts, p, list) == stmts_rule(ts, p, list));
}

pub(super) proof fn step_stmts(ts: Words, p: St, list: Seq<StmtView>)
    requires
        p.pos < ts.len(),
        !token_is(ts, p.pos, Token::RBrace),
        stmt(ts, p).res is Ok,
        stmt(ts, p).adv > 0,
    ensures
        ({
            let o = stmt(ts, p);
            let p1 = p.after(o);
            stmts(ts, p, list) == relay(p, p1, stmts(ts, p1, list.push(o.res->Ok_0)))
        }),
{
    reveal(is_token);
    reveal(stmts);
    reveal(stmts_rule);
    reveal(stmt);
    assert(stmts(ts, p, list) == stmts_rule(ts, p, list));
}

/// Which rule a statement is read by.
#[verifier::spinoff_prover]
#[verifier::rlimit(80)]
pub(super) proof fn step_stmt(ts: Words, p: St)
    requires
        p.pos < ts.len(),
    ensures
        ({
            let t = ts[p.pos as int].0;
            let p1 = p.step();
            &&& t == Token::Break ==> stmt(ts, p) == break_stmt(ts, p)
            &&& t == Token::Return ==> stmt(ts, p) == return_stmt(ts, p)
            &&& t == Token::While ==> stmt(ts, p) == while_stmt(ts, p)
            &&& t == Token::For ==> stmt(ts, p) == for_stmt(ts, p)
            &&& t == Token::Loop ==> stmt(ts, p) == loop_stmt(ts, p)
            &&& t == Token::If ==> stmt(ts, p) == expr_stmt(ts, p)
            &&& !starts_stmt(t) ==> stmt(ts, p) == assign_stmt(ts, p)
            &&& t == Token::Let ==> stmt(ts, p) == relay(p, p1, binding(ts, p1, false, false))
            &&& t == Token::Var ==> stmt(ts, p) == relay(p, p1, binding(ts, p1, true, false))
            &&& t == Token::Persist && token_is(ts, p.pos + 1, Token::Let) ==> stmt(ts, p) == relay(
                p,
                p1.step(),
                binding(ts, p1.step(), false, true),
            )
            &&& t == Token::Persist && token_is(ts, p.pos + 1, Token::Var) ==> stmt(ts, p) == relay(
                p,
                p1.step(),
                binding(ts, p1.step(), true, true),
            )
        }),
{
    reveal(is_token);
    reveal(stmt);
    reveal(stmt_rule);
    reveal(return_stmt);
    reveal(while_stmt);
    reveal(for_stmt);
    reveal(loop_stmt);
    reveal(expr_stmt);
    reveal(assign_stmt);
    reveal(binding);
    assert(stmt(ts, p) == stmt_rule(ts, p));
}

pub(super) proof fn step_break(ts: Words, p: St)
    requires
        token_is(ts, p.pos, Token::Break),
        token_is(ts, p.pos + 1, Token::Semicolon),
    ensures
        break_stmt(ts, p) == ok(p, p.step().step(), StmtView::Break),
{
    reveal(is_token);
    reveal(break_stmt);
}

pub(super) proof fn step_return(ts: Words, p: St)
    requires
        token_is(ts, p.pos, Token::Return),
        token_is(ts, p.pos + 1, Token::Semicolon),
    ensures
        return_stmt(ts, p) == ok(p, p.step().step(), StmtView::Return(None)),
{
    reveal(is_token);
    reveal(return_stmt);
    reveal(return_stmt_rule);
    assert(return_stmt(ts, p) == return_stmt_rule(ts, p));
}

pub(super) proof fn step_return_value(ts: Words, p: St)
    requires
        token_is(ts, p.pos, Token::Return),
        !token_is(ts, p.pos + 1, Token::Semicolon),
        expr(ts, p.step()).res is Ok,
        token_is(ts, p.pos + 1 + expr(ts, p.step()).adv, Token::Semicolon),
    ensures
        ({
            let o = expr(ts, p.step());
            return_stmt(ts, p) == ok(
                p,
                p.step().after(o).step(),
                StmtView::Return(Some(o.res->Ok_0)),
            )
        }),
{
    reveal(is_token);
    reveal(return_stmt);
    reveal(return_stmt_rule);
    reveal(expr);
    assert(return_stmt(ts, p) == return_stmt_rule(ts, p));
}

pub(super) proof fn step_while(ts: Words, p: St)
    requires
        token_is(ts, p.pos, Token::While),
        head_expr(ts, p.step()).res is Ok,
        block(ts, p.step().after(head_expr(ts, p.step()))).res is Ok,
    ensures
        ({
            let o = head_expr(ts, p.step());
            let p1 = p.step().after(o);
            let o1 = block(ts, p1);
            while_stmt(ts, p) == ok(
                p,
                p1.after(o1),
                StmtView::While(
                    WhileStmtView { cond: Box::new(o.res->Ok_0), body: o1.res->Ok_0 },
                ),
            )
        }),
{
    reveal(is_token);
    reveal(while_stmt);
    reveal(while_stmt_rule);
    reveal(head_expr);
    reveal(block);
    assert(while_stmt(ts, p) == while_stmt_rule(ts, p));
}

pub(super) proof fn step_loop(ts: Words, p: St)
    requires
        token_is(ts, p.pos, Token::Loop),
        block(ts, p.step()).res is Ok,
    ensures
        ({
            let o = block(ts, p.step());
            loop_stmt(ts, p) == ok(
                p,
                p.step().after(o),
                StmtView::Loop(LoopStmtView { body: o.res->Ok_0 }),
            )
        }),
{
    reveal(is_token);
    reveal(loop_stmt);
    reveal(loop_stmt_rule);
    reveal(block);
    assert(loop_stmt(ts, p) == loop_stmt_rule(ts, p));
}

pub(super) proof fn step_for(ts: Words, p: St, var: Chars)
    requires
        token_is(ts, p.pos, Token::For),
        name_is(ts, p.pos + 1, var),
        token_is(ts, p.pos + 2, Token::In),
        head_expr(ts, p.step().step().step()).res is Ok,
        block(
            ts,
            p.step().step().step().after(head_expr(ts, p.step().step().step())),
        ).res is Ok,
    ensures
        ({
            let p0 = p.step().step().step();
            let o = head_expr(ts, p0);
            let p1 = p0.after(o);
            let o1 = block(ts, p1);
            for_stmt(ts, p) == ok(
                p,
                p1.after(o1),
                StmtView::For(
                    ForStmtView {
                        var,
                        iterable: Box::new(o.res->Ok_0),
                        body: o1.res->Ok_0,
                    },
                ),
            )
        }),
{
    reveal(is_token);
    reveal(is_name);
    reveal(for_stmt);
    reveal(for_stmt_rule);
    reveal(head_expr);
    reveal(block);
    assert(for_stmt(ts, p) == for_stmt_rule(ts, p));
}

/// A binding without a type.
pub(super) proof fn step_binding(ts: Words, p: St, mutable: bool, persist: bool, name: Chars)
    requires
        name_is(ts, p.pos, name),
        token_is(ts, p.pos + 1, Token::Eq),
        expr(ts, p.step().step()).res is Ok,
        token_is(ts, p.pos + 2 + expr(ts, p.step().step()).adv, Token::Semicolon),
    ensures
        ({
            let o = expr(ts, p.step().step());
            binding(ts, p, mutable, persist) == ok(
                p,
                p.step().step().after(o).step(),
                StmtView::Let(
                    LetStmtView {
                        name,
                        ty: None,
                        init: Box::new(o.res->Ok_0),
                        mutable,
                        persist,
                    },
                ),
            )
        }),
{
    reveal(is_token);
    reveal(is_name);
    reveal(optional_type);
    reveal(binding);
    reveal(binding_rule);
    reveal(expr);
    assert(binding(ts, p, mutable, persist) == binding_rule(ts, p, mutable, persist));
}

/// A binding with a type that is a keyword.
pub(super) proof fn step_typed_binding(
    ts: Words,
    p: St,
    mutable: bool,
    persist: bool,
    name: Chars,
    to: Token,
)
    requires
        name_is(ts, p.pos, name),
        token_is(ts, p.pos + 1, Token::Colon),
        token_is(ts, p.pos + 2, to),
        primitive(to) is Some,
        token_is(ts, p.pos + 3, Token::Eq),
        expr(ts, p.step().step().step().step()).res is Ok,
        token_is(ts, p.pos + 4 + expr(ts, p.step().step().step().step()).adv, Token::Semicolon),
    ensures
        ({
            let p0 = p.step().step().step().step();
            let o = expr(ts, p0);
            binding(ts, p, mutable, persist) == ok(
                p,
                p0.after(o).step(),
                StmtView::Let(
                    LetStmtView {
                        name,
                        ty: Some(primitive(to)->0),
                        init: Box::new(o.res->Ok_0),
                        mutable,
                        persist,
                    },
                ),
            )
        }),
{
    reveal(is_token);
    reveal(is_name);
    let p2 = p.step().step();
    assert(ty(ts, p2) == ok(p2, p2.step(), primitive(to)->0)) by {
        reveal(ty);
        assert(primitive(Token::Amp) is None && primitive(Token::LParen) is None && primitive(
            Token::LBracket,
        ) is None) by {
            reveal(primitive);
        }
    }
    reveal(optional_type);
    reveal(binding);
    reveal(binding_rule);
    reveal(expr);
    assert(binding(ts, p, mutable, persist) == binding_rule(ts, p, mutable, persist));
}

/// An expression as a statement.
pub(super) proof fn step_bare(ts: Words, p: St)
    requires
        expr(ts, p).res is Ok,
        token_is(ts, p.pos + expr(ts, p).adv, Token::Semicolon),
    ensures
        ({
            let o = expr(ts, p);
            let s = ok(p, p.after(o).step(), StmtView::ExprStmt(o.res->Ok_0));
            assign_stmt(ts, p) == s && expr_stmt(ts, p) == s
        }),
{
    reveal(is_token);
    reveal(assign_op);
    reveal(assign_stmt);
    reveal(assign_stmt_rule);
    reveal(expr_stmt);
    reveal(expr_stmt_rule);
    reveal(expr);
    assert(assign_stmt(ts, p) == assign_stmt_rule(ts, p));
    assert(expr_stmt(ts, p) == expr_stmt_rule(ts, p));
}

/// An assignment.
pub(super) proof fn step_assign(ts: Words, p: St)
    requires
        expr(ts, p).res is Ok,
        token_is(ts, p.pos + expr(ts, p).adv, Token::Eq),
        expr(ts, p.after(expr(ts, p)).step()).res is Ok,
        token_is(
            ts,
            p.pos + expr(ts, p).adv + 1 + expr(ts, p.after(expr(ts, p)).step()).adv,
            Token::Semicolon,
        ),
    ensures
        ({
            let o = expr(ts, p);
            let p1 = p.after(o).step();
            let o1 = expr(ts, p1);
            assign_stmt(ts, p) == ok(
                p,
                p1.after(o1).step(),
                StmtView::Assign(
                    AssignStmtView {
                        target: Box::new(o.res->Ok_0),
                        expr: Box::new(o1.res->Ok_0),
                    },
                ),
            )
        }),
{
    reveal(is_token);
    reveal(assign_op);
    reveal(assign_stmt);
    reveal(assign_stmt_rule);
    reveal(expr);
    assert(assign_stmt(ts, p) == assign_stmt_rule(ts, p));
}

/// The target and the value of an assignment that applies an operator, and what it
/// comes to.
pub(super) proof fn step_compound(ts: Words, p: St)
    requires
        expr(ts, p).res is Ok,
        p.pos + expr(ts, p).adv < ts.len(),
        assign_op(ts[p.pos as int + expr(ts, p).adv].0) is Some,
        expr(ts, p.after(expr(ts, p)).step()).res is Ok,
        token_is(
            ts,
            p.pos + expr(ts, p).adv + 1 + expr(ts, p.after(expr(ts, p)).step()).adv,
            Token::Semicolon,
        ),
    ensures
        ({
            let o = expr(ts, p);
            let p1 = p.after(o).step();
            let o1 = expr(ts, p1);
            let p2 = p1.after(o1).step();
            let op = assign_op(ts[p.pos as int + o.adv].0)->0;
            assign_stmt(ts, p) == ok(
                p,
                p2.fresh(),
                StmtView::Assign(
                    AssignStmtView {
                        target: Box::new(o.res->Ok_0),
                        expr: Box::new(
                            node(
                                p2,
                                ExprKindView::BinaryOp {
                                    op,
                                    left: Box::new(o.res->Ok_0),
                                    right: Box::new(o1.res->Ok_0),
                                },
                            ),
                        ),
                    },
                ),
            )
        }),
{
    reveal(is_token);
    reveal(assign_stmt);
    reveal(assign_stmt_rule);
    reveal(expr);
    assert(assign_stmt(ts, p) == assign_stmt_rule(ts, p));
}

pub(super) proof fn step_if(ts: Words, p: St)
    requires
        token_is(ts, p.pos, Token::If),
        head_expr(ts, p.step()).res is Ok,
        expr(ts, p.step().after(head_expr(ts, p.step()))).res is Ok,
        ({
            let p2 = p.step().after(head_expr(ts, p.step()));
            let p3 = p2.after(expr(ts, p2));
            token_is(ts, p3.pos, Token::Else) ==> expr(ts, p3.step()).res is Ok
        }),
    ensures
        ({
            let o2 = head_expr(ts, p.step());
            let p2 = p.step().after(o2);
            let o3 = expr(ts, p2);
            let p3 = p2.after(o3);
            let o4 = expr(ts, p3.step());
            let other = token_is(ts, p3.pos, Token::Else);
            expr(ts, p) == ok_node(
                p,
                if other {
                    p3.step().after(o4)
                } else {
                    p3
                },
                ExprKindView::If {
                    kind: IfKind::Normal,
                    cond: Box::new(o2.res->Ok_0),
                    then_expr: Box::new(o3.res->Ok_0),
                    else_expr: if other {
                        Some(Box::new(o4.res->Ok_0))
                    } else {
                        None
                    },
                },
            )
        }),
{
    reveal(is_token);
    assert(expr(ts, p) == if_expr(ts, p)) by {
        reveal(expr);
        reveal(expr_rule);
        reveal(if_expr);
        assert(expr(ts, p) == expr_rule(ts, p));
    }
    reveal(if_expr);
    reveal(if_expr_rule);
    reveal(head_expr);
    reveal(expr);
    assert(if_expr(ts, p) == if_expr_rule(ts, p));
}

/// A type that is a keyword.
pub(super) proof fn step_type(ts: Words, p: St, to: Token)
    requires
        token_is(ts, p.pos, to),
        primitive(to) is Some,
    ensures
        ty(ts, p) == ok(p, p.step(), primitive(to)->0),
{
    reveal(is_token);
    reveal(ty);
    assert(primitive(Token::Amp) is None && primitive(Token::LParen) is None && primitive(
        Token::LBracket,
    ) is None) by {
        reveal(primitive);
    }
}

} // verus!
