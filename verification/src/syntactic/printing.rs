//! How trees are written, and that the parser reads them back.
use crate::ast::{BinaryOp, CallArgView, ExprKindView, ExprView, LiteralView, UnaryOp};
use crate::lexer::Span;
use crate::literal::integer_literal;
use crate::symbol_pool::Symbol;
use crate::syntactic::grammar::{
    arguments, binary, binary_op, binary_tail, call_args, cast, cast_tail, dots, elements, expr,
    lemma_binary_zero, node, Out, postfix, postfix_tail, primary, primitive, relay, St, unary,
    Words,
};
use crate::syntactic::steps::{
    literal_of, name_is, step_argument, step_arguments, step_array, step_as, step_binary, step_call,
    step_cast, step_element, step_expr, step_field, step_index, step_literal, step_method,
    step_name, step_no_argument, step_no_as, step_no_dot, step_no_element, step_no_index,
    step_no_operator, step_no_sign, step_operator, step_own, step_paren, step_postfix, step_range,
    step_sign, step_unit, step_variant, step_variant_of, token_is,
};
use crate::text::Chars;
use crate::token::Token;
use vstd::prelude::*;

verus! {

/// An expression without the numbers of its parts.
pub enum Tree {
    Name(Chars),
    /// `self`.
    Own,
    Int(Chars),
    Float(Chars),
    Str(Chars),
    Bool(bool),
    Unit,
    Unary(UnaryOp, Box<Tree>),
    Binary(BinaryOp, Box<Tree>, Box<Tree>),
    Cast(Box<Tree>, Token),
    Index(Box<Tree>, Box<Tree>),
    Field(Box<Tree>, Chars),
    Method(Box<Tree>, Chars, Seq<Tree>),
    Call(Chars, Seq<Tree>),
    Variant(Chars, Chars),
    VariantOf(Chars, Chars, Seq<Tree>),
    Array(Seq<Tree>),
}

/// What a tree leaves open of its tokens: the symbols of names and the spans of
/// literals.
pub struct Ink {
    pub symbol: spec_fn(Chars) -> Symbol,
    pub span: spec_fn(Chars) -> Span,
}

/// The token of an operator between two operands.
pub open spec fn op_token(op: BinaryOp) -> Token {
    match op {
        BinaryOp::Add => Token::Plus,
        BinaryOp::Sub => Token::Minus,
        BinaryOp::Mul => Token::Star,
        BinaryOp::Div => Token::Slash,
        BinaryOp::Mod => Token::Percent,
        BinaryOp::Eq => Token::EqEq,
        BinaryOp::Neq => Token::Neq,
        BinaryOp::Lt => Token::Lt,
        BinaryOp::Gt => Token::Gt,
        BinaryOp::Le => Token::Le,
        BinaryOp::Ge => Token::Ge,
        BinaryOp::And => Token::And,
        BinaryOp::Or => Token::Or,
    }
}

/// The token of an operator before its operand.
pub open spec fn sign_token(op: UnaryOp) -> Token {
    match op {
        UnaryOp::Not => Token::Bang,
        UnaryOp::Neg => Token::Minus,
    }
}

/// How loosely an operator binds: `*` before `+` before `==` before `&&` before `|=`.
pub open spec fn op_rank(op: BinaryOp) -> int {
    match op {
        BinaryOp::Mul | BinaryOp::Div | BinaryOp::Mod => 4,
        BinaryOp::Add | BinaryOp::Sub => 5,
        BinaryOp::Eq | BinaryOp::Neq | BinaryOp::Lt | BinaryOp::Gt | BinaryOp::Le
        | BinaryOp::Ge => 6,
        BinaryOp::And => 7,
        BinaryOp::Or => 8,
    }
}

/// How loosely the parts of a tree hang together.
pub open spec fn rank(t: Tree) -> int {
    match t {
        Tree::Index(_, _) => 1,
        Tree::Unary(_, _) => 2,
        Tree::Cast(_, _) => 3,
        Tree::Binary(op, _, _) => op_rank(op),
        _ => 0,
    }
}

/// A token that has only one spelling.
pub open spec fn mark(t: Token) -> Words {
    seq![(t, t.fixed_text())]
}

/// A name.
pub open spec fn name_word(ink: Ink, name: Chars) -> Words {
    seq![(Token::Ident((ink.symbol)(name)), name)]
}

/// A tree, in parentheses where it is looser than `r`.
pub open spec fn print(ink: Ink, t: Tree, r: int) -> Words
    decreases t, 1nat,
{
    if rank(t) > r {
        mark(Token::LParen) + bare(ink, t) + mark(Token::RParen)
    } else {
        bare(ink, t)
    }
}

/// A tree. Operators of one rank group from the left.
#[verifier::opaque]
pub open spec fn bare(ink: Ink, t: Tree) -> Words
    decreases t, 0nat,
{
    match t {
        Tree::Name(name) => name_word(ink, name),
        Tree::Own => mark(Token::SelfLower),
        Tree::Int(text) => seq![(Token::Integer((ink.span)(text)), text)],
        Tree::Float(text) => seq![(Token::Float((ink.span)(text)), text)],
        Tree::Str(text) => seq![(Token::String((ink.span)(text)), text)],
        Tree::Bool(true) => mark(Token::True),
        Tree::Bool(false) => mark(Token::False),
        Tree::Unit => mark(Token::LParen) + mark(Token::RParen),
        Tree::Unary(op, x) => mark(sign_token(op)) + print(ink, *x, 2),
        Tree::Binary(op, x, y) => print(ink, *x, op_rank(op)) + (mark(op_token(op)) + print(
            ink,
            *y,
            op_rank(op) - 1,
        )),
        Tree::Cast(x, to) => print(ink, *x, 3) + (mark(Token::As) + mark(to)),
        Tree::Index(x, i) => print(ink, *x, 1) + (mark(Token::LBracket) + (print(ink, *i, 8)
            + mark(Token::RBracket))),
        Tree::Field(x, name) => print(ink, *x, 0) + (mark(Token::Dot) + name_word(ink, name)),
        Tree::Method(x, name, args) => print(ink, *x, 0) + ((mark(Token::Dot) + name_word(
            ink,
            name,
        )) + (mark(Token::LParen) + (print_list(ink, args, 0) + mark(Token::RParen)))),
        Tree::Call(name, args) => name_word(ink, name) + (mark(Token::LParen) + (print_list(
            ink,
            args,
            0,
        ) + mark(Token::RParen))),
        Tree::Variant(owner, name) => name_word(ink, owner) + (mark(Token::PathSep) + name_word(
            ink,
            name,
        )),
        Tree::VariantOf(owner, name, args) => (name_word(ink, owner) + (mark(Token::PathSep)
            + name_word(ink, name))) + (mark(Token::LParen) + (print_list(ink, args, 0) + mark(
            Token::RParen,
        ))),
        Tree::Array(list) => mark(Token::LBracket) + (print_list(ink, list, 0) + mark(
            Token::RBracket,
        )),
    }
}

/// Trees from the `i`-th on, with commas between them.
pub open spec fn print_list(ink: Ink, list: Seq<Tree>, i: nat) -> Words
    decreases list, list.len() - i,
{
    if i >= list.len() {
        Seq::empty()
    } else if i + 1 == list.len() {
        print(ink, list[i as int], 8)
    } else {
        print(ink, list[i as int], 8) + (mark(Token::Comma) + print_list(ink, list, i + 1))
    }
}

/// Whether points may stand behind a tree.
pub open spec fn is_chain(t: Tree) -> bool {
    t is Name || t is Own || t is Field || t is Method
}

/// Whether a tree can be written: its numbers are numbers, its types are keywords, no name
/// is `Sym`, and points stand only behind names.
pub open spec fn writable(t: Tree) -> bool
    decreases t, 1nat,
{
    match t {
        Tree::Name(name) => name != "Sym"@,
        Tree::Int(text) => integer_literal(text) is Some,
        Tree::Unary(_, x) => writable(*x),
        Tree::Binary(_, x, y) => writable(*x) && writable(*y),
        Tree::Cast(x, to) => writable(*x) && primitive(to) is Some,
        Tree::Index(x, i) => writable(*x) && writable(*i),
        Tree::Field(x, _) => writable(*x) && is_chain(*x),
        Tree::Method(x, _, args) => writable(*x) && is_chain(*x) && all_writable(args, 0),
        Tree::Call(name, args) => name != "Sym"@ && all_writable(args, 0),
        Tree::Variant(owner, _) => owner != "Sym"@,
        Tree::VariantOf(owner, _, args) => owner != "Sym"@ && all_writable(args, 0),
        Tree::Array(list) => all_writable(list, 0),
        _ => true,
    }
}

pub open spec fn all_writable(list: Seq<Tree>, i: nat) -> bool
    decreases list, list.len() - i,
{
    i >= list.len() || (writable(list[i as int]) && all_writable(list, i + 1))
}

/// Whether an expression is that tree, whatever the numbers of its parts are.
#[verifier::opaque]
pub open spec fn is_tree(e: ExprView, t: Tree) -> bool
    decreases t, 1nat,
{
    match t {
        Tree::Name(name) => e.kind == ExprKindView::Ident(name),
        Tree::Own => e.kind == ExprKindView::Ident("self"@),
        Tree::Int(text) => e.kind matches ExprKindView::Literal(l) && integer_literal(text) == Some(
            l,
        ),
        Tree::Float(text) => e.kind == ExprKindView::Literal(LiteralView::Float(text)),
        Tree::Str(text) => e.kind == ExprKindView::Literal(LiteralView::Str(text)),
        Tree::Bool(v) => e.kind == ExprKindView::Literal(LiteralView::Bool(v)),
        Tree::Unit => e.kind == ExprKindView::Literal(LiteralView::Unit),
        Tree::Unary(op, x) => e.kind matches ExprKindView::Unary { op: op1, expr } && op1 == op
            && is_tree(*expr, *x),
        Tree::Binary(op, x, y) => e.kind matches ExprKindView::BinaryOp { op: op1, left, right }
            && op1 == op && is_tree(*left, *x) && is_tree(*right, *y),
        Tree::Cast(x, to) => e.kind matches ExprKindView::Cast { expr, ty } && primitive(to)
            == Some(ty) && is_tree(*expr, *x),
        Tree::Index(x, i) => e.kind matches ExprKindView::Index { expr, index } && is_tree(
            *expr,
            *x,
        ) && is_tree(*index, *i),
        Tree::Field(x, name) => e.kind matches ExprKindView::FieldAccess { struct_expr, field_name }
            && field_name == name && is_tree(*struct_expr, *x),
        Tree::Method(x, name, list) => e.kind matches ExprKindView::Call {
            qualifier,
            func,
            args,
            is_method,
        } && qualifier is None && func == name && is_method && args.len() == list.len() + 1 && (
        args[0] matches CallArgView::Positional(x1) && is_tree(x1, *x)) && are_args(
            args.skip(1),
            list,
            0,
        ),
        Tree::Call(name, list) => e.kind matches ExprKindView::Call {
            qualifier,
            func,
            args,
            is_method,
        } && qualifier is None && func == name && !is_method && args.len() == list.len()
            && are_args(args, list, 0),
        Tree::Variant(owner, name) => e.kind == ExprKindView::EnumVariantAccess {
            enum_name: owner,
            variant_name: name,
        },
        Tree::VariantOf(owner, name, list) => {
            e.kind matches ExprKindView::EnumVariantConstruction { enum_name, variant_name, args }
                && enum_name == owner && variant_name == name && args.len() == list.len()
                && are_args(args, list, 0)
        },
        Tree::Array(list) => e.kind matches ExprKindView::ArrayLiteral(es) && es.len()
            == list.len() && are_trees(es, list, 0),
    }
}

/// Whether arguments from the `i`-th on are those trees, without names.
pub open spec fn are_args(args: Seq<CallArgView>, list: Seq<Tree>, i: nat) -> bool
    decreases list, list.len() - i,
{
    i >= list.len() || ((args[i as int] matches CallArgView::Positional(e) && is_tree(
        e,
        list[i as int],
    )) && are_args(args, list, i + 1))
}

/// Whether expressions from the `i`-th on are those trees.
pub open spec fn are_trees(es: Seq<ExprView>, list: Seq<Tree>, i: nat) -> bool
    decreases list, list.len() - i,
{
    i >= list.len() || (is_tree(es[i as int], list[i as int]) && are_trees(es, list, i + 1))
}

/// Whether those words stand at a place.
#[verifier::opaque]
pub open spec fn stands(ts: Words, at: nat, w: Words) -> bool {
    at + w.len() <= ts.len() && forall|k: int| 0 <= k < w.len() ==> ts[at + k] == #[trigger] w[k]
}

/// Whether a token goes on with a tree that is no looser than `r`.
pub open spec fn goes_on(t: Token, r: int, no_struct: bool) -> bool {
    match t {
        Token::LParen | Token::PathSep => true,
        Token::LBrace => !no_struct,
        Token::Dot => r >= 0,
        Token::LBracket => r >= 1,
        Token::As => r >= 3,
        Token::Star | Token::Slash | Token::Percent => r >= 4,
        Token::Plus | Token::Minus => r >= 5,
        Token::EqEq | Token::Neq | Token::Lt | Token::Gt | Token::Le | Token::Ge => r >= 6,
        Token::And => r >= 7,
        Token::Or => r >= 8,
        _ => false,
    }
}

/// Whether a tree that is no looser than `r` ends at a place.
pub open spec fn stops(ts: Words, at: nat, r: int, no_struct: bool) -> bool {
    at >= ts.len() || !goes_on(ts[at as int].0, r, no_struct)
}

/// Whether a phrase reads `n` tokens as that tree.
pub open spec fn reads(o: Out<ExprView>, p: St, n: nat, t: Tree) -> bool {
    &&& o.res matches Ok(e) && is_tree(e, t)
    &&& o.adv == n
    &&& o.no_struct == p.no_struct
    &&& o.scopes == p.scopes
}

/// The state behind `n` tokens.
pub open spec fn behind(p: St, n: nat, ids: nat) -> St {
    St { pos: p.pos + n, ids, ..p }
}

pub(super) proof fn lemma_stands(ts: Words, at: nat, a: Words, b: Words)
    requires
        stands(ts, at, a + b),
    ensures
        stands(ts, at, a),
        stands(ts, at + a.len(), b),
        (a + b).len() == a.len() + b.len(),
{
    reveal(stands);
    let w = a + b;
    assert forall|k: int| 0 <= k < a.len() implies ts[at + k] == #[trigger] a[k] by {
        assert(w[k] == a[k]);
    }
    assert forall|k: int| 0 <= k < b.len() implies ts[at + a.len() + k] == #[trigger] b[k] by {
        assert(w[a.len() + k] == b[k]);
    }
}

/// One token that stands at a place.
pub(super) proof fn lemma_mark(ts: Words, at: nat, t: Token)
    requires
        stands(ts, at, mark(t)),
    ensures
        token_is(ts, at, t),
        mark(t).len() == 1,
{
    reveal(stands);
    assert(mark(t)[0].0 == t);
    assert(ts[at as int + 0] == mark(t)[0]);
}

pub(super) proof fn lemma_name(ts: Words, at: nat, ink: Ink, name: Chars)
    requires
        stands(ts, at, name_word(ink, name)),
    ensures
        name_is(ts, at, name),
        name_word(ink, name).len() == 1,
{
    reveal(stands);
    let w = name_word(ink, name);
    assert(ts[at as int + 0] == w[0]);
}

/// What a tree can start with.
pub open spec fn opens(t: Token, r: int) -> bool {
    match t {
        Token::Ident(_) | Token::Integer(_) | Token::Float(_) | Token::String(_) => true,
        Token::SelfLower | Token::True | Token::False | Token::LParen | Token::LBracket => true,
        Token::Bang | Token::Minus => r >= 2,
        _ => false,
    }
}

/// Whether no token of a list is a colon.
#[verifier::opaque]
pub open spec fn no_colon(w: Words) -> bool {
    forall|k: int| 0 <= k < w.len() ==> (#[trigger] w[k]).0 != Token::Colon
}

proof fn lemma_no_colon(a: Words, b: Words)
    requires
        no_colon(a),
        no_colon(b),
    ensures
        no_colon(a + b),
{
    reveal(no_colon);
}

/// The first words of those that stand at a place.
pub(super) proof fn lemma_first(ts: Words, at: nat, w: Words)
    requires
        stands(ts, at, w),
    ensures
        at + w.len() <= ts.len(),
        w.len() > 0 ==> ts[at as int] == w[0],
        w.len() > 1 ==> ts[at as int + 1] == w[1],
{
    reveal(stands);
    if w.len() > 0 {
        assert(ts[at as int + 0] == w[0]);
    }
    if w.len() > 1 {
        assert(ts[at as int + 1] == w[1]);
    }
}

pub(super) proof fn lemma_print(ink: Ink, t: Tree, r: int)
    ensures
        print(ink, t, r) == (if rank(t) > r {
            mark(Token::LParen) + bare(ink, t) + mark(Token::RParen)
        } else {
            bare(ink, t)
        }),
{
    reveal(bare);
}

/// The first token of a tree.
pub(super) proof fn lemma_opens(ink: Ink, t: Tree, r: int)
    requires
        writable(t),
        r >= 0,
    ensures
        print(ink, t, r).len() > 0,
        opens(print(ink, t, r)[0].0, r),
        no_colon(print(ink, t, r)),
    decreases t, 1nat,
{
    lemma_opens_bare(ink, t);
    lemma_print(ink, t, r);
    reveal(no_colon);
    if rank(t) <= r {
        assert(opens(bare(ink, t)[0].0, r));
    } else {
        lemma_no_colon(mark(Token::LParen), bare(ink, t));
        lemma_no_colon(mark(Token::LParen) + bare(ink, t), mark(Token::RParen));
    }
}

#[verifier::spinoff_prover]
#[verifier::rlimit(40)]
proof fn lemma_opens_bare(ink: Ink, t: Tree)
    requires
        writable(t),
    ensures
        bare(ink, t).len() > 0,
        opens(bare(ink, t)[0].0, rank(t)),
        no_colon(bare(ink, t)),
    decreases t, 0nat,
{
    reveal(bare);
    reveal(no_colon);
    match t {
        Tree::Unary(op, x) => {
            lemma_opens(ink, *x, 2);
        },
        Tree::Binary(op, x, y) => {
            lemma_opens(ink, *x, op_rank(op));
            lemma_opens(ink, *y, op_rank(op) - 1);
        },
        Tree::Cast(x, to) => {
            lemma_opens(ink, *x, 3);
            reveal(primitive);
        },
        Tree::Index(x, i) => {
            lemma_opens(ink, *x, 1);
            lemma_opens(ink, *i, 8);
        },
        Tree::Field(x, name) => {
            lemma_opens(ink, *x, 0);
        },
        Tree::Method(x, name, args) => {
            lemma_opens(ink, *x, 0);
            lemma_opens_list(ink, args, 0);
        },
        Tree::Call(name, args) => {
            lemma_opens_list(ink, args, 0);
        },
        Tree::VariantOf(owner, name, args) => {
            lemma_opens_list(ink, args, 0);
        },
        Tree::Array(list) => {
            lemma_opens_list(ink, list, 0);
        },
        _ => {},
    }
}

proof fn lemma_opens_list(ink: Ink, list: Seq<Tree>, i: nat)
    requires
        all_writable(list, i),
    ensures
        no_colon(print_list(ink, list, i)),
        i < list.len() ==> print_list(ink, list, i).len() > 0 && opens(
            print_list(ink, list, i)[0].0,
            8,
        ),
    decreases list, list.len() - i,
{
    reveal(no_colon);
    if i < list.len() {
        lemma_opens(ink, list[i as int], 8);
        lemma_opens_list(ink, list, i + 1);
    }
}

/// How far a tree is from being read at a rank: behind its parentheses, if it has any.
pub open spec fn distance(t: Tree, r: int) -> nat {
    if rank(t) > r {
        (20 + r) as nat
    } else {
        r as nat
    }
}

/// Whether a phrase has read `n` tokens as that tree and goes on as `rest`.
pub open spec fn leads(
    o: Out<ExprView>,
    p: St,
    n: nat,
    t: Tree,
    e: ExprView,
    q: St,
    rest: Out<ExprView>,
) -> bool {
    is_tree(e, t) && q == behind(p, n, q.ids) && o == relay(p, q, rest)
}

/// A phrase behind a first one.
proof fn lemma_relay(p: St, q: St, q1: St, o: Out<ExprView>)
    requires
        p.pos <= q.pos <= q1.pos,
    ensures
        relay(p, q, relay(q, q1, o)) == relay(p, q1, o),
{
}

/// An expression.
pub(super) proof fn lemma_reads_expr(ts: Words, p: St, ink: Ink, t: Tree)
    requires
        writable(t),
        stands(ts, p.pos, print(ink, t, 8)),
        stops(ts, p.pos + print(ink, t, 8).len(), 8, p.no_struct),
        !token_is(ts, p.pos + print(ink, t, 8).len(), Token::Range),
    ensures
        reads(expr(ts, p), p, print(ink, t, 8).len(), t),
    decreases t, 10nat, 0nat,
{
    let w = print(ink, t, 8);
    lemma_opens(ink, t, 8);
    lemma_first(ts, p.pos, w);
    lemma_reads_binary(ts, p, ink, t, 5);
    step_expr(ts, p);
    step_range(ts, p);
}

/// Operands with operators between them, up to the end.
pub(super) proof fn lemma_reads_binary(ts: Words, p: St, ink: Ink, t: Tree, level: nat)
    requires
        level <= 5,
        writable(t),
        stands(ts, p.pos, print(ink, t, level as int + 3)),
        stops(ts, p.pos + print(ink, t, level as int + 3).len(), level as int + 3, p.no_struct),
    ensures
        reads(binary(ts, p, level), p, print(ink, t, level as int + 3).len(), t),
    decreases t, distance(t, level as int + 3), 2nat,
{
    if level == 0 {
        lemma_binary_zero(ts, p);
        lemma_reads_cast(ts, p, ink, t);
    } else {
        lemma_weaker(
            ts,
            p.pos + print(ink, t, level as int + 3).len(),
            level as int + 3,
            p.no_struct,
        );
        let (e, q) = lemma_leads_binary(ts, p, ink, t, level);
        if q.pos < ts.len() {
            lemma_levels(level, ts[q.pos as int].0, p.no_struct);
        }
        step_no_operator(ts, q, level, e);
    }
}

/// A tree that ends ends for tighter ones too.
proof fn lemma_weaker(ts: Words, at: nat, r: int, no_struct: bool)
    requires
        stops(ts, at, r, no_struct),
    ensures
        stops(ts, at, r - 1, no_struct),
{
}

/// A token that does not go on is no operator of the level.
pub(super) proof fn lemma_levels(level: nat, t: Token, no_struct: bool)
    requires
        1 <= level <= 5,
        !goes_on(t, level as int + 3, no_struct),
    ensures
        binary_op(level, t) is None,
{
    reveal(binary_op);
}

/// The token of an operator, at its level.
pub(super) proof fn lemma_op_token(op: BinaryOp, level: nat)
    requires
        op_rank(op) == level as int + 3,
    ensures
        binary_op(level, op_token(op)) == Some(op),
        1 <= level <= 5,
        !goes_on(op_token(op), level as int + 2, true),
        !goes_on(op_token(op), level as int + 2, false),
{
    reveal(binary_op);
}

proof fn lemma_leads_binary(ts: Words, p: St, ink: Ink, t: Tree, level: nat) -> (r: (ExprView, St))
    requires
        1 <= level <= 5,
        writable(t),
        stands(ts, p.pos, print(ink, t, level as int + 3)),
        stops(ts, p.pos + print(ink, t, level as int + 3).len(), level as int + 2, p.no_struct),
    ensures
        leads(
            binary(ts, p, level),
            p,
            print(ink, t, level as int + 3).len(),
            t,
            r.0,
            r.1,
            binary_tail(ts, r.1, level, r.0),
        ),
    decreases t, distance(t, level as int + 3), 1nat,
{
    if rank(t) == level as int + 3 {
        match t {
            Tree::Binary(op, x, y) => {
                let a = print(ink, *x, op_rank(op));
                let c = print(ink, *y, op_rank(op) - 1);
                let m = mark(op_token(op));
                assert(bare(ink, t) == a + (m + c)) by {
                    reveal(bare);
                }
                lemma_stands(ts, p.pos, a, m + c);
                lemma_stands(ts, p.pos + a.len(), m, c);
                lemma_mark(ts, p.pos + a.len(), op_token(op));
                lemma_op_token(op, level);
                let (l, q) = lemma_leads_binary(ts, p, ink, *x, level);
                lemma_reads_binary(ts, q.step(), ink, *y, (level - 1) as nat);
                let o = binary(ts, q.step(), (level - 1) as nat);
                let right = o.res->Ok_0;
                let p1 = q.step().after(o);
                let e = node(
                    p1,
                    ExprKindView::BinaryOp { op, left: Box::new(l), right: Box::new(right) },
                );
                step_operator(ts, q, level, l, op);
                lemma_relay(p, q, p1.fresh(), binary_tail(ts, p1.fresh(), level, e));
                assert(is_tree(e, t)) by {
                    reveal(is_tree);
                }
                (e, p1.fresh())
            },
            _ => (arbitrary(), p),
        }
    } else {
        assert(print(ink, t, level as int + 3) == print(ink, t, level as int + 2));
        lemma_reads_binary(ts, p, ink, t, (level - 1) as nat);
        let o = binary(ts, p, (level - 1) as nat);
        step_binary(ts, p, level);
        (o.res->Ok_0, p.after(o))
    }
}

/// A cast, up to the end.
proof fn lemma_reads_cast(ts: Words, p: St, ink: Ink, t: Tree)
    requires
        writable(t),
        stands(ts, p.pos, print(ink, t, 3)),
        stops(ts, p.pos + print(ink, t, 3).len(), 3, p.no_struct),
    ensures
        reads(cast(ts, p), p, print(ink, t, 3).len(), t),
    decreases t, distance(t, 3), 1nat,
{
    let (e, q) = lemma_leads_cast(ts, p, ink, t);
    step_no_as(ts, q, e);
}

proof fn lemma_leads_cast(ts: Words, p: St, ink: Ink, t: Tree) -> (r: (ExprView, St))
    requires
        writable(t),
        stands(ts, p.pos, print(ink, t, 3)),
        stops(ts, p.pos + print(ink, t, 3).len(), 2, p.no_struct),
    ensures
        leads(
            cast(ts, p),
            p,
            print(ink, t, 3).len(),
            t,
            r.0,
            r.1,
            cast_tail(ts, r.1, r.0),
        ),
    decreases t, distance(t, 3), 0nat,
{
    match t {
        Tree::Cast(x, to) => {
            let a = print(ink, *x, 3);
            let m = mark(Token::As);
            assert(bare(ink, t) == a + (m + mark(to))) by {
                reveal(bare);
            }
            lemma_stands(ts, p.pos, a, m + mark(to));
            lemma_stands(ts, p.pos + a.len(), m, mark(to));
            lemma_mark(ts, p.pos + a.len(), Token::As);
            lemma_mark(ts, p.pos + a.len() + 1, to);
            let (x1, q) = lemma_leads_cast(ts, p, ink, *x);
            let p1 = q.step().step();
            let e = node(p1, ExprKindView::Cast { expr: Box::new(x1), ty: primitive(to)->0 });
            step_as(ts, q, x1, to);
            lemma_relay(p, q, p1.fresh(), cast_tail(ts, p1.fresh(), e));
            assert(is_tree(e, t)) by {
                reveal(is_tree);
            }
            (e, p1.fresh())
        },
        _ => {
            assert(print(ink, t, 3) == print(ink, t, 2));
            lemma_reads_unary(ts, p, ink, t);
            let o = unary(ts, p);
            step_cast(ts, p);
            (o.res->Ok_0, p.after(o))
        },
    }
}

/// An operand with signs before it.
proof fn lemma_reads_unary(ts: Words, p: St, ink: Ink, t: Tree)
    requires
        writable(t),
        stands(ts, p.pos, print(ink, t, 2)),
        stops(ts, p.pos + print(ink, t, 2).len(), 2, p.no_struct),
    ensures
        reads(unary(ts, p), p, print(ink, t, 2).len(), t),
    decreases t, distance(t, 2), 0nat,
{
    match t {
        Tree::Unary(op, x) => {
            let m = mark(sign_token(op));
            let a = print(ink, *x, 2);
            assert(bare(ink, t) == m + a) by {
                reveal(bare);
            }
            lemma_stands(ts, p.pos, m, a);
            lemma_mark(ts, p.pos, sign_token(op));
            lemma_reads_unary(ts, p.step(), ink, *x);
            step_sign(ts, p);
            let e = unary(ts, p).res->Ok_0;
            assert(is_tree(e, t)) by {
                reveal(is_tree);
            }
        },
        _ => {
            let w = print(ink, t, 2);
            assert(w == print(ink, t, 1));
            lemma_opens(ink, t, 1);
            lemma_first(ts, p.pos, w);
            step_no_sign(ts, p);
            let (e, q) = lemma_leads_postfix(ts, p, ink, t);
            step_no_index(ts, q, e);
        },
    }
}

proof fn lemma_leads_postfix(ts: Words, p: St, ink: Ink, t: Tree) -> (r: (ExprView, St))
    requires
        writable(t),
        stands(ts, p.pos, print(ink, t, 1)),
        stops(ts, p.pos + print(ink, t, 1).len(), 0, p.no_struct),
    ensures
        leads(
            postfix(ts, p),
            p,
            print(ink, t, 1).len(),
            t,
            r.0,
            r.1,
            postfix_tail(ts, r.1, r.0),
        ),
    decreases t, distance(t, 1), 0nat,
{
    match t {
        Tree::Index(x, i) => {
            let a = print(ink, *x, 1);
            let c = print(ink, *i, 8);
            let open = mark(Token::LBracket);
            let close = mark(Token::RBracket);
            assert(bare(ink, t) == a + (open + (c + close))) by {
                reveal(bare);
            }
            lemma_stands(ts, p.pos, a, open + (c + close));
            lemma_stands(ts, p.pos + a.len(), open, c + close);
            lemma_mark(ts, p.pos + a.len(), Token::LBracket);
            lemma_stands(ts, p.pos + a.len() + 1, c, close);
            lemma_mark(ts, p.pos + a.len() + 1 + c.len(), Token::RBracket);
            let (x1, q) = lemma_leads_postfix(ts, p, ink, *x);
            lemma_reads_expr(ts, q.step(), ink, *i);
            let o1 = expr(ts, q.step());
            let p2 = q.step().after(o1).step();
            let e = node(
                p2,
                ExprKindView::Index { expr: Box::new(x1), index: Box::new(o1.res->Ok_0) },
            );
            step_index(ts, q, x1);
            lemma_relay(p, q, p2.fresh(), postfix_tail(ts, p2.fresh(), e));
            assert(is_tree(e, t)) by {
                reveal(is_tree);
            }
            (e, p2.fresh())
        },
        _ => {
            assert(print(ink, t, 1) == print(ink, t, 0));
            lemma_reads_primary(ts, p, ink, t);
            let o = primary(ts, p);
            step_postfix(ts, p);
            (o.res->Ok_0, p.after(o))
        },
    }
}

/// The smallest expressions, up to the end.
proof fn lemma_reads_primary(ts: Words, p: St, ink: Ink, t: Tree)
    requires
        writable(t),
        stands(ts, p.pos, print(ink, t, 0)),
        stops(ts, p.pos + print(ink, t, 0).len(), 0, p.no_struct),
    ensures
        reads(primary(ts, p), p, print(ink, t, 0).len(), t),
    decreases t, distance(t, 0), 1nat,
{
    let w = print(ink, t, 0);
    lemma_print(ink, t, 0);
    lemma_print(ink, t, 8);
    if rank(t) > 0 {
        let open = mark(Token::LParen);
        let close = mark(Token::RParen);
        let a = bare(ink, t);
        assert(open + a + close =~= open + (a + close));
        lemma_stands(ts, p.pos, open, a + close);
        lemma_mark(ts, p.pos, Token::LParen);
        lemma_stands(ts, p.pos + 1, a, close);
        lemma_mark(ts, p.pos + 1 + a.len(), Token::RParen);
        assert(a == print(ink, t, 8));
        lemma_opens(ink, t, 8);
        lemma_first(ts, p.pos + 1, a);
        lemma_reads_expr(ts, p.step(), ink, t);
        step_paren(ts, p);
    } else if is_chain(t) {
        lemma_weaker(ts, p.pos + w.len(), 0, p.no_struct);
        let (e, q) = lemma_leads_chain(ts, p, ink, t);
        step_no_dot(ts, q, e);
    } else {
        lemma_reads_small(ts, p, ink, t);
    }
}

/// Those without points.
#[verifier::spinoff_prover]
#[verifier::rlimit(40)]
proof fn lemma_reads_small(ts: Words, p: St, ink: Ink, t: Tree)
    requires
        writable(t),
        rank(t) == 0,
        !is_chain(t),
        stands(ts, p.pos, bare(ink, t)),
        stops(ts, p.pos + bare(ink, t).len(), 0, p.no_struct),
    ensures
        reads(primary(ts, p), p, bare(ink, t).len(), t),
    decreases t, 0nat, 0nat,
{
    let w = bare(ink, t);
    match t {
        Tree::Unit => {
            assert(w == mark(Token::LParen) + mark(Token::RParen)) by {
                reveal(bare);
            }
            lemma_stands(ts, p.pos, mark(Token::LParen), mark(Token::RParen));
            lemma_mark(ts, p.pos, Token::LParen);
            lemma_mark(ts, p.pos + 1, Token::RParen);
            step_unit(ts, p);
            assert(is_tree(primary(ts, p).res->Ok_0, t)) by {
                reveal(is_tree);
            }
        },
        Tree::Call(name, args) => {
            let open = mark(Token::LParen);
            let list = print_list(ink, args, 0) + mark(Token::RParen);
            assert(w == name_word(ink, name) + (open + list)) by {
                reveal(bare);
            }
            lemma_stands(ts, p.pos, name_word(ink, name), open + list);
            lemma_name(ts, p.pos, ink, name);
            lemma_stands(ts, p.pos + 1, open, list);
            lemma_mark(ts, p.pos + 1, Token::LParen);
            lemma_reads_arguments(ts, p.step().step(), ink, args);
            step_call(ts, p, name);
            assert(is_tree(primary(ts, p).res->Ok_0, t)) by {
                reveal(is_tree);
            }
        },
        Tree::Variant(owner, name) => {
            let head = mark(Token::PathSep) + name_word(ink, name);
            assert(w == name_word(ink, owner) + head) by {
                reveal(bare);
            }
            lemma_stands(ts, p.pos, name_word(ink, owner), head);
            lemma_name(ts, p.pos, ink, owner);
            lemma_stands(ts, p.pos + 1, mark(Token::PathSep), name_word(ink, name));
            lemma_mark(ts, p.pos + 1, Token::PathSep);
            lemma_name(ts, p.pos + 2, ink, name);
            step_variant(ts, p, owner, name);
            assert(is_tree(primary(ts, p).res->Ok_0, t)) by {
                reveal(is_tree);
            }
        },
        Tree::VariantOf(owner, name, args) => {
            let head = mark(Token::PathSep) + name_word(ink, name);
            let open = mark(Token::LParen);
            let list = print_list(ink, args, 0) + mark(Token::RParen);
            assert(w == (name_word(ink, owner) + head) + (open + list)) by {
                reveal(bare);
            }
            lemma_stands(ts, p.pos, name_word(ink, owner) + head, open + list);
            lemma_stands(ts, p.pos, name_word(ink, owner), head);
            lemma_name(ts, p.pos, ink, owner);
            lemma_stands(ts, p.pos + 1, mark(Token::PathSep), name_word(ink, name));
            lemma_mark(ts, p.pos + 1, Token::PathSep);
            lemma_name(ts, p.pos + 2, ink, name);
            lemma_stands(ts, p.pos + 3, open, list);
            lemma_mark(ts, p.pos + 3, Token::LParen);
            lemma_reads_arguments(ts, p.step().step().step().step(), ink, args);
            step_variant_of(ts, p, owner, name);
            assert(is_tree(primary(ts, p).res->Ok_0, t)) by {
                reveal(is_tree);
            }
        },
        Tree::Array(list) => {
            let open = mark(Token::LBracket);
            let close = mark(Token::RBracket);
            let a = print_list(ink, list, 0);
            assert(w == open + (a + close)) by {
                reveal(bare);
            }
            lemma_stands(ts, p.pos, open, a + close);
            lemma_mark(ts, p.pos, Token::LBracket);
            lemma_stands(ts, p.pos + 1, a, close);
            lemma_mark(ts, p.pos + 1 + a.len(), Token::RBracket);
            lemma_reads_elements(ts, p.step(), ink, list, 0, Seq::empty());
            lemma_are_trees(elements(ts, p.step(), Seq::empty()).res->Ok_0, list, 0);
            step_array(ts, p);
            assert(is_tree(primary(ts, p).res->Ok_0, t)) by {
                reveal(is_tree);
            }
        },
        _ => {
            assert(w.len() == 1 && literal_of(w[0].0, w[0].1) is Some) by {
                reveal(bare);
            }
            lemma_first(ts, p.pos, w);
            step_literal(ts, p);
            assert(is_tree(primary(ts, p).res->Ok_0, t)) by {
                reveal(is_tree);
                reveal(bare);
            }
        },
    }
}

/// A name with points behind it, before what follows.
#[verifier::spinoff_prover]
#[verifier::rlimit(40)]
proof fn lemma_leads_chain(ts: Words, p: St, ink: Ink, t: Tree) -> (r: (ExprView, St))
    requires
        writable(t),
        is_chain(t),
        stands(ts, p.pos, print(ink, t, 0)),
        stops(ts, p.pos + print(ink, t, 0).len(), -1, p.no_struct),
    ensures
        leads(primary(ts, p), p, print(ink, t, 0).len(), t, r.0, r.1, dots(ts, r.1, r.0)),
    decreases t, 0nat, 0nat,
{
    let w = print(ink, t, 0);
    lemma_print(ink, t, 0);
    match t {
        Tree::Name(name) => {
            assert(w == name_word(ink, name)) by {
                reveal(bare);
            }
            lemma_name(ts, p.pos, ink, name);
            step_name(ts, p, name);
            let p1 = p.step();
            let e = node(p1, ExprKindView::Ident(name));
            assert(is_tree(e, t)) by {
                reveal(is_tree);
            }
            (e, p1.fresh())
        },
        Tree::Own => {
            assert(w == mark(Token::SelfLower)) by {
                reveal(bare);
            }
            lemma_mark(ts, p.pos, Token::SelfLower);
            step_own(ts, p);
            let p1 = p.step();
            let e = node(p1, ExprKindView::Ident("self"@));
            assert(is_tree(e, t)) by {
                reveal(is_tree);
            }
            (e, p1.fresh())
        },
        Tree::Field(x, name) => {
            let a = print(ink, *x, 0);
            let dot = mark(Token::Dot) + name_word(ink, name);
            assert(w == a + dot) by {
                reveal(bare);
            }
            lemma_stands(ts, p.pos, a, dot);
            lemma_stands(ts, p.pos + a.len(), mark(Token::Dot), name_word(ink, name));
            lemma_mark(ts, p.pos + a.len(), Token::Dot);
            lemma_name(ts, p.pos + a.len() + 1, ink, name);
            let (x1, q) = lemma_leads_chain(ts, p, ink, *x);
            let p1 = q.step().step();
            let e = node(
                p1,
                ExprKindView::FieldAccess { struct_expr: Box::new(x1), field_name: name },
            );
            step_field(ts, q, x1, name);
            lemma_relay(p, q, p1.fresh(), dots(ts, p1.fresh(), e));
            assert(is_tree(e, t)) by {
                reveal(is_tree);
            }
            (e, p1.fresh())
        },
        Tree::Method(x, name, args) => {
            let a = print(ink, *x, 0);
            let open = mark(Token::LParen);
            let list = print_list(ink, args, 0) + mark(Token::RParen);
            let dot = mark(Token::Dot) + name_word(ink, name);
            assert(w == a + (dot + (open + list))) by {
                reveal(bare);
            }
            lemma_stands(ts, p.pos, a, dot + (open + list));
            lemma_stands(ts, p.pos + a.len(), dot, open + list);
            lemma_stands(ts, p.pos + a.len(), mark(Token::Dot), name_word(ink, name));
            lemma_mark(ts, p.pos + a.len(), Token::Dot);
            lemma_name(ts, p.pos + a.len() + 1, ink, name);
            lemma_stands(ts, p.pos + a.len() + 2, open, list);
            lemma_mark(ts, p.pos + a.len() + 2, Token::LParen);
            let (x1, q) = lemma_leads_chain(ts, p, ink, *x);
            let p1 = q.step().step().step();
            lemma_reads_arguments(ts, p1, ink, args);
            let o2 = arguments(ts, p1);
            let found = o2.res->Ok_0;
            let p2 = p1.after(o2);
            let all = seq![CallArgView::Positional(x1)] + found;
            assert(all.skip(1) =~= found);
            let e = node(
                p2,
                ExprKindView::Call { qualifier: None, func: name, args: all, is_method: true },
            );
            step_method(ts, q, x1, name);
            lemma_relay(p, q, p2.fresh(), dots(ts, p2.fresh(), e));
            assert(is_tree(e, t)) by {
                reveal(is_tree);
            }
            (e, p2.fresh())
        },
        _ => (arbitrary(), p),
    }
}

/// Arguments and the parenthesis behind them.
proof fn lemma_reads_arguments(ts: Words, p: St, ink: Ink, list: Seq<Tree>)
    requires
        all_writable(list, 0),
        stands(ts, p.pos, print_list(ink, list, 0) + mark(Token::RParen)),
    ensures
        ({
            let o = arguments(ts, p);
            &&& o.res matches Ok(args) && args.len() == list.len() && are_args(args, list, 0)
            &&& o.adv == print_list(ink, list, 0).len() + 1
            &&& o.no_struct == p.no_struct
            &&& o.scopes == p.scopes
        }),
    decreases list, list.len() + 1, 0nat,
{
    let a = print_list(ink, list, 0);
    lemma_stands(ts, p.pos, a, mark(Token::RParen));
    lemma_mark(ts, p.pos + a.len(), Token::RParen);
    lemma_reads_args(ts, p, ink, list, 0, Seq::empty());
    step_arguments(ts, p);
    let args = call_args(ts, p, Seq::empty()).res->Ok_0;
    lemma_are_args(args, list, 0);
}

proof fn lemma_are_args(args: Seq<CallArgView>, list: Seq<Tree>, i: nat)
    requires
        forall|k: int|
            i <= k < list.len() ==> ((#[trigger] args[k]) matches CallArgView::Positional(e)
                && is_tree(e, list[k])),
    ensures
        are_args(args, list, i),
    decreases list.len() - i,
{
    reveal(is_tree);
    if i < list.len() {
        assert(args[i as int] matches CallArgView::Positional(e) && is_tree(e, list[i as int]));
        lemma_are_args(args, list, i + 1);
    }
}

proof fn lemma_are_trees(es: Seq<ExprView>, list: Seq<Tree>, i: nat)
    requires
        forall|k: int| i <= k < list.len() ==> is_tree(#[trigger] es[k], list[k]),
    ensures
        are_trees(es, list, i),
    decreases list.len() - i,
{
    reveal(is_tree);
    if i < list.len() {
        assert(is_tree(es[i as int], list[i as int]));
        lemma_are_trees(es, list, i + 1);
    }
}

/// Arguments from the `i`-th on.
#[verifier::spinoff_prover]
#[verifier::rlimit(40)]
proof fn lemma_reads_args(
    ts: Words,
    p: St,
    ink: Ink,
    list: Seq<Tree>,
    i: nat,
    done: Seq<CallArgView>,
)
    requires
        all_writable(list, i),
        i <= list.len(),
        done.len() == i,
        stands(ts, p.pos, print_list(ink, list, i)),
        token_is(ts, p.pos + print_list(ink, list, i).len(), Token::RParen),
    ensures
        ({
            let o = call_args(ts, p, done);
            &&& o.res matches Ok(args) && args.len() == list.len() && (forall|k: int|
                0 <= k < i ==> #[trigger] args[k] == done[k]) && (forall|k: int|
                i <= k < list.len() ==> ((#[trigger] args[k]) matches CallArgView::Positional(e)
                    && is_tree(e, list[k])))
            &&& o.adv == print_list(ink, list, i).len()
            &&& o.no_struct == p.no_struct
            &&& o.scopes == p.scopes
        }),
    decreases list, list.len() - i, 0nat,
{
    if i >= list.len() {
        step_no_argument(ts, p, done);
    } else {
        let t = list[i as int];
        let a = print(ink, t, 8);
        lemma_opens(ink, t, 8);
        let last = i + 1 == list.len();
        if !last {
            let rest = print_list(ink, list, i + 1);
            lemma_stands(ts, p.pos, a, mark(Token::Comma) + rest);
            lemma_stands(ts, p.pos + a.len(), mark(Token::Comma), rest);
            lemma_mark(ts, p.pos + a.len(), Token::Comma);
        }
        lemma_first(ts, p.pos, a);
        assert(!token_is(ts, p.pos + 1, Token::Colon)) by {
            reveal(no_colon);
        }
        lemma_reads_expr(ts, p, ink, t);
        step_argument(ts, p, done);
        let o = expr(ts, p);
        let e = o.res->Ok_0;
        let args1 = done.push(CallArgView::Positional(e));
        let p1 = p.after(o);
        if !last {
            lemma_reads_args(ts, p1.step(), ink, list, i + 1, args1);
            let o1 = call_args(ts, p1.step(), args1);
            let args = o1.res->Ok_0;
            assert(args[i as int] == args1[i as int]);
            assert forall|k: int| 0 <= k < i implies #[trigger] args[k] == done[k] by {
                assert(args1[k] == done[k]);
            }
        }
    }
}

/// Elements from the `i`-th on.
#[verifier::spinoff_prover]
#[verifier::rlimit(40)]
proof fn lemma_reads_elements(
    ts: Words,
    p: St,
    ink: Ink,
    list: Seq<Tree>,
    i: nat,
    done: Seq<ExprView>,
)
    requires
        all_writable(list, i),
        i <= list.len(),
        done.len() == i,
        stands(ts, p.pos, print_list(ink, list, i)),
        token_is(ts, p.pos + print_list(ink, list, i).len(), Token::RBracket),
    ensures
        ({
            let o = elements(ts, p, done);
            &&& o.res matches Ok(es) && es.len() == list.len() && (forall|k: int|
                0 <= k < i ==> #[trigger] es[k] == done[k]) && (forall|k: int|
                i <= k < list.len() ==> is_tree(#[trigger] es[k], list[k]))
            &&& o.adv == print_list(ink, list, i).len()
            &&& o.no_struct == p.no_struct
            &&& o.scopes == p.scopes
        }),
    decreases list, list.len() - i, 0nat,
{
    if i >= list.len() {
        step_no_element(ts, p, done);
    } else {
        let t = list[i as int];
        let a = print(ink, t, 8);
        lemma_opens(ink, t, 8);
        let last = i + 1 == list.len();
        if !last {
            let rest = print_list(ink, list, i + 1);
            lemma_stands(ts, p.pos, a, mark(Token::Comma) + rest);
            lemma_stands(ts, p.pos + a.len(), mark(Token::Comma), rest);
            lemma_mark(ts, p.pos + a.len(), Token::Comma);
        }
        lemma_first(ts, p.pos, a);
        lemma_reads_expr(ts, p, ink, t);
        step_element(ts, p, done);
        let o = expr(ts, p);
        let e = o.res->Ok_0;
        let es1 = done.push(e);
        let p1 = p.after(o);
        if !last {
            lemma_reads_elements(ts, p1.step(), ink, list, i + 1, es1);
            let o1 = elements(ts, p1.step(), es1);
            let es = o1.res->Ok_0;
            assert(es[i as int] == es1[i as int]);
            assert forall|k: int| 0 <= k < i implies #[trigger] es[k] == done[k] by {
                assert(es1[k] == done[k]);
            }
        }
    }
}

/// What is written as an expression is read as that expression: by the ranks of the
/// operators, which group from the left, with parentheses only where a part is looser
/// than its place.
pub proof fn written_expression_is_read_back(ts: Words, p: St, ink: Ink, t: Tree)
    requires
        writable(t),
        stands(ts, p.pos, print(ink, t, 8)),
        stops(ts, p.pos + print(ink, t, 8).len(), 8, p.no_struct),
        !token_is(ts, p.pos + print(ink, t, 8).len(), Token::Range),
    ensures
        reads(expr(ts, p), p, print(ink, t, 8).len(), t),
{
    lemma_reads_expr(ts, p, ink, t);
}

} // verus!
