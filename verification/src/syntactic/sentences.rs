//! How statements are written, and that the parser reads them back.
use crate::ast::{BinaryOp, ExprKindView, ExprView, IfKind, StmtView};
use crate::syntactic::grammar::{
    assign_op, binary, block, expr, head_expr, lemma_binary_zero, Out, primary, primitive, St, stmt,
    stmts, Words,
};
use crate::syntactic::printing::{
    Ink, is_tree, lemma_first, lemma_levels, lemma_mark, lemma_name, lemma_opens, lemma_reads_expr,
    lemma_stands, mark, name_word, print, reads, stands, stops, Tree, writable,
};
use crate::syntactic::steps::{
    step_assign, step_bare, step_binary, step_binding, step_block, step_block_primary, step_break,
    step_cast, step_compound, step_expr, step_for, step_head, step_if, step_loop, step_no_as,
    step_no_index, step_no_operator, step_no_sign, step_no_stmt, step_postfix, step_range,
    step_return, step_return_value, step_stmt, step_stmts, step_typed_binding, step_while, token_is,
};
use crate::text::Chars;
use crate::token::Token;
use vstd::prelude::*;

verus! {

/// A statement without the numbers of its expressions.
pub enum Sentence {
    Let { mutable: bool, persist: bool, name: Chars, ty: Option<Token>, init: Tree },
    Assign(Tree, Tree),
    /// An assignment that applies an operator first.
    Compound(Tree, BinaryOp, Tree),
    Value(Tree),
    Return(Option<Tree>),
    Break,
    While(Tree, Seq<Sentence>),
    For(Chars, Tree, Seq<Sentence>),
    Loop(Seq<Sentence>),
    If(Tree, Seq<Sentence>, Option<Seq<Sentence>>),
}

/// The token that applies an operator and assigns.
pub open spec fn compound_token(op: BinaryOp) -> Option<Token> {
    match op {
        BinaryOp::Add => Some(Token::PlusEq),
        BinaryOp::Sub => Some(Token::MinusEq),
        BinaryOp::Mul => Some(Token::StarEq),
        BinaryOp::Div => Some(Token::SlashEq),
        BinaryOp::Mod => Some(Token::PercentEq),
        _ => None,
    }
}

/// The words of a statement.
#[verifier::opaque]
pub open spec fn write(ink: Ink, s: Sentence) -> Words
    decreases s, 0nat,
{
    let end = mark(Token::Semicolon);
    match s {
        Sentence::Let { mutable, persist, name, ty, init } => {
            let value = mark(Token::Eq) + (print(ink, init, 8) + end);
            let typed = match ty {
                Some(t) => mark(Token::Colon) + (mark(t) + value),
                None => value,
            };
            let word = mark(
                if mutable {
                    Token::Var
                } else {
                    Token::Let
                },
            ) + (name_word(ink, name) + typed);
            if persist {
                mark(Token::Persist) + word
            } else {
                word
            }
        },
        Sentence::Assign(t, e) => print(ink, t, 8) + (mark(Token::Eq) + (print(ink, e, 8) + end)),
        Sentence::Compound(t, op, e) => print(ink, t, 8) + (mark(compound_token(op)->0) + (print(
            ink,
            e,
            8,
        ) + end)),
        Sentence::Value(e) => print(ink, e, 8) + end,
        Sentence::Return(None) => mark(Token::Return) + end,
        Sentence::Return(Some(e)) => mark(Token::Return) + (print(ink, e, 8) + end),
        Sentence::Break => mark(Token::Break) + end,
        Sentence::While(c, body) => mark(Token::While) + (print(ink, c, 8) + write_block(
            ink,
            body,
        )),
        Sentence::For(var, e, body) => mark(Token::For) + (name_word(ink, var) + (mark(Token::In)
            + (print(ink, e, 8) + write_block(ink, body)))),
        Sentence::Loop(body) => mark(Token::Loop) + write_block(ink, body),
        Sentence::If(c, body, other) => mark(Token::If) + (print(ink, c, 8) + (write_block(
            ink,
            body,
        ) + match other {
            Some(b) => mark(Token::Else) + (write_block(ink, b) + end),
            None => end,
        })),
    }
}

/// Statements in braces.
#[verifier::opaque]
pub open spec fn write_block(ink: Ink, list: Seq<Sentence>) -> Words
    decreases list, list.len() + 1,
{
    mark(Token::LBrace) + (write_all(ink, list, 0) + mark(Token::RBrace))
}

/// Statements from the `i`-th on.
#[verifier::opaque]
pub open spec fn write_all(ink: Ink, list: Seq<Sentence>, i: nat) -> Words
    decreases list, list.len() - i,
{
    if i >= list.len() {
        Seq::empty()
    } else {
        write(ink, list[i as int]) + write_all(ink, list, i + 1)
    }
}

/// Whether a statement can be written.
pub open spec fn can_write(s: Sentence) -> bool
    decreases s, 0nat,
{
    match s {
        Sentence::Let { mutable, persist, name, ty, init } => writable(init) && (ty matches Some(t)
            ==> primitive(t) is Some),
        Sentence::Assign(t, e) => writable(t) && writable(e),
        Sentence::Compound(t, op, e) => writable(t) && writable(e) && compound_token(op) is Some,
        Sentence::Value(e) => writable(e),
        Sentence::Return(None) => true,
        Sentence::Return(Some(e)) => writable(e),
        Sentence::Break => true,
        Sentence::While(c, body) => writable(c) && can_write_all(body, 0),
        Sentence::For(_, e, body) => writable(e) && can_write_all(body, 0),
        Sentence::Loop(body) => can_write_all(body, 0),
        Sentence::If(c, body, other) => writable(c) && can_write_all(body, 0) && (other matches Some(
            b,
        ) ==> can_write_all(b, 0)),
    }
}

pub open spec fn can_write_all(list: Seq<Sentence>, i: nat) -> bool
    decreases list, list.len() - i,
{
    i >= list.len() || (can_write(list[i as int]) && can_write_all(list, i + 1))
}

/// Whether a statement is that one, whatever the numbers of its expressions are. One that
/// applies an operator is the assignment of that operator's value, with the target as
/// its left operand.
#[verifier::opaque]
pub open spec fn is_sentence(s: StmtView, x: Sentence) -> bool
    decreases x, 0nat,
{
    match x {
        Sentence::Let { mutable, persist, name, ty, init } => s matches StmtView::Let(l) && l.mutable
            == mutable && l.persist == persist && l.name == name && l.ty == (match ty {
            Some(t) => primitive(t),
            None => None,
        }) && is_tree(*l.init, init),
        Sentence::Assign(t, e) => s matches StmtView::Assign(a) && is_tree(*a.target, t) && is_tree(
            *a.expr,
            e,
        ),
        Sentence::Compound(t, op, e) => s matches StmtView::Assign(a) && is_tree(*a.target, t)
            && is_tree(*a.expr, Tree::Binary(op, Box::new(t), Box::new(e))),
        Sentence::Value(e) => s matches StmtView::ExprStmt(v) && is_tree(v, e),
        Sentence::Return(None) => s matches StmtView::Return(v) && v is None,
        Sentence::Return(Some(e)) => s matches StmtView::Return(Some(v)) && is_tree(v, e),
        Sentence::Break => s is Break,
        Sentence::While(c, body) => s matches StmtView::While(w) && is_tree(*w.cond, c)
            && are_sentences(w.body.stmts, body),
        Sentence::For(var, e, body) => s matches StmtView::For(f) && f.var == var && is_tree(
            *f.iterable,
            e,
        ) && are_sentences(f.body.stmts, body),
        Sentence::Loop(body) => s matches StmtView::Loop(l) && are_sentences(l.body.stmts, body),
        Sentence::If(c, body, other) => s matches StmtView::ExprStmt(v) && (
        v.kind matches ExprKindView::If { kind, cond, then_expr, else_expr } && kind
            == IfKind::Normal && is_tree(*cond, c) && is_block(*then_expr, body) && (match other {
            Some(b) => else_expr matches Some(y) && is_block(*y, b),
            None => else_expr is None,
        })),
    }
}

/// Whether an expression is a block of those statements.
#[verifier::opaque]
pub open spec fn is_block(e: ExprView, list: Seq<Sentence>) -> bool
    decreases list, list.len() + 2,
{
    e.kind matches ExprKindView::Block(b) && are_sentences(b.stmts, list)
}

/// Whether statements are those.
#[verifier::opaque]
pub open spec fn are_sentences(ss: Seq<StmtView>, list: Seq<Sentence>) -> bool
    decreases list, list.len() + 1,
{
    ss.len() == list.len() && are_from(ss, list, 0)
}

#[verifier::opaque]
pub open spec fn are_from(ss: Seq<StmtView>, list: Seq<Sentence>, i: nat) -> bool
    decreases list, list.len() - i,
{
    i >= list.len() || (is_sentence(ss[i as int], list[i as int]) && are_from(ss, list, i + 1))
}

/// Whether a phrase reads `n` tokens and leaves the rest of the state.
pub open spec fn moves<T>(o: Out<T>, p: St, n: nat) -> bool {
    o.res is Ok && o.adv == n && o.no_struct == p.no_struct && o.scopes == p.scopes
}

/// A small expression up to its end is an expression.
proof fn lemma_up(ts: Words, p: St)
    requires
        primary(ts, p).res is Ok,
        token_is(ts, p.pos, Token::LBrace),
        stops(ts, p.pos + primary(ts, p).adv, 8, p.no_struct),
        !token_is(ts, p.pos + primary(ts, p).adv, Token::Range),
    ensures
        expr(ts, p) == primary(ts, p),
{
    let o = primary(ts, p);
    let q = p.after(o);
    let e = o.res->Ok_0;
    step_postfix(ts, p);
    step_no_index(ts, q, e);
    step_no_sign(ts, p);
    step_cast(ts, p);
    step_no_as(ts, q, e);
    lemma_binary_zero(ts, p);
    lemma_up_level(ts, p, 5);
    step_range(ts, p);
    step_expr(ts, p);
}

proof fn lemma_up_level(ts: Words, p: St, level: nat)
    requires
        level <= 5,
        binary(ts, p, 0).res is Ok,
        stops(ts, p.pos + binary(ts, p, 0).adv, 8, p.no_struct),
    ensures
        binary(ts, p, level) == binary(ts, p, 0),
    decreases level,
{
    if level > 0 {
        lemma_up_level(ts, p, (level - 1) as nat);
        let o = binary(ts, p, 0);
        let q = p.after(o);
        step_binary(ts, p, level);
        if q.pos < ts.len() {
            let t = ts[q.pos as int].0;
            assert(!crate::syntactic::printing::goes_on(t, level as int + 3, p.no_struct));
            lemma_levels(level, t, p.no_struct);
        }
        step_no_operator(ts, q, level, o.res->Ok_0);
    }
}

/// An expression before a semicolon or another mark that does not go on with it.
pub(super) proof fn lemma_reads_before(ts: Words, p: St, ink: Ink, t: Tree, rest: Words, m: Token)
    requires
        writable(t),
        stands(ts, p.pos, print(ink, t, 8) + rest),
        token_is(ts, p.pos + print(ink, t, 8).len(), m),
        !crate::syntactic::printing::goes_on(m, 8, p.no_struct),
        m != Token::Range,
    ensures
        reads(expr(ts, p), p, print(ink, t, 8).len(), t),
{
    lemma_stands(ts, p.pos, print(ink, t, 8), rest);
    lemma_reads_expr(ts, p, ink, t);
}

/// An expression before a block.
pub(super) proof fn lemma_reads_head(ts: Words, p: St, ink: Ink, t: Tree)
    requires
        writable(t),
        stands(ts, p.pos, print(ink, t, 8)),
        token_is(ts, p.pos + print(ink, t, 8).len(), Token::LBrace),
    ensures
        reads(head_expr(ts, p), p, print(ink, t, 8).len(), t),
{
    lemma_reads_expr(ts, p.with_no_struct(true), ink, t);
    step_head(ts, p);
}

/// The first word of a statement.
proof fn lemma_write_first(ink: Ink, s: Sentence)
    requires
        can_write(s),
    ensures
        write(ink, s).len() > 0,
        write(ink, s)[0].0 != Token::RBrace,
{
    reveal(write);
    reveal(write_block);
    match s {
        Sentence::Assign(t, e) => lemma_opens(ink, t, 8),
        Sentence::Compound(t, op, e) => lemma_opens(ink, t, 8),
        Sentence::Value(e) => lemma_opens(ink, e, 8),
        _ => {},
    }
}

/// A statement that starts with an expression.
#[verifier::spinoff_prover]
#[verifier::rlimit(40)]
proof fn lemma_reads_plain(ts: Words, p: St, ink: Ink, s: Sentence)
    requires
        can_write(s),
        s is Assign || s is Compound || s is Value,
        stands(ts, p.pos, write(ink, s)),
    ensures
        moves(stmt(ts, p), p, write(ink, s).len()),
        is_sentence(stmt(ts, p).res->Ok_0, s),
{
    let end = mark(Token::Semicolon);
    let (t, m, e) = match s {
        Sentence::Assign(t, e) => (t, Token::Eq, e),
        Sentence::Compound(t, op, e) => (t, compound_token(op)->0, e),
        Sentence::Value(t) => (t, Token::Semicolon, t),
        _ => arbitrary(),
    };
    let a = print(ink, t, 8);
    let rest = if s is Value {
        Seq::empty()
    } else {
        print(ink, e, 8) + end
    };
    assert(write(ink, s) == a + (mark(m) + rest)) by {
        reveal(write);
        assert(mark(Token::Semicolon) + Seq::empty() =~= mark(Token::Semicolon));
    }
    lemma_stands(ts, p.pos, a, mark(m) + rest);
    lemma_stands(ts, p.pos + a.len(), mark(m), rest);
    lemma_mark(ts, p.pos + a.len(), m);
    lemma_opens(ink, t, 8);
    lemma_first(ts, p.pos, a);
    lemma_reads_before(ts, p, ink, t, mark(m) + rest, m);
    step_stmt(ts, p);
    let o = expr(ts, p);
    if s is Value {
        step_bare(ts, p);
    } else {
        let p1 = p.after(o).step();
        let c = print(ink, e, 8);
        lemma_stands(ts, p1.pos, c, end);
        lemma_mark(ts, p1.pos + c.len(), Token::Semicolon);
        lemma_reads_before(ts, p1, ink, e, end, Token::Semicolon);
        if s is Assign {
            step_assign(ts, p);
        } else {
            assert(assign_op(m) == Some(s->Compound_1)) by {
                reveal(assign_op);
            }
            step_compound(ts, p);
        }
    }
    assert(is_sentence(stmt(ts, p).res->Ok_0, s)) by {
        reveal(is_sentence);
        reveal(is_tree);
    }
}

/// A binding.
#[verifier::spinoff_prover]
#[verifier::rlimit(60)]
proof fn lemma_reads_let(ts: Words, p: St, ink: Ink, s: Sentence)
    requires
        can_write(s),
        s is Let,
        stands(ts, p.pos, write(ink, s)),
    ensures
        moves(stmt(ts, p), p, write(ink, s).len()),
        is_sentence(stmt(ts, p).res->Ok_0, s),
{
    match s {
        Sentence::Let { mutable, persist, name, ty, init } => {
            let end = mark(Token::Semicolon);
            let c = print(ink, init, 8);
            let value = mark(Token::Eq) + (c + end);
            let typed = match ty {
                Some(t) => mark(Token::Colon) + (mark(t) + value),
                None => value,
            };
            let key = if mutable {
                Token::Var
            } else {
                Token::Let
            };
            let word = mark(key) + (name_word(ink, name) + typed);
            assert(write(ink, s) == if persist {
                mark(Token::Persist) + word
            } else {
                word
            }) by {
                reveal(write);
            }
            let p0 = if persist {
                p.step()
            } else {
                p
            };
            if persist {
                lemma_stands(ts, p.pos, mark(Token::Persist), word);
                lemma_mark(ts, p.pos, Token::Persist);
            }
            lemma_stands(ts, p0.pos, mark(key), name_word(ink, name) + typed);
            lemma_mark(ts, p0.pos, key);
            let p1 = p0.step();
            lemma_stands(ts, p1.pos, name_word(ink, name), typed);
            lemma_name(ts, p1.pos, ink, name);
            let p2 = match ty {
                Some(t) => {
                    lemma_stands(ts, p1.pos + 1, mark(Token::Colon), mark(t) + value);
                    lemma_mark(ts, p1.pos + 1, Token::Colon);
                    lemma_stands(ts, p1.pos + 2, mark(t), value);
                    lemma_mark(ts, p1.pos + 2, t);
                    p1.step().step().step()
                },
                None => p1.step(),
            };
            lemma_stands(ts, p2.pos, mark(Token::Eq), c + end);
            lemma_mark(ts, p2.pos, Token::Eq);
            let p3 = p2.step();
            lemma_stands(ts, p3.pos, c, end);
            lemma_mark(ts, p3.pos + c.len(), Token::Semicolon);
            lemma_reads_before(ts, p3, ink, init, end, Token::Semicolon);
            match ty {
                Some(t) => step_typed_binding(ts, p1, mutable, persist, name, t),
                None => step_binding(ts, p1, mutable, persist, name),
            }
            step_stmt(ts, p);
            assert(is_sentence(stmt(ts, p).res->Ok_0, s)) by {
                reveal(is_sentence);
            }
        },
        _ => {},
    }
}

/// A statement of a keyword and an expression, or a keyword alone.
#[verifier::spinoff_prover]
#[verifier::rlimit(40)]
proof fn lemma_reads_short(ts: Words, p: St, ink: Ink, s: Sentence)
    requires
        can_write(s),
        s is Return || s is Break,
        stands(ts, p.pos, write(ink, s)),
    ensures
        moves(stmt(ts, p), p, write(ink, s).len()),
        is_sentence(stmt(ts, p).res->Ok_0, s),
{
    let end = mark(Token::Semicolon);
    match s {
        Sentence::Return(Some(e)) => {
            let c = print(ink, e, 8);
            assert(write(ink, s) == mark(Token::Return) + (c + end)) by {
                reveal(write);
            }
            lemma_stands(ts, p.pos, mark(Token::Return), c + end);
            lemma_mark(ts, p.pos, Token::Return);
            lemma_stands(ts, p.pos + 1, c, end);
            lemma_mark(ts, p.pos + 1 + c.len(), Token::Semicolon);
            lemma_opens(ink, e, 8);
            lemma_first(ts, p.pos + 1, c);
            lemma_reads_before(ts, p.step(), ink, e, end, Token::Semicolon);
            step_return_value(ts, p);
        },
        Sentence::Return(None) => {
            assert(write(ink, s) == mark(Token::Return) + end) by {
                reveal(write);
            }
            lemma_stands(ts, p.pos, mark(Token::Return), end);
            lemma_mark(ts, p.pos, Token::Return);
            lemma_mark(ts, p.pos + 1, Token::Semicolon);
            step_return(ts, p);
        },
        _ => {
            assert(write(ink, s) == mark(Token::Break) + end) by {
                reveal(write);
            }
            lemma_stands(ts, p.pos, mark(Token::Break), end);
            lemma_mark(ts, p.pos, Token::Break);
            lemma_mark(ts, p.pos + 1, Token::Semicolon);
            step_break(ts, p);
        },
    }
    step_stmt(ts, p);
    assert(is_sentence(stmt(ts, p).res->Ok_0, s)) by {
        reveal(is_sentence);
    }
}

/// A statement.
#[verifier::spinoff_prover]
#[verifier::rlimit(60)]
proof fn lemma_reads_stmt(ts: Words, p: St, ink: Ink, s: Sentence)
    requires
        can_write(s),
        stands(ts, p.pos, write(ink, s)),
    ensures
        moves(stmt(ts, p), p, write(ink, s).len()),
        is_sentence(stmt(ts, p).res->Ok_0, s),
    decreases s, 1nat,
{
    match s {
        Sentence::While(c, body) => {
            let a = print(ink, c, 8);
            let b = write_block(ink, body);
            assert(write(ink, s) == mark(Token::While) + (a + b)) by {
                reveal(write);
                reveal(write_block);
            }
            lemma_stands(ts, p.pos, mark(Token::While), a + b);
            lemma_mark(ts, p.pos, Token::While);
            lemma_stands(ts, p.pos + 1, a, b);
            lemma_reads_block(ts, behind_head(p, 1, a, expr_ids(ts, p.step())), ink, body);
            lemma_reads_head(ts, p.step(), ink, c);
            step_while(ts, p);
            step_stmt(ts, p);
        },
        Sentence::For(var, e, body) => {
            let a = print(ink, e, 8);
            let b = write_block(ink, body);
            let name = name_word(ink, var);
            assert(write(ink, s) == mark(Token::For) + (name + (mark(Token::In) + (a + b)))) by {
                reveal(write);
                reveal(write_block);
            }
            lemma_stands(ts, p.pos, mark(Token::For), name + (mark(Token::In) + (a + b)));
            lemma_mark(ts, p.pos, Token::For);
            lemma_stands(ts, p.pos + 1, name, mark(Token::In) + (a + b));
            lemma_name(ts, p.pos + 1, ink, var);
            lemma_stands(ts, p.pos + 2, mark(Token::In), a + b);
            lemma_mark(ts, p.pos + 2, Token::In);
            lemma_stands(ts, p.pos + 3, a, b);
            let p0 = p.step().step().step();
            lemma_reads_block(ts, behind_head(p, 3, a, expr_ids(ts, p0)), ink, body);
            lemma_reads_head(ts, p0, ink, e);
            step_for(ts, p, var);
            step_stmt(ts, p);
        },
        Sentence::Loop(body) => {
            let b = write_block(ink, body);
            assert(write(ink, s) == mark(Token::Loop) + b) by {
                reveal(write);
                reveal(write_block);
            }
            lemma_stands(ts, p.pos, mark(Token::Loop), b);
            lemma_mark(ts, p.pos, Token::Loop);
            lemma_reads_block(ts, p.step(), ink, body);
            step_loop(ts, p);
            step_stmt(ts, p);
        },
        Sentence::If(c, body, other) => {
            lemma_reads_if(ts, p, ink, c, body, other);
        },
        Sentence::Let { mutable, persist, name, ty, init } => lemma_reads_let(ts, p, ink, s),
        Sentence::Return(_) => lemma_reads_short(ts, p, ink, s),
        Sentence::Break => lemma_reads_short(ts, p, ink, s),
        _ => lemma_reads_plain(ts, p, ink, s),
    }
    assert(is_sentence(stmt(ts, p).res->Ok_0, s)) by {
        reveal(is_sentence);
        reveal(are_sentences);
    }
}

/// The next number behind an expression before a block.
spec fn expr_ids(ts: Words, p: St) -> nat {
    head_expr(ts, p).ids
}

/// The state behind a keyword and an expression before a block.
spec fn behind_head(p: St, n: nat, a: Words, ids: nat) -> St {
    St { pos: p.pos + n + a.len(), ids, ..p }
}

/// A block as an expression, up to its end.
proof fn lemma_reads_branch(ts: Words, p: St, ink: Ink, body: Seq<Sentence>)
    requires
        can_write_all(body, 0),
        stands(ts, p.pos, write_block(ink, body)),
        token_is(ts, p.pos + write_block(ink, body).len(), Token::Semicolon) || token_is(
            ts,
            p.pos + write_block(ink, body).len(),
            Token::Else,
        ),
    ensures
        moves(expr(ts, p), p, write_block(ink, body).len()),
        is_block(expr(ts, p).res->Ok_0, body),
    decreases body, body.len() + 2,
{
    lemma_reads_block(ts, p, ink, body);
    step_block_primary(ts, p);
    lemma_up(ts, p);
    assert(is_block(expr(ts, p).res->Ok_0, body)) by {
        reveal(is_block);
        reveal(are_sentences);
    }
}

/// An `if` as a statement.
#[verifier::spinoff_prover]
#[verifier::rlimit(60)]
proof fn lemma_reads_if(
    ts: Words,
    p: St,
    ink: Ink,
    c: Tree,
    body: Seq<Sentence>,
    other: Option<Seq<Sentence>>,
)
    requires
        can_write(Sentence::If(c, body, other)),
        stands(ts, p.pos, write(ink, Sentence::If(c, body, other))),
    ensures
        moves(stmt(ts, p), p, write(ink, Sentence::If(c, body, other)).len()),
        is_sentence(stmt(ts, p).res->Ok_0, Sentence::If(c, body, other)),
    decreases Sentence::If(c, body, other), 0nat,
{
    let s = Sentence::If(c, body, other);
    let end = mark(Token::Semicolon);
    let a = print(ink, c, 8);
    let b = write_block(ink, body);
    let rest = match other {
        Some(d) => mark(Token::Else) + (write_block(ink, d) + end),
        None => end,
    };
    assert(write(ink, s) == mark(Token::If) + (a + (b + rest))) by {
        reveal(write);
        reveal(write_block);
    }
    lemma_stands(ts, p.pos, mark(Token::If), a + (b + rest));
    lemma_mark(ts, p.pos, Token::If);
    lemma_stands(ts, p.pos + 1, a, b + rest);
    lemma_stands(ts, p.pos + 1 + a.len(), b, rest);
    let at = p.pos + 1 + a.len() + b.len();
    assert(token_is(ts, p.pos + 1 + a.len(), Token::LBrace)) by {
        reveal(write_block);
        reveal(write_all);
        lemma_stands(
            ts,
            p.pos + 1 + a.len(),
            mark(Token::LBrace),
            write_all(ink, body, 0) + mark(Token::RBrace),
        );
        lemma_mark(ts, p.pos + 1 + a.len(), Token::LBrace);
    }
    lemma_reads_head(ts, p.step(), ink, c);
    let p2 = p.step().after(head_expr(ts, p.step()));
    match other {
        Some(d) => {
            let w = write_block(ink, d);
            lemma_stands(ts, at, mark(Token::Else), w + end);
            lemma_mark(ts, at, Token::Else);
            lemma_stands(ts, at + 1, w, end);
            lemma_mark(ts, at + 1 + w.len(), Token::Semicolon);
            lemma_reads_branch(ts, p2, ink, body);
            let p3 = p2.after(expr(ts, p2));
            lemma_reads_branch(ts, p3.step(), ink, d);
        },
        None => {
            lemma_mark(ts, at, Token::Semicolon);
            lemma_reads_branch(ts, p2, ink, body);
        },
    }
    step_if(ts, p);
    step_bare(ts, p);
    step_stmt(ts, p);
    assert(is_sentence(stmt(ts, p).res->Ok_0, s)) by {
        reveal(is_sentence);
        reveal(is_block);
    }
}

/// Statements in braces.
#[verifier::spinoff_prover]
#[verifier::rlimit(40)]
pub(super) proof fn lemma_reads_block(ts: Words, p: St, ink: Ink, list: Seq<Sentence>)
    requires
        can_write_all(list, 0),
        stands(ts, p.pos, write_block(ink, list)),
    ensures
        token_is(ts, p.pos, Token::LBrace),
        moves(block(ts, p), p, write_block(ink, list).len()),
        are_sentences(block(ts, p).res->Ok_0.stmts, list),
    decreases list, list.len() + 1,
{
    let a = write_all(ink, list, 0);
    let close = mark(Token::RBrace);
    assert(write_block(ink, list) == mark(Token::LBrace) + (a + close)) by {
        reveal(write_block);
        reveal(write_all);
    }
    lemma_stands(ts, p.pos, mark(Token::LBrace), a + close);
    lemma_mark(ts, p.pos, Token::LBrace);
    lemma_stands(ts, p.pos + 1, a, close);
    lemma_mark(ts, p.pos + 1 + a.len(), Token::RBrace);
    lemma_reads_stmts(ts, p.step(), ink, list, 0, Seq::empty());
    step_block(ts, p);
    let ss = stmts(ts, p.step(), Seq::empty()).res->Ok_0;
    lemma_are_from(ss, list, 0);
    assert(are_sentences(ss, list)) by {
        reveal(are_sentences);
        reveal(are_from);
    }
}

proof fn lemma_are_from(ss: Seq<StmtView>, list: Seq<Sentence>, i: nat)
    requires
        forall|k: int| i <= k < list.len() ==> is_sentence(#[trigger] ss[k], list[k]),
    ensures
        are_from(ss, list, i),
    decreases list.len() - i,
{
    reveal(are_from);
    reveal(is_sentence);
    if i < list.len() {
        assert(is_sentence(ss[i as int], list[i as int]));
        lemma_are_from(ss, list, i + 1);
    }
}

/// Statements from the `i`-th on.
#[verifier::spinoff_prover]
#[verifier::rlimit(40)]
proof fn lemma_reads_stmts(
    ts: Words,
    p: St,
    ink: Ink,
    list: Seq<Sentence>,
    i: nat,
    done: Seq<StmtView>,
)
    requires
        can_write_all(list, i),
        i <= list.len(),
        done.len() == i,
        stands(ts, p.pos, write_all(ink, list, i)),
        token_is(ts, p.pos + write_all(ink, list, i).len(), Token::RBrace),
    ensures
        ({
            let o = stmts(ts, p, done);
            &&& moves(o, p, write_all(ink, list, i).len())
            &&& o.res->Ok_0.len() == list.len()
            &&& forall|k: int| 0 <= k < i ==> #[trigger] o.res->Ok_0[k] == done[k]
            &&& forall|k: int|
                i <= k < list.len() ==> is_sentence(#[trigger] o.res->Ok_0[k], list[k])
        }),
    decreases list, list.len() - i,
{
    if i >= list.len() {
        assert(write_all(ink, list, i) == Words::empty()) by {
            reveal(write_all);
        }
        step_no_stmt(ts, p, done);
    } else {
        let s = list[i as int];
        let a = write(ink, s);
        let rest = write_all(ink, list, i + 1);
        assert(write_all(ink, list, i) == a + rest) by {
            reveal(write_all);
            reveal(write);
        }
        lemma_stands(ts, p.pos, a, rest);
        lemma_write_first(ink, s);
        lemma_first(ts, p.pos, a);
        lemma_reads_stmt(ts, p, ink, s);
        step_stmts(ts, p, done);
        let o = stmt(ts, p);
        let more = done.push(o.res->Ok_0);
        let p1 = p.after(o);
        lemma_reads_stmts(ts, p1, ink, list, i + 1, more);
        let ss = stmts(ts, p1, more).res->Ok_0;
        assert(ss[i as int] == more[i as int]);
        assert forall|k: int| 0 <= k < i implies #[trigger] ss[k] == done[k] by {
            assert(more[k] == done[k]);
        }
    }
}

/// What is written as a statement is read as that statement.
pub proof fn written_statement_is_read_back(ts: Words, p: St, ink: Ink, s: Sentence)
    requires
        can_write(s),
        stands(ts, p.pos, write(ink, s)),
    ensures
        moves(stmt(ts, p), p, write(ink, s).len()),
        is_sentence(stmt(ts, p).res->Ok_0, s),
{
    lemma_reads_stmt(ts, p, ink, s);
}

/// What is written as a block is read as that block.
pub proof fn written_block_is_read_back(ts: Words, p: St, ink: Ink, list: Seq<Sentence>)
    requires
        can_write_all(list, 0),
        stands(ts, p.pos, write_block(ink, list)),
    ensures
        moves(block(ts, p), p, write_block(ink, list).len()),
        are_sentences(block(ts, p).res->Ok_0.stmts, list),
{
    lemma_reads_block(ts, p, ink, list);
}

/// An assignment that applies an operator is read as the assignment of the operator's
/// value: `t -= e;` as `t = t - e;`, with `e` in parentheses where it needs them. The
/// target is the left operand, and the value the right one.
pub proof fn compound_assignment_is_an_assignment(
    ts: Words,
    p: St,
    us: Words,
    q: St,
    ink: Ink,
    t: Tree,
    op: BinaryOp,
    e: Tree,
)
    requires
        writable(t),
        writable(e),
        compound_token(op) is Some,
        stands(ts, p.pos, write(ink, Sentence::Compound(t, op, e))),
        stands(
            us,
            q.pos,
            write(ink, Sentence::Assign(t, Tree::Binary(op, Box::new(t), Box::new(e)))),
        ),
    ensures
        ({
            let value = Tree::Binary(op, Box::new(t), Box::new(e));
            &&& stmt(ts, p).res matches Ok(StmtView::Assign(a)) && is_tree(*a.target, t)
                && is_tree(*a.expr, value)
            &&& stmt(us, q).res matches Ok(StmtView::Assign(a)) && is_tree(*a.target, t)
                && is_tree(*a.expr, value)
        }),
{
    reveal(is_sentence);
    let value = Tree::Binary(op, Box::new(t), Box::new(e));
    lemma_reads_stmt(ts, p, ink, Sentence::Compound(t, op, e));
    lemma_reads_stmt(us, q, ink, Sentence::Assign(t, value));
}

} // verus!
