//! Lowering keeps the meaning of loops with a condition.
use crate::hir::{HirBlockView, HirExprKindView, HirExprView, HirStmtView};
use crate::lowering::{
    block, Bs, Ctx, Diverging, expr, place, place_rule, rvalue, stmt, stmt_rule, stmts,
};
use crate::meaning::{enter, eval, Machine, Names, point_at, reaches, Request, Scalar, slot, State};
use crate::mir::{MirOperandView, MirStmtView, MirTerminatorView, SsaLocal};
use crate::preservation::{
    agrees, comes_to, extends, fits, grown, lemma_agrees_on, lemma_expr, lemma_extends_trans,
    lemma_grown_extends, lemma_lookup_inside, lemma_reach_join, lemma_reach_more, lemma_reach_step,
    lemma_rvalue, plain, sound,
};
use crate::running::{
    all_simple, apart, exec_all, Flow, lemma_drop_vars, lemma_drop_vars_len, lemma_extends_self,
    lemma_stmts, simple,
};
use vstd::prelude::*;

verus! {

/// Whether statements define, assign or evaluate, and none returns.
pub open spec fn flowing(list: Seq<HirStmtView>, i: nat) -> bool {
    forall|k: int| i <= k < list.len() ==> simple(#[trigger] list[k]) && !(list[k] is Return)
}

/// What a loop does in at most `n` rounds: while its condition holds, its body, whose own names
/// are forgotten after each round.
pub open spec fn exec_while<V>(
    m: Machine<V>,
    c: Ctx,
    names: Names<V>,
    log: Seq<Request<V>>,
    cond: HirExprView,
    body: Seq<HirStmtView>,
    n: nat,
) -> Option<(Names<V>, Seq<Request<V>>)>
    decreases n,
{
    if n == 0 {
        None
    } else {
        match eval(m, c, names, log, cond) {
            None => None,
            Some((v, log1)) => if (m.scalar)(v) == Scalar::Bool(true) {
                match exec_all(m, c, names.push(Seq::empty()), log1, body, 0) {
                    Some(Flow::Next(names1, log2)) => exec_while(
                        m,
                        c,
                        names1.drop_last(),
                        log2,
                        cond,
                        body,
                        (n - 1) as nat,
                    ),
                    _ => None,
                }
            } else {
                Some((names, log1))
            },
        }
    }
}

/// Whether what was built before statements is still there: of the old blocks only the
/// current one got more, and only the innermost scope got names.
spec fn built_on(b: Bs, b1: Bs) -> bool {
    &&& extends(b.blocks, b1.blocks)
    &&& forall|i: int|
        0 <= i < b.blocks.len() && i != b.cur ==> #[trigger] b1.blocks[i] == b.blocks[i]
    &&& b1.cur == b.cur || b1.cur >= b.blocks.len()
    &&& b1.scope.len() == b.scope.len()
    &&& b.scope.len() > 0 ==> b1.scope.drop_last() == b.scope.drop_last()
    &&& b.locals.len() <= b1.locals.len()
    &&& sound(b1)
}

proof fn lemma_built_on_trans(b: Bs, b1: Bs, b2: Bs)
    requires
        built_on(b, b1),
        built_on(b1, b2),
    ensures
        built_on(b, b2),
{
    lemma_extends_trans(b.blocks, b1.blocks, b2.blocks);
    assert forall|i: int| 0 <= i < b.blocks.len() && i != b.cur implies #[trigger] b2.blocks[i]
        == b.blocks[i] by {
        assert(b1.blocks[i] == b.blocks[i]);
    }
}

proof fn lemma_grown_built_on(b: Bs, b1: Bs)
    requires
        sound(b),
        grown(b, b1),
    ensures
        built_on(b, b1),
{
    lemma_grown_extends(b, b1);
}

/// One more statement in the current block.
proof fn lemma_push_built_on(b: Bs, d: MirStmtView)
    requires
        sound(b),
    ensures
        built_on(b, b.push_stmt(d)),
{
    let b1 = b.push_stmt(d);
    let i = b.cur as int;
    assert(b1.blocks[i].stmts.take(b.block().stmts.len() as int) =~= b.block().stmts);
    assert forall|k: int| 0 <= k < b.blocks.len() implies {
        &&& b.blocks[k].stmts.is_prefix_of((#[trigger] b1.blocks[k]).stmts)
        &&& !(b.blocks[k].terminator is Pending) ==> b1.blocks[k] == b.blocks[k]
    } by {
        assert(b.blocks[k].stmts.take(b.blocks[k].stmts.len() as int) =~= b.blocks[k].stmts);
    }
}

#[verifier::spinoff_prover]
#[verifier::rlimit(60)]
proof fn lemma_stmt_built_on<V>(m: Machine<V>, c: Ctx, b: Bs, s: State<V>, names: Names<V>, st: HirStmtView)
    requires
        simple(st),
        !(st is Return),
        b.cur < b.blocks.len(),
    ensures
        stmt(c, b, st) matches Ok((b1, d)) ==> {
            &&& d is Value
            &&& b.locals.len() <= b1.locals.len()
            &&& b.blocks.len() <= b1.blocks.len()
            &&& b1.cur < b1.blocks.len()
            &&& sound(b) && b.scope.len() > 0 && fits(b1) ==> built_on(b, b1)
        },
{
    reveal(stmt_rule);
    match st {
        HirStmtView::Let { name, ty, init, mutable, persist } => {
            lemma_expr(m, false, c, b, s, names, init);
            match expr(c, b, init) {
                Ok((b1, Diverging::Value(op))) => {
                    match stmt(c, b, st) {
                        Ok((b3, _)) => {
                            if sound(b) && b.scope.len() > 0 && fits(b3) {
                                let id = b1.next_local();
                                let local_ty = match ty {
                                    Some(t) => t,
                                    None => init.ty,
                                };
                                let b2 = if persist {
                                    b1.new_local(
                                        crate::mir::MirLocalView {
                                            name: Some(name),
                                            ty: local_ty,
                                            mutable,
                                            kind: crate::mir::LocalKind::Persist,
                                        },
                                        false,
                                    )
                                } else {
                                    b1.new_var(name, local_ty, mutable)
                                };
                                let bb = b2.bind(name, id);
                                let rv = crate::mir::MirRvalueView::Use(op);
                                assert(bb.define(id, rv) == Some(b3));
                                lemma_grown_built_on(b, b1);
                                assert(bb.scope.drop_last() =~= b1.scope.drop_last());
                                let n = b1.scope.len() - 1;
                                assert(sound(bb)) by {
                                    assert forall|i: int, j: int|
                                        0 <= i < bb.scope.len() && 0 <= j
                                            < bb.scope[i].len() implies (
                                    #[trigger] bb.scope[i][j]).1 < bb.locals.len() by {
                                        if i < n || j < b1.scope[n].len() {
                                            assert(bb.scope[i][j] == b1.scope[i][j]);
                                            assert(b1.scope[i][j].1 < b1.locals.len());
                                        }
                                    }
                                }
                                assert(built_on(b, bb)) by {
                                    assert forall|i: int|
                                        0 <= i < b.blocks.len() && i != b.cur implies
                                        #[trigger] bb.blocks[i] == b.blocks[i] by {
                                        assert(b1.blocks[i] == b.blocks[i]);
                                    }
                                }
                                let bc = bb.bump(id)->0;
                                assert(sound(bc)) by {
                                    assert forall|i: int, j: int|
                                        0 <= i < bc.scope.len() && 0 <= j
                                            < bc.scope[i].len() implies (
                                    #[trigger] bc.scope[i][j]).1 < bc.locals.len() by {
                                        assert(bb.scope[i][j].1 < bb.locals.len());
                                    }
                                }
                                let d = MirStmtView::Assign {
                                    dest: crate::mir::MirPlaceView::Ssa(bc.ssa(id)),
                                    value: rv,
                                };
                                lemma_push_built_on(bc, d);
                                assert(b3 == bc.push_stmt(d));
                                lemma_extends_self(bb.blocks);
                                assert(built_on(bb, bc));
                                lemma_built_on_trans(b, bb, bc);
                                lemma_built_on_trans(b, bc, b3);
                            }
                        },
                        _ => {},
                    }
                },
                _ => {},
            }
        },
        HirStmtView::Expr { expr: e } => {
            lemma_rvalue(m, false, c, b, s, names, e);
            match rvalue(c, b, e) {
                Ok((b1, Diverging::Value(rv))) => {
                    if sound(b) && fits(b1) {
                        lemma_grown_built_on(b, b1);
                        lemma_push_built_on(b1, MirStmtView::ExprStmt(rv));
                        lemma_built_on_trans(b, b1, b1.push_stmt(MirStmtView::ExprStmt(rv)));
                    }
                },
                _ => {},
            }
        },
        HirStmtView::Assign { target, expr: e } => match target.kind {
            HirExprKindView::Ident(name) => {
                reveal(place_rule);
                assert(place(c, b, target) == place_rule(c, b, target));
                match b.lookup(name) {
                    None => {},
                    Some(id) => match b.bump(id) {
                        None => {},
                        Some(b2) => {
                            lemma_rvalue(m, false, c, b2, s, names, e);
                            match rvalue(c, b2, e) {
                                Ok((b3, Diverging::Value(rv))) => {
                                    if sound(b) && fits(b3) {
                                        lemma_lookup_inside(b, b.scope, name);
                                        assert(sound(b2)) by {
                                            assert forall|i: int, j: int|
                                                0 <= i < b2.scope.len() && 0 <= j
                                                    < b2.scope[i].len() implies (
                                            #[trigger] b2.scope[i][j]).1 < b2.locals.len() by {
                                                assert(b.scope[i][j].1 < b.locals.len());
                                            }
                                        }
                                        lemma_extends_self(b.blocks);
                                        assert(built_on(b, b2));
                                        let d = MirStmtView::Assign {
                                            dest: crate::mir::MirPlaceView::Ssa(b2.ssa(id)),
                                            value: rv,
                                        };
                                        lemma_grown_built_on(b2, b3);
                                        lemma_push_built_on(b3, d);
                                        lemma_built_on_trans(b, b2, b3);
                                        lemma_built_on_trans(b, b3, b3.push_stmt(d));
                                    }
                                },
                                _ => {},
                            }
                        },
                    },
                }
            },
            _ => {},
        },
        _ => {},
    }
}

proof fn lemma_stmts_built_on<V>(
    m: Machine<V>,
    c: Ctx,
    b: Bs,
    s: State<V>,
    names: Names<V>,
    list: Seq<HirStmtView>,
    i: nat,
    last: Option<MirOperandView>,
)
    requires
        flowing(list, i),
        b.cur < b.blocks.len(),
    ensures
        stmts(c, b, list, i, last) matches Ok((b1, d)) ==> {
            &&& d is Value
            &&& b.locals.len() <= b1.locals.len()
            &&& b.blocks.len() <= b1.blocks.len()
            &&& b1.cur < b1.blocks.len()
            &&& sound(b) && b.scope.len() > 0 && fits(b1) ==> built_on(b, b1)
        },
    decreases list.len() - i,
{
    if i >= list.len() {
        lemma_extends_self(b.blocks);
    } else {
        lemma_stmt_built_on(m, c, b, s, names, list[i as int]);
        match stmt(c, b, list[i as int]) {
            Ok((b1, Diverging::Value(v))) => {
                lemma_stmts_built_on(m, c, b1, s, names, list, i + 1, v);
                match stmts(c, b1, list, i + 1, v) {
                    Ok((b2, _)) => {
                        if sound(b) && b.scope.len() > 0 && fits(b2) {
                            lemma_built_on_trans(b, b1, b2);
                        }
                    },
                    _ => {},
                }
            },
            _ => {},
        }
    }
}

/// Names agree with the locals of a scope, whatever else was built.
proof fn lemma_same_scope<V>(b: Bs, b1: Bs, store: Map<SsaLocal, V>, names: Names<V>)
    requires
        agrees(false, b, store, names),
        b1.scope == b.scope,
    ensures
        agrees(false, b1, store, names),
{
    assert forall|i: int, j: int| 0 <= i < names.len() && 0 <= j < names[i].len() implies (
    #[trigger] names[i][j]).0 == b1.scope[i][j].0 && names[i][j].1 == store[slot(
        false,
        b1.ssa(b1.scope[i][j].1),
    )] by {
        assert(names[i][j].1 == store[slot(false, b.ssa(b.scope[i][j].1))]);
    }
}

/// Without the innermost scope.
proof fn lemma_outer_scope<V>(b: Bs, b1: Bs, store: Map<SsaLocal, V>, names: Names<V>)
    requires
        agrees(false, b, store, names),
        b.scope.len() > 0,
        b1.scope == b.scope.drop_last(),
    ensures
        agrees(false, b1, store, names.drop_last()),
{
    let outer = names.drop_last();
    assert forall|i: int| 0 <= i < outer.len() implies (#[trigger] outer[i]).len()
        == b1.scope[i].len() by {
        assert(names[i].len() == b.scope[i].len());
    }
    assert forall|i: int, j: int| 0 <= i < outer.len() && 0 <= j < outer[i].len() implies (
    #[trigger] outer[i][j]).0 == b1.scope[i][j].0 && outer[i][j].1 == store[slot(
        false,
        b1.ssa(b1.scope[i][j].1),
    )] by {
        assert(names[i][j].1 == store[slot(false, b.ssa(b.scope[i][j].1))]);
    }
}

/// With a new scope.
proof fn lemma_inner_scope<V>(b: Bs, b1: Bs, store: Map<SsaLocal, V>, names: Names<V>)
    requires
        agrees(false, b, store, names),
        b1.scope == b.scope.push(Seq::empty()),
    ensures
        agrees(false, b1, store, names.push(Seq::empty())),
{
    let inner = names.push(Seq::empty());
    assert forall|i: int| 0 <= i < inner.len() implies (#[trigger] inner[i]).len()
        == b1.scope[i].len() by {
        if i < names.len() {
            assert(names[i].len() == b.scope[i].len());
        }
    }
    assert forall|i: int, j: int| 0 <= i < inner.len() && 0 <= j < inner[i].len() implies (
    #[trigger] inner[i][j]).0 == b1.scope[i][j].0 && inner[i][j].1 == store[slot(
        false,
        b1.ssa(b1.scope[i][j].1),
    )] by {
        assert(i < names.len());
        assert(names[i][j].1 == store[slot(false, b.ssa(b.scope[i][j].1))]);
    }
}

/// The states in which a loop is built: before its condition, behind it, before its body,
/// behind it, behind the drops, and at its end.
pub struct LoopStates {
    pub head: Bs,
    pub tested: Bs,
    pub op: MirOperandView,
    pub body: Bs,
    pub ran: Bs,
    pub done: Bs,
    pub end: Bs,
}

/// The states in which a loop is built, from `b` on.
pub open spec fn loop_states(
    b: Bs,
    tested: Bs,
    op: MirOperandView,
    ran: Bs,
) -> LoopStates {
    let cond_block = b.next_block();
    let b1 = b.new_block();
    let body_block = b1.next_block();
    let b2 = b1.new_block();
    let end = b2.next_block();
    let head = b2.new_block().set_term(MirTerminatorView::Goto(cond_block)).switch(cond_block);
    let body = tested.set_term(
        MirTerminatorView::If { cond: op, then_block: body_block, else_block: end },
    ).switch(body_block).push_loop(end).push_scope();
    let done = ran.pop_scope();
    LoopStates {
        head,
        tested,
        op,
        body,
        ran,
        done,
        end: done.pop_loop().goto_if_pending(cond_block).switch(end),
    }
}

/// What is known of those states.
spec fn loop_built(c: Ctx, b: Bs, cond: HirExprView, list: Seq<HirStmtView>, l: LoopStates) -> bool {
    let n = b.blocks.len();
    &&& sound(b)
    &&& apart(b)
    &&& b.scope.len() > 0
    &&& fits(l.end)
    &&& expr(c, l.head, cond) == Ok::<(Bs, Diverging<MirOperandView>), crate::text::Chars>(
        (l.tested, Diverging::Value(l.op)),
    )
    &&& stmts(c, l.body, list, 0, None) matches Ok((r, d)) && r == l.ran && d is Value
    &&& sound(l.head)
    &&& sound(l.body)
    &&& apart(l.body)
    &&& sound(l.ran)
    &&& fits(l.tested)
    &&& fits(l.ran)
    &&& l.head.cur == n
    &&& l.body.cur == n + 1
    &&& l.end.cur == n + 2
    &&& l.head.scope == b.scope
    &&& l.body.scope == b.scope.push(Seq::empty())
    &&& l.ran.scope.drop_last() == b.scope
    &&& l.ran.scope.len() == b.scope.len() + 1
    &&& l.end.scope == b.scope
    &&& l.head.blocks[n as int].stmts.len() == 0
    &&& l.body.blocks[n as int + 1].stmts.len() == 0
    &&& l.end.blocks[n as int + 2].stmts.len() == 0
    &&& extends(l.head.blocks, l.end.blocks)
    &&& extends(l.tested.blocks, l.end.blocks)
    &&& extends(l.body.blocks, l.end.blocks)
    &&& extends(l.ran.blocks, l.end.blocks)
    &&& l.done == l.ran.pop_scope()
    &&& l.done.cur == l.ran.cur
    &&& extends(l.done.blocks, l.end.blocks)
    &&& l.done.cur < l.done.blocks.len()
    &&& l.tested.cur < l.tested.blocks.len()
    &&& l.end.blocks[l.tested.cur as int].terminator == (MirTerminatorView::If {
        cond: l.op,
        then_block: (n + 1) as usize,
        else_block: (n + 2) as usize,
    })
    &&& l.end.blocks[l.tested.cur as int].stmts == l.tested.block().stmts
    &&& l.end.blocks[l.done.cur as int].terminator == MirTerminatorView::Goto(n as usize)
    &&& l.end.blocks[l.done.cur as int].stmts == l.done.block().stmts
}

/// From the head of a loop to its end.
#[verifier::spinoff_prover]
#[verifier::rlimit(60)]
proof fn lemma_rounds<V>(
    m: Machine<V>,
    c: Ctx,
    b: Bs,
    s: State<V>,
    names: Names<V>,
    cond: HirExprView,
    list: Seq<HirStmtView>,
    l: LoopStates,
    n: nat,
) -> (s1: State<V>)
    requires
        plain(cond),
        flowing(list, 0),
        loop_built(c, b, cond, list, l),
        agrees(false, b, s.store, names),
        exec_while(m, c, names, s.log, cond, list, n) is Some,
    ensures
        ({
            let (names1, log1) = exec_while(m, c, names, s.log, cond, list, n)->0;
            &&& reaches(m, false, l.end.blocks, enter(s, l.head.cur), point_at(l.end, s1))
            &&& s1.log == log1
            &&& agrees(false, l.end, s1.store, names1)
        }),
    decreases n,
{
    let blocks = l.end.blocks;
    let sh = State { trail: s.trail.push(l.head.cur), ..s };
    assert(enter(s, l.head.cur) == point_at(l.head, sh));
    lemma_same_scope(b, l.head, sh.store, names);
    let st = lemma_expr(m, false, c, l.head, sh, names, cond);
    assert(comes_to(m, false, l.head, sh, l.tested, st));
    lemma_agrees_on(false, l.head, l.tested, sh.store, st.store, names);
    lemma_reach_more(
        m,
        false,
        l.tested.blocks,
        blocks,
        point_at(l.head, sh),
        point_at(l.tested, st),
    );
    let (v, log1) = eval(m, c, names, s.log, cond)->0;
    let yes = (m.scalar)(v) == Scalar::Bool(true);
    let target = if yes {
        l.body.cur
    } else {
        l.end.cur
    };
    lemma_reach_step(m, false, blocks, point_at(l.tested, st), enter(st, target));
    lemma_reach_join(
        m,
        false,
        blocks,
        enter(s, l.head.cur),
        point_at(l.tested, st),
        enter(st, target),
    );
    let sb = State { trail: st.trail.push(target), ..st };
    if !yes {
        assert(enter(st, target) == point_at(l.end, sb));
        lemma_same_scope(l.tested, l.end, sb.store, names);
        sb
    } else {
        assert(enter(st, target) == point_at(l.body, sb));
        lemma_inner_scope(l.tested, l.body, sb.store, names);
        let inner = names.push(Seq::empty());
        assert(all_simple(list, 0));
        let q = lemma_stmts(m, c, l.body, sb, inner, list, 0, None);
        let flow = exec_all(m, c, inner, sb.log, list, 0)->0;
        match flow {
            Flow::Next(names1, log2) => {
                let sq = q.state;
                lemma_reach_more(m, false, l.ran.blocks, blocks, point_at(l.body, sb), q);
                lemma_reach_join(m, false, blocks, enter(s, l.head.cur), point_at(l.body, sb), q);
                let ids = l.ran.vars.last();
                lemma_drop_vars(m, l.ran, sq, ids, ids.len());
                let bd = l.ran.drop_vars(ids, ids.len());
                assert(bd.blocks == l.done.blocks && bd.cur == l.done.cur);
                assert(point_at(bd, sq) == point_at(l.done, sq));
                lemma_reach_more(m, false, l.done.blocks, blocks, q, point_at(l.done, sq));
                lemma_reach_step(m, false, blocks, point_at(l.done, sq), enter(sq, l.head.cur));
                lemma_reach_join(
                    m,
                    false,
                    blocks,
                    enter(s, l.head.cur),
                    q,
                    point_at(l.done, sq),
                );
                lemma_reach_join(
                    m,
                    false,
                    blocks,
                    enter(s, l.head.cur),
                    point_at(l.done, sq),
                    enter(sq, l.head.cur),
                );
                lemma_outer_scope(l.ran, b, sq.store, names1);
                let s1 = lemma_rounds(
                    m,
                    c,
                    b,
                    sq,
                    names1.drop_last(),
                    cond,
                    list,
                    l,
                    (n - 1) as nat,
                );
                lemma_reach_join(
                    m,
                    false,
                    blocks,
                    enter(s, l.head.cur),
                    enter(sq, l.head.cur),
                    point_at(l.end, s1),
                );
                s1
            },
            _ => sb,
        }
    }
}

/// A terminator for the current block.
proof fn lemma_term_extends(b: Bs, t: MirTerminatorView)
    requires
        b.cur < b.blocks.len(),
        b.pending(),
    ensures
        extends(b.blocks, b.set_term(t).blocks),
{
    let b1 = b.set_term(t);
    assert forall|k: int| 0 <= k < b.blocks.len() implies {
        &&& b.blocks[k].stmts.is_prefix_of((#[trigger] b1.blocks[k]).stmts)
        &&& !(b.blocks[k].terminator is Pending) ==> b1.blocks[k] == b.blocks[k]
    } by {
        assert(b.blocks[k].stmts.take(b.blocks[k].stmts.len() as int) =~= b.blocks[k].stmts);
    }
}

/// The states of a loop are in order.
#[verifier::spinoff_prover]
#[verifier::rlimit(100)]
proof fn lemma_loop_built<V>(
    m: Machine<V>,
    c: Ctx,
    b: Bs,
    s: State<V>,
    names: Names<V>,
    cond: HirExprView,
    list: Seq<HirStmtView>,
) -> (l: LoopStates)
    requires
        plain(cond),
        flowing(list, 0),
        sound(b),
        apart(b),
        b.scope.len() > 0,
    ensures
        stmt(c, b, HirStmtView::While { cond, body: HirBlockView { stmts: list } }) matches Ok((b1, d))
            ==> d is Value && b1 == l.end && (fits(b1) ==> loop_built(c, b, cond, list, l)
            && extends(b.blocks, b1.blocks) && b1.blocks[b.cur as int].terminator
            == MirTerminatorView::Goto(b.blocks.len() as usize) && b1.blocks[b.cur as int].stmts
            == b.block().stmts && sound(b1) && apart(b1)),
{
    reveal(stmt_rule);
    let body = HirBlockView { stmts: list };
    let st = HirStmtView::While { cond, body };
    let l0 = loop_states(b, b, MirOperandView::Constant(crate::ast::LiteralView::Unit), b);
    let n = b.blocks.len();
    lemma_expr(m, false, c, l0.head, s, names, cond);
    match expr(c, l0.head, cond) {
        Ok((tested, Diverging::Value(op))) => {
            let l1 = loop_states(b, tested, op, b);
            lemma_stmts_built_on(m, c, l1.body, s, names, list, 0, None);
            match stmts(c, l1.body, list, 0, None) {
                Ok((ran, d)) => {
                    let l = loop_states(b, tested, op, ran);
                    assert(block(c, tested.set_term(
                        MirTerminatorView::If {
                            cond: op,
                            then_block: (n + 1) as usize,
                            else_block: (n + 2) as usize,
                        },
                    ).switch((n + 1) as usize).push_loop((n + 2) as usize), body) == Ok::<
                        (Bs, Diverging<Option<MirOperandView>>),
                        crate::text::Chars,
                    >((ran.pop_scope(), d)));
                    let ids = ran.vars.last();
                    lemma_drop_vars_len(ran, ids, ids.len());
                    if let Ok((b1, _)) = stmt(c, b, st) {
                        assert(b1 == l.end);
                        if fits(b1) {
                            lemma_loop_known(m, c, b, s, names, cond, list, l);
                        }
                    }
                    l
                },
                _ => l1,
            }
        },
        _ => l0,
    }
}

#[verifier::spinoff_prover]
#[verifier::rlimit(100)]
proof fn lemma_loop_known<V>(
    m: Machine<V>,
    c: Ctx,
    b: Bs,
    s: State<V>,
    names: Names<V>,
    cond: HirExprView,
    list: Seq<HirStmtView>,
    l: LoopStates,
)
    requires
        plain(cond),
        flowing(list, 0),
        sound(b),
        apart(b),
        b.scope.len() > 0,
        l == loop_states(b, l.tested, l.op, l.ran),
        fits(l.end),
        expr(c, l.head, cond) == Ok::<(Bs, Diverging<MirOperandView>), crate::text::Chars>(
            (l.tested, Diverging::Value(l.op)),
        ),
        stmts(c, l.body, list, 0, None) matches Ok((r, d)) && r == l.ran && d is Value,
    ensures
        loop_built(c, b, cond, list, l),
        extends(b.blocks, l.end.blocks),
        l.end.blocks[b.cur as int].terminator == MirTerminatorView::Goto(b.blocks.len() as usize),
        l.end.blocks[b.cur as int].stmts == b.block().stmts,
        sound(l.end),
        apart(l.end),
{
    let n = b.blocks.len();
    let b3 = b.new_block().new_block().new_block();
    lemma_expr(m, false, c, l.head, s, names, cond);
    lemma_stmts_built_on(m, c, l.body, s, names, list, 0, None);
    let ids = l.ran.vars.last();
    lemma_drop_vars_len(l.ran, ids, ids.len());
    assert(l.done.blocks.len() == l.ran.blocks.len());
    assert(l.end.blocks.len() == l.ran.blocks.len());
    assert(l.ran.blocks.len() >= l.body.blocks.len());
    assert(l.body.blocks.len() == l.tested.blocks.len());
    assert(fits(l.ran) && fits(l.tested) && fits(l.head));
    assert(n + 3 <= usize::MAX);
    // Before the condition.
    assert(extends(b.blocks, b3.blocks)) by {
        assert forall|k: int| 0 <= k < b.blocks.len() implies {
            &&& b.blocks[k].stmts.is_prefix_of((#[trigger] b3.blocks[k]).stmts)
            &&& !(b.blocks[k].terminator is Pending) ==> b3.blocks[k] == b.blocks[k]
        } by {
            assert(b.blocks[k].stmts.take(b.blocks[k].stmts.len() as int) =~= b.blocks[k].stmts);
        }
    }
    lemma_term_extends(b3, MirTerminatorView::Goto(n as usize));
    lemma_extends_trans(b.blocks, b3.blocks, l.head.blocks);
    assert(sound(l.head)) by {
        assert forall|i: int, j: int| 0 <= i < l.head.scope.len() && 0 <= j
            < l.head.scope[i].len() implies (#[trigger] l.head.scope[i][j]).1
            < l.head.locals.len() by {
            assert(b.scope[i][j].1 < b.locals.len());
        }
    }
    // The condition.
    assert(grown(l.head, l.tested));
    lemma_grown_extends(l.head, l.tested);
    let t = MirTerminatorView::If {
        cond: l.op,
        then_block: (n + 1) as usize,
        else_block: (n + 2) as usize,
    };
    lemma_term_extends(l.tested, t);
    assert(extends(l.tested.blocks, l.body.blocks));
    assert(l.tested.blocks[n as int + 1] == l.head.blocks[n as int + 1]);
    assert(l.tested.blocks[n as int + 2] == l.head.blocks[n as int + 2]);
    assert(sound(l.body)) by {
        assert forall|i: int, j: int| 0 <= i < l.body.scope.len() && 0 <= j
            < l.body.scope[i].len() implies (#[trigger] l.body.scope[i][j]).1
            < l.body.locals.len() by {
            assert(i < l.tested.scope.len());
            assert(l.tested.scope[i][j].1 < l.tested.locals.len());
        }
    }
    assert(apart(l.body)) by {
        assert forall|i: int, j: int, k: int, m: int|
            0 <= i < l.body.scope.len() && 0 <= j < l.body.scope[i].len() && 0 <= k
                < l.body.scope.len() && 0 <= m < l.body.scope[k].len() && (i != k || j
                != m) implies (#[trigger] l.body.scope[i][j]).1 != (
        #[trigger] l.body.scope[k][m]).1 by {
            assert(i < b.scope.len() && k < b.scope.len());
            assert(b.scope[i][j].1 != b.scope[k][m].1);
        }
    }
    // The body.
    assert(built_on(l.body, l.ran));
    assert(l.body.scope.drop_last() =~= b.scope);
    lemma_drop_vars(m, l.ran, s, ids, ids.len());
    let bd = l.ran.drop_vars(ids, ids.len());
    assert(extends(l.ran.blocks, l.done.blocks));
    assert(l.done.pending());
    lemma_term_extends(l.done, MirTerminatorView::Goto(n as usize));
    assert(extends(l.done.blocks, l.end.blocks));
    lemma_extends_trans(l.ran.blocks, l.done.blocks, l.end.blocks);
    lemma_extends_trans(l.body.blocks, l.ran.blocks, l.end.blocks);
    lemma_extends_trans(l.tested.blocks, l.body.blocks, l.end.blocks);
    lemma_extends_trans(l.head.blocks, l.tested.blocks, l.end.blocks);
    lemma_extends_trans(b.blocks, l.head.blocks, l.end.blocks);
    lemma_drop_elsewhere(l.ran, ids, ids.len());
    assert(l.ran.cur == n + 1 || l.ran.cur >= l.body.blocks.len());
    assert(l.ran.blocks[n as int + 2] == l.body.blocks[n as int + 2]);
    assert(l.done.blocks[n as int + 2] == l.ran.blocks[n as int + 2]);
    assert(l.end.blocks[n as int + 2] == l.done.blocks[n as int + 2]);
    // Finished blocks stay.
    assert(l.body.blocks[l.tested.cur as int].terminator == t);
    assert(l.end.blocks[l.tested.cur as int] == l.body.blocks[l.tested.cur as int]);
    assert(l.head.blocks[b.cur as int].terminator == MirTerminatorView::Goto(n as usize));
    assert(l.end.blocks[b.cur as int] == l.head.blocks[b.cur as int]);
    lemma_drop_versions(l.ran, ids, ids.len());
    assert(l.done.scope == l.ran.scope.drop_last());
    assert(l.end.scope == b.scope);
    assert(l.done.locals == l.ran.locals);
    assert(l.done.versions == l.ran.versions);
    assert(sound(l.end)) by {
        assert forall|i: int, j: int| 0 <= i < l.end.scope.len() && 0 <= j
            < l.end.scope[i].len() implies (#[trigger] l.end.scope[i][j]).1
            < l.end.locals.len() by {
            assert(b.scope[i][j].1 < b.locals.len());
        }
    }
}

/// Dropping touches only the current block.
proof fn lemma_drop_elsewhere(b: Bs, ids: Seq<usize>, k: nat)
    requires
        b.cur < b.blocks.len(),
    ensures
        forall|i: int|
            0 <= i < b.blocks.len() && i != b.cur ==> #[trigger] b.drop_vars(ids, k).blocks[i]
                == b.blocks[i],
    decreases k,
{
    if k > 0 {
        let b1 = b.drop_var(ids[k - 1]);
        lemma_drop_elsewhere(b1, ids, (k - 1) as nat);
        assert forall|i: int| 0 <= i < b.blocks.len() && i != b.cur implies
            #[trigger] b.drop_vars(ids, k).blocks[i] == b.blocks[i] by {
            assert(b1.drop_vars(ids, (k - 1) as nat).blocks[i] == b1.blocks[i]);
        }
    }
}

/// Versions and scopes stay when locals are dropped.
proof fn lemma_drop_versions(b: Bs, ids: Seq<usize>, k: nat)
    ensures
        b.drop_vars(ids, k).versions == b.versions,
        b.drop_vars(ids, k).scope == b.scope,
    decreases k,
{
    if k > 0 {
        lemma_drop_versions(b.drop_var(ids[k - 1]), ids, (k - 1) as nat);
    }
}

/// A loop does what it says when it is lowered: where its condition is given up after some
/// rounds, a run of the blocks that were built comes to its end, with the same calls in the
/// same order, and each name then stands for a local with its value.
pub proof fn lowering_keeps_loops<V>(
    m: Machine<V>,
    c: Ctx,
    b: Bs,
    s: State<V>,
    names: Names<V>,
    cond: HirExprView,
    list: Seq<HirStmtView>,
    rounds: nat,
)
    requires
        plain(cond),
        flowing(list, 0),
        sound(b),
        apart(b),
        b.scope.len() > 0,
        agrees(false, b, s.store, names),
        exec_while(m, c, names, s.log, cond, list, rounds) is Some,
    ensures
        stmt(c, b, HirStmtView::While { cond, body: HirBlockView { stmts: list } }) matches Ok((b1, d))
            ==> d is Value && (fits(b1) ==> exists|s1: State<V>|
            {
                &&& #[trigger] reaches(m, false, b1.blocks, point_at(b, s), point_at(b1, s1))
                &&& s1.log == (exec_while(m, c, names, s.log, cond, list, rounds)->0).1
                &&& agrees(
                    false,
                    b1,
                    s1.store,
                    (exec_while(m, c, names, s.log, cond, list, rounds)->0).0,
                )
            }),
{
    let l = lemma_loop_built(m, c, b, s, names, cond, list);
    if let Ok((b1, d)) = stmt(c, b, HirStmtView::While { cond, body: HirBlockView { stmts: list } }) {
        if fits(b1) {
            let s1 = lemma_rounds(m, c, b, s, names, cond, list, l, rounds);
            lemma_reach_step(m, false, b1.blocks, point_at(b, s), enter(s, l.head.cur));
            lemma_reach_join(
                m,
                false,
                b1.blocks,
                point_at(b, s),
                enter(s, l.head.cur),
                point_at(b1, s1),
            );
        }
    }
}

} // verus!
