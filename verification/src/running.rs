//! Lowering keeps the meaning of statements in a row.
use crate::hir::{HirExprKindView, HirStmtView};
use crate::lowering::{
    Bs, Ctx, Diverging, expr, lookup_in, lookup_level, place, place_rule, rvalue, stmt, stmt_rule,
    stmts,
};
use crate::meaning::{
    eval, Machine, Names, operand_value, Point, point_at, reaches, Request, run_stmt, rvalue_value,
    slot, State, value_in, value_in_level,
};
use crate::mir::{
    MirBlockView, MirOperandView, MirPlaceView, MirRvalueView, MirStmtView, MirTerminatorView,
    SsaLocal,
};
use crate::preservation::{
    agrees, assigned, extends, fits, lemma_agrees_on, lemma_expr, lemma_extends_trans,
    lemma_grown_extends, lemma_lookup_inside, lemma_reach_join, lemma_reach_more, lemma_reach_self,
    lemma_reach_step, lemma_rvalue, plain, sound,
};
use crate::text::Chars;
use vstd::prelude::*;

verus! {

// What statements mean.

/// A name in one scope with another value: the binding that was made last gets it.
pub open spec fn set_in_level<V>(level: Seq<(Chars, V)>, name: Chars, v: V) -> Seq<(Chars, V)>
    decreases level.len(),
{
    if level.len() == 0 {
        level
    } else if level.last().0 == name {
        level.drop_last().push((name, v))
    } else {
        set_in_level(level.drop_last(), name, v).push(level.last())
    }
}

/// A name with another value, in the innermost scope that binds it.
pub open spec fn set_in<V>(names: Names<V>, name: Chars, v: V) -> Names<V>
    decreases names.len(),
{
    if names.len() == 0 {
        names
    } else if value_in_level(names.last(), name) is Some {
        names.drop_last().push(set_in_level(names.last(), name, v))
    } else {
        set_in(names.drop_last(), name, v).push(names.last())
    }
}

/// What a statement leads to.
pub enum Flow<V> {
    /// The next statement, with those values and calls.
    Next(Names<V>, Seq<Request<V>>),
    /// Out of the function, with the value.
    Return(Option<V>, Seq<Request<V>>),
}

/// Whether a statement defines a variable, assigns to one, evaluates or returns.
pub open spec fn simple(s: HirStmtView) -> bool {
    match s {
        HirStmtView::Let { name, ty, init, mutable, persist } => plain(init),
        HirStmtView::Assign { target, expr } => target.kind is Ident && plain(expr),
        HirStmtView::Expr { expr } => plain(expr),
        HirStmtView::Return { expr: Some(e) } => plain(e),
        HirStmtView::Return { expr: None } => true,
        _ => false,
    }
}

/// What a statement does: a definition binds a name in the innermost scope, an assignment
/// gives a name another value.
pub open spec fn exec<V>(
    m: Machine<V>,
    c: Ctx,
    names: Names<V>,
    log: Seq<Request<V>>,
    s: HirStmtView,
) -> Option<Flow<V>> {
    match s {
        HirStmtView::Let { name, ty, init, mutable, persist } => match eval(
            m,
            c,
            names,
            log,
            init,
        ) {
            None => None,
            Some((v, log1)) => Some(
                Flow::Next(names.drop_last().push(names.last().push((name, v))), log1),
            ),
        },
        HirStmtView::Assign { target, expr } => match target.kind {
            HirExprKindView::Ident(name) => match eval(m, c, names, log, expr) {
                None => None,
                Some((v, log1)) => if value_in(names, name) is Some {
                    Some(Flow::Next(set_in(names, name, v), log1))
                } else {
                    None
                },
            },
            _ => None,
        },
        HirStmtView::Expr { expr } => match eval(m, c, names, log, expr) {
            None => None,
            Some((v, log1)) => Some(Flow::Next(names, log1)),
        },
        HirStmtView::Return { expr: Some(e) } => match eval(m, c, names, log, e) {
            None => None,
            Some((v, log1)) => Some(Flow::Return(Some(v), log1)),
        },
        HirStmtView::Return { expr: None } => Some(Flow::Return(None, log)),
        _ => None,
    }
}

/// What statements do from the `i`-th on, one behind the other, up to one that returns.
pub open spec fn exec_all<V>(
    m: Machine<V>,
    c: Ctx,
    names: Names<V>,
    log: Seq<Request<V>>,
    list: Seq<HirStmtView>,
    i: nat,
) -> Option<Flow<V>>
    decreases list.len() - i,
{
    if i >= list.len() {
        Some(Flow::Next(names, log))
    } else {
        match exec(m, c, names, log, list[i as int]) {
            None => None,
            Some(Flow::Return(v, log1)) => Some(Flow::Return(v, log1)),
            Some(Flow::Next(names1, log1)) => exec_all(m, c, names1, log1, list, i + 1),
        }
    }
}

// What is kept.

/// Whether each name stands for a local of its own.
pub open spec fn apart(b: Bs) -> bool {
    forall|i: int, j: int, k: int, l: int|
        0 <= i < b.scope.len() && 0 <= j < b.scope[i].len() && 0 <= k < b.scope.len() && 0 <= l
            < b.scope[k].len() && (i != k || j != l) ==> (#[trigger] b.scope[i][j]).1 != (
        #[trigger] b.scope[k][l]).1
}

/// A run that comes to the end of a block that returns that value.
pub open spec fn gives_back<V>(
    m: Machine<V>,
    blocks: Seq<MirBlockView>,
    p: Point<V>,
    v: Option<V>,
    log: Seq<Request<V>>,
    q: Point<V>,
) -> bool {
    &&& reaches(m, false, blocks, p, q)
    &&& q.block < blocks.len()
    &&& q.at == blocks[q.block as int].stmts.len()
    &&& q.state.log == log
    &&& blocks[q.block as int].terminator matches MirTerminatorView::Return(r) && match v {
        None => r is None,
        Some(x) => r matches Some(op) && operand_value(m, false, q.state.store, op) == x,
    }
}

/// Whether a run of what was built between `b` and `b1` does what `flow` says.
pub open spec fn flows<V>(
    m: Machine<V>,
    b: Bs,
    s: State<V>,
    b1: Bs,
    diverged: bool,
    flow: Flow<V>,
    q: Point<V>,
) -> bool {
    match flow {
        Flow::Next(names1, log1) => !diverged && sound(b1) && apart(b1) && b1.scope.len() > 0
            && reaches(m, false, b1.blocks, point_at(b, s), q) && q == point_at(b1, q.state)
            && q.state.log == log1 && agrees(false, b1, q.state.store, names1),
        Flow::Return(v, log1) => diverged && gives_back(m, b1.blocks, point_at(b, s), v, log1, q),
    }
}

// Names.

proof fn lemma_level_at(level: Seq<(Chars, usize)>, name: Chars) -> (j: int)
    requires
        lookup_level(level, name) is Some,
    ensures
        0 <= j < level.len(),
        level[j] == (name, lookup_level(level, name)->0),
        forall|k: int| j < k < level.len() ==> (#[trigger] level[k]).0 != name,
    decreases level.len(),
{
    if level.last().0 == name {
        level.len() - 1
    } else {
        let j = lemma_level_at(level.drop_last(), name);
        assert(level[j] == level.drop_last()[j]);
        assert forall|k: int| j < k < level.len() implies (#[trigger] level[k]).0 != name by {
            if k < level.len() - 1 {
                assert(level.drop_last()[k] == level[k]);
            }
        }
        j
    }
}

proof fn lemma_set_level<V>(level: Seq<(Chars, V)>, name: Chars, v: V, j: int)
    requires
        0 <= j < level.len(),
        level[j].0 == name,
        forall|k: int| j < k < level.len() ==> (#[trigger] level[k]).0 != name,
    ensures
        set_in_level(level, name, v) == level.update(j, (name, v)),
        value_in_level(level, name) is Some,
    decreases level.len(),
{
    let n = level.len() - 1;
    assert(level[n] == level.last());
    if j < n {
        let before = level.drop_last();
        assert(before[j] == level[j]);
        assert forall|k: int| j < k < before.len() implies (#[trigger] before[k]).0 != name by {
            assert(before[k] == level[k]);
        }
        lemma_set_level(before, name, v, j);
    }
    assert(set_in_level(level, name, v) =~= level.update(j, (name, v)));
}

proof fn lemma_no_level<V>(level: Seq<(Chars, usize)>, values: Seq<(Chars, V)>, name: Chars)
    requires
        level.len() == values.len(),
        forall|j: int| 0 <= j < level.len() ==> (#[trigger] values[j]).0 == level[j].0,
    ensures
        lookup_level(level, name) is Some <==> value_in_level(values, name) is Some,
    decreases level.len(),
{
    if level.len() > 0 {
        let n = level.len() - 1;
        assert(values[n].0 == level[n].0);
        assert forall|j: int| 0 <= j < n implies (#[trigger] values.drop_last()[j]).0
            == level.drop_last()[j].0 by {
            assert(values[j].0 == level[j].0);
        }
        lemma_no_level(level.drop_last(), values.drop_last(), name);
    }
}

/// The place of the binding that a name means.
proof fn lemma_found<V>(
    scope: Seq<Seq<(Chars, usize)>>,
    names: Names<V>,
    name: Chars,
    v: V,
) -> (r: (int, int))
    requires
        lookup_in(scope, name) is Some,
        names.len() == scope.len(),
        forall|i: int| 0 <= i < names.len() ==> (#[trigger] names[i]).len() == scope[i].len(),
        forall|i: int, j: int|
            0 <= i < names.len() && 0 <= j < names[i].len() ==> (#[trigger] names[i][j]).0
                == scope[i][j].0,
    ensures
        0 <= r.0 < scope.len(),
        0 <= r.1 < scope[r.0].len(),
        scope[r.0][r.1] == (name, lookup_in(scope, name)->0),
        set_in(names, name, v) == names.update(r.0, names[r.0].update(r.1, (name, v))),
    decreases scope.len(),
{
    let n = scope.len() - 1;
    assert(names[n] == names.last() && scope[n] == scope.last());
    assert forall|j: int| 0 <= j < scope.last().len() implies (#[trigger] names.last()[j]).0
        == scope.last()[j].0 by {
        assert(names[n][j].0 == scope[n][j].0);
    }
    lemma_no_level(scope.last(), names.last(), name);
    if lookup_level(scope.last(), name) is Some {
        let j = lemma_level_at(scope.last(), name);
        assert(names.last()[j].0 == scope.last()[j].0);
        assert forall|k: int| j < k < names.last().len() implies (#[trigger] names.last()[k]).0
            != name by {
            assert(scope.last()[k].0 != name);
        }
        lemma_set_level(names.last(), name, v, j);
        assert(set_in(names, name, v) =~= names.update(n, names[n].update(j, (name, v))));
        (n, j)
    } else {
        let scope1 = scope.drop_last();
        let names1 = names.drop_last();
        assert forall|i: int| 0 <= i < names1.len() implies (#[trigger] names1[i]).len()
            == scope1[i].len() by {
            assert(names1[i] == names[i]);
        }
        assert forall|i: int, j: int| 0 <= i < names1.len() && 0 <= j < names1[i].len() implies (
        #[trigger] names1[i][j]).0 == scope1[i][j].0 by {
            assert(names[i][j].0 == scope[i][j].0);
        }
        let (i, j) = lemma_found(scope1, names1, name, v);
        assert(names1[i] == names[i] && scope1[i] == scope[i]);
        assert(set_in(names, name, v) =~= names.update(i, names[i].update(j, (name, v))));
        (i, j)
    }
}

/// An assignment to the local of a name gives that name the value, and no other.
proof fn lemma_assigned<V>(b: Bs, store: Map<SsaLocal, V>, names: Names<V>, name: Chars, v: V)
    requires
        sound(b),
        apart(b),
        agrees(false, b, store, names),
        b.lookup(name) is Some,
    ensures
        agrees(
            false,
            b,
            store.insert(slot(false, b.ssa(b.lookup(name)->0)), v),
            set_in(names, name, v),
        ),
{
    let id = b.lookup(name)->0;
    let x = slot(false, b.ssa(id));
    let store1 = store.insert(x, v);
    let (i0, j0) = lemma_found(b.scope, names, name, v);
    let names1 = names.update(i0, names[i0].update(j0, (name, v)));
    assert forall|i: int| 0 <= i < names1.len() implies (#[trigger] names1[i]).len()
        == b.scope[i].len() by {
        assert(names[i].len() == b.scope[i].len());
    }
    assert forall|i: int, j: int| 0 <= i < names1.len() && 0 <= j < names1[i].len() implies (
    #[trigger] names1[i][j]).0 == b.scope[i][j].0 && names1[i][j].1 == store1[slot(
        false,
        b.ssa(b.scope[i][j].1),
    )] by {
        assert(names[i].len() == b.scope[i].len());
        if i == i0 && j == j0 {
            assert(b.scope[i][j].1 == id);
        } else {
            assert(names1[i][j] == names[i][j]);
            assert(b.scope[i][j].1 != b.scope[i0][j0].1);
        }
    }
}

/// A new name for a new local.
pub(crate) proof fn lemma_bound<V>(
    b: Bs,
    b1: Bs,
    store: Map<SsaLocal, V>,
    store1: Map<SsaLocal, V>,
    names: Names<V>,
    name: Chars,
    id: usize,
    v: V,
)
    requires
        sound(b),
        apart(b),
        agrees(false, b, store, names),
        b.scope.len() > 0,
        id == b.locals.len(),
        b1.locals.len() == b.locals.len() + 1,
        b1.scope == b.bind(name, id).scope,
        store1 == store.insert(SsaLocal { base_id: id, version: 0 }, v),
    ensures
        apart(b1),
        agrees(false, b1, store1, names.drop_last().push(names.last().push((name, v)))),
        forall|i: int, j: int|
            0 <= i < b1.scope.len() && 0 <= j < b1.scope[i].len() ==> (#[trigger] b1.scope[i][j]).1
                < b1.locals.len(),
        b1.scope.len() == b.scope.len(),
{
    let n = b.scope.len() - 1;
    let names1 = names.drop_last().push(names.last().push((name, v)));
    assert(b1.scope[n] == b.scope[n].push((name, id)));
    assert(names1[n] == names[n].push((name, v)));
    assert(names[n].len() == b.scope[n].len());
    assert forall|i: int| 0 <= i < names1.len() implies (#[trigger] names1[i]).len()
        == b1.scope[i].len() by {
        if i < n {
            assert(names1[i] == names[i]);
        }
    }
    assert forall|i: int, j: int| 0 <= i < names1.len() && 0 <= j < names1[i].len() implies (
    #[trigger] names1[i][j]).0 == b1.scope[i][j].0 && names1[i][j].1 == store1[slot(
        false,
        b1.ssa(b1.scope[i][j].1),
    )] by {
        assert(names1[i].len() == b1.scope[i].len());
        if i < n || j < names[n].len() {
            assert(names1[i][j] == names[i][j]);
            assert(b1.scope[i][j] == b.scope[i][j]);
            assert(b.scope[i][j].1 < b.locals.len());
        }
    }
    assert forall|i: int, j: int| 0 <= i < b1.scope.len() && 0 <= j < b1.scope[i].len() implies (
    #[trigger] b1.scope[i][j]).1 < b1.locals.len() by {
        if i < n || j < b.scope[n].len() {
            assert(b1.scope[i][j] == b.scope[i][j]);
            assert(b.scope[i][j].1 < b.locals.len());
        }
    }
    assert forall|i: int, j: int, k: int, l: int|
        0 <= i < b1.scope.len() && 0 <= j < b1.scope[i].len() && 0 <= k < b1.scope.len() && 0 <= l
            < b1.scope[k].len() && (i != k || j != l) implies (#[trigger] b1.scope[i][j]).1 != (
    #[trigger] b1.scope[k][l]).1 by {
        if i < n || j < b.scope[n].len() {
            assert(b1.scope[i][j] == b.scope[i][j]);
            assert(b.scope[i][j].1 < b.locals.len());
        }
        if k < n || l < b.scope[n].len() {
            assert(b1.scope[k][l] == b.scope[k][l]);
            assert(b.scope[k][l].1 < b.locals.len());
        }
    }
}

/// Statements pushed that do nothing to the values.
pub(crate) proof fn lemma_drop_vars<V>(m: Machine<V>, b: Bs, s: State<V>, ids: Seq<usize>, k: nat)
    requires
        b.cur < b.blocks.len(),
        b.pending(),
    ensures
        ({
            let b1 = b.drop_vars(ids, k);
            &&& extends(b.blocks, b1.blocks)
            &&& b1.cur == b.cur
            &&& b1.blocks.len() == b.blocks.len()
            &&& b1.locals == b.locals
            &&& b1.vars == b.vars
            &&& b1.pending()
            &&& reaches(m, false, b1.blocks, point_at(b, s), point_at(b1, s))
        }),
    decreases k,
{
    if k == 0 {
        lemma_reach_self(m, false, b.blocks, point_at(b, s));
        lemma_extends_self(b.blocks);
    } else {
        let b1 = b.drop_var(ids[k - 1]);
        lemma_extends_self(b.blocks);
        if b.moved.contains(b.ssa(ids[k - 1])) {
            lemma_drop_vars(m, b, s, ids, (k - 1) as nat);
        } else {
            let d = MirStmtView::Drop(MirPlaceView::Ssa(b.ssa(ids[k - 1])));
            lemma_pushed(m, b, s, b1, d, s);
            lemma_drop_vars(m, b1, s, ids, (k - 1) as nat);
            let b2 = b1.drop_vars(ids, (k - 1) as nat);
            lemma_extends_trans(b.blocks, b1.blocks, b2.blocks);
            lemma_reach_more(m, false, b1.blocks, b2.blocks, point_at(b, s), point_at(b1, s));
            lemma_reach_join(
                m,
                false,
                b2.blocks,
                point_at(b, s),
                point_at(b1, s),
                point_at(b2, s),
            );
        }
    }
}

pub(crate) proof fn lemma_extends_self(a: Seq<MirBlockView>)
    ensures
        extends(a, a),
{
    assert forall|i: int| 0 <= i < a.len() implies {
        &&& a[i].stmts.is_prefix_of((#[trigger] a[i]).stmts)
        &&& !(a[i].terminator is Pending) ==> a[i] == a[i]
    } by {
        assert(a[i].stmts.take(a[i].stmts.len() as int) =~= a[i].stmts);
    }
}

/// One more statement is one more step.
pub(crate) proof fn lemma_pushed<V>(
    m: Machine<V>,
    b: Bs,
    s: State<V>,
    b1: Bs,
    d: MirStmtView,
    s1: State<V>,
)
    requires
        b.cur < b.blocks.len(),
        b.pending(),
        b1.blocks == b.push_stmt(d).blocks,
        b1.cur == b.cur,
        run_stmt(m, false, s, d) == Some(s1),
    ensures
        extends(b.blocks, b1.blocks),
        b1.pending(),
        reaches(m, false, b1.blocks, point_at(b, s), point_at(b1, s1)),
{
    let i = b.cur as int;
    let old_stmts = b.block().stmts;
    assert(b1.blocks[i].stmts.take(old_stmts.len() as int) =~= old_stmts);
    assert forall|k: int| 0 <= k < b.blocks.len() implies {
        &&& b.blocks[k].stmts.is_prefix_of((#[trigger] b1.blocks[k]).stmts)
        &&& !(b.blocks[k].terminator is Pending) ==> b1.blocks[k] == b.blocks[k]
    } by {
        assert(b.blocks[k].stmts.take(b.blocks[k].stmts.len() as int) =~= b.blocks[k].stmts);
    }
    lemma_reach_step(m, false, b1.blocks, point_at(b, s), point_at(b1, s1));
}

proof fn lemma_drop_scopes<V>(m: Machine<V>, b: Bs, s: State<V>, top: nat, depth: nat)
    requires
        b.cur < b.blocks.len(),
        b.pending(),
    ensures
        ({
            let b1 = b.drop_scopes(top, depth);
            &&& extends(b.blocks, b1.blocks)
            &&& b1.cur == b.cur
            &&& b1.blocks.len() == b.blocks.len()
            &&& b1.locals == b.locals
            &&& b1.pending()
            &&& reaches(m, false, b1.blocks, point_at(b, s), point_at(b1, s))
        }),
    decreases top,
{
    if top <= depth {
        lemma_reach_self(m, false, b.blocks, point_at(b, s));
        lemma_extends_self(b.blocks);
    } else {
        let ids = b.vars[top - 1];
        lemma_drop_vars(m, b, s, ids, ids.len());
        let b1 = b.drop_vars(ids, ids.len());
        lemma_drop_scopes(m, b1, s, (top - 1) as nat, depth);
        let b2 = b1.drop_scopes((top - 1) as nat, depth);
        lemma_extends_trans(b.blocks, b1.blocks, b2.blocks);
        lemma_reach_more(m, false, b1.blocks, b2.blocks, point_at(b, s), point_at(b1, s));
        lemma_reach_join(m, false, b2.blocks, point_at(b, s), point_at(b1, s), point_at(b2, s));
    }
}

pub(crate) proof fn lemma_drop_vars_len(b: Bs, ids: Seq<usize>, k: nat)
    requires
        b.cur < b.blocks.len(),
    ensures
        b.drop_vars(ids, k).blocks.len() == b.blocks.len(),
        b.drop_vars(ids, k).locals == b.locals,
        b.drop_vars(ids, k).cur == b.cur,
    decreases k,
{
    if k > 0 {
        lemma_drop_vars_len(b.drop_var(ids[k - 1]), ids, (k - 1) as nat);
    }
}

proof fn lemma_drop_scopes_len(b: Bs, top: nat, depth: nat)
    requires
        b.cur < b.blocks.len(),
    ensures
        b.drop_scopes(top, depth).blocks.len() == b.blocks.len(),
        b.drop_scopes(top, depth).locals == b.locals,
        b.drop_scopes(top, depth).cur == b.cur,
    decreases top,
{
    if top > depth {
        let ids = b.vars[top - 1];
        lemma_drop_vars_len(b, ids, ids.len());
        lemma_drop_scopes_len(b.drop_vars(ids, ids.len()), (top - 1) as nat, depth);
    }
}

/// The end of a function: what is in scope is dropped, and the value returned.
proof fn lemma_return<V>(m: Machine<V>, b: Bs, s: State<V>, r: Option<MirOperandView>) -> (q: Point<
    V,
>)
    requires
        b.cur < b.blocks.len(),
        b.pending(),
    ensures
        ({
            let b1 = b.drop_scopes(b.vars.len(), 0).set_term(MirTerminatorView::Return(r));
            &&& extends(b.blocks, b1.blocks)
            &&& reaches(m, false, b1.blocks, point_at(b, s), q)
            &&& q.state == s
            &&& q.block < b1.blocks.len()
            &&& q.at == b1.blocks[q.block as int].stmts.len()
            &&& b1.blocks[q.block as int].terminator == MirTerminatorView::Return(r)
        }),
{
    let bd = b.drop_scopes(b.vars.len(), 0);
    let b1 = bd.set_term(MirTerminatorView::Return(r));
    lemma_drop_scopes(m, b, s, b.vars.len(), 0);
    assert(extends(bd.blocks, b1.blocks)) by {
        assert forall|k: int| 0 <= k < bd.blocks.len() implies {
            &&& bd.blocks[k].stmts.is_prefix_of((#[trigger] b1.blocks[k]).stmts)
            &&& !(bd.blocks[k].terminator is Pending) ==> b1.blocks[k] == bd.blocks[k]
        } by {
            assert(bd.blocks[k].stmts.take(bd.blocks[k].stmts.len() as int)
                =~= bd.blocks[k].stmts);
        }
    }
    lemma_extends_trans(b.blocks, bd.blocks, b1.blocks);
    let q = point_at(bd, s);
    lemma_reach_more(m, false, bd.blocks, b1.blocks, point_at(b, s), q);
    q
}

/// Whether what was built for a statement does what it should.
pub open spec fn stmt_kept<V>(
    m: Machine<V>,
    b: Bs,
    s: State<V>,
    names: Names<V>,
    b1: Bs,
    diverged: bool,
    flow: Option<Flow<V>>,
    q: Point<V>,
) -> bool {
    &&& b.locals.len() <= b1.locals.len()
    &&& b.blocks.len() <= b1.blocks.len()
    &&& b1.cur < b1.blocks.len()
    &&& sound(b) && apart(b) && b.scope.len() > 0 && fits(b1) && agrees(false, b, s.store, names)
        && flow is Some ==> extends(b.blocks, b1.blocks) && flows(
        m,
        b,
        s,
        b1,
        diverged,
        flow->0,
        q,
    )
}

/// A definition.
#[verifier::spinoff_prover]
#[verifier::rlimit(60)]
proof fn lemma_let<V>(m: Machine<V>, c: Ctx, b: Bs, s: State<V>, names: Names<V>, st: HirStmtView) -> (q:
    Point<V>)
    requires
        simple(st),
        st is Let,
        b.cur < b.blocks.len(),
    ensures
        stmt(c, b, st) matches Ok((b1, d)) ==> stmt_kept(
            m,
            b,
            s,
            names,
            b1,
            d is Diverged,
            exec(m, c, names, s.log, st),
            q,
        ),
{
    reveal(stmt_rule);
    match st {
        HirStmtView::Let { name, ty, init, mutable, persist } => {
            let s1 = lemma_expr(m, false, c, b, s, names, init);
            match expr(c, b, init) {
                Ok((b1, Diverging::Value(op))) => {
                    let rv = MirRvalueView::Use(op);
                    match stmt(c, b, st) {
                        Ok((b3, d)) => {
                            let id = b1.next_local();
                            if sound(b) && apart(b) && b.scope.len() > 0 && fits(b3) && agrees(
                                false,
                                b,
                                s.store,
                                names,
                            ) && exec(m, c, names, s.log, st) is Some {
                                let local_ty = match ty {
                                    Some(t) => t,
                                    None => init.ty,
                                };
                                let b2 = if persist {
                                    b1.new_local(
                                        crate::mir::MirLocalView {
                                            name: Some(name),
                                            ty: local_ty,
                                            mutable,
                                            kind: crate::mir::LocalKind::Persist,
                                        },
                                        false,
                                    )
                                } else {
                                    b1.new_var(name, local_ty, mutable)
                                };
                                let bb = b2.bind(name, id);
                                assert(bb.define(id, rv) == Some(b3));
                                let v = operand_value(m, false, s1.store, op);
                                lemma_agrees_on(false, b, b1, s.store, s1.store, names);
                                assert(apart(b1));
                                let d = MirStmtView::Assign {
                                    dest: MirPlaceView::Ssa(b3.ssa(id)),
                                    value: rv,
                                };
                                let s2 = assigned(m, false, s1, b3.ssa(id), rv);
                                lemma_pushed(m, b1, s1, b3, d, s2);
                                lemma_bound(b1, b3, s1.store, s2.store, names, name, id, v);
                                lemma_grown_extends(b, b1);
                                lemma_extends_trans(b.blocks, b1.blocks, b3.blocks);
                                lemma_reach_more(
                                    m,
                                    false,
                                    b1.blocks,
                                    b3.blocks,
                                    point_at(b, s),
                                    point_at(b1, s1),
                                );
                                lemma_reach_join(
                                    m,
                                    false,
                                    b3.blocks,
                                    point_at(b, s),
                                    point_at(b1, s1),
                                    point_at(b3, s2),
                                );
                                point_at(b3, s2)
                            } else {
                                point_at(b, s)
                            }
                        },
                        _ => point_at(b, s),
                    }
                },
                _ => point_at(b, s),
            }
        },
        _ => point_at(b, s),
    }
}

/// An assignment.
#[verifier::spinoff_prover]
#[verifier::rlimit(60)]
proof fn lemma_assign<V>(
    m: Machine<V>,
    c: Ctx,
    b: Bs,
    s: State<V>,
    names: Names<V>,
    st: HirStmtView,
) -> (q: Point<V>)
    requires
        simple(st),
        st is Assign,
        b.cur < b.blocks.len(),
    ensures
        stmt(c, b, st) matches Ok((b1, d)) ==> stmt_kept(
            m,
            b,
            s,
            names,
            b1,
            d is Diverged,
            exec(m, c, names, s.log, st),
            q,
        ),
{
    reveal(stmt_rule);
    reveal(place_rule);
    match st {
        HirStmtView::Assign { target, expr: e } => match target.kind {
            HirExprKindView::Ident(name) => {
                assert(place(c, b, target) == place_rule(c, b, target));
                match b.lookup(name) {
                    None => point_at(b, s),
                    Some(id) => match b.bump(id) {
                        None => point_at(b, s),
                        Some(b2) => {
                            let s3 = lemma_rvalue(m, false, c, b2, s, names, e);
                            match rvalue(c, b2, e) {
                                Ok((b3, Diverging::Value(rv))) => {
                                    let d = MirStmtView::Assign {
                                        dest: MirPlaceView::Ssa(b2.ssa(id)),
                                        value: rv,
                                    };
                                    let b4 = b3.push_stmt(d);
                                    if sound(b) && apart(b) && b.scope.len() > 0 && fits(b4)
                                        && agrees(false, b, s.store, names) && exec(
                                        m,
                                        c,
                                        names,
                                        s.log,
                                        st,
                                    ) is Some {
                                        lemma_lookup_inside(b, b.scope, name);
                                        assert(sound(b2)) by {
                                            assert forall|i: int, j: int|
                                                0 <= i < b2.scope.len() && 0 <= j
                                                    < b2.scope[i].len() implies (
                                            #[trigger] b2.scope[i][j]).1 < b2.locals.len() by {
                                                assert(b.scope[i][j].1 < b.locals.len());
                                            }
                                        }
                                        assert(agrees(false, b2, s.store, names)) by {
                                            assert forall|i: int, j: int|
                                                0 <= i < names.len() && 0 <= j
                                                    < names[i].len() implies (
                                            #[trigger] names[i][j]).0 == b2.scope[i][j].0
                                                && names[i][j].1 == s.store[slot(
                                                false,
                                                b2.ssa(b2.scope[i][j].1),
                                            )] by {
                                                assert(names[i][j].1 == s.store[slot(
                                                    false,
                                                    b.ssa(b.scope[i][j].1),
                                                )]);
                                            }
                                        }
                                        lemma_agrees_on(false, b2, b3, s.store, s3.store, names);
                                        let s4 = assigned(m, false, s3, b2.ssa(id), rv);
                                        lemma_pushed(m, b3, s3, b4, d, s4);
                                        let v = rvalue_value(m, false, s3, rv).0;
                                        assert(apart(b3));
                                        lemma_assigned(b3, s3.store, names, name, v);
                                        assert(slot(false, b3.ssa(id)) == slot(
                                            false,
                                            b2.ssa(id),
                                        ));
                                        let names1 = set_in(names, name, v);
                                        assert(agrees(false, b3, s4.store, names1));
                                        assert(agrees(false, b4, s4.store, names1));
                                        assert(apart(b4) && sound(b4));
                                        lemma_grown_extends(b2, b3);
                                        lemma_extends_trans(b.blocks, b3.blocks, b4.blocks);
                                        assert(point_at(b, s) == point_at(b2, s));
                                        lemma_reach_more(
                                            m,
                                            false,
                                            b3.blocks,
                                            b4.blocks,
                                            point_at(b, s),
                                            point_at(b3, s3),
                                        );
                                        lemma_reach_join(
                                            m,
                                            false,
                                            b4.blocks,
                                            point_at(b, s),
                                            point_at(b3, s3),
                                            point_at(b4, s4),
                                        );
                                        point_at(b4, s4)
                                    } else {
                                        point_at(b, s)
                                    }
                                },
                                _ => point_at(b, s),
                            }
                        },
                    },
                }
            },
            _ => point_at(b, s),
        },
        _ => point_at(b, s),
    }
}

/// An expression that is evaluated, or returned.
#[verifier::spinoff_prover]
#[verifier::rlimit(60)]
proof fn lemma_value_stmt<V>(
    m: Machine<V>,
    c: Ctx,
    b: Bs,
    s: State<V>,
    names: Names<V>,
    st: HirStmtView,
) -> (q: Point<V>)
    requires
        simple(st),
        st is Expr || st is Return,
        b.cur < b.blocks.len(),
    ensures
        stmt(c, b, st) matches Ok((b1, d)) ==> stmt_kept(
            m,
            b,
            s,
            names,
            b1,
            d is Diverged,
            exec(m, c, names, s.log, st),
            q,
        ),
{
    reveal(stmt_rule);
    match st {
        HirStmtView::Expr { expr: e } => {
            let s1 = lemma_rvalue(m, false, c, b, s, names, e);
            match rvalue(c, b, e) {
                Ok((b1, Diverging::Value(rv))) => {
                    let d = MirStmtView::ExprStmt(rv);
                    let b2 = b1.push_stmt(d);
                    if sound(b) && apart(b) && b.scope.len() > 0 && fits(b2) && agrees(
                        false,
                        b,
                        s.store,
                        names,
                    ) && exec(m, c, names, s.log, st) is Some {
                        let s2 = State { log: rvalue_value(m, false, s1, rv).1, ..s1 };
                        lemma_pushed(m, b1, s1, b2, d, s2);
                        lemma_agrees_on(false, b, b1, s.store, s1.store, names);
                        assert(agrees(false, b2, s2.store, names));
                        assert(apart(b2) && sound(b2));
                        lemma_grown_extends(b, b1);
                        lemma_extends_trans(b.blocks, b1.blocks, b2.blocks);
                        lemma_reach_more(
                            m,
                            false,
                            b1.blocks,
                            b2.blocks,
                            point_at(b, s),
                            point_at(b1, s1),
                        );
                        lemma_reach_join(
                            m,
                            false,
                            b2.blocks,
                            point_at(b, s),
                            point_at(b1, s1),
                            point_at(b2, s2),
                        );
                        point_at(b2, s2)
                    } else {
                        point_at(b, s)
                    }
                },
                _ => point_at(b, s),
            }
        },
        HirStmtView::Return { expr: None } => {
            lemma_drop_scopes_len(b, b.vars.len(), 0);
            if sound(b) {
                lemma_return(m, b, s, None)
            } else {
                point_at(b, s)
            }
        },
        HirStmtView::Return { expr: Some(e) } => {
            let s1 = lemma_expr(m, false, c, b, s, names, e);
            match expr(c, b, e) {
                Ok((b1, Diverging::Value(op))) => {
                    lemma_drop_scopes_len(b1, b1.vars.len(), 0);
                    if sound(b) && fits(b1) && agrees(false, b, s.store, names) && exec(
                        m,
                        c,
                        names,
                        s.log,
                        st,
                    ) is Some {
                        let q = lemma_return(m, b1, s1, Some(op));
                        let b2 = b1.drop_scopes(b1.vars.len(), 0).set_term(
                            MirTerminatorView::Return(Some(op)),
                        );
                        lemma_grown_extends(b, b1);
                        lemma_extends_trans(b.blocks, b1.blocks, b2.blocks);
                        lemma_reach_more(
                            m,
                            false,
                            b1.blocks,
                            b2.blocks,
                            point_at(b, s),
                            point_at(b1, s1),
                        );
                        lemma_reach_join(
                            m,
                            false,
                            b2.blocks,
                            point_at(b, s),
                            point_at(b1, s1),
                            q,
                        );
                        q
                    } else {
                        point_at(b, s)
                    }
                },
                _ => point_at(b, s),
            }
        },
        _ => point_at(b, s),
    }
}

/// Whether statements from the `i`-th on are such.
pub open spec fn all_simple(list: Seq<HirStmtView>, i: nat) -> bool {
    forall|k: int| i <= k < list.len() ==> simple(#[trigger] list[k])
}

#[verifier::spinoff_prover]
#[verifier::rlimit(60)]
pub(crate) proof fn lemma_stmts<V>(
    m: Machine<V>,
    c: Ctx,
    b: Bs,
    s: State<V>,
    names: Names<V>,
    list: Seq<HirStmtView>,
    i: nat,
    last: Option<MirOperandView>,
) -> (q: Point<V>)
    requires
        all_simple(list, i),
        b.cur < b.blocks.len(),
    ensures
        stmts(c, b, list, i, last) matches Ok((b1, d)) ==> stmt_kept(
            m,
            b,
            s,
            names,
            b1,
            d is Diverged,
            exec_all(m, c, names, s.log, list, i),
            q,
        ),
    decreases list.len() - i,
{
    if i >= list.len() {
        lemma_reach_self(m, false, b.blocks, point_at(b, s));
        lemma_extends_self(b.blocks);
        point_at(b, s)
    } else {
        let st = list[i as int];
        let q = match st {
            HirStmtView::Let { name, ty, init, mutable, persist } => lemma_let(
                m,
                c,
                b,
                s,
                names,
                st,
            ),
            HirStmtView::Assign { target, expr } => lemma_assign(m, c, b, s, names, st),
            _ => lemma_value_stmt(m, c, b, s, names, st),
        };
        match stmt(c, b, st) {
            Ok((b1, Diverging::Value(v))) => {
                let names1 = match exec(m, c, names, s.log, st) {
                    Some(Flow::Next(names1, _)) => names1,
                    _ => names,
                };
                let q2 = lemma_stmts(m, c, b1, q.state, names1, list, i + 1, v);
                match stmts(c, b1, list, i + 1, v) {
                    Ok((b2, d)) => {
                        if sound(b) && apart(b) && b.scope.len() > 0 && fits(b2) && agrees(
                            false,
                            b,
                            s.store,
                            names,
                        ) && exec_all(m, c, names, s.log, list, i) is Some {
                            lemma_extends_trans(b.blocks, b1.blocks, b2.blocks);
                            lemma_reach_more(m, false, b1.blocks, b2.blocks, point_at(b, s), q);
                            lemma_reach_join(m, false, b2.blocks, point_at(b, s), q, q2);
                        }
                    },
                    _ => {},
                }
                q2
            },
            _ => q,
        }
    }
}

/// Statements in a row do what they say when they are lowered: a run of the blocks that
/// were built makes the same calls in the same order; each name then stands for a local
/// with its value; and a statement that returns ends the run with its value. All versions
/// of a local share one place.
pub proof fn lowering_keeps_statements<V>(
    m: Machine<V>,
    c: Ctx,
    b: Bs,
    s: State<V>,
    names: Names<V>,
    list: Seq<HirStmtView>,
    last: Option<MirOperandView>,
)
    requires
        all_simple(list, 0),
        sound(b),
        apart(b),
        b.scope.len() > 0,
        agrees(false, b, s.store, names),
        exec_all(m, c, names, s.log, list, 0) is Some,
    ensures
        stmts(c, b, list, 0, last) matches Ok((b1, d)) ==> fits(b1) ==> exists|q: Point<V>|
            #[trigger] flows(
                m,
                b,
                s,
                b1,
                d is Diverged,
                exec_all(m, c, names, s.log, list, 0)->0,
                q,
            ),
{
    let q = lemma_stmts(m, c, b, s, names, list, 0, last);
}

} // verus!
