//! Lowering keeps the meaning of expressions.
use crate::ast::{LiteralView, PatternView, TypeView};
use crate::hir::{
    HirCallArgView, HirExprKindView, HirExprView, HirMatchArmView, IntrinsicDeclView, IntrinsicFn,
};
use crate::lowering::{
    arg, args, Bs, call, call_rule, cond_place, count_variants, Ctx, Diverging, elements,
    empty_plan, expr, expr_rule, fields, full_name, if_value, if_value_rule, int_literal,
    intrinsic_from, is_place_kind, join, join_branch, Joins, lookup_in, lookup_level, match_scalar,
    match_scalar_rule, match_value, match_value_rule, move_of, phi_values, place, place_base,
    place_rank, place_rule, Plan, plan_scalar, read_place, resolve_intrinsic, run_arms, rvalue,
    rvalue_rule, sole_owner, Step, variant_owner, VariantView,
};
use crate::meaning::{
    bare_variant, branch_operand, built_in, enter, eval, eval_arg, eval_args, eval_arm, eval_fields,
    eval_list, first_arm, intrinsic_of, joined, Machine, Names, only_variant, operand_value,
    operand_values, Outcome, pattern_matches, place_value, Point, point_at, qualified, reaches,
    Request, rvalue_value, Scalar, scalar_of, slot, State, step, steps, taken, value_in,
    value_in_level,
};
use crate::mir::{
    MirBlockView, MirOperandView, MirPlaceView, MirRvalueView, MirTerminatorView, SsaLocal,
};
use crate::text::Chars;
use vstd::prelude::*;

verus! {

// The expressions that are spoken of.

/// Whether a `match` on values of that type chooses by number, truth value or
/// character.
pub open spec fn chosen_by_scalar(ty: TypeView) -> bool {
    !(ty is Struct) && !(ty is Tuple) && !(ty is Array) && !(ty is Enum)
}

/// Whether nothing stands behind an arm that takes all.
pub open spec fn wildcard_is_last(arms: Seq<HirMatchArmView>) -> bool {
    forall|k: int|
        0 <= k < arms.len() && (#[trigger] arms[k]).pattern is Wildcard ==> k == arms.len() - 1
}

/// Whether an expression is made of values, operators, places, calls that return, `if`
/// and a `match` that chooses by number, truth value or character.
pub open spec fn plain(e: HirExprView) -> bool
    decreases e, 1nat,
{
    match e.kind {
        HirExprKindView::Literal(_) => true,
        HirExprKindView::Ident(_) => true,
        HirExprKindView::Sym(_) => true,
        HirExprKindView::BinaryOp { op, left, right } => plain(*left) && plain(*right),
        HirExprKindView::Unary { op, expr } => plain(*expr),
        HirExprKindView::Cast { expr, ty } => plain(*expr),
        HirExprKindView::FieldAccess { struct_expr, field_name } => plain(*struct_expr),
        HirExprKindView::Index { expr, index } => plain(*expr) && plain(*index),
        HirExprKindView::Call { qualifier, func, generic_args, args, is_method } => !(e.ty is Never)
            && plain_args(args, 0),
        HirExprKindView::EnumVariantConstruction { enum_name, generic_args, variant_name, args } => {
            plain_args(args, 0)
        },
        HirExprKindView::EnumVariantAccess { enum_name, variant_name } => true,
        HirExprKindView::StructInit { struct_name, generic_args, fields } => plain_fields(
            fields,
            0,
        ),
        HirExprKindView::ArrayLiteral(list) => plain_list(list, 0),
        HirExprKindView::LackSlice(_) => true,
        HirExprKindView::If { kind, cond, then_expr, else_expr } => plain(*cond) && plain(
            *then_expr,
        ) && match else_expr {
            Some(x) => plain(*x),
            None => true,
        },
        HirExprKindView::Match { cond, arms } => plain(*cond) && chosen_by_scalar(cond.ty)
            && wildcard_is_last(arms) && plain_arms(arms, 0),
        _ => false,
    }
}

pub open spec fn plain_args(list: Seq<HirCallArgView>, i: nat) -> bool
    decreases list, list.len() - i,
{
    i >= list.len() || (plain_arg(list[i as int]) && plain_args(list, i + 1))
}

pub open spec fn plain_arg(a: HirCallArgView) -> bool
    decreases a, 0nat,
{
    match a {
        HirCallArgView::Positional(e) => plain(e),
        HirCallArgView::Named(_, e) => plain(e),
    }
}

pub open spec fn plain_list(list: Seq<HirExprView>, i: nat) -> bool
    decreases list, list.len() - i,
{
    i >= list.len() || (plain(list[i as int]) && plain_list(list, i + 1))
}

pub open spec fn plain_fields(list: Seq<(Chars, HirExprView)>, i: nat) -> bool
    decreases list, list.len() - i,
{
    i >= list.len() || (plain(list[i as int].1) && plain_fields(list, i + 1))
}

pub open spec fn plain_arms(list: Seq<HirMatchArmView>, i: nat) -> bool
    decreases list, list.len() - i,
{
    i >= list.len() || (plain(list[i as int].expr) && plain_arms(list, i + 1))
}

// States of the builder.

/// Whether a function that is being built is in order: statements go to a block that
/// is not finished, and each name stands for a local.
pub open spec fn sound(b: Bs) -> bool {
    &&& b.cur < b.blocks.len()
    &&& b.pending()
    &&& b.versions.len() == b.locals.len()
    &&& forall|i: int, j: int|
        0 <= i < b.scope.len() && 0 <= j < b.scope[i].len() ==> (#[trigger] b.scope[i][j]).1
            < b.locals.len()
}

/// Whether its blocks and locals can be numbered.
pub open spec fn fits(b: Bs) -> bool {
    b.locals.len() <= usize::MAX && b.blocks.len() <= usize::MAX
}

/// Whether names have the values of the locals that they stand for.
pub open spec fn agrees<V>(by_version: bool, b: Bs, store: Map<SsaLocal, V>, names: Names<V>) -> bool {
    &&& names.len() == b.scope.len()
    &&& forall|i: int| 0 <= i < names.len() ==> (#[trigger] names[i]).len() == b.scope[i].len()
    &&& forall|i: int, j: int|
        0 <= i < names.len() && 0 <= j < names[i].len() ==> (#[trigger] names[i][j]).0
            == b.scope[i][j].0 && names[i][j].1 == store[slot(by_version, b.ssa(b.scope[i][j].1))]
}

/// Whether blocks only got more: statements where they were not finished, and new blocks.
pub open spec fn extends(a: Seq<MirBlockView>, b: Seq<MirBlockView>) -> bool {
    &&& a.len() <= b.len()
    &&& forall|i: int|
        0 <= i < a.len() ==> {
            &&& a[i].stmts.is_prefix_of((#[trigger] b[i]).stmts)
            &&& !(a[i].terminator is Pending) ==> b[i] == a[i]
        }
}

/// Whether what was built is still there: of the old blocks only the current one got
/// more, and the old locals and names are as they were.
pub open spec fn grown(b: Bs, b1: Bs) -> bool {
    &&& b.blocks.len() <= b1.blocks.len()
    &&& b.locals.len() <= b1.locals.len()
    &&& forall|i: int|
        0 <= i < b.blocks.len() && i != b.cur ==> #[trigger] b1.blocks[i] == b.blocks[i]
    &&& b.block().stmts.is_prefix_of(b1.blocks[b.cur as int].stmts)
    &&& b1.cur == b.cur || b1.cur >= b.blocks.len()
    &&& forall|i: int| 0 <= i < b.locals.len() ==> #[trigger] b1.versions[i] == b.versions[i]
    &&& b1.scope == b.scope
    &&& b1.in_unsafe == b.in_unsafe
    &&& b1.in_forward == b.in_forward
    &&& sound(b1)
}

/// Whether two stores agree on the first `n` locals.
pub open spec fn same_below<V>(a: Map<SsaLocal, V>, b: Map<SsaLocal, V>, n: nat) -> bool {
    forall|x: SsaLocal| x.base_id < n ==> #[trigger] b[x] == a[x]
}

/// Whether a run went on only through blocks from the `n`-th on.
pub open spec fn went_on(a: Seq<usize>, b: Seq<usize>, n: nat) -> bool {
    &&& a.is_prefix_of(b)
    &&& forall|k: int| a.len() <= k < b.len() ==> #[trigger] b[k] >= n
}

/// Whether a run of what was built between `b` and `b1` takes `s` to `s1`, through new
/// blocks and locals.
pub open spec fn comes_to<V>(
    m: Machine<V>,
    by_version: bool,
    b: Bs,
    s: State<V>,
    b1: Bs,
    s1: State<V>,
) -> bool {
    &&& reaches(m, by_version, b1.blocks, point_at(b, s), point_at(b1, s1))
    &&& same_below(s.store, s1.store, b.locals.len())
    &&& went_on(s.trail, s1.trail, b.blocks.len())
}

/// Whether a place lies in the first `n` locals.
pub open spec fn place_inside(p: MirPlaceView, n: nat) -> bool
    decreases p,
{
    match p {
        MirPlaceView::Ssa(s) => s.base_id < n,
        MirPlaceView::Static(_) => true,
        MirPlaceView::Field { base, field } => place_inside(*base, n),
        MirPlaceView::Index { base, index } => place_inside(*base, n) && operand_inside(*index, n),
        MirPlaceView::EnumPayload { base, enum_name, variant_name } => place_inside(*base, n),
    }
}

/// Whether an operand reads only the first `n` locals.
pub open spec fn operand_inside(op: MirOperandView, n: nat) -> bool
    decreases op,
{
    match op {
        MirOperandView::Constant(_) => true,
        MirOperandView::Copy(p) => place_inside(p, n),
        MirOperandView::Move(p) => place_inside(p, n),
    }
}

proof fn lemma_place_inside(p: MirPlaceView, n: nat, k: nat)
    requires
        place_inside(p, n),
        n <= k,
    ensures
        place_inside(p, k),
    decreases p,
{
    match p {
        MirPlaceView::Ssa(s) => {},
        MirPlaceView::Static(_) => {},
        MirPlaceView::Field { base, field } => lemma_place_inside(*base, n, k),
        MirPlaceView::Index { base, index } => {
            lemma_place_inside(*base, n, k);
            lemma_operand_inside(*index, n, k);
        },
        MirPlaceView::EnumPayload { base, enum_name, variant_name } => lemma_place_inside(
            *base,
            n,
            k,
        ),
    }
}

proof fn lemma_operand_inside(op: MirOperandView, n: nat, k: nat)
    requires
        operand_inside(op, n),
        n <= k,
    ensures
        operand_inside(op, k),
    decreases op,
{
    match op {
        MirOperandView::Constant(_) => {},
        MirOperandView::Copy(p) => lemma_place_inside(p, n, k),
        MirOperandView::Move(p) => lemma_place_inside(p, n, k),
    }
}

proof fn lemma_place_same<V>(
    m: Machine<V>,
    w: bool,
    a: Map<SsaLocal, V>,
    b: Map<SsaLocal, V>,
    p: MirPlaceView,
    n: nat,
)
    requires
        place_inside(p, n),
        same_below(a, b, n),
    ensures
        place_value(m, w, b, p) == place_value(m, w, a, p),
    decreases p,
{
    match p {
        MirPlaceView::Ssa(s) => {
            assert(b[slot(w, s)] == a[slot(w, s)]);
        },
        MirPlaceView::Static(_) => {},
        MirPlaceView::Field { base, field } => lemma_place_same(m, w, a, b, *base, n),
        MirPlaceView::Index { base, index } => {
            lemma_place_same(m, w, a, b, *base, n);
            lemma_operand_same(m, w, a, b, *index, n);
        },
        MirPlaceView::EnumPayload { base, enum_name, variant_name } => lemma_place_same(
            m,
            w,
            a,
            b,
            *base,
            n,
        ),
    }
}

proof fn lemma_operand_same<V>(
    m: Machine<V>,
    w: bool,
    a: Map<SsaLocal, V>,
    b: Map<SsaLocal, V>,
    op: MirOperandView,
    n: nat,
)
    requires
        operand_inside(op, n),
        same_below(a, b, n),
    ensures
        operand_value(m, w, b, op) == operand_value(m, w, a, op),
    decreases op,
{
    match op {
        MirOperandView::Constant(_) => {},
        MirOperandView::Copy(p) => lemma_place_same(m, w, a, b, p, n),
        MirOperandView::Move(p) => lemma_place_same(m, w, a, b, p, n),
    }
}

// Runs.

pub(crate) proof fn lemma_extends_trans(a: Seq<MirBlockView>, b: Seq<MirBlockView>, c: Seq<MirBlockView>)
    requires
        extends(a, b),
        extends(b, c),
    ensures
        extends(a, c),
{
    assert forall|i: int| 0 <= i < a.len() implies {
        &&& a[i].stmts.is_prefix_of((#[trigger] c[i]).stmts)
        &&& !(a[i].terminator is Pending) ==> c[i] == a[i]
    } by {
        assert(a[i].stmts.is_prefix_of(b[i].stmts));
        assert(b[i].stmts.is_prefix_of(c[i].stmts));
        assert(a[i].stmts =~= c[i].stmts.take(a[i].stmts.len() as int));
    }
}

proof fn lemma_steps_more<V>(
    m: Machine<V>,
    w: bool,
    a: Seq<MirBlockView>,
    b: Seq<MirBlockView>,
    p: Point<V>,
    n: nat,
)
    requires
        extends(a, b),
        steps(m, w, a, p, n) is Some,
    ensures
        steps(m, w, b, p, n) == steps(m, w, a, p, n),
    decreases n,
{
    if n > 0 {
        let q = step(m, w, a, p)->0;
        let i = p.block as int;
        assert(a[i].stmts.is_prefix_of(b[i].stmts));
        if p.at < a[i].stmts.len() {
            assert(b[i].stmts[p.at as int] == a[i].stmts[p.at as int]);
        } else {
            assert(!(a[i].terminator is Pending));
        }
        assert(step(m, w, b, p) == Some(q));
        lemma_steps_more(m, w, a, b, q, (n - 1) as nat);
    }
}

proof fn lemma_steps_join<V>(
    m: Machine<V>,
    w: bool,
    a: Seq<MirBlockView>,
    p: Point<V>,
    n: nat,
    k: nat,
)
    requires
        steps(m, w, a, p, n) is Some,
    ensures
        steps(m, w, a, p, n + k) == steps(m, w, a, steps(m, w, a, p, n)->0, k),
    decreases n,
{
    if n > 0 {
        lemma_steps_join(m, w, a, step(m, w, a, p)->0, (n - 1) as nat, k);
    }
}

pub(crate) proof fn lemma_reach_more<V>(
    m: Machine<V>,
    w: bool,
    a: Seq<MirBlockView>,
    b: Seq<MirBlockView>,
    p: Point<V>,
    q: Point<V>,
)
    requires
        extends(a, b),
        reaches(m, w, a, p, q),
    ensures
        reaches(m, w, b, p, q),
{
    let n = choose|n: nat| #[trigger] steps(m, w, a, p, n) == Some(q);
    lemma_steps_more(m, w, a, b, p, n);
}

pub(crate) proof fn lemma_reach_join<V>(
    m: Machine<V>,
    w: bool,
    a: Seq<MirBlockView>,
    p: Point<V>,
    q: Point<V>,
    r: Point<V>,
)
    requires
        reaches(m, w, a, p, q),
        reaches(m, w, a, q, r),
    ensures
        reaches(m, w, a, p, r),
{
    let n = choose|n: nat| #[trigger] steps(m, w, a, p, n) == Some(q);
    let k = choose|k: nat| #[trigger] steps(m, w, a, q, k) == Some(r);
    lemma_steps_join(m, w, a, p, n, k);
}

pub(crate) proof fn lemma_reach_self<V>(m: Machine<V>, w: bool, a: Seq<MirBlockView>, p: Point<V>)
    ensures
        reaches(m, w, a, p, p),
{
    assert(steps(m, w, a, p, 0) == Some(p));
}

pub(crate) proof fn lemma_reach_step<V>(
    m: Machine<V>,
    w: bool,
    a: Seq<MirBlockView>,
    p: Point<V>,
    q: Point<V>,
)
    requires
        step(m, w, a, p) == Some(q),
    ensures
        reaches(m, w, a, p, q),
{
    assert(steps(m, w, a, q, 0) == Some(q));
    assert(steps(m, w, a, p, 1) == Some(q));
}

pub(crate) proof fn lemma_grown_extends(b: Bs, b1: Bs)
    requires
        sound(b),
        grown(b, b1),
    ensures
        extends(b.blocks, b1.blocks),
{
    assert forall|i: int| 0 <= i < b.blocks.len() implies {
        &&& b.blocks[i].stmts.is_prefix_of((#[trigger] b1.blocks[i]).stmts)
        &&& !(b.blocks[i].terminator is Pending) ==> b1.blocks[i] == b.blocks[i]
    } by {
        if i != b.cur {
            assert(b1.blocks[i] == b.blocks[i]);
            assert(b.blocks[i].stmts.take(b.blocks[i].stmts.len() as int) =~= b.blocks[i].stmts);
        }
    }
}

proof fn lemma_grown_self(b: Bs)
    requires
        sound(b),
    ensures
        grown(b, b),
{
    assert(b.block().stmts.take(b.block().stmts.len() as int) =~= b.block().stmts);
}

proof fn lemma_grown_trans(b: Bs, b1: Bs, b2: Bs)
    requires
        sound(b),
        grown(b, b1),
        grown(b1, b2),
    ensures
        grown(b, b2),
{
    lemma_grown_extends(b, b1);
    lemma_grown_extends(b1, b2);
    lemma_extends_trans(b.blocks, b1.blocks, b2.blocks);
    assert(b.block().stmts.is_prefix_of(b2.blocks[b.cur as int].stmts));
    assert forall|i: int| 0 <= i < b.blocks.len() && i != b.cur implies #[trigger] b2.blocks[i]
        == b.blocks[i] by {
        assert(b1.blocks[i] == b.blocks[i]);
    }
    assert forall|i: int| 0 <= i < b.locals.len() implies #[trigger] b2.versions[i]
        == b.versions[i] by {
        assert(b1.versions[i] == b.versions[i]);
    }
}

proof fn lemma_comes_to_trans<V>(
    m: Machine<V>,
    w: bool,
    b: Bs,
    s: State<V>,
    b1: Bs,
    s1: State<V>,
    b2: Bs,
    s2: State<V>,
)
    requires
        sound(b),
        grown(b, b1),
        grown(b1, b2),
        comes_to(m, w, b, s, b1, s1),
        comes_to(m, w, b1, s1, b2, s2),
    ensures
        comes_to(m, w, b, s, b2, s2),
{
    lemma_grown_extends(b1, b2);
    lemma_reach_more(m, w, b1.blocks, b2.blocks, point_at(b, s), point_at(b1, s1));
    lemma_reach_join(
        m,
        w,
        b2.blocks,
        point_at(b, s),
        point_at(b1, s1),
        point_at(b2, s2),
    );
    assert forall|x: SsaLocal| x.base_id < b.locals.len() implies #[trigger] s2.store[x]
        == s.store[x] by {
        assert(s1.store[x] == s.store[x]);
    }
    assert(s.trail =~= s2.trail.take(s.trail.len() as int));
    assert forall|k: int| s.trail.len() <= k < s2.trail.len() implies #[trigger] s2.trail[k]
        >= b.blocks.len() by {
        if k < s1.trail.len() {
            assert(s1.trail[k] == s2.trail[k]);
        }
    }
}

proof fn lemma_comes_to_self<V>(m: Machine<V>, w: bool, b: Bs, s: State<V>)
    ensures
        comes_to(m, w, b, s, b, s),
{
    lemma_reach_self(m, w, b.blocks, point_at(b, s));
    assert(s.trail.take(s.trail.len() as int) =~= s.trail);
}

pub(crate) proof fn lemma_agrees_on<V>(
    w: bool,
    b: Bs,
    b1: Bs,
    a: Map<SsaLocal, V>,
    a1: Map<SsaLocal, V>,
    names: Names<V>,
)
    requires
        sound(b),
        agrees(w, b, a, names),
        b1.scope == b.scope,
        forall|i: int| 0 <= i < b.locals.len() ==> #[trigger] b1.versions[i] == b.versions[i],
        same_below(a, a1, b.locals.len()),
    ensures
        agrees(w, b1, a1, names),
{
    assert forall|i: int, j: int| 0 <= i < names.len() && 0 <= j < names[i].len() implies (
    #[trigger] names[i][j]).0 == b1.scope[i][j].0 && names[i][j].1 == a1[slot(
        w,
        b1.ssa(b1.scope[i][j].1),
    )] by {
        let id = b.scope[i][j].1;
        assert(id < b.locals.len());
        assert(b1.versions[id as int] == b.versions[id as int]);
        let x = slot(w, b.ssa(id));
        assert(a1[x] == a[x]);
    }
}

/// The state after an assignment to a local.
pub open spec fn assigned<V>(
    m: Machine<V>,
    w: bool,
    s: State<V>,
    x: SsaLocal,
    rv: MirRvalueView,
) -> State<V> {
    let (v, log) = rvalue_value(m, w, s, rv);
    State { store: s.store.insert(slot(w, x), v), log, ..s }
}

/// An assignment to the next version of a local is one step.
pub(crate) proof fn lemma_define<V>(m: Machine<V>, w: bool, b: Bs, s: State<V>, id: usize, rv: MirRvalueView)
    requires
        sound(b),
        id < b.locals.len(),
        b.define(id, rv) is Some,
    ensures
        ({
            let b1 = b.define(id, rv)->0;
            &&& sound(b1)
            &&& extends(b.blocks, b1.blocks)
            &&& reaches(
                m,
                w,
                b1.blocks,
                point_at(b, s),
                point_at(b1, assigned(m, w, s, b1.ssa(id), rv)),
            )
        }),
{
    let b1 = b.define(id, rv)->0;
    let i = b.cur as int;
    let old_stmts = b.block().stmts;
    assert(b1.blocks[i].stmts.take(old_stmts.len() as int) =~= old_stmts);
    assert forall|k: int| 0 <= k < b.blocks.len() implies {
        &&& b.blocks[k].stmts.is_prefix_of((#[trigger] b1.blocks[k]).stmts)
        &&& !(b.blocks[k].terminator is Pending) ==> b1.blocks[k] == b.blocks[k]
    } by {
        assert(b.blocks[k].stmts.take(b.blocks[k].stmts.len() as int) =~= b.blocks[k].stmts);
    }
    lemma_reach_step(
        m,
        w,
        b1.blocks,
        point_at(b, s),
        point_at(b1, assigned(m, w, s, b1.ssa(id), rv)),
    );
}

/// A value put into a new local.
pub(crate) proof fn lemma_temp<V>(
    m: Machine<V>,
    w: bool,
    b: Bs,
    b0: Bs,
    s: State<V>,
    rv: MirRvalueView,
) -> (s1: State<V>)
    requires
        sound(b),
        b.locals.len() < usize::MAX,
        b0.blocks == b.blocks,
        b0.cur == b.cur,
        b0.locals.len() == b.locals.len() + 1,
        b0.versions == b.versions.push(0),
        b0.scope == b.scope,
        b0.in_unsafe == b.in_unsafe,
        b0.in_forward == b.in_forward,
    ensures
        ({
            let id = b.locals.len() as usize;
            let b1 = b0.define(id, rv)->0;
            &&& b0.define(id, rv) is Some
            &&& b1.locals.len() == b.locals.len() + 1
            &&& b1.blocks.len() == b.blocks.len()
            &&& b1.cur == b.cur
            &&& grown(b, b1)
            &&& comes_to(m, w, b, s, b1, s1)
            &&& s1.log == rvalue_value(m, w, s, rv).1
            &&& s1.store[slot(w, b1.ssa(id))] == rvalue_value(m, w, s, rv).0
        }),
{
    let id = b.locals.len() as usize;
    assert(sound(b0));
    let b1 = b0.define(id, rv)->0;
    lemma_define(m, w, b0, s, id, rv);
    let s1 = assigned(m, w, s, b1.ssa(id), rv);
    assert(b.block().stmts.is_prefix_of(b1.blocks[b.cur as int].stmts));
    assert(s.trail.take(s.trail.len() as int) =~= s.trail);
    s1
}

// What is proved of each rule.

/// That lowering to an operand keeps the value: what was built grows, and a run of it
/// makes the calls and leaves the value in the operand.
pub open spec fn operand_kept<V>(
    m: Machine<V>,
    w: bool,
    b: Bs,
    s: State<V>,
    names: Names<V>,
    r: Step<MirOperandView>,
    o: Outcome<V>,
    s1: State<V>,
) -> bool {
    match r {
        Err(_) => true,
        Ok((_, Diverging::Diverged)) => false,
        Ok((b1, Diverging::Value(op))) => {
            &&& b.locals.len() <= b1.locals.len()
            &&& b.blocks.len() <= b1.blocks.len()
            &&& b1.cur < b1.blocks.len()
            &&& sound(b) && fits(b1) ==> grown(b, b1) && operand_inside(op, b1.locals.len()) && (
            agrees(w, b, s.store, names) && o is Some ==> comes_to(m, w, b, s, b1, s1) && o == Some(
                (operand_value(m, w, s1.store, op), s1.log),
            ))
        },
    }
}

/// The same of a place.
pub open spec fn place_kept<V>(
    m: Machine<V>,
    w: bool,
    b: Bs,
    s: State<V>,
    names: Names<V>,
    r: Step<MirPlaceView>,
    o: Outcome<V>,
    s1: State<V>,
) -> bool {
    match r {
        Err(_) => true,
        Ok((_, Diverging::Diverged)) => false,
        Ok((b1, Diverging::Value(p))) => {
            &&& b.locals.len() <= b1.locals.len()
            &&& b.blocks.len() <= b1.blocks.len()
            &&& b1.cur < b1.blocks.len()
            &&& sound(b) && fits(b1) ==> grown(b, b1) && place_inside(p, b1.locals.len()) && (
            agrees(w, b, s.store, names) && o is Some ==> comes_to(m, w, b, s, b1, s1) && o == Some(
                (place_value(m, w, s1.store, p), s1.log),
            ))
        },
    }
}

/// The same of what a statement computes, which is still to be computed.
pub open spec fn rvalue_kept<V>(
    m: Machine<V>,
    w: bool,
    b: Bs,
    s: State<V>,
    names: Names<V>,
    r: Step<MirRvalueView>,
    o: Outcome<V>,
    s1: State<V>,
) -> bool {
    match r {
        Err(_) => true,
        Ok((_, Diverging::Diverged)) => false,
        Ok((b1, Diverging::Value(rv))) => {
            &&& b.locals.len() <= b1.locals.len()
            &&& b.blocks.len() <= b1.blocks.len()
            &&& b1.cur < b1.blocks.len()
            &&& sound(b) && fits(b1) ==> grown(b, b1) && (rv matches MirRvalueView::Use(op)
                ==> operand_inside(op, b1.locals.len())) && (agrees(w, b, s.store, names)
                && o is Some ==> comes_to(m, w, b, s, b1, s1) && o == Some(
                rvalue_value(m, w, s1, rv),
            ))
        },
    }
}

/// The same of operands in order, where it holds of those `before`.
pub open spec fn operands_kept<V>(
    m: Machine<V>,
    w: bool,
    b: Bs,
    s: State<V>,
    names: Names<V>,
    before: bool,
    r: Step<Seq<MirOperandView>>,
    o: Option<(Seq<V>, Seq<Request<V>>)>,
    s1: State<V>,
) -> bool {
    match r {
        Err(_) => true,
        Ok((_, Diverging::Diverged)) => false,
        Ok((b1, Diverging::Value(ops))) => {
            &&& b.locals.len() <= b1.locals.len()
            &&& b.blocks.len() <= b1.blocks.len()
            &&& b1.cur < b1.blocks.len()
            &&& sound(b) && fits(b1) ==> grown(b, b1) && (before && agrees(w, b, s.store, names)
                && o is Some ==> comes_to(m, w, b, s, b1, s1) && o == Some(
                (operand_values(m, w, s1.store, ops), s1.log),
            ))
        },
    }
}

/// The names of fields with the values of their operands.
pub open spec fn field_values<V>(
    m: Machine<V>,
    w: bool,
    store: Map<SsaLocal, V>,
    ops: Seq<(Chars, MirOperandView)>,
) -> Seq<(Chars, V)> {
    Seq::new(ops.len(), |i: int| (ops[i].0, operand_value(m, w, store, ops[i].1)))
}

/// The same of fields in order, where it holds of those `before`.
pub open spec fn fields_kept<V>(
    m: Machine<V>,
    w: bool,
    b: Bs,
    s: State<V>,
    names: Names<V>,
    before: bool,
    r: Step<Seq<(Chars, MirOperandView)>>,
    o: Option<(Seq<(Chars, V)>, Seq<Request<V>>)>,
    s1: State<V>,
) -> bool {
    match r {
        Err(_) => true,
        Ok((_, Diverging::Diverged)) => false,
        Ok((b1, Diverging::Value(ops))) => {
            &&& b.locals.len() <= b1.locals.len()
            &&& b.blocks.len() <= b1.blocks.len()
            &&& b1.cur < b1.blocks.len()
            &&& sound(b) && fits(b1) ==> grown(b, b1) && (before && agrees(w, b, s.store, names)
                && o is Some ==> comes_to(m, w, b, s, b1, s1) && o == Some(
                (field_values(m, w, s1.store, ops), s1.log),
            ))
        },
    }
}

proof fn lemma_level<V>(
    w: bool,
    b: Bs,
    store: Map<SsaLocal, V>,
    level: Seq<(Chars, usize)>,
    values: Seq<(Chars, V)>,
    name: Chars,
)
    requires
        level.len() == values.len(),
        forall|j: int|
            0 <= j < level.len() ==> level[j].0 == (#[trigger] values[j]).0 && values[j].1
                == store[slot(w, b.ssa(level[j].1))] && level[j].1 < b.locals.len(),
    ensures
        match lookup_level(level, name) {
            None => value_in_level(values, name) is None,
            Some(id) => id < b.locals.len() && value_in_level(values, name) == Some(
                store[slot(w, b.ssa(id))],
            ),
        },
    decreases level.len(),
{
    if level.len() > 0 {
        let n = level.len() - 1;
        assert(values[n] == values.last());
        assert forall|j: int| 0 <= j < n implies level.drop_last()[j].0 == (
        #[trigger] values.drop_last()[j]).0 && values.drop_last()[j].1 == store[slot(
            w,
            b.ssa(level.drop_last()[j].1),
        )] && level.drop_last()[j].1 < b.locals.len() by {
            assert(values[j] == values.drop_last()[j]);
        }
        lemma_level(w, b, store, level.drop_last(), values.drop_last(), name);
    }
}

/// A name stands for the value of its local.
proof fn lemma_lookup<V>(
    w: bool,
    b: Bs,
    store: Map<SsaLocal, V>,
    scope: Seq<Seq<(Chars, usize)>>,
    names: Names<V>,
    name: Chars,
)
    requires
        scope.len() == names.len(),
        forall|i: int| 0 <= i < names.len() ==> (#[trigger] names[i]).len() == scope[i].len(),
        forall|i: int, j: int|
            0 <= i < names.len() && 0 <= j < names[i].len() ==> scope[i][j].0 == (
            #[trigger] names[i][j]).0 && names[i][j].1 == store[slot(w, b.ssa(scope[i][j].1))]
                && scope[i][j].1 < b.locals.len(),
    ensures
        match lookup_in(scope, name) {
            None => value_in(names, name) is None,
            Some(id) => id < b.locals.len() && value_in(names, name) == Some(
                store[slot(w, b.ssa(id))],
            ),
        },
    decreases scope.len(),
{
    if scope.len() > 0 {
        let n = scope.len() - 1;
        assert(names[n] == names.last());
        assert forall|j: int| 0 <= j < scope.last().len() implies scope.last()[j].0 == (
        #[trigger] names.last()[j]).0 && names.last()[j].1 == store[slot(
            w,
            b.ssa(scope.last()[j].1),
        )] && scope.last()[j].1 < b.locals.len() by {
            assert(names[n][j] == names.last()[j]);
        }
        lemma_level(w, b, store, scope.last(), names.last(), name);
        let names1 = names.drop_last();
        let scope1 = scope.drop_last();
        assert forall|i: int| 0 <= i < names1.len() implies (#[trigger] names1[i]).len()
            == scope1[i].len() by {
            assert(names1[i] == names[i]);
        }
        assert forall|i: int, j: int| 0 <= i < names1.len() && 0 <= j < names1[i].len() implies
            scope1[i][j].0 == (#[trigger] names1[i][j]).0 && names1[i][j].1 == store[slot(
            w,
            b.ssa(scope1[i][j].1),
        )] && scope1[i][j].1 < b.locals.len() by {
            assert(names1[i][j] == names[i][j]);
        }
        lemma_lookup(w, b, store, scope1, names1, name);
    }
}

/// A name that is found stands for a local.
pub(crate) proof fn lemma_lookup_inside(b: Bs, scope: Seq<Seq<(Chars, usize)>>, name: Chars)
    requires
        forall|i: int, j: int|
            0 <= i < scope.len() && 0 <= j < scope[i].len() ==> (#[trigger] scope[i][j]).1
                < b.locals.len(),
    ensures
        lookup_in(scope, name) matches Some(id) ==> id < b.locals.len(),
    decreases scope.len(),
{
    if scope.len() > 0 {
        let n = scope.len() - 1;
        assert forall|j: int| 0 <= j < scope.last().len() implies (#[trigger] scope.last()[j]).1
            < b.locals.len() by {
            assert(scope[n][j] == scope.last()[j]);
        }
        lemma_level_inside(b, scope.last(), name);
        let scope1 = scope.drop_last();
        assert forall|i: int, j: int| 0 <= i < scope1.len() && 0 <= j < scope1[i].len() implies (
        #[trigger] scope1[i][j]).1 < b.locals.len() by {
            assert(scope1[i][j] == scope[i][j]);
        }
        lemma_lookup_inside(b, scope1, name);
    }
}

proof fn lemma_level_inside(b: Bs, level: Seq<(Chars, usize)>, name: Chars)
    requires
        forall|j: int| 0 <= j < level.len() ==> (#[trigger] level[j]).1 < b.locals.len(),
    ensures
        lookup_level(level, name) matches Some(id) ==> id < b.locals.len(),
    decreases level.len(),
{
    if level.len() > 0 {
        let level1 = level.drop_last();
        assert forall|j: int| 0 <= j < level1.len() implies (#[trigger] level1[j]).1
            < b.locals.len() by {
            assert(level1[j] == level[j]);
        }
        assert(level[level.len() - 1].1 < b.locals.len());
        lemma_level_inside(b, level1, name);
    }
}

proof fn lemma_count(vs: Seq<VariantView>, n: nat, name: Chars)
    requires
        n <= vs.len(),
    ensures
        count_variants(vs, n, name) == 0 ==> forall|j: int|
            0 <= j < n ==> (#[trigger] vs[j]).name != name,
        count_variants(vs, n, name) == 1 ==> exists|k: int|
            0 <= k < n && (#[trigger] vs[k]).name == name && variant_owner(vs, n, name) == Some(
                vs[k].enum_name,
            ) && forall|j: int| 0 <= j < n && (#[trigger] vs[j]).name == name ==> j == k,
        count_variants(vs, n, name) > 1 ==> exists|j: int, k: int|
            0 <= j < k < n && (#[trigger] vs[j]).name == name && (#[trigger] vs[k]).name == name,
    decreases n,
{
    if n > 0 {
        let p = (n - 1) as nat;
        lemma_count(vs, p, name);
        if vs[p as int].name == name {
            if count_variants(vs, p, name) == 1 {
                let j = choose|k: int|
                    0 <= k < p && (#[trigger] vs[k]).name == name && variant_owner(vs, p, name)
                        == Some(vs[k].enum_name) && forall|j: int|
                        0 <= j < p && (#[trigger] vs[j]).name == name ==> j == k;
                assert(vs[j].name == name && vs[p as int].name == name);
            }
        }
    }
}

/// A bare name means a variant where just one has it.
proof fn lemma_bare_variant(c: Ctx, name: Chars)
    ensures
        bare_variant(c, name) == sole_owner(c, name),
{
    lemma_count(c.variants, c.variants.len(), name);
    if count_variants(c.variants, c.variants.len(), name) == 1 {
        let owner = sole_owner(c, name)->0;
        assert(only_variant(c, owner, name));
        let other = choose|enum_name: Chars| only_variant(c, enum_name, name);
        assert(only_variant(c, other, name));
    } else if exists|enum_name: Chars| only_variant(c, enum_name, name) {
        let other = choose|enum_name: Chars| only_variant(c, enum_name, name);
        assert(only_variant(c, other, name));
    }
}

proof fn lemma_intrinsic_from(list: Seq<IntrinsicDeclView>, i: int, name: Chars)
    requires
        0 <= i <= list.len(),
        forall|j: int| 0 <= j < i ==> (#[trigger] list[j]).name != name,
    ensures
        match intrinsic_from(list, i, name) {
            None => forall|j: int| 0 <= j < list.len() ==> (#[trigger] list[j]).name != name,
            Some(d) => exists|k: int|
                0 <= k < list.len() && #[trigger] list[k] == d && d.name == name && forall|j: int|
                    0 <= j < k ==> (#[trigger] list[j]).name != name,
        },
    decreases list.len() - i,
{
    if i < list.len() && list[i].name != name {
        lemma_intrinsic_from(list, i + 1, name);
    }
}

/// A call that may be made goes to the function that is built in under its name.
proof fn lemma_intrinsic(
    c: Ctx,
    qualifier: Option<Chars>,
    func: Chars,
    in_forward: bool,
    in_unsafe: bool,
    diverges: bool,
)
    ensures
        resolve_intrinsic(c, qualifier, func, in_forward, in_unsafe, diverges) matches Ok(id)
            ==> id == intrinsic_of(c, qualified(qualifier, func)),
        full_name(qualifier, func) == qualified(qualifier, func),
{
    let name = qualified(qualifier, func);
    lemma_intrinsic_from(c.intrinsics, 0, name);
    match intrinsic_from(c.intrinsics, 0, name) {
        None => {},
        Some(d) => {
            assert(built_in(c, name, d.id));
            let id = choose|id: IntrinsicFn| built_in(c, name, id);
            assert(built_in(c, name, id));
            let k = choose|k: int|
                0 <= k < c.intrinsics.len() && (#[trigger] c.intrinsics[k]).name == name
                    && c.intrinsics[k].id == id && forall|j: int|
                    0 <= j < k ==> (#[trigger] c.intrinsics[j]).name != name;
            let l = choose|k: int|
                0 <= k < c.intrinsics.len() && #[trigger] c.intrinsics[k] == d && d.name == name
                    && forall|j: int| 0 <= j < k ==> (#[trigger] c.intrinsics[j]).name != name;
            assert(c.intrinsics[k].name == name && c.intrinsics[l].name == name);
            assert(k == l);
        },
    }
}

// The rules.

/// A second step behind a first one.
proof fn lemma_behind<V>(
    m: Machine<V>,
    w: bool,
    b: Bs,
    s: State<V>,
    names: Names<V>,
    b1: Bs,
    s1: State<V>,
)
    requires
        sound(b),
        grown(b, b1),
        agrees(w, b, s.store, names),
        comes_to(m, w, b, s, b1, s1),
    ensures
        agrees(w, b1, s1.store, names),
{
    lemma_agrees_on(w, b, b1, s.store, s1.store, names);
}

/// Marking a version as moved changes nothing that is spoken of here.
proof fn lemma_marked<V>(m: Machine<V>, w: bool, b: Bs, s: State<V>, b1: Bs, x: SsaLocal, s1: State<V>)
    requires
        grown(b, b1),
    ensures
        grown(b, b1.mark_moved(x)),
        comes_to(m, w, b, s, b1, s1) ==> comes_to(m, w, b, s, b1.mark_moved(x), s1),
{
}

#[verifier::rlimit(40)]
pub(crate) proof fn lemma_expr<V>(
    m: Machine<V>,
    w: bool,
    c: Ctx,
    b: Bs,
    s: State<V>,
    names: Names<V>,
    e: HirExprView,
) -> (s1: State<V>)
    requires
        b.cur < b.blocks.len(),
        plain(e),
    ensures
        operand_kept(m, w, b, s, names, expr(c, b, e), eval(m, c, names, s.log, e), s1),
    decreases e, 7nat,
{
    reveal(expr_rule);
    match e.kind {
        HirExprKindView::Literal(l) => {
            lemma_comes_to_self(m, w, b, s);
            if sound(b) {
                lemma_grown_self(b);
            }
            s
        },
        _ => {
            let s1 = lemma_rvalue(m, w, c, b, s, names, e);
            match rvalue(c, b, e) {
                Ok((b1, Diverging::Value(rv))) => match rv {
                    MirRvalueView::Use(_) => s1,
                    _ => {
                        let b0 = b1.new_temp(e.ty);
                        let id = b1.next_local();
                        if sound(b) && b1.locals.len() < usize::MAX && fits(b1) {
                            let s2 = lemma_temp(m, w, b1, b0, s1, rv);
                            let b2 = b0.define(id, rv)->0;
                            let x = MirPlaceView::Ssa(b2.ssa(id));
                            assert(place_inside(x, b2.locals.len()));
                            assert(place_value(m, w, s2.store, x) == s2.store[slot(
                                w,
                                b2.ssa(id),
                            )]);
                            lemma_grown_trans(b, b1, b2);
                            if comes_to(m, w, b, s, b1, s1) {
                                lemma_comes_to_trans(m, w, b, s, b1, s1, b2, s2);
                            }
                            s2
                        } else {
                            s1
                        }
                    },
                },
                _ => s1,
            }
        },
    }
}

#[verifier::rlimit(40)]
proof fn lemma_place<V>(
    m: Machine<V>,
    w: bool,
    c: Ctx,
    b: Bs,
    s: State<V>,
    names: Names<V>,
    e: HirExprView,
) -> (s1: State<V>)
    requires
        b.cur < b.blocks.len(),
        plain(e),
    ensures
        place_kept(m, w, b, s, names, place(c, b, e), eval(m, c, names, s.log, e), s1),
    decreases e, place_rank(e) + 1,
{
    reveal(place_rule);
    match e.kind {
        HirExprKindView::Ident(name) => {
            lemma_comes_to_self(m, w, b, s);
            if sound(b) {
                lemma_grown_self(b);
                lemma_lookup_inside(b, b.scope, name);
                if agrees(w, b, s.store, names) {
                    lemma_lookup(w, b, s.store, b.scope, names, name);
                }
            }
            s
        },
        HirExprKindView::FieldAccess { struct_expr, field_name } => {
            lemma_place(m, w, c, b, s, names, *struct_expr)
        },
        HirExprKindView::Index { expr: base, index } => {
            let s1 = lemma_place(m, w, c, b, s, names, *base);
            match place(c, b, *base) {
                Ok((b1, Diverging::Value(p))) => {
                    let s2 = lemma_expr(m, w, c, b1, s1, names, *index);
                    match expr(c, b1, *index) {
                        Ok((b2, Diverging::Value(i))) => {
                            if sound(b) && fits(b2) {
                                lemma_grown_trans(b, b1, b2);
                                lemma_place_inside(p, b1.locals.len(), b2.locals.len());
                                if agrees(w, b, s.store, names) && comes_to(
                                    m,
                                    w,
                                    b,
                                    s,
                                    b1,
                                    s1,
                                ) {
                                    lemma_behind(m, w, b, s, names, b1, s1);
                                    if comes_to(m, w, b1, s1, b2, s2) {
                                        lemma_comes_to_trans(m, w, b, s, b1, s1, b2, s2);
                                        lemma_place_same(
                                            m,
                                            w,
                                            s1.store,
                                            s2.store,
                                            p,
                                            b1.locals.len(),
                                        );
                                    }
                                }
                            }
                        },
                        _ => {},
                    }
                    s2
                },
                _ => s1,
            }
        },
        _ => {
            let s1 = lemma_expr(m, w, c, b, s, names, e);
            match expr(c, b, e) {
                Ok((b1, Diverging::Value(op))) => match op {
                    MirOperandView::Constant(_) => {
                        let b0 = b1.new_temp(e.ty);
                        let id = b1.next_local();
                        let rv = MirRvalueView::Use(op);
                        if sound(b) && b1.locals.len() < usize::MAX && fits(b1) {
                            let s2 = lemma_temp(m, w, b1, b0, s1, rv);
                            let b2 = b0.define(id, rv)->0;
                            let x = MirPlaceView::Ssa(b2.ssa(id));
                            assert(place_inside(x, b2.locals.len()));
                            assert(place_value(m, w, s2.store, x) == s2.store[slot(
                                w,
                                b2.ssa(id),
                            )]);
                            lemma_grown_trans(b, b1, b2);
                            if comes_to(m, w, b, s, b1, s1) {
                                lemma_comes_to_trans(m, w, b, s, b1, s1, b2, s2);
                            }
                            s2
                        } else {
                            s1
                        }
                    },
                    _ => s1,
                },
                _ => s1,
            }
        },
    }
}

/// An expression in one part.
proof fn lemma_one<V>(
    m: Machine<V>,
    w: bool,
    c: Ctx,
    b: Bs,
    s: State<V>,
    names: Names<V>,
    e: HirExprView,
) -> (s1: State<V>)
    requires
        b.cur < b.blocks.len(),
        plain(e),
        e.kind is Unary || e.kind is Cast,
    ensures
        rvalue_kept(m, w, b, s, names, rvalue(c, b, e), eval(m, c, names, s.log, e), s1),
    decreases e, 3nat,
{
    reveal(rvalue_rule);
    match e.kind {
        HirExprKindView::Unary { op, expr: inner } => lemma_expr(m, w, c, b, s, names, *inner),
        HirExprKindView::Cast { expr: inner, ty } => lemma_expr(m, w, c, b, s, names, *inner),
        _ => s,
    }
}

/// Two operands and the operator between them.
#[verifier::rlimit(40)]
proof fn lemma_two<V>(
    m: Machine<V>,
    w: bool,
    c: Ctx,
    b: Bs,
    s: State<V>,
    names: Names<V>,
    e: HirExprView,
) -> (s2: State<V>)
    requires
        b.cur < b.blocks.len(),
        plain(e),
        e.kind is BinaryOp,
    ensures
        rvalue_kept(m, w, b, s, names, rvalue(c, b, e), eval(m, c, names, s.log, e), s2),
    decreases e, 3nat,
{
    reveal(rvalue_rule);
    match e.kind {
        HirExprKindView::BinaryOp { op, left, right } => {
            let s1 = lemma_expr(m, w, c, b, s, names, *left);
            match expr(c, b, *left) {
                Ok((b1, Diverging::Value(l))) => {
                    let s2 = lemma_expr(m, w, c, b1, s1, names, *right);
                    match expr(c, b1, *right) {
                        Ok((b2, Diverging::Value(r))) => {
                            if sound(b) && fits(b2) {
                                lemma_grown_trans(b, b1, b2);
                                if agrees(w, b, s.store, names) && comes_to(
                                    m,
                                    w,
                                    b,
                                    s,
                                    b1,
                                    s1,
                                ) {
                                    lemma_behind(m, w, b, s, names, b1, s1);
                                    if comes_to(m, w, b1, s1, b2, s2) {
                                        lemma_comes_to_trans(m, w, b, s, b1, s1, b2, s2);
                                        lemma_operand_same(
                                            m,
                                            w,
                                            s1.store,
                                            s2.store,
                                            l,
                                            b1.locals.len(),
                                        );
                                    }
                                }
                            }
                        },
                        _ => {},
                    }
                    s2
                },
                _ => s1,
            }
        },
        _ => s,
    }
}

#[verifier::rlimit(60)]
pub(crate) proof fn lemma_rvalue<V>(
    m: Machine<V>,
    w: bool,
    c: Ctx,
    b: Bs,
    s: State<V>,
    names: Names<V>,
    e: HirExprView,
) -> (s1: State<V>)
    requires
        b.cur < b.blocks.len(),
        plain(e),
    ensures
        rvalue_kept(m, w, b, s, names, rvalue(c, b, e), eval(m, c, names, s.log, e), s1),
    decreases e, 5nat,
{
    reveal(rvalue_rule);
    lemma_comes_to_self(m, w, b, s);
    if sound(b) {
        lemma_grown_self(b);
    }
    match e.kind {
        HirExprKindView::Ident(name) => {
            if sound(b) {
                lemma_lookup_inside(b, b.scope, name);
                if agrees(w, b, s.store, names) {
                    lemma_lookup(w, b, s.store, b.scope, names, name);
                }
                if let Some(id) = b.lookup(name) {
                    lemma_marked(m, w, b, s, b, b.ssa(id), s);
                }
            }
            s
        },
        HirExprKindView::BinaryOp { op, left, right } => lemma_two(m, w, c, b, s, names, e),
        HirExprKindView::Unary { op, expr: inner } => lemma_one(m, w, c, b, s, names, e),
        HirExprKindView::Cast { expr: inner, ty } => lemma_one(m, w, c, b, s, names, e),
        HirExprKindView::FieldAccess { struct_expr, field_name } => lemma_read(
            m,
            w,
            c,
            b,
            s,
            names,
            e,
        ),
        HirExprKindView::Index { expr: base, index } => lemma_read(m, w, c, b, s, names, e),
        HirExprKindView::Call { qualifier, func, generic_args, args: list, is_method } => {
            lemma_call(m, w, c, b, s, names, e)
        },
        HirExprKindView::EnumVariantConstruction {
            enum_name,
            generic_args,
            variant_name,
            args: list,
        } => {
            assert(operand_values(m, w, s.store, Seq::empty()) =~= Seq::<V>::empty());
            lemma_args(m, w, c, b, s, names, list, 0, Seq::empty(), Seq::empty())
        },
        HirExprKindView::EnumVariantAccess { enum_name, variant_name } => {
            assert(operand_values(m, w, s.store, Seq::empty()) =~= Seq::<V>::empty());
            s
        },
        HirExprKindView::StructInit { struct_name, generic_args, fields: list } => {
            assert(field_values(m, w, s.store, Seq::empty()) =~= Seq::<(Chars, V)>::empty());
            let s1 = lemma_fields(m, w, c, b, s, names, list, 0, Seq::empty(), Seq::empty());
            s1
        },
        HirExprKindView::ArrayLiteral(list) => {
            assert(operand_values(m, w, s.store, Seq::empty()) =~= Seq::<V>::empty());
            lemma_elements(m, w, c, b, s, names, list, 0, Seq::empty(), Seq::empty())
        },
        HirExprKindView::LackSlice(_) => {
            assert(operand_values(m, w, s.store, Seq::empty()) =~= Seq::<V>::empty());
            s
        },
        HirExprKindView::If { kind, cond, then_expr, else_expr } => lemma_if(
            m,
            w,
            c,
            b,
            s,
            names,
            e,
        ),
        HirExprKindView::Match { cond, arms } => lemma_match(m, w, c, b, s, names, e),
        _ => s,
    }
}

/// A field or an element that is read.
proof fn lemma_read<V>(
    m: Machine<V>,
    w: bool,
    c: Ctx,
    b: Bs,
    s: State<V>,
    names: Names<V>,
    e: HirExprView,
) -> (s1: State<V>)
    requires
        b.cur < b.blocks.len(),
        plain(e),
        is_place_kind(e),
    ensures
        rvalue_kept(m, w, b, s, names, read_place(c, b, e), eval(m, c, names, s.log, e), s1),
    decreases e, 3nat,
{
    let s1 = lemma_place(m, w, c, b, s, names, e);
    match place(c, b, e) {
        Ok((b1, Diverging::Value(p))) => {
            if sound(b) && fits(b1) {
                if let Some(x) = place_base(p) {
                    lemma_marked(m, w, b, s, b1, x, s1);
                }
            }
        },
        _ => {},
    }
    s1
}

/// Whether operands read only the first `n` locals.
spec fn all_inside(ops: Seq<MirOperandView>, n: nat) -> bool {
    forall|i: int| 0 <= i < ops.len() ==> operand_inside(#[trigger] ops[i], n)
}

/// One more operand behind others.
proof fn lemma_one_more<V>(
    m: Machine<V>,
    w: bool,
    a: Map<SsaLocal, V>,
    a1: Map<SsaLocal, V>,
    ops: Seq<MirOperandView>,
    op: MirOperandView,
    n: nat,
    n1: nat,
)
    requires
        all_inside(ops, n),
        operand_inside(op, n1),
        same_below(a, a1, n),
        n <= n1,
    ensures
        all_inside(ops.push(op), n1),
        operand_values(m, w, a1, ops.push(op)) == operand_values(m, w, a, ops).push(
            operand_value(m, w, a1, op),
        ),
{
    let more = ops.push(op);
    assert forall|i: int| 0 <= i < more.len() implies operand_inside(#[trigger] more[i], n1) by {
        if i < ops.len() {
            assert(more[i] == ops[i]);
            lemma_operand_inside(ops[i], n, n1);
        }
    }
    assert forall|i: int| 0 <= i < ops.len() implies operand_value(m, w, a1, ops[i])
        == #[trigger] operand_value(m, w, a, ops[i]) by {
        lemma_operand_same(m, w, a, a1, ops[i], n);
    }
    assert(operand_values(m, w, a1, more) =~= operand_values(m, w, a, ops).push(
        operand_value(m, w, a1, op),
    ));
}

#[verifier::rlimit(40)]
proof fn lemma_args<V>(
    m: Machine<V>,
    w: bool,
    c: Ctx,
    b: Bs,
    s: State<V>,
    names: Names<V>,
    list: Seq<HirCallArgView>,
    i: nat,
    ops: Seq<MirOperandView>,
    done: Seq<V>,
) -> (s2: State<V>)
    requires
        b.cur < b.blocks.len(),
        plain_args(list, i),
    ensures
        operands_kept(
            m,
            w,
            b,
            s,
            names,
            all_inside(ops, b.locals.len()) && operand_values(m, w, s.store, ops) == done,
            args(c, b, list, i, ops),
            eval_args(m, c, names, s.log, list, i, done),
            s2,
        ),
        args(c, b, list, i, ops) matches Ok((_, Diverging::Value(all))) ==> all.len() == ops.len()
            + list.len() - i || i > list.len(),
    decreases list, list.len() - i,
{
    if i >= list.len() {
        lemma_comes_to_self(m, w, b, s);
        if sound(b) {
            lemma_grown_self(b);
        }
        s
    } else {
        let s1 = lemma_arg(m, w, c, b, s, names, list[i as int]);
        match arg(c, b, list[i as int]) {
            Ok((b1, Diverging::Value(op))) => {
                let more = ops.push(op);
                let v = operand_value(m, w, s1.store, op);
                let s2 = lemma_args(m, w, c, b1, s1, names, list, i + 1, more, done.push(v));
                match args(c, b1, list, i + 1, more) {
                    Ok((b2, Diverging::Value(all))) => {
                        if sound(b) && fits(b2) {
                            lemma_grown_trans(b, b1, b2);
                            if agrees(w, b, s.store, names) && comes_to(m, w, b, s, b1, s1)
                                && all_inside(ops, b.locals.len()) && operand_values(
                                m,
                                w,
                                s.store,
                                ops,
                            ) == done {
                                lemma_behind(m, w, b, s, names, b1, s1);
                                lemma_one_more(
                                    m,
                                    w,
                                    s.store,
                                    s1.store,
                                    ops,
                                    op,
                                    b.locals.len(),
                                    b1.locals.len(),
                                );
                                if comes_to(m, w, b1, s1, b2, s2) {
                                    lemma_comes_to_trans(m, w, b, s, b1, s1, b2, s2);
                                }
                            }
                        }
                    },
                    _ => {},
                }
                s2
            },
            _ => s1,
        }
    }
}

proof fn lemma_arg<V>(
    m: Machine<V>,
    w: bool,
    c: Ctx,
    b: Bs,
    s: State<V>,
    names: Names<V>,
    a: HirCallArgView,
) -> (s1: State<V>)
    requires
        b.cur < b.blocks.len(),
        plain_arg(a),
    ensures
        operand_kept(m, w, b, s, names, arg(c, b, a), eval_arg(m, c, names, s.log, a), s1),
    decreases a, 0nat,
{
    match a {
        HirCallArgView::Positional(e) => lemma_expr(m, w, c, b, s, names, e),
        HirCallArgView::Named(_, e) => lemma_expr(m, w, c, b, s, names, e),
    }
}

#[verifier::rlimit(40)]
proof fn lemma_elements<V>(
    m: Machine<V>,
    w: bool,
    c: Ctx,
    b: Bs,
    s: State<V>,
    names: Names<V>,
    list: Seq<HirExprView>,
    i: nat,
    ops: Seq<MirOperandView>,
    done: Seq<V>,
) -> (s2: State<V>)
    requires
        b.cur < b.blocks.len(),
        plain_list(list, i),
    ensures
        operands_kept(
            m,
            w,
            b,
            s,
            names,
            all_inside(ops, b.locals.len()) && operand_values(m, w, s.store, ops) == done,
            elements(c, b, list, i, ops),
            eval_list(m, c, names, s.log, list, i, done),
            s2,
        ),
    decreases list, list.len() - i,
{
    if i >= list.len() {
        lemma_comes_to_self(m, w, b, s);
        if sound(b) {
            lemma_grown_self(b);
        }
        s
    } else {
        let s1 = lemma_expr(m, w, c, b, s, names, list[i as int]);
        match expr(c, b, list[i as int]) {
            Ok((b1, Diverging::Value(op))) => {
                let more = ops.push(op);
                let v = operand_value(m, w, s1.store, op);
                let s2 = lemma_elements(m, w, c, b1, s1, names, list, i + 1, more, done.push(v));
                match elements(c, b1, list, i + 1, more) {
                    Ok((b2, Diverging::Value(all))) => {
                        if sound(b) && fits(b2) {
                            lemma_grown_trans(b, b1, b2);
                            if agrees(w, b, s.store, names) && comes_to(m, w, b, s, b1, s1)
                                && all_inside(ops, b.locals.len()) && operand_values(
                                m,
                                w,
                                s.store,
                                ops,
                            ) == done {
                                lemma_behind(m, w, b, s, names, b1, s1);
                                lemma_one_more(
                                    m,
                                    w,
                                    s.store,
                                    s1.store,
                                    ops,
                                    op,
                                    b.locals.len(),
                                    b1.locals.len(),
                                );
                                if comes_to(m, w, b1, s1, b2, s2) {
                                    lemma_comes_to_trans(m, w, b, s, b1, s1, b2, s2);
                                }
                            }
                        }
                    },
                    _ => {},
                }
                s2
            },
            _ => s1,
        }
    }
}

/// Whether the operands of fields read only the first `n` locals.
spec fn fields_inside(ops: Seq<(Chars, MirOperandView)>, n: nat) -> bool {
    forall|i: int| 0 <= i < ops.len() ==> operand_inside((#[trigger] ops[i]).1, n)
}

/// One more field behind others.
proof fn lemma_field_more<V>(
    m: Machine<V>,
    w: bool,
    a: Map<SsaLocal, V>,
    a1: Map<SsaLocal, V>,
    ops: Seq<(Chars, MirOperandView)>,
    op: (Chars, MirOperandView),
    n: nat,
    n1: nat,
)
    requires
        fields_inside(ops, n),
        operand_inside(op.1, n1),
        same_below(a, a1, n),
        n <= n1,
    ensures
        fields_inside(ops.push(op), n1),
        field_values(m, w, a1, ops.push(op)) == field_values(m, w, a, ops).push(
            (op.0, operand_value(m, w, a1, op.1)),
        ),
{
    let more = ops.push(op);
    assert forall|i: int| 0 <= i < more.len() implies operand_inside((#[trigger] more[i]).1, n1) by {
        if i < ops.len() {
            assert(more[i] == ops[i]);
            lemma_operand_inside(ops[i].1, n, n1);
        }
    }
    assert forall|i: int| 0 <= i < ops.len() implies operand_value(m, w, a1, ops[i].1)
        == #[trigger] operand_value(m, w, a, ops[i].1) by {
        lemma_operand_same(m, w, a, a1, ops[i].1, n);
    }
    assert(field_values(m, w, a1, more) =~= field_values(m, w, a, ops).push(
        (op.0, operand_value(m, w, a1, op.1)),
    ));
}

#[verifier::rlimit(40)]
proof fn lemma_fields<V>(
    m: Machine<V>,
    w: bool,
    c: Ctx,
    b: Bs,
    s: State<V>,
    names: Names<V>,
    list: Seq<(Chars, HirExprView)>,
    i: nat,
    ops: Seq<(Chars, MirOperandView)>,
    done: Seq<(Chars, V)>,
) -> (s2: State<V>)
    requires
        b.cur < b.blocks.len(),
        plain_fields(list, i),
    ensures
        fields_kept(
            m,
            w,
            b,
            s,
            names,
            fields_inside(ops, b.locals.len()) && field_values(m, w, s.store, ops) == done,
            fields(c, b, list, i, ops),
            eval_fields(m, c, names, s.log, list, i, done),
            s2,
        ),
    decreases list, list.len() - i,
{
    if i >= list.len() {
        lemma_comes_to_self(m, w, b, s);
        if sound(b) {
            lemma_grown_self(b);
        }
        s
    } else {
        let s1 = lemma_expr(m, w, c, b, s, names, list[i as int].1);
        match expr(c, b, list[i as int].1) {
            Ok((b1, Diverging::Value(op))) => {
                let x = (list[i as int].0, op);
                let more = ops.push(x);
                let v = operand_value(m, w, s1.store, op);
                let s2 = lemma_fields(
                    m,
                    w,
                    c,
                    b1,
                    s1,
                    names,
                    list,
                    i + 1,
                    more,
                    done.push((x.0, v)),
                );
                match fields(c, b1, list, i + 1, more) {
                    Ok((b2, Diverging::Value(all))) => {
                        if sound(b) && fits(b2) {
                            lemma_grown_trans(b, b1, b2);
                            if agrees(w, b, s.store, names) && comes_to(m, w, b, s, b1, s1)
                                && fields_inside(ops, b.locals.len()) && field_values(
                                m,
                                w,
                                s.store,
                                ops,
                            ) == done {
                                lemma_behind(m, w, b, s, names, b1, s1);
                                lemma_field_more(
                                    m,
                                    w,
                                    s.store,
                                    s1.store,
                                    ops,
                                    x,
                                    b.locals.len(),
                                    b1.locals.len(),
                                );
                                if comes_to(m, w, b1, s1, b2, s2) {
                                    lemma_comes_to_trans(m, w, b, s, b1, s1, b2, s2);
                                }
                            }
                        }
                    },
                    _ => {},
                }
                s2
            },
            _ => s1,
        }
    }
}

/// A call.
#[verifier::rlimit(60)]
proof fn lemma_call<V>(
    m: Machine<V>,
    w: bool,
    c: Ctx,
    b: Bs,
    s: State<V>,
    names: Names<V>,
    e: HirExprView,
) -> (s1: State<V>)
    requires
        b.cur < b.blocks.len(),
        plain(e),
        e.kind is Call,
    ensures
        rvalue_kept(m, w, b, s, names, call(c, b, e), eval(m, c, names, s.log, e), s1),
    decreases e, 3nat,
{
    reveal(call_rule);
    match e.kind {
        HirExprKindView::Call { qualifier, func, generic_args, args: list, is_method } => {
            lemma_bare_variant(c, func);
            lemma_intrinsic(c, qualifier, func, b.in_forward, b.in_unsafe, false);
            assert(operand_values(m, w, s.store, Seq::empty()) =~= Seq::<V>::empty());
            let s1 = lemma_args(m, w, c, b, s, names, list, 0, Seq::empty(), Seq::empty());
            match args(c, b, list, 0, Seq::empty()) {
                Ok((b1, Diverging::Value(ops))) => {
                    if is_method && list.len() > 0 {
                        assert(seq![ops[0]] + ops.skip(1) =~= ops);
                    }
                },
                _ => {},
            }
            lemma_comes_to_self(m, w, b, s);
            if sound(b) {
                lemma_grown_self(b);
            }
            s1
        },
        _ => s,
    }
}

// Branches.

/// Whether what was built is still there, but for the version of `dest` and the block
/// `open`, which may have got more.
pub open spec fn kept_but(b: Bs, b1: Bs, dest: usize, open: usize) -> bool {
    &&& extends(b.blocks, b1.blocks)
    &&& forall|i: int|
        0 <= i < b.blocks.len() && i != open ==> #[trigger] b1.blocks[i] == b.blocks[i]
    &&& b.locals.len() <= b1.locals.len()
    &&& b1.versions.len() == b1.locals.len()
    &&& forall|i: int|
        0 <= i < b.locals.len() && i != dest ==> #[trigger] b1.versions[i] == b.versions[i]
    &&& b1.scope == b.scope
    &&& b1.in_unsafe == b.in_unsafe
    &&& b1.in_forward == b.in_forward
}

/// Whether two stores agree on the first `n` locals but `dest`.
pub open spec fn same_but<V>(
    a: Map<SsaLocal, V>,
    b: Map<SsaLocal, V>,
    n: nat,
    dest: usize,
) -> bool {
    forall|x: SsaLocal| x.base_id < n && x.base_id != dest ==> #[trigger] b[x] == a[x]
}

/// Whether a run from the start of a branch comes to the start of `end`, with the value in
/// that version of `dest`.
pub open spec fn lands<V>(
    m: Machine<V>,
    w: bool,
    b: Bs,
    s: State<V>,
    blocks: Seq<MirBlockView>,
    x: SsaLocal,
    end: usize,
    o: Outcome<V>,
    s1: State<V>,
) -> bool {
    &&& reaches(m, w, blocks, point_at(b, s), enter(s1, end))
    &&& same_but(s.store, s1.store, b.locals.len(), x.base_id)
    &&& went_on(s.trail, s1.trail, b.blocks.len())
    &&& o == Some((s1.store[slot(w, x)], s1.log))
}

/// The end of a branch.
#[verifier::rlimit(60)]
proof fn lemma_branch<V>(
    m: Machine<V>,
    w: bool,
    b: Bs,
    s: State<V>,
    names: Names<V>,
    b7: Bs,
    op: MirOperandView,
    o: Outcome<V>,
    s7: State<V>,
    dest: usize,
    end: usize,
    joins: Joins,
) -> (s8: State<V>)
    requires
        b.cur < b.blocks.len(),
        operand_kept(m, w, b, s, names, Ok((b7, Diverging::Value(op))), o, s7),
    ensures
        join_branch(b7, dest, op, b.cur, end, joins) matches Some((b8, joins1)) ==> {
            &&& b7.locals.len() == b8.locals.len()
            &&& b7.blocks.len() == b8.blocks.len()
            &&& joins1 == joins.push((b.cur, b8.ssa(dest)))
            &&& sound(b) && fits(b8) && dest < b.locals.len() ==> {
                &&& kept_but(b, b8, dest, b.cur)
                &&& agrees(w, b, s.store, names) && o is Some ==> lands(
                    m,
                    w,
                    b,
                    s,
                    b8.blocks,
                    b8.ssa(dest),
                    end,
                    o,
                    s8,
                )
            }
        },
{
    let rv = MirRvalueView::Use(op);
    match join_branch(b7, dest, op, b.cur, end, joins) {
        None => s7,
        Some((b8, joins1)) => {
            let bd = b7.define(dest, rv)->0;
            let s8 = assigned(m, w, s7, bd.ssa(dest), rv);
            if sound(b) && fits(b8) && dest < b.locals.len() {
                lemma_grown_extends(b, b7);
                lemma_define(m, w, b7, s7, dest, rv);
                lemma_extends_trans(b.blocks, b7.blocks, bd.blocks);
                assert(bd.pending());
                assert(extends(bd.blocks, b8.blocks)) by {
                    assert forall|k: int| 0 <= k < bd.blocks.len() implies {
                        &&& bd.blocks[k].stmts.is_prefix_of((#[trigger] b8.blocks[k]).stmts)
                        &&& !(bd.blocks[k].terminator is Pending) ==> b8.blocks[k] == bd.blocks[k]
                    } by {
                        assert(bd.blocks[k].stmts.take(bd.blocks[k].stmts.len() as int)
                            =~= bd.blocks[k].stmts);
                    }
                }
                lemma_extends_trans(b.blocks, bd.blocks, b8.blocks);
                assert forall|i: int| 0 <= i < b.blocks.len() && i != b.cur implies
                    #[trigger] b8.blocks[i] == b.blocks[i] by {
                    assert(b7.blocks[i] == b.blocks[i]);
                }
                assert forall|i: int| 0 <= i < b.locals.len() && i != dest implies
                    #[trigger] b8.versions[i] == b.versions[i] by {
                    assert(b7.versions[i] == b.versions[i]);
                }
                if agrees(w, b, s.store, names) && o is Some {
                    lemma_extends_trans(b7.blocks, bd.blocks, b8.blocks);
                    lemma_reach_more(
                        m,
                        w,
                        b7.blocks,
                        b8.blocks,
                        point_at(b, s),
                        point_at(b7, s7),
                    );
                    lemma_reach_more(
                        m,
                        w,
                        bd.blocks,
                        b8.blocks,
                        point_at(b7, s7),
                        point_at(bd, s8),
                    );
                    lemma_reach_step(m, w, b8.blocks, point_at(bd, s8), enter(s8, end));
                    lemma_reach_join(
                        m,
                        w,
                        b8.blocks,
                        point_at(b, s),
                        point_at(b7, s7),
                        point_at(bd, s8),
                    );
                    lemma_reach_join(
                        m,
                        w,
                        b8.blocks,
                        point_at(b, s),
                        point_at(bd, s8),
                        enter(s8, end),
                    );
                    assert forall|x: SsaLocal|
                        x.base_id < b.locals.len() && x.base_id != dest implies
                        #[trigger] s8.store[x] == s.store[x] by {
                        assert(s7.store[x] == s.store[x]);
                    }
                }
            }
            s8
        },
    }
}

proof fn lemma_no_branch(values: Seq<(usize, MirOperandView)>, block: usize, i: nat)
    requires
        forall|k: int| 0 <= k < values.len() ==> (#[trigger] values[k]).0 != block,
    ensures
        branch_operand(values, block, i) is None,
    decreases values.len() - i,
{
    if i < values.len() {
        lemma_no_branch(values, block, i + 1);
    }
}

proof fn lemma_branch_at(values: Seq<(usize, MirOperandView)>, n: int, i: nat)
    requires
        i <= n < values.len(),
        forall|k: int| 0 <= k < n ==> (#[trigger] values[k]).0 != values[n].0,
    ensures
        branch_operand(values, values[n].0, i) == Some(values[n].1),
    decreases n - i,
{
    if i < n {
        lemma_branch_at(values, n, i + 1);
    }
}

/// A join takes the operand of the branch that was run.
proof fn lemma_joined(
    values: Seq<(usize, MirOperandView)>,
    n: int,
    trail: Seq<usize>,
    at: int,
)
    requires
        0 <= n < values.len(),
        forall|k: int| 0 <= k < n ==> (#[trigger] values[k]).0 != values[n].0,
        0 <= at < trail.len(),
        trail[at] == values[n].0,
        forall|j: int, k: int|
            at < j < trail.len() && 0 <= k < values.len() ==> (#[trigger] values[k]).0
                != #[trigger] trail[j],
    ensures
        joined(values, trail) == Some(values[n].1),
    decreases trail.len(),
{
    if at == trail.len() - 1 {
        lemma_branch_at(values, n, 0);
    } else {
        assert forall|k: int| 0 <= k < values.len() implies (#[trigger] values[k]).0
            != trail.last() by {
            assert(trail[trail.len() - 1] == trail.last());
        }
        lemma_no_branch(values, trail.last(), 0);
        let t = trail.drop_last();
        assert forall|j: int, k: int| at < j < t.len() && 0 <= k < values.len() implies (
        #[trigger] values[k]).0 != #[trigger] t[j] by {
            assert(t[j] == trail[j]);
        }
        lemma_joined(values, n, t, at);
    }
}

/// Where the branches join: `b1` is before them, `b0` at the branch, `b4` behind the branches,
/// of which the `n`-th was run.
#[verifier::rlimit(60)]
proof fn lemma_join<V>(
    m: Machine<V>,
    w: bool,
    b1: Bs,
    s1: State<V>,
    b0: Bs,
    b4: Bs,
    dest: usize,
    end: usize,
    joins: Joins,
    run: bool,
    n: int,
    o: Outcome<V>,
    s8: State<V>,
) -> (s9: State<V>)
    requires
        sound(b1),
        fits(b1),
        b1.locals.len() <= dest < b0.locals.len(),
        b1.blocks.len() <= end < b0.blocks.len(),
        b0.blocks.len() <= b4.blocks.len(),
        b0.locals.len() <= b4.locals.len(),
        b4.versions.len() == b4.locals.len(),
        b4.scope == b1.scope,
        b4.in_unsafe == b1.in_unsafe,
        b4.in_forward == b1.in_forward,
        b4.blocks[end as int].terminator is Pending,
        b4.blocks[end as int].stmts.len() == 0,
        b1.block().stmts == b4.blocks[b1.cur as int].stmts,
        forall|i: int|
            0 <= i < b1.blocks.len() && i != b1.cur ==> #[trigger] b4.blocks[i] == b1.blocks[i],
        forall|i: int| 0 <= i < b1.locals.len() ==> #[trigger] b4.versions[i] == b1.versions[i],
        run ==> {
            &&& 0 <= n < joins.len()
            &&& reaches(m, w, b4.blocks, point_at(b1, s1), enter(s8, end))
            &&& same_below(s1.store, s8.store, b1.locals.len())
            &&& went_on(s1.trail, s8.trail, b1.blocks.len())
            &&& o == Some((s8.store[slot(w, joins[n].1)], s8.log))
            &&& exists|at: int|
                0 <= at < s8.trail.len() && #[trigger] s8.trail[at] == joins[n].0 && forall|
                    j: int,
                    k: int,
                |
                    at < j < s8.trail.len() && 0 <= k < joins.len() ==> (#[trigger] joins[k]).0
                        != #[trigger] s8.trail[j]
        },
        forall|j: int, k: int|
            0 <= j < k < joins.len() ==> (#[trigger] joins[j]).0 != (#[trigger] joins[k]).0,
        forall|k: int| 0 <= k < joins.len() ==> (#[trigger] joins[k]).0 != end,
        joins.len() > 0,
    ensures
        match join(b4, dest, end, joins) {
            Err(_) => true,
            Ok((_, Diverging::Diverged)) => false,
            Ok((b5, Diverging::Value(rv))) => {
                &&& b5.locals.len() == b4.locals.len()
                &&& b5.blocks.len() == b4.blocks.len()
                &&& b5.cur < b5.blocks.len()
                &&& grown(b1, b5)
                &&& rv matches MirRvalueView::Use(op) && operand_inside(op, b5.locals.len())
                &&& run ==> comes_to(m, w, b1, s1, b5, s9) && o == Some(
                    rvalue_value(m, w, s9, rv),
                )
            },
        },
{
    let be = b4.switch(end);
    let values = phi_values(joins);
    let rv = MirRvalueView::Phi { values };
    let se = State { trail: s8.trail.push(end), ..s8 };
    assert(sound(be)) by {
        assert forall|i: int, j: int|
            0 <= i < be.scope.len() && 0 <= j < be.scope[i].len() implies (
        #[trigger] be.scope[i][j]).1 < be.locals.len() by {
            assert(b1.scope[i][j].1 < b1.locals.len());
        }
    }
    match be.define(dest, rv) {
        None => se,
        Some(b5) => {
            let s9 = assigned(m, w, se, b5.ssa(dest), rv);
            lemma_define(m, w, be, se, dest, rv);
            let stmts = b1.block().stmts;
            assert(stmts.take(stmts.len() as int) =~= stmts);
            assert forall|i: int| 0 <= i < b1.blocks.len() && i != b1.cur implies
                #[trigger] b5.blocks[i] == b1.blocks[i] by {
                assert(b4.blocks[i] == b1.blocks[i]);
            }
            assert forall|i: int| 0 <= i < b1.locals.len() implies #[trigger] b5.versions[i]
                == b1.versions[i] by {
                assert(b4.versions[i] == b1.versions[i]);
            }
            assert(grown(b1, b5));
            let x = MirPlaceView::Ssa(b5.ssa(dest));
            assert(place_inside(x, b5.locals.len()));
            if run {
                lemma_reach_more(
                    m,
                    w,
                    b4.blocks,
                    b5.blocks,
                    point_at(b1, s1),
                    enter(s8, end),
                );
                assert(enter(s8, end) == point_at(be, se));
                lemma_reach_join(
                    m,
                    w,
                    b5.blocks,
                    point_at(b1, s1),
                    point_at(be, se),
                    point_at(b5, s9),
                );
                let at = choose|at: int|
                    0 <= at < s8.trail.len() && #[trigger] s8.trail[at] == joins[n].0 && forall|
                        j: int,
                        k: int,
                    |
                        at < j < s8.trail.len() && 0 <= k < joins.len() ==> (#[trigger] joins[k]).0
                            != #[trigger] s8.trail[j];
                assert(se.trail[at] == values[n].0);
                assert forall|k: int| 0 <= k < n implies (#[trigger] values[k]).0
                    != values[n].0 by {
                    assert(joins[k].0 != joins[n].0);
                }
                assert forall|j: int, k: int| at < j < se.trail.len() && 0 <= k
                    < values.len() implies (#[trigger] values[k]).0 != #[trigger] se.trail[j] by {
                    assert(joins[k].0 == values[k].0);
                    if j < s8.trail.len() {
                        assert(se.trail[j] == s8.trail[j]);
                    }
                }
                lemma_joined(values, n, se.trail, at);
                assert(values[n].1 == move_of(joins[n].1));
                let y = MirPlaceView::Ssa(joins[n].1);
                assert(place_value(m, w, se.store, y) == se.store[slot(w, joins[n].1)]);
                assert(operand_value(m, w, se.store, values[n].1) == se.store[slot(
                    w,
                    joins[n].1,
                )]);
                assert(place_value(m, w, s9.store, x) == s9.store[slot(w, b5.ssa(dest))]);
                assert forall|z: SsaLocal| z.base_id < b1.locals.len() implies
                    #[trigger] s9.store[z] == s1.store[z] by {
                    assert(s8.store[z] == s1.store[z]);
                }
                assert(s1.trail =~= s9.trail.take(s1.trail.len() as int));
                assert forall|k: int| s1.trail.len() <= k < s9.trail.len() implies
                    #[trigger] s9.trail[k] >= b1.blocks.len() by {
                    if k < s8.trail.len() {
                        assert(s9.trail[k] == s8.trail[k]);
                    }
                }
            }
            s9
        },
    }
}


/// A value that is there.
proof fn lemma_unit<V>(m: Machine<V>, w: bool, b: Bs, s: State<V>, names: Names<V>)
    requires
        b.cur < b.blocks.len(),
    ensures
        operand_kept(
            m,
            w,
            b,
            s,
            names,
            Ok((b, Diverging::Value(MirOperandView::Constant(LiteralView::Unit)))),
            Some(((m.literal)(LiteralView::Unit), s.log)),
            s,
        ),
{
    lemma_comes_to_self(m, w, b, s);
    if sound(b) {
        lemma_grown_self(b);
    }
}

/// The start of a branch.
proof fn lemma_branch_start<V>(
    w: bool,
    b1: Bs,
    s1: State<V>,
    b6: Bs,
    block: usize,
    names: Names<V>,
)
    requires
        sound(b1),
        block < b6.blocks.len(),
        b6.cur == block,
        b6.blocks[block as int].terminator is Pending,
        b6.versions.len() == b6.locals.len(),
        b1.locals.len() <= b6.locals.len(),
        b6.scope == b1.scope,
        forall|i: int| 0 <= i < b1.locals.len() ==> #[trigger] b6.versions[i] == b1.versions[i],
    ensures
        sound(b6),
        agrees(w, b1, s1.store, names) ==> agrees(w, b6, s1.store, names),
{
    assert forall|i: int, j: int| 0 <= i < b6.scope.len() && 0 <= j < b6.scope[i].len() implies (
    #[trigger] b6.scope[i][j]).1 < b6.locals.len() by {
        assert(b1.scope[i][j].1 < b1.locals.len());
    }
    if agrees(w, b1, s1.store, names) {
        lemma_agrees_on(w, b1, b6, s1.store, s1.store, names);
    }
}

/// An `if`, behind its condition.
#[verifier::rlimit(100)]
#[verifier::spinoff_prover]
proof fn lemma_if_branches<V>(
    m: Machine<V>,
    w: bool,
    c: Ctx,
    b1: Bs,
    s1: State<V>,
    names: Names<V>,
    op: MirOperandView,
    ty: TypeView,
    b6: Bs,
    then_op: MirOperandView,
    b7: Bs,
    then_o: Outcome<V>,
    s7: State<V>,
    else_op: MirOperandView,
    b9: Bs,
    else_o: Outcome<V>,
    s9: State<V>,
) -> (s2: State<V>)
    requires
        b1.cur < b1.blocks.len(),
        b6 == branching(b1, op, ty),
        operand_kept(
            m,
            w,
            b6,
            State { trail: s1.trail.push(b1.next_block()), ..s1 },
            names,
            Ok((b7, Diverging::Value(then_op))),
            then_o,
            s7,
        ),
        join_branch(
            b7,
            b1.next_local(),
            then_op,
            b6.cur,
            (b1.blocks.len() + 2) as usize,
            Seq::empty(),
        ) matches Some((b8, joins)) && operand_kept(
            m,
            w,
            b8.switch((b1.blocks.len() + 1) as usize),
            State { trail: s1.trail.push((b1.blocks.len() + 1) as usize), ..s1 },
            names,
            Ok((b9, Diverging::Value(else_op))),
            else_o,
            s9,
        ),
    ensures
        ({
            let dest = b1.next_local();
            let end = (b1.blocks.len() + 2) as usize;
            let joins = (join_branch(b7, dest, then_op, b6.cur, end, Seq::empty())->0).1;
            let else_block = (b1.blocks.len() + 1) as usize;
            let o = if (m.scalar)(operand_value(m, w, s1.store, op)) == Scalar::Bool(true) {
                then_o
            } else {
                else_o
            };
            join_branch(b9, dest, else_op, else_block, end, joins) matches Some((b10, joins1))
                ==> match join(b10, dest, end, joins1) {
                Err(_) => true,
                Ok((_, Diverging::Diverged)) => false,
                Ok((b5, Diverging::Value(rv))) => {
                    &&& b1.locals.len() <= b5.locals.len()
                    &&& b1.blocks.len() <= b5.blocks.len()
                    &&& b5.cur < b5.blocks.len()
                    &&& sound(b1) && fits(b5) ==> grown(b1, b5) && (rv matches MirRvalueView::Use(
                        v,
                    ) ==> operand_inside(v, b5.locals.len())) && (agrees(w, b1, s1.store, names)
                        && o is Some ==> comes_to(m, w, b1, s1, b5, s2) && o == Some(
                        rvalue_value(m, w, s2, rv),
                    ))
                },
            }
        }),
{
    let dest = b1.next_local();
    let n0 = b1.blocks.len();
    let then_block = n0 as usize;
    let else_block = (n0 + 1) as usize;
    let end = (n0 + 2) as usize;
    let s_then = State { trail: s1.trail.push(then_block), ..s1 };
    let s_else = State { trail: s1.trail.push(else_block), ..s1 };
    let (b8, joins) = join_branch(b7, dest, then_op, b6.cur, end, Seq::empty())->0;
    let s8 = lemma_branch(
        m,
        w,
        b6,
        s_then,
        names,
        b7,
        then_op,
        then_o,
        s7,
        dest,
        end,
        Seq::empty(),
    );
    let be = b8.switch(else_block);
    let s10 = lemma_branch(
        m,
        w,
        be,
        s_else,
        names,
        b9,
        else_op,
        else_o,
        s9,
        dest,
        end,
        joins,
    );
    match join_branch(b9, dest, else_op, else_block, end, joins) {
        None => s1,
        Some((b10, joins1)) => {
            let yes = (m.scalar)(operand_value(m, w, s1.store, op)) == Scalar::Bool(true);
            let o = if yes {
                then_o
            } else {
                else_o
            };
            if sound(b1) && fits(b10) {
                lemma_branch_start(w, b1, s1, b6, then_block, names);
                assert(kept_but(b6, b8, dest, then_block));
                assert(b8.blocks[else_block as int] == b6.blocks[else_block as int]);
                assert forall|i: int| 0 <= i < b1.locals.len() implies #[trigger] be.versions[i]
                    == b1.versions[i] by {
                    assert(b8.versions[i] == b6.versions[i]);
                }
                lemma_branch_start(w, b1, s1, be, else_block, names);
                assert(kept_but(be, b10, dest, else_block));
                assert(b8.blocks[end as int] == b6.blocks[end as int]);
                assert(b10.blocks[end as int] == be.blocks[end as int]);
                assert forall|i: int| 0 <= i < n0 implies #[trigger] b10.blocks[i]
                    == b6.blocks[i] by {
                    assert(b8.blocks[i] == b6.blocks[i]);
                }
                assert forall|i: int| 0 <= i < b1.locals.len() implies #[trigger] b10.versions[i]
                    == b1.versions[i] by {
                    assert(be.versions[i] == b1.versions[i]);
                }
                let run = agrees(w, b1, s1.store, names) && o is Some;
                let n = if yes {
                    0int
                } else {
                    1int
                };
                let sx = if yes {
                    s8
                } else {
                    s10
                };
                lemma_extends_trans(b6.blocks, b8.blocks, b10.blocks);
                if run {
                    let from = if yes {
                        point_at(b6, s_then)
                    } else {
                        point_at(be, s_else)
                    };
                    assert(step(m, w, b10.blocks, point_at(b1, s1)) == Some(from));
                    lemma_reach_step(m, w, b10.blocks, point_at(b1, s1), from);
                    if yes {
                        lemma_reach_more(m, w, b8.blocks, b10.blocks, from, enter(s8, end));
                    }
                    lemma_reach_join(m, w, b10.blocks, point_at(b1, s1), from, enter(sx, end));
                    assert forall|z: SsaLocal| z.base_id < b1.locals.len() implies
                        #[trigger] sx.store[z] == s1.store[z] by {}
                    let st = if yes {
                        s_then
                    } else {
                        s_else
                    };
                    let at = s1.trail.len() as int;
                    assert(st.trail[at] == joins1[n].0);
                    assert(sx.trail[at] == st.trail[at]);
                    assert(s1.trail =~= sx.trail.take(at)) by {
                        assert(st.trail =~= sx.trail.take(st.trail.len() as int));
                        assert forall|k: int| 0 <= k < at implies s1.trail[k] == sx.trail[k] by {
                            assert(st.trail[k] == sx.trail[k]);
                        }
                    }
                    assert(sx.trail[at] == joins1[n].0 && forall|j: int, k: int|
                        at < j < sx.trail.len() && 0 <= k < joins1.len() ==> (
                        #[trigger] joins1[k]).0 != #[trigger] sx.trail[j]);
                }
                lemma_join(m, w, b1, s1, b6, b10, dest, end, joins1, run, n, o, sx)
            } else {
                s1
            }
        },
    }
}

/// The start of the first branch of an `if`.
pub open spec fn branching(b1: Bs, op: MirOperandView, ty: TypeView) -> Bs {
    let then_block = b1.next_block();
    let b2 = b1.new_block();
    let else_block = b2.next_block();
    let b3 = b2.new_block();
    b3.new_block().set_term(
        MirTerminatorView::If { cond: op, then_block, else_block },
    ).new_temp(ty).switch(then_block)
}

/// An `if`.
#[verifier::rlimit(60)]
#[verifier::spinoff_prover]
proof fn lemma_if<V>(
    m: Machine<V>,
    w: bool,
    c: Ctx,
    b: Bs,
    s: State<V>,
    names: Names<V>,
    e: HirExprView,
) -> (s2: State<V>)
    requires
        b.cur < b.blocks.len(),
        plain(e),
        e.kind is If,
    ensures
        rvalue_kept(m, w, b, s, names, if_value(c, b, e), eval(m, c, names, s.log, e), s2),
    decreases e, 3nat,
{
    reveal(if_value_rule);
    match e.kind {
        HirExprKindView::If { kind, cond, then_expr, else_expr } => {
            let s1 = lemma_expr(m, w, c, b, s, names, *cond);
            match expr(c, b, *cond) {
                Ok((b1, Diverging::Value(op))) => {
                    let n0 = b1.blocks.len();
                    let dest = b1.next_local();
                    let else_block = (n0 + 1) as usize;
                    let end = (n0 + 2) as usize;
                    let b6 = branching(b1, op, e.ty);
                    let s_then = State { trail: s1.trail.push(b1.next_block()), ..s1 };
                    let s_else = State { trail: s1.trail.push(else_block), ..s1 };
                    let s7 = lemma_expr(m, w, c, b6, s_then, names, *then_expr);
                    let then_o = eval(m, c, names, s1.log, *then_expr);
                    match expr(c, b6, *then_expr) {
                        Ok((b7, Diverging::Value(then_op))) => {
                            match join_branch(b7, dest, then_op, b6.cur, end, Seq::empty()) {
                                None => s1,
                                Some((b8, joins)) => {
                                    let be = b8.switch(else_block);
                                    lemma_branch(
                                        m,
                                        w,
                                        b6,
                                        s_then,
                                        names,
                                        b7,
                                        then_op,
                                        then_o,
                                        s7,
                                        dest,
                                        end,
                                        Seq::empty(),
                                    );
                                    let (r9, else_o, s9) = match else_expr {
                                        Some(x) => (
                                            expr(c, be, *x),
                                            eval(m, c, names, s1.log, *x),
                                            lemma_expr(m, w, c, be, s_else, names, *x),
                                        ),
                                        None => {
                                            lemma_unit(m, w, be, s_else, names);
                                            (
                                                Ok::<(Bs, Diverging<MirOperandView>), Chars>(
                                                    (
                                                        be,
                                                        Diverging::Value(
                                                            MirOperandView::Constant(
                                                                LiteralView::Unit,
                                                            ),
                                                        ),
                                                    ),
                                                ),
                                                Some(((m.literal)(LiteralView::Unit), s1.log)),
                                                s_else,
                                            )
                                        },
                                    };
                                    match r9 {
                                        Ok((b9, Diverging::Value(else_op))) => {
                                            let s2 = lemma_if_branches(
                                                m,
                                                w,
                                                c,
                                                b1,
                                                s1,
                                                names,
                                                op,
                                                e.ty,
                                                b6,
                                                then_op,
                                                b7,
                                                then_o,
                                                s7,
                                                else_op,
                                                b9,
                                                else_o,
                                                s9,
                                            );
                                            match join_branch(
                                                b9,
                                                dest,
                                                else_op,
                                                else_block,
                                                end,
                                                joins,
                                            ) {
                                                Some((b10, joins1)) => {
                                                    match join(b10, dest, end, joins1) {
                                                        Ok((b5, Diverging::Value(rv))) => {
                                                            if sound(b) && fits(b5) {
                                                                lemma_grown_trans(b, b1, b5);
                                                                if agrees(w, b, s.store, names)
                                                                    && comes_to(m, w, b, s, b1, s1) {
                                                                    lemma_behind(
                                                                        m,
                                                                        w,
                                                                        b,
                                                                        s,
                                                                        names,
                                                                        b1,
                                                                        s1,
                                                                    );
                                                                    if comes_to(
                                                                        m,
                                                                        w,
                                                                        b1,
                                                                        s1,
                                                                        b5,
                                                                        s2,
                                                                    ) {
                                                                        lemma_comes_to_trans(
                                                                            m,
                                                                            w,
                                                                            b,
                                                                            s,
                                                                            b1,
                                                                            s1,
                                                                            b5,
                                                                            s2,
                                                                        );
                                                                    }
                                                                }
                                                            }
                                                        },
                                                        _ => {},
                                                    }
                                                },
                                                None => {},
                                            }
                                            s2
                                        },
                                        _ => s1,
                                    }
                                },
                            }
                        },
                        _ => s1,
                    }
                },
                _ => s1,
            }
        },
        _ => s,
    }
}

// Choices.

/// The literal of a pattern stands for its number.
proof fn lemma_int_literal(v: i128, ty: TypeView)
    ensures
        int_literal(v, ty) matches Some(l) ==> scalar_of(l) == Scalar::Int(v as int),
{
}

/// Whether a block is new.
spec fn is_new(b: MirBlockView) -> bool {
    b.stmts.len() == 0 && b.terminator is Pending
}

/// What the plan of the arms from the `i`-th on adds.
#[verifier::rlimit(40)]
proof fn lemma_plan(ty: TypeView, plan: Plan, arms: Seq<HirMatchArmView>, i: nat, v: Scalar)
    requires
        i <= arms.len(),
        plan.blocks.len() == i,
    ensures
        plan_scalar(ty, plan, arms, i) matches Ok(p) ==> {
            let n = plan.b.blocks.len();
            &&& p.b == (Bs { blocks: p.b.blocks, ..plan.b })
            &&& p.b.blocks.len() == n + arms.len() - i
            &&& forall|k: int| 0 <= k < n ==> #[trigger] p.b.blocks[k] == plan.b.blocks[k]
            &&& forall|k: int|
                n <= k < p.b.blocks.len() ==> is_new(#[trigger] p.b.blocks[k])
            &&& p.blocks.len() == arms.len()
            &&& forall|k: int| 0 <= k < i ==> #[trigger] p.blocks[k] == plan.blocks[k]
            &&& forall|k: int|
                i <= k < arms.len() ==> #[trigger] p.blocks[k] == (n + k - i) as usize
            &&& plan.targets.is_prefix_of(p.targets)
            &&& plan.default is None && wildcard_is_last(arms) && p.default is Some ==> {
                let k = first_arm(arms, v, i);
                &&& k < arms.len()
                &&& taken(p.targets, p.default->0, v, plan.targets.len()) == p.blocks[k as int]
            }
        },
    decreases arms.len() - i,
{
    assert(plan.targets.take(plan.targets.len() as int) =~= plan.targets);
    if i < arms.len() {
        let n = plan.b.blocks.len();
        match arms[i as int].pattern {
            PatternView::IntLiteral(x) => {
                if let Some(l) = int_literal(x, ty) {
                    lemma_int_literal(x, ty);
                    lemma_plan_target(ty, plan, arms, i, v, l);
                }
            },
            PatternView::BoolLiteral(x) => {
                lemma_plan_target(ty, plan, arms, i, v, LiteralView::Bool(x));
            },
            PatternView::CharLiteral(x) => {
                lemma_plan_target(ty, plan, arms, i, v, LiteralView::Char(x));
            },
            PatternView::Wildcard => {
                let plan1 = plan.with_default();
                lemma_plan(ty, plan1, arms, i + 1, v);
                if let Ok(p) = plan_scalar(ty, plan1, arms, i + 1) {
                    assert(p.blocks[i as int] == plan1.blocks[i as int]);
                    assert forall|k: int| i <= k < arms.len() implies #[trigger] p.blocks[k] == (n
                        + k - i) as usize by {}
                    assert forall|k: int| 0 <= k < i implies #[trigger] p.blocks[k]
                        == plan.blocks[k] by {
                        assert(plan1.blocks[k] == plan.blocks[k]);
                    }
                    assert forall|k: int| 0 <= k < n implies #[trigger] p.b.blocks[k]
                        == plan.b.blocks[k] by {
                        assert(plan1.b.blocks[k] == plan.b.blocks[k]);
                    }
                    assert forall|k: int| n <= k < p.b.blocks.len() implies is_new(
                        #[trigger] p.b.blocks[k],
                    ) by {
                        if k == n {
                            assert(p.b.blocks[k] == plan1.b.blocks[k]);
                        }
                    }
                    if wildcard_is_last(arms) {
                        assert(i == arms.len() - 1);
                        assert(p == plan1);
                        assert(first_arm(arms, v, i) == i);
                        assert(taken(p.targets, p.default->0, v, plan.targets.len())
                            == p.default->0);
                    }
                }
            },
            _ => {},
        }
    }
}

proof fn lemma_plan_target(
    ty: TypeView,
    plan: Plan,
    arms: Seq<HirMatchArmView>,
    i: nat,
    v: Scalar,
    l: LiteralView,
)
    requires
        i < arms.len(),
        plan.blocks.len() == i,
        pattern_matches(arms[i as int].pattern, v) == (scalar_of(l) == v),
    ensures
        plan_scalar(ty, plan.with_target(l), arms, i + 1) matches Ok(p) ==> {
            let n = plan.b.blocks.len();
            &&& p.b == (Bs { blocks: p.b.blocks, ..plan.b })
            &&& p.b.blocks.len() == n + arms.len() - i
            &&& forall|k: int| 0 <= k < n ==> #[trigger] p.b.blocks[k] == plan.b.blocks[k]
            &&& forall|k: int|
                n <= k < p.b.blocks.len() ==> is_new(#[trigger] p.b.blocks[k])
            &&& p.blocks.len() == arms.len()
            &&& forall|k: int| 0 <= k < i ==> #[trigger] p.blocks[k] == plan.blocks[k]
            &&& forall|k: int|
                i <= k < arms.len() ==> #[trigger] p.blocks[k] == (n + k - i) as usize
            &&& plan.targets.is_prefix_of(p.targets)
            &&& plan.default is None && wildcard_is_last(arms) && p.default is Some ==> {
                let k = first_arm(arms, v, i);
                &&& k < arms.len()
                &&& taken(p.targets, p.default->0, v, plan.targets.len()) == p.blocks[k as int]
            }
        },
    decreases arms.len() - i, 0nat,
{
    let n = plan.b.blocks.len();
    let plan1 = plan.with_target(l);
    lemma_plan(ty, plan1, arms, i + 1, v);
    if let Ok(p) = plan_scalar(ty, plan1, arms, i + 1) {
        assert(p.blocks[i as int] == plan1.blocks[i as int]);
        assert forall|k: int| 0 <= k < i implies #[trigger] p.blocks[k] == plan.blocks[k] by {
            assert(plan1.blocks[k] == plan.blocks[k]);
        }
        assert forall|k: int| 0 <= k < n implies #[trigger] p.b.blocks[k] == plan.b.blocks[k] by {
            assert(plan1.b.blocks[k] == plan.b.blocks[k]);
        }
        assert forall|k: int| n <= k < p.b.blocks.len() implies is_new(
            #[trigger] p.b.blocks[k],
        ) by {
            if k == n {
                assert(p.b.blocks[k] == plan1.b.blocks[k]);
            }
        }
        let t = plan.targets.len() as int;
        assert(plan1.targets.is_prefix_of(p.targets));
        assert(p.targets[t] == plan1.targets[t]);
        assert(plan.targets =~= p.targets.take(t)) by {
            assert forall|k: int| 0 <= k < t implies plan.targets[k] == p.targets[k] by {
                assert(plan1.targets[k] == p.targets[k]);
            }
        }
        if plan.default is None && wildcard_is_last(arms) && p.default is Some {
            if scalar_of(l) == v {
                assert(taken(p.targets, p.default->0, v, t as nat) == p.targets[t].1);
            } else {
                assert(taken(p.targets, p.default->0, v, t as nat) == taken(
                    p.targets,
                    p.default->0,
                    v,
                    (t + 1) as nat,
                ));
            }
        }
    }
}

/// For a `match` on a number, a truth value or a character, the switch goes to the block
/// of the first arm whose pattern matches the value, where nothing stands behind the arm
/// that takes all. Each arm has a block of its own, which is new.
pub proof fn switch_goes_to_the_first_arm_that_matches(
    ty: TypeView,
    b: Bs,
    arms: Seq<HirMatchArmView>,
    v: Scalar,
)
    requires
        wildcard_is_last(arms),
        b.blocks.len() + arms.len() <= usize::MAX,
    ensures
        plan_scalar(ty, empty_plan(b), arms, 0) matches Ok(plan) ==> {
            &&& plan.blocks.len() == arms.len()
            &&& forall|k: int|
                0 <= k < arms.len() ==> b.blocks.len() <= #[trigger] plan.blocks[k]
                    < plan.b.blocks.len()
            &&& forall|j: int, k: int|
                0 <= j < k < arms.len() ==> #[trigger] plan.blocks[j] != #[trigger] plan.blocks[k]
            &&& plan.default matches Some(default) ==> {
                let k = first_arm(arms, v, 0);
                &&& k < arms.len()
                &&& taken(plan.targets, default, v, 0) == plan.blocks[k as int]
            }
        },
{
    lemma_plan(ty, empty_plan(b), arms, 0, v);
}

/// Whether the arms from the `i`-th on can be built, behind `b1`.
spec fn arms_ready(
    b1: Bs,
    b: Bs,
    blocks: Seq<usize>,
    i: nat,
    dest: usize,
) -> bool {
    &&& sound(b1)
    &&& b1.locals.len() <= dest < b.locals.len()
    &&& b.versions.len() == b.locals.len()
    &&& b.scope == b1.scope
    &&& forall|k: int| 0 <= k < b1.locals.len() ==> #[trigger] b.versions[k] == b1.versions[k]
    &&& forall|k: int|
        i <= k < blocks.len() ==> is_new(b.blocks[#[trigger] blocks[k] as int])
    &&& forall|j: int, k: int|
        0 <= j < k < blocks.len() ==> #[trigger] blocks[j] != #[trigger] blocks[k]
}

/// What the arms from the `i`-th on leave as it was.
spec fn arms_kept(b: Bs, b9: Bs, blocks: Seq<usize>, i: nat, dest: usize) -> bool {
    &&& extends(b.blocks, b9.blocks)
    &&& forall|k: int|
        0 <= k < b.blocks.len() && (forall|t: int| i <= t < blocks.len() ==> k != #[trigger] blocks[t])
            ==> #[trigger] b9.blocks[k] == b.blocks[k]
    &&& b9.versions.len() == b9.locals.len()
    &&& forall|k: int|
        0 <= k < b.locals.len() && k != dest ==> #[trigger] b9.versions[k] == b.versions[k]
    &&& b9.scope == b.scope
    &&& b9.in_unsafe == b.in_unsafe
    &&& b9.in_forward == b.in_forward
}

/// The bodies of the arms, of which the one at `at` is run.
#[verifier::rlimit(100)]
#[verifier::spinoff_prover]
proof fn lemma_arms<V>(
    m: Machine<V>,
    w: bool,
    c: Ctx,
    b1: Bs,
    b: Bs,
    s: State<V>,
    names: Names<V>,
    arms: Seq<HirMatchArmView>,
    blocks: Seq<usize>,
    i: nat,
    cond: usize,
    dest: usize,
    end: usize,
    joins: Joins,
    at: nat,
) -> (s8: State<V>)
    requires
        plain_arms(arms, i),
        blocks.len() == arms.len(),
        i <= arms.len(),
        forall|k: int| 0 <= k < blocks.len() ==> #[trigger] blocks[k] < b.blocks.len(),
    ensures
        run_arms(c, b, arms, blocks, i, false, cond, dest, end, joins) matches Ok((b9, joins9)) ==> {
            let n = joins.len();
            &&& b.locals.len() <= b9.locals.len()
            &&& b.blocks.len() <= b9.blocks.len()
            &&& joins9.len() == n + arms.len() - i
            &&& forall|k: int| 0 <= k < n ==> #[trigger] joins9[k] == joins[k]
            &&& forall|k: int|
                n <= k < joins9.len() ==> (#[trigger] joins9[k]).0 == blocks[k - n + i]
            &&& arms_ready(b1, b, blocks, i, dest) && fits(b9) ==> {
                &&& arms_kept(b, b9, blocks, i, dest)
                &&& i <= at < arms.len() && agrees(w, b1, s.store, names) && eval_arm(
                    m,
                    c,
                    names,
                    s.log,
                    arms,
                    at,
                ) is Some ==> {
                    let x = joins9[n + at - i].1;
                    let o = eval_arm(m, c, names, s.log, arms, at);
                    let start = enter(s, blocks[at as int]);
                    &&& reaches(m, w, b9.blocks, start, enter(s8, end))
                    &&& same_but(s.store, s8.store, b.locals.len(), dest)
                    &&& went_on(start.state.trail, s8.trail, b.blocks.len())
                    &&& o == Some((s8.store[slot(w, x)], s8.log))
                }
            }
        },
    decreases arms, arms.len() - i,
{
    if i >= arms.len() {
        if fits(b) {
            assert forall|k: int| 0 <= k < b.blocks.len() implies {
                &&& b.blocks[k].stmts.is_prefix_of((#[trigger] b.blocks[k]).stmts)
                &&& !(b.blocks[k].terminator is Pending) ==> b.blocks[k] == b.blocks[k]
            } by {
                assert(b.blocks[k].stmts.take(b.blocks[k].stmts.len() as int)
                    =~= b.blocks[k].stmts);
            }
        }
        s
    } else {
        let block = blocks[i as int];
        let b0 = b.switch(block);
        let st = State { trail: s.trail.push(block), ..s };
        let e = arms[i as int].expr;
        let s2 = lemma_expr(m, w, c, b0, st, names, e);
        match expr(c, b0, e) {
            Ok((b2, Diverging::Value(op))) => {
                let o = eval(m, c, names, s.log, e);
                let s3 = lemma_branch(m, w, b0, st, names, b2, op, o, s2, dest, end, joins);
                match join_branch(b2, dest, op, block, end, joins) {
                    Some((b3, joins1)) => {
                        let s8 = lemma_arms(
                            m,
                            w,
                            c,
                            b1,
                            b3,
                            s,
                            names,
                            arms,
                            blocks,
                            i + 1,
                            cond,
                            dest,
                            end,
                            joins1,
                            at,
                        );
                        match run_arms(
                            c,
                            b3,
                            arms,
                            blocks,
                            i + 1,
                            false,
                            cond,
                            dest,
                            end,
                            joins1,
                        ) {
                            Ok((b9, joins9)) => {
                                let n = joins.len();
                                assert(joins9[n as int] == joins1[n as int]);
                                assert forall|k: int| 0 <= k < n implies #[trigger] joins9[k]
                                    == joins[k] by {
                                    assert(joins1[k] == joins[k]);
                                }
                                if arms_ready(b1, b, blocks, i, dest) && fits(b9) {
                                    lemma_arm_step(
                                        m,
                                        w,
                                        b1,
                                        b,
                                        s,
                                        names,
                                        blocks,
                                        i,
                                        dest,
                                        b3,
                                        b9,
                                    );
                                    if at == i && agrees(w, b1, s.store, names) && o is Some {
                                        lemma_reach_more(
                                            m,
                                            w,
                                            b3.blocks,
                                            b9.blocks,
                                            point_at(b0, st),
                                            enter(s3, end),
                                        );
                                        assert(point_at(b0, st) == enter(s, block));
                                        s3
                                    } else {
                                        s8
                                    }
                                } else {
                                    s8
                                }
                            },
                            _ => s8,
                        }
                    },
                    None => s2,
                }
            },
            _ => s2,
        }
    }
}

/// One arm behind others.
proof fn lemma_arm_step<V>(
    m: Machine<V>,
    w: bool,
    b1: Bs,
    b: Bs,
    s: State<V>,
    names: Names<V>,
    blocks: Seq<usize>,
    i: nat,
    dest: usize,
    b3: Bs,
    b9: Bs,
)
    requires
        arms_ready(b1, b, blocks, i, dest),
        i < blocks.len(),
        forall|k: int| 0 <= k < blocks.len() ==> #[trigger] blocks[k] < b.blocks.len(),
        sound(b.switch(blocks[i as int])) ==> kept_but(
            b.switch(blocks[i as int]),
            b3,
            dest,
            blocks[i as int],
        ),
        arms_ready(b1, b3, blocks, i + 1, dest) ==> arms_kept(b3, b9, blocks, i + 1, dest),
    ensures
        sound(b.switch(blocks[i as int])),
        agrees(w, b1, s.store, names) ==> agrees(w, b.switch(blocks[i as int]), s.store, names),
        kept_but(b.switch(blocks[i as int]), b3, dest, blocks[i as int]),
        arms_ready(b1, b3, blocks, i + 1, dest),
        arms_kept(b3, b9, blocks, i + 1, dest),
        arms_kept(b, b9, blocks, i, dest),
{
    let block = blocks[i as int];
    let b0 = b.switch(block);
    assert(is_new(b.blocks[blocks[i as int] as int]));
    lemma_branch_start(w, b1, s, b0, block, names);
    assert forall|k: int| i + 1 <= k < blocks.len() implies is_new(
        b3.blocks[#[trigger] blocks[k] as int],
    ) by {
        assert(blocks[i as int] != blocks[k]);
        assert(b3.blocks[blocks[k] as int] == b.blocks[blocks[k] as int]);
    }
    assert forall|k: int| 0 <= k < b1.locals.len() implies #[trigger] b3.versions[k]
        == b1.versions[k] by {
        assert(b.versions[k] == b1.versions[k]);
    }
    assert(arms_ready(b1, b3, blocks, i + 1, dest));
    lemma_extends_trans(b.blocks, b3.blocks, b9.blocks);
    assert forall|k: int|
        0 <= k < b.blocks.len() && (forall|t: int|
            i <= t < blocks.len() ==> k != #[trigger] blocks[t]) implies #[trigger] b9.blocks[k]
        == b.blocks[k] by {
        assert(k != blocks[i as int]);
        assert(b3.blocks[k] == b.blocks[k]);
    }
    assert forall|k: int| 0 <= k < b.locals.len() && k != dest implies #[trigger] b9.versions[k]
        == b.versions[k] by {
        assert(b3.versions[k] == b.versions[k]);
    }
}

/// A `match` on a number, a truth value or a character, behind its condition.
#[verifier::rlimit(100)]
#[verifier::spinoff_prover]
proof fn lemma_match_scalar<V>(
    m: Machine<V>,
    w: bool,
    c: Ctx,
    b: Bs,
    s: State<V>,
    names: Names<V>,
    cond_ty: TypeView,
    cond: usize,
    arms: Seq<HirMatchArmView>,
    ty: TypeView,
) -> (s9: State<V>)
    requires
        b.cur < b.blocks.len(),
        wildcard_is_last(arms),
        plain_arms(arms, 0),
    ensures
        ({
            let k = first_arm(
                arms,
                (m.scalar)(s.store[slot(w, b.ssa(cond))]),
                0,
            );
            rvalue_kept(
                m,
                w,
                b,
                s,
                names,
                match_scalar(c, b, cond_ty, cond, arms, ty),
                if k < arms.len() {
                    eval_arm(m, c, names, s.log, arms, k)
                } else {
                    None
                },
                s9,
            )
        }),
    decreases arms, arms.len() + 2,
{
    reveal(match_scalar_rule);
    let v = (m.scalar)(s.store[slot(w, b.ssa(cond))]);
    let at = first_arm(arms, v, 0);
    let o = if at < arms.len() {
        eval_arm(m, c, names, s.log, arms, at)
    } else {
        None
    };
    let end = b.next_block();
    let b1 = b.new_block();
    let dest = b1.next_local();
    let b2 = b1.new_temp(ty);
    let plan0 = empty_plan(b2);
    lemma_plan(cond_ty, plan0, arms, 0, v);
    match plan_scalar(cond_ty, plan0, arms, 0) {
        Ok(plan) => match plan.default {
            Some(default) => {
                let discr = MirOperandView::Copy(cond_place(b, cond));
                let b3 = plan.b.set_term(
                    MirTerminatorView::Switch {
                        discr,
                        discr_ty: cond_ty,
                        targets: plan.targets,
                        default,
                    },
                );
                assert forall|k: int| 0 <= k < plan.blocks.len() implies #[trigger] plan.blocks[k]
                    < b3.blocks.len() by {
                    assert(plan.blocks[k] == (b2.blocks.len() + k) as usize);
                }
                let s8 = lemma_arms(
                    m,
                    w,
                    c,
                    b,
                    b3,
                    s,
                    names,
                    arms,
                    plan.blocks,
                    0,
                    cond,
                    dest,
                    end,
                    Seq::empty(),
                    at,
                );
                match run_arms(
                    c,
                    b3,
                    arms,
                    plan.blocks,
                    0,
                    false,
                    cond,
                    dest,
                    end,
                    Seq::empty(),
                ) {
                    Ok((b4, joins)) => {
                        if sound(b) && fits(b4) {
                            let n0 = b.blocks.len();
                            assert forall|k: int| 0 <= k < plan.blocks.len() implies is_new(
                                b3.blocks[#[trigger] plan.blocks[k] as int],
                            ) by {
                                assert(plan.blocks[k] == n0 + 1 + k);
                                assert(is_new(plan.b.blocks[n0 + 1 + k]));
                            }
                            assert(arms_ready(b, b3, plan.blocks, 0, dest));
                            assert(b2.blocks[n0 as int] == plan.b.blocks[n0 as int]);
                            assert(b3.blocks[end as int] == b2.blocks[n0 as int]);
                            assert forall|k: int| 0 <= k <= n0 implies #[trigger] b4.blocks[k]
                                == b3.blocks[k] by {
                                assert forall|t: int| 0 <= t < plan.blocks.len() implies k
                                    != #[trigger] plan.blocks[t] by {
                                    assert(plan.blocks[t] == n0 + 1 + t);
                                }
                            }
                            assert forall|i: int| 0 <= i < n0 && i != b.cur implies
                                #[trigger] b4.blocks[i] == b.blocks[i] by {
                                assert(b4.blocks[i] == b3.blocks[i]);
                                assert(plan.b.blocks[i] == b2.blocks[i]);
                            }
                            assert(b4.blocks[b.cur as int] == b3.blocks[b.cur as int]);
                            assert(plan.b.blocks[b.cur as int] == b2.blocks[b.cur as int]);
                            assert forall|i: int| 0 <= i < b.locals.len() implies
                                #[trigger] b4.versions[i] == b.versions[i] by {
                                assert(b3.versions[i] == b.versions[i]);
                            }
                            let run = agrees(w, b, s.store, names) && o is Some;
                            if run {
                                let start = enter(s, plan.blocks[at as int]);
                                let x = cond_place(b, cond);
                                assert(place_value(m, w, s.store, x) == s.store[slot(
                                    w,
                                    b.ssa(cond),
                                )]);
                                assert(operand_value(m, w, s.store, discr) == s.store[slot(
                                    w,
                                    b.ssa(cond),
                                )]);
                                assert(step(m, w, b4.blocks, point_at(b, s)) == Some(start));
                                lemma_reach_step(m, w, b4.blocks, point_at(b, s), start);
                                lemma_reach_join(
                                    m,
                                    w,
                                    b4.blocks,
                                    point_at(b, s),
                                    start,
                                    enter(s8, end),
                                );
                                assert forall|z: SsaLocal| z.base_id < b.locals.len() implies
                                    #[trigger] s8.store[z] == s.store[z] by {}
                                let pos = s.trail.len() as int;
                                let st = start.state;
                                assert(st.trail[pos] == joins[at as int].0);
                                assert(s8.trail[pos] == st.trail[pos]);
                                assert(s.trail =~= s8.trail.take(pos)) by {
                                    assert(st.trail =~= s8.trail.take(st.trail.len() as int));
                                    assert forall|k: int| 0 <= k < pos implies s.trail[k]
                                        == s8.trail[k] by {
                                        assert(st.trail[k] == s8.trail[k]);
                                    }
                                }
                                assert(plan.blocks[at as int] == n0 + 1 + at);
                                assert forall|k: int| pos <= k < s8.trail.len() implies
                                    #[trigger] s8.trail[k] >= n0 by {}
                                assert forall|j: int, k: int|
                                    pos < j < s8.trail.len() && 0 <= k < joins.len() implies (
                                #[trigger] joins[k]).0 != #[trigger] s8.trail[j] by {
                                    assert(joins[k].0 == plan.blocks[k]);
                                }
                            }
                            assert forall|j: int, k: int| 0 <= j < k < joins.len() implies (
                            #[trigger] joins[j]).0 != (#[trigger] joins[k]).0 by {
                                assert(plan.blocks[j] != plan.blocks[k]);
                            }
                            assert forall|k: int| 0 <= k < joins.len() implies (
                            #[trigger] joins[k]).0 != end by {
                                assert(plan.blocks[k] == n0 + 1 + k);
                            }
                            lemma_join(
                                m,
                                w,
                                b,
                                s,
                                b3,
                                b4,
                                dest,
                                end,
                                joins,
                                run,
                                at as int,
                                o,
                                s8,
                            )
                        } else {
                            s
                        }
                    },
                    _ => s,
                }
            },
            None => s,
        },
        _ => s,
    }
}

/// A `match`.
#[verifier::rlimit(60)]
#[verifier::spinoff_prover]
proof fn lemma_match<V>(
    m: Machine<V>,
    w: bool,
    c: Ctx,
    b: Bs,
    s: State<V>,
    names: Names<V>,
    e: HirExprView,
) -> (s1: State<V>)
    requires
        b.cur < b.blocks.len(),
        plain(e),
        e.kind is Match,
    ensures
        rvalue_kept(m, w, b, s, names, match_value(c, b, e), eval(m, c, names, s.log, e), s1),
    decreases e, 3nat,
{
    reveal(match_value_rule);
    match e.kind {
        HirExprKindView::Match { cond, arms } => {
            let s1 = lemma_expr(m, w, c, b, s, names, *cond);
            match expr(c, b, *cond) {
                Ok((b1, Diverging::Value(op))) => {
                    let id = b1.next_local();
                    let b0 = b1.new_held(cond.ty);
                    let rv = MirRvalueView::Use(op);
                    match b0.define(id, rv) {
                        None => s1,
                        Some(b2) => {
                            let fit = sound(b) && fits(b1) && b1.locals.len() < usize::MAX;
                            let s2 = if fit {
                                lemma_temp(m, w, b1, b0, s1, rv)
                            } else {
                                s1
                            };
                            let s3 = lemma_match_scalar(
                                m,
                                w,
                                c,
                                b2,
                                s2,
                                names,
                                cond.ty,
                                id,
                                arms,
                                e.ty,
                            );
                            match match_scalar(c, b2, cond.ty, id, arms, e.ty) {
                                Ok((b3, Diverging::Value(v))) => {
                                    if sound(b) && fits(b3) {
                                        lemma_grown_trans(b, b1, b2);
                                        lemma_grown_trans(b, b2, b3);
                                        if agrees(w, b, s.store, names) && comes_to(
                                            m,
                                            w,
                                            b,
                                            s,
                                            b1,
                                            s1,
                                        ) {
                                            lemma_comes_to_trans(m, w, b, s, b1, s1, b2, s2);
                                            lemma_behind(m, w, b, s, names, b2, s2);
                                            if comes_to(m, w, b2, s2, b3, s3) {
                                                lemma_comes_to_trans(m, w, b, s, b2, s2, b3, s3);
                                            }
                                        }
                                    }
                                },
                                _ => {},
                            }
                            s3
                        },
                    }
                },
                _ => s1,
            }
        },
        _ => s,
    }
}

/// Lowering keeps the value of an expression: whatever the operators, literals and calls
/// mean, a run of the blocks that were built, from where they start and with the locals
/// that the names stand for, makes the same calls in the same order, and what is then
/// computed, or the operand that is then read, is the expression's value. It does so
/// whether each version of a local is a place of its own or all of them share one.
pub proof fn lowering_keeps_the_value<V>(
    m: Machine<V>,
    by_version: bool,
    c: Ctx,
    b: Bs,
    s: State<V>,
    names: Names<V>,
    e: HirExprView,
)
    requires
        plain(e),
        sound(b),
        agrees(by_version, b, s.store, names),
        eval(m, c, names, s.log, e) is Some,
    ensures
        match rvalue(c, b, e) {
            Err(_) => true,
            Ok((_, Diverging::Diverged)) => false,
            Ok((b1, Diverging::Value(rv))) => fits(b1) ==> grown(b, b1) && exists|s1: State<V>|
                #[trigger] comes_to(m, by_version, b, s, b1, s1) && eval(m, c, names, s.log, e)
                    == Some(rvalue_value(m, by_version, s1, rv)),
        },
        match expr(c, b, e) {
            Err(_) => true,
            Ok((_, Diverging::Diverged)) => false,
            Ok((b1, Diverging::Value(op))) => fits(b1) ==> grown(b, b1) && exists|s1: State<V>|
                #[trigger] comes_to(m, by_version, b, s, b1, s1) && eval(m, c, names, s.log, e)
                    == Some((operand_value(m, by_version, s1.store, op), s1.log)),
        },
{
    let s1 = lemma_rvalue(m, by_version, c, b, s, names, e);
    let s2 = lemma_expr(m, by_version, c, b, s, names, e);
}

} // verus!
