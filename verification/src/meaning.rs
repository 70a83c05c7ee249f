//! What typed programs and basic blocks mean, each on its own.
//!
//! Values are of any kind, and the operators, literals and calls mean whatever a
//! `Machine` gives them. A call answers by the calls made so far, so that their order
//! and their number are part of the meaning.
use crate::ast::{BinaryOp, LiteralView, PatternView, TypeView, UnaryOp};
use crate::hir::{HirCallArgView, HirExprKindView, HirExprView, HirMatchArmView, IntrinsicFn};
use crate::lowering::{Bs, Ctx};
use crate::mir::{
    MirBlockView, MirOperandView, MirPlaceView, MirRvalueView, MirStmtView, MirTerminatorView,
    SsaLocal,
};
use crate::text::Chars;
use vstd::prelude::*;

verus! {

/// What a value is where a branch depends on it.
pub enum Scalar {
    Int(int),
    Bool(bool),
    Char(char),
    Other,
}

/// A call that was made.
pub struct Request<V> {
    pub name: Chars,
    /// Whether the first argument is the receiver of a method.
    pub is_method: bool,
    pub intrinsic: Option<IntrinsicFn>,
    pub generic_args: Seq<TypeView>,
    pub args: Seq<V>,
}

/// What the operations mean.
#[verifier::reject_recursive_types(V)]
pub struct Machine<V> {
    pub literal: spec_fn(LiteralView) -> V,
    pub unary: spec_fn(UnaryOp, V) -> V,
    pub binary: spec_fn(BinaryOp, V, V) -> V,
    pub cast: spec_fn(V, TypeView) -> V,
    pub global: spec_fn(Chars) -> V,
    pub field: spec_fn(V, Chars) -> V,
    pub index: spec_fn(V, V) -> V,
    pub payload: spec_fn(V, Chars, Chars) -> V,
    pub record: spec_fn(Chars, Seq<TypeView>, Seq<(Chars, V)>) -> V,
    pub array: spec_fn(Seq<V>) -> V,
    pub variant: spec_fn(Chars, Seq<TypeView>, Chars, Seq<V>) -> V,
    /// The place of a value's variant in its enumeration.
    pub tag: spec_fn(V, Chars) -> V,
    /// What the last of those calls answers.
    pub answer: spec_fn(Seq<Request<V>>) -> V,
    pub scalar: spec_fn(V) -> Scalar,
}

/// The number, truth value or character that a literal stands for.
pub open spec fn scalar_of(l: LiteralView) -> Scalar {
    match l {
        LiteralView::Int8(n) => Scalar::Int(n as int),
        LiteralView::Int16(n) => Scalar::Int(n as int),
        LiteralView::Int32(n) => Scalar::Int(n as int),
        LiteralView::Int64(n) => Scalar::Int(n as int),
        LiteralView::Int128(n) => Scalar::Int(n as int),
        LiteralView::Isize(n) => Scalar::Int(n as int),
        LiteralView::Uint8(n) => Scalar::Int(n as int),
        LiteralView::Uint16(n) => Scalar::Int(n as int),
        LiteralView::Uint32(n) => Scalar::Int(n as int),
        LiteralView::Uint64(n) => Scalar::Int(n as int),
        LiteralView::Uint128(n) => Scalar::Int(n as int),
        LiteralView::Usize(n) => Scalar::Int(n as int),
        LiteralView::Bool(x) => Scalar::Bool(x),
        LiteralView::Char(c) => Scalar::Char(c),
        _ => Scalar::Other,
    }
}

/// Whether a pattern for a number, a truth value or a character matches it.
pub open spec fn pattern_matches(p: PatternView, v: Scalar) -> bool {
    match p {
        PatternView::Wildcard => true,
        PatternView::IntLiteral(n) => v == Scalar::Int(n as int),
        PatternView::BoolLiteral(x) => v == Scalar::Bool(x),
        PatternView::CharLiteral(c) => v == Scalar::Char(c),
        _ => false,
    }
}

/// The first arm from the `i`-th on whose pattern matches, or the number of arms.
pub open spec fn first_arm(arms: Seq<HirMatchArmView>, v: Scalar, i: nat) -> nat
    decreases arms.len() - i,
{
    if i >= arms.len() {
        arms.len()
    } else if pattern_matches(arms[i as int].pattern, v) {
        i
    } else {
        first_arm(arms, v, i + 1)
    }
}

// Typed programs.

/// The names that are known, by scope, with their values.
pub type Names<V> = Seq<Seq<(Chars, V)>>;

/// What a name stands for in one scope: what was bound last.
pub open spec fn value_in_level<V>(level: Seq<(Chars, V)>, name: Chars) -> Option<V>
    decreases level.len(),
{
    if level.len() == 0 {
        None
    } else if level.last().0 == name {
        Some(level.last().1)
    } else {
        value_in_level(level.drop_last(), name)
    }
}

/// What a name stands for, seen from the innermost scope.
pub open spec fn value_in<V>(names: Names<V>, name: Chars) -> Option<V>
    decreases names.len(),
{
    if names.len() == 0 {
        None
    } else {
        match value_in_level(names.last(), name) {
            Some(v) => Some(v),
            None => value_in(names.drop_last(), name),
        }
    }
}

/// Whether just one variant of the program has that name, in that enumeration.
pub open spec fn only_variant(c: Ctx, enum_name: Chars, name: Chars) -> bool {
    exists|k: int|
        0 <= k < c.variants.len() && (#[trigger] c.variants[k]).name == name
            && c.variants[k].enum_name == enum_name && forall|j: int|
            0 <= j < c.variants.len() && (#[trigger] c.variants[j]).name == name ==> j == k
}

/// The enumeration that a bare name means a variant of, if it does.
pub open spec fn bare_variant(c: Ctx, name: Chars) -> Option<Chars> {
    if exists|enum_name: Chars| only_variant(c, enum_name, name) {
        Some(choose|enum_name: Chars| only_variant(c, enum_name, name))
    } else {
        None
    }
}

/// Whether that function is built in under the name, the first one of that name.
pub open spec fn built_in(c: Ctx, name: Chars, id: IntrinsicFn) -> bool {
    exists|k: int|
        0 <= k < c.intrinsics.len() && (#[trigger] c.intrinsics[k]).name == name
            && c.intrinsics[k].id == id && forall|j: int|
            0 <= j < k ==> (#[trigger] c.intrinsics[j]).name != name
}

/// The function that is built in under a name, if there is one.
pub open spec fn intrinsic_of(c: Ctx, name: Chars) -> Option<IntrinsicFn> {
    if exists|id: IntrinsicFn| built_in(c, name, id) {
        Some(choose|id: IntrinsicFn| built_in(c, name, id))
    } else {
        None
    }
}

/// A name behind its qualifier.
pub open spec fn qualified(qualifier: Option<Chars>, name: Chars) -> Chars {
    match qualifier {
        Some(q) => q + "::"@ + name,
        None => name,
    }
}

/// A value, and the calls made by then.
pub type Outcome<V> = Option<(V, Seq<Request<V>>)>;

/// The value of an expression, where its names have values and a branch is taken: the
/// parts are evaluated from left to right, and both operands of each operator.
pub open spec fn eval<V>(
    m: Machine<V>,
    c: Ctx,
    names: Names<V>,
    log: Seq<Request<V>>,
    e: HirExprView,
) -> Outcome<V>
    decreases e, 1nat,
{
    match e.kind {
        HirExprKindView::Literal(l) => Some(((m.literal)(l), log)),
        HirExprKindView::Ident(name) => match value_in(names, name) {
            Some(v) => Some((v, log)),
            None => None,
        },
        HirExprKindView::Sym(name) => Some(((m.global)(name), log)),
        HirExprKindView::BinaryOp { op, left, right } => match eval(m, c, names, log, *left) {
            None => None,
            Some((l, log1)) => match eval(m, c, names, log1, *right) {
                None => None,
                Some((r, log2)) => Some(((m.binary)(op, l, r), log2)),
            },
        },
        HirExprKindView::Unary { op, expr } => match eval(m, c, names, log, *expr) {
            None => None,
            Some((v, log1)) => Some(((m.unary)(op, v), log1)),
        },
        HirExprKindView::Cast { expr, ty } => match eval(m, c, names, log, *expr) {
            None => None,
            Some((v, log1)) => Some(((m.cast)(v, ty), log1)),
        },
        HirExprKindView::FieldAccess { struct_expr, field_name } => match eval(
            m,
            c,
            names,
            log,
            *struct_expr,
        ) {
            None => None,
            Some((v, log1)) => Some(((m.field)(v, field_name), log1)),
        },
        HirExprKindView::Index { expr, index } => match eval(m, c, names, log, *expr) {
            None => None,
            Some((v, log1)) => match eval(m, c, names, log1, *index) {
                None => None,
                Some((i, log2)) => Some(((m.index)(v, i), log2)),
            },
        },
        HirExprKindView::Call { qualifier, func, generic_args, args, is_method } => {
            let name = qualified(qualifier, func);
            let owner = bare_variant(c, func);
            match eval_args(m, c, names, log, args, 0, Seq::empty()) {
                None => None,
                Some((vs, log1)) => if is_method {
                    let all = log1.push(
                        Request {
                            name: func,
                            is_method: true,
                            intrinsic: None,
                            generic_args,
                            args: vs,
                        },
                    );
                    Some(((m.answer)(all), all))
                } else if qualifier is None && owner is Some {
                    Some(((m.variant)(owner->0, generic_args, func, vs), log1))
                } else if args.len() == 0 && c.constants.contains(name) {
                    Some(((m.global)(name), log1))
                } else {
                    let all = log1.push(
                        Request {
                            name,
                            is_method: false,
                            intrinsic: intrinsic_of(c, name),
                            generic_args,
                            args: vs,
                        },
                    );
                    Some(((m.answer)(all), all))
                },
            }
        },
        HirExprKindView::EnumVariantConstruction { enum_name, generic_args, variant_name, args } => {
            match eval_args(m, c, names, log, args, 0, Seq::empty()) {
                None => None,
                Some((vs, log1)) => Some(
                    ((m.variant)(enum_name, generic_args, variant_name, vs), log1),
                ),
            }
        },
        HirExprKindView::EnumVariantAccess { enum_name, variant_name } => Some(
            ((m.variant)(enum_name, Seq::empty(), variant_name, Seq::empty()), log),
        ),
        HirExprKindView::StructInit { struct_name, generic_args, fields } => match eval_fields(
            m,
            c,
            names,
            log,
            fields,
            0,
            Seq::empty(),
        ) {
            None => None,
            Some((vs, log1)) => Some(((m.record)(struct_name, generic_args, vs), log1)),
        },
        HirExprKindView::ArrayLiteral(list) => match eval_list(
            m,
            c,
            names,
            log,
            list,
            0,
            Seq::empty(),
        ) {
            None => None,
            Some((vs, log1)) => Some(((m.array)(vs), log1)),
        },
        HirExprKindView::LackSlice(_) => Some(((m.array)(Seq::empty()), log)),
        HirExprKindView::If { kind, cond, then_expr, else_expr } => match eval(
            m,
            c,
            names,
            log,
            *cond,
        ) {
            None => None,
            Some((v, log1)) => if (m.scalar)(v) == Scalar::Bool(true) {
                eval(m, c, names, log1, *then_expr)
            } else {
                match else_expr {
                    Some(x) => eval(m, c, names, log1, *x),
                    None => Some(((m.literal)(LiteralView::Unit), log1)),
                }
            },
        },
        HirExprKindView::Match { cond, arms } => match eval(m, c, names, log, *cond) {
            None => None,
            Some((v, log1)) => {
                let k = first_arm(arms, (m.scalar)(v), 0);
                if k < arms.len() {
                    eval_arm(m, c, names, log1, arms, k)
                } else {
                    None
                }
            },
        },
        _ => None,
    }
}

/// The value of an arm's body.
pub open spec fn eval_arm<V>(
    m: Machine<V>,
    c: Ctx,
    names: Names<V>,
    log: Seq<Request<V>>,
    arms: Seq<HirMatchArmView>,
    k: nat,
) -> Outcome<V>
    decreases arms, 0nat,
{
    if k < arms.len() {
        eval(m, c, names, log, arms[k as int].expr)
    } else {
        None
    }
}

/// The values of arguments from the `i`-th on, behind those of `done`.
pub open spec fn eval_args<V>(
    m: Machine<V>,
    c: Ctx,
    names: Names<V>,
    log: Seq<Request<V>>,
    list: Seq<HirCallArgView>,
    i: nat,
    done: Seq<V>,
) -> Option<(Seq<V>, Seq<Request<V>>)>
    decreases list, list.len() - i,
{
    if i >= list.len() {
        Some((done, log))
    } else {
        match eval_arg(m, c, names, log, list[i as int]) {
            None => None,
            Some((v, log1)) => eval_args(m, c, names, log1, list, i + 1, done.push(v)),
        }
    }
}

/// The value of an argument, named or not.
pub open spec fn eval_arg<V>(
    m: Machine<V>,
    c: Ctx,
    names: Names<V>,
    log: Seq<Request<V>>,
    a: HirCallArgView,
) -> Outcome<V>
    decreases a, 0nat,
{
    match a {
        HirCallArgView::Positional(e) => eval(m, c, names, log, e),
        HirCallArgView::Named(_, e) => eval(m, c, names, log, e),
    }
}

/// The values of expressions from the `i`-th on, behind those of `done`.
pub open spec fn eval_list<V>(
    m: Machine<V>,
    c: Ctx,
    names: Names<V>,
    log: Seq<Request<V>>,
    list: Seq<HirExprView>,
    i: nat,
    done: Seq<V>,
) -> Option<(Seq<V>, Seq<Request<V>>)>
    decreases list, list.len() - i,
{
    if i >= list.len() {
        Some((done, log))
    } else {
        match eval(m, c, names, log, list[i as int]) {
            None => None,
            Some((v, log1)) => eval_list(m, c, names, log1, list, i + 1, done.push(v)),
        }
    }
}

/// The values of fields from the `i`-th on, behind those of `done`.
pub open spec fn eval_fields<V>(
    m: Machine<V>,
    c: Ctx,
    names: Names<V>,
    log: Seq<Request<V>>,
    list: Seq<(Chars, HirExprView)>,
    i: nat,
    done: Seq<(Chars, V)>,
) -> Option<(Seq<(Chars, V)>, Seq<Request<V>>)>
    decreases list, list.len() - i,
{
    if i >= list.len() {
        Some((done, log))
    } else {
        match eval(m, c, names, log, list[i as int].1) {
            None => None,
            Some((v, log1)) => eval_fields(
                m,
                c,
                names,
                log1,
                list,
                i + 1,
                done.push((list[i as int].0, v)),
            ),
        }
    }
}

// Basic blocks.

/// What a run has come to: the values of the locals, the calls made, and the blocks
/// entered.
pub struct State<V> {
    pub store: Map<SsaLocal, V>,
    pub log: Seq<Request<V>>,
    pub trail: Seq<usize>,
}

/// A run before the statement `at` of a block.
pub struct Point<V> {
    pub block: usize,
    pub at: nat,
    pub state: State<V>,
}

/// Where the value of a version is: each has a place of its own, or all those of a local
/// share one.
pub open spec fn slot(by_version: bool, s: SsaLocal) -> SsaLocal {
    if by_version {
        s
    } else {
        SsaLocal { base_id: s.base_id, version: 0 }
    }
}

/// The value at a place.
pub open spec fn place_value<V>(
    m: Machine<V>,
    by_version: bool,
    store: Map<SsaLocal, V>,
    p: MirPlaceView,
) -> V
    decreases p,
{
    match p {
        MirPlaceView::Ssa(s) => store[slot(by_version, s)],
        MirPlaceView::Static(name) => (m.global)(name),
        MirPlaceView::Field { base, field } => (m.field)(
            place_value(m, by_version, store, *base),
            field,
        ),
        MirPlaceView::Index { base, index } => (m.index)(
            place_value(m, by_version, store, *base),
            operand_value(m, by_version, store, *index),
        ),
        MirPlaceView::EnumPayload { base, enum_name, variant_name } => (m.payload)(
            place_value(m, by_version, store, *base),
            enum_name,
            variant_name,
        ),
    }
}

/// The value of an operand.
pub open spec fn operand_value<V>(
    m: Machine<V>,
    by_version: bool,
    store: Map<SsaLocal, V>,
    op: MirOperandView,
) -> V
    decreases op,
{
    match op {
        MirOperandView::Constant(l) => (m.literal)(l),
        MirOperandView::Copy(p) => place_value(m, by_version, store, p),
        MirOperandView::Move(p) => place_value(m, by_version, store, p),
    }
}

/// The values of operands.
pub open spec fn operand_values<V>(
    m: Machine<V>,
    by_version: bool,
    store: Map<SsaLocal, V>,
    ops: Seq<MirOperandView>,
) -> Seq<V> {
    Seq::new(ops.len(), |i: int| operand_value(m, by_version, store, ops[i]))
}

/// The operand of a join for the branch that was entered last.
pub open spec fn joined(
    values: Seq<(usize, MirOperandView)>,
    trail: Seq<usize>,
) -> Option<MirOperandView>
    decreases trail.len(),
{
    if trail.len() == 0 {
        None
    } else {
        match branch_operand(values, trail.last(), 0) {
            Some(op) => Some(op),
            None => joined(values, trail.drop_last()),
        }
    }
}

/// The operand for a branch, from the `i`-th on.
pub open spec fn branch_operand(values: Seq<(usize, MirOperandView)>, block: usize, i: nat) -> Option<
    MirOperandView,
>
    decreases values.len() - i,
{
    if i >= values.len() {
        None
    } else if values[i as int].0 == block {
        Some(values[i as int].1)
    } else {
        branch_operand(values, block, i + 1)
    }
}

/// The value of what a statement computes, and the calls made by then.
pub open spec fn rvalue_value<V>(
    m: Machine<V>,
    by_version: bool,
    s: State<V>,
    rv: MirRvalueView,
) -> (V, Seq<Request<V>>) {
    match rv {
        MirRvalueView::Use(op) => (operand_value(m, by_version, s.store, op), s.log),
        MirRvalueView::BinaryOp(op, l, r) => (
            (m.binary)(
                op,
                operand_value(m, by_version, s.store, l),
                operand_value(m, by_version, s.store, r),
            ),
            s.log,
        ),
        MirRvalueView::UnaryOp(op, v) => (
            (m.unary)(op, operand_value(m, by_version, s.store, v)),
            s.log,
        ),
        MirRvalueView::Cast(v, ty) => (
            (m.cast)(operand_value(m, by_version, s.store, v), ty),
            s.log,
        ),
        MirRvalueView::Call { func, args, is_intrinsic, intrinsic_name, generic_args } => {
            let all = s.log.push(
                Request {
                    name: func,
                    is_method: false,
                    intrinsic: if is_intrinsic {
                        intrinsic_name
                    } else {
                        None
                    },
                    generic_args,
                    args: operand_values(m, by_version, s.store, args),
                },
            );
            ((m.answer)(all), all)
        },
        MirRvalueView::MethodCall { receiver, method, args, generic_args } => {
            let all = s.log.push(
                Request {
                    name: method,
                    is_method: true,
                    intrinsic: None,
                    generic_args,
                    args: operand_values(m, by_version, s.store, seq![receiver] + args),
                },
            );
            ((m.answer)(all), all)
        },
        MirRvalueView::EnumVariantConstruction { enum_name, generic_args, variant_name, args } => (
            (m.variant)(
                enum_name,
                generic_args,
                variant_name,
                operand_values(m, by_version, s.store, args),
            ),
            s.log,
        ),
        MirRvalueView::StructInit { struct_name, generic_args, fields } => (
            (m.record)(
                struct_name,
                generic_args,
                Seq::new(
                    fields.len(),
                    |i: int|
                        (fields[i].0, operand_value(m, by_version, s.store, fields[i].1)),
                ),
            ),
            s.log,
        ),
        MirRvalueView::ArrayLiteral(list) => (
            (m.array)(operand_values(m, by_version, s.store, list)),
            s.log,
        ),
        MirRvalueView::Discriminant { value, enum_name } => (
            (m.tag)(operand_value(m, by_version, s.store, value), enum_name),
            s.log,
        ),
        MirRvalueView::Phi { values } => (
            match joined(values, s.trail) {
                Some(op) => operand_value(m, by_version, s.store, op),
                None => (m.literal)(LiteralView::Unit),
            },
            s.log,
        ),
    }
}

/// A statement: one that assigns to a local gives it the value.
pub open spec fn run_stmt<V>(
    m: Machine<V>,
    by_version: bool,
    s: State<V>,
    stmt: MirStmtView,
) -> Option<State<V>> {
    match stmt {
        MirStmtView::Assign { dest: MirPlaceView::Ssa(x), value } => {
            let (v, log) = rvalue_value(m, by_version, s, value);
            Some(State { store: s.store.insert(slot(by_version, x), v), log, ..s })
        },
        MirStmtView::Assign { dest, value } => None,
        MirStmtView::ExprStmt(rv) => Some(
            State { log: rvalue_value(m, by_version, s, rv).1, ..s },
        ),
        MirStmtView::Drop(_) => Some(s),
        MirStmtView::EffectCheck { effect } => Some(s),
    }
}

/// Where a switch goes: to the first target from the `i`-th on whose literal is the
/// value, else to the default.
pub open spec fn taken(
    targets: Seq<(LiteralView, usize)>,
    default: usize,
    v: Scalar,
    i: nat,
) -> usize
    decreases targets.len() - i,
{
    if i >= targets.len() {
        default
    } else if scalar_of(targets[i as int].0) == v {
        targets[i as int].1
    } else {
        taken(targets, default, v, i + 1)
    }
}

/// At the start of a block.
pub open spec fn enter<V>(s: State<V>, block: usize) -> Point<V> {
    Point { block, at: 0, state: State { trail: s.trail.push(block), ..s } }
}

/// One step of a run, if there is one.
pub open spec fn step<V>(
    m: Machine<V>,
    by_version: bool,
    blocks: Seq<MirBlockView>,
    p: Point<V>,
) -> Option<Point<V>> {
    if p.block >= blocks.len() {
        None
    } else {
        let b = blocks[p.block as int];
        if p.at < b.stmts.len() {
            match run_stmt(m, by_version, p.state, b.stmts[p.at as int]) {
                None => None,
                Some(state) => Some(Point { at: p.at + 1, state, ..p }),
            }
        } else {
            match b.terminator {
                MirTerminatorView::Goto(t) => Some(enter(p.state, t)),
                MirTerminatorView::If { cond, then_block, else_block } => Some(
                    enter(
                        p.state,
                        if (m.scalar)(operand_value(m, by_version, p.state.store, cond))
                            == Scalar::Bool(true) {
                            then_block
                        } else {
                            else_block
                        },
                    ),
                ),
                MirTerminatorView::Switch { discr, discr_ty, targets, default } => Some(
                    enter(
                        p.state,
                        taken(
                            targets,
                            default,
                            (m.scalar)(operand_value(m, by_version, p.state.store, discr)),
                            0,
                        ),
                    ),
                ),
                _ => None,
            }
        }
    }
}

/// What a run comes to after `n` steps, if it goes that far.
pub open spec fn steps<V>(
    m: Machine<V>,
    by_version: bool,
    blocks: Seq<MirBlockView>,
    p: Point<V>,
    n: nat,
) -> Option<Point<V>>
    decreases n,
{
    if n == 0 {
        Some(p)
    } else {
        match step(m, by_version, blocks, p) {
            None => None,
            Some(q) => steps(m, by_version, blocks, q, (n - 1) as nat),
        }
    }
}

/// Whether a run from `p` comes to `q`.
pub open spec fn reaches<V>(
    m: Machine<V>,
    by_version: bool,
    blocks: Seq<MirBlockView>,
    p: Point<V>,
    q: Point<V>,
) -> bool {
    exists|n: nat| #[trigger] steps(m, by_version, blocks, p, n) == Some(q)
}

/// Behind the last statement of the current block.
pub open spec fn point_at<V>(b: Bs, s: State<V>) -> Point<V> {
    Point { block: b.cur, at: b.block().stmts.len(), state: s }
}

} // verus!
