//! Builds the basic blocks of a typed program.
use crate::lowering;
use crate::ast::{dup_type_list, lemma_type_views, Literal, LiteralView, Type, type_views};
use crate::building::{
    assigned, assigns, fields_in, group_inside, group_kept, kept, lemma_kept_block,
    lemma_kept_version, lemma_loops, lemma_push_kept, operand_in, operands_in, place_in, rvalue_in,
};
use crate::guide::place_base_ssa;
use crate::hir::{
    hir_call_arg_views, hir_expr_views, hir_stmt_views, HirBlock, HirCallArg, HirExpr, HirExprKind,
    HirStmt, lemma_hir_call_arg_views, lemma_hir_expr_views, lemma_hir_stmt_views,
    lemma_string_hir_expr_views, string_hir_expr_views,
};
use crate::intrinsic::{full_name_of, SharedContext};
use crate::lowering::{
    Bs, call_rule, Diverging, expr_rule, if_value_rule, in_temp, join, join_branch, LoopCtx,
    move_of, phi_values, place_rule, rvalue_rule, Step, stmt_rule, too_many_versions,
};
use crate::mir::{
    lemma_mir_operand_push, lemma_mir_operand_views, lemma_string_mir_operand_push,
    lemma_string_mir_operand_views, lemma_usize_mir_operand_push, lemma_usize_mir_operand_views,
    LocalKind, mir_operand_views, MirLocal, MirOperand, MirOperandView, MirPlace, MirPlaceView,
    MirRvalue, MirRvalueView, MirStmt, MirStmtView, MirTerminator, SsaLocal,
    string_mir_operand_views, usize_mir_operand_views,
};
use crate::state::{fresh, lemma_drop_scopes_keeps, lemma_drop_vars_keeps, MirBuilder};
use crate::text::{Chars, join3};
use vstd::prelude::*;

verus! {

broadcast use {group_inside, group_kept};

pub open spec fn operand_step(d: Diverging<MirOperand>) -> Diverging<MirOperandView> {
    match d {
        Diverging::Value(v) => Diverging::Value(v.model()),
        Diverging::Diverged => Diverging::Diverged,
    }
}

pub open spec fn operands_step(d: Diverging<Vec<MirOperand>>) -> Diverging<Seq<MirOperandView>> {
    match d {
        Diverging::Value(v) => Diverging::Value(mir_operand_views(v@)),
        Diverging::Diverged => Diverging::Diverged,
    }
}

pub open spec fn fields_step(d: Diverging<Vec<(String, MirOperand)>>) -> Diverging<
    Seq<(Chars, MirOperandView)>,
> {
    match d {
        Diverging::Value(v) => Diverging::Value(string_mir_operand_views(v@)),
        Diverging::Diverged => Diverging::Diverged,
    }
}

pub open spec fn rvalue_step(d: Diverging<MirRvalue>) -> Diverging<MirRvalueView> {
    match d {
        Diverging::Value(v) => Diverging::Value(v.model()),
        Diverging::Diverged => Diverging::Diverged,
    }
}

pub open spec fn place_step(d: Diverging<MirPlace>) -> Diverging<MirPlaceView> {
    match d {
        Diverging::Value(v) => Diverging::Value(v.model()),
        Diverging::Diverged => Diverging::Diverged,
    }
}

pub open spec fn block_step(d: Diverging<Option<MirOperand>>) -> Diverging<Option<MirOperandView>> {
    match d {
        Diverging::Value(Some(v)) => Diverging::Value(Some(v.model())),
        Diverging::Value(None) => Diverging::Value(None),
        Diverging::Diverged => Diverging::Diverged,
    }
}

/// Whether a state came from another by rules that leave its scopes and loops.
pub open spec fn grew(a: MirBuilder, b: MirBuilder) -> bool {
    &&& b.wf()
    &&& b.locals@.len() >= a.locals@.len()
    &&& b.blocks@.len() >= a.blocks@.len()
    &&& b.scope@.len() == a.scope@.len()
    &&& b.loop_stack@ == a.loop_stack@
    &&& kept(a.model(), b.model())
}

/// Where the work cannot go on, the current block is finished; where it can, and
/// the current block was not finished, it is not.
pub open spec fn open_or_done(a: MirBuilder, b: MirBuilder, diverged: bool) -> bool {
    if diverged {
        !b.model().pending()
    } else {
        a.model().pending() ==> b.model().pending()
    }
}

/// The locals of a place are the function's.
pub open spec fn place_known(p: MirPlace, b: MirBuilder) -> bool {
    place_in(p.model(), b.locals@.len())
}

/// The locals of an operand are the function's.
pub open spec fn operand_known(op: MirOperand, b: MirBuilder) -> bool {
    operand_in(op.model(), b.locals@.len())
}

/// The locals of a value are the function's.
pub open spec fn rvalue_known(v: MirRvalue, b: MirBuilder) -> bool {
    rvalue_in(v.model(), b.locals@.len())
}

/// The locals of the value of a block are the function's.
pub open spec fn block_known(v: Option<MirOperand>, b: MirBuilder) -> bool {
    v matches Some(op) ==> operand_known(op, b)
}

/// The locals where branches join are among the first `n`.
pub open spec fn joins_in(joins: Seq<(usize, SsaLocal)>, n: nat) -> bool {
    forall|k: int| 0 <= k < joins.len() ==> (#[trigger] joins[k]).1.base_id < n
}

/// Whether a result and a state are those that a rule gives. Where the rule fails,
/// the loops are those that were there before.
pub open spec fn operand_is(
    r: Result<Diverging<MirOperand>, String>,
    a: MirBuilder,
    b: MirBuilder,
    s: Step<MirOperandView>,
) -> bool {
    match r {
        Ok(d) => {
            &&& grew(a, b)
            &&& open_or_done(a, b, d is Diverged)
            &&& s == Ok::<(Bs, Diverging<MirOperandView>), Chars>(
            (b.model(), operand_step(d)),
        )
            &&& d matches Diverging::Value(v) ==> operand_known(v, b)
        },
        Err(e) => {
            &&& s == Err::<(Bs, Diverging<MirOperandView>), Chars>(e@)
            &&& b.loop_stack@ == a.loop_stack@
        },
    }
}

pub open spec fn operands_are(
    r: Result<Diverging<Vec<MirOperand>>, String>,
    a: MirBuilder,
    b: MirBuilder,
    s: Step<Seq<MirOperandView>>,
) -> bool {
    match r {
        Ok(d) => {
            &&& grew(a, b)
            &&& open_or_done(a, b, d is Diverged)
            &&& s == Ok::<(Bs, Diverging<Seq<MirOperandView>>), Chars>(
            (b.model(), operands_step(d)),
        )
            &&& d matches Diverging::Value(v) ==> operands_in(
                mir_operand_views(v@),
                b.locals@.len(),
            )
        },
        Err(e) => {
            &&& s == Err::<(Bs, Diverging<Seq<MirOperandView>>), Chars>(e@)
            &&& b.loop_stack@ == a.loop_stack@
        },
    }
}

pub open spec fn fields_are(
    r: Result<Diverging<Vec<(String, MirOperand)>>, String>,
    a: MirBuilder,
    b: MirBuilder,
    s: Step<Seq<(Chars, MirOperandView)>>,
) -> bool {
    match r {
        Ok(d) => {
            &&& grew(a, b)
            &&& open_or_done(a, b, d is Diverged)
            &&& s == Ok::<(Bs, Diverging<Seq<(Chars, MirOperandView)>>), Chars>(
            (b.model(), fields_step(d)),
        )
            &&& d matches Diverging::Value(v) ==> fields_in(
                string_mir_operand_views(v@),
                b.locals@.len(),
            )
        },
        Err(e) => {
            &&& s == Err::<(Bs, Diverging<Seq<(Chars, MirOperandView)>>), Chars>(e@)
            &&& b.loop_stack@ == a.loop_stack@
        },
    }
}

pub open spec fn rvalue_is(
    r: Result<Diverging<MirRvalue>, String>,
    a: MirBuilder,
    b: MirBuilder,
    s: Step<MirRvalueView>,
) -> bool {
    match r {
        Ok(d) => {
            &&& grew(a, b)
            &&& open_or_done(a, b, d is Diverged)
            &&& s == Ok::<(Bs, Diverging<MirRvalueView>), Chars>(
            (b.model(), rvalue_step(d)),
        )
            &&& d matches Diverging::Value(v) ==> rvalue_known(v, b)
        },
        Err(e) => {
            &&& s == Err::<(Bs, Diverging<MirRvalueView>), Chars>(e@)
            &&& b.loop_stack@ == a.loop_stack@
        },
    }
}

pub open spec fn place_is(
    r: Result<Diverging<MirPlace>, String>,
    a: MirBuilder,
    b: MirBuilder,
    s: Step<MirPlaceView>,
) -> bool {
    match r {
        Ok(d) => {
            &&& grew(a, b)
            &&& open_or_done(a, b, d is Diverged)
            &&& s == Ok::<(Bs, Diverging<MirPlaceView>), Chars>(
            (b.model(), place_step(d)),
        )
            &&& d matches Diverging::Value(v) ==> place_known(v, b)
        },
        Err(e) => {
            &&& s == Err::<(Bs, Diverging<MirPlaceView>), Chars>(e@)
            &&& b.loop_stack@ == a.loop_stack@
        },
    }
}

pub open spec fn block_is(
    r: Result<Diverging<Option<MirOperand>>, String>,
    a: MirBuilder,
    b: MirBuilder,
    s: Step<Option<MirOperandView>>,
) -> bool {
    match r {
        Ok(d) => {
            &&& grew(a, b)
            &&& open_or_done(a, b, d is Diverged)
            &&& s == Ok::<(Bs, Diverging<Option<MirOperandView>>), Chars>(
            (b.model(), block_step(d)),
        )
            &&& d matches Diverging::Value(v) ==> block_known(v, b)
        },
        Err(e) => {
            &&& s == Err::<(Bs, Diverging<Option<MirOperandView>>), Chars>(e@)
            &&& b.loop_stack@ == a.loop_stack@
        },
    }
}

/// Whether a result and a state are those that variables for a pattern give.
pub open spec fn bound_is(
    r: Result<(), String>,
    a: MirBuilder,
    b: MirBuilder,
    s: Result<Bs, Chars>,
) -> bool {
    match r {
        Ok(_) => {
            &&& grew(a, b)
            &&& b.model().pending() == a.model().pending()
            &&& s == Ok::<Bs, Chars>(b.model())
        },
        Err(e) => {
            &&& s == Err::<Bs, Chars>(e@)
            &&& b.loop_stack@ == a.loop_stack@
        },
    }
}

/// Whether a place is a version of a local.
pub open spec fn is_ssa(p: MirPlace, x: SsaLocal) -> bool {
    p.model() == MirPlaceView::Ssa(x)
}

/// How a place is ordered among the rules for one expression.
pub open spec fn rank(e: HirExpr) -> nat {
    if e.kind is Ident || e.kind is FieldAccess || e.kind is Index {
        0
    } else {
        8
    }
}

fn too_many() -> (r: String)
    ensures
        r@ == too_many_versions(),
{
    "too many versions of a local".to_string()
}

fn undefined(name: &String) -> (r: String)
    ensures
        r@ == "undefined variable `"@ + name@ + "`"@,
{
    join3("undefined variable `", name.as_str(), "`")
}

/// The operand that moves a version of a local out.
pub fn move_ssa(s: SsaLocal) -> (r: MirOperand)
    ensures
        r == MirOperand::Move(MirPlace::Ssa(s)),
        r.model() == move_of(s),
{
    let p = MirPlace::Ssa(s);
    assert(p.model() == MirPlaceView::Ssa(s));
    MirOperand::Move(p)
}

/// The value that a local's version is.
fn use_ssa(s: SsaLocal) -> (r: MirRvalue)
    ensures
        r == MirRvalue::Use(MirOperand::Move(MirPlace::Ssa(s))),
        r.model() == MirRvalueView::Use(move_of(s)),
{
    MirRvalue::Use(move_ssa(s))
}

/// The value that a name outside of all functions stands for.
fn use_static(name: String) -> (r: MirRvalue)
    ensures
        r == MirRvalue::Use(MirOperand::Move(MirPlace::Static(name))),
        r.model() == MirRvalueView::Use(MirOperandView::Move(MirPlaceView::Static(name@))),
{
    let p = MirPlace::Static(name);
    assert(p.model() == MirPlaceView::Static(name@));
    let op = MirOperand::Move(p);
    assert(op.model() == MirOperandView::Move(MirPlaceView::Static(name@)));
    MirRvalue::Use(op)
}

/// The empty value.
fn unit_operand() -> (r: MirOperand)
    ensures
        r is Constant,
        r.model() == MirOperandView::Constant(LiteralView::Unit),
{
    let l = Literal::Unit;
    assert(l.model() == LiteralView::Unit);
    MirOperand::Constant(l)
}

/// The operands of a join.
#[verifier::spinoff_prover]
fn phi_operands(joins: &Vec<(usize, SsaLocal)>) -> (r: Vec<(usize, MirOperand)>)
    ensures
        usize_mir_operand_views(r@) == phi_values(joins@),
{
    let mut out: Vec<(usize, MirOperand)> = Vec::new();
    let mut i: usize = 0;
    proof {
        lemma_usize_mir_operand_views(out@);
        assert(usize_mir_operand_views(out@) =~= phi_values(joins@).take(0));
    }
    while i < joins.len()
        invariant
            i <= joins.len(),
            usize_mir_operand_views(out@) == phi_values(joins@).take(i as int),
        decreases joins.len() - i,
    {
        let pair: (usize, MirOperand) = (joins[i].0, move_ssa(joins[i].1));
        proof {
            lemma_usize_mir_operand_push(out@, pair);
            assert(phi_values(joins@)[i as int] == (joins@[i as int].0, move_of(
                joins@[i as int].1,
            )));
        }
        out.push(pair);
        i = i + 1;
        assert(usize_mir_operand_views(out@) =~= phi_values(joins@).take(i as int));
    }
    assert(phi_values(joins@).take(joins@.len() as int) =~= phi_values(joins@));
    out
}

impl MirBuilder {
    /// The value of an expression as an operand: a literal as it is, any other
    /// value in a new local unless it is one already.
    #[verifier::spinoff_prover]
    pub fn build_expr(&mut self, e: &HirExpr, shared: &SharedContext) -> (r: Result<
        Diverging<MirOperand>,
        String,
    >)
        requires
            old(self).wf(),
        ensures
            operand_is(
                r,
                *old(self),
                *final(self),
                lowering::expr(shared.model(), old(self).model(), e.model()),
            ),
        decreases e, 7nat,
    {
        proof {
            reveal(expr_rule);
            assert(lowering::expr(shared.model(), self.model(), e.model()) == expr_rule(
                shared.model(),
                self.model(),
                e.model(),
            ));
            assert(e.model().kind == e.kind.model());
        }
        if let HirExprKind::Literal(l) = &e.kind {
            return Ok(Diverging::Value(MirOperand::Constant(l.dup())));
        }
        let value = match self.build_expr_rvalue(e, shared) {
            Err(m) => {
                return Err(m);
            },
            Ok(Diverging::Diverged) => {
                return Ok(Diverging::Diverged);
            },
            Ok(Diverging::Value(v)) => v,
        };
        match value {
            MirRvalue::Use(op) => Ok(Diverging::Value(op)),
            other => self.put_in_temp(e.ty.dup(), other),
        }
    }

    /// Puts a value into a new local.
    #[verifier::spinoff_prover]
    fn put_in_temp(&mut self, ty: Type, value: MirRvalue) -> (r: Result<
        Diverging<MirOperand>,
        String,
    >)
        requires
            old(self).wf(),
            rvalue_known(value, *old(self)),
        ensures
            operand_is(
                r,
                *old(self),
                *final(self),
                in_temp(old(self).model(), ty.model(), value.model()),
            ),
    {
        let id: usize = self.new_temp(ty);
        match self.define(id, value) {
            None => Err(too_many()),
            Some(s) => Ok(Diverging::Value(move_ssa(s))),
        }
    }

    /// The place of an expression.
    #[verifier::spinoff_prover]
    #[verifier::rlimit(30)]
    pub fn build_place(&mut self, e: &HirExpr, shared: &SharedContext) -> (r: Result<
        Diverging<MirPlace>,
        String,
    >)
        requires
            old(self).wf(),
        ensures
            place_is(
                r,
                *old(self),
                *final(self),
                lowering::place(shared.model(), old(self).model(), e.model()),
            ),
        decreases e, rank(*e) + 1,
    {
        proof {
            reveal(place_rule);
            assert(lowering::place(shared.model(), self.model(), e.model()) == place_rule(
                shared.model(),
                self.model(),
                e.model(),
            ));
            assert(e.model().kind == e.kind.model());
        }
        match &e.kind {
            HirExprKind::Ident(name) => match self.lookup(name) {
                None => Err(undefined(name)),
                Some(id) => {
                    let s = self.current_ssa(id);
                    Ok(Diverging::Value(MirPlace::Ssa(s)))
                },
            },
            HirExprKind::FieldAccess { struct_expr, field_name } => {
                match self.build_place(struct_expr, shared) {
                    Err(m) => Err(m),
                    Ok(Diverging::Diverged) => Ok(Diverging::Diverged),
                    Ok(Diverging::Value(p)) => Ok(
                        Diverging::Value(
                            MirPlace::Field { base: Box::new(p), field: field_name.clone() },
                        ),
                    ),
                }
            },
            HirExprKind::Index { expr: base, index } => {
                let p = match self.build_place(base, shared) {
                    Err(m) => {
                        return Err(m);
                    },
                    Ok(Diverging::Diverged) => {
                        return Ok(Diverging::Diverged);
                    },
                    Ok(Diverging::Value(p)) => p,
                };
                match self.build_expr(index, shared) {
                    Err(m) => Err(m),
                    Ok(Diverging::Diverged) => Ok(Diverging::Diverged),
                    Ok(Diverging::Value(i)) => {
                        assert(place_known(p, *self));
                        Ok(
                            Diverging::Value(
                                MirPlace::Index { base: Box::new(p), index: Box::new(i) },
                            ),
                        )
                    },
                }
            },
            _ => {
                let op = match self.build_expr(e, shared) {
                    Err(m) => {
                        return Err(m);
                    },
                    Ok(Diverging::Diverged) => {
                        return Ok(Diverging::Diverged);
                    },
                    Ok(Diverging::Value(op)) => op,
                };
                match op {
                    MirOperand::Move(p) => Ok(Diverging::Value(p)),
                    MirOperand::Copy(p) => Ok(Diverging::Value(p)),
                    MirOperand::Constant(l) => {
                        let id: usize = self.new_temp(e.ty.dup());
                        let op1 = MirOperand::Constant(l);
                        let value = MirRvalue::Use(op1);
                        assert(value.model() == MirRvalueView::Use(op.model()));
                        match self.define(id, value) {
                            None => Err(too_many()),
                            Some(s) => Ok(Diverging::Value(MirPlace::Ssa(s))),
                        }
                    },
                }
            },
        }
    }

    /// A field or an element that is read.
    #[verifier::spinoff_prover]
    fn read_place(&mut self, e: &HirExpr, shared: &SharedContext) -> (r: Result<
        Diverging<MirRvalue>,
        String,
    >)
        requires
            old(self).wf(),
        ensures
            rvalue_is(
                r,
                *old(self),
                *final(self),
                lowering::read_place(shared.model(), old(self).model(), e.model()),
            ),
        decreases e, rank(*e) + 2,
    {
        match self.build_place(e, shared) {
            Err(m) => Err(m),
            Ok(Diverging::Diverged) => Ok(Diverging::Diverged),
            Ok(Diverging::Value(p)) => {
                if let Some(s) = place_base_ssa(&p) {
                    self.mark_moved(s);
                }
                let op = MirOperand::Move(p);
                assert(op.model() == MirOperandView::Move(p.model()));
                Ok(Diverging::Value(MirRvalue::Use(op)))
            },
        }
    }

    /// An argument of a call.
    #[verifier::spinoff_prover]
    fn build_call_arg(&mut self, a: &HirCallArg, shared: &SharedContext) -> (r: Result<
        Diverging<MirOperand>,
        String,
    >)
        requires
            old(self).wf(),
        ensures
            operand_is(
                r,
                *old(self),
                *final(self),
                lowering::arg(shared.model(), old(self).model(), a.model()),
            ),
        decreases a, 0nat,
    {
        match a {
            HirCallArg::Positional(e) => self.build_expr(e, shared),
            HirCallArg::Named(_, e) => self.build_expr(e, shared),
        }
    }

    /// The arguments of a call, in order, up to one that diverges.
    #[verifier::spinoff_prover]
    fn build_args(&mut self, list: &Vec<HirCallArg>, shared: &SharedContext) -> (r: Result<
        Diverging<Vec<MirOperand>>,
        String,
    >)
        requires
            old(self).wf(),
        ensures
            operands_are(
                r,
                *old(self),
                *final(self),
                lowering::args(
                    shared.model(),
                    old(self).model(),
                    hir_call_arg_views(list@),
                    0,
                    Seq::empty(),
                ),
            ),
            r matches Ok(Diverging::Value(v)) ==> v@.len() == list@.len(),
        decreases list@, 0nat,
    {
        let ghost c = shared.model();
        let ghost b0 = self.model();
        let ghost views = hir_call_arg_views(list@);
        let mut ops: Vec<MirOperand> = Vec::new();
        let mut i: usize = 0;
        proof {
            lemma_hir_call_arg_views(list@);
            lemma_mir_operand_views(ops@);
            assert(mir_operand_views(ops@) =~= Seq::empty());
        }
        while i < list.len()
            invariant
                i <= list.len(),
                c == shared.model(),
                b0 == old(self).model(),
                grew(*old(self), *self),
                open_or_done(*old(self), *self, false),
                views == hir_call_arg_views(list@),
                views.len() == list@.len(),
                forall|k: int| 0 <= k < list@.len() ==> #[trigger] views[k] == list@[k].model(),
                ops@.len() == i,
                lowering::args(c, b0, views, 0, Seq::empty()) == lowering::args(
                    c,
                    self.model(),
                    views,
                    i as nat,
                    mir_operand_views(ops@),
                ),
                operands_in(mir_operand_views(ops@), self.locals@.len()),
            decreases list.len() - i,
        {
            assert(views[i as int] == list@[i as int].model());
            match self.build_call_arg(&list[i], shared) {
                Err(m) => {
                    return Err(m);
                },
                Ok(Diverging::Diverged) => {
                    return Ok(Diverging::Diverged);
                },
                Ok(Diverging::Value(v)) => {
                    proof {
                        lemma_mir_operand_push(ops@, v);
                        assert(operands_in(mir_operand_views(ops@), self.locals@.len()));
                    }
                    ops.push(v);
                },
            }
            i = i + 1;
        }
        Ok(Diverging::Value(ops))
    }

    /// The elements of an array.
    #[verifier::spinoff_prover]
    fn build_elements(&mut self, list: &Vec<HirExpr>, shared: &SharedContext) -> (r: Result<
        Diverging<Vec<MirOperand>>,
        String,
    >)
        requires
            old(self).wf(),
        ensures
            operands_are(
                r,
                *old(self),
                *final(self),
                lowering::elements(
                    shared.model(),
                    old(self).model(),
                    hir_expr_views(list@),
                    0,
                    Seq::empty(),
                ),
            ),
        decreases list@, 0nat,
    {
        let ghost c = shared.model();
        let ghost b0 = self.model();
        let ghost views = hir_expr_views(list@);
        let mut ops: Vec<MirOperand> = Vec::new();
        let mut i: usize = 0;
        proof {
            lemma_hir_expr_views(list@);
            lemma_mir_operand_views(ops@);
            assert(mir_operand_views(ops@) =~= Seq::empty());
        }
        while i < list.len()
            invariant
                i <= list.len(),
                c == shared.model(),
                b0 == old(self).model(),
                grew(*old(self), *self),
                open_or_done(*old(self), *self, false),
                views == hir_expr_views(list@),
                views.len() == list@.len(),
                forall|k: int| 0 <= k < list@.len() ==> #[trigger] views[k] == list@[k].model(),
                lowering::elements(c, b0, views, 0, Seq::empty()) == lowering::elements(
                    c,
                    self.model(),
                    views,
                    i as nat,
                    mir_operand_views(ops@),
                ),
                operands_in(mir_operand_views(ops@), self.locals@.len()),
            decreases list.len() - i,
        {
            assert(views[i as int] == list@[i as int].model());
            match self.build_expr(&list[i], shared) {
                Err(m) => {
                    return Err(m);
                },
                Ok(Diverging::Diverged) => {
                    return Ok(Diverging::Diverged);
                },
                Ok(Diverging::Value(v)) => {
                    proof {
                        lemma_mir_operand_push(ops@, v);
                        assert(operands_in(mir_operand_views(ops@), self.locals@.len()));
                    }
                    ops.push(v);
                },
            }
            i = i + 1;
        }
        Ok(Diverging::Value(ops))
    }

    /// The fields of a structure.
    #[verifier::spinoff_prover]
    fn build_fields(&mut self, list: &Vec<(String, HirExpr)>, shared: &SharedContext) -> (r: Result<
        Diverging<Vec<(String, MirOperand)>>,
        String,
    >)
        requires
            old(self).wf(),
        ensures
            fields_are(
                r,
                *old(self),
                *final(self),
                lowering::fields(
                    shared.model(),
                    old(self).model(),
                    string_hir_expr_views(list@),
                    0,
                    Seq::empty(),
                ),
            ),
        decreases list@, 0nat,
    {
        let ghost c = shared.model();
        let ghost b0 = self.model();
        let ghost views = string_hir_expr_views(list@);
        let mut ops: Vec<(String, MirOperand)> = Vec::new();
        let mut i: usize = 0;
        proof {
            lemma_string_hir_expr_views(list@);
            lemma_string_mir_operand_views(ops@);
            assert(string_mir_operand_views(ops@) =~= Seq::empty());
        }
        while i < list.len()
            invariant
                i <= list.len(),
                c == shared.model(),
                b0 == old(self).model(),
                grew(*old(self), *self),
                open_or_done(*old(self), *self, false),
                views == string_hir_expr_views(list@),
                views.len() == list@.len(),
                forall|k: int|
                    0 <= k < list@.len() ==> #[trigger] views[k] == (
                        list@[k].0@,
                        list@[k].1.model(),
                    ),
                lowering::fields(c, b0, views, 0, Seq::empty()) == lowering::fields(
                    c,
                    self.model(),
                    views,
                    i as nat,
                    string_mir_operand_views(ops@),
                ),
                fields_in(string_mir_operand_views(ops@), self.locals@.len()),
            decreases list.len() - i,
        {
            assert(views[i as int] == (list@[i as int].0@, list@[i as int].1.model()));
            match self.build_expr(&list[i].1, shared) {
                Err(m) => {
                    return Err(m);
                },
                Ok(Diverging::Diverged) => {
                    return Ok(Diverging::Diverged);
                },
                Ok(Diverging::Value(v)) => {
                    let pair: (String, MirOperand) = (list[i].0.clone(), v);
                    proof {
                        lemma_string_mir_operand_push(ops@, pair);
                        assert(fields_in(string_mir_operand_views(ops@), self.locals@.len()));
                    }
                    ops.push(pair);
                },
            }
            i = i + 1;
        }
        Ok(Diverging::Value(ops))
    }

    /// The value of an expression.
    #[verifier::spinoff_prover]
    #[verifier::rlimit(100)]
    pub fn build_expr_rvalue(&mut self, e: &HirExpr, shared: &SharedContext) -> (r: Result<
        Diverging<MirRvalue>,
        String,
    >)
        requires
            old(self).wf(),
        ensures
            rvalue_is(
                r,
                *old(self),
                *final(self),
                lowering::rvalue(shared.model(), old(self).model(), e.model()),
            ),
        decreases e, 5nat,
    {
        proof {
            reveal(rvalue_rule);
            assert(lowering::rvalue(shared.model(), self.model(), e.model()) == rvalue_rule(
                shared.model(),
                self.model(),
                e.model(),
            ));
            assert(e.model().kind == e.kind.model());
        }
        match &e.kind {
            HirExprKind::Literal(l) => {
                let op = MirOperand::Constant(l.dup());
                assert(op.model() == MirOperandView::Constant(l.model()));
                Ok(Diverging::Value(MirRvalue::Use(op)))
            },
            HirExprKind::Ident(name) => match self.lookup(name) {
                None => Err(undefined(name)),
                Some(id) => {
                    let s = self.current_ssa(id);
                    self.mark_moved(s);
                    Ok(Diverging::Value(use_ssa(s)))
                },
            },
            HirExprKind::Sym(name) => Ok(Diverging::Value(use_static(name.clone()))),
            HirExprKind::BinaryOp { op, left, right } => {
                let l = match self.build_expr(left, shared) {
                    Err(m) => {
                        return Err(m);
                    },
                    Ok(Diverging::Diverged) => {
                        return Ok(Diverging::Diverged);
                    },
                    Ok(Diverging::Value(v)) => v,
                };
                match self.build_expr(right, shared) {
                    Err(m) => Err(m),
                    Ok(Diverging::Diverged) => Ok(Diverging::Diverged),
                    Ok(Diverging::Value(v)) => Ok(
                        Diverging::Value(MirRvalue::BinaryOp(*op, l, v)),
                    ),
                }
            },
            HirExprKind::Unary { op, expr: inner } => match self.build_expr(inner, shared) {
                Err(m) => Err(m),
                Ok(Diverging::Diverged) => Ok(Diverging::Diverged),
                Ok(Diverging::Value(v)) => Ok(Diverging::Value(MirRvalue::UnaryOp(*op, v))),
            },
            HirExprKind::Cast { expr: inner, ty } => match self.build_expr(inner, shared) {
                Err(m) => Err(m),
                Ok(Diverging::Diverged) => Ok(Diverging::Diverged),
                Ok(Diverging::Value(v)) => Ok(Diverging::Value(MirRvalue::Cast(v, ty.dup()))),
            },
            HirExprKind::FieldAccess { struct_expr, field_name } => self.read_place(e, shared),
            HirExprKind::Index { expr: base, index } => self.read_place(e, shared),
            HirExprKind::Call { qualifier, func, generic_args, args, is_method } => {
                self.build_call(e, shared)
            },
            HirExprKind::EnumVariantConstruction { enum_name, generic_args, variant_name, args } => {
                match self.build_args(args, shared) {
                    Err(m) => Err(m),
                    Ok(Diverging::Diverged) => Ok(Diverging::Diverged),
                    Ok(Diverging::Value(ops)) => Ok(
                        Diverging::Value(
                            MirRvalue::EnumVariantConstruction {
                                enum_name: enum_name.clone(),
                                generic_args: dup_type_list(generic_args),
                                variant_name: variant_name.clone(),
                                args: ops,
                            },
                        ),
                    ),
                }
            },
            HirExprKind::EnumVariantAccess { enum_name, variant_name } => Ok(
                Diverging::Value(bare_variant(enum_name.clone(), variant_name.clone())),
            ),
            HirExprKind::StructInit { struct_name, generic_args, fields } => {
                match self.build_fields(fields, shared) {
                    Err(m) => Err(m),
                    Ok(Diverging::Diverged) => Ok(Diverging::Diverged),
                    Ok(Diverging::Value(ops)) => Ok(
                        Diverging::Value(
                            MirRvalue::StructInit {
                                struct_name: struct_name.clone(),
                                generic_args: dup_type_list(generic_args),
                                fields: ops,
                            },
                        ),
                    ),
                }
            },
            HirExprKind::ArrayLiteral(list) => match self.build_elements(list, shared) {
                Err(m) => Err(m),
                Ok(Diverging::Diverged) => Ok(Diverging::Diverged),
                Ok(Diverging::Value(ops)) => Ok(Diverging::Value(MirRvalue::ArrayLiteral(ops))),
            },
            HirExprKind::LackSlice(_) => Ok(Diverging::Value(empty_array())),
            HirExprKind::Block(b) => {
                let d = self.build_block(b, shared);
                value_of_block(d)
            },
            HirExprKind::UnsafeBlock { kind, body } => {
                let d = self.build_unsafe_block(body, shared);
                value_of_block(d)
            },
            HirExprKind::If { kind, cond, then_expr, else_expr } => self.build_if(e, shared),
            HirExprKind::Match { cond, arms } => self.build_match(e, shared),
            HirExprKind::Closure { param, body } => Err(
                "MIR lowering for Closure: 捕获变量与闭包结构体生成策略还没设计".to_string(),
            ),
            HirExprKind::Range { start, end } => Err(
                "MIR lowering for bare Range: Range 目前只应该在 for 循环展开后被消费，独立出现说明 elaborate.rs 该做的展开还没做".to_string(),
            ),
        }
    }

    /// A call.
    #[verifier::spinoff_prover]
    #[verifier::rlimit(80)]
    fn build_call(&mut self, e: &HirExpr, shared: &SharedContext) -> (r: Result<
        Diverging<MirRvalue>,
        String,
    >)
        requires
            old(self).wf(),
            e.kind is Call,
        ensures
            rvalue_is(
                r,
                *old(self),
                *final(self),
                lowering::call(shared.model(), old(self).model(), e.model()),
            ),
        decreases e, 0nat,
    {
        proof {
            reveal(call_rule);
            assert(lowering::call(shared.model(), self.model(), e.model()) == call_rule(
                shared.model(),
                self.model(),
                e.model(),
            ));
            assert(e.model().kind == e.kind.model());
        }
        match &e.kind {
            HirExprKind::Call { qualifier, func, generic_args, args, is_method } => {
                proof {
                    lemma_hir_call_arg_views(args@);
                }
                if qualifier.is_none() && !*is_method {
                    if let Some(enum_name) = shared.sole_owner(func) {
                        return match self.build_args(args, shared) {
                            Err(m) => Err(m),
                            Ok(Diverging::Diverged) => Ok(Diverging::Diverged),
                            Ok(Diverging::Value(ops)) => Ok(
                                Diverging::Value(
                                    MirRvalue::EnumVariantConstruction {
                                        enum_name,
                                        generic_args: dup_type_list(generic_args),
                                        variant_name: func.clone(),
                                        args: ops,
                                    },
                                ),
                            ),
                        };
                    }
                }
                if *is_method {
                    if args.len() == 0 {
                        return Err("method call requires a receiver".to_string());
                    }
                    return match self.build_args(args, shared) {
                        Err(m) => Err(m),
                        Ok(Diverging::Diverged) => Ok(Diverging::Diverged),
                        Ok(Diverging::Value(ops)) => {
                            let mut rest = ops;
                            proof {
                                lemma_mir_operand_views(ops@);
                            }
                            let receiver = rest.remove(0);
                            proof {
                                lemma_mir_operand_views(rest@);
                                assert(mir_operand_views(rest@) =~= mir_operand_views(
                                    ops@,
                                ).skip(1));
                            }
                            Ok(
                                Diverging::Value(
                                    MirRvalue::MethodCall {
                                        receiver,
                                        method: func.clone(),
                                        args: rest,
                                        generic_args: dup_type_list(generic_args),
                                    },
                                ),
                            )
                        },
                    };
                }
                if let Some(name) = shared.try_resolve_constant_ref(
                    qualifier,
                    func,
                    *is_method,
                    args.len(),
                ) {
                    return Ok(Diverging::Value(use_static(name)));
                }
                let diverges: bool = e.ty.is_never();
                let id = match shared.resolve_intrinsic_call(
                    qualifier,
                    func,
                    self.in_forward,
                    self.in_unsafe,
                    diverges,
                ) {
                    Err(m) => {
                        return Err(m);
                    },
                    Ok(id) => id,
                };
                let name = full_name_of(qualifier, func);
                let ops = match self.build_args(args, shared) {
                    Err(m) => {
                        return Err(m);
                    },
                    Ok(Diverging::Diverged) => {
                        return Ok(Diverging::Diverged);
                    },
                    Ok(Diverging::Value(ops)) => ops,
                };
                let rv = MirRvalue::Call {
                    func: name,
                    args: ops,
                    is_intrinsic: id.is_some(),
                    intrinsic_name: id,
                    generic_args: dup_type_list(generic_args),
                };
                if diverges {
                    let stmt = MirStmt::ExprStmt(rv);
                    assert(stmt.model() == MirStmtView::ExprStmt(rv.model()));
                    self.push_stmt(stmt);
                    self.set_terminator(MirTerminator::Unreachable);
                    return Ok(Diverging::Diverged);
                }
                Ok(Diverging::Value(rv))
            },
            _ => Err(String::new()),
        }
    }

    /// The end of a branch.
    #[verifier::spinoff_prover]
    pub(crate) fn end_branch(
        &mut self,
        dest: usize,
        op: MirOperand,
        branch: usize,
        end: usize,
        joins: &mut Vec<(usize, SsaLocal)>,
    ) -> (r: bool)
        requires
            old(self).wf(),
            dest < old(self).locals@.len(),
            end < old(self).blocks@.len(),
            operand_known(op, *old(self)),
            joins_in(old(joins)@, old(self).locals@.len()),
        ensures
            ({
                let want = join_branch(
                    old(self).model(),
                    dest,
                    op.model(),
                    branch,
                    end,
                    old(joins)@,
                );
                if r {
                    &&& grew(*old(self), *final(self))
                    &&& !final(self).model().pending()
                    &&& want == Some((final(self).model(), final(joins)@))
                    &&& joins_in(final(joins)@, final(self).locals@.len())
                } else {
                    want is None && final(self).loop_stack@ == old(self).loop_stack@
                }
            }),
    {
        let value = MirRvalue::Use(op);
        assert(value.model() == MirRvalueView::Use(op.model()));
        match self.define(dest, value) {
            None => false,
            Some(s) => {
                joins.push((branch, s));
                self.goto_if_pending(end);
                true
            },
        }
    }

    /// The value where branches join, in a block that was not there at `start`.
    #[verifier::spinoff_prover]
    pub(crate) fn join_branches(
        &mut self,
        dest: usize,
        end: usize,
        joins: &Vec<(usize, SsaLocal)>,
        Ghost(start): Ghost<MirBuilder>,
    ) -> (r: Result<Diverging<MirRvalue>, String>)
        requires
            start.wf(),
            grew(start, *old(self)),
            dest < old(self).locals@.len(),
            start.blocks@.len() <= end < old(self).blocks@.len(),
            old(self).model().blocks[end as int].terminator is Pending,
            !old(self).model().pending(),
            joins_in(joins@, old(self).locals@.len()),
        ensures
            rvalue_is(
                r,
                start,
                *final(self),
                join(old(self).model(), dest, end, joins@),
            ),
    {
        if joins.len() == 0 {
            return Ok(Diverging::Diverged);
        }
        self.switch_to_block(end);
        let value = MirRvalue::Phi { values: phi_operands(joins) };
        assert(value.model() == MirRvalueView::Phi { values: phi_values(joins@) });
        match self.define(dest, value) {
            None => Err(too_many()),
            Some(s) => Ok(Diverging::Value(use_ssa(s))),
        }
    }

    /// An `if`: two branches that join.
    #[verifier::spinoff_prover]
    #[verifier::rlimit(80)]
    fn build_if(&mut self, e: &HirExpr, shared: &SharedContext) -> (r: Result<
        Diverging<MirRvalue>,
        String,
    >)
        requires
            old(self).wf(),
            e.kind is If,
        ensures
            rvalue_is(
                r,
                *old(self),
                *final(self),
                lowering::if_value(shared.model(), old(self).model(), e.model()),
            ),
        decreases e, 0nat,
    {
        proof {
            reveal(if_value_rule);
            assert(lowering::if_value(shared.model(), self.model(), e.model()) == if_value_rule(
                shared.model(),
                self.model(),
                e.model(),
            ));
            assert(e.model().kind == e.kind.model());
        }
        match &e.kind {
            HirExprKind::If { kind, cond, then_expr, else_expr } => {
                let op = match self.build_expr(cond, shared) {
                    Err(m) => {
                        return Err(m);
                    },
                    Ok(Diverging::Diverged) => {
                        return Ok(Diverging::Diverged);
                    },
                    Ok(Diverging::Value(v)) => v,
                };
                let then_block: usize = self.new_block();
                let else_block: usize = self.new_block();
                let end: usize = self.new_block();
                self.set_terminator(MirTerminator::If { cond: op, then_block, else_block });
                let dest: usize = self.new_temp(e.ty.dup());
                let mut joins: Vec<(usize, SsaLocal)> = Vec::new();
                self.switch_to_block(then_block);
                let ghost b1 = self.model();
                match self.build_expr(then_expr, shared) {
                    Err(m) => {
                        return Err(m);
                    },
                    Ok(Diverging::Diverged) => {},
                    Ok(Diverging::Value(v)) => {
                        if !self.end_branch(dest, v, then_block, end, &mut joins) {
                            return Err(too_many());
                        }
                    },
                }
                proof {
                    lemma_kept_block(b1, self.model(), else_block as int);
                    lemma_kept_block(b1, self.model(), end as int);
                }
                self.switch_to_block(else_block);
                let ghost b2 = self.model();
                match else_expr {
                    Some(x) => match self.build_expr(x, shared) {
                        Err(m) => {
                            return Err(m);
                        },
                        Ok(Diverging::Diverged) => {},
                        Ok(Diverging::Value(v)) => {
                            if !self.end_branch(dest, v, else_block, end, &mut joins) {
                                return Err(too_many());
                            }
                        },
                    },
                    None => {
                        if !self.end_branch(dest, unit_operand(), else_block, end, &mut joins) {
                            return Err(too_many());
                        }
                    },
                }
                proof {
                    lemma_kept_block(b2, self.model(), end as int);
                }
                self.join_branches(dest, end, &joins, Ghost(*old(self)))
            },
            _ => Err(String::new()),
        }
    }

    /// Statements in a scope of their own.
    #[verifier::spinoff_prover]
    pub fn build_block(&mut self, b: &HirBlock, shared: &SharedContext) -> (r: Result<
        Diverging<Option<MirOperand>>,
        String,
    >)
        requires
            old(self).wf(),
        ensures
            block_is(
                r,
                *old(self),
                *final(self),
                lowering::block(shared.model(), old(self).model(), b.model()),
            ),
        decreases b, 1nat,
    {
        self.push_scope();
        assert(b.model().stmts == hir_stmt_views(b.stmts@));
        match self.build_stmts(&b.stmts, shared) {
            Err(m) => Err(m),
            Ok(d) => {
                proof {
                    let b1 = self.model();
                    lemma_drop_vars_keeps(b1, b1.vars.last(), b1.vars.last().len());
                }
                self.pop_scope();
                Ok(d)
            },
        }
    }

    /// A block in which what needs `unsafe` is allowed.
    #[verifier::spinoff_prover]
    fn build_unsafe_block(&mut self, b: &HirBlock, shared: &SharedContext) -> (r: Result<
        Diverging<Option<MirOperand>>,
        String,
    >)
        requires
            old(self).wf(),
        ensures
            block_is(
                r,
                *old(self),
                *final(self),
                lowering::unsafe_block(shared.model(), old(self).model(), b.model()),
            ),
        decreases b, 2nat,
    {
        let before: bool = self.in_unsafe;
        self.set_unsafe(true);
        let stmt = MirStmt::EffectCheck { effect: "unsafe".to_string() };
        assert(stmt.model() == MirStmtView::EffectCheck { effect: "unsafe"@ });
        self.push_stmt(stmt);
        match self.build_block(b, shared) {
            Err(m) => Err(m),
            Ok(d) => {
                self.set_unsafe(before);
                Ok(d)
            },
        }
    }

    /// Statements, up to one that diverges.
    #[verifier::spinoff_prover]
    fn build_stmts(&mut self, list: &Vec<HirStmt>, shared: &SharedContext) -> (r: Result<
        Diverging<Option<MirOperand>>,
        String,
    >)
        requires
            old(self).wf(),
        ensures
            block_is(
                r,
                *old(self),
                *final(self),
                lowering::stmts(
                    shared.model(),
                    old(self).model(),
                    hir_stmt_views(list@),
                    0,
                    None,
                ),
            ),
        decreases list@, 0nat,
    {
        let ghost c = shared.model();
        let ghost b0 = self.model();
        let ghost views = hir_stmt_views(list@);
        let mut last: Option<MirOperand> = None;
        let mut i: usize = 0;
        proof {
            lemma_hir_stmt_views(list@);
        }
        while i < list.len()
            invariant
                i <= list.len(),
                c == shared.model(),
                b0 == old(self).model(),
                grew(*old(self), *self),
                open_or_done(*old(self), *self, false),
                block_known(last, *self),
                views == hir_stmt_views(list@),
                views.len() == list@.len(),
                forall|k: int| 0 <= k < list@.len() ==> #[trigger] views[k] == list@[k].model(),
                lowering::stmts(c, b0, views, 0, None) == lowering::stmts(
                    c,
                    self.model(),
                    views,
                    i as nat,
                    match last {
                        Some(v) => Some(v.model()),
                        None => None,
                    },
                ),
            decreases list.len() - i,
        {
            assert(views[i as int] == list@[i as int].model());
            match self.build_stmt(&list[i], shared) {
                Err(m) => {
                    return Err(m);
                },
                Ok(Diverging::Diverged) => {
                    return Ok(Diverging::Diverged);
                },
                Ok(Diverging::Value(v)) => {
                    last = v;
                },
            }
            i = i + 1;
        }
        Ok(Diverging::Value(last))
    }

    /// A statement.
    #[verifier::spinoff_prover]
    #[verifier::rlimit(100)]
    pub fn build_stmt(&mut self, s: &HirStmt, shared: &SharedContext) -> (r: Result<
        Diverging<Option<MirOperand>>,
        String,
    >)
        requires
            old(self).wf(),
        ensures
            block_is(
                r,
                *old(self),
                *final(self),
                lowering::stmt(shared.model(), old(self).model(), s.model()),
            ),
        decreases s, 1nat,
    {
        proof {
            reveal(stmt_rule);
            assert(lowering::stmt(shared.model(), self.model(), s.model()) == stmt_rule(
                shared.model(),
                self.model(),
                s.model(),
            ));
        }
        match s {
            HirStmt::Let { name, ty, init, mutable, persist } => {
                let v = match self.build_expr(init, shared) {
                    Err(m) => {
                        return Err(m);
                    },
                    Ok(Diverging::Diverged) => {
                        return Ok(Diverging::Diverged);
                    },
                    Ok(Diverging::Value(v)) => v,
                };
                let local_ty: Type = match ty {
                    Some(t) => t.dup(),
                    None => init.ty.dup(),
                };
                assert(init.model().ty == init.ty.model());
                let id: usize = if *persist {
                    let local = MirLocal {
                        name: Some(name.clone()),
                        ty: local_ty,
                        mutable: *mutable,
                        kind: LocalKind::Persist,
                    };
                    self.add_local(local, false)
                } else {
                    self.new_local(name.clone(), local_ty, *mutable)
                };
                self.bind(name.clone(), id);
                let value = MirRvalue::Use(v);
                assert(value.model() == MirRvalueView::Use(v.model()));
                match self.define(id, value) {
                    None => Err(too_many()),
                    Some(_) => Ok(Diverging::Value(None)),
                }
            },
            HirStmt::Expr { expr } => match self.build_expr_rvalue(expr, shared) {
                Err(m) => Err(m),
                Ok(Diverging::Diverged) => Ok(Diverging::Diverged),
                Ok(Diverging::Value(v)) => {
                    let stmt = MirStmt::ExprStmt(v);
                    assert(stmt.model() == MirStmtView::ExprStmt(v.model()));
                    self.push_stmt(stmt);
                    Ok(Diverging::Value(None))
                },
            },
            HirStmt::Return { expr } => {
                let operand: Option<MirOperand> = match expr {
                    Some(x) => match self.build_expr(x, shared) {
                        Err(m) => {
                            return Err(m);
                        },
                        Ok(Diverging::Diverged) => {
                            return Ok(Diverging::Diverged);
                        },
                        Ok(Diverging::Value(v)) => Some(v),
                    },
                    None => None,
                };
                proof {
                    let b1 = self.model();
                    lemma_drop_scopes_keeps(b1, b1.vars.len(), 0);
                }
                self.emit_drops_for_scopes(0);
                self.set_terminator(MirTerminator::Return(operand));
                Ok(Diverging::Diverged)
            },
            HirStmt::Assign { target, expr } => self.build_assign(s, shared),
            HirStmt::While { cond, body } => {
                let cond_block: usize = self.new_block();
                let body_block: usize = self.new_block();
                let end: usize = self.new_block();
                self.set_terminator(MirTerminator::Goto(cond_block));
                self.switch_to_block(cond_block);
                let ghost b1 = self.model();
                let op = match self.build_expr(cond, shared) {
                    Err(m) => {
                        return Err(m);
                    },
                    Ok(Diverging::Diverged) => {
                        return Ok(Diverging::Diverged);
                    },
                    Ok(Diverging::Value(v)) => v,
                };
                self.set_terminator(
                    MirTerminator::If { cond: op, then_block: body_block, else_block: end },
                );
                proof {
                    lemma_kept_block(b1, self.model(), body_block as int);
                    lemma_kept_block(b1, self.model(), end as int);
                }
                self.switch_to_block(body_block);
                self.push_loop(end);
                let ghost b2 = self.model();
                let built = self.build_block(body, shared);
                self.pop_loop();
                assert(self.loop_stack@ =~= old(self).loop_stack@);
                if let Err(m) = built {
                    return Err(m);
                }
                self.goto_if_pending(cond_block);
                proof {
                    lemma_kept_block(b2, self.model(), end as int);
                }
                self.switch_to_block(end);
                Ok(Diverging::Value(None))
            },
            HirStmt::Loop { body } => {
                let body_block: usize = self.new_block();
                let end: usize = self.new_block();
                self.set_terminator(MirTerminator::Goto(body_block));
                self.switch_to_block(body_block);
                self.push_loop(end);
                let ghost b2 = self.model();
                let built = self.build_block(body, shared);
                self.pop_loop();
                assert(self.loop_stack@ =~= old(self).loop_stack@);
                if let Err(m) = built {
                    return Err(m);
                }
                self.goto_if_pending(body_block);
                proof {
                    lemma_kept_block(b2, self.model(), end as int);
                }
                self.switch_to_block(end);
                Ok(Diverging::Value(None))
            },
            HirStmt::Break => {
                if self.loop_stack.len() == 0 {
                    return Err(
                        "internal error: HirStmt::Break 出现在循环之外 (sema.rs 的检查应该已经拦住这种情况，走到这里说明两边检查不一致)".to_string(),
                    );
                }
                let ctx: LoopCtx = self.loop_stack[self.loop_stack.len() - 1];
                proof {
                    let b1 = self.model();
                    lemma_drop_scopes_keeps(b1, b1.vars.len(), ctx.scope_depth as nat);
                    lemma_loops(b1);
                    assert(b1.loops[b1.loops.len() - 1] == ctx);
                }
                self.emit_drops_for_scopes(ctx.scope_depth);
                self.set_terminator(MirTerminator::Goto(ctx.break_target));
                Ok(Diverging::Diverged)
            },
            HirStmt::For { var, iterable, body } => Err(
                "internal error: HirStmt::For 不该走到 mir_builder 这一层——elaborate.rs 应已在 MIR 构建之前将其展开成 loop + match".to_string(),
            ),
            HirStmt::UnsafeBlock { body } => self.build_unsafe_block(body, shared),
        }
    }

    /// An assignment: the place first, then the value.
    #[verifier::spinoff_prover]
    #[verifier::rlimit(30)]
    fn build_assign(&mut self, s: &HirStmt, shared: &SharedContext) -> (r: Result<
        Diverging<Option<MirOperand>>,
        String,
    >)
        requires
            old(self).wf(),
            s is Assign,
        ensures
            block_is(
                r,
                *old(self),
                *final(self),
                stmt_rule(shared.model(), old(self).model(), s.model()),
            ),
        decreases s, 0nat,
    {
        proof {
            reveal(stmt_rule);
        }
        let (target, e): (&HirExpr, &HirExpr) = match s {
            HirStmt::Assign { target, expr } => (target, expr),
            _ => {
                return Err(String::new());
            },
        };
        let place = match self.build_place(target, shared) {
            Err(m) => {
                return Err(m);
            },
            Ok(Diverging::Diverged) => {
                return Ok(Diverging::Diverged);
            },
            Ok(Diverging::Value(p)) => p,
        };
        let ghost b1 = self.model();
        let dest: MirPlace = match place {
            MirPlace::Ssa(s) => match self.new_version(s.base_id) {
                None => {
                    return Err(too_many());
                },
                Some(s1) => MirPlace::Ssa(s1),
            },
            other => other,
        };
        let ghost b2 = self.model();
        assert(forall|x: SsaLocal| #[trigger] is_ssa(dest, x) ==> fresh(b1, b2, x));
        match self.build_expr_rvalue(e, shared) {
            Err(m) => Err(m),
            Ok(Diverging::Diverged) => Ok(Diverging::Diverged),
            Ok(Diverging::Value(v)) => {
                let stmt = MirStmt::Assign { dest, value: v };
                assert(stmt.model() == MirStmtView::Assign {
                    dest: dest.model(),
                    value: v.model(),
                });
                proof {
                    assert forall|x: SsaLocal| #[trigger] assigns(stmt.model(), x) implies fresh(
                        b1,
                        b2,
                        x,
                    ) by {
                        assert(is_ssa(dest, x));
                    }
                    assert forall|x: SsaLocal| #[trigger] assigns(stmt.model(), x) implies !assigned(
                        self.model().blocks,
                        x,
                    ) && x.base_id < self.model().versions.len() && x.version
                        <= self.model().versions[x.base_id as int] by {
                        assert(fresh(b1, b2, x));
                        lemma_kept_version(b2, self.model(), x);
                    }
                    lemma_push_kept(b1, self.model(), stmt.model());
                }
                self.push_stmt(stmt);
                Ok(Diverging::Value(None))
            },
        }
    }
}

/// A variant without arguments.
fn bare_variant(enum_name: String, variant_name: String) -> (r: MirRvalue)
    ensures
        r.model() == (MirRvalueView::EnumVariantConstruction {
            enum_name: enum_name@,
            generic_args: Seq::empty(),
            variant_name: variant_name@,
            args: Seq::empty(),
        }),
{
    let generic_args: Vec<Type> = Vec::new();
    let args: Vec<MirOperand> = Vec::new();
    proof {
        lemma_type_views(generic_args@);
        assert(type_views(generic_args@) =~= Seq::empty());
        lemma_mir_operand_views(args@);
        assert(mir_operand_views(args@) =~= Seq::empty());
    }
    MirRvalue::EnumVariantConstruction { enum_name, generic_args, variant_name, args }
}

/// An array without elements.
fn empty_array() -> (r: MirRvalue)
    ensures
        r.model() == MirRvalueView::ArrayLiteral(Seq::empty()),
{
    let args: Vec<MirOperand> = Vec::new();
    proof {
        lemma_mir_operand_views(args@);
        assert(mir_operand_views(args@) =~= Seq::empty());
    }
    MirRvalue::ArrayLiteral(args)
}

/// The value of the last statement of a block, or the empty value.
#[verifier::spinoff_prover]
fn value_of_block(d: Result<Diverging<Option<MirOperand>>, String>) -> (r: Result<
    Diverging<MirRvalue>,
    String,
>)
    ensures
        match d {
            Err(e) => r matches Err(e1) && e1@ == e@,
            Ok(Diverging::Diverged) => r matches Ok(Diverging::Diverged),
            Ok(Diverging::Value(Some(op))) => r == Ok::<Diverging<MirRvalue>, String>(
                Diverging::Value(MirRvalue::Use(op)),
            ),
            Ok(Diverging::Value(None)) => {
                &&& r matches Ok(Diverging::Value(MirRvalue::Use(op)))
                &&& op is Constant
                &&& op.model() == MirOperandView::Constant(LiteralView::Unit)
            },
        },
{
    match d {
        Err(m) => Err(m),
        Ok(Diverging::Diverged) => Ok(Diverging::Diverged),
        Ok(Diverging::Value(Some(op))) => Ok(Diverging::Value(MirRvalue::Use(op))),
        Ok(Diverging::Value(None)) => Ok(Diverging::Value(MirRvalue::Use(unit_operand()))),
    }
}

} // verus!
