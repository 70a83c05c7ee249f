//! Builds the blocks of `match`.
use crate::lowering;
use crate::ast::{
    lemma_opt_string_views, lemma_string_string_views, lemma_type_views, Literal, LiteralView,
    opt_string_views, Pattern, string_string_views, Type, type_views, TypeView,
};
use crate::building::{group_inside, group_kept, lemma_kept_block};
use crate::guide::{describe_pattern, int_literal_for_type};
use crate::hir::{hir_match_arm_views, HirExpr, HirExprKind, HirMatchArm, lemma_hir_match_arm_views};
use crate::intrinsic::SharedContext;
use crate::lowering::{
    bind_elements, bind_fields, bind_members, bind_part, bind_payload, bind_shape, Bs, cond_place,
    Diverging, empty_plan, match_enum_rule, match_scalar_rule, match_value_rule, one_arm_message,
    Plan, plan_enum, plan_scalar, shape_message, too_many_versions, variant_literal,
};
use crate::mir::{
    lemma_literal_usize_push, lemma_literal_usize_views, literal_usize_views, MirOperand,
    MirOperandView, MirPlace, MirPlaceView, MirRvalue, MirRvalueView, MirTerminator,
    MirTerminatorView, SsaLocal,
};
use crate::mir_builder::{bound_is, grew, joins_in, operand_known, place_known, rvalue_is};
use crate::state::{lemma_drop_vars_keeps, MirBuilder};
use crate::text::{Chars, decimal_of, join2, join3, join4, join5};
use vstd::prelude::*;

verus! {

broadcast use {group_inside, group_kept};

fn too_many() -> (r: String)
    ensures
        r@ == too_many_versions(),
{
    "too many versions of a local".to_string()
}

/// Whether a type has values of just one shape.
pub open spec fn one_shape(ty: TypeView) -> bool {
    ty is Struct || ty is Tuple || ty is Array
}

#[verifier::spinoff_prover]
fn one_arm_text(ty: &Type, n: usize) -> (r: String)
    requires
        one_shape(ty.model()),
    ensures
        r@ == one_arm_message(ty.model(), n as nat),
{
    let count = decimal_of(n);
    match ty {
        Type::Struct(name) => join5(
            "match 条件是结构体类型 `",
            name.as_str(),
            "`，结构体不是和类型，不支持多路分支——只能有唯一一条解构 arm，实际有 ",
            count.as_str(),
            " 条（这本该在 sema 的可达性检查里被拦下）",
        ),
        Type::Tuple(_) => join3(
            "match 条件是元组类型，元组不是和类型，不支持多路分支——只能有唯一一条解构 arm，实际有 ",
            count.as_str(),
            " 条",
        ),
        _ => join3(
            "match 条件是数组类型，数组不是和类型，不支持多路分支——只能有唯一一条解构 arm，实际有 ",
            count.as_str(),
            " 条",
        ),
    }
}

#[verifier::spinoff_prover]
fn shape_text(ty: &Type, p: &Pattern) -> (r: String)
    requires
        one_shape(ty.model()),
    ensures
        r@ == shape_message(ty.model(), p.model()),
{
    let shown = describe_pattern(p);
    match ty {
        Type::Struct(name) => join4(
            "match 条件是结构体类型 `",
            name.as_str(),
            "`，但这个 arm 的模式是 ",
            shown.as_str(),
        ),
        Type::Tuple(_) => join2("match 条件是元组类型，但这个 arm 的模式是 ", shown.as_str()),
        _ => join2("match 条件是数组类型，但这个 arm 的模式是 ", shown.as_str()),
    }
}

/// The place of the value of a `match`.
fn cond_place_of(s: SsaLocal) -> (r: MirPlace)
    ensures
        r.model() == MirPlaceView::Ssa(s),
{
    MirPlace::Ssa(s)
}

/// A constant of type `usize`.
fn usize_operand(i: usize) -> (r: MirOperand)
    ensures
        r.model() == MirOperandView::Constant(LiteralView::Usize(i)),
{
    let l = Literal::Usize(i);
    assert(l.model() == LiteralView::Usize(i));
    MirOperand::Constant(l)
}

/// What the arms of a `match` with several branches have come to.
struct Targets {
    targets: Vec<(Literal, usize)>,
    default: Option<usize>,
    blocks: Vec<usize>,
}

impl Targets {
    spec fn plan(self, b: MirBuilder) -> Plan {
        Plan {
            b: b.model(),
            targets: literal_usize_views(self.targets@),
            default: self.default,
            blocks: self.blocks@,
        }
    }

    /// The blocks of the first arms are there, behind the first `low` blocks, and
    /// none is finished.
    spec fn wf(self, b: MirBuilder, arms: nat, low: nat) -> bool {
        &&& self.blocks@.len() == arms
        &&& arm_blocks(b.model(), self.blocks@, 0, low)
        &&& forall|k: int|
            0 <= k < self.targets@.len() ==> (#[trigger] self.targets@[k]).1 < b.blocks@.len()
        &&& self.default matches Some(d) ==> d < b.blocks@.len()
    }

    #[verifier::spinoff_prover]
    fn new(b: &MirBuilder) -> (r: Self)
        ensures
            r.plan(*b) == empty_plan(b.model()),
            r.wf(*b, 0, b.blocks@.len()),
    {
        let r = Targets { targets: Vec::new(), default: None, blocks: Vec::new() };
        proof {
            lemma_literal_usize_views(r.targets@);
            assert(literal_usize_views(r.targets@) =~= Seq::empty());
            assert(r.blocks@ =~= Seq::empty());
        }
        r
    }

    #[verifier::spinoff_prover]
    fn with_target(&mut self, b: &mut MirBuilder, l: Literal, Ghost(low): Ghost<nat>)
        requires
            old(b).wf(),
            old(self).wf(*old(b), old(self).blocks@.len(), low),
            low <= old(b).blocks@.len(),
        ensures
            grew(*old(b), *final(b)),
            final(b).model().pending() == old(b).model().pending(),
            final(b).current_block == old(b).current_block,
            final(self).plan(*final(b)) == old(self).plan(*old(b)).with_target(l.model()),
            final(self).wf(*final(b), old(self).blocks@.len() + 1, low),
            final(b).locals@.len() == old(b).locals@.len(),
    {
        let ghost m0 = b.model();
        let block: usize = b.new_block();
        let pair: (Literal, usize) = (l, block);
        proof {
            lemma_literal_usize_push(self.targets@, pair);
            assert forall|k: int| 0 <= k < m0.blocks.len() implies #[trigger] b.model().blocks[k]
                == m0.blocks[k] by {}
        }
        self.targets.push(pair);
        self.blocks.push(block);
    }

    #[verifier::spinoff_prover]
    fn with_default(&mut self, b: &mut MirBuilder, Ghost(low): Ghost<nat>)
        requires
            old(b).wf(),
            old(self).wf(*old(b), old(self).blocks@.len(), low),
            low <= old(b).blocks@.len(),
        ensures
            grew(*old(b), *final(b)),
            final(b).model().pending() == old(b).model().pending(),
            final(b).current_block == old(b).current_block,
            final(self).plan(*final(b)) == old(self).plan(*old(b)).with_default(),
            final(self).wf(*final(b), old(self).blocks@.len() + 1, low),
            final(b).locals@.len() == old(b).locals@.len(),
    {
        let ghost m0 = b.model();
        let block: usize = b.new_block();
        proof {
            assert forall|k: int| 0 <= k < m0.blocks.len() implies #[trigger] b.model().blocks[k]
                == m0.blocks[k] by {}
        }
        self.default = Some(block);
        self.blocks.push(block);
    }

    /// Where to go for each value.
    #[verifier::spinoff_prover]
    proof fn lemma_jumps(self, b: MirBuilder, arms: nat, low: nat)
        requires
            self.wf(b, arms, low),
        ensures
            forall|k: int|
                0 <= k < literal_usize_views(self.targets@).len() ==> (
                #[trigger] literal_usize_views(self.targets@)[k]).1 < b.blocks@.len(),
    {
        lemma_literal_usize_views(self.targets@);
        assert forall|k: int| 0 <= k < literal_usize_views(self.targets@).len() implies (
        #[trigger] literal_usize_views(self.targets@)[k]).1 < b.blocks@.len() by {
            assert(self.targets@[k].1 < b.blocks@.len());
        }
    }
}

/// The blocks of the arms from the `i`-th on: in order, behind the first `low`
/// blocks, and not finished.
pub open spec fn arm_blocks(b: Bs, blocks: Seq<usize>, i: int, low: nat) -> bool {
    &&& forall|k: int, l: int|
        0 <= k < l < blocks.len() ==> (#[trigger] blocks[k]) < (#[trigger] blocks[l])
    &&& forall|k: int|
        0 <= k < blocks.len() ==> low <= (#[trigger] blocks[k]) < b.blocks.len()
    &&& forall|k: int|
        i <= k < blocks.len() ==> b.blocks[(#[trigger] blocks[k]) as int].terminator is Pending
}

impl MirBuilder {
    /// A `match`.
    #[verifier::spinoff_prover]
    #[verifier::rlimit(60)]
    pub fn build_match(&mut self, e: &HirExpr, shared: &SharedContext) -> (r: Result<
        Diverging<MirRvalue>,
        String,
    >)
        requires
            old(self).wf(),
            e.kind is Match,
        ensures
            rvalue_is(
                r,
                *old(self),
                *final(self),
                lowering::match_value(shared.model(), old(self).model(), e.model()),
            ),
        decreases e, 0nat,
    {
        proof {
            reveal(match_value_rule);
            assert(lowering::match_value(shared.model(), self.model(), e.model())
                == match_value_rule(shared.model(), self.model(), e.model()));
            assert(e.model().kind == e.kind.model());
        }
        match &e.kind {
            HirExprKind::Match { cond, arms } => {
                let op = match self.build_expr(cond, shared) {
                    Err(m) => {
                        return Err(m);
                    },
                    Ok(Diverging::Diverged) => {
                        return Ok(Diverging::Diverged);
                    },
                    Ok(Diverging::Value(v)) => v,
                };
                assert(cond.model().ty == cond.ty.model());
                let id: usize = self.new_held(cond.ty.dup());
                let value = MirRvalue::Use(op);
                assert(value.model() == MirRvalueView::Use(op.model()));
                if self.define(id, value).is_none() {
                    return Err(too_many());
                }
                match &cond.ty {
                    Type::Struct(_) => self.match_one(&cond.ty, id, arms, shared),
                    Type::Tuple(_) => self.match_one(&cond.ty, id, arms, shared),
                    Type::Array(_, _) => self.match_one(&cond.ty, id, arms, shared),
                    Type::Enum(name) => self.match_enum(name, id, arms, &e.ty, shared),
                    _ => self.match_scalar(&cond.ty, id, arms, &e.ty, shared),
                }
            },
            _ => Err(String::new()),
        }
    }

    /// A variable for a part of the value of a `match`.
    #[verifier::spinoff_prover]
    fn bind_part(&mut self, cond: usize, name: &String, ty: Type, part: MirPlace) -> (r: bool)
        requires
            old(self).wf(),
            cond < old(self).locals@.len(),
            place_known(part, *old(self)),
        ensures
            ({
                let want = bind_part(old(self).model(), cond, name@, ty.model(), part.model());
                if r {
                    &&& grew(*old(self), *final(self))
                    &&& final(self).model().pending() == old(self).model().pending()
                    &&& want == Some(final(self).model())
                } else {
                    want is None && final(self).loop_stack@ == old(self).loop_stack@
                }
            }),
    {
        let id: usize = self.new_local(name.clone(), ty, false);
        let op = MirOperand::Move(part);
        assert(op.model() == MirOperandView::Move(part.model()));
        let value = MirRvalue::Use(op);
        assert(value.model() == MirRvalueView::Use(op.model()));
        assert(place_known(part, *self));
        match self.define(id, value) {
            None => false,
            Some(_) => {
                self.bind(name.clone(), id);
                let s = self.current_ssa(cond);
                self.mark_moved(s);
                true
            },
        }
    }

    /// Variables for the fields of a structure.
    #[verifier::spinoff_prover]
    #[verifier::rlimit(30)]
    fn bind_struct_fields(
        &mut self,
        cond: usize,
        struct_name: &String,
        list: &Vec<(String, String)>,
        shared: &SharedContext,
    ) -> (r: Result<(), String>)
        requires
            old(self).wf(),
            cond < old(self).locals@.len(),
        ensures
            bound_is(
                r,
                *old(self),
                *final(self),
                bind_fields(
                    shared.model(),
                    old(self).model(),
                    cond,
                    struct_name@,
                    string_string_views(list@),
                    0,
                ),
            ),
    {
        let ghost c = shared.model();
        let ghost b0 = self.model();
        let ghost views = string_string_views(list@);
        proof {
            lemma_string_string_views(list@);
        }
        let mut i: usize = 0;
        while i < list.len()
            invariant
                i <= list.len(),
                c == shared.model(),
                b0 == old(self).model(),
                grew(*old(self), *self),
                self.model().pending() == old(self).model().pending(),
                cond < self.locals@.len(),
                views.len() == list@.len(),
                views == string_string_views(list@),
                forall|k: int|
                    0 <= k < list@.len() ==> #[trigger] views[k] == (list@[k].0@, list@[k].1@),
                bind_fields(c, b0, cond, struct_name@, views, 0) == bind_fields(
                    c,
                    self.model(),
                    cond,
                    struct_name@,
                    views,
                    i as nat,
                ),
            decreases list.len() - i,
        {
            assert(views[i as int] == (list@[i as int].0@, list@[i as int].1@));
            let ty = match shared.field_type(struct_name, &list[i].0) {
                None => {
                    return Err(
                        join5(
                            "struct `",
                            struct_name.as_str(),
                            "` has no field `",
                            list[i].0.as_str(),
                            "`",
                        ),
                    );
                },
                Some(ty) => ty,
            };
            let base = cond_place_of(self.current_ssa(cond));
            assert(place_known(base, *self));
            let part = MirPlace::Field { base: Box::new(base), field: list[i].0.clone() };
            assert(part.model() == MirPlaceView::Field {
                base: Box::new(cond_place(self.model(), cond)),
                field: list@[i as int].0@,
            });
            if !self.bind_part(cond, &list[i].1, ty, part) {
                return Err(too_many());
            }
            i = i + 1;
        }
        Ok(())
    }

    /// Variables for the members of a tuple.
    #[verifier::spinoff_prover]
    #[verifier::rlimit(30)]
    fn bind_tuple_members(
        &mut self,
        cond: usize,
        tys: &Vec<Type>,
        list: &Vec<Option<String>>,
    ) -> (r: Result<(), String>)
        requires
            old(self).wf(),
            cond < old(self).locals@.len(),
        ensures
            bound_is(
                r,
                *old(self),
                *final(self),
                bind_members(
                    old(self).model(),
                    cond,
                    type_views(tys@),
                    opt_string_views(list@),
                    0,
                ),
            ),
    {
        let ghost b0 = self.model();
        let ghost views = opt_string_views(list@);
        let ghost tviews = type_views(tys@);
        proof {
            lemma_opt_string_views(list@);
            lemma_type_views(tys@);
        }
        let mut i: usize = 0;
        while i < list.len()
            invariant
                i <= list.len(),
                b0 == old(self).model(),
                grew(*old(self), *self),
                self.model().pending() == old(self).model().pending(),
                cond < self.locals@.len(),
                views == opt_string_views(list@),
                views.len() == list@.len(),
                forall|k: int|
                    0 <= k < list@.len() ==> #[trigger] views[k] == (match list@[k] {
                        Some(y) => Some(y@),
                        None => None,
                    }),
                tviews == type_views(tys@),
                tviews.len() == tys@.len(),
                forall|k: int| 0 <= k < tys@.len() ==> #[trigger] tviews[k] == tys@[k].model(),
                bind_members(b0, cond, tviews, views, 0) == bind_members(
                    self.model(),
                    cond,
                    tviews,
                    views,
                    i as nat,
                ),
            decreases list.len() - i,
        {
            assert(views[i as int] == (match list@[i as int] {
                Some(y) => Some(y@),
                None => None,
            }));
            if let Some(name) = &list[i] {
                if i >= tys.len() {
                    return Err(
                        "tuple pattern has more bindings than the tuple type has elements".to_string(),
                    );
                }
                assert(tviews[i as int] == tys@[i as int].model());
                let base = cond_place_of(self.current_ssa(cond));
                assert(place_known(base, *self));
                let field = decimal_of(i);
                let part = MirPlace::Field { base: Box::new(base), field };
                assert(part.model() == MirPlaceView::Field {
                    base: Box::new(cond_place(self.model(), cond)),
                    field: field@,
                });
                if !self.bind_part(cond, name, tys[i].dup(), part) {
                    return Err(too_many());
                }
            }
            i = i + 1;
        }
        Ok(())
    }

    /// Variables for the elements of an array.
    #[verifier::spinoff_prover]
    #[verifier::rlimit(30)]
    fn bind_array_elements(&mut self, cond: usize, ty: &Type, list: &Vec<Option<String>>) -> (r:
        Result<(), String>)
        requires
            old(self).wf(),
            cond < old(self).locals@.len(),
        ensures
            bound_is(
                r,
                *old(self),
                *final(self),
                bind_elements(
                    old(self).model(),
                    cond,
                    ty.model(),
                    opt_string_views(list@),
                    0,
                ),
            ),
    {
        let ghost b0 = self.model();
        let ghost views = opt_string_views(list@);
        proof {
            lemma_opt_string_views(list@);
        }
        let mut i: usize = 0;
        while i < list.len()
            invariant
                i <= list.len(),
                b0 == old(self).model(),
                grew(*old(self), *self),
                self.model().pending() == old(self).model().pending(),
                cond < self.locals@.len(),
                views == opt_string_views(list@),
                views.len() == list@.len(),
                forall|k: int|
                    0 <= k < list@.len() ==> #[trigger] views[k] == (match list@[k] {
                        Some(y) => Some(y@),
                        None => None,
                    }),
                bind_elements(b0, cond, ty.model(), views, 0) == bind_elements(
                    self.model(),
                    cond,
                    ty.model(),
                    views,
                    i as nat,
                ),
            decreases list.len() - i,
        {
            assert(views[i as int] == (match list@[i as int] {
                Some(y) => Some(y@),
                None => None,
            }));
            if let Some(name) = &list[i] {
                let base = cond_place_of(self.current_ssa(cond));
                assert(place_known(base, *self));
                let index = usize_operand(i);
                assert(operand_known(index, *self));
                let part = MirPlace::Index { base: Box::new(base), index: Box::new(index) };
                assert(part.model() == MirPlaceView::Index {
                    base: Box::new(cond_place(self.model(), cond)),
                    index: Box::new(MirOperandView::Constant(LiteralView::Usize(i))),
                });
                if !self.bind_part(cond, name, ty.dup(), part) {
                    return Err(too_many());
                }
            }
            i = i + 1;
        }
        Ok(())
    }

    /// The variables of the one arm of a `match` on a value of one shape.
    #[verifier::spinoff_prover]
    fn bind_one_shape(&mut self, ty: &Type, cond: usize, p: &Pattern, shared: &SharedContext) -> (r:
        Result<(), String>)
        requires
            old(self).wf(),
            cond < old(self).locals@.len(),
            one_shape(ty.model()),
        ensures
            bound_is(
                r,
                *old(self),
                *final(self),
                bind_shape(shared.model(), old(self).model(), ty.model(), cond, p.model()),
            ),
    {
        match p {
            Pattern::Wildcard => Ok(()),
            Pattern::Struct { name, fields } => match ty {
                Type::Struct(struct_name) => self.bind_struct_fields(
                    cond,
                    struct_name,
                    fields,
                    shared,
                ),
                _ => Err(shape_text(ty, p)),
            },
            Pattern::Tuple(list) => match ty {
                Type::Tuple(tys) => self.bind_tuple_members(cond, tys, list),
                _ => Err(shape_text(ty, p)),
            },
            Pattern::Array(list) => match ty {
                Type::Array(elem, _) => self.bind_array_elements(cond, elem, list),
                _ => Err(shape_text(ty, p)),
            },
            _ => Err(shape_text(ty, p)),
        }
    }

    /// A `match` on a structure, a tuple or an array.
    #[verifier::spinoff_prover]
    #[verifier::rlimit(30)]
    fn match_one(
        &mut self,
        ty: &Type,
        cond: usize,
        arms: &Vec<HirMatchArm>,
        shared: &SharedContext,
    ) -> (r: Result<Diverging<MirRvalue>, String>)
        requires
            old(self).wf(),
            cond < old(self).locals@.len(),
            one_shape(ty.model()),
        ensures
            rvalue_is(
                r,
                *old(self),
                *final(self),
                lowering::match_one(
                    shared.model(),
                    old(self).model(),
                    ty.model(),
                    cond,
                    hir_match_arm_views(arms@),
                ),
            ),
        decreases arms@, 0nat,
    {
        proof {
            lemma_hir_match_arm_views(arms@);
        }
        if arms.len() != 1 {
            return Err(one_arm_text(ty, arms.len()));
        }
        let arm = &arms[0];
        assert(hir_match_arm_views(arms@)[0] == arms@[0].model());
        self.push_scope();
        if let Err(m) = self.bind_one_shape(ty, cond, &arm.pattern, shared) {
            return Err(m);
        }
        let d = match self.build_expr(&arm.expr, shared) {
            Err(m) => {
                return Err(m);
            },
            Ok(d) => d,
        };
        proof {
            let b1 = self.model();
            lemma_drop_vars_keeps(b1, b1.vars.last(), b1.vars.last().len());
        }
        self.pop_scope();
        match d {
            Diverging::Diverged => Ok(Diverging::Diverged),
            Diverging::Value(op) => Ok(Diverging::Value(MirRvalue::Use(op))),
        }
    }

    /// The literal by which a variant is chosen.
    fn variant_literal(&self, enum_name: &String, name: &String, shared: &SharedContext) -> (r:
        Result<Literal, String>)
        ensures
            ({
                let want = variant_literal(shared.model(), enum_name@, name@);
                match r {
                    Ok(l) => want == Ok::<LiteralView, Chars>(l.model()),
                    Err(e) => want == Err::<LiteralView, Chars>(e@),
                }
            }),
    {
        match shared.variant_index(enum_name, name) {
            None => Err(
                join4("unknown enum variant: ", enum_name.as_str(), "::", name.as_str()),
            ),
            Some(i) => Ok(Literal::Int64(i as i64)),
        }
    }

    /// A block for each arm on an enumeration.
    #[verifier::spinoff_prover]
    #[verifier::rlimit(50)]
    fn plan_enum_arms(&mut self, arms: &Vec<HirMatchArm>, shared: &SharedContext) -> (r: Result<
        Targets,
        String,
    >)
        requires
            old(self).wf(),
        ensures
            ({
                let want = plan_enum(
                    shared.model(),
                    empty_plan(old(self).model()),
                    hir_match_arm_views(arms@),
                    0,
                );
                match r {
                    Ok(t) => {
                        &&& grew(*old(self), *final(self))
                        &&& want == Ok::<Plan, Chars>(t.plan(*final(self)))
                        &&& final(self).model().pending() == old(self).model().pending()
                        &&& final(self).current_block == old(self).current_block
                        &&& t.wf(*final(self), arms@.len(), old(self).blocks@.len())
                        &&& final(self).locals@.len() == old(self).locals@.len()
                    },
                    Err(e) => {
                        &&& want == Err::<Plan, Chars>(e@)
                        &&& final(self).loop_stack@ == old(self).loop_stack@
                    },
                }
            }),
    {
        let ghost c = shared.model();
        let ghost b0 = self.model();
        let ghost views = hir_match_arm_views(arms@);
        proof {
            lemma_hir_match_arm_views(arms@);
        }
        let mut t = Targets::new(self);
        let mut i: usize = 0;
        while i < arms.len()
            invariant
                i <= arms.len(),
                c == shared.model(),
                b0 == old(self).model(),
                grew(*old(self), *self),
                self.locals@.len() == old(self).locals@.len(),
                views == hir_match_arm_views(arms@),
                views.len() == arms@.len(),
                forall|k: int| 0 <= k < arms@.len() ==> #[trigger] views[k] == arms@[k].model(),
                self.model().pending() == old(self).model().pending(),
                self.current_block == old(self).current_block,
                t.wf(*self, i as nat, old(self).blocks@.len()),
                plan_enum(c, empty_plan(b0), views, 0) == plan_enum(
                    c,
                    t.plan(*self),
                    views,
                    i as nat,
                ),
            decreases arms.len() - i,
        {
            assert(views[i as int] == arms@[i as int].model());
            match &arms[i].pattern {
                Pattern::EnumVariant { enum_name, variant_name } => {
                    match self.variant_literal(enum_name, variant_name, shared) {
                        Err(m) => {
                            return Err(m);
                        },
                        Ok(l) => {
                            t.with_target(self, l, Ghost(old(self).blocks@.len()));
                        },
                    }
                },
                Pattern::EnumVariantWithBinding { enum_name, variant_name, binding } => {
                    match self.variant_literal(enum_name, variant_name, shared) {
                        Err(m) => {
                            return Err(m);
                        },
                        Ok(l) => {
                            t.with_target(self, l, Ghost(old(self).blocks@.len()));
                        },
                    }
                },
                Pattern::Wildcard => {
                    t.with_default(self, Ghost(old(self).blocks@.len()));
                },
                other => {
                    let shown = describe_pattern(other);
                    return Err(
                        join3(
                            "match 条件是枚举类型，但这个 arm 的模式是 ",
                            shown.as_str(),
                            "——只能用 EnumVariant/EnumVariantWithBinding/Wildcard 匹配",
                        ),
                    );
                },
            }
            i = i + 1;
        }
        Ok(t)
    }

    /// A block for each arm on a scalar.
    #[verifier::spinoff_prover]
    #[verifier::rlimit(50)]
    fn plan_scalar_arms(&mut self, ty: &Type, arms: &Vec<HirMatchArm>) -> (r: Result<
        Targets,
        String,
    >)
        requires
            old(self).wf(),
        ensures
            ({
                let want = plan_scalar(
                    ty.model(),
                    empty_plan(old(self).model()),
                    hir_match_arm_views(arms@),
                    0,
                );
                match r {
                    Ok(t) => {
                        &&& grew(*old(self), *final(self))
                        &&& want == Ok::<Plan, Chars>(t.plan(*final(self)))
                        &&& final(self).model().pending() == old(self).model().pending()
                        &&& final(self).current_block == old(self).current_block
                        &&& t.wf(*final(self), arms@.len(), old(self).blocks@.len())
                        &&& final(self).locals@.len() == old(self).locals@.len()
                    },
                    Err(e) => {
                        &&& want == Err::<Plan, Chars>(e@)
                        &&& final(self).loop_stack@ == old(self).loop_stack@
                    },
                }
            }),
    {
        let ghost b0 = self.model();
        let ghost views = hir_match_arm_views(arms@);
        proof {
            lemma_hir_match_arm_views(arms@);
        }
        let mut t = Targets::new(self);
        let mut i: usize = 0;
        while i < arms.len()
            invariant
                i <= arms.len(),
                b0 == old(self).model(),
                grew(*old(self), *self),
                self.locals@.len() == old(self).locals@.len(),
                views == hir_match_arm_views(arms@),
                views.len() == arms@.len(),
                forall|k: int| 0 <= k < arms@.len() ==> #[trigger] views[k] == arms@[k].model(),
                self.model().pending() == old(self).model().pending(),
                self.current_block == old(self).current_block,
                t.wf(*self, i as nat, old(self).blocks@.len()),
                plan_scalar(ty.model(), empty_plan(b0), views, 0) == plan_scalar(
                    ty.model(),
                    t.plan(*self),
                    views,
                    i as nat,
                ),
            decreases arms.len() - i,
        {
            assert(views[i as int] == arms@[i as int].model());
            match &arms[i].pattern {
                Pattern::IntLiteral(v) => match int_literal_for_type(*v, ty) {
                    Err(m) => {
                        return Err(m);
                    },
                    Ok(l) => {
                        t.with_target(self, l, Ghost(old(self).blocks@.len()));
                    },
                },
                Pattern::BoolLiteral(v) => {
                    t.with_target(self, Literal::Bool(*v), Ghost(old(self).blocks@.len()));
                },
                Pattern::CharLiteral(v) => {
                    t.with_target(self, Literal::Char(*v), Ghost(old(self).blocks@.len()));
                },
                Pattern::Wildcard => {
                    t.with_default(self, Ghost(old(self).blocks@.len()));
                },
                other => {
                    let shown = describe_pattern(other);
                    return Err(
                        join3(
                            "match 条件是标量类型（整数/布尔/字符），但这个 arm 的模式是 ",
                            shown.as_str(),
                            "——只能用 IntLiteral/BoolLiteral/CharLiteral/Wildcard 匹配",
                        ),
                    );
                },
            }
            i = i + 1;
        }
        Ok(t)
    }

    /// The variable for the value of a variant, where the pattern gives it a name.
    #[verifier::spinoff_prover]
    #[verifier::rlimit(30)]
    fn bind_variant_payload(&mut self, cond: usize, p: &Pattern, shared: &SharedContext) -> (r:
        Result<(), String>)
        requires
            old(self).wf(),
            cond < old(self).locals@.len(),
        ensures
            bound_is(
                r,
                *old(self),
                *final(self),
                bind_payload(shared.model(), old(self).model(), cond, p.model()),
            ),
    {
        match p {
            Pattern::EnumVariantWithBinding { enum_name, variant_name, binding } => {
                let owner = match shared.sole_owner(variant_name) {
                    None => {
                        return Err(join2("unknown enum variant: ", variant_name.as_str()));
                    },
                    Some(owner) => owner,
                };
                let ty = match shared.variant_payload(&owner, variant_name) {
                    None => {
                        return Err(
                            join5(
                                "variant `",
                                variant_name.as_str(),
                                "` has no payload but pattern binds `",
                                binding.as_str(),
                                "`",
                            ),
                        );
                    },
                    Some(ty) => ty,
                };
                let base = cond_place_of(self.current_ssa(cond));
                assert(place_known(base, *self));
                let part = MirPlace::EnumPayload {
                    base: Box::new(base),
                    enum_name: owner,
                    variant_name: variant_name.clone(),
                };
                assert(part.model() == MirPlaceView::EnumPayload {
                    base: Box::new(cond_place(self.model(), cond)),
                    enum_name: owner@,
                    variant_name: variant_name@,
                });
                if self.bind_part(cond, binding, ty, part) {
                    Ok(())
                } else {
                    Err(too_many())
                }
            },
            _ => Ok(()),
        }
    }

    /// The bodies of the arms, each in its block.
    #[verifier::spinoff_prover]
    #[verifier::rlimit(60)]
    fn run_arms(
        &mut self,
        arms: &Vec<HirMatchArm>,
        blocks: &Vec<usize>,
        on_enum: bool,
        cond: usize,
        dest: usize,
        end: usize,
        shared: &SharedContext,
        Ghost(start): Ghost<MirBuilder>,
    ) -> (r: Result<Vec<(usize, SsaLocal)>, String>)
        requires
            start.wf(),
            grew(start, *old(self)),
            start.blocks@.len() <= end < old(self).blocks@.len(),
            arm_blocks(old(self).model(), blocks@, 0, end as nat + 1),
            old(self).model().blocks[end as int].terminator is Pending,
            !old(self).model().pending(),
            cond < old(self).locals@.len(),
            dest < old(self).locals@.len(),
            blocks@.len() == arms@.len(),
        ensures
            ({
                let want = lowering::run_arms(
                    shared.model(),
                    old(self).model(),
                    hir_match_arm_views(arms@),
                    blocks@,
                    0,
                    on_enum,
                    cond,
                    dest,
                    end,
                    Seq::empty(),
                );
                match r {
                    Ok(joins) => {
                        &&& grew(start, *final(self))
                        &&& final(self).locals@.len() >= old(self).locals@.len()
                        &&& end < final(self).blocks@.len()
                        &&& final(self).model().blocks[end as int].terminator is Pending
                        &&& !final(self).model().pending()
                        &&& want == Ok::<(Bs, Seq<(usize, SsaLocal)>), Chars>(
                            (final(self).model(), joins@),
                        )
                        &&& joins_in(joins@, final(self).locals@.len())
                    },
                    Err(e) => {
                        &&& want == Err::<(Bs, Seq<(usize, SsaLocal)>), Chars>(e@)
                        &&& final(self).loop_stack@ == start.loop_stack@
                    },
                }
            }),
        decreases arms@, 0nat,
    {
        let ghost c = shared.model();
        let ghost b0 = self.model();
        let ghost views = hir_match_arm_views(arms@);
        proof {
            lemma_hir_match_arm_views(arms@);
        }
        let mut joins: Vec<(usize, SsaLocal)> = Vec::new();
        let mut i: usize = 0;
        while i < arms.len()
            invariant
                i <= arms.len(),
                c == shared.model(),
                b0 == old(self).model(),
                start.wf(),
                grew(start, *self),
                self.locals@.len() >= old(self).locals@.len(),
                start.blocks@.len() <= end < self.blocks@.len(),
                arm_blocks(self.model(), blocks@, i as int, end as nat + 1),
                self.model().blocks[end as int].terminator is Pending,
                !self.model().pending(),
                cond < old(self).locals@.len(),
                dest < old(self).locals@.len(),
                blocks@.len() == arms@.len(),
                views == hir_match_arm_views(arms@),
                views.len() == arms@.len(),
                forall|k: int| 0 <= k < arms@.len() ==> #[trigger] views[k] == arms@[k].model(),
                lowering::run_arms(
                    c,
                    b0,
                    views,
                    blocks@,
                    0,
                    on_enum,
                    cond,
                    dest,
                    end,
                    Seq::empty(),
                ) == lowering::run_arms(
                    c,
                    self.model(),
                    views,
                    blocks@,
                    i as nat,
                    on_enum,
                    cond,
                    dest,
                    end,
                    joins@,
                ),
                joins_in(joins@, self.locals@.len()),
            decreases arms.len() - i,
        {
            assert(views[i as int] == arms@[i as int].model());
            let block: usize = blocks[i];
            self.switch_to_block(block);
            let ghost b1 = self.model();
            if on_enum {
                self.push_scope();
                if let Err(m) = self.bind_variant_payload(cond, &arms[i].pattern, shared) {
                    return Err(m);
                }
            }
            match self.build_expr(&arms[i].expr, shared) {
                Err(m) => {
                    return Err(m);
                },
                Ok(Diverging::Diverged) => {},
                Ok(Diverging::Value(op)) => {
                    if !self.end_branch(dest, op, block, end, &mut joins) {
                        return Err(too_many());
                    }
                },
            }
            if on_enum {
                proof {
                    let b1 = self.model();
                    lemma_drop_vars_keeps(b1, b1.vars.last(), b1.vars.last().len());
                }
                self.pop_scope();
            }
            proof {
                let b2 = self.model();
                lemma_kept_block(b1, b2, end as int);
                assert forall|k: int| i < k < blocks@.len() implies b2.blocks[(
                #[trigger] blocks@[k]) as int].terminator is Pending by {
                    assert(blocks@[i as int] < blocks@[k]);
                    lemma_kept_block(b1, b2, blocks@[k] as int);
                }
            }
            i = i + 1;
        }
        Ok(joins)
    }

    /// A `match` on an enumeration: a switch on the place of its variant.
    #[verifier::spinoff_prover]
    #[verifier::rlimit(60)]
    fn match_enum(
        &mut self,
        enum_name: &String,
        cond: usize,
        arms: &Vec<HirMatchArm>,
        ty: &Type,
        shared: &SharedContext,
    ) -> (r: Result<Diverging<MirRvalue>, String>)
        requires
            old(self).wf(),
            cond < old(self).locals@.len(),
        ensures
            rvalue_is(
                r,
                *old(self),
                *final(self),
                lowering::match_enum(
                    shared.model(),
                    old(self).model(),
                    enum_name@,
                    cond,
                    hir_match_arm_views(arms@),
                    ty.model(),
                ),
            ),
        decreases arms@, 1nat,
    {
        proof {
            reveal(match_enum_rule);
            let views = hir_match_arm_views(arms@);
            assert(lowering::match_enum(
                shared.model(),
                self.model(),
                enum_name@,
                cond,
                views,
                ty.model(),
            ) == match_enum_rule(
                shared.model(),
                self.model(),
                enum_name@,
                cond,
                views,
                ty.model(),
            ));
        }
        let cond_ssa = self.current_ssa(cond);
        let i64_ty = Type::I64;
        assert(i64_ty.model() == TypeView::I64);
        let disc: usize = self.new_temp(i64_ty);
        let read = MirOperand::Copy(cond_place_of(cond_ssa));
        assert(read.model() == MirOperandView::Copy(MirPlaceView::Ssa(cond_ssa)));
        let value = MirRvalue::Discriminant { value: read, enum_name: enum_name.clone() };
        assert(value.model() == MirRvalueView::Discriminant {
            value: read.model(),
            enum_name: enum_name@,
        });
        let disc_ssa = match self.define(disc, value) {
            None => {
                return Err(too_many());
            },
            Some(s) => s,
        };
        let end: usize = self.new_block();
        let dest: usize = self.new_temp(ty.dup());
        let ghost low = self.blocks@.len();
        let ghost b1 = self.model();
        let t = match self.plan_enum_arms(arms, shared) {
            Err(m) => {
                return Err(m);
            },
            Ok(t) => t,
        };
        let ghost planned = self.model();
        let default: usize = match t.default {
            Some(d) => d,
            None => self.new_block(),
        };
        let discr = crate::mir_builder::move_ssa(disc_ssa);
        let term = MirTerminator::Switch {
            discr,
            discr_ty: Type::I64,
            targets: t.targets,
            default,
        };
        assert(term.model() == MirTerminatorView::Switch {
            discr: discr.model(),
            discr_ty: TypeView::I64,
            targets: literal_usize_views(t.targets@),
            default,
        }) by {
            assert(Type::I64.model() == TypeView::I64);
        }
        proof {
            t.lemma_jumps(*self, arms@.len(), low);
        }
        self.set_terminator(term);
        proof {
            lemma_kept_block(b1, self.model(), end as int);
            assert forall|k: int| 0 <= k < t.blocks@.len() implies self.model().blocks[(
            #[trigger] t.blocks@[k]) as int].terminator is Pending by {
                assert(planned.blocks[t.blocks@[k] as int].terminator is Pending);
            }
        }
        let joins = match self.run_arms(arms, &t.blocks, true, cond, dest, end, shared, Ghost(*old(self))) {
            Err(m) => {
                return Err(m);
            },
            Ok(joins) => joins,
        };
        self.join_branches(dest, end, &joins, Ghost(*old(self)))
    }

    /// A `match` on an integer, a Boolean or a character.
    #[verifier::spinoff_prover]
    #[verifier::rlimit(60)]
    fn match_scalar(
        &mut self,
        cond_ty: &Type,
        cond: usize,
        arms: &Vec<HirMatchArm>,
        ty: &Type,
        shared: &SharedContext,
    ) -> (r: Result<Diverging<MirRvalue>, String>)
        requires
            old(self).wf(),
            cond < old(self).locals@.len(),
        ensures
            rvalue_is(
                r,
                *old(self),
                *final(self),
                lowering::match_scalar(
                    shared.model(),
                    old(self).model(),
                    cond_ty.model(),
                    cond,
                    hir_match_arm_views(arms@),
                    ty.model(),
                ),
            ),
        decreases arms@, 1nat,
    {
        proof {
            reveal(match_scalar_rule);
            let views = hir_match_arm_views(arms@);
            assert(lowering::match_scalar(
                shared.model(),
                self.model(),
                cond_ty.model(),
                cond,
                views,
                ty.model(),
            ) == match_scalar_rule(
                shared.model(),
                self.model(),
                cond_ty.model(),
                cond,
                views,
                ty.model(),
            ));
        }
        let cond_ssa = self.current_ssa(cond);
        let end: usize = self.new_block();
        let dest: usize = self.new_temp(ty.dup());
        let ghost low = self.blocks@.len();
        let ghost b1 = self.model();
        let t = match self.plan_scalar_arms(cond_ty, arms) {
            Err(m) => {
                return Err(m);
            },
            Ok(t) => t,
        };
        let ghost planned = self.model();
        let default: usize = match t.default {
            Some(d) => d,
            None => {
                return Err(
                    "match 条件是标量类型，但没有 Wildcard 兜底分支——标量字面量模式不可能自证穷尽，这应该在 sema 阶段就被拦下".to_string(),
                );
            },
        };
        let discr = MirOperand::Copy(cond_place_of(cond_ssa));
        assert(discr.model() == MirOperandView::Copy(MirPlaceView::Ssa(cond_ssa)));
        let discr_ty = cond_ty.dup();
        let term = MirTerminator::Switch { discr, discr_ty, targets: t.targets, default };
        assert(term.model() == MirTerminatorView::Switch {
            discr: discr.model(),
            discr_ty: cond_ty.model(),
            targets: literal_usize_views(t.targets@),
            default,
        });
        proof {
            t.lemma_jumps(*self, arms@.len(), low);
        }
        self.set_terminator(term);
        proof {
            lemma_kept_block(b1, self.model(), end as int);
            assert forall|k: int| 0 <= k < t.blocks@.len() implies self.model().blocks[(
            #[trigger] t.blocks@[k]) as int].terminator is Pending by {
                assert(planned.blocks[t.blocks@[k] as int].terminator is Pending);
            }
        }
        let joins = match self.run_arms(arms, &t.blocks, false, cond, dest, end, shared, Ghost(*old(self))) {
            Err(m) => {
                return Err(m);
            },
            Ok(joins) => joins,
        };
        self.join_branches(dest, end, &joins, Ghost(*old(self)))
    }
}

} // verus!
