//! What a program is made of when it is lowered: its variants, its functions, and where
//! their arguments are.
use crate::ast::{LiteralView, PatternView};
use crate::hir::{
    HirEnumView, HirFieldView, HirFnView, HirImplView, HirMatchArmView, HirModelView,
    HirProgramView, HirStructView,
};
use crate::lowering::{
    all_variants, Bs, Ctx, empty_plan, enum_variants, enums_of, functions, impl_functions,
    model_functions, Plan, plan_enum, program_functions, structs_of, variant_index, variant_literal,
    VariantView, with_params,
};
use crate::meaning::{Names, Scalar, scalar_of, slot, taken};
use crate::mir::{LocalKind, MirFnView, SsaLocal};
use crate::preservation::{agrees, sound, wildcard_is_last};
use crate::running::apart;
use crate::text::Chars;
use vstd::prelude::*;

verus! {

// Variants.

/// Whether the program has that variant, at that place of its enumeration.
pub open spec fn has_variant(vs: Seq<VariantView>, enum_name: Chars, name: Chars, k: int) -> bool {
    exists|j: int|
        0 <= j < vs.len() && (#[trigger] vs[j]).enum_name == enum_name && vs[j].name == name
            && vs[j].index == k
}

/// The variants of an enumeration are numbered in the order in which they are declared, and
/// keep their types.
pub proof fn variants_are_numbered_in_order(enums: Seq<HirEnumView>, n: nat, k: int, i: int)
    requires
        n <= enums.len(),
        0 <= k < n,
        0 <= i < enums[k].variants.len() <= usize::MAX,
    ensures
        exists|j: int|
            0 <= j < all_variants(enums, n).len() && #[trigger] all_variants(enums, n)[j] == (
            VariantView {
                enum_name: enums[k].name,
                name: enums[k].variants[i].name,
                index: i as usize,
                ty: enums[k].variants[i].ty,
            }),
    decreases n,
{
    let last = enums[n - 1];
    let before = all_variants(enums, (n - 1) as nat);
    let more = enum_variants(last, last.variants.len());
    let all = all_variants(enums, n);
    let v = VariantView {
        enum_name: enums[k].name,
        name: enums[k].variants[i].name,
        index: i as usize,
        ty: enums[k].variants[i].ty,
    };
    if k == n - 1 {
        assert(all[before.len() + i] == more[i]);
        assert(all[before.len() + i] == v);
    } else {
        variants_are_numbered_in_order(enums, (n - 1) as nat, k, i);
        let j = choose|j: int| 0 <= j < before.len() && #[trigger] before[j] == v;
        assert(all[j] == before[j]);
    }
}

/// Every variant is one of an enumeration that the program declares.
pub proof fn variants_are_declared(enums: Seq<HirEnumView>, n: nat, j: int)
    requires
        n <= enums.len(),
        0 <= j < all_variants(enums, n).len(),
    ensures
        exists|k: int, i: int|
            0 <= k < n && 0 <= i < enums[k].variants.len() && (#[trigger] enums[k].variants[i]).name
                == all_variants(enums, n)[j].name && enums[k].name == all_variants(enums, n)[j].enum_name
                && enums[k].variants[i].ty == all_variants(enums, n)[j].ty,
    decreases n,
{
    let last = enums[n - 1];
    let before = all_variants(enums, (n - 1) as nat);
    let more = enum_variants(last, last.variants.len());
    let all = all_variants(enums, n);
    if j < before.len() {
        assert(all[j] == before[j]);
        variants_are_declared(enums, (n - 1) as nat, j);
        let (k, i) = choose|k: int, i: int|
            0 <= k < n - 1 && 0 <= i < enums[k].variants.len() && (
            #[trigger] enums[k].variants[i]).name == before[j].name && enums[k].name
                == before[j].enum_name && enums[k].variants[i].ty == before[j].ty;
        assert(enums[k].variants[i].name == all[j].name);
    } else {
        let i = j - before.len();
        assert(all[j] == more[i]);
        assert(enums[n - 1].variants[i].name == all[j].name);
    }
}

proof fn lemma_variant_index(vs: Seq<VariantView>, n: nat, enum_name: Chars, name: Chars)
    requires
        n <= vs.len(),
    ensures
        match variant_index(vs, n, enum_name, name) {
            Some(i) => has_variant(vs, enum_name, name, i as int),
            None => forall|j: int|
                0 <= j < n ==> !((#[trigger] vs[j]).enum_name == enum_name && vs[j].name == name),
        },
    decreases n,
{
    if n > 0 {
        if vs[n - 1].enum_name == enum_name && vs[n - 1].name == name {
            assert(vs[n - 1].index == vs[n - 1].index as int);
        } else {
            lemma_variant_index(vs, (n - 1) as nat, enum_name, name);
        }
    }
}

/// Whether a pattern matches a value of the variant at place `k` of its enumeration.
pub open spec fn names_variant(c: Ctx, p: PatternView, k: int) -> bool {
    match p {
        PatternView::Wildcard => true,
        PatternView::EnumVariant { enum_name, variant_name } => has_variant(
            c.variants,
            enum_name,
            variant_name,
            k,
        ),
        PatternView::EnumVariantWithBinding { enum_name, variant_name, binding } => has_variant(
            c.variants,
            enum_name,
            variant_name,
            k,
        ),
        _ => false,
    }
}

/// The first arm from the `i`-th on whose pattern matches, or the number of arms.
pub open spec fn first_named(c: Ctx, arms: Seq<HirMatchArmView>, k: int, i: nat) -> nat
    decreases arms.len() - i,
{
    if i >= arms.len() {
        arms.len()
    } else if names_variant(c, arms[i as int].pattern, k) {
        i
    } else {
        first_named(c, arms, k, i + 1)
    }
}

/// Whether no two variants have the same enumeration and name, and places can be numbered.
pub open spec fn variants_differ(c: Ctx) -> bool {
    &&& forall|i: int, j: int|
        0 <= i < c.variants.len() && 0 <= j < c.variants.len() && (#[trigger] c.variants[i]).name
            == (#[trigger] c.variants[j]).name && c.variants[i].enum_name
            == c.variants[j].enum_name ==> i == j
    &&& forall|i: int| 0 <= i < c.variants.len() ==> (#[trigger] c.variants[i]).index <= i64::MAX
}

proof fn lemma_plan_enum(c: Ctx, plan: Plan, arms: Seq<HirMatchArmView>, i: nat, v: int)
    requires
        i <= arms.len(),
        plan.blocks.len() == i,
        variants_differ(c),
    ensures
        plan_enum(c, plan, arms, i) matches Ok(p) ==> {
            let n = plan.b.blocks.len();
            &&& p.b.blocks.len() == n + arms.len() - i
            &&& p.blocks.len() == arms.len()
            &&& forall|k: int| 0 <= k < i ==> #[trigger] p.blocks[k] == plan.blocks[k]
            &&& forall|k: int|
                i <= k < arms.len() ==> #[trigger] p.blocks[k] == (n + k - i) as usize
            &&& plan.targets.is_prefix_of(p.targets)
            &&& plan.default is None && wildcard_is_last(arms) ==> {
                let k = first_named(c, arms, v, i);
                &&& k < arms.len() ==> forall|d: usize|
                    p.default == None::<usize> || p.default == Some(d) ==> #[trigger] taken(
                        p.targets,
                        d,
                        Scalar::Int(v),
                        plan.targets.len(),
                    ) == p.blocks[k as int]
                &&& k == arms.len() ==> p.default is None && forall|d: usize|
                    #[trigger] taken(p.targets, d, Scalar::Int(v), plan.targets.len()) == d
            }
        },
    decreases arms.len() - i,
{
    assert(plan.targets.take(plan.targets.len() as int) =~= plan.targets);
    if i < arms.len() {
        match arms[i as int].pattern {
            PatternView::EnumVariant { enum_name, variant_name } => {
                if let Ok(l) = variant_literal(c, enum_name, variant_name) {
                    lemma_variant_literal(c, enum_name, variant_name, v);
                    lemma_plan_variant(c, plan, arms, i, v, l);
                }
            },
            PatternView::EnumVariantWithBinding { enum_name, variant_name, binding } => {
                if let Ok(l) = variant_literal(c, enum_name, variant_name) {
                    lemma_variant_literal(c, enum_name, variant_name, v);
                    lemma_plan_variant(c, plan, arms, i, v, l);
                }
            },
            PatternView::Wildcard => {
                let plan1 = plan.with_default();
                lemma_plan_enum(c, plan1, arms, i + 1, v);
                if let Ok(p) = plan_enum(c, plan1, arms, i + 1) {
                    assert(p.blocks[i as int] == plan1.blocks[i as int]);
                    assert forall|k: int| 0 <= k < i implies #[trigger] p.blocks[k]
                        == plan.blocks[k] by {
                        assert(plan1.blocks[k] == plan.blocks[k]);
                    }
                    if wildcard_is_last(arms) {
                        assert(i == arms.len() - 1);
                        assert(p == plan1);
                        assert(first_named(c, arms, v, i) == i);
                    }
                }
            },
            _ => {},
        }
    }
}

/// The literal of a variant is its place.
proof fn lemma_variant_literal(c: Ctx, enum_name: Chars, name: Chars, v: int)
    requires
        variants_differ(c),
    ensures
        variant_literal(c, enum_name, name) matches Ok(l) ==> (scalar_of(l) == Scalar::Int(v)
            <==> has_variant(c.variants, enum_name, name, v)),
{
    lemma_variant_index(c.variants, c.variants.len(), enum_name, name);
    if let Some(i) = variant_index(c.variants, c.variants.len(), enum_name, name) {
        let vs = c.variants;
        let j = choose|j: int|
            0 <= j < vs.len() && (#[trigger] vs[j]).enum_name == enum_name && vs[j].name == name
                && vs[j].index == i as int;
        assert(vs[j].index <= i64::MAX);
        if has_variant(vs, enum_name, name, v) {
            let l = choose|j: int|
                0 <= j < vs.len() && (#[trigger] vs[j]).enum_name == enum_name && vs[j].name == name
                    && vs[j].index == v;
            assert(vs[j].name == vs[l].name);
        }
    }
}

proof fn lemma_plan_variant(
    c: Ctx,
    plan: Plan,
    arms: Seq<HirMatchArmView>,
    i: nat,
    v: int,
    l: LiteralView,
)
    requires
        i < arms.len(),
        plan.blocks.len() == i,
        variants_differ(c),
        names_variant(c, arms[i as int].pattern, v) == (scalar_of(l) == Scalar::Int(v)),
        !(arms[i as int].pattern is Wildcard),
    ensures
        plan_enum(c, plan.with_target(l), arms, i + 1) matches Ok(p) ==> {
            let n = plan.b.blocks.len();
            &&& p.b.blocks.len() == n + arms.len() - i
            &&& p.blocks.len() == arms.len()
            &&& forall|k: int| 0 <= k < i ==> #[trigger] p.blocks[k] == plan.blocks[k]
            &&& forall|k: int|
                i <= k < arms.len() ==> #[trigger] p.blocks[k] == (n + k - i) as usize
            &&& plan.targets.is_prefix_of(p.targets)
            &&& plan.default is None && wildcard_is_last(arms) ==> {
                let k = first_named(c, arms, v, i);
                &&& k < arms.len() ==> forall|d: usize|
                    p.default == None::<usize> || p.default == Some(d) ==> #[trigger] taken(
                        p.targets,
                        d,
                        Scalar::Int(v),
                        plan.targets.len(),
                    ) == p.blocks[k as int]
                &&& k == arms.len() ==> p.default is None && forall|d: usize|
                    #[trigger] taken(p.targets, d, Scalar::Int(v), plan.targets.len()) == d
            }
        },
    decreases arms.len() - i, 0nat,
{
    let plan1 = plan.with_target(l);
    lemma_plan_enum(c, plan1, arms, i + 1, v);
    if let Ok(p) = plan_enum(c, plan1, arms, i + 1) {
        assert(p.blocks[i as int] == plan1.blocks[i as int]);
        assert forall|k: int| 0 <= k < i implies #[trigger] p.blocks[k] == plan.blocks[k] by {
            assert(plan1.blocks[k] == plan.blocks[k]);
        }
        let t = plan.targets.len() as int;
        assert(plan1.targets.is_prefix_of(p.targets));
        assert(p.targets[t] == plan1.targets[t]);
        assert(plan.targets =~= p.targets.take(t)) by {
            assert forall|k: int| 0 <= k < t implies plan.targets[k] == p.targets[k] by {
                assert(plan1.targets[k] == p.targets[k]);
            }
        }
        assert forall|d: usize| #[trigger]
            taken(p.targets, d, Scalar::Int(v), t as nat) == (if scalar_of(l) == Scalar::Int(v) {
                p.targets[t].1
            } else {
                taken(p.targets, d, Scalar::Int(v), (t + 1) as nat)
            }) by {}
    }
}

/// For a `match` on an enumeration, the switch goes, for a value of the variant at place `v`,
/// to the block of the first arm that names this variant or takes all, where nothing stands
/// behind an arm that takes all; and to the default where no arm matches.
pub proof fn switch_goes_to_the_first_arm_of_the_variant(
    c: Ctx,
    b: Bs,
    arms: Seq<HirMatchArmView>,
    v: int,
    default: usize,
)
    requires
        wildcard_is_last(arms),
        variants_differ(c),
        b.blocks.len() + arms.len() <= usize::MAX,
    ensures
        plan_enum(c, empty_plan(b), arms, 0) matches Ok(plan) ==> {
            let k = first_named(c, arms, v, 0);
            &&& plan.blocks.len() == arms.len()
            &&& forall|j: int, k: int|
                0 <= j < k < arms.len() ==> #[trigger] plan.blocks[j] != #[trigger] plan.blocks[k]
            &&& (plan.default is None || plan.default == Some(default)) && k < arms.len() ==> taken(
                plan.targets,
                default,
                Scalar::Int(v),
                0,
            ) == plan.blocks[k as int]
            &&& k == arms.len() ==> plan.default is None && taken(
                plan.targets,
                default,
                Scalar::Int(v),
                0,
            ) == default
        },
{
    lemma_plan_enum(c, empty_plan(b), arms, 0, v);
}

// Functions.

/// The functions of the first `n` models.
pub open spec fn models_sources(list: Seq<HirModelView>, n: nat) -> Seq<HirFnView>
    decreases n,
{
    if n == 0 {
        Seq::empty()
    } else {
        models_sources(list, (n - 1) as nat) + list[n - 1].functions
    }
}

/// The functions of the first `n` types.
pub open spec fn impls_sources(list: Seq<HirImplView>, n: nat) -> Seq<HirFnView>
    decreases n,
{
    if n == 0 {
        Seq::empty()
    } else {
        impls_sources(list, (n - 1) as nat) + list[n - 1].functions
    }
}

/// The functions of a program in order: the free ones, those of models, those of types.
pub open spec fn sources(hir: HirProgramView) -> Seq<HirFnView> {
    hir.fns + models_sources(hir.models, hir.models.len()) + impls_sources(
        hir.impls,
        hir.impls.len(),
    )
}

/// Whether a lowered function has the signature of its source.
pub open spec fn same_signature(f: MirFnView, h: HirFnView) -> bool {
    &&& f.name == h.name
    &&& f.generic_params == h.generic_params
    &&& f.return_type == h.return_type
    &&& f.effect_set == h.effects
    &&& f.params.len() == h.params.len()
    &&& forall|i: int|
        0 <= i < h.params.len() ==> (#[trigger] f.params[i]).0 == h.params[i].name && f.params[i].1
            == h.params[i].ty
}

/// Whether functions are those, each with its signature.
pub open spec fn same_signatures(fs: Seq<MirFnView>, hs: Seq<HirFnView>) -> bool {
    &&& fs.len() == hs.len()
    &&& forall|i: int| 0 <= i < hs.len() ==> same_signature(#[trigger] fs[i], hs[i])
}

proof fn lemma_functions(
    c: Ctx,
    done: Seq<MirFnView>,
    before: Seq<HirFnView>,
    list: Seq<HirFnView>,
    n: nat,
)
    requires
        n <= list.len(),
        same_signatures(done, before),
    ensures
        functions(c, done, list, n) matches Ok(fs) ==> same_signatures(
            fs,
            before + list.take(n as int),
        ),
    decreases n,
{
    if n == 0 {
        assert(before + list.take(0) =~= before);
    } else {
        lemma_functions(c, done, before, list, (n - 1) as nat);
        assert(before + list.take(n as int) =~= (before + list.take(n - 1)).push(list[n - 1]));
    }
}

proof fn lemma_models(c: Ctx, done: Seq<MirFnView>, before: Seq<HirFnView>, list: Seq<HirModelView>, n: nat)
    requires
        n <= list.len(),
        same_signatures(done, before),
    ensures
        model_functions(c, done, list, n) matches Ok(fs) ==> same_signatures(
            fs,
            before + models_sources(list, n),
        ),
    decreases n,
{
    if n == 0 {
        assert(before + models_sources(list, 0) =~= before);
    } else {
        lemma_models(c, done, before, list, (n - 1) as nat);
        let fns = list[n - 1].functions;
        let hs = before + models_sources(list, (n - 1) as nat);
        if let Ok(fs) = model_functions(c, done, list, (n - 1) as nat) {
            lemma_functions(c, fs, hs, fns, fns.len());
            assert(fns.take(fns.len() as int) =~= fns);
            assert(hs + fns =~= before + models_sources(list, n));
        }
    }
}

proof fn lemma_impls(c: Ctx, done: Seq<MirFnView>, before: Seq<HirFnView>, list: Seq<HirImplView>, n: nat)
    requires
        n <= list.len(),
        same_signatures(done, before),
    ensures
        impl_functions(c, done, list, n) matches Ok(fs) ==> same_signatures(
            fs,
            before + impls_sources(list, n),
        ),
    decreases n,
{
    if n == 0 {
        assert(before + impls_sources(list, 0) =~= before);
    } else {
        lemma_impls(c, done, before, list, (n - 1) as nat);
        let fns = list[n - 1].functions;
        let hs = before + impls_sources(list, (n - 1) as nat);
        if let Ok(fs) = impl_functions(c, done, list, (n - 1) as nat) {
            lemma_functions(c, fs, hs, fns, fns.len());
            assert(fns.take(fns.len() as int) =~= fns);
            assert(hs + fns =~= before + impls_sources(list, n));
        }
    }
}

/// Each function of a program is lowered once, in order, and keeps its name, parameters,
/// result and effects.
pub proof fn functions_keep_their_signatures(hir: HirProgramView)
    ensures
        program_functions(hir) matches Ok(fs) ==> same_signatures(fs, sources(hir)),
{
    let c = crate::lowering::ctx_of(hir);
    let none = Seq::<HirFnView>::empty();
    lemma_functions(c, Seq::empty(), none, hir.fns, hir.fns.len());
    assert(none + hir.fns.take(hir.fns.len() as int) =~= hir.fns);
    if let Ok(f1) = functions(c, Seq::empty(), hir.fns, hir.fns.len()) {
        lemma_models(c, f1, hir.fns, hir.models, hir.models.len());
        if let Ok(f2) = model_functions(c, f1, hir.models, hir.models.len()) {
            lemma_impls(
                c,
                f2,
                hir.fns + models_sources(hir.models, hir.models.len()),
                hir.impls,
                hir.impls.len(),
            );
        }
    }
}

/// Structures and enumerations keep their names, and their fields and variants with their
/// names and types, in order.
pub proof fn types_keep_their_parts(
    structs: Seq<HirStructView>,
    enums: Seq<HirEnumView>,
    i: int,
    j: int,
)
    ensures
        structs_of(structs).len() == structs.len(),
        enums_of(enums).len() == enums.len(),
        0 <= i < structs.len() ==> structs_of(structs)[i].name == structs[i].name
            && structs_of(structs)[i].generic_params == structs[i].generic_params
            && structs_of(structs)[i].fields.len() == structs[i].fields.len() && (0 <= j
            < structs[i].fields.len() ==> structs_of(structs)[i].fields[j].0
            == structs[i].fields[j].name && structs_of(structs)[i].fields[j].1
            == structs[i].fields[j].ty),
        0 <= i < enums.len() ==> enums_of(enums)[i].name == enums[i].name
            && enums_of(enums)[i].generic_params == enums[i].generic_params
            && enums_of(enums)[i].variants.len() == enums[i].variants.len() && (0 <= j
            < enums[i].variants.len() ==> enums_of(enums)[i].variants[j].0
            == enums[i].variants[j].name && enums_of(enums)[i].variants[j].1
            == enums[i].variants[j].ty),
{
}

// Arguments.

/// Whether the parameters up to the `i`-th are the first locals of a function and known by
/// their names.
spec fn params_placed(b: Bs, params: Seq<HirFieldView>, i: nat) -> bool {
    &&& b.locals.len() == i
    &&& b.versions.len() == i
    &&& b.blocks.len() == 1
    &&& b.cur == 0
    &&& b.blocks[0].stmts.len() == 0
    &&& b.blocks[0].terminator is Pending
    &&& b.scope.len() == 1
    &&& b.scope[0].len() == i
    &&& forall|k: int|
        0 <= k < i ==> (#[trigger] b.scope[0][k]) == (params[k].name, k as usize)
    &&& forall|k: int|
        0 <= k < i ==> (#[trigger] b.locals[k]).name == Some(params[k].name) && b.locals[k].ty
            == params[k].ty && b.locals[k].kind == LocalKind::Param
}

proof fn lemma_params(b: Bs, params: Seq<HirFieldView>, i: nat)
    requires
        i <= params.len() <= usize::MAX,
        params_placed(b, params, i),
    ensures
        params_placed(with_params(b, params, i), params, params.len()),
    decreases params.len() - i,
{
    if i < params.len() {
        let p = params[i as int];
        let id = b.next_local();
        let b1 = b.new_local(
            crate::mir::MirLocalView {
                name: Some(p.name),
                ty: p.ty,
                mutable: false,
                kind: LocalKind::Param,
            },
            false,
        ).bind(p.name, id);
        assert(b1.scope[0] == b.scope[0].push((p.name, id)));
        assert forall|k: int| 0 <= k < i + 1 implies (#[trigger] b1.scope[0][k]) == (
            params[k].name,
            k as usize,
        ) by {
            if k < i {
                assert(b.scope[0][k] == b1.scope[0][k]);
            }
        }
        assert forall|k: int| 0 <= k < i + 1 implies (#[trigger] b1.locals[k]).name == Some(
            params[k].name,
        ) && b1.locals[k].ty == params[k].ty && b1.locals[k].kind == LocalKind::Param by {
            if k < i {
                assert(b.locals[k] == b1.locals[k]);
            }
        }
        lemma_params(b1, params, i + 1);
    }
}

/// The names that a function starts with: its parameters with the arguments, and a scope for
/// its body.
pub open spec fn start_names<V>(params: Seq<HirFieldView>, values: Seq<V>) -> Names<V> {
    seq![Seq::new(params.len(), |k: int| (params[k].name, values[k])), Seq::empty()]
}

/// The parameters of a function are its first locals, in order: where these hold the
/// arguments, each parameter's name stands for its argument, and no two for the same local.
pub proof fn parameters_stand_for_the_arguments<V>(
    in_forward: bool,
    params: Seq<HirFieldView>,
    values: Seq<V>,
    store: Map<SsaLocal, V>,
)
    requires
        params.len() <= usize::MAX,
        values.len() == params.len(),
        forall|k: int|
            0 <= k < values.len() ==> store[SsaLocal { base_id: k as usize, version: 0 }]
                == #[trigger] values[k],
    ensures
        ({
            let b = with_params(Bs::start(in_forward).new_block(), params, 0).push_scope();
            &&& sound(b)
            &&& apart(b)
            &&& b.cur == 0
            &&& b.locals.len() == params.len()
            &&& agrees(false, b, store, start_names(params, values))
        }),
{
    let b0 = Bs::start(in_forward).new_block();
    assert(params_placed(b0, params, 0));
    lemma_params(b0, params, 0);
    let b1 = with_params(b0, params, 0);
    let b = b1.push_scope();
    let names = start_names(params, values);
    assert(b.scope[0] == b1.scope[0] && b.scope[1].len() == 0);
    assert(b.scope.len() == 2);
    assert forall|i: int, j: int| 0 <= i < b.scope.len() && 0 <= j < b.scope[i].len() implies (
    #[trigger] b.scope[i][j]).1 < b.locals.len() by {
        assert(i == 0);
        assert(b1.scope[0][j] == (params[j].name, j as usize));
    }
    assert forall|i: int, j: int| 0 <= i < names.len() && 0 <= j < names[i].len() implies (
    #[trigger] names[i][j]).0 == b.scope[i][j].0 && names[i][j].1 == store[slot(
        false,
        b.ssa(b.scope[i][j].1),
    )] by {
        assert(i == 0);
        assert(b1.scope[0][j] == (params[j].name, j as usize));
        assert(store[SsaLocal { base_id: j as usize, version: 0 }] == values[j]);
    }
    assert forall|i: int, j: int, k: int, l: int|
        0 <= i < b.scope.len() && 0 <= j < b.scope[i].len() && 0 <= k < b.scope.len() && 0 <= l
            < b.scope[k].len() && (i != k || j != l) implies (#[trigger] b.scope[i][j]).1 != (
    #[trigger] b.scope[k][l]).1 by {
        assert(i == 0 && k == 0);
        assert(b1.scope[0][j] == (params[j].name, j as usize));
        assert(b1.scope[0][l] == (params[l].name, l as usize));
    }
}

} // verus!
