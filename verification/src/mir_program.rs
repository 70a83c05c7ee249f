//! Builds whole functions and programs in the middle representation.
use crate::ast::{dup_generic_param_list, dup_string_list, Type};
use crate::building::{sound, well_built};
use crate::hir::{
    hir_enum_views, hir_field_views, hir_fn_views, hir_impl_views, hir_model_views,
    hir_struct_views, hir_variant_views, HirEnum, HirField, HirFn, HirFnView, HirImplView,
    HirModelView, HirProgram, HirStruct, HirVariant, IntrinsicFn, lemma_hir_enum_views,
    lemma_hir_field_views, lemma_hir_fn_views, lemma_hir_impl_views, lemma_hir_model_views,
    lemma_hir_struct_views, lemma_hir_variant_views,
};
use crate::intrinsic::SharedContext;
use crate::lowering::{
    block_intrinsics, calls_intrinsic, Ctx, ctx_of, Diverging, enums_of, function, functions,
    impl_functions, intrinsic_of, intrinsics_used, model_functions, pairs, program_functions,
    stmt_intrinsics, structs_of, value_intrinsic, variant_pairs, with_params,
};
use crate::mir::{
    lemma_mir_block_views, lemma_mir_enum_push, lemma_mir_enum_views, lemma_mir_fn_push,
    lemma_mir_fn_views, lemma_mir_stmt_views, lemma_mir_struct_push, lemma_mir_struct_views,
    lemma_string_opt_type_push, lemma_string_opt_type_views, lemma_string_type_push,
    lemma_string_type_views, LocalKind, mir_block_views, mir_enum_views, mir_fn_views,
    mir_stmt_views, mir_struct_views, MirBlockView, MirBody, MirBodyView, MirEnum, MirFn, MirFnView,
    MirLocal, MirOperand, MirProgram, MirRvalue, MirStmt, MirStmtView, MirStruct, MirTerminator,
    string_opt_type_views, string_type_views,
};
use crate::state::MirBuilder;
use crate::text::Chars;
use vstd::prelude::*;

verus! {

/// The names and types of fields.
#[verifier::spinoff_prover]
fn pairs_of(list: &Vec<HirField>) -> (r: Vec<(String, Type)>)
    ensures
        string_type_views(r@) == pairs(hir_field_views(list@)),
{
    let ghost want = pairs(hir_field_views(list@));
    let mut out: Vec<(String, Type)> = Vec::new();
    proof {
        lemma_hir_field_views(list@);
        lemma_string_type_views(out@);
        assert(string_type_views(out@) =~= want.take(0));
    }
    let mut i: usize = 0;
    while i < list.len()
        invariant
            i <= list.len(),
            want == pairs(hir_field_views(list@)),
            want.len() == list@.len(),
            string_type_views(out@) == want.take(i as int),
        decreases list.len() - i,
    {
        let x: (String, Type) = (list[i].name.clone(), list[i].ty.dup());
        proof {
            lemma_hir_field_views(list@);
            lemma_string_type_push(out@, x);
            assert(hir_field_views(list@)[i as int] == list@[i as int].model());
            assert(want.take(i + 1) =~= want.take(i as int).push(want[i as int]));
        }
        out.push(x);
        i = i + 1;
    }
    assert(want.take(i as int) =~= want);
    out
}

/// The names and types of variants.
#[verifier::spinoff_prover]
fn variant_pairs_of(list: &Vec<HirVariant>) -> (r: Vec<(String, Option<Type>)>)
    ensures
        string_opt_type_views(r@) == variant_pairs(hir_variant_views(list@)),
{
    let ghost want = variant_pairs(hir_variant_views(list@));
    let mut out: Vec<(String, Option<Type>)> = Vec::new();
    proof {
        lemma_hir_variant_views(list@);
        lemma_string_opt_type_views(out@);
        assert(string_opt_type_views(out@) =~= want.take(0));
    }
    let mut i: usize = 0;
    while i < list.len()
        invariant
            i <= list.len(),
            want == variant_pairs(hir_variant_views(list@)),
            want.len() == list@.len(),
            string_opt_type_views(out@) == want.take(i as int),
        decreases list.len() - i,
    {
        let ty: Option<Type> = match &list[i].ty {
            Some(t) => Some(t.dup()),
            None => None,
        };
        let x: (String, Option<Type>) = (list[i].name.clone(), ty);
        proof {
            lemma_hir_variant_views(list@);
            lemma_string_opt_type_push(out@, x);
            assert(hir_variant_views(list@)[i as int] == list@[i as int].model());
            assert(want.take(i + 1) =~= want.take(i as int).push(want[i as int]));
        }
        out.push(x);
        i = i + 1;
    }
    assert(want.take(i as int) =~= want);
    out
}

/// The structures of a program.
#[verifier::spinoff_prover]
fn mir_structs(list: &Vec<HirStruct>) -> (r: Vec<MirStruct>)
    ensures
        mir_struct_views(r@) == structs_of(hir_struct_views(list@)),
{
    let ghost want = structs_of(hir_struct_views(list@));
    let mut out: Vec<MirStruct> = Vec::new();
    proof {
        lemma_hir_struct_views(list@);
        lemma_mir_struct_views(out@);
        assert(mir_struct_views(out@) =~= want.take(0));
    }
    let mut i: usize = 0;
    while i < list.len()
        invariant
            i <= list.len(),
            want == structs_of(hir_struct_views(list@)),
            want.len() == list@.len(),
            mir_struct_views(out@) == want.take(i as int),
        decreases list.len() - i,
    {
        let s = &list[i];
        let x = MirStruct {
            name: s.name.clone(),
            generic_params: dup_generic_param_list(&s.generic_params),
            fields: pairs_of(&s.fields),
        };
        proof {
            lemma_hir_struct_views(list@);
            lemma_mir_struct_push(out@, x);
            assert(hir_struct_views(list@)[i as int] == list@[i as int].model());
            assert(want.take(i + 1) =~= want.take(i as int).push(want[i as int]));
        }
        out.push(x);
        i = i + 1;
    }
    assert(want.take(i as int) =~= want);
    out
}

/// The enumerations of a program.
#[verifier::spinoff_prover]
fn mir_enums(list: &Vec<HirEnum>) -> (r: Vec<MirEnum>)
    ensures
        mir_enum_views(r@) == enums_of(hir_enum_views(list@)),
{
    let ghost want = enums_of(hir_enum_views(list@));
    let mut out: Vec<MirEnum> = Vec::new();
    proof {
        lemma_hir_enum_views(list@);
        lemma_mir_enum_views(out@);
        assert(mir_enum_views(out@) =~= want.take(0));
    }
    let mut i: usize = 0;
    while i < list.len()
        invariant
            i <= list.len(),
            want == enums_of(hir_enum_views(list@)),
            want.len() == list@.len(),
            mir_enum_views(out@) == want.take(i as int),
        decreases list.len() - i,
    {
        let e = &list[i];
        let x = MirEnum {
            name: e.name.clone(),
            generic_params: dup_generic_param_list(&e.generic_params),
            variants: variant_pairs_of(&e.variants),
        };
        proof {
            lemma_hir_enum_views(list@);
            lemma_mir_enum_push(out@, x);
            assert(hir_enum_views(list@)[i as int] == list@[i as int].model());
            assert(want.take(i + 1) =~= want.take(i as int).push(want[i as int]));
        }
        out.push(x);
        i = i + 1;
    }
    assert(want.take(i as int) =~= want);
    out
}

/// The function that is built in that a value calls, if it calls one.
fn called_in(v: &MirRvalue) -> (r: Option<IntrinsicFn>)
    ensures
        r == value_intrinsic(v.model()),
{
    match v {
        MirRvalue::Call { func, args, is_intrinsic, intrinsic_name, generic_args } => {
            *intrinsic_name
        },
        _ => None,
    }
}

/// The function that is built in that a statement calls, if it calls one.
fn called_by(s: &MirStmt) -> (r: Option<IntrinsicFn>)
    ensures
        r == intrinsic_of(s.model()),
{
    match s {
        MirStmt::Assign { dest, value } => called_in(value),
        MirStmt::ExprStmt(value) => called_in(value),
        _ => None,
    }
}

/// Adds a function that is built in to a list that is in order, unless it is
/// there.
#[verifier::spinoff_prover]
fn insert_intrinsic(list: &mut Vec<IntrinsicFn>, id: IntrinsicFn)
    requires
        ordered(old(list)@),
    ensures
        ordered(final(list)@),
        forall|x: IntrinsicFn| #[trigger]
            final(list)@.contains(x) <==> old(list)@.contains(x) || x == id,
{
    let ghost before = list@;
    let mut i: usize = 0;
    while i < list.len() && list[i].0 < id.0
        invariant
            i <= list.len(),
            list@ == before,
            forall|k: int| 0 <= k < i ==> (#[trigger] before[k]).0 < id.0,
        decreases list.len() - i,
    {
        i = i + 1;
    }
    if i < list.len() && list[i].0 == id.0 {
        assert(before[i as int] == id);
        assert(before.contains(id));
        return;
    }
    list.insert(i, id);
    proof {
        let after = list@;
        assert(after == before.insert(i as int, id));
        assert(after[i as int] == id);
        assert forall|x: IntrinsicFn| #[trigger] after.contains(x) implies before.contains(x) || x
            == id by {
            let k = choose|k: int| 0 <= k < after.len() && after[k] == x;
            if k < i {
                assert(before[k] == x);
            } else if k > i {
                assert(before[k - 1] == x);
            }
        }
        assert forall|x: IntrinsicFn| before.contains(x) || x == id implies #[trigger] after.contains(
            x,
        ) by {
            if x != id {
                let k = choose|k: int| 0 <= k < before.len() && before[k] == x;
                if k < i {
                    assert(after[k] == x);
                } else {
                    assert(after[k + 1] == x);
                }
            }
        }
    }
}

/// Whether all functions are in order.
pub open spec fn all_well_built(fns: Seq<MirFnView>) -> bool {
    forall|k: int| 0 <= k < fns.len() ==> well_built(#[trigger] fns[k])
}

/// In order, without repetition.
pub open spec fn ordered(list: Seq<IntrinsicFn>) -> bool {
    forall|i: int, j: int| 0 <= i < j < list.len() ==> (#[trigger] list[i]).0 < (
    #[trigger] list[j]).0
}

/// A function that is built in is among those of the first statements just if one
/// of them calls it.
proof fn lemma_stmt_intrinsics(stmts: Seq<MirStmtView>, n: nat, id: IntrinsicFn)
    requires
        n <= stmts.len(),
    ensures
        stmt_intrinsics(stmts, n).contains(id) <==> exists|j: int|
            0 <= j < n && intrinsic_of(#[trigger] stmts[j]) == Some(id),
    decreases n,
{
    if n > 0 {
        let before = stmt_intrinsics(stmts, (n - 1) as nat);
        lemma_stmt_intrinsics(stmts, (n - 1) as nat, id);
        match intrinsic_of(stmts[n - 1]) {
            Some(x) => {
                let all = before.push(x);
                assert(all[before.len() as int] == x);
                if before.contains(id) {
                    let k = choose|k: int| 0 <= k < before.len() && before[k] == id;
                    assert(all[k] == id);
                }
                if all.contains(id) && x != id {
                    let k = choose|k: int| 0 <= k < all.len() && all[k] == id;
                    assert(before[k] == id);
                }
            },
            None => {},
        }
    }
}

/// A function that is built in is among those of the first blocks just if a
/// statement of one of them calls it.
proof fn lemma_block_intrinsics(blocks: Seq<MirBlockView>, n: nat, id: IntrinsicFn)
    requires
        n <= blocks.len(),
    ensures
        block_intrinsics(blocks, n).contains(id) <==> exists|i: int, j: int|
            0 <= i < n && 0 <= j < blocks[i].stmts.len() && intrinsic_of(
                #[trigger] blocks[i].stmts[j],
            ) == Some(id),
    decreases n,
{
    if n > 0 {
        let a = block_intrinsics(blocks, (n - 1) as nat);
        let stmts = blocks[n - 1].stmts;
        let b = stmt_intrinsics(stmts, stmts.len());
        lemma_block_intrinsics(blocks, (n - 1) as nat, id);
        lemma_stmt_intrinsics(stmts, stmts.len(), id);
        let all = a + b;
        if a.contains(id) {
            let k = choose|k: int| 0 <= k < a.len() && a[k] == id;
            assert(all[k] == id);
        }
        if b.contains(id) {
            let k = choose|k: int| 0 <= k < b.len() && b[k] == id;
            assert(all[a.len() + k] == id);
            let j = choose|j: int|
                0 <= j < stmts.len() && intrinsic_of(#[trigger] stmts[j]) == Some(id);
            assert(intrinsic_of(blocks[n - 1].stmts[j]) == Some(id));
        }
        if all.contains(id) {
            let k = choose|k: int| 0 <= k < all.len() && all[k] == id;
            if k < a.len() {
                assert(a[k] == id);
            } else {
                assert(b[k - a.len()] == id);
            }
        }
        if exists|i: int, j: int|
            0 <= i < n && 0 <= j < blocks[i].stmts.len() && intrinsic_of(
                #[trigger] blocks[i].stmts[j],
            ) == Some(id) {
            let (i, j) = choose|i: int, j: int|
                0 <= i < n && 0 <= j < blocks[i].stmts.len() && intrinsic_of(
                    #[trigger] blocks[i].stmts[j],
                ) == Some(id);
            if i == n - 1 {
                assert(intrinsic_of(stmts[j]) == Some(id));
                assert(b.contains(id));
            } else {
                assert(a.contains(id));
            }
            assert(all.contains(id));
        }
    }
}

impl MirBuilder {
    /// The functions that are built in that a body calls, in order.
    #[verifier::spinoff_prover]
    pub fn collect_intrinsics_in_body(body: &MirBody) -> (r: Vec<IntrinsicFn>)
        ensures
            r@ == block_intrinsics(body.model().blocks, body.model().blocks.len()),
    {
        let ghost blocks = mir_block_views(body.blocks@);
        let mut out: Vec<IntrinsicFn> = Vec::new();
        proof {
            lemma_mir_block_views(body.blocks@);
            assert(out@ =~= Seq::<IntrinsicFn>::empty());
        }
        let mut i: usize = 0;
        while i < body.blocks.len()
            invariant
                i <= body.blocks.len(),
                blocks == mir_block_views(body.blocks@),
                blocks.len() == body.blocks@.len(),
                out@ == block_intrinsics(blocks, i as nat),
            decreases body.blocks.len() - i,
        {
            let block = &body.blocks[i];
            let ghost stmts = mir_stmt_views(block.stmts@);
            let ghost before = out@;
            proof {
                lemma_mir_block_views(body.blocks@);
                lemma_mir_stmt_views(block.stmts@);
                assert(blocks[i as int] == body.blocks@[i as int].model());
                assert(blocks[i as int].stmts == stmts);
                assert(before + stmt_intrinsics(stmts, 0) =~= before);
            }
            let mut j: usize = 0;
            while j < block.stmts.len()
                invariant
                    j <= block.stmts.len(),
                    stmts == mir_stmt_views(block.stmts@),
                    stmts.len() == block.stmts@.len(),
                    out@ == before + stmt_intrinsics(stmts, j as nat),
                decreases block.stmts.len() - j,
            {
                proof {
                    lemma_mir_stmt_views(block.stmts@);
                    assert(stmts[j as int] == block.stmts@[j as int].model());
                }
                if let Some(id) = called_by(&block.stmts[j]) {
                    proof {
                        let s = stmt_intrinsics(stmts, j as nat);
                        assert((before + s).push(id) =~= before + s.push(id));
                    }
                    out.push(id);
                }
                j = j + 1;
            }
            i = i + 1;
        }
        out
    }

    /// A function.
    #[verifier::spinoff_prover]
    #[verifier::rlimit(30)]
    pub fn build_fn(f: &HirFn, shared: &SharedContext) -> (r: Result<MirFn, String>)
        ensures
            match r {
                Ok(g) => {
                    &&& function(shared.model(), f.model()) == Ok::<MirFnView, Chars>(g.model())
                    &&& well_built(g.model())
                },
                Err(e) => function(shared.model(), f.model()) == Err::<MirFnView, Chars>(e@),
            },
    {
        let mut b = MirBuilder::new(f.is_forward);
        let ghost b0 = b.model();
        let ghost params = hir_field_views(f.params@);
        proof {
            lemma_hir_field_views(f.params@);
        }
        let mut i: usize = 0;
        while i < f.params.len()
            invariant
                i <= f.params.len(),
                b.wf(),
                params == hir_field_views(f.params@),
                params.len() == f.params@.len(),
                with_params(b0, params, 0) == with_params(b.model(), params, i as nat),
            decreases f.params.len() - i,
        {
            let p = &f.params[i];
            proof {
                lemma_hir_field_views(f.params@);
                assert(params[i as int] == f.params@[i as int].model());
            }
            let local = MirLocal {
                name: Some(p.name.clone()),
                ty: p.ty.dup(),
                mutable: false,
                kind: LocalKind::Param,
            };
            let id: usize = b.add_local(local, false);
            b.bind(p.name.clone(), id);
            i = i + 1;
        }
        assert(f.model().body == f.body.model());
        let ret: Option<MirOperand> = match b.build_block(&f.body, shared) {
            Err(m) => {
                return Err(m);
            },
            Ok(Diverging::Value(v)) => v,
            Ok(Diverging::Diverged) => None,
        };
        if b.current_terminator_is_placeholder() {
            b.set_terminator(MirTerminator::Return(ret));
        }
        let params_out = pairs_of(&f.params);
        let effect_set = dup_string_list(&f.effects);
        let generic_params = dup_generic_param_list(&f.generic_params);
        let ghost end = b.model();
        proof {
            reveal(sound);
        }
        let body = MirBody { locals: b.locals, blocks: b.blocks };
        assert(body.model() == MirBodyView { locals: end.locals, blocks: end.blocks });
        Ok(
            MirFn {
                name: f.name.clone(),
                generic_params,
                params: params_out,
                return_type: f.return_type.dup(),
                body,
                effect_set,
            },
        )
    }

    /// Adds the functions of a list to those that are done.
    #[verifier::spinoff_prover]
    fn build_fns(done: Vec<MirFn>, list: &Vec<HirFn>, shared: &SharedContext) -> (r: Result<
        Vec<MirFn>,
        String,
    >)
        requires
            all_well_built(mir_fn_views(done@)),
        ensures
            ({
                let views = hir_fn_views(list@);
                let want = functions(shared.model(), mir_fn_views(done@), views, views.len());
                match r {
                    Ok(out) => {
                        &&& want == Ok::<Seq<MirFnView>, Chars>(mir_fn_views(out@))
                        &&& all_well_built(mir_fn_views(out@))
                    },
                    Err(e) => want == Err::<Seq<MirFnView>, Chars>(e@),
                }
            }),
    {
        let ghost c = shared.model();
        let ghost start = mir_fn_views(done@);
        let ghost views = hir_fn_views(list@);
        proof {
            lemma_hir_fn_views(list@);
        }
        let mut out: Vec<MirFn> = done;
        let mut i: usize = 0;
        while i < list.len()
            invariant
                i <= list.len(),
                c == shared.model(),
                start == mir_fn_views(done@),
                all_well_built(mir_fn_views(out@)),
                views == hir_fn_views(list@),
                views.len() == list@.len(),
                functions(c, start, views, i as nat) == Ok::<Seq<MirFnView>, Chars>(
                    mir_fn_views(out@),
                ),
            decreases list.len() - i,
        {
            proof {
                lemma_hir_fn_views(list@);
                assert(views[i as int] == list@[i as int].model());
            }
            match Self::build_fn(&list[i], shared) {
                Err(m) => {
                    proof {
                        lemma_functions_fail(c, start, views, i as nat, m@, views.len());
                    }
                    return Err(m);
                },
                Ok(f) => {
                    proof {
                        lemma_mir_fn_push(out@, f);
                    }
                    out.push(f);
                },
            }
            i = i + 1;
        }
        Ok(out)
    }

    /// A whole program: every function, structure and enumeration of it, and the
    /// functions that are built in that it calls.
    #[verifier::spinoff_prover]
    #[verifier::rlimit(30)]
    pub fn build(hir: &HirProgram) -> (r: Result<MirProgram, String>)
        ensures
            match r {
                Ok(p) => {
                    &&& program_functions(hir.model()) == Ok::<Seq<MirFnView>, Chars>(
                        p.model().fns,
                    )
                    &&& p.model().structs == structs_of(hir.model().structs)
                    &&& p.model().enums == enums_of(hir.model().enums)
                    &&& intrinsics_used(p.model().intrinsics_used, p.model().fns)
                    &&& all_well_built(p.model().fns)
                },
                Err(e) => program_functions(hir.model()) == Err::<Seq<MirFnView>, Chars>(e@),
            },
    {
        let shared = SharedContext::new(hir);
        let ghost c = shared.model();
        let ghost fn_views = hir_fn_views(hir.fns@);
        let ghost models = hir_model_views(hir.models@);
        let ghost impls = hir_impl_views(hir.impls@);
        let start: Vec<MirFn> = Vec::new();
        proof {
            lemma_mir_fn_views(start@);
            assert(mir_fn_views(start@) =~= Seq::empty());
            lemma_hir_model_views(hir.models@);
            lemma_hir_impl_views(hir.impls@);
        }
        let mut fns: Vec<MirFn> = match Self::build_fns(start, &hir.fns, &shared) {
            Err(m) => {
                return Err(m);
            },
            Ok(fns) => fns,
        };
        let ghost f1 = mir_fn_views(fns@);
        let mut i: usize = 0;
        while i < hir.models.len()
            invariant
                i <= hir.models.len(),
                c == shared.model(),
                c == ctx_of(hir.model()),
                models == hir_model_views(hir.models@),
                models.len() == hir.models@.len(),
                all_well_built(mir_fn_views(fns@)),
                functions(c, Seq::empty(), hir.model().fns, hir.model().fns.len()) == Ok::<
                    Seq<MirFnView>,
                    Chars,
                >(f1),
                model_functions(c, f1, models, i as nat) == Ok::<Seq<MirFnView>, Chars>(
                    mir_fn_views(fns@),
                ),
            decreases hir.models.len() - i,
        {
            proof {
                lemma_hir_model_views(hir.models@);
                assert(models[i as int] == hir.models@[i as int].model());
            }
            match Self::build_fns(fns, &hir.models[i].functions, &shared) {
                Err(m) => {
                    proof {
                        lemma_model_functions_fail(c, f1, models, i as nat, m@, models.len());
                        assert(hir.model().models == models);
                    }
                    return Err(m);
                },
                Ok(out) => {
                    fns = out;
                },
            }
            i = i + 1;
        }
        let ghost f2 = mir_fn_views(fns@);
        i = 0;
        while i < hir.impls.len()
            invariant
                i <= hir.impls.len(),
                c == shared.model(),
                c == ctx_of(hir.model()),
                models == hir_model_views(hir.models@),
                impls == hir_impl_views(hir.impls@),
                impls.len() == hir.impls@.len(),
                all_well_built(mir_fn_views(fns@)),
                functions(c, Seq::empty(), hir.model().fns, hir.model().fns.len()) == Ok::<
                    Seq<MirFnView>,
                    Chars,
                >(f1),
                model_functions(c, f1, models, models.len()) == Ok::<Seq<MirFnView>, Chars>(f2),
                impl_functions(c, f2, impls, i as nat) == Ok::<Seq<MirFnView>, Chars>(
                    mir_fn_views(fns@),
                ),
            decreases hir.impls.len() - i,
        {
            proof {
                lemma_hir_impl_views(hir.impls@);
                assert(impls[i as int] == hir.impls@[i as int].model());
            }
            match Self::build_fns(fns, &hir.impls[i].functions, &shared) {
                Err(m) => {
                    proof {
                        lemma_impl_functions_fail(c, f2, impls, i as nat, m@, impls.len());
                        assert(hir.model().models == models);
                        assert(hir.model().impls == impls);
                    }
                    return Err(m);
                },
                Ok(out) => {
                    fns = out;
                },
            }
            i = i + 1;
        }
        proof {
            assert(hir.model().models == models);
            assert(hir.model().impls == impls);
        }
        let used = Self::used_intrinsics(&fns);
        let structs = mir_structs(&hir.structs);
        let enums = mir_enums(&hir.enums);
        Ok(MirProgram { structs, enums, fns, intrinsics_used: used })
    }

    /// The functions that are built in that functions call, in order, without
    /// repetition.
    #[verifier::spinoff_prover]
    fn used_intrinsics(fns: &Vec<MirFn>) -> (r: Vec<IntrinsicFn>)
        ensures
            intrinsics_used(r@, mir_fn_views(fns@)),
    {
        let ghost views = mir_fn_views(fns@);
        let mut used: Vec<IntrinsicFn> = Vec::new();
        proof {
            lemma_mir_fn_views(fns@);
        }
        let mut i: usize = 0;
        while i < fns.len()
            invariant
                i <= fns.len(),
                views == mir_fn_views(fns@),
                views.len() == fns@.len(),
                ordered(used@),
                forall|id: IntrinsicFn| #[trigger]
                    used@.contains(id) <==> exists|k: int|
                        0 <= k < i && calls_intrinsic(#[trigger] views[k], id),
            decreases fns.len() - i,
        {
            let found = Self::collect_intrinsics_in_body(&fns[i].body);
            let ghost before = used@;
            let ghost f = views[i as int];
            proof {
                lemma_mir_fn_views(fns@);
                assert(f == fns@[i as int].model());
                assert(f.body == fns@[i as int].body.model());
            }
            let mut j: usize = 0;
            while j < found.len()
                invariant
                    j <= found.len(),
                    ordered(used@),
                    forall|id: IntrinsicFn| #[trigger]
                        used@.contains(id) <==> before.contains(id) || exists|k: int|
                            0 <= k < j && #[trigger] found@[k] == id,
                decreases found.len() - j,
            {
                let ghost prior = used@;
                insert_intrinsic(&mut used, found[j]);
                proof {
                    assert forall|id: IntrinsicFn| #[trigger]
                        used@.contains(id) <==> before.contains(id) || exists|k: int|
                            0 <= k < j + 1 && #[trigger] found@[k] == id by {
                        assert(used@.contains(id) <==> prior.contains(id) || id
                            == found@[j as int]);
                    }
                }
                j = j + 1;
            }
            proof {
                assert forall|id: IntrinsicFn| #[trigger]
                    used@.contains(id) <==> exists|k: int|
                        0 <= k < i + 1 && calls_intrinsic(#[trigger] views[k], id) by {
                    lemma_block_intrinsics(f.body.blocks, f.body.blocks.len(), id);
                    assert(found@.contains(id) <==> calls_intrinsic(f, id));
                    assert(used@.contains(id) <==> before.contains(id) || found@.contains(id));
                }
            }
            i = i + 1;
        }
        used
    }
}

/// Where a function of a list cannot be built, the list cannot be.
proof fn lemma_functions_fail(
    c: Ctx,
    done: Seq<MirFnView>,
    list: Seq<HirFnView>,
    i: nat,
    m: Chars,
    n: nat,
)
    requires
        i < n,
        functions(c, done, list, i) is Ok,
        function(c, list[i as int]) == Err::<MirFnView, Chars>(m),
    ensures
        functions(c, done, list, n) == Err::<Seq<MirFnView>, Chars>(m),
    decreases n,
{
    if n > i + 1 {
        lemma_functions_fail(c, done, list, i, m, (n - 1) as nat);
    }
}

/// Where a function of a model cannot be built, the models cannot be.
proof fn lemma_model_functions_fail(
    c: Ctx,
    done: Seq<MirFnView>,
    list: Seq<HirModelView>,
    i: nat,
    m: Chars,
    n: nat,
)
    requires
        i < n,
        model_functions(c, done, list, i) matches Ok(fs) && functions(
            c,
            fs,
            list[i as int].functions,
            list[i as int].functions.len(),
        ) == Err::<Seq<MirFnView>, Chars>(m),
    ensures
        model_functions(c, done, list, n) == Err::<Seq<MirFnView>, Chars>(m),
    decreases n,
{
    if n > i + 1 {
        lemma_model_functions_fail(c, done, list, i, m, (n - 1) as nat);
    }
}

/// Where a function of a type cannot be built, the types cannot be.
proof fn lemma_impl_functions_fail(
    c: Ctx,
    done: Seq<MirFnView>,
    list: Seq<HirImplView>,
    i: nat,
    m: Chars,
    n: nat,
)
    requires
        i < n,
        impl_functions(c, done, list, i) matches Ok(fs) && functions(
            c,
            fs,
            list[i as int].functions,
            list[i as int].functions.len(),
        ) == Err::<Seq<MirFnView>, Chars>(m),
    ensures
        impl_functions(c, done, list, n) == Err::<Seq<MirFnView>, Chars>(m),
    decreases n,
{
    if n > i + 1 {
        lemma_impl_functions_fail(c, done, list, i, m, (n - 1) as nat);
    }
}

} // verus!
