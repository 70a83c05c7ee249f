//! The type checker: gives every expression of a program its type, as `typing`
//! says.
use crate::ast::{
    BinaryOp, Block, call_arg_views, CallArg, ConstDef, dup_generic_param_list,
    enum_variant_def_views, EnumVariantDef, Expr, expr_views, ExprKind, fn_def_views, FnDef,
    generic_param_views, GenericParam, IfKind, Item, item_views, ItemView, lemma_call_arg_views,
    lemma_enum_variant_def_views, lemma_expr_views, lemma_fn_def_views, lemma_generic_param_views,
    lemma_item_views, lemma_match_arm_views, lemma_opt_string_views, lemma_param_views,
    lemma_stmt_views, lemma_string_expr_views, lemma_string_push, lemma_string_string_views,
    lemma_string_views, lemma_type_push, lemma_type_views, Literal, match_arm_views, MatchArm,
    opt_string_views, Param, param_views, Pattern, Program, Stmt, stmt_views, string_expr_views,
    string_string_views, string_views, Type, type_views, TypeView, UnaryOp,
};
use crate::hir::{
    hir_call_arg_views, hir_enum_views, hir_expr_views, hir_field_views, hir_fn_views,
    hir_impl_views, hir_match_arm_views, hir_model_views, hir_stmt_views, hir_struct_views,
    hir_variant_views, HirBlock, HirBlockView, HirCallArg, HirCallArgView, HirEnum, HirExpr,
    HirExprKind, HirExprKindView, HirExprView, HirField, HirFn, HirFnView, HirImpl, HirMatchArm,
    HirMatchArmView, HirModel, HirProgram, HirProgramView, HirStmt, HirStmtView, HirStruct,
    HirVariant, intrinsic_decl_views, lemma_hir_call_arg_push, lemma_hir_call_arg_views,
    lemma_hir_enum_push, lemma_hir_enum_views, lemma_hir_expr_push, lemma_hir_expr_views,
    lemma_hir_field_push, lemma_hir_field_views, lemma_hir_fn_push, lemma_hir_fn_views,
    lemma_hir_impl_push, lemma_hir_impl_views, lemma_hir_match_arm_push, lemma_hir_match_arm_views,
    lemma_hir_model_push, lemma_hir_model_views, lemma_hir_stmt_push, lemma_hir_stmt_views,
    lemma_hir_struct_push, lemma_hir_struct_views, lemma_hir_variant_push, lemma_hir_variant_views,
    lemma_intrinsic_decl_views, lemma_string_hir_expr_push, lemma_string_hir_expr_views,
    string_hir_expr_views,
};
use crate::intrinsic::{qualifier_model, SharedContext};
use crate::lowering::field_type;
use crate::text::{Chars, decimal_of, join3, join4, join5};
use crate::typing::{
    all_inferred, all_pass, all_sigs, arg_types, Around, around_const, binary_type, bindings,
    call_type, declared, element_bindings, element_type, empty_program, enum_names, Env, env_after,
    field_bindings, fields_env, find_sig, fits, inferred, instance, is_castable, is_float,
    is_number, is_signed, joined, Known, known_of, literal_type, member_bindings, named_type,
    operator_type, owner_of, passes, resolved, result_type, sig_of, sigs_of, SigView, stmt_type,
    suits_variant, typed, typed_arg, typed_args, typed_arm, typed_arms, typed_block, typed_call,
    typed_elements, typed_fields, typed_fn, typed_fns, typed_if, typed_items, typed_iterable,
    typed_params, typed_program, typed_rule, typed_stmt, typed_stmt_rule, typed_stmts,
    typed_variant, typed_variant_def, typed_variant_defs, unary_type, var_type, with_value,
};
use vstd::prelude::*;

verus! {

/// Whether two types are the same.
#[verifier::spinoff_prover]
#[verifier::rlimit(60)]
pub fn same_type(a: &Type, b: &Type) -> (r: bool)
    ensures
        r == (a.model() == b.model()),
    decreases a,
{
    match (a, b) {
        (Type::I8, Type::I8) => true,
        (Type::I16, Type::I16) => true,
        (Type::I32, Type::I32) => true,
        (Type::I64, Type::I64) => true,
        (Type::I128, Type::I128) => true,
        (Type::ISize, Type::ISize) => true,
        (Type::U8, Type::U8) => true,
        (Type::U16, Type::U16) => true,
        (Type::U32, Type::U32) => true,
        (Type::U64, Type::U64) => true,
        (Type::U128, Type::U128) => true,
        (Type::USize, Type::USize) => true,
        (Type::F16, Type::F16) => true,
        (Type::F32, Type::F32) => true,
        (Type::F64, Type::F64) => true,
        (Type::Bool, Type::Bool) => true,
        (Type::Char, Type::Char) => true,
        (Type::Str, Type::Str) => true,
        (Type::Bytes, Type::Bytes) => true,
        (Type::Unit, Type::Unit) => true,
        (Type::Never, Type::Never) => true,
        (Type::SelfType, Type::SelfType) => true,
        (Type::Ref { mutable: m1, inner: i1 }, Type::Ref { mutable: m2, inner: i2 }) => {
            *m1 == *m2 && same_type(i1, i2)
        },
        (Type::Array(e1, n1), Type::Array(e2, n2)) => {
            n1.as_str().eq(n2.as_str()) && same_type(e1, e2)
        },
        (Type::Slice(e1), Type::Slice(e2)) => same_type(e1, e2),
        (Type::Tuple(l1), Type::Tuple(l2)) => same_types(l1, l2),
        (Type::Struct(n1), Type::Struct(n2)) => n1.as_str().eq(n2.as_str()),
        (Type::Enum(n1), Type::Enum(n2)) => n1.as_str().eq(n2.as_str()),
        (Type::Param(n1), Type::Param(n2)) => n1.as_str().eq(n2.as_str()),
        _ => false,
    }
}

/// Whether two lists of types are the same.
#[verifier::spinoff_prover]
fn same_types(a: &Vec<Type>, b: &Vec<Type>) -> (r: bool)
    ensures
        r == (type_views(a@) == type_views(b@)),
    decreases a,
{
    proof {
        lemma_type_views(a@);
        lemma_type_views(b@);
    }
    if a.len() != b.len() {
        return false;
    }
    let mut i: usize = 0;
    while i < a.len()
        invariant
            i <= a.len(),
            a.len() == b.len(),
            forall|k: int| 0 <= k < i ==> (#[trigger] a@[k]).model() == b@[k].model(),
        decreases a.len() - i,
    {
        if !same_type(&a[i], &b[i]) {
            proof {
                lemma_type_views(a@);
                lemma_type_views(b@);
                assert(type_views(a@)[i as int] == a@[i as int].model());
                assert(type_views(b@)[i as int] == b@[i as int].model());
            }
            return false;
        }
        i = i + 1;
    }
    assert(type_views(a@) =~= type_views(b@)) by {
        assert forall|k: int| 0 <= k < a@.len() implies type_views(a@)[k] == type_views(b@)[k] by {
            assert(a@[k].model() == b@[k].model());
        }
    }
    true
}

/// The type of a literal.
fn type_of_literal(l: &Literal) -> (r: Type)
    ensures
        r.model() == literal_type(l.model()),
{
    match l {
        Literal::Int8(_) => Type::I8,
        Literal::Int16(_) => Type::I16,
        Literal::Int32(_) => Type::I32,
        Literal::Int64(_) => Type::I64,
        Literal::Int128(_) => Type::I128,
        Literal::Isize(_) => Type::ISize,
        Literal::Uint8(_) => Type::U8,
        Literal::Uint16(_) => Type::U16,
        Literal::Uint32(_) => Type::U32,
        Literal::Uint64(_) => Type::U64,
        Literal::Uint128(_) => Type::U128,
        Literal::Usize(_) => Type::USize,
        Literal::Float(_) => Type::F64,
        Literal::Str(_) => Type::Str,
        Literal::Bool(_) => Type::Bool,
        Literal::Char(_) => Type::Char,
        Literal::Unit => Type::Unit,
    }
}


fn float(t: &Type) -> (r: bool)
    ensures
        r == is_float(t.model()),
{
    match t {
        Type::F16 | Type::F32 | Type::F64 => true,
        _ => false,
    }
}

fn signed(t: &Type) -> (r: bool)
    ensures
        r == is_signed(t.model()),
{
    match t {
        Type::I8 | Type::I16 | Type::I32 | Type::I64 | Type::I128 | Type::ISize => true,
        _ => float(t),
    }
}

fn number(t: &Type) -> (r: bool)
    ensures
        r == is_number(t.model()),
{
    match t {
        Type::U8 | Type::U16 | Type::U32 | Type::U64 | Type::U128 | Type::USize => true,
        _ => signed(t),
    }
}

/// Whether a value of one type may be converted to another.
#[verifier::spinoff_prover]
fn castable(t: &Type, to: &Type) -> (r: bool)
    ensures
        r == is_castable(t.model(), to.model()),
{
    if t.is_never() || same_type(t, to) {
        return true;
    }
    match t {
        Type::Bool | Type::Char => number(to),
        Type::U8 => match to {
            Type::Char => true,
            _ => number(to),
        },
        _ => number(t) && number(to),
    }
}

/// Whether a value of type `t` may stand where one of type `want` is asked for.
fn suits(t: &Type, want: &Type) -> (r: bool)
    ensures
        r == fits(t.model(), want.model()),
{
    t.is_never() || same_type(t, want)
}

/// The type of what two branches give.
fn join_types(a: &Type, b: &Type) -> (r: Type)
    ensures
        r.model() == joined(a.model(), b.model()),
{
    if a.is_never() {
        b.dup()
    } else if b.is_never() || same_type(a, b) {
        a.dup()
    } else {
        Type::Unit
    }
}

/// The type of an operator between two operands of one type, if it takes them.
#[verifier::spinoff_prover]
fn type_of_operator(op: BinaryOp, t: &Type) -> (r: Option<Type>)
    ensures
        opt_type(r) == operator_type(op, t.model()),
{
    match op {
        BinaryOp::Add | BinaryOp::Sub | BinaryOp::Mul | BinaryOp::Div | BinaryOp::Mod => if number(
            t,
        ) {
            Some(t.dup())
        } else {
            None
        },
        BinaryOp::Eq | BinaryOp::Neq => Some(Type::Bool),
        BinaryOp::Lt | BinaryOp::Gt | BinaryOp::Le | BinaryOp::Ge => match t {
            Type::Char => Some(Type::Bool),
            _ => if number(t) {
                Some(Type::Bool)
            } else {
                None
            },
        },
        BinaryOp::And | BinaryOp::Or => match t {
            Type::Bool => Some(Type::Bool),
            _ => None,
        },
    }
}

/// The type of an operator between two operands, if it takes them.
fn type_of_binary(op: BinaryOp, l: &Type, r: &Type) -> (t: Option<Type>)
    ensures
        opt_type(t) == binary_type(op, l.model(), r.model()),
{
    if l.is_never() {
        if r.is_never() {
            Some(Type::Never)
        } else {
            type_of_operator(op, r)
        }
    } else if r.is_never() || same_type(l, r) {
        type_of_operator(op, l)
    } else {
        None
    }
}

/// The type of an operator before its operand, if it takes it.
fn type_of_unary(op: UnaryOp, t: &Type) -> (r: Option<Type>)
    ensures
        opt_type(r) == unary_type(op, t.model()),
{
    if t.is_never() {
        return Some(Type::Never);
    }
    match op {
        UnaryOp::Not => match t {
            Type::Bool => Some(Type::Bool),
            _ => None,
        },
        UnaryOp::Neg => if signed(t) {
            Some(t.dup())
        } else {
            None
        },
    }
}

/// The name of the type whose functions a value has.
fn owner_name(t: &Type) -> (r: Option<String>)
    ensures
        qualifier_model(r) == owner_of(t.model()),
    decreases t,
{
    match t {
        Type::Struct(name) => Some(name.clone()),
        Type::Enum(name) => Some(name.clone()),
        Type::Ref { mutable, inner } => owner_name(inner),
        _ => None,
    }
}

/// The type of the elements of a value.
fn type_of_element(t: &Type) -> (r: Option<Type>)
    ensures
        opt_type(r) == element_type(t.model()),
    decreases t,
{
    match t {
        Type::Array(elem, n) => Some(elem.dup()),
        Type::Slice(elem) => Some(elem.dup()),
        Type::Ref { mutable, inner } => type_of_element(inner),
        _ => None,
    }
}

/// An optional type as a mathematical value.
pub open spec fn opt_type(t: Option<Type>) -> Option<TypeView> {
    match t {
        Some(x) => Some(x.model()),
        None => None,
    }
}

/// Whether a list holds a name.
#[verifier::spinoff_prover]
fn holds(list: &Vec<String>, name: &String) -> (r: bool)
    ensures
        r == string_views(list@).contains(name@),
{
    let ghost views = string_views(list@);
    proof {
        lemma_string_views(list@);
    }
    let mut i: usize = 0;
    while i < list.len()
        invariant
            i <= list.len(),
            views == string_views(list@),
            views.len() == list@.len(),
            forall|k: int| 0 <= k < list@.len() ==> #[trigger] views[k] == list@[k]@,
            forall|k: int| 0 <= k < i ==> #[trigger] views[k] != name@,
        decreases list.len() - i,
    {
        assert(views[i as int] == list@[i as int]@);
        if list[i].as_str().eq(name.as_str()) {
            return true;
        }
        i = i + 1;
    }
    false
}

/// The type that a name stands for.
fn type_named(enums: &Vec<String>, name: &String) -> (r: Type)
    ensures
        r.model() == named_type(string_views(enums@), name@),
{
    if holds(enums, name) {
        Type::Enum(name.clone())
    } else {
        Type::Struct(name.clone())
    }
}

/// A type as it is written, with its names looked up.
#[verifier::spinoff_prover]
fn resolve_type(enums: &Vec<String>, me: &Option<String>, t: &Type) -> (r: Type)
    ensures
        r.model() == resolved(string_views(enums@), qualifier_model(*me), t.model()),
    decreases t,
{
    match t {
        Type::Struct(name) => type_named(enums, name),
        Type::SelfType => match me {
            Some(name) => type_named(enums, name),
            None => Type::SelfType,
        },
        Type::Ref { mutable, inner } => {
            let x = resolve_type(enums, me, inner);
            let r = Type::Ref { mutable: *mutable, inner: Box::new(x) };
            assert(r.model() == TypeView::Ref { mutable: *mutable, inner: Box::new(x.model()) });
            r
        },
        Type::Array(elem, n) => {
            let x = resolve_type(enums, me, elem);
            let r = Type::Array(Box::new(x), n.clone());
            assert(r.model() == TypeView::Array(Box::new(x.model()), n@));
            r
        },
        Type::Slice(elem) => {
            let x = resolve_type(enums, me, elem);
            let r = Type::Slice(Box::new(x));
            assert(r.model() == TypeView::Slice(Box::new(x.model())));
            r
        },
        _ => t.dup(),
    }
}

/// What a call of a function has to know of it.
pub struct Sig {
    pub owner: Option<String>,
    pub name: String,
    pub generics: Vec<String>,
    pub params: Vec<Type>,
    pub ret: Type,
}

impl Sig {
    /// The mathematical value of `self`.
    pub open spec fn model(self) -> SigView {
        SigView {
            owner: qualifier_model(self.owner),
            name: self.name@,
            generics: string_views(self.generics@),
            params: type_views(self.params@),
            ret: self.ret.model(),
        }
    }
}

/// The mathematical values of a list.
pub open spec fn sig_models(s: Seq<Sig>) -> Seq<SigView> {
    Seq::new(s.len(), |i: int| s[i].model())
}

/// What is known of the whole program.
pub struct Whole<'a> {
    pub shared: SharedContext<'a>,
    pub sigs: Vec<Sig>,
    pub enums: Vec<String>,
}

impl<'a> Whole<'a> {
    /// The mathematical value of `self`.
    pub open spec fn model(self) -> Known {
        Known {
            ctx: self.shared.model(),
            sigs: sig_models(self.sigs@),
            enums: string_views(self.enums@),
        }
    }
}

/// Whether two optional names are the same.
fn same_owner(a: &Option<String>, b: &Option<String>) -> (r: bool)
    ensures
        r == (qualifier_model(*a) == qualifier_model(*b)),
{
    match (a, b) {
        (Some(x), Some(y)) => x.as_str().eq(y.as_str()),
        (None, None) => true,
        _ => false,
    }
}

/// The place of the last function with that owner and name.
#[verifier::spinoff_prover]
fn sig_index(sigs: &Vec<Sig>, owner: &Option<String>, name: &String) -> (r: Option<usize>)
    ensures
        match r {
            Some(i) => {
                &&& i < sigs@.len()
                &&& find_sig(sig_models(sigs@), qualifier_model(*owner), name@) == Some(
                    sigs@[i as int].model(),
                )
            },
            None => find_sig(sig_models(sigs@), qualifier_model(*owner), name@) is None,
        },
{
    let ghost all = sig_models(sigs@);
    let mut i: usize = sigs.len();
    assert(all.take(i as int) =~= all);
    while i > 0
        invariant
            i <= sigs.len(),
            all == sig_models(sigs@),
            find_sig(all, qualifier_model(*owner), name@) == find_sig(
                all.take(i as int),
                qualifier_model(*owner),
                name@,
            ),
        decreases i,
    {
        let ghost prefix = all.take(i as int);
        i = i - 1;
        assert(prefix.last() == all[i as int]);
        assert(prefix.drop_last() =~= all.take(i as int));
        if same_owner(&sigs[i].owner, owner) && sigs[i].name.as_str().eq(name.as_str()) {
            return Some(i);
        }
    }
    None
}

/// What a type parameter stands for.
#[verifier::spinoff_prover]
fn infer(params: &Vec<Type>, tys: &Vec<Type>, name: &String) -> (r: Option<Type>)
    ensures
        opt_type(r) == inferred(type_views(params@), type_views(tys@), name@, 0),
{
    let ghost ps = type_views(params@);
    let ghost ts = type_views(tys@);
    proof {
        lemma_type_views(params@);
        lemma_type_views(tys@);
    }
    let mut i: usize = 0;
    while i < params.len() && i < tys.len()
        invariant
            i <= params.len(),
            i <= tys.len(),
            ps == type_views(params@),
            ts == type_views(tys@),
            ps.len() == params@.len(),
            ts.len() == tys@.len(),
            inferred(ps, ts, name@, 0) == inferred(ps, ts, name@, i as nat),
        decreases params.len() - i,
    {
        proof {
            lemma_type_views(params@);
            lemma_type_views(tys@);
            assert(ps[i as int] == params@[i as int].model());
            assert(ts[i as int] == tys@[i as int].model());
        }
        if let Type::Param(p) = &params[i] {
            if p.as_str().eq(name.as_str()) {
                return Some(tys[i].dup());
            }
        }
        i = i + 1;
    }
    None
}

/// What the type parameters stand for.
#[verifier::spinoff_prover]
fn infer_all(generics: &Vec<String>, params: &Vec<Type>, tys: &Vec<Type>) -> (r: Result<
    Vec<Type>,
    String,
>)
    ensures
        ({
            let want = all_inferred(
                string_views(generics@),
                type_views(params@),
                type_views(tys@),
                0,
                Seq::empty(),
            );
            match r {
                Ok(v) => want == Ok::<Seq<TypeView>, Chars>(type_views(v@)),
                Err(m) => want == Err::<Seq<TypeView>, Chars>(m@),
            }
        }),
{
    let ghost gs = string_views(generics@);
    let ghost ps = type_views(params@);
    let ghost ts = type_views(tys@);
    let mut out: Vec<Type> = Vec::new();
    proof {
        lemma_string_views(generics@);
        lemma_type_views(out@);
        assert(type_views(out@) =~= Seq::empty());
    }
    let mut i: usize = 0;
    while i < generics.len()
        invariant
            i <= generics.len(),
            gs == string_views(generics@),
            ps == type_views(params@),
            ts == type_views(tys@),
            gs.len() == generics@.len(),
            all_inferred(gs, ps, ts, 0, Seq::empty()) == all_inferred(
                gs,
                ps,
                ts,
                i as nat,
                type_views(out@),
            ),
        decreases generics.len() - i,
    {
        proof {
            lemma_string_views(generics@);
            assert(gs[i as int] == generics@[i as int]@);
        }
        match infer(params, tys, &generics[i]) {
            None => {
                return Err(join3("cannot infer the type `", generics[i].as_str(), "`"));
            },
            Some(t) => {
                proof {
                    lemma_type_push(out@, t);
                }
                out.push(t);
            },
        }
        i = i + 1;
    }
    Ok(out)
}

/// A type of a function for those arguments.
fn instance_of(params: &Vec<Type>, tys: &Vec<Type>, t: &Type) -> (r: Type)
    ensures
        r.model() == instance(type_views(params@), type_views(tys@), t.model()),
{
    match t {
        Type::Param(name) => match infer(params, tys, name) {
            Some(x) => x,
            None => t.dup(),
        },
        _ => t.dup(),
    }
}

/// Whether an argument may be handed to a parameter.
fn may_pass(t: &Type, want: &Type) -> (r: bool)
    ensures
        r == passes(t.model(), want.model()),
{
    if suits(t, want) {
        return true;
    }
    match want {
        Type::Ref { mutable, inner } => same_type(t, inner),
        _ => false,
    }
}

/// The type arguments and the type of a call.
#[verifier::spinoff_prover]
fn type_of_call(sig: &Sig, tys: &Vec<Type>, is_method: bool) -> (r: Result<
    (Vec<Type>, Type),
    String,
>)
    ensures
        match r {
            Ok(x) => call_type(sig.model(), type_views(tys@), is_method) == Ok::<
                (Seq<TypeView>, TypeView),
                Chars,
            >((type_views(x.0@), x.1.model())),
            Err(m) => call_type(sig.model(), type_views(tys@), is_method) == Err::<
                (Seq<TypeView>, TypeView),
                Chars,
            >(m@),
        },
{
    let ghost ps = type_views(sig.params@);
    let ghost ts = type_views(tys@);
    proof {
        lemma_type_views(sig.params@);
        lemma_type_views(tys@);
    }
    if sig.params.len() != tys.len() {
        return Err(join3("wrong number of arguments for `", sig.name.as_str(), "`"));
    }
    let generic_args = match infer_all(&sig.generics, &sig.params, tys) {
        Err(m) => {
            return Err(m);
        },
        Ok(v) => v,
    };
    let from: usize = if is_method {
        1
    } else {
        0
    };
    let mut i: usize = from;
    while i < tys.len()
        invariant
            from <= i,
            from == (if is_method {
                1int
            } else {
                0int
            }),
            all_inferred(string_views(sig.generics@), ps, ts, 0, Seq::empty()) == Ok::<
                Seq<TypeView>,
                Chars,
            >(type_views(generic_args@)),
            sig.params.len() == tys.len(),
            ps == type_views(sig.params@),
            ts == type_views(tys@),
            ps.len() == sig.params@.len(),
            ts.len() == tys@.len(),
            forall|k: int| from <= k < i ==> passes(#[trigger] ts[k], instance(ps, ts, ps[k])),
        ensures
            forall|k: int|
                from <= k < ps.len() ==> passes(#[trigger] ts[k], instance(ps, ts, ps[k])),
        decreases tys.len() - i,
    {
        proof {
            lemma_type_views(sig.params@);
            lemma_type_views(tys@);
            assert(ps[i as int] == sig.params@[i as int].model());
            assert(ts[i as int] == tys@[i as int].model());
        }
        let want = instance_of(&sig.params, tys, &sig.params[i]);
        if !may_pass(&tys[i], &want) {
            assert(!all_pass(ps, ts, from as nat)) by {
                assert(!passes(ts[i as int], instance(ps, ts, ps[i as int])));
            }
            return Err(join3("argument of the wrong type for `", sig.name.as_str(), "`"));
        }
        i = i + 1;
    }
    assert(all_pass(ps, ts, from as nat));
    Ok((generic_args, instance_of(&sig.params, tys, &sig.ret)))
}

/// The types of arguments.
#[verifier::spinoff_prover]
fn types_of_args(args: &Vec<HirCallArg>) -> (r: Vec<Type>)
    ensures
        type_views(r@) == arg_types(hir_call_arg_views(args@)),
{
    let ghost views = hir_call_arg_views(args@);
    let mut out: Vec<Type> = Vec::new();
    proof {
        lemma_hir_call_arg_views(args@);
        lemma_type_views(out@);
        assert(type_views(out@) =~= arg_types(views).take(0));
    }
    let mut i: usize = 0;
    while i < args.len()
        invariant
            i <= args.len(),
            views == hir_call_arg_views(args@),
            views.len() == args@.len(),
            type_views(out@) == arg_types(views).take(i as int),
        decreases args.len() - i,
    {
        proof {
            lemma_hir_call_arg_views(args@);
            assert(views[i as int] == args@[i as int].model());
        }
        let t: Type = match &args[i] {
            HirCallArg::Positional(e) => {
                assert(e.model().ty == e.ty.model());
                e.ty.dup()
            },
            HirCallArg::Named(_, e) => {
                assert(e.model().ty == e.ty.model());
                e.ty.dup()
            },
        };
        proof {
            lemma_type_push(out@, t);
            assert(t.model() == arg_types(views)[i as int]);
        }
        out.push(t);
        i = i + 1;
        assert(type_views(out@) =~= arg_types(views).take(i as int));
    }
    assert(arg_types(views).take(i as int) =~= arg_types(views));
    out
}

/// A copy of an optional name.
fn dup_name(name: &Option<String>) -> (r: Option<String>)
    ensures
        qualifier_model(r) == qualifier_model(*name),
{
    match name {
        Some(s) => Some(s.clone()),
        None => None,
    }
}

/// Variables and their types as mathematical values.
pub open spec fn env_of(vars: Seq<(String, Type)>) -> Env {
    Seq::new(vars.len(), |i: int| (vars[i].0@, vars[i].1.model()))
}

/// Checks one function.
pub struct Checker<'a, 'b> {
    pub whole: &'b Whole<'a>,
    pub me: Option<String>,
    pub ret: Type,
    pub looping: bool,
    pub vars: Vec<(String, Type)>,
}

/// Whether a result is the expected one.
pub open spec fn expr_is(r: Result<HirExpr, String>, want: Result<HirExprView, Chars>) -> bool {
    match r {
        Ok(x) => want == Ok::<HirExprView, Chars>(x.model()),
        Err(m) => want == Err::<HirExprView, Chars>(m@),
    }
}

impl<'a, 'b> Checker<'a, 'b> {
    /// What is known around.
    pub open spec fn around(self) -> Around {
        Around {
            ctx: self.whole.model().ctx,
            sigs: self.whole.model().sigs,
            enums: self.whole.model().enums,
            me: qualifier_model(self.me),
            ret: self.ret.model(),
            looping: self.looping,
        }
    }

    /// The variables in scope.
    pub open spec fn env(self) -> Env {
        env_of(self.vars@)
    }

    /// Whether nothing has changed for what comes next.
    pub open spec fn kept(self, next: Self) -> bool {
        next.around() == self.around() && next.env() == self.env()
    }

    fn bind(&mut self, name: String, ty: Type)
        ensures
            final(self).around() == old(self).around(),
            final(self).env() == old(self).env().push((name@, ty.model())),
    {
        self.vars.push((name, ty));
        assert(self.env() =~= old(self).env().push((name@, ty.model())));
    }

    /// Forgets all variables but the first `n`.
    fn forget(&mut self, n: usize)
        requires
            n <= old(self).env().len(),
        ensures
            final(self).around() == old(self).around(),
            final(self).env() == old(self).env().take(n as int),
    {
        self.vars.truncate(n);
        assert(self.env() =~= old(self).env().take(n as int));
    }

    fn resolve(&self, t: &Type) -> (r: Type)
        ensures
            r.model() == self.around().resolve(t.model()),
    {
        resolve_type(&self.whole.enums, &self.me, t)
    }

    /// The type of a variable.
    #[verifier::spinoff_prover]
    fn type_of_var(&self, name: &String) -> (r: Option<Type>)
        ensures
            opt_type(r) == var_type(self.env(), name@),
    {
        let ghost env = self.env();
        let mut i: usize = self.vars.len();
        assert(env.take(i as int) =~= env);
        while i > 0
            invariant
                i <= self.vars.len(),
                env == env_of(self.vars@),
                self.env() == env,
                var_type(env, name@) == var_type(env.take(i as int), name@),
            decreases i,
        {
            let ghost prefix = env.take(i as int);
            i = i - 1;
            assert(prefix.last() == env[i as int]);
            assert(prefix.drop_last() =~= env.take(i as int));
            if self.vars[i].0.as_str().eq(name.as_str()) {
                return Some(self.vars[i].1.dup());
            }
        }
        None
    }

    /// Whether the arguments are those of a variant.
    #[verifier::spinoff_prover]
    fn args_suit_variant(&self, enum_name: &String, name: &String, tys: &Vec<Type>) -> (r: bool)
        ensures
            r == suits_variant(self.around(), enum_name@, name@, type_views(tys@)),
    {
        proof {
            lemma_type_views(tys@);
        }
        match self.whole.shared.variant_payload(enum_name, name) {
            None => tys.len() == 0,
            Some(t) => {
                if tys.len() != 1 {
                    return false;
                }
                assert(type_views(tys@)[0] == tys@[0].model());
                match &t {
                    Type::Param(_) => true,
                    _ => suits(&tys[0], &t),
                }
            },
        }
    }

    /// A call of a function, with the types of its arguments known.
    #[verifier::spinoff_prover]
    #[verifier::rlimit(30)]
    fn check_call(
        &self,
        qualifier: &Option<String>,
        func: &String,
        args: Vec<HirCallArg>,
        is_method: bool,
    ) -> (r: Result<HirExpr, String>)
        ensures
            expr_is(
                r,
                typed_call(
                    self.around(),
                    qualifier_model(*qualifier),
                    func@,
                    hir_call_arg_views(args@),
                    is_method,
                ),
            ),
    {
        let ghost views = hir_call_arg_views(args@);
        let tys = types_of_args(&args);
        proof {
            lemma_hir_call_arg_views(args@);
            lemma_type_views(tys@);
        }
        let mut generic_args: Vec<Type> = Vec::new();
        proof {
            lemma_type_views(generic_args@);
            assert(type_views(generic_args@) =~= Seq::empty());
        }
        let ty: Type;
        if is_method {
            if args.len() == 0 {
                return Err(join3("no type has the method `", func.as_str(), "`"));
            }
            assert(type_views(tys@)[0] == tys@[0].model());
            let owner = owner_name(&tys[0]);
            if owner.is_none() {
                return Err(join3("no type has the method `", func.as_str(), "`"));
            }
            match sig_index(&self.whole.sigs, &owner, func) {
                None => {
                    return Err(join3("undefined function `", func.as_str(), "`"));
                },
                Some(i) => match type_of_call(&self.whole.sigs[i], &tys, is_method) {
                    Err(m) => {
                        return Err(m);
                    },
                    Ok(x) => {
                        generic_args = x.0;
                        ty = x.1;
                    },
                },
            }
        } else {
            let sole: Option<String> = if qualifier.is_none() {
                self.whole.shared.sole_owner(func)
            } else {
                None
            };
            match sole {
                Some(owner) => {
                    if !self.args_suit_variant(&owner, func, &tys) {
                        return Err(
                            join3("argument of the wrong type for `", func.as_str(), "`"),
                        );
                    }
                    ty = Type::Enum(owner);
                },
                None => if qualifier.is_none() && func.as_str().eq("panic") {
                    ty = Type::Never;
                } else {
                    match sig_index(&self.whole.sigs, qualifier, func) {
                        None => {
                            return Err(join3("undefined function `", func.as_str(), "`"));
                        },
                        Some(i) => match type_of_call(&self.whole.sigs[i], &tys, is_method) {
                            Err(m) => {
                                return Err(m);
                            },
                            Ok(x) => {
                                generic_args = x.0;
                                ty = x.1;
                            },
                        },
                    }
                },
            }
        }
        let kind = HirExprKind::Call {
            qualifier: dup_name(qualifier),
            func: func.clone(),
            generic_args,
            args,
            is_method,
        };
        assert(kind.model() == HirExprKindView::Call {
            qualifier: qualifier_model(*qualifier),
            func: func@,
            generic_args: type_views(generic_args@),
            args: views,
            is_method,
        });
        Ok(HirExpr { kind, ty })
    }

    /// A variant with arguments, or else the call of a function of a type.
    #[verifier::spinoff_prover]
    fn check_variant(&self, enum_name: &String, variant_name: &String, args: Vec<HirCallArg>) -> (r:
        Result<HirExpr, String>)
        ensures
            expr_is(
                r,
                typed_variant(
                    self.around(),
                    enum_name@,
                    variant_name@,
                    hir_call_arg_views(args@),
                ),
            ),
    {
        if self.whole.shared.variant_index(enum_name, variant_name).is_some() {
            let tys = types_of_args(&args);
            if !self.args_suit_variant(enum_name, variant_name, &tys) {
                return Err(join3("argument of the wrong type for `", variant_name.as_str(), "`"));
            }
            let generic_args: Vec<Type> = Vec::new();
            proof {
                lemma_type_views(generic_args@);
                assert(type_views(generic_args@) =~= Seq::empty());
            }
            let kind = HirExprKind::EnumVariantConstruction {
                enum_name: enum_name.clone(),
                generic_args,
                variant_name: variant_name.clone(),
                args,
            };
            assert(kind.model() == HirExprKindView::EnumVariantConstruction {
                enum_name: enum_name@,
                generic_args: Seq::empty(),
                variant_name: variant_name@,
                args: hir_call_arg_views(args@),
            });
            Ok(HirExpr { kind, ty: Type::Enum(enum_name.clone()) })
        } else {
            let qualifier: Option<String> = Some(enum_name.clone());
            self.check_call(&qualifier, variant_name, args, false)
        }
    }

    /// The variables for the fields of a structure.
    #[verifier::spinoff_prover]
    fn bind_fields(&self, name: &String, fields: &Vec<(String, String)>) -> (r: Result<
        Vec<(String, Type)>,
        String,
    >)
        ensures
            vars_are(
                r,
                field_bindings(
                    self.around(),
                    name@,
                    string_string_views(fields@),
                    0,
                    Seq::empty(),
                ),
            ),
    {
        let ghost c = self.around();
        let ghost views = string_string_views(fields@);
        let mut out: Vec<(String, Type)> = Vec::new();
        proof {
            lemma_string_string_views(fields@);
            assert(env_of(out@) =~= Seq::empty());
        }
        let mut i: usize = 0;
        while i < fields.len()
            invariant
                i <= fields.len(),
                c == self.around(),
                views == string_string_views(fields@),
                views.len() == fields@.len(),
                field_bindings(c, name@, views, 0, Seq::empty()) == field_bindings(
                    c,
                    name@,
                    views,
                    i as nat,
                    env_of(out@),
                ),
            decreases fields.len() - i,
        {
            proof {
                lemma_string_string_views(fields@);
                assert(views[i as int] == (fields@[i as int].0@, fields@[i as int].1@));
            }
            match self.whole.shared.field_type(name, &fields[i].0) {
                None => {
                    return Err(
                        join5("struct `", name.as_str(), "` has no field `", fields[i].0.as_str(), "`"),
                    );
                },
                Some(t) => {
                    let ghost before = out@;
                    out.push((fields[i].1.clone(), t));
                    assert(env_of(out@) =~= env_of(before).push((views[i as int].1, t.model())));
                },
            }
            i = i + 1;
        }
        Ok(out)
    }

    /// The variables for the members of a tuple.
    #[verifier::spinoff_prover]
    fn bind_members(tys: &Vec<Type>, list: &Vec<Option<String>>) -> (r: Result<
        Vec<(String, Type)>,
        String,
    >)
        ensures
            vars_are(
                r,
                member_bindings(type_views(tys@), opt_string_views(list@), 0, Seq::empty()),
            ),
    {
        let ghost ts = type_views(tys@);
        let ghost views = opt_string_views(list@);
        let mut out: Vec<(String, Type)> = Vec::new();
        proof {
            lemma_type_views(tys@);
            lemma_opt_string_views(list@);
            assert(env_of(out@) =~= Seq::empty());
        }
        let mut i: usize = 0;
        while i < list.len()
            invariant
                i <= list.len(),
                ts == type_views(tys@),
                ts.len() == tys@.len(),
                views == opt_string_views(list@),
                views.len() == list@.len(),
                member_bindings(ts, views, 0, Seq::empty()) == member_bindings(
                    ts,
                    views,
                    i as nat,
                    env_of(out@),
                ),
            decreases list.len() - i,
        {
            proof {
                lemma_type_views(tys@);
                lemma_opt_string_views(list@);
                assert(views[i as int] == (match list@[i as int] {
                    Some(y) => Some(y@),
                    None => None,
                }));
            }
            if i >= tys.len() {
                return Err("pattern does not suit the value".to_string());
            }
            assert(ts[i as int] == tys@[i as int].model());
            if let Some(name) = &list[i] {
                let ghost before = out@;
                let t = tys[i].dup();
                out.push((name.clone(), t));
                assert(env_of(out@) =~= env_of(before).push((name@, t.model())));
            }
            i = i + 1;
        }
        Ok(out)
    }

    /// The variables for the elements of an array.
    #[verifier::spinoff_prover]
    fn bind_elements(elem: &Type, list: &Vec<Option<String>>) -> (r: Vec<(String, Type)>)
        ensures
            env_of(r@) == element_bindings(elem.model(), opt_string_views(list@), 0, Seq::empty()),
    {
        let ghost t0 = elem.model();
        let ghost views = opt_string_views(list@);
        let mut out: Vec<(String, Type)> = Vec::new();
        proof {
            lemma_opt_string_views(list@);
            assert(env_of(out@) =~= Seq::empty());
        }
        let mut i: usize = 0;
        while i < list.len()
            invariant
                i <= list.len(),
                t0 == elem.model(),
                views == opt_string_views(list@),
                views.len() == list@.len(),
                element_bindings(t0, views, 0, Seq::empty()) == element_bindings(
                    t0,
                    views,
                    i as nat,
                    env_of(out@),
                ),
            decreases list.len() - i,
        {
            proof {
                lemma_opt_string_views(list@);
                assert(views[i as int] == (match list@[i as int] {
                    Some(y) => Some(y@),
                    None => None,
                }));
            }
            if let Some(name) = &list[i] {
                let ghost before = out@;
                let t = elem.dup();
                out.push((name.clone(), t));
                assert(env_of(out@) =~= env_of(before).push((name@, t.model())));
            }
            i = i + 1;
        }
        out
    }

    /// The variables of a pattern for a value of type `t`, if it suits it.
    #[verifier::spinoff_prover]
    #[verifier::rlimit(30)]
    fn bindings_of(&self, t: &Type, p: &Pattern) -> (r: Result<Vec<(String, Type)>, String>)
        ensures
            vars_are(r, bindings(self.around(), t.model(), p.model())),
    {
        let mut none: Vec<(String, Type)> = Vec::new();
        assert(env_of(none@) =~= Seq::empty());
        let suited: bool = match p {
            Pattern::Wildcard => true,
            Pattern::IntLiteral(_) => number(t) && !float(t),
            Pattern::BoolLiteral(_) => match t {
                Type::Bool => true,
                _ => false,
            },
            Pattern::CharLiteral(_) => match t {
                Type::Char => true,
                _ => false,
            },
            Pattern::EnumVariant { enum_name, variant_name } => match t {
                Type::Enum(name) => name.as_str().eq(enum_name.as_str())
                    && self.whole.shared.variant_index(enum_name, variant_name).is_some(),
                _ => false,
            },
            Pattern::EnumVariantWithBinding { enum_name, variant_name, binding } => match t {
                Type::Enum(name) => match self.whole.shared.variant_payload(enum_name, variant_name) {
                    Some(ty) => {
                        if name.as_str().eq(enum_name.as_str()) {
                            none.push((binding.clone(), ty));
                            assert(env_of(none@) =~= seq![(binding@, ty.model())]);
                            true
                        } else {
                            false
                        }
                    },
                    None => false,
                },
                _ => false,
            },
            Pattern::Struct { name, fields } => match t {
                Type::Struct(struct_name) => {
                    if struct_name.as_str().eq(name.as_str()) {
                        return self.bind_fields(name, fields);
                    }
                    false
                },
                _ => false,
            },
            Pattern::Tuple(list) => match t {
                Type::Tuple(tys) => {
                    return Self::bind_members(tys, list);
                },
                _ => false,
            },
            Pattern::Array(list) => match t {
                Type::Array(elem, n) => {
                    return Ok(Self::bind_elements(elem, list));
                },
                _ => false,
            },
        };
        if suited {
            Ok(none)
        } else {
            Err("pattern does not suit the value".to_string())
        }
    }

    /// The type of an expression and of its parts.
    #[verifier::spinoff_prover]
    #[verifier::rlimit(100)]
    fn check_expr(&mut self, e: &Expr) -> (r: Result<HirExpr, String>)
        ensures
            expr_is(r, typed(old(self).around(), old(self).env(), e.model())),
            r is Ok ==> old(self).kept(*final(self)),
        decreases e, 3nat,
    {
        let ghost c = self.around();
        let ghost env = self.env();
        proof {
            reveal(typed_rule);
            assert(typed(c, env, e.model()) == typed_rule(c, env, e.model()));
            assert(e.model().kind == e.kind.model());
        }
        match &e.kind {
            ExprKind::Literal(l) => {
                let kind = HirExprKind::Literal(l.dup());
                assert(kind.model() == HirExprKindView::Literal(l.model()));
                Ok(HirExpr { kind, ty: type_of_literal(l) })
            },
            ExprKind::Ident(name) => match self.type_of_var(name) {
                None => Err(join3("undefined variable `", name.as_str(), "`")),
                Some(ty) => {
                    let kind = HirExprKind::Ident(name.clone());
                    assert(kind.model() == HirExprKindView::Ident(name@));
                    Ok(HirExpr { kind, ty })
                },
            },
            ExprKind::Unary { op, expr } => match self.check_expr(expr) {
                Err(m) => Err(m),
                Ok(x) => match type_of_unary(*op, &x.ty) {
                    None => Err("operator does not take an operand of this type".to_string()),
                    Some(ty) => {
                        let kind = HirExprKind::Unary { op: *op, expr: Box::new(x) };
                        assert(kind.model() == HirExprKindView::Unary {
                            op: *op,
                            expr: Box::new(x.model()),
                        });
                        Ok(HirExpr { kind, ty })
                    },
                },
            },
            ExprKind::BinaryOp { op, left, right } => {
                let l = match self.check_expr(left) {
                    Err(m) => {
                        return Err(m);
                    },
                    Ok(l) => l,
                };
                let x = match self.check_expr(right) {
                    Err(m) => {
                        return Err(m);
                    },
                    Ok(x) => x,
                };
                match type_of_binary(*op, &l.ty, &x.ty) {
                    None => Err("operator does not take operands of these types".to_string()),
                    Some(ty) => {
                        let kind = HirExprKind::BinaryOp {
                            op: *op,
                            left: Box::new(l),
                            right: Box::new(x),
                        };
                        assert(kind.model() == HirExprKindView::BinaryOp {
                            op: *op,
                            left: Box::new(l.model()),
                            right: Box::new(x.model()),
                        });
                        Ok(HirExpr { kind, ty })
                    },
                }
            },
            ExprKind::Cast { expr, ty } => match self.check_expr(expr) {
                Err(m) => Err(m),
                Ok(x) => {
                    let to = self.resolve(ty);
                    if castable(&x.ty, &to) {
                        let kind = HirExprKind::Cast { expr: Box::new(x), ty: to.dup() };
                        assert(kind.model() == HirExprKindView::Cast {
                            expr: Box::new(x.model()),
                            ty: to.model(),
                        });
                        Ok(HirExpr { kind, ty: to })
                    } else {
                        Err("value cannot be converted to this type".to_string())
                    }
                },
            },
            ExprKind::If { kind, cond, then_expr, else_expr } => {
                let cond1 = match self.check_expr(cond) {
                    Err(m) => {
                        return Err(m);
                    },
                    Ok(x) => x,
                };
                if !suits(&cond1.ty, &Type::Bool) {
                    return Err("condition is not of type bool".to_string());
                }
                let then1 = match self.check_expr(then_expr) {
                    Err(m) => {
                        return Err(m);
                    },
                    Ok(x) => x,
                };
                match else_expr {
                    None => {
                        let block: bool = match &then_expr.kind {
                            ExprKind::Block(_) => true,
                            _ => false,
                        };
                        assert(then_expr.model().kind == then_expr.kind.model());
                        if block || suits(&then1.ty, &Type::Unit) {
                            Ok(if_of(*kind, cond1, then1, None))
                        } else {
                            Err("branch without `else` has a value".to_string())
                        }
                    },
                    Some(other) => match self.check_expr(other) {
                        Err(m) => Err(m),
                        Ok(else1) => Ok(if_of(*kind, cond1, then1, Some(else1))),
                    },
                }
            },
            ExprKind::Match(m) => {
                assert(e.model().kind == crate::ast::ExprKindView::Match(m.model()));
                let cond = match self.check_expr(&m.cond) {
                    Err(m) => {
                        return Err(m);
                    },
                    Ok(x) => x,
                };
                let (arms, ty) = match self.check_arms(&cond.ty, &m.arms) {
                    Err(m) => {
                        return Err(m);
                    },
                    Ok(x) => x,
                };
                let kind = HirExprKind::Match { cond: Box::new(cond), arms };
                assert(kind.model() == HirExprKindView::Match {
                    cond: Box::new(cond.model()),
                    arms: hir_match_arm_views(arms@),
                });
                Ok(HirExpr { kind, ty })
            },
            ExprKind::Call { qualifier, func, args, is_method } => match self.check_args(args) {
                Err(m) => Err(m),
                Ok(list) => self.check_call(qualifier, func, list, *is_method),
            },
            ExprKind::EnumVariantConstruction { enum_name, variant_name, args } => {
                match self.check_args(args) {
                    Err(m) => Err(m),
                    Ok(list) => self.check_variant(enum_name, variant_name, list),
                }
            },
            ExprKind::EnumVariantAccess { enum_name, variant_name } => {
                if self.whole.shared.variant_index(enum_name, variant_name).is_some()
                    && self.whole.shared.variant_payload(enum_name, variant_name).is_none() {
                    let kind = HirExprKind::EnumVariantAccess {
                        enum_name: enum_name.clone(),
                        variant_name: variant_name.clone(),
                    };
                    assert(kind.model() == HirExprKindView::EnumVariantAccess {
                        enum_name: enum_name@,
                        variant_name: variant_name@,
                    });
                    Ok(HirExpr { kind, ty: Type::Enum(enum_name.clone()) })
                } else {
                    Err(
                        join4(
                            "unknown enum variant: ",
                            enum_name.as_str(),
                            "::",
                            variant_name.as_str(),
                        ),
                    )
                }
            },
            ExprKind::FieldAccess { struct_expr, field_name } => {
                let x = match self.check_expr(struct_expr) {
                    Err(m) => {
                        return Err(m);
                    },
                    Ok(x) => x,
                };
                let ty: Option<Type> = match owner_name(&x.ty) {
                    None => None,
                    Some(name) => self.whole.shared.field_type(&name, field_name),
                };
                match ty {
                    None => Err(join3("value has no field `", field_name.as_str(), "`")),
                    Some(ty) => {
                        let kind = HirExprKind::FieldAccess {
                            struct_expr: Box::new(x),
                            field_name: field_name.clone(),
                        };
                        assert(kind.model() == HirExprKindView::FieldAccess {
                            struct_expr: Box::new(x.model()),
                            field_name: field_name@,
                        });
                        Ok(HirExpr { kind, ty })
                    },
                }
            },
            ExprKind::StructInit { struct_name, fields } => match self.check_fields(
                struct_name,
                fields,
            ) {
                Err(m) => Err(m),
                Ok(list) => {
                    let generic_args: Vec<Type> = Vec::new();
                    proof {
                        lemma_type_views(generic_args@);
                        assert(type_views(generic_args@) =~= Seq::empty());
                    }
                    let kind = HirExprKind::StructInit {
                        struct_name: struct_name.clone(),
                        generic_args,
                        fields: list,
                    };
                    assert(kind.model() == HirExprKindView::StructInit {
                        struct_name: struct_name@,
                        generic_args: Seq::empty(),
                        fields: string_hir_expr_views(list@),
                    });
                    Ok(HirExpr { kind, ty: Type::Struct(struct_name.clone()) })
                },
            },
            ExprKind::ArrayLiteral(list) => match self.check_elements(list) {
                Err(m) => Err(m),
                Ok((elements, elem)) => {
                    let n: usize = elements.len();
                    proof {
                        lemma_hir_expr_views(elements@);
                    }
                    let kind = HirExprKind::ArrayLiteral(elements);
                    assert(kind.model() == HirExprKindView::ArrayLiteral(
                        hir_expr_views(elements@),
                    ));
                    let ty = Type::Array(Box::new(elem), decimal_of(n));
                    assert(ty.model() == TypeView::Array(
                        Box::new(elem.model()),
                        crate::text::decimal(n as nat),
                    ));
                    Ok(HirExpr { kind, ty })
                },
            },
            ExprKind::Index { expr, index } => {
                let x = match self.check_expr(expr) {
                    Err(m) => {
                        return Err(m);
                    },
                    Ok(x) => x,
                };
                let i = match self.check_expr(index) {
                    Err(m) => {
                        return Err(m);
                    },
                    Ok(i) => i,
                };
                match type_of_element(&x.ty) {
                    None => Err("value has no elements".to_string()),
                    Some(ty) => {
                        if i.ty.is_never() || (number(&i.ty) && !float(&i.ty)) {
                            let kind = HirExprKind::Index { expr: Box::new(x), index: Box::new(i) };
                            assert(kind.model() == HirExprKindView::Index {
                                expr: Box::new(x.model()),
                                index: Box::new(i.model()),
                            });
                            Ok(HirExpr { kind, ty })
                        } else {
                            Err("index is no integer".to_string())
                        }
                    },
                }
            },
            ExprKind::LackSlice(ty) => {
                let elem = self.resolve(ty);
                let kind = HirExprKind::LackSlice(elem.dup());
                assert(kind.model() == HirExprKindView::LackSlice(elem.model()));
                let slice = Type::Slice(Box::new(elem));
                assert(slice.model() == TypeView::Slice(Box::new(elem.model())));
                let ty = Type::Ref { mutable: false, inner: Box::new(slice) };
                assert(ty.model() == TypeView::Ref {
                    mutable: false,
                    inner: Box::new(slice.model()),
                });
                Ok(HirExpr { kind, ty })
            },
            ExprKind::Block(b) => match self.check_block(b) {
                Err(m) => Err(m),
                Ok((body, ty)) => {
                    let kind = HirExprKind::Block(body);
                    assert(kind.model() == HirExprKindView::Block(body.model()));
                    Ok(HirExpr { kind, ty })
                },
            },
            ExprKind::UnsafeBlock(u) => {
                assert(e.model().kind == crate::ast::ExprKindView::UnsafeBlock(u.model()));
                match self.check_block(&u.body) {
                    Err(m) => Err(m),
                    Ok((body, ty)) => {
                        let kind = HirExprKind::UnsafeBlock { kind: u.kind, body };
                        assert(kind.model() == HirExprKindView::UnsafeBlock {
                            kind: u.kind,
                            body: body.model(),
                        });
                        Ok(HirExpr { kind, ty })
                    },
                }
            },
            _ => Err("type checking of this expression is not supported".to_string()),
        }
    }

    /// The arguments of a call.
    #[verifier::spinoff_prover]
    fn check_args(&mut self, list: &Vec<CallArg>) -> (r: Result<Vec<HirCallArg>, String>)
        ensures
            ({
                let want = typed_args(
                    old(self).around(),
                    old(self).env(),
                    call_arg_views(list@),
                    0,
                    Seq::empty(),
                );
                match r {
                    Ok(v) => want == Ok::<Seq<HirCallArgView>, Chars>(hir_call_arg_views(v@)),
                    Err(m) => want == Err::<Seq<HirCallArgView>, Chars>(m@),
                }
            }),
            r is Ok ==> old(self).kept(*final(self)),
        decreases list@, 0nat,
    {
        let ghost c = self.around();
        let ghost env = self.env();
        let ghost views = call_arg_views(list@);
        let mut out: Vec<HirCallArg> = Vec::new();
        proof {
            lemma_call_arg_views(list@);
            lemma_hir_call_arg_views(out@);
            assert(hir_call_arg_views(out@) =~= Seq::empty());
        }
        let mut i: usize = 0;
        while i < list.len()
            invariant
                i <= list.len(),
                c == old(self).around(),
                env == old(self).env(),
                old(self).kept(*self),
                views == call_arg_views(list@),
                views.len() == list@.len(),
                forall|k: int| 0 <= k < list@.len() ==> #[trigger] views[k] == list@[k].model(),
                typed_args(c, env, views, 0, Seq::empty()) == typed_args(
                    c,
                    env,
                    views,
                    i as nat,
                    hir_call_arg_views(out@),
                ),
            decreases list.len() - i,
        {
            assert(views[i as int] == list@[i as int].model());
            let a: HirCallArg = match &list[i] {
                CallArg::Positional(e) => match self.check_expr(e) {
                    Err(m) => {
                        return Err(m);
                    },
                    Ok(x) => HirCallArg::Positional(x),
                },
                CallArg::Named(name, e) => match self.check_expr(e) {
                    Err(m) => {
                        return Err(m);
                    },
                    Ok(x) => HirCallArg::Named(name.clone(), x),
                },
            };
            proof {
                lemma_hir_call_arg_push(out@, a);
                assert(typed_arg(c, env, views[i as int]) == Ok::<HirCallArgView, Chars>(
                    a.model(),
                ));
            }
            out.push(a);
            i = i + 1;
        }
        Ok(out)
    }

    /// The fields of a structure.
    #[verifier::spinoff_prover]
    #[verifier::rlimit(30)]
    fn check_fields(&mut self, name: &String, list: &Vec<(String, Expr)>) -> (r: Result<
        Vec<(String, HirExpr)>,
        String,
    >)
        ensures
            ({
                let want = typed_fields(
                    old(self).around(),
                    old(self).env(),
                    name@,
                    string_expr_views(list@),
                    0,
                    Seq::empty(),
                );
                match r {
                    Ok(v) => want == Ok::<Seq<(Chars, HirExprView)>, Chars>(
                        string_hir_expr_views(v@),
                    ),
                    Err(m) => want == Err::<Seq<(Chars, HirExprView)>, Chars>(m@),
                }
            }),
            r is Ok ==> old(self).kept(*final(self)),
        decreases list@, 0nat,
    {
        let ghost c = self.around();
        let ghost env = self.env();
        let ghost views = string_expr_views(list@);
        let mut out: Vec<(String, HirExpr)> = Vec::new();
        proof {
            lemma_string_expr_views(list@);
            lemma_string_hir_expr_views(out@);
            assert(string_hir_expr_views(out@) =~= Seq::empty());
        }
        let mut i: usize = 0;
        while i < list.len()
            invariant
                i <= list.len(),
                c == old(self).around(),
                env == old(self).env(),
                old(self).kept(*self),
                views == string_expr_views(list@),
                views.len() == list@.len(),
                forall|k: int|
                    0 <= k < list@.len() ==> #[trigger] views[k] == (
                        list@[k].0@,
                        list@[k].1.model(),
                    ),
                typed_fields(c, env, name@, views, 0, Seq::empty()) == typed_fields(
                    c,
                    env,
                    name@,
                    views,
                    i as nat,
                    string_hir_expr_views(out@),
                ),
            decreases list.len() - i,
        {
            assert(views[i as int] == (list@[i as int].0@, list@[i as int].1.model()));
            let x = match self.check_expr(&list[i].1) {
                Err(m) => {
                    return Err(m);
                },
                Ok(x) => x,
            };
            assert(x.model().ty == x.ty.model());
            let t = match self.whole.shared.field_type(name, &list[i].0) {
                None => {
                    return Err(
                        join5("struct `", name.as_str(), "` has no field `", list[i].0.as_str(), "`"),
                    );
                },
                Some(t) => t,
            };
            let open: bool = match &t {
                Type::Param(_) => true,
                _ => false,
            };
            if !open && !suits(&x.ty, &t) {
                return Err(join3("type mismatch in the field `", list[i].0.as_str(), "`"));
            }
            let pair: (String, HirExpr) = (list[i].0.clone(), x);
            proof {
                lemma_string_hir_expr_push(out@, pair);
            }
            out.push(pair);
            i = i + 1;
        }
        Ok(out)
    }

    /// The elements of an array and their type.
    #[verifier::spinoff_prover]
    fn check_elements(&mut self, list: &Vec<Expr>) -> (r: Result<(Vec<HirExpr>, Type), String>)
        ensures
            ({
                let want = typed_elements(
                    old(self).around(),
                    old(self).env(),
                    expr_views(list@),
                    0,
                    Seq::empty(),
                    TypeView::Never,
                );
                match r {
                    Ok(x) => want == Ok::<(Seq<HirExprView>, TypeView), Chars>(
                        (hir_expr_views(x.0@), x.1.model()),
                    ),
                    Err(m) => want == Err::<(Seq<HirExprView>, TypeView), Chars>(m@),
                }
            }),
            r is Ok ==> old(self).kept(*final(self)),
        decreases list@, 0nat,
    {
        let ghost c = self.around();
        let ghost env = self.env();
        let ghost views = expr_views(list@);
        let mut out: Vec<HirExpr> = Vec::new();
        let mut ty: Type = Type::Never;
        proof {
            lemma_expr_views(list@);
            lemma_hir_expr_views(out@);
            assert(hir_expr_views(out@) =~= Seq::empty());
        }
        let mut i: usize = 0;
        while i < list.len()
            invariant
                i <= list.len(),
                c == old(self).around(),
                env == old(self).env(),
                old(self).kept(*self),
                views == expr_views(list@),
                views.len() == list@.len(),
                forall|k: int| 0 <= k < list@.len() ==> #[trigger] views[k] == list@[k].model(),
                typed_elements(c, env, views, 0, Seq::empty(), TypeView::Never) == typed_elements(
                    c,
                    env,
                    views,
                    i as nat,
                    hir_expr_views(out@),
                    ty.model(),
                ),
            decreases list.len() - i,
        {
            assert(views[i as int] == list@[i as int].model());
            let x = match self.check_expr(&list[i]) {
                Err(m) => {
                    return Err(m);
                },
                Ok(x) => x,
            };
            assert(x.model().ty == x.ty.model());
            if !suits(&ty, &x.ty) && !suits(&x.ty, &ty) {
                return Err("elements of different types".to_string());
            }
            ty = join_types(&ty, &x.ty);
            proof {
                lemma_hir_expr_push(out@, x);
            }
            out.push(x);
            i = i + 1;
        }
        Ok((out, ty))
    }

    /// The arms of a `match` on a value of type `t`, and their type.
    #[verifier::spinoff_prover]
    fn check_arms(&mut self, t: &Type, list: &Vec<MatchArm>) -> (r: Result<
        (Vec<HirMatchArm>, Type),
        String,
    >)
        ensures
            ({
                let want = typed_arms(
                    old(self).around(),
                    old(self).env(),
                    t.model(),
                    match_arm_views(list@),
                    0,
                    Seq::empty(),
                    TypeView::Never,
                );
                match r {
                    Ok(x) => want == Ok::<(Seq<HirMatchArmView>, TypeView), Chars>(
                        (hir_match_arm_views(x.0@), x.1.model()),
                    ),
                    Err(m) => want == Err::<(Seq<HirMatchArmView>, TypeView), Chars>(m@),
                }
            }),
            r is Ok ==> old(self).kept(*final(self)),
        decreases list@, 0nat,
    {
        let ghost c = self.around();
        let ghost env = self.env();
        let ghost tv = t.model();
        let ghost views = match_arm_views(list@);
        let mut out: Vec<HirMatchArm> = Vec::new();
        let mut ty: Type = Type::Never;
        proof {
            lemma_match_arm_views(list@);
            lemma_hir_match_arm_views(out@);
            assert(hir_match_arm_views(out@) =~= Seq::empty());
        }
        let mut i: usize = 0;
        while i < list.len()
            invariant
                i <= list.len(),
                c == old(self).around(),
                env == old(self).env(),
                tv == t.model(),
                old(self).kept(*self),
                views == match_arm_views(list@),
                views.len() == list@.len(),
                forall|k: int| 0 <= k < list@.len() ==> #[trigger] views[k] == list@[k].model(),
                typed_arms(c, env, tv, views, 0, Seq::empty(), TypeView::Never) == typed_arms(
                    c,
                    env,
                    tv,
                    views,
                    i as nat,
                    hir_match_arm_views(out@),
                    ty.model(),
                ),
            decreases list.len() - i,
        {
            assert(views[i as int] == list@[i as int].model());
            let arm = match self.check_arm(t, &list[i]) {
                Err(m) => {
                    return Err(m);
                },
                Ok(x) => x,
            };
            assert(arm.model().expr == arm.expr.model());
            assert(arm.expr.model().ty == arm.expr.ty.model());
            ty = join_types(&ty, &arm.expr.ty);
            proof {
                lemma_hir_match_arm_push(out@, arm);
            }
            out.push(arm);
            i = i + 1;
        }
        Ok((out, ty))
    }

    /// An arm of a `match` on a value of type `t`.
    #[verifier::spinoff_prover]
    fn check_arm(&mut self, t: &Type, arm: &MatchArm) -> (r: Result<HirMatchArm, String>)
        ensures
            ({
                let want = typed_arm(
                    old(self).around(),
                    old(self).env(),
                    t.model(),
                    arm.model(),
                );
                match r {
                    Ok(x) => want == Ok::<HirMatchArmView, Chars>(x.model()),
                    Err(m) => want == Err::<HirMatchArmView, Chars>(m@),
                }
            }),
            r is Ok ==> old(self).kept(*final(self)),
        decreases arm, 0nat,
    {
        let ghost env = self.env();
        let mut vars = match self.bindings_of(t, &arm.pattern) {
            Err(m) => {
                return Err(m);
            },
            Ok(v) => v,
        };
        let n: usize = self.vars.len();
        let ghost more = env_of(vars@);
        self.vars.append(&mut vars);
        assert(self.env() =~= env + more);
        match self.check_expr(&arm.expr) {
            Err(m) => Err(m),
            Ok(x) => {
                self.forget(n);
                assert((env + more).take(n as int) =~= env);
                Ok(HirMatchArm { pattern: arm.pattern.dup(), expr: x })
            },
        }
    }

    /// A block and its type.
    #[verifier::spinoff_prover]
    fn check_block(&mut self, b: &Block) -> (r: Result<(HirBlock, Type), String>)
        ensures
            ({
                let want = typed_block(old(self).around(), old(self).env(), b.model());
                match r {
                    Ok(x) => want == Ok::<(HirBlockView, TypeView), Chars>(
                        (x.0.model(), x.1.model()),
                    ),
                    Err(m) => want == Err::<(HirBlockView, TypeView), Chars>(m@),
                }
            }),
            r is Ok ==> old(self).kept(*final(self)),
        decreases b, 0nat,
    {
        match self.check_stmts(&b.stmts) {
            Err(m) => Err(m),
            Ok((stmts, ty)) => {
                let body = HirBlock { stmts };
                assert(body.model() == HirBlockView { stmts: hir_stmt_views(stmts@) });
                Ok((body, ty))
            },
        }
    }

    /// Statements, and the type of the last one.
    #[verifier::spinoff_prover]
    #[verifier::rlimit(30)]
    fn check_stmts(&mut self, list: &Vec<Stmt>) -> (r: Result<(Vec<HirStmt>, Type), String>)
        ensures
            ({
                let want = typed_stmts(
                    old(self).around(),
                    old(self).env(),
                    stmt_views(list@),
                    0,
                    Seq::empty(),
                    TypeView::Unit,
                );
                match r {
                    Ok(x) => want == Ok::<(Seq<HirStmtView>, TypeView), Chars>(
                        (hir_stmt_views(x.0@), x.1.model()),
                    ),
                    Err(m) => want == Err::<(Seq<HirStmtView>, TypeView), Chars>(m@),
                }
            }),
            r is Ok ==> old(self).kept(*final(self)),
        decreases list@, 0nat,
    {
        let ghost c = self.around();
        let ghost env0 = self.env();
        let ghost views = stmt_views(list@);
        let n: usize = self.vars.len();
        let mut out: Vec<HirStmt> = Vec::new();
        let mut ty: Type = Type::Unit;
        proof {
            lemma_stmt_views(list@);
            lemma_hir_stmt_views(out@);
            assert(hir_stmt_views(out@) =~= Seq::empty());
            assert(env0.take(n as int) =~= env0);
        }
        let mut i: usize = 0;
        while i < list.len()
            invariant
                i <= list.len(),
                c == old(self).around(),
                env0 == old(self).env(),
                n == env0.len(),
                self.around() == c,
                n <= self.env().len(),
                self.env().take(n as int) == env0,
                views == stmt_views(list@),
                views.len() == list@.len(),
                forall|k: int| 0 <= k < list@.len() ==> #[trigger] views[k] == list@[k].model(),
                typed_stmts(c, env0, views, 0, Seq::empty(), TypeView::Unit) == typed_stmts(
                    c,
                    self.env(),
                    views,
                    i as nat,
                    hir_stmt_views(out@),
                    ty.model(),
                ),
            decreases list.len() - i,
        {
            assert(views[i as int] == list@[i as int].model());
            let ghost env1 = self.env();
            let s = match self.check_stmt(&list[i]) {
                Err(m) => {
                    return Err(m);
                },
                Ok(x) => x,
            };
            if let HirStmt::Let { name, ty: declared, init, mutable, persist } = &s {
                assert(init.model().ty == init.ty.model());
                let t: Type = match declared {
                    Some(t) => t.dup(),
                    None => init.ty.dup(),
                };
                self.bind(name.clone(), t);
            }
            ty = match &s {
                HirStmt::Expr { expr } => {
                    assert(expr.model().ty == expr.ty.model());
                    expr.ty.dup()
                },
                HirStmt::Return { expr } => Type::Never,
                HirStmt::Break => Type::Never,
                _ => Type::Unit,
            };
            proof {
                assert(self.env() == env_after(env1, s.model()));
                assert(ty.model() == stmt_type(s.model()));
                assert(self.env().take(n as int) =~= env1.take(n as int));
                lemma_hir_stmt_push(out@, s);
            }
            out.push(s);
            i = i + 1;
        }
        self.forget(n);
        Ok((out, ty))
    }

    /// A statement.
    #[verifier::spinoff_prover]
    #[verifier::rlimit(60)]
    fn check_stmt(&mut self, s: &Stmt) -> (r: Result<HirStmt, String>)
        ensures
            ({
                let want = typed_stmt(old(self).around(), old(self).env(), s.model());
                match r {
                    Ok(x) => want == Ok::<HirStmtView, Chars>(x.model()),
                    Err(m) => want == Err::<HirStmtView, Chars>(m@),
                }
            }),
            r is Ok ==> old(self).kept(*final(self)),
        decreases s, 0nat,
    {
        let ghost c = self.around();
        let ghost env = self.env();
        proof {
            reveal(typed_stmt_rule);
            assert(typed_stmt(c, env, s.model()) == typed_stmt_rule(c, env, s.model()));
        }
        match s {
            Stmt::Let(s) => {
                assert(*s.model().init == s.init.model());
                let init = match self.check_expr(&s.init) {
                    Err(m) => {
                        return Err(m);
                    },
                    Ok(x) => x,
                };
                assert(init.model().ty == init.ty.model());
                let ty: Option<Type> = match &s.ty {
                    None => None,
                    Some(t) => {
                        let t1 = self.resolve(t);
                        if !suits(&init.ty, &t1) {
                            return Err(
                                join3("type mismatch in the definition of `", s.name.as_str(), "`"),
                            );
                        }
                        Some(t1)
                    },
                };
                Ok(
                    HirStmt::Let {
                        name: s.name.clone(),
                        ty,
                        init,
                        mutable: s.mutable,
                        persist: s.persist,
                    },
                )
            },
            Stmt::Assign(s) => {
                assert(*s.model().target == s.target.model());
                assert(*s.model().expr == s.expr.model());
                let target = match self.check_expr(&s.target) {
                    Err(m) => {
                        return Err(m);
                    },
                    Ok(x) => x,
                };
                let expr = match self.check_expr(&s.expr) {
                    Err(m) => {
                        return Err(m);
                    },
                    Ok(x) => x,
                };
                assert(target.model().ty == target.ty.model());
                assert(expr.model().ty == expr.ty.model());
                if suits(&expr.ty, &target.ty) {
                    Ok(HirStmt::Assign { target, expr })
                } else {
                    Err("type mismatch in an assignment".to_string())
                }
            },
            Stmt::ExprStmt(e) => match self.check_expr(e) {
                Err(m) => Err(m),
                Ok(expr) => Ok(HirStmt::Expr { expr }),
            },
            Stmt::Return(value) => {
                let expr: Option<HirExpr> = match value {
                    None => {
                        if !self.ret.is_unit() {
                            return Err("type mismatch in the value that is returned".to_string());
                        }
                        None
                    },
                    Some(e) => {
                        let x = match self.check_expr(e) {
                            Err(m) => {
                                return Err(m);
                            },
                            Ok(x) => x,
                        };
                        assert(x.model().ty == x.ty.model());
                        if !suits(&x.ty, &self.ret) {
                            return Err("type mismatch in the value that is returned".to_string());
                        }
                        Some(x)
                    },
                };
                Ok(HirStmt::Return { expr })
            },
            Stmt::While(s) => {
                assert(*s.model().cond == s.cond.model());
                assert(s.model().body == s.body.model());
                let cond = match self.check_expr(&s.cond) {
                    Err(m) => {
                        return Err(m);
                    },
                    Ok(x) => x,
                };
                assert(cond.model().ty == cond.ty.model());
                if !suits(&cond.ty, &Type::Bool) {
                    return Err("condition is not of type bool".to_string());
                }
                let before: bool = self.looping;
                self.looping = true;
                assert(self.around() == c.in_loop());
                match self.check_block(&s.body) {
                    Err(m) => Err(m),
                    Ok((body, _)) => {
                        self.looping = before;
                        Ok(HirStmt::While { cond, body })
                    },
                }
            },
            Stmt::For(s) => {
                assert(*s.model().iterable == s.iterable.model());
                assert(s.model().body == s.body.model());
                let (iterable, t) = match self.check_iterable(&s.iterable) {
                    Err(m) => {
                        return Err(m);
                    },
                    Ok(x) => x,
                };
                let n: usize = self.vars.len();
                self.bind(s.var.clone(), t);
                let before: bool = self.looping;
                self.looping = true;
                assert(self.around() == c.in_loop());
                match self.check_block(&s.body) {
                    Err(m) => Err(m),
                    Ok((body, _)) => {
                        self.looping = before;
                        self.forget(n);
                        assert(self.env() =~= env);
                        Ok(HirStmt::For { var: s.var.clone(), iterable, body })
                    },
                }
            },
            Stmt::Loop(s) => {
                assert(s.model().body == s.body.model());
                let before: bool = self.looping;
                self.looping = true;
                assert(self.around() == c.in_loop());
                match self.check_block(&s.body) {
                    Err(m) => Err(m),
                    Ok((body, _)) => {
                        self.looping = before;
                        Ok(HirStmt::Loop { body })
                    },
                }
            },
            Stmt::Break => {
                if self.looping {
                    Ok(HirStmt::Break)
                } else {
                    Err("`break` outside of a loop".to_string())
                }
            },
        }
    }

    /// What a `for` goes through, and the type of what it meets there.
    #[verifier::spinoff_prover]
    fn check_iterable(&mut self, e: &Expr) -> (r: Result<(HirExpr, Type), String>)
        ensures
            ({
                let want = typed_iterable(old(self).around(), old(self).env(), e.model());
                match r {
                    Ok(x) => want == Ok::<(HirExprView, TypeView), Chars>(
                        (x.0.model(), x.1.model()),
                    ),
                    Err(m) => want == Err::<(HirExprView, TypeView), Chars>(m@),
                }
            }),
            r is Ok ==> old(self).kept(*final(self)),
        decreases e, 4nat,
    {
        assert(e.model().kind == e.kind.model());
        match &e.kind {
            ExprKind::Range { start, end } => {
                let a = match self.check_expr(start) {
                    Err(m) => {
                        return Err(m);
                    },
                    Ok(x) => x,
                };
                let b = match self.check_expr(end) {
                    Err(m) => {
                        return Err(m);
                    },
                    Ok(x) => x,
                };
                assert(a.model().ty == a.ty.model());
                assert(b.model().ty == b.ty.model());
                if number(&a.ty) && suits(&b.ty, &a.ty) {
                    let t = a.ty.dup();
                    let ty = a.ty.dup();
                    let kind = HirExprKind::Range { start: Box::new(a), end: Box::new(b) };
                    assert(kind.model() == HirExprKindView::Range {
                        start: Box::new(a.model()),
                        end: Box::new(b.model()),
                    });
                    Ok((HirExpr { kind, ty }, t))
                } else {
                    Err("range is not of numbers of one type".to_string())
                }
            },
            _ => match self.check_expr(e) {
                Err(m) => Err(m),
                Ok(x) => {
                    assert(x.model().ty == x.ty.model());
                    match type_of_element(&x.ty) {
                        None => Err("value has no elements".to_string()),
                        Some(t) => Ok((x, t)),
                    }
                },
            },
        }
    }
}

/// Whether the variables of a pattern are the expected ones.
pub open spec fn vars_are(r: Result<Vec<(String, Type)>, String>, want: Result<Env, Chars>) -> bool {
    match r {
        Ok(v) => want == Ok::<Env, Chars>(env_of(v@)),
        Err(m) => want == Err::<Env, Chars>(m@),
    }
}

/// An `if` with its types.
#[verifier::spinoff_prover]
fn if_of(kind: IfKind, cond: HirExpr, then_expr: HirExpr, else_expr: Option<HirExpr>) -> (r: HirExpr)
    ensures
        r.model() == typed_if(
            kind,
            cond.model(),
            then_expr.model(),
            match else_expr {
                Some(e) => Some(e.model()),
                None => None,
            },
        ),
{
    let ghost c = cond.model();
    let ghost t = then_expr.model();
    match else_expr {
        Some(e) => {
            assert(t.ty == then_expr.ty.model());
            assert(e.model().ty == e.ty.model());
            let ty = join_types(&then_expr.ty, &e.ty);
            let kind1 = HirExprKind::If {
                kind,
                cond: Box::new(cond),
                then_expr: Box::new(then_expr),
                else_expr: Some(Box::new(e)),
            };
            assert(kind1.model() == HirExprKindView::If {
                kind,
                cond: Box::new(c),
                then_expr: Box::new(t),
                else_expr: Some(Box::new(e.model())),
            });
            HirExpr { kind: kind1, ty }
        },
        None => {
            let kind1 = HirExprKind::If {
                kind,
                cond: Box::new(cond),
                then_expr: Box::new(then_expr),
                else_expr: None,
            };
            assert(kind1.model() == HirExprKindView::If {
                kind,
                cond: Box::new(c),
                then_expr: Box::new(t),
                else_expr: None,
            });
            HirExpr { kind: kind1, ty: Type::Unit }
        },
    }
}

/// The names of the enumerations of a program.
#[verifier::spinoff_prover]
fn enums_of_items(items: &Vec<Item>) -> (r: Vec<String>)
    ensures
        string_views(r@) == enum_names(item_views(items@), items@.len()),
{
    let ghost views = item_views(items@);
    let mut out: Vec<String> = Vec::new();
    proof {
        lemma_item_views(items@);
        lemma_string_views(out@);
        assert(string_views(out@) =~= Seq::empty());
    }
    let mut i: usize = 0;
    while i < items.len()
        invariant
            i <= items.len(),
            views == item_views(items@),
            views.len() == items@.len(),
            string_views(out@) == enum_names(views, i as nat),
        decreases items.len() - i,
    {
        proof {
            lemma_item_views(items@);
            assert(views[i as int] == items@[i as int].model());
        }
        if let Item::EnumDef(e) = &items[i] {
            assert(views[i as int] == ItemView::EnumDef(e.model()));
            let name = e.name.clone();
            proof {
                lemma_string_push(out@, name);
            }
            out.push(name);
        }
        i = i + 1;
    }
    out
}

/// Parameters or fields with their types.
#[verifier::spinoff_prover]
fn fields_of(enums: &Vec<String>, me: &Option<String>, list: &Vec<Param>) -> (r: Vec<HirField>)
    ensures
        hir_field_views(r@) == typed_params(
            string_views(enums@),
            qualifier_model(*me),
            param_views(list@),
        ),
{
    let ghost want = typed_params(string_views(enums@), qualifier_model(*me), param_views(list@));
    let mut out: Vec<HirField> = Vec::new();
    proof {
        lemma_param_views(list@);
        lemma_hir_field_views(out@);
        assert(hir_field_views(out@) =~= want.take(0));
    }
    let mut i: usize = 0;
    while i < list.len()
        invariant
            i <= list.len(),
            want == typed_params(
                string_views(enums@),
                qualifier_model(*me),
                param_views(list@),
            ),
            param_views(list@).len() == list@.len(),
            hir_field_views(out@) == want.take(i as int),
        decreases list.len() - i,
    {
        let field = HirField {
            name: list[i].name.clone(),
            ty: resolve_type(enums, me, &list[i].ty),
        };
        proof {
            lemma_param_views(list@);
            assert(param_views(list@)[i as int] == list@[i as int].model());
            lemma_hir_field_push(out@, field);
            assert(want.take(i + 1) =~= want.take(i as int).push(want[i as int]));
        }
        out.push(field);
        i = i + 1;
    }
    assert(want.take(i as int) =~= want);
    out
}

/// The variants of an enumeration with their types.
#[verifier::spinoff_prover]
fn variants_of(enums: &Vec<String>, list: &Vec<EnumVariantDef>) -> (r: Vec<HirVariant>)
    ensures
        hir_variant_views(r@) == typed_variant_defs(
            string_views(enums@),
            enum_variant_def_views(list@),
        ),
{
    let ghost want = typed_variant_defs(string_views(enums@), enum_variant_def_views(list@));
    let none: Option<String> = None;
    let mut out: Vec<HirVariant> = Vec::new();
    proof {
        lemma_enum_variant_def_views(list@);
        lemma_hir_variant_views(out@);
        assert(hir_variant_views(out@) =~= want.take(0));
    }
    let mut i: usize = 0;
    while i < list.len()
        invariant
            i <= list.len(),
            none is None,
            want == typed_variant_defs(string_views(enums@), enum_variant_def_views(list@)),
            enum_variant_def_views(list@).len() == list@.len(),
            hir_variant_views(out@) == want.take(i as int),
        decreases list.len() - i,
    {
        let ty: Option<Type> = match &list[i].ty {
            Some(t) => Some(resolve_type(enums, &none, t)),
            None => None,
        };
        let variant = HirVariant { name: list[i].name.clone(), ty };
        proof {
            lemma_enum_variant_def_views(list@);
            assert(enum_variant_def_views(list@)[i as int] == list@[i as int].model());
            assert(variant.model() == typed_variant_def(
                string_views(enums@),
                list@[i as int].model(),
            ));
            lemma_hir_variant_push(out@, variant);
            assert(want.take(i + 1) =~= want.take(i as int).push(want[i as int]));
        }
        out.push(variant);
        i = i + 1;
    }
    assert(want.take(i as int) =~= want);
    out
}

/// The type that a function returns, as it is written.
fn written_result(f: &FnDef) -> (r: Type)
    ensures
        r.model() == result_type(f.model()),
{
    match &f.return_type {
        Some(t) => t.dup(),
        None => Type::Unit,
    }
}

/// The names of type parameters.
#[verifier::spinoff_prover]
fn names_of(list: &Vec<GenericParam>) -> (r: Vec<String>)
    ensures
        string_views(r@) == generic_param_views(list@).map_values(
            |g: crate::ast::GenericParamView| g.name,
        ),
{
    let ghost want = generic_param_views(list@).map_values(
        |g: crate::ast::GenericParamView| g.name,
    );
    let mut out: Vec<String> = Vec::new();
    proof {
        lemma_generic_param_views(list@);
        lemma_string_views(out@);
        assert(string_views(out@) =~= want.take(0));
    }
    let mut i: usize = 0;
    while i < list.len()
        invariant
            i <= list.len(),
            want == generic_param_views(list@).map_values(
                |g: crate::ast::GenericParamView| g.name,
            ),
            generic_param_views(list@).len() == list@.len(),
            string_views(out@) == want.take(i as int),
        decreases list.len() - i,
    {
        let name = list[i].name.clone();
        proof {
            lemma_generic_param_views(list@);
            assert(generic_param_views(list@)[i as int] == list@[i as int].model());
            lemma_string_push(out@, name);
            assert(want.take(i + 1) =~= want.take(i as int).push(want[i as int]));
        }
        out.push(name);
        i = i + 1;
    }
    assert(want.take(i as int) =~= want);
    out
}

/// What a call has to know of a function.
#[verifier::spinoff_prover]
#[verifier::rlimit(30)]
fn sig_from(enums: &Vec<String>, owner: &Option<String>, f: &FnDef) -> (r: Sig)
    ensures
        r.model() == sig_of(string_views(enums@), qualifier_model(*owner), f.model()),
{
    let ghost want = sig_of(string_views(enums@), qualifier_model(*owner), f.model()).params;
    let mut params: Vec<Type> = Vec::new();
    proof {
        lemma_param_views(f.params@);
        lemma_type_views(params@);
        assert(f.model().params == param_views(f.params@));
        assert(type_views(params@) =~= want.take(0));
    }
    let mut i: usize = 0;
    while i < f.params.len()
        invariant
            i <= f.params.len(),
            want == sig_of(string_views(enums@), qualifier_model(*owner), f.model()).params,
            f.model().params == param_views(f.params@),
            param_views(f.params@).len() == f.params@.len(),
            type_views(params@) == want.take(i as int),
        decreases f.params.len() - i,
    {
        let t = resolve_type(enums, owner, &f.params[i].ty);
        proof {
            lemma_param_views(f.params@);
            assert(param_views(f.params@)[i as int] == f.params@[i as int].model());
            lemma_type_push(params@, t);
            assert(want.take(i + 1) =~= want.take(i as int).push(want[i as int]));
        }
        params.push(t);
        i = i + 1;
    }
    assert(want.take(i as int) =~= want);
    let ret = resolve_type(enums, owner, &written_result(f));
    Sig {
        owner: dup_name(owner),
        name: f.name.clone(),
        generics: names_of(&f.generic_params),
        params,
        ret,
    }
}

/// Adds the functions of a type.
#[verifier::spinoff_prover]
fn add_sigs(sigs: &mut Vec<Sig>, enums: &Vec<String>, owner: &Option<String>, list: &Vec<FnDef>)
    ensures
        sig_models(final(sigs)@) == sig_models(old(sigs)@) + sigs_of(
            string_views(enums@),
            qualifier_model(*owner),
            fn_def_views(list@),
            list@.len(),
        ),
{
    let ghost before = sig_models(sigs@);
    let ghost all = sigs_of(
        string_views(enums@),
        qualifier_model(*owner),
        fn_def_views(list@),
        list@.len(),
    );
    proof {
        lemma_fn_def_views(list@);
        assert(before + all.take(0) =~= before);
    }
    let mut i: usize = 0;
    while i < list.len()
        invariant
            i <= list.len(),
            all == sigs_of(
                string_views(enums@),
                qualifier_model(*owner),
                fn_def_views(list@),
                list@.len(),
            ),
            fn_def_views(list@).len() == list@.len(),
            sig_models(sigs@) == before + all.take(i as int),
        decreases list.len() - i,
    {
        let sig = sig_from(enums, owner, &list[i]);
        let ghost sigs0 = sigs@;
        proof {
            lemma_fn_def_views(list@);
            assert(fn_def_views(list@)[i as int] == list@[i as int].model());
        }
        sigs.push(sig);
        i = i + 1;
        assert(sig_models(sigs@) =~= sig_models(sigs0).push(sig.model()));
        assert(sig_models(sigs@) =~= before + all.take(i as int));
    }
    assert(all.take(i as int) =~= all);
}

/// The functions of a program.
#[verifier::spinoff_prover]
fn sigs_of_items(enums: &Vec<String>, items: &Vec<Item>) -> (r: Vec<Sig>)
    ensures
        sig_models(r@) == all_sigs(string_views(enums@), item_views(items@), items@.len()),
{
    let ghost views = item_views(items@);
    let ghost names = string_views(enums@);
    let none: Option<String> = None;
    let mut out: Vec<Sig> = Vec::new();
    proof {
        lemma_item_views(items@);
        assert(sig_models(out@) =~= Seq::empty());
    }
    let mut i: usize = 0;
    while i < items.len()
        invariant
            i <= items.len(),
            none is None,
            names == string_views(enums@),
            views == item_views(items@),
            views.len() == items@.len(),
            sig_models(out@) == all_sigs(names, views, i as nat),
        decreases items.len() - i,
    {
        proof {
            lemma_item_views(items@);
            assert(views[i as int] == items@[i as int].model());
        }
        match &items[i] {
            Item::FnDef(f) => {
                assert(views[i as int] == ItemView::FnDef(f.model()));
                let sig = sig_from(enums, &none, f);
                let ghost before = out@;
                out.push(sig);
                assert(sig_models(out@) =~= sig_models(before).push(sig.model()));
            },
            Item::Implement(d) => {
                assert(views[i as int] == ItemView::Implement(d.model()));
                proof {
                    lemma_fn_def_views(d.functions@);
                }
                let owner: Option<String> = Some(d.target.clone());
                add_sigs(&mut out, enums, &owner, &d.functions);
            },
            Item::ModelDef(d) => {
                assert(views[i as int] == ItemView::ModelDef(d.model()));
                proof {
                    lemma_fn_def_views(d.functions@);
                }
                let owner: Option<String> = Some(d.name.clone());
                add_sigs(&mut out, enums, &owner, &d.functions);
            },
            _ => {},
        }
        i = i + 1;
    }
    out
}

/// A program without anything.
#[verifier::spinoff_prover]
fn nothing() -> (r: HirProgram)
    ensures
        r.model() == empty_program(),
{
    let r = HirProgram {
        structs: Vec::new(),
        enums: Vec::new(),
        fns: Vec::new(),
        models: Vec::new(),
        impls: Vec::new(),
        intrinsics: Vec::new(),
        constants: Vec::new(),
    };
    proof {
        lemma_hir_struct_views(r.structs@);
        assert(hir_struct_views(r.structs@) =~= Seq::empty());
        lemma_hir_enum_views(r.enums@);
        assert(hir_enum_views(r.enums@) =~= Seq::empty());
        lemma_hir_fn_views(r.fns@);
        assert(hir_fn_views(r.fns@) =~= Seq::empty());
        lemma_hir_model_views(r.models@);
        assert(hir_model_views(r.models@) =~= Seq::empty());
        lemma_hir_impl_views(r.impls@);
        assert(hir_impl_views(r.impls@) =~= Seq::empty());
        lemma_intrinsic_decl_views(r.intrinsics@);
        assert(intrinsic_decl_views(r.intrinsics@) =~= Seq::empty());
        lemma_string_views(r.constants@);
        assert(string_views(r.constants@) =~= Seq::empty());
    }
    r
}

/// The structures, enumerations and constants of a program.
#[verifier::spinoff_prover]
#[verifier::rlimit(30)]
fn declare(enums: &Vec<String>, items: &Vec<Item>) -> (r: HirProgram)
    ensures
        r.model() == declared(string_views(enums@), item_views(items@), items@.len()),
{
    let ghost views = item_views(items@);
    let ghost names = string_views(enums@);
    let none: Option<String> = None;
    let mut p = nothing();
    proof {
        lemma_item_views(items@);
    }
    let mut i: usize = 0;
    while i < items.len()
        invariant
            i <= items.len(),
            none is None,
            names == string_views(enums@),
            views == item_views(items@),
            views.len() == items@.len(),
            p.model() == declared(names, views, i as nat),
        decreases items.len() - i,
    {
        proof {
            lemma_item_views(items@);
            assert(views[i as int] == items@[i as int].model());
        }
        match &items[i] {
            Item::StructDef(s) => {
                assert(views[i as int] == ItemView::StructDef(s.model()));
                let x = HirStruct {
                    name: s.name.clone(),
                    generic_params: dup_generic_param_list(&s.generic_params),
                    fields: fields_of(enums, &none, &s.fields),
                };
                proof {
                    lemma_hir_struct_push(p.structs@, x);
                }
                p.structs.push(x);
            },
            Item::EnumDef(e) => {
                assert(views[i as int] == ItemView::EnumDef(e.model()));
                let x = HirEnum {
                    name: e.name.clone(),
                    generic_params: dup_generic_param_list(&e.generic_params),
                    variants: variants_of(enums, &e.variants),
                };
                proof {
                    lemma_hir_enum_push(p.enums@, x);
                }
                p.enums.push(x);
            },
            Item::ConstDef(d) => {
                assert(views[i as int] == ItemView::ConstDef(d.model()));
                let name = d.name.clone();
                proof {
                    lemma_string_push(p.constants@, name);
                }
                p.constants.push(name);
            },
            _ => {},
        }
        i = i + 1;
    }
    p
}

/// The statements of a function that returns `ret`, with the function's value.
#[verifier::spinoff_prover]
fn give_value(stmts: Vec<HirStmt>, ty: &Type, ret: &Type) -> (r: Result<Vec<HirStmt>, String>)
    ensures
        ({
            let want = with_value(hir_stmt_views(stmts@), ty.model(), ret.model());
            match r {
                Ok(v) => want == Ok::<Seq<HirStmtView>, Chars>(hir_stmt_views(v@)),
                Err(m) => want == Err::<Seq<HirStmtView>, Chars>(m@),
            }
        }),
{
    let ghost views = hir_stmt_views(stmts@);
    proof {
        lemma_hir_stmt_views(stmts@);
    }
    if ret.is_unit() {
        return Ok(stmts);
    }
    let n: usize = stmts.len();
    let mut rest = stmts;
    if n > 0 {
        assert(views.last() == stmts@.last().model());
        let valued: bool = match &rest[n - 1] {
            HirStmt::Expr { expr } => true,
            _ => false,
        };
        if valued {
            let last = rest.pop();
            proof {
                lemma_hir_stmt_views(rest@);
                assert(hir_stmt_views(rest@) =~= views.drop_last());
            }
            if let Some(HirStmt::Expr { expr }) = last {
                assert(expr.model().ty == expr.ty.model());
                if !suits(&expr.ty, ret) {
                    return Err("type mismatch in the value that is returned".to_string());
                }
                let s = HirStmt::Return { expr: Some(expr) };
                assert(s.model() == HirStmtView::Return { expr: Some(expr.model()) });
                proof {
                    lemma_hir_stmt_push(rest@, s);
                }
                rest.push(s);
            }
            return Ok(rest);
        }
    }
    if ty.is_never() {
        Ok(rest)
    } else {
        Err("function does not return a value".to_string())
    }
}

/// A function with its types.
#[verifier::spinoff_prover]
#[verifier::rlimit(30)]
fn check_fn(whole: &Whole, me: &Option<String>, f: &FnDef) -> (r: Result<HirFn, String>)
    ensures
        match r {
            Ok(g) => typed_fn(whole.model(), qualifier_model(*me), f.model()) == Ok::<
                HirFnView,
                Chars,
            >(g.model()),
            Err(m) => typed_fn(whole.model(), qualifier_model(*me), f.model()) == Err::<
                HirFnView,
                Chars,
            >(m@),
        },
{
    let params = fields_of(&whole.enums, me, &f.params);
    let ret = resolve_type(&whole.enums, me, &written_result(f));
    let ghost env = fields_env(hir_field_views(params@));
    let mut vars: Vec<(String, Type)> = Vec::new();
    proof {
        lemma_hir_field_views(params@);
        assert(env_of(vars@) =~= env.take(0));
    }
    let mut i: usize = 0;
    while i < params.len()
        invariant
            i <= params.len(),
            hir_field_views(params@).len() == params@.len(),
            env == fields_env(hir_field_views(params@)),
            env_of(vars@) == env.take(i as int),
        decreases params.len() - i,
    {
        let ghost before = vars@;
        proof {
            lemma_hir_field_views(params@);
            assert(hir_field_views(params@)[i as int] == params@[i as int].model());
        }
        let name = params[i].name.clone();
        let t = params[i].ty.dup();
        vars.push((name, t));
        assert(env_of(vars@) =~= env_of(before).push((name@, t.model())));
        assert(env[i as int] == (name@, t.model()));
        assert(env.take(i + 1) =~= env.take(i as int).push(env[i as int]));
        i = i + 1;
    }
    assert(env.take(i as int) =~= env);
    let mut checker = Checker {
        whole,
        me: dup_name(me),
        ret: ret.dup(),
        looping: false,
        vars,
    };
    assert(f.model().body.stmts == stmt_views(f.body.stmts@)) by {
        assert(f.model().body == f.body.model());
    }
    let (all, ty) = match checker.check_stmts(&f.body.stmts) {
        Err(m) => {
            return Err(m);
        },
        Ok(x) => x,
    };
    let stmts = match give_value(all, &ty, &ret) {
        Err(m) => {
            return Err(m);
        },
        Ok(v) => v,
    };
    let body = HirBlock { stmts };
    assert(body.model() == HirBlockView { stmts: hir_stmt_views(stmts@) });
    let effects: Vec<String> = Vec::new();
    proof {
        lemma_string_views(effects@);
        assert(string_views(effects@) =~= Seq::empty());
    }
    Ok(
        HirFn {
            name: f.name.clone(),
            generic_params: dup_generic_param_list(&f.generic_params),
            params,
            return_type: ret,
            body,
            is_forward: false,
            effects,
        },
    )
}

/// The functions of a type.
#[verifier::spinoff_prover]
fn check_fns(whole: &Whole, me: &Option<String>, list: &Vec<FnDef>) -> (r: Result<
    Vec<HirFn>,
    String,
>)
    ensures
        ({
            let want = typed_fns(
                whole.model(),
                qualifier_model(*me),
                fn_def_views(list@),
                0,
                Seq::empty(),
            );
            match r {
                Ok(v) => want == Ok::<Seq<HirFnView>, Chars>(hir_fn_views(v@)),
                Err(m) => want == Err::<Seq<HirFnView>, Chars>(m@),
            }
        }),
{
    let ghost k = whole.model();
    let ghost owner = qualifier_model(*me);
    let ghost views = fn_def_views(list@);
    let mut out: Vec<HirFn> = Vec::new();
    proof {
        lemma_fn_def_views(list@);
        lemma_hir_fn_views(out@);
        assert(hir_fn_views(out@) =~= Seq::empty());
    }
    let mut i: usize = 0;
    while i < list.len()
        invariant
            i <= list.len(),
            k == whole.model(),
            owner == qualifier_model(*me),
            views == fn_def_views(list@),
            views.len() == list@.len(),
            typed_fns(k, owner, views, 0, Seq::empty()) == typed_fns(
                k,
                owner,
                views,
                i as nat,
                hir_fn_views(out@),
            ),
        decreases list.len() - i,
    {
        proof {
            lemma_fn_def_views(list@);
            assert(views[i as int] == list@[i as int].model());
        }
        match check_fn(whole, me, &list[i]) {
            Err(m) => {
                return Err(m);
            },
            Ok(g) => {
                proof {
                    lemma_hir_fn_push(out@, g);
                }
                out.push(g);
            },
        }
        i = i + 1;
    }
    Ok(out)
}

/// Checks the value of a constant.
#[verifier::spinoff_prover]
fn check_const(whole: &Whole, d: &ConstDef) -> (r: Result<(), String>)
    ensures
        ({
            let k = whole.model();
            match typed(around_const(k), Seq::empty(), d.model().value) {
                Err(m) => r matches Err(e) && e@ == m,
                Ok(x) => if fits(x.ty, resolved(k.enums, None, d.model().ty)) {
                    r is Ok
                } else {
                    r matches Err(e) && e@ == "type mismatch in the definition of `"@ + d.name@
                        + "`"@
                },
            }
        }),
{
    let none: Option<String> = None;
    let mut checker = Checker {
        whole,
        me: None,
        ret: Type::Unit,
        looping: false,
        vars: Vec::new(),
    };
    assert(checker.env() =~= Seq::empty());
    let x = match checker.check_expr(&d.value) {
        Err(m) => {
            return Err(m);
        },
        Ok(x) => x,
    };
    assert(x.model().ty == x.ty.model());
    let want = resolve_type(&whole.enums, &none, &d.ty);
    if suits(&x.ty, &want) {
        Ok(())
    } else {
        Err(join3("type mismatch in the definition of `", d.name.as_str(), "`"))
    }
}

/// Gives the expressions of a program their types.
#[derive(Debug)]
pub struct TypeChecker {}

impl TypeChecker {
    /// A checker, which keeps nothing from one program to the next.
    pub fn new() -> (r: Self) {
        TypeChecker {  }
    }

    /// A program with its types, or why it has none.
    #[verifier::spinoff_prover]
    #[verifier::rlimit(60)]
    pub fn check_program(&mut self, program: &Program) -> (r: Result<HirProgram, String>)
        ensures
            match r {
                Ok(p) => typed_program(program.model()) == Ok::<HirProgramView, Chars>(p.model()),
                Err(m) => typed_program(program.model()) == Err::<HirProgramView, Chars>(m@),
            },
            *final(self) == *old(self),
    {
        let items = &program.items;
        let ghost views = item_views(items@);
        proof {
            lemma_item_views(items@);
        }
        let enums = enums_of_items(items);
        let hir = declare(&enums, items);
        let sigs = sigs_of_items(&enums, items);
        let mut p = hir.dup();
        let whole = Whole { shared: SharedContext::new(&hir), sigs, enums };
        let ghost k = whole.model();
        assert(k == known_of(views));
        let none: Option<String> = None;
        let mut i: usize = 0;
        while i < items.len()
            invariant
                i <= items.len(),
                none is None,
                k == whole.model(),
                views == item_views(items@),
                views.len() == items@.len(),
                program.model().items == views,
                k == known_of(views),
                typed_program(program.model()) == typed_items(k, views, i as nat, p.model()),
            decreases items.len() - i,
        {
            proof {
                lemma_item_views(items@);
                assert(views[i as int] == items@[i as int].model());
            }
            match &items[i] {
                Item::FnDef(f) => {
                    assert(views[i as int] == ItemView::FnDef(f.model()));
                    match check_fn(&whole, &none, f) {
                        Err(m) => {
                            return Err(m);
                        },
                        Ok(g) => {
                            proof {
                                lemma_hir_fn_push(p.fns@, g);
                            }
                            p.fns.push(g);
                        },
                    }
                },
                Item::ModelDef(d) => {
                    assert(views[i as int] == ItemView::ModelDef(d.model()));
                    let owner: Option<String> = Some(d.name.clone());
                    match check_fns(&whole, &owner, &d.functions) {
                        Err(m) => {
                            return Err(m);
                        },
                        Ok(functions) => {
                            let x = HirModel { name: d.name.clone(), functions };
                            proof {
                                lemma_hir_model_push(p.models@, x);
                            }
                            p.models.push(x);
                        },
                    }
                },
                Item::Implement(d) => {
                    assert(views[i as int] == ItemView::Implement(d.model()));
                    let owner: Option<String> = Some(d.target.clone());
                    match check_fns(&whole, &owner, &d.functions) {
                        Err(m) => {
                            return Err(m);
                        },
                        Ok(functions) => {
                            let x = HirImpl { target: d.target.clone(), functions };
                            proof {
                                lemma_hir_impl_push(p.impls@, x);
                            }
                            p.impls.push(x);
                        },
                    }
                },
                Item::ConstDef(d) => {
                    assert(views[i as int] == ItemView::ConstDef(d.model()));
                    if let Err(m) = check_const(&whole, d) {
                        return Err(m);
                    }
                },
                _ => {},
            }
            i = i + 1;
        }
        Ok(p)
    }
}

} // verus!
