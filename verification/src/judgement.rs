//! What it means for a program to be well typed, and that every accepted program is.
use crate::ast::{
    BinaryOp, BlockView, CallArgView, ExprKindView, ExprView, FnDefView, ItemView, LiteralView,
    MatchArmView, ProgramView, StmtView, TypeView, UnaryOp,
};
use crate::hir::{
    HirBlockView, HirCallArgView, HirExprKindView, HirExprView, HirFieldView, HirFnView,
    HirImplView, HirMatchArmView, HirModelView, HirProgramView, HirStmtView,
};
use crate::text::Chars;
use crate::typing::{
    arg_expr, arg_types, Around, binary_type, bindings, call_type, declared, element_type, Env,
    env_after, fits, is_castable, joined, Known, known_of, SigView, typed, typed_arg, typed_args,
    typed_arm, typed_arms, typed_block, typed_elements, typed_fields, typed_fn, typed_fns,
    typed_items, typed_iterable, typed_program, typed_rule, typed_stmt, typed_stmt_rule,
    typed_stmts, unary_type, var_type,
};
use vstd::prelude::*;

verus! {

/// Whether a value of one type may stand for one of the other: what never comes may stand
/// for anything.
pub open spec fn stands_for(t: TypeView, want: TypeView) -> bool {
    t == want || t == TypeView::Never
}

/// The types of whole numbers.
pub open spec fn whole(t: TypeView) -> bool {
    match t {
        TypeView::I8 | TypeView::I16 | TypeView::I32 | TypeView::I64 | TypeView::I128 => true,
        TypeView::ISize | TypeView::U8 | TypeView::U16 | TypeView::U32 | TypeView::U64 => true,
        TypeView::U128 | TypeView::USize => true,
        _ => false,
    }
}

/// The types of whole numbers without a sign.
pub open spec fn unsigned(t: TypeView) -> bool {
    match t {
        TypeView::U8 | TypeView::U16 | TypeView::U32 | TypeView::U64 | TypeView::U128 => true,
        TypeView::USize => true,
        _ => false,
    }
}

/// The types of numbers.
pub open spec fn numeric(t: TypeView) -> bool {
    whole(t) || t == TypeView::F16 || t == TypeView::F32 || t == TypeView::F64
}

/// Whether an operator may stand between operands of those types, and what it gives.
pub open spec fn operator_gives(op: BinaryOp, l: TypeView, r: TypeView, ty: TypeView) -> bool {
    if l == TypeView::Never && r == TypeView::Never {
        ty == TypeView::Never
    } else {
        match op {
            BinaryOp::Add | BinaryOp::Sub | BinaryOp::Mul | BinaryOp::Div | BinaryOp::Mod => {
                numeric(ty) && stands_for(l, ty) && stands_for(r, ty)
            },
            BinaryOp::Eq | BinaryOp::Neq => ty == TypeView::Bool && (stands_for(l, r) || stands_for(
                r,
                l,
            )),
            BinaryOp::Lt | BinaryOp::Gt | BinaryOp::Le | BinaryOp::Ge => ty == TypeView::Bool && (
            stands_for(l, r) || stands_for(r, l)) && (l == TypeView::Never || l == TypeView::Char
                || numeric(l)) && (r == TypeView::Never || r == TypeView::Char || numeric(r)),
            BinaryOp::And | BinaryOp::Or => ty == TypeView::Bool && stands_for(l, TypeView::Bool)
                && stands_for(r, TypeView::Bool),
        }
    }
}

/// Whether an operator may stand before an operand of that type, which it then gives.
pub open spec fn sign_gives(op: UnaryOp, t: TypeView, ty: TypeView) -> bool {
    ty == t && (t == TypeView::Never || match op {
        UnaryOp::Not => t == TypeView::Bool,
        UnaryOp::Neg => numeric(t) && !unsigned(t),
    })
}

/// The type of what one of two branches gives.
pub open spec fn branches_give(a: TypeView, b: TypeView, ty: TypeView) -> bool {
    if stands_for(a, b) {
        ty == b
    } else if stands_for(b, a) {
        ty == a
    } else {
        ty == TypeView::Unit
    }
}

/// Whether a variable has that type: its innermost binding does.
pub open spec fn bound(env: Env, name: Chars, ty: TypeView) -> bool {
    exists|k: int|
        0 <= k < env.len() && (#[trigger] env[k]).0 == name && env[k].1 == ty && forall|j: int|
            k < j < env.len() ==> (#[trigger] env[j]).0 != name
}

/// The type of a literal.
pub open spec fn literal_has(l: LiteralView, ty: TypeView) -> bool {
    match ty {
        TypeView::I8 => l is Int8,
        TypeView::I16 => l is Int16,
        TypeView::I32 => l is Int32,
        TypeView::I64 => l is Int64,
        TypeView::I128 => l is Int128,
        TypeView::ISize => l is Isize,
        TypeView::U8 => l is Uint8,
        TypeView::U16 => l is Uint16,
        TypeView::U32 => l is Uint32,
        TypeView::U64 => l is Uint64,
        TypeView::U128 => l is Uint128,
        TypeView::USize => l is Usize,
        TypeView::F64 => l is Float,
        TypeView::Str => l is Str,
        TypeView::Bool => l is Bool,
        TypeView::Char => l is Char,
        TypeView::Unit => l is Unit,
        _ => false,
    }
}

/// Whether the values of a type have elements of the other, behind any references.
pub open spec fn has_elements(t: TypeView, elem: TypeView) -> bool
    decreases t,
{
    match t {
        TypeView::Array(e, _) => *e == elem,
        TypeView::Slice(e) => *e == elem,
        TypeView::Ref { mutable, inner } => has_elements(*inner, elem),
        _ => false,
    }
}

/// Whether a value of one type may be converted to the other.
pub open spec fn converts(t: TypeView, to: TypeView) -> bool {
    ||| stands_for(t, to)
    ||| numeric(to) && (numeric(t) || t == TypeView::Bool || t == TypeView::Char)
    ||| t == TypeView::U8 && to == TypeView::Char
}

/// Whether a type is written as it is meant: it holds no name.
pub open spec fn nameless(t: TypeView) -> bool {
    match t {
        TypeView::Struct(_) | TypeView::SelfType | TypeView::Ref { .. } => false,
        TypeView::Array(_, _) | TypeView::Slice(_) => false,
        _ => true,
    }
}

/// Whether a call of a function without type parameters has arguments of the types of its
/// parameters, behind the receiver of a method, and the type that the function returns.
pub open spec fn call_fits(
    sig: SigView,
    args: Seq<HirCallArgView>,
    is_method: bool,
    ty: TypeView,
) -> bool {
    &&& sig.params.len() == args.len()
    &&& sig.generics.len() == 0 && (forall|k: int|
        0 <= k < sig.params.len() ==> !(#[trigger] sig.params[k] is Param)) && !(sig.ret is Param)
        ==> {
        &&& ty == sig.ret
        &&& forall|k: int|
            0 <= k < args.len() && (k > 0 || !is_method) ==> {
                let want = sig.params[k];
                let t = arg_expr(#[trigger] args[k]).ty;
                stands_for(t, want) || (want matches TypeView::Ref { mutable, inner } && t
                    == *inner)
            }
    }
}

/// Whether `h` is the expression `e` with types that fit: its parts are those of `e`, in
/// their places, and their types are such that each operator, condition, element and call
/// gets what it takes.
pub open spec fn judged(c: Around, env: Env, e: ExprView, h: HirExprView) -> bool
    decreases e, 1nat,
{
    match e.kind {
        ExprKindView::Literal(l) => h.kind == HirExprKindView::Literal(l) && literal_has(l, h.ty),
        ExprKindView::Ident(name) => h.kind == HirExprKindView::Ident(name) && bound(
            env,
            name,
            h.ty,
        ),
        ExprKindView::Unary { op, expr } => {
            h.kind matches HirExprKindView::Unary { op: op1, expr: x } && op1 == op && judged(
                c,
                env,
                *expr,
                *x,
            ) && sign_gives(op, x.ty, h.ty)
        },
        ExprKindView::BinaryOp { op, left, right } => {
            h.kind matches HirExprKindView::BinaryOp { op: op1, left: l, right: r } && op1 == op
                && judged(c, env, *left, *l) && judged(c, env, *right, *r) && operator_gives(
                op,
                l.ty,
                r.ty,
                h.ty,
            )
        },
        ExprKindView::Cast { expr, ty } => {
            h.kind matches HirExprKindView::Cast { expr: x, ty: to } && judged(c, env, *expr, *x)
                && h.ty == to && converts(x.ty, to) && (nameless(ty) ==> to == ty)
        },
        ExprKindView::If { kind, cond, then_expr, else_expr } => h.kind matches HirExprKindView::If {
            kind: kind1,
            cond: cond1,
            then_expr: then1,
            else_expr: else1,
        } && kind1 == kind && judged(c, env, *cond, *cond1) && stands_for(cond1.ty, TypeView::Bool)
            && judged(c, env, *then_expr, *then1) && match else_expr {
            None => else1 is None && h.ty == TypeView::Unit,
            Some(y) => else1 matches Some(y1) && judged(c, env, *y, *y1) && branches_give(
                then1.ty,
                y1.ty,
                h.ty,
            ),
        },
        ExprKindView::Match(m) => h.kind matches HirExprKindView::Match { cond, arms } && judged(
            c,
            env,
            *m.cond,
            *cond,
        ) && arms.len() == m.arms.len() && judged_arms(c, env, cond.ty, m.arms, arms, 0),
        ExprKindView::Call { qualifier, func, args, is_method } => {
            h.kind matches HirExprKindView::Call {
                qualifier: qualifier1,
                func: func1,
                generic_args,
                args: args1,
                is_method: is_method1,
            } && qualifier1 == qualifier && func1 == func && is_method1 == is_method && args1.len()
                == args.len() && judged_args(c, env, args, args1, 0)
        },
        ExprKindView::EnumVariantConstruction { enum_name, variant_name, args } => {
            match h.kind {
                HirExprKindView::EnumVariantConstruction {
                    enum_name: enum_name1,
                    generic_args,
                    variant_name: variant_name1,
                    args: args1,
                } => enum_name1 == enum_name && variant_name1 == variant_name && h.ty
                    == TypeView::Enum(enum_name) && args1.len() == args.len() && judged_args(
                    c,
                    env,
                    args,
                    args1,
                    0,
                ),
                HirExprKindView::Call { qualifier, func, generic_args, args: args1, is_method } => {
                    qualifier == Some(enum_name) && func == variant_name && !is_method
                        && args1.len() == args.len() && judged_args(c, env, args, args1, 0)
                },
                _ => false,
            }
        },
        ExprKindView::EnumVariantAccess { enum_name, variant_name } => h.kind
            == HirExprKindView::EnumVariantAccess { enum_name, variant_name } && h.ty
            == TypeView::Enum(enum_name),
        ExprKindView::FieldAccess { struct_expr, field_name } => {
            h.kind matches HirExprKindView::FieldAccess { struct_expr: x, field_name: name }
                && name == field_name && judged(c, env, *struct_expr, *x)
        },
        ExprKindView::StructInit { struct_name, fields } => {
            h.kind matches HirExprKindView::StructInit {
                struct_name: name,
                generic_args,
                fields: fields1,
            } && name == struct_name && h.ty == TypeView::Struct(struct_name) && fields1.len()
                == fields.len() && judged_fields(c, env, fields, fields1, 0)
        },
        ExprKindView::ArrayLiteral(list) => h.kind matches HirExprKindView::ArrayLiteral(es)
            && es.len() == list.len() && (h.ty matches TypeView::Array(elem, n)
            && judged_list(c, env, list, es, *elem, 0)),
        ExprKindView::Index { expr, index } => {
            h.kind matches HirExprKindView::Index { expr: x, index: i } && judged(
                c,
                env,
                *expr,
                *x,
            ) && judged(c, env, *index, *i) && has_elements(x.ty, h.ty) && (whole(i.ty) || i.ty
                == TypeView::Never)
        },
        ExprKindView::LackSlice(ty) => h.kind is LackSlice,
        ExprKindView::Block(b) => h.kind matches HirExprKindView::Block(b1) && judged_block(
            c,
            env,
            b,
            b1,
        ),
        ExprKindView::UnsafeBlock(u) => h.kind matches HirExprKindView::UnsafeBlock { kind, body }
            && kind == u.kind && judged_block(c, env, u.body, body),
        _ => false,
    }
}

pub open spec fn judged_arg(c: Around, env: Env, a: CallArgView, h: HirCallArgView) -> bool
    decreases a, 0nat,
{
    match a {
        CallArgView::Positional(e) => h matches HirCallArgView::Positional(x) && judged(
            c,
            env,
            e,
            x,
        ),
        CallArgView::Named(name, e) => h matches HirCallArgView::Named(name1, x) && name1 == name
            && judged(c, env, e, x),
    }
}

pub open spec fn judged_args(
    c: Around,
    env: Env,
    list: Seq<CallArgView>,
    hs: Seq<HirCallArgView>,
    i: nat,
) -> bool
    decreases list, list.len() - i,
{
    i >= list.len() || (judged_arg(c, env, list[i as int], hs[i as int]) && judged_args(
        c,
        env,
        list,
        hs,
        i + 1,
    ))
}

pub open spec fn judged_fields(
    c: Around,
    env: Env,
    list: Seq<(Chars, ExprView)>,
    hs: Seq<(Chars, HirExprView)>,
    i: nat,
) -> bool
    decreases list, list.len() - i,
{
    i >= list.len() || (hs[i as int].0 == list[i as int].0 && judged(
        c,
        env,
        list[i as int].1,
        hs[i as int].1,
    ) && judged_fields(c, env, list, hs, i + 1))
}

/// The elements of an array: each may stand for one of its type.
pub open spec fn judged_list(
    c: Around,
    env: Env,
    list: Seq<ExprView>,
    hs: Seq<HirExprView>,
    ty: TypeView,
    i: nat,
) -> bool
    decreases list, list.len() - i,
{
    i >= list.len() || (judged(c, env, list[i as int], hs[i as int]) && stands_for(
        hs[i as int].ty,
        ty,
    ) && judged_list(c, env, list, hs, ty, i + 1))
}

/// The arms of a `match`: each has its pattern, and its body is judged with what the pattern
/// binds.
pub open spec fn judged_arms(
    c: Around,
    env: Env,
    t: TypeView,
    list: Seq<MatchArmView>,
    hs: Seq<HirMatchArmView>,
    i: nat,
) -> bool
    decreases list, list.len() - i,
{
    i >= list.len() || (judged_arm(c, env, t, list[i as int], hs[i as int]) && judged_arms(
        c,
        env,
        t,
        list,
        hs,
        i + 1,
    ))
}

pub open spec fn judged_arm(
    c: Around,
    env: Env,
    t: TypeView,
    arm: MatchArmView,
    h: HirMatchArmView,
) -> bool
    decreases arm, 0nat,
{
    h.pattern == arm.pattern && match bindings(c, t, arm.pattern) {
        Ok(vars) => judged(c, env + vars, *arm.expr, h.expr),
        Err(_) => false,
    }
}

/// A block: its statements, each with the variables of those before it.
pub open spec fn judged_block(c: Around, env: Env, b: BlockView, h: HirBlockView) -> bool
    decreases b, 0nat,
{
    h.stmts.len() == b.stmts.len() && judged_stmts(c, env, b.stmts, h.stmts, 0)
}

pub open spec fn judged_stmts(
    c: Around,
    env: Env,
    list: Seq<StmtView>,
    hs: Seq<HirStmtView>,
    i: nat,
) -> bool
    decreases list, list.len() - i,
{
    i >= list.len() || (judged_stmt(c, env, list[i as int], hs[i as int]) && judged_stmts(
        c,
        scope_after(env, hs[i as int]),
        list,
        hs,
        i + 1,
    ))
}

/// The variables behind a statement: a definition adds its own.
pub open spec fn scope_after(env: Env, h: HirStmtView) -> Env {
    match h {
        HirStmtView::Let { name, ty: Some(t), init, mutable, persist } => env + seq![(name, t)],
        HirStmtView::Let { name, ty: None, init, mutable, persist } => env + seq![(name, init.ty)],
        _ => env,
    }
}

/// Whether `h` is the statement `s` with types that fit: what is assigned may stand for
/// the target, what is returned for the function's value, a condition for a truth value,
/// and `break` stands in a loop.
pub open spec fn judged_stmt(c: Around, env: Env, s: StmtView, h: HirStmtView) -> bool
    decreases s, 1nat,
{
    match s {
        StmtView::Let(l) => h matches HirStmtView::Let { name, ty, init, mutable, persist } && name
            == l.name && mutable == l.mutable && persist == l.persist && judged(
            c,
            env,
            *l.init,
            init,
        ) && match l.ty {
            None => ty is None,
            Some(t) => ty matches Some(t1) && (nameless(t) ==> t1 == t) && stands_for(init.ty, t1),
        },
        StmtView::Assign(a) => h matches HirStmtView::Assign { target, expr } && judged(
            c,
            env,
            *a.target,
            target,
        ) && judged(c, env, *a.expr, expr) && stands_for(expr.ty, target.ty),
        StmtView::ExprStmt(e) => h matches HirStmtView::Expr { expr } && judged(c, env, e, expr),
        StmtView::Return(None) => h matches HirStmtView::Return { expr } && expr is None && c.ret
            == TypeView::Unit,
        StmtView::Return(Some(e)) => h matches HirStmtView::Return { expr: Some(x) } && judged(
            c,
            env,
            e,
            x,
        ) && stands_for(x.ty, c.ret),
        StmtView::While(l) => h matches HirStmtView::While { cond, body } && judged(
            c,
            env,
            *l.cond,
            cond,
        ) && stands_for(cond.ty, TypeView::Bool) && judged_block(inside_loop(c), env, l.body, body),
        StmtView::For(l) => h matches HirStmtView::For { var, iterable, body } && var == l.var
            && match l.iterable.kind {
            ExprKindView::Range { start, end } => {
                iterable.kind matches HirExprKindView::Range { start: a, end: z } && judged(
                    c,
                    env,
                    *start,
                    *a,
                ) && judged(c, env, *end, *z) && numeric(a.ty) && stands_for(z.ty, a.ty)
                    && judged_block(inside_loop(c), env + seq![(l.var, a.ty)], l.body, body)
            },
            _ => judged(c, env, *l.iterable, iterable) && (element_type(iterable.ty) matches Some(t)
                && has_elements(iterable.ty, t) && judged_block(
                inside_loop(c),
                env + seq![(l.var, t)],
                l.body,
                body,
            )),
        },
        StmtView::Loop(l) => h matches HirStmtView::Loop { body } && judged_block(
            inside_loop(c),
            env,
            l.body,
            body,
        ),
        StmtView::Break => h is Break && c.looping,
    }
}

/// The same within a loop.
pub open spec fn inside_loop(c: Around) -> Around {
    Around { looping: true, ..c }
}

proof fn lemma_bound(env: Env, name: Chars)
    ensures
        var_type(env, name) matches Some(ty) ==> bound(env, name, ty),
    decreases env.len(),
{
    if env.len() > 0 {
        let n = env.len() - 1;
        if env.last().0 == name {
            assert(env[n].0 == name && env[n].1 == env.last().1);
        } else if let Some(ty) = var_type(env.drop_last(), name) {
            lemma_bound(env.drop_last(), name);
            let before = env.drop_last();
            let k = choose|k: int|
                0 <= k < before.len() && (#[trigger] before[k]).0 == name && before[k].1 == ty
                    && forall|j: int| k < j < before.len() ==> (#[trigger] before[j]).0 != name;
            assert(env[k] == before[k]);
            assert forall|j: int| k < j < env.len() implies (#[trigger] env[j]).0 != name by {
                if j < n {
                    assert(before[j] == env[j]);
                }
            }
        }
    }
}

proof fn lemma_elements(t: TypeView)
    ensures
        element_type(t) matches Some(elem) ==> has_elements(t, elem),
    decreases t,
{
    if let TypeView::Ref { mutable, inner } = t {
        lemma_elements(*inner);
    }
}

#[verifier::spinoff_prover]
#[verifier::rlimit(100)]
proof fn lemma_typed(c: Around, env: Env, e: ExprView)
    ensures
        typed(c, env, e) matches Ok(h) ==> judged(c, env, e, h),
    decreases e, 1nat,
{
    reveal(typed_rule);
    match e.kind {
        ExprKindView::Ident(name) => lemma_bound(env, name),
        ExprKindView::Unary { op, expr } => lemma_typed(c, env, *expr),
        ExprKindView::BinaryOp { op, left, right } => {
            lemma_typed(c, env, *left);
            lemma_typed(c, env, *right);
        },
        ExprKindView::Cast { expr, ty } => lemma_typed(c, env, *expr),
        ExprKindView::If { kind, cond, then_expr, else_expr } => {
            lemma_typed(c, env, *cond);
            lemma_typed(c, env, *then_expr);
            if let Some(y) = else_expr {
                lemma_typed(c, env, *y);
            }
        },
        ExprKindView::Match(m) => {
            lemma_typed(c, env, *m.cond);
            if let Ok(cond) = typed(c, env, *m.cond) {
                lemma_typed_arms(c, env, cond.ty, m.arms, 0, Seq::empty(), TypeView::Never);
            }
        },
        ExprKindView::Call { qualifier, func, args, is_method } => {
            lemma_typed_args(c, env, args, 0, Seq::empty());
        },
        ExprKindView::EnumVariantConstruction { enum_name, variant_name, args } => {
            lemma_typed_args(c, env, args, 0, Seq::empty());
        },
        ExprKindView::FieldAccess { struct_expr, field_name } => {
            lemma_typed(c, env, *struct_expr);
        },
        ExprKindView::StructInit { struct_name, fields } => {
            lemma_typed_fields(c, env, struct_name, fields, 0, Seq::empty());
        },
        ExprKindView::ArrayLiteral(list) => {
            lemma_typed_elements(c, env, list, 0, Seq::empty(), TypeView::Never);
        },
        ExprKindView::Index { expr, index } => {
            lemma_typed(c, env, *expr);
            lemma_typed(c, env, *index);
            if let Ok(x) = typed(c, env, *expr) {
                lemma_elements(x.ty);
            }
        },
        ExprKindView::Block(b) => lemma_typed_block(c, env, b),
        ExprKindView::UnsafeBlock(u) => lemma_typed_block(c, env, u.body),
        _ => {},
    }
}

proof fn lemma_typed_args(
    c: Around,
    env: Env,
    list: Seq<CallArgView>,
    i: nat,
    done: Seq<HirCallArgView>,
)
    requires
        done.len() == i,
        i <= list.len(),
    ensures
        typed_args(c, env, list, i, done) matches Ok(hs) ==> hs.len() == list.len() && judged_args(
            c,
            env,
            list,
            hs,
            i,
        ) && forall|k: int| 0 <= k < i ==> #[trigger] hs[k] == done[k],
    decreases list, list.len() - i,
{
    if i < list.len() {
        lemma_typed_arg(c, env, list[i as int]);
        if let Ok(a) = typed_arg(c, env, list[i as int]) {
            let more = done.push(a);
            lemma_typed_args(c, env, list, i + 1, more);
            if let Ok(hs) = typed_args(c, env, list, i + 1, more) {
                assert(hs[i as int] == more[i as int]);
                assert forall|k: int| 0 <= k < i implies #[trigger] hs[k] == done[k] by {
                    assert(more[k] == done[k]);
                }
            }
        }
    }
}

proof fn lemma_typed_arg(c: Around, env: Env, a: CallArgView)
    ensures
        typed_arg(c, env, a) matches Ok(h) ==> judged_arg(c, env, a, h),
    decreases a, 0nat,
{
    match a {
        CallArgView::Positional(e) => lemma_typed(c, env, e),
        CallArgView::Named(_, e) => lemma_typed(c, env, e),
    }
}

proof fn lemma_typed_fields(
    c: Around,
    env: Env,
    name: Chars,
    list: Seq<(Chars, ExprView)>,
    i: nat,
    done: Seq<(Chars, HirExprView)>,
)
    requires
        done.len() == i,
        i <= list.len(),
    ensures
        typed_fields(c, env, name, list, i, done) matches Ok(hs) ==> hs.len() == list.len()
            && judged_fields(c, env, list, hs, i) && forall|k: int|
            0 <= k < i ==> #[trigger] hs[k] == done[k],
    decreases list, list.len() - i,
{
    if i < list.len() {
        let (field, e) = list[i as int];
        lemma_typed(c, env, e);
        if let Ok(x) = typed(c, env, e) {
            let more = done.push((field, x));
            lemma_typed_fields(c, env, name, list, i + 1, more);
            if let Ok(hs) = typed_fields(c, env, name, list, i + 1, more) {
                assert(hs[i as int] == more[i as int]);
                assert forall|k: int| 0 <= k < i implies #[trigger] hs[k] == done[k] by {
                    assert(more[k] == done[k]);
                }
            }
        }
    }
}

#[verifier::spinoff_prover]
#[verifier::rlimit(40)]
proof fn lemma_typed_elements(
    c: Around,
    env: Env,
    list: Seq<ExprView>,
    i: nat,
    done: Seq<HirExprView>,
    ty: TypeView,
)
    requires
        done.len() == i,
        i <= list.len(),
    ensures
        typed_elements(c, env, list, i, done, ty) matches Ok((hs, ty1)) ==> hs.len() == list.len()
            && judged_list(c, env, list, hs, ty1, i) && stands_for(ty, ty1) && forall|k: int|
            0 <= k < i ==> #[trigger] hs[k] == done[k],
    decreases list, list.len() - i,
{
    if i < list.len() {
        let e = list[i as int];
        lemma_typed(c, env, e);
        if let Ok(x) = typed(c, env, e) {
            let more = done.push(x);
            let ty2 = crate::typing::joined(ty, x.ty);
            lemma_typed_elements(c, env, list, i + 1, more, ty2);
            if let Ok((hs, ty1)) = typed_elements(c, env, list, i + 1, more, ty2) {
                assert(hs[i as int] == more[i as int]);
                assert forall|k: int| 0 <= k < i implies #[trigger] hs[k] == done[k] by {
                    assert(more[k] == done[k]);
                }
            }
        }
    }
}

proof fn lemma_typed_arms(
    c: Around,
    env: Env,
    t: TypeView,
    list: Seq<MatchArmView>,
    i: nat,
    done: Seq<HirMatchArmView>,
    ty: TypeView,
)
    requires
        done.len() == i,
        i <= list.len(),
    ensures
        typed_arms(c, env, t, list, i, done, ty) matches Ok((hs, ty1)) ==> hs.len() == list.len()
            && judged_arms(c, env, t, list, hs, i) && forall|k: int|
            0 <= k < i ==> #[trigger] hs[k] == done[k],
    decreases list, list.len() - i,
{
    if i < list.len() {
        lemma_typed_arm(c, env, t, list[i as int]);
        if let Ok(arm) = typed_arm(c, env, t, list[i as int]) {
            let more = done.push(arm);
            let ty2 = crate::typing::joined(ty, arm.expr.ty);
            lemma_typed_arms(c, env, t, list, i + 1, more, ty2);
            if let Ok((hs, ty1)) = typed_arms(c, env, t, list, i + 1, more, ty2) {
                assert(hs[i as int] == more[i as int]);
                assert forall|k: int| 0 <= k < i implies #[trigger] hs[k] == done[k] by {
                    assert(more[k] == done[k]);
                }
            }
        }
    }
}

proof fn lemma_typed_arm(c: Around, env: Env, t: TypeView, arm: MatchArmView)
    ensures
        typed_arm(c, env, t, arm) matches Ok(h) ==> judged_arm(c, env, t, arm, h),
    decreases arm, 0nat,
{
    if let Ok(vars) = bindings(c, t, arm.pattern) {
        lemma_typed(c, env + vars, *arm.expr);
    }
}

proof fn lemma_typed_block(c: Around, env: Env, b: BlockView)
    ensures
        typed_block(c, env, b) matches Ok((h, _)) ==> judged_block(c, env, b, h),
    decreases b, 0nat,
{
    lemma_typed_stmts(c, env, b.stmts, 0, Seq::empty(), TypeView::Unit);
}

#[verifier::spinoff_prover]
#[verifier::rlimit(40)]
proof fn lemma_typed_stmts(
    c: Around,
    env: Env,
    list: Seq<StmtView>,
    i: nat,
    done: Seq<HirStmtView>,
    ty: TypeView,
)
    requires
        done.len() == i,
        i <= list.len(),
    ensures
        typed_stmts(c, env, list, i, done, ty) matches Ok((hs, _)) ==> hs.len() == list.len()
            && judged_stmts(c, env, list, hs, i) && forall|k: int|
            0 <= k < i ==> #[trigger] hs[k] == done[k],
    decreases list, list.len() - i,
{
    if i < list.len() {
        lemma_typed_stmt(c, env, list[i as int]);
        if let Ok(s) = typed_stmt(c, env, list[i as int]) {
            let more = done.push(s);
            let env1 = env_after(env, s);
            assert(env1 =~= scope_after(env, s));
            let ty1 = crate::typing::stmt_type(s);
            lemma_typed_stmts(c, env1, list, i + 1, more, ty1);
            if let Ok((hs, _)) = typed_stmts(c, env1, list, i + 1, more, ty1) {
                assert(hs[i as int] == more[i as int]);
                assert forall|k: int| 0 <= k < i implies #[trigger] hs[k] == done[k] by {
                    assert(more[k] == done[k]);
                }
            }
        }
    }
}

#[verifier::spinoff_prover]
#[verifier::rlimit(60)]
proof fn lemma_typed_stmt(c: Around, env: Env, s: StmtView)
    ensures
        typed_stmt(c, env, s) matches Ok(h) ==> judged_stmt(c, env, s, h),
    decreases s, 1nat,
{
    reveal(typed_stmt_rule);
    match s {
        StmtView::Let(l) => lemma_typed(c, env, *l.init),
        StmtView::Assign(a) => {
            lemma_typed(c, env, *a.target);
            lemma_typed(c, env, *a.expr);
        },
        StmtView::ExprStmt(e) => lemma_typed(c, env, e),
        StmtView::Return(Some(e)) => lemma_typed(c, env, e),
        StmtView::While(l) => {
            lemma_typed(c, env, *l.cond);
            lemma_typed_block(inside_loop(c), env, l.body);
        },
        StmtView::For(l) => {
            match l.iterable.kind {
                ExprKindView::Range { start, end } => {
                    lemma_typed(c, env, *start);
                    lemma_typed(c, env, *end);
                },
                _ => {
                    lemma_typed(c, env, *l.iterable);
                    if let Ok(x) = typed(c, env, *l.iterable) {
                        lemma_elements(x.ty);
                    }
                },
            }
            if let Ok((_, t)) = typed_iterable(c, env, *l.iterable) {
                assert(env.push((l.var, t)) =~= env + seq![(l.var, t)]);
                lemma_typed_block(inside_loop(c), env.push((l.var, t)), l.body);
            }
        },
        StmtView::Loop(l) => lemma_typed_block(inside_loop(c), env, l.body),
        _ => {},
    }
}

/// An expression that is accepted is well typed, and the same code: its parts stay in their
/// places and get types that fit.
pub proof fn accepted_expressions_are_well_typed(c: Around, env: Env, e: ExprView)
    ensures
        typed(c, env, e) matches Ok(h) ==> judged(c, env, e, h),
{
    lemma_typed(c, env, e);
}

/// The same of a statement.
pub proof fn accepted_statements_are_well_typed(c: Around, env: Env, s: StmtView)
    ensures
        typed_stmt(c, env, s) matches Ok(h) ==> judged_stmt(c, env, s, h),
{
    lemma_typed_stmt(c, env, s);
}

/// The same of a block.
pub proof fn accepted_blocks_are_well_typed(c: Around, env: Env, b: BlockView)
    ensures
        typed_block(c, env, b) matches Ok((h, _)) ==> judged_block(c, env, b, h),
{
    lemma_typed_block(c, env, b);
}

/// A call that is accepted has the arguments that the function takes.
pub proof fn accepted_calls_fit(sig: SigView, args: Seq<HirCallArgView>, is_method: bool)
    ensures
        call_type(sig, arg_types(args), is_method) matches Ok((_, ty)) ==> call_fits(
            sig,
            args,
            is_method,
            ty,
        ),
{
    let tys = arg_types(args);
    if let Ok((_, ty)) = call_type(sig, tys, is_method) {
        assert forall|k: int|
            0 <= k < args.len() && (k > 0 || !is_method) && !(sig.params[k] is Param) implies ({
            let want = sig.params[k];
            let t = arg_expr(#[trigger] args[k]).ty;
            stands_for(t, want) || (want matches TypeView::Ref { mutable, inner } && t == *inner)
        }) by {
            assert(tys[k] == arg_expr(args[k]).ty);
        }
    }
}

/// Operators and conversions are accepted just where they fit, and each is given the one
/// type that fits.
pub proof fn operators_are_taken_where_they_fit(
    op: BinaryOp,
    sign: UnaryOp,
    l: TypeView,
    r: TypeView,
    ty: TypeView,
)
    ensures
        binary_type(op, l, r) == Some(ty) <==> operator_gives(op, l, r, ty),
        unary_type(sign, l) == Some(ty) <==> sign_gives(sign, l, ty),
        is_castable(l, ty) <==> converts(l, ty),
        joined(l, r) == ty <==> branches_give(l, r, ty),
        fits(l, ty) <==> stands_for(l, ty),
{
}

/// A variable that is bound has a type, that of its innermost binding.
pub proof fn variables_have_the_type_of_their_binding(env: Env, name: Chars, ty: TypeView)
    ensures
        var_type(env, name) == Some(ty) <==> bound(env, name, ty),
    decreases env.len(),
{
    lemma_bound(env, name);
    if bound(env, name, ty) {
        let k = choose|k: int|
            0 <= k < env.len() && (#[trigger] env[k]).0 == name && env[k].1 == ty && forall|j: int|
                k < j < env.len() ==> (#[trigger] env[j]).0 != name;
        let n = env.len() - 1;
        assert(env[n] == env.last());
        if k < n {
            let before = env.drop_last();
            assert(before[k] == env[k]);
            assert forall|j: int| k < j < before.len() implies (#[trigger] before[j]).0
                != name by {
                assert(before[j] == env[j]);
            }
            assert(bound(before, name, ty));
            variables_have_the_type_of_their_binding(before, name, ty);
        }
    }
}

// Functions and programs.

/// Whether a type is the one that is written, where it holds no name.
pub open spec fn same_nameless(written: TypeView, t: TypeView) -> bool {
    nameless(written) ==> t == written
}

/// What is known around the body of a function that returns `ret`.
pub open spec fn around_body(k: Known, me: Option<Chars>, ret: TypeView) -> Around {
    Around { ctx: k.ctx, sigs: k.sigs, enums: k.enums, me, ret, looping: false }
}

/// The parameters of a function as variables.
pub open spec fn params_scope(h: HirFnView) -> Env {
    h.params.map_values(|p: HirFieldView| (p.name, p.ty))
}

/// Whether the statements of a function are those that were judged; where the function has a
/// value, an expression at its end is returned.
pub open spec fn returns_value(ss: Seq<HirStmtView>, hs: Seq<HirStmtView>, ret: TypeView) -> bool {
    if ret == TypeView::Unit {
        hs == ss
    } else if ss.len() > 0 && ss.last() is Expr {
        &&& hs.len() == ss.len()
        &&& forall|k: int| 0 <= k < ss.len() - 1 ==> #[trigger] hs[k] == ss[k]
        &&& hs.last() == (HirStmtView::Return { expr: Some(ss.last()->Expr_expr) })
        &&& stands_for(ss.last()->Expr_expr.ty, ret)
    } else {
        hs == ss && ss.len() > 0 && (ss.last() is Return || ss.last() is Break)
    }
}

/// Whether `h` is the function `f` with types that fit: its name, its parameters and its
/// result are those of `f`, and its body is judged with the parameters as variables.
pub open spec fn judged_fn(k: Known, me: Option<Chars>, f: FnDefView, h: HirFnView) -> bool {
    &&& h.name == f.name
    &&& h.generic_params == f.generic_params
    &&& h.params.len() == f.params.len()
    &&& forall|i: int|
        0 <= i < f.params.len() ==> (#[trigger] h.params[i]).name == f.params[i].name
            && same_nameless(f.params[i].ty, h.params[i].ty)
    &&& match f.return_type {
        None => h.return_type == TypeView::Unit,
        Some(t) => same_nameless(t, h.return_type),
    }
    &&& !h.is_forward
    &&& exists|ss: Seq<HirStmtView>| #[trigger]
        judged_stmts(
            around_body(k, me, h.return_type),
            params_scope(h),
            f.body.stmts,
            ss,
            0,
        ) && ss.len() == f.body.stmts.len() && returns_value(ss, h.body.stmts, h.return_type)
}

/// The type of statements is that of the last.
proof fn lemma_stmts_type(
    c: Around,
    env: Env,
    list: Seq<StmtView>,
    i: nat,
    done: Seq<HirStmtView>,
    ty: TypeView,
)
    requires
        done.len() == i,
        i <= list.len(),
        done.len() > 0 ==> ty == crate::typing::stmt_type(done.last()),
        done.len() == 0 ==> ty == TypeView::Unit,
    ensures
        typed_stmts(c, env, list, i, done, ty) matches Ok((hs, ty1)) ==> if hs.len() > 0 {
            ty1 == crate::typing::stmt_type(hs.last())
        } else {
            ty1 == TypeView::Unit
        },
    decreases list.len() - i,
{
    if i < list.len() {
        if let Ok(s) = typed_stmt(c, env, list[i as int]) {
            lemma_stmts_type(
                c,
                env_after(env, s),
                list,
                i + 1,
                done.push(s),
                crate::typing::stmt_type(s),
            );
        }
    }
}

/// A function that is accepted is well typed, and the same function.
pub proof fn accepted_functions_are_well_typed(k: Known, me: Option<Chars>, f: FnDefView)
    ensures
        typed_fn(k, me, f) matches Ok(h) ==> judged_fn(k, me, f, h),
{
    if let Ok(h) = typed_fn(k, me, f) {
        let c = around_body(k, me, h.return_type);
        let env = crate::typing::fields_env(h.params);
        assert(env =~= params_scope(h));
        lemma_typed_stmts(c, env, f.body.stmts, 0, Seq::empty(), TypeView::Unit);
        lemma_stmts_type(c, env, f.body.stmts, 0, Seq::empty(), TypeView::Unit);
        let (ss, ty) = typed_stmts(
            c,
            env,
            f.body.stmts,
            0,
            Seq::empty(),
            TypeView::Unit,
        )->Ok_0;
        assert(judged_stmts(c, params_scope(h), f.body.stmts, ss, 0));
        assert(returns_value(ss, h.body.stmts, h.return_type));
    }
}

/// The functions among the first `n` items.
pub open spec fn free_functions(items: Seq<ItemView>, n: nat) -> Seq<FnDefView>
    decreases n,
{
    if n == 0 {
        Seq::empty()
    } else {
        match items[n - 1] {
            ItemView::FnDef(f) => free_functions(items, (n - 1) as nat).push(f),
            _ => free_functions(items, (n - 1) as nat),
        }
    }
}

/// Whether functions are those, each well typed.
pub open spec fn judged_fns(k: Known, me: Option<Chars>, fs: Seq<FnDefView>, hs: Seq<HirFnView>) -> bool {
    &&& hs.len() == fs.len()
    &&& forall|i: int| 0 <= i < fs.len() ==> judged_fn(k, me, #[trigger] fs[i], hs[i])
}

proof fn lemma_typed_items(k: Known, list: Seq<ItemView>, i: nat, p: HirProgramView)
    requires
        i <= list.len(),
        judged_fns(k, None, free_functions(list, i), p.fns),
    ensures
        typed_items(k, list, i, p) matches Ok(h) ==> judged_fns(
            k,
            None,
            free_functions(list, list.len()),
            h.fns,
        ) && h.structs == p.structs && h.enums == p.enums && h.constants == p.constants,
    decreases list.len() - i,
{
    if i < list.len() {
        match list[i as int] {
            ItemView::FnDef(f) => {
                accepted_functions_are_well_typed(k, None, f);
                if let Ok(g) = typed_fn(k, None, f) {
                    let fs = free_functions(list, i);
                    assert(free_functions(list, i + 1) == fs.push(f));
                    assert forall|j: int| 0 <= j < fs.push(f).len() implies judged_fn(
                        k,
                        None,
                        #[trigger] fs.push(f)[j],
                        p.fns.push(g)[j],
                    ) by {
                        if j < fs.len() {
                            assert(judged_fn(k, None, fs[j], p.fns[j]));
                        }
                    }
                    lemma_typed_items(k, list, i + 1, HirProgramView { fns: p.fns.push(g), ..p });
                }
            },
            ItemView::ModelDef(d) => {
                if let Ok(functions) = typed_fns(k, Some(d.name), d.functions, 0, Seq::empty()) {
                    lemma_typed_items(
                        k,
                        list,
                        i + 1,
                        HirProgramView {
                            models: p.models.push(HirModelView { name: d.name, functions }),
                            ..p
                        },
                    );
                }
            },
            ItemView::Implement(d) => {
                if let Ok(functions) = typed_fns(k, Some(d.target), d.functions, 0, Seq::empty()) {
                    lemma_typed_items(
                        k,
                        list,
                        i + 1,
                        HirProgramView {
                            impls: p.impls.push(HirImplView { target: d.target, functions }),
                            ..p
                        },
                    );
                }
            },
            _ => {
                lemma_typed_items(k, list, i + 1, p);
            },
        }
    }
}

proof fn lemma_declared(enums: Seq<Chars>, items: Seq<ItemView>, n: nat)
    ensures
        declared(enums, items, n).fns.len() == 0,
    decreases n,
{
    if n > 0 {
        lemma_declared(enums, items, (n - 1) as nat);
    }
}

/// A program that is accepted has the functions of its source, in order, each well typed.
pub proof fn accepted_programs_are_well_typed(p: ProgramView)
    ensures
        typed_program(p) matches Ok(h) ==> judged_fns(
            known_of(p.items),
            None,
            free_functions(p.items, p.items.len()),
            h.fns,
        ),
{
    let k = known_of(p.items);
    lemma_declared(k.enums, p.items, p.items.len());
    lemma_typed_items(k, p.items, 0, declared(k.enums, p.items, p.items.len()));
}

proof fn lemma_typed_fns(
    k: Known,
    me: Option<Chars>,
    list: Seq<FnDefView>,
    i: nat,
    done: Seq<HirFnView>,
)
    requires
        i <= list.len(),
        judged_fns(k, me, list.take(i as int), done),
    ensures
        typed_fns(k, me, list, i, done) matches Ok(hs) ==> judged_fns(k, me, list, hs),
    decreases list.len() - i,
{
    if i < list.len() {
        let f = list[i as int];
        accepted_functions_are_well_typed(k, me, f);
        if let Ok(g) = typed_fn(k, me, f) {
            let fs = list.take(i as int);
            assert(list.take(i as int + 1) =~= fs.push(f));
            assert forall|j: int| 0 <= j < fs.push(f).len() implies judged_fn(
                k,
                me,
                #[trigger] fs.push(f)[j],
                done.push(g)[j],
            ) by {
                if j < fs.len() {
                    assert(judged_fn(k, me, fs[j], done[j]));
                }
            }
            lemma_typed_fns(k, me, list, i + 1, done.push(g));
        }
    } else {
        assert(list.take(i as int) =~= list);
    }
}

/// The functions of a type that are accepted are those of the source, in order, each well
/// typed as one of that type.
pub proof fn accepted_methods_are_well_typed(k: Known, me: Option<Chars>, list: Seq<FnDefView>)
    ensures
        typed_fns(k, me, list, 0, Seq::empty()) matches Ok(hs) ==> judged_fns(k, me, list, hs),
{
    lemma_typed_fns(k, me, list, 0, Seq::empty());
}

} // verus!
