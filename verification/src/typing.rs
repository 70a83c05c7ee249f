//! The types of a program: what each expression, statement and item is given, and
//! what is refused.
//!
//! The type of an expression that never gives a value fits wherever a type is asked
//! for. Whether a semicolon stood behind an expression is not kept, so a value may
//! be discarded at the end of any block whose value is not asked for. Closures,
//! symbols and ranges outside of a `for` have no type, and are refused.
use crate::ast::{
    BinaryOp, BlockView, CallArgView, EnumVariantDefView, ExprKindView, ExprView, FnDefView,
    GenericParamView, IfKind, ItemView, LiteralView, MatchArmView, ParamView, PatternView,
    ProgramView, StmtView, TypeView, UnaryOp,
};
use crate::hir::{
    HirBlockView, HirCallArgView, HirEnumView, HirExprKindView, HirExprView, HirFieldView,
    HirFnView, HirImplView, HirMatchArmView, HirModelView, HirProgramView, HirStmtView,
    HirStructView, HirVariantView,
};
use crate::lowering::{Ctx, ctx_of, field_type, sole_owner, variant_index, variant_payload};
use crate::text::{Chars, decimal};
use vstd::prelude::*;

verus! {

/// The variables in scope with their types, the innermost last.
pub type Env = Seq<(Chars, TypeView)>;

/// What a call of a function has to know of it. A function of a type has that type
/// as its owner.
pub struct SigView {
    pub owner: Option<Chars>,
    pub name: Chars,
    pub generics: Seq<Chars>,
    pub params: Seq<TypeView>,
    pub ret: TypeView,
}

/// What is known around an expression: the structures and variants, the functions,
/// the names of the enumerations, the type whose function it stands in, what that
/// function returns, and whether a loop is around it.
pub struct Around {
    pub ctx: Ctx,
    pub sigs: Seq<SigView>,
    pub enums: Seq<Chars>,
    pub me: Option<Chars>,
    pub ret: TypeView,
    pub looping: bool,
}

/// The type that a name stands for.
pub open spec fn named_type(enums: Seq<Chars>, name: Chars) -> TypeView {
    if enums.contains(name) {
        TypeView::Enum(name)
    } else {
        TypeView::Struct(name)
    }
}

/// A type as it is written, with its names looked up, in a function of the type `me`.
pub open spec fn resolved(enums: Seq<Chars>, me: Option<Chars>, t: TypeView) -> TypeView
    decreases t,
{
    match t {
        TypeView::Struct(name) => named_type(enums, name),
        TypeView::SelfType => match me {
            Some(name) => named_type(enums, name),
            None => t,
        },
        TypeView::Ref { mutable, inner } => TypeView::Ref {
            mutable,
            inner: Box::new(resolved(enums, me, *inner)),
        },
        TypeView::Array(elem, n) => TypeView::Array(Box::new(resolved(enums, me, *elem)), n),
        TypeView::Slice(elem) => TypeView::Slice(Box::new(resolved(enums, me, *elem))),
        _ => t,
    }
}

impl Around {
    pub open spec fn resolve(self, t: TypeView) -> TypeView {
        resolved(self.enums, self.me, t)
    }

    pub open spec fn in_loop(self) -> Around {
        Around { looping: true, ..self }
    }

    /// Whether an enumeration has a variant.
    pub open spec fn has_variant(self, enum_name: Chars, name: Chars) -> bool {
        variant_index(self.ctx.variants, self.ctx.variants.len(), enum_name, name) is Some
    }

    /// The type of the value of a variant, if it has one.
    pub open spec fn payload(self, enum_name: Chars, name: Chars) -> Option<TypeView> {
        variant_payload(self.ctx.variants, self.ctx.variants.len(), enum_name, name)
    }
}

/// The type of a literal.
pub open spec fn literal_type(l: LiteralView) -> TypeView {
    match l {
        LiteralView::Int8(_) => TypeView::I8,
        LiteralView::Int16(_) => TypeView::I16,
        LiteralView::Int32(_) => TypeView::I32,
        LiteralView::Int64(_) => TypeView::I64,
        LiteralView::Int128(_) => TypeView::I128,
        LiteralView::Isize(_) => TypeView::ISize,
        LiteralView::Uint8(_) => TypeView::U8,
        LiteralView::Uint16(_) => TypeView::U16,
        LiteralView::Uint32(_) => TypeView::U32,
        LiteralView::Uint64(_) => TypeView::U64,
        LiteralView::Uint128(_) => TypeView::U128,
        LiteralView::Usize(_) => TypeView::USize,
        LiteralView::Float(_) => TypeView::F64,
        LiteralView::Str(_) => TypeView::Str,
        LiteralView::Bool(_) => TypeView::Bool,
        LiteralView::Char(_) => TypeView::Char,
        LiteralView::Unit => TypeView::Unit,
    }
}

/// Whether the values of a type are numbers with a fraction.
pub open spec fn is_float(t: TypeView) -> bool {
    t is F16 || t is F32 || t is F64
}

/// Whether the values of a type are numbers that may be negative.
pub open spec fn is_signed(t: TypeView) -> bool {
    t is I8 || t is I16 || t is I32 || t is I64 || t is I128 || t is ISize || is_float(t)
}

/// Whether the values of a type are numbers.
pub open spec fn is_number(t: TypeView) -> bool {
    is_signed(t) || t is U8 || t is U16 || t is U32 || t is U64 || t is U128 || t is USize
}

/// Whether a value of one type may be converted to another.
pub open spec fn is_castable(t: TypeView, to: TypeView) -> bool {
    t is Never || t == to || (is_number(to) && (is_number(t) || t is Bool || t is Char)) || (t is U8
        && to is Char)
}

/// Whether a value of type `t` may stand where one of type `want` is asked for.
pub open spec fn fits(t: TypeView, want: TypeView) -> bool {
    t is Never || t == want
}

/// The type of what two branches give: where they differ, their values are
/// discarded.
pub open spec fn joined(a: TypeView, b: TypeView) -> TypeView {
    if a is Never {
        b
    } else if b is Never || a == b {
        a
    } else {
        TypeView::Unit
    }
}

/// The type of a variable: that of its innermost binding.
pub open spec fn var_type(env: Env, name: Chars) -> Option<TypeView>
    decreases env.len(),
{
    if env.len() == 0 {
        None
    } else if env.last().0 == name {
        Some(env.last().1)
    } else {
        var_type(env.drop_last(), name)
    }
}

/// The last function with that owner and name.
pub open spec fn find_sig(sigs: Seq<SigView>, owner: Option<Chars>, name: Chars) -> Option<SigView>
    decreases sigs.len(),
{
    if sigs.len() == 0 {
        None
    } else if sigs.last().owner == owner && sigs.last().name == name {
        Some(sigs.last())
    } else {
        find_sig(sigs.drop_last(), owner, name)
    }
}

/// The type of an operator between two operands of one type, if it takes them.
pub open spec fn operator_type(op: BinaryOp, t: TypeView) -> Option<TypeView> {
    match op {
        BinaryOp::Add | BinaryOp::Sub | BinaryOp::Mul | BinaryOp::Div | BinaryOp::Mod => if is_number(
            t,
        ) {
            Some(t)
        } else {
            None
        },
        BinaryOp::Eq | BinaryOp::Neq => Some(TypeView::Bool),
        BinaryOp::Lt | BinaryOp::Gt | BinaryOp::Le | BinaryOp::Ge => if is_number(t) || t is Char {
            Some(TypeView::Bool)
        } else {
            None
        },
        BinaryOp::And | BinaryOp::Or => if t is Bool {
            Some(TypeView::Bool)
        } else {
            None
        },
    }
}

/// The type of an operator between two operands, if it takes them.
pub open spec fn binary_type(op: BinaryOp, l: TypeView, r: TypeView) -> Option<TypeView> {
    if l is Never && r is Never {
        Some(TypeView::Never)
    } else if l is Never {
        operator_type(op, r)
    } else if r is Never || l == r {
        operator_type(op, l)
    } else {
        None
    }
}

/// The type of an operator before its operand, if it takes it.
pub open spec fn unary_type(op: UnaryOp, t: TypeView) -> Option<TypeView> {
    match op {
        UnaryOp::Not => if t is Bool || t is Never {
            Some(t)
        } else {
            None
        },
        UnaryOp::Neg => if is_signed(t) || t is Never {
            Some(t)
        } else {
            None
        },
    }
}

/// The name of the type whose functions a value has.
pub open spec fn owner_of(t: TypeView) -> Option<Chars>
    decreases t,
{
    match t {
        TypeView::Struct(name) => Some(name),
        TypeView::Enum(name) => Some(name),
        TypeView::Ref { mutable, inner } => owner_of(*inner),
        _ => None,
    }
}

/// The type of the elements of a value.
pub open spec fn element_type(t: TypeView) -> Option<TypeView>
    decreases t,
{
    match t {
        TypeView::Array(elem, n) => Some(*elem),
        TypeView::Slice(elem) => Some(*elem),
        TypeView::Ref { mutable, inner } => element_type(*inner),
        _ => None,
    }
}

// Calls.

/// What a type parameter stands for: the type of the first argument, from the `i`-th
/// on, whose parameter has just that type.
pub open spec fn inferred(params: Seq<TypeView>, tys: Seq<TypeView>, name: Chars, i: nat) -> Option<
    TypeView,
>
    decreases params.len() - i,
{
    if i >= params.len() || i >= tys.len() {
        None
    } else if params[i as int] == TypeView::Param(name) {
        Some(tys[i as int])
    } else {
        inferred(params, tys, name, i + 1)
    }
}

/// What the type parameters from the `i`-th on stand for, behind those of `done`.
pub open spec fn all_inferred(
    generics: Seq<Chars>,
    params: Seq<TypeView>,
    tys: Seq<TypeView>,
    i: nat,
    done: Seq<TypeView>,
) -> Result<Seq<TypeView>, Chars>
    decreases generics.len() - i,
{
    if i >= generics.len() {
        Ok(done)
    } else {
        match inferred(params, tys, generics[i as int], 0) {
            None => Err("cannot infer the type `"@ + generics[i as int] + "`"@),
            Some(t) => all_inferred(generics, params, tys, i + 1, done.push(t)),
        }
    }
}

/// A type of a function for those arguments.
pub open spec fn instance(params: Seq<TypeView>, tys: Seq<TypeView>, t: TypeView) -> TypeView {
    match t {
        TypeView::Param(name) => match inferred(params, tys, name, 0) {
            Some(x) => x,
            None => t,
        },
        _ => t,
    }
}

/// Whether an argument may be handed to a parameter. A reference is taken where one
/// is asked for.
pub open spec fn passes(t: TypeView, want: TypeView) -> bool {
    fits(t, want) || (want matches TypeView::Ref { mutable, inner } && t == *inner)
}

/// Whether the arguments from the `i`-th on may be handed to their parameters.
pub open spec fn all_pass(params: Seq<TypeView>, tys: Seq<TypeView>, i: nat) -> bool {
    forall|k: int|
        i <= k < params.len() ==> passes(#[trigger] tys[k], instance(params, tys, params[k]))
}

/// The type arguments and the type of a call of `sig` with arguments of types `tys`.
/// The first argument of a method is its receiver, which has been looked at.
pub open spec fn call_type(sig: SigView, tys: Seq<TypeView>, is_method: bool) -> Result<
    (Seq<TypeView>, TypeView),
    Chars,
> {
    if sig.params.len() != tys.len() {
        Err("wrong number of arguments for `"@ + sig.name + "`"@)
    } else {
        match all_inferred(sig.generics, sig.params, tys, 0, Seq::empty()) {
            Err(m) => Err(m),
            Ok(generic_args) => if all_pass(
                sig.params,
                tys,
                if is_method {
                    1
                } else {
                    0
                },
            ) {
                Ok((generic_args, instance(sig.params, tys, sig.ret)))
            } else {
                Err("argument of the wrong type for `"@ + sig.name + "`"@)
            },
        }
    }
}

/// The expression that an argument is.
pub open spec fn arg_expr(a: HirCallArgView) -> HirExprView {
    match a {
        HirCallArgView::Positional(e) => e,
        HirCallArgView::Named(_, e) => e,
    }
}

/// The types of arguments.
pub open spec fn arg_types(args: Seq<HirCallArgView>) -> Seq<TypeView> {
    Seq::new(args.len(), |i: int| arg_expr(args[i]).ty)
}

/// Whether the arguments are those of a variant.
pub open spec fn suits_variant(c: Around, enum_name: Chars, name: Chars, tys: Seq<TypeView>) -> bool {
    match c.payload(enum_name, name) {
        None => tys.len() == 0,
        Some(t) => tys.len() == 1 && (t is Param || fits(tys[0], t)),
    }
}

/// A call of a function, with the types of its arguments known.
pub open spec fn typed_call(
    c: Around,
    qualifier: Option<Chars>,
    func: Chars,
    args: Seq<HirCallArgView>,
    is_method: bool,
) -> Result<HirExprView, Chars> {
    let tys = arg_types(args);
    if is_method && (args.len() == 0 || owner_of(tys[0]) is None) {
        Err("no type has the method `"@ + func + "`"@)
    } else if qualifier is None && !is_method && sole_owner(c.ctx, func) is Some {
        let owner = sole_owner(c.ctx, func)->0;
        if suits_variant(c, owner, func, tys) {
            Ok(
                HirExprView {
                    kind: HirExprKindView::Call {
                        qualifier,
                        func,
                        generic_args: Seq::empty(),
                        args,
                        is_method,
                    },
                    ty: TypeView::Enum(owner),
                },
            )
        } else {
            Err("argument of the wrong type for `"@ + func + "`"@)
        }
    } else if qualifier is None && !is_method && func == "panic"@ {
        Ok(
            HirExprView {
                kind: HirExprKindView::Call {
                    qualifier,
                    func,
                    generic_args: Seq::empty(),
                    args,
                    is_method,
                },
                ty: TypeView::Never,
            },
        )
    } else {
        let owner = if is_method {
            owner_of(tys[0])
        } else {
            qualifier
        };
        match find_sig(c.sigs, owner, func) {
            None => Err("undefined function `"@ + func + "`"@),
            Some(sig) => match call_type(sig, tys, is_method) {
                Err(m) => Err(m),
                Ok((generic_args, ty)) => Ok(
                    HirExprView {
                        kind: HirExprKindView::Call {
                            qualifier,
                            func,
                            generic_args,
                            args,
                            is_method,
                        },
                        ty,
                    },
                ),
            },
        }
    }
}

/// A variant with arguments, or else the call of a function of a type.
pub open spec fn typed_variant(
    c: Around,
    enum_name: Chars,
    variant_name: Chars,
    args: Seq<HirCallArgView>,
) -> Result<HirExprView, Chars> {
    if c.has_variant(enum_name, variant_name) {
        if suits_variant(c, enum_name, variant_name, arg_types(args)) {
            Ok(
                HirExprView {
                    kind: HirExprKindView::EnumVariantConstruction {
                        enum_name,
                        generic_args: Seq::empty(),
                        variant_name,
                        args,
                    },
                    ty: TypeView::Enum(enum_name),
                },
            )
        } else {
            Err("argument of the wrong type for `"@ + variant_name + "`"@)
        }
    } else {
        typed_call(c, Some(enum_name), variant_name, args, false)
    }
}

// Patterns.

/// The variables for fields of a structure, from the `i`-th on.
pub open spec fn field_bindings(
    c: Around,
    name: Chars,
    fields: Seq<(Chars, Chars)>,
    i: nat,
    done: Env,
) -> Result<Env, Chars>
    decreases fields.len() - i,
{
    if i >= fields.len() {
        Ok(done)
    } else {
        match field_type(c.ctx, name, fields[i as int].0) {
            None => Err("struct `"@ + name + "` has no field `"@ + fields[i as int].0 + "`"@),
            Some(t) => field_bindings(c, name, fields, i + 1, done.push((fields[i as int].1, t))),
        }
    }
}

/// The variables for members of a tuple, from the `i`-th on.
pub open spec fn member_bindings(
    tys: Seq<TypeView>,
    list: Seq<Option<Chars>>,
    i: nat,
    done: Env,
) -> Result<Env, Chars>
    decreases list.len() - i,
{
    if i >= list.len() {
        Ok(done)
    } else if i >= tys.len() {
        Err("pattern does not suit the value"@)
    } else {
        member_bindings(
            tys,
            list,
            i + 1,
            match list[i as int] {
                Some(name) => done.push((name, tys[i as int])),
                None => done,
            },
        )
    }
}

/// The variables for elements of an array, from the `i`-th on.
pub open spec fn element_bindings(t: TypeView, list: Seq<Option<Chars>>, i: nat, done: Env) -> Env
    decreases list.len() - i,
{
    if i >= list.len() {
        done
    } else {
        element_bindings(
            t,
            list,
            i + 1,
            match list[i as int] {
                Some(name) => done.push((name, t)),
                None => done,
            },
        )
    }
}

/// The variables of a pattern for a value of type `t`, if it suits it.
pub open spec fn bindings(c: Around, t: TypeView, p: PatternView) -> Result<Env, Chars> {
    let unsuited: Result<Env, Chars> = Err("pattern does not suit the value"@);
    match p {
        PatternView::Wildcard => Ok(Seq::empty()),
        PatternView::IntLiteral(_) => if is_number(t) && !is_float(t) {
            Ok(Seq::empty())
        } else {
            unsuited
        },
        PatternView::BoolLiteral(_) => if t is Bool {
            Ok(Seq::empty())
        } else {
            unsuited
        },
        PatternView::CharLiteral(_) => if t is Char {
            Ok(Seq::empty())
        } else {
            unsuited
        },
        PatternView::EnumVariant { enum_name, variant_name } => if t == TypeView::Enum(enum_name)
            && c.has_variant(enum_name, variant_name) {
            Ok(Seq::empty())
        } else {
            unsuited
        },
        PatternView::EnumVariantWithBinding { enum_name, variant_name, binding } => match c.payload(
            enum_name,
            variant_name,
        ) {
            Some(ty) => if t == TypeView::Enum(enum_name) {
                Ok(seq![(binding, ty)])
            } else {
                unsuited
            },
            None => unsuited,
        },
        PatternView::Struct { name, fields } => if t == TypeView::Struct(name) {
            field_bindings(c, name, fields, 0, Seq::empty())
        } else {
            unsuited
        },
        PatternView::Tuple(list) => match t {
            TypeView::Tuple(tys) => member_bindings(tys, list, 0, Seq::empty()),
            _ => unsuited,
        },
        PatternView::Array(list) => match t {
            TypeView::Array(elem, n) => Ok(element_bindings(*elem, list, 0, Seq::empty())),
            _ => unsuited,
        },
    }
}

// Expressions.

/// An expression with the types of its parts.
pub open spec fn typed(c: Around, env: Env, e: ExprView) -> Result<HirExprView, Chars>
    decreases e, 1nat,
{
    typed_rule(c, env, e)
}

#[verifier::opaque]
pub open spec fn typed_rule(c: Around, env: Env, e: ExprView) -> Result<HirExprView, Chars>
    decreases e, 0nat,
{
    match e.kind {
        ExprKindView::Literal(l) => Ok(
            HirExprView { kind: HirExprKindView::Literal(l), ty: literal_type(l) },
        ),
        ExprKindView::Ident(name) => match var_type(env, name) {
            None => Err("undefined variable `"@ + name + "`"@),
            Some(ty) => Ok(HirExprView { kind: HirExprKindView::Ident(name), ty }),
        },
        ExprKindView::Unary { op, expr } => match typed(c, env, *expr) {
            Err(m) => Err(m),
            Ok(x) => match unary_type(op, x.ty) {
                None => Err("operator does not take an operand of this type"@),
                Some(ty) => Ok(
                    HirExprView { kind: HirExprKindView::Unary { op, expr: Box::new(x) }, ty },
                ),
            },
        },
        ExprKindView::BinaryOp { op, left, right } => match typed(c, env, *left) {
            Err(m) => Err(m),
            Ok(l) => match typed(c, env, *right) {
                Err(m) => Err(m),
                Ok(r) => match binary_type(op, l.ty, r.ty) {
                    None => Err("operator does not take operands of these types"@),
                    Some(ty) => Ok(
                        HirExprView {
                            kind: HirExprKindView::BinaryOp {
                                op,
                                left: Box::new(l),
                                right: Box::new(r),
                            },
                            ty,
                        },
                    ),
                },
            },
        },
        ExprKindView::Cast { expr, ty } => match typed(c, env, *expr) {
            Err(m) => Err(m),
            Ok(x) => {
                let to = c.resolve(ty);
                if is_castable(x.ty, to) {
                    Ok(
                        HirExprView {
                            kind: HirExprKindView::Cast { expr: Box::new(x), ty: to },
                            ty: to,
                        },
                    )
                } else {
                    Err("value cannot be converted to this type"@)
                }
            },
        },
        ExprKindView::If { kind, cond, then_expr, else_expr } => match typed(c, env, *cond) {
            Err(m) => Err(m),
            Ok(cond1) => if !fits(cond1.ty, TypeView::Bool) {
                Err("condition is not of type bool"@)
            } else {
                match typed(c, env, *then_expr) {
                    Err(m) => Err(m),
                    Ok(then1) => match else_expr {
                        None => if then_expr.kind is Block || fits(then1.ty, TypeView::Unit) {
                            Ok(typed_if(kind, cond1, then1, None))
                        } else {
                            Err("branch without `else` has a value"@)
                        },
                        Some(other) => match typed(c, env, *other) {
                            Err(m) => Err(m),
                            Ok(else1) => Ok(typed_if(kind, cond1, then1, Some(else1))),
                        },
                    },
                }
            },
        },
        ExprKindView::Match(m) => match typed(c, env, *m.cond) {
            Err(msg) => Err(msg),
            Ok(cond) => match typed_arms(
                c,
                env,
                cond.ty,
                m.arms,
                0,
                Seq::empty(),
                TypeView::Never,
            ) {
                Err(msg) => Err(msg),
                Ok((arms, ty)) => Ok(
                    HirExprView {
                        kind: HirExprKindView::Match { cond: Box::new(cond), arms },
                        ty,
                    },
                ),
            },
        },
        ExprKindView::Call { qualifier, func, args, is_method } => match typed_args(
            c,
            env,
            args,
            0,
            Seq::empty(),
        ) {
            Err(m) => Err(m),
            Ok(list) => typed_call(c, qualifier, func, list, is_method),
        },
        ExprKindView::EnumVariantConstruction { enum_name, variant_name, args } => match typed_args(
            c,
            env,
            args,
            0,
            Seq::empty(),
        ) {
            Err(m) => Err(m),
            Ok(list) => typed_variant(c, enum_name, variant_name, list),
        },
        ExprKindView::EnumVariantAccess { enum_name, variant_name } => if c.has_variant(
            enum_name,
            variant_name,
        ) && c.payload(enum_name, variant_name) is None {
            Ok(
                HirExprView {
                    kind: HirExprKindView::EnumVariantAccess { enum_name, variant_name },
                    ty: TypeView::Enum(enum_name),
                },
            )
        } else {
            Err("unknown enum variant: "@ + enum_name + "::"@ + variant_name)
        },
        ExprKindView::FieldAccess { struct_expr, field_name } => match typed(c, env, *struct_expr) {
            Err(m) => Err(m),
            Ok(x) => match owner_of(x.ty) {
                None => Err("value has no field `"@ + field_name + "`"@),
                Some(name) => match field_type(c.ctx, name, field_name) {
                    None => Err("value has no field `"@ + field_name + "`"@),
                    Some(ty) => Ok(
                        HirExprView {
                            kind: HirExprKindView::FieldAccess {
                                struct_expr: Box::new(x),
                                field_name,
                            },
                            ty,
                        },
                    ),
                },
            },
        },
        ExprKindView::StructInit { struct_name, fields } => match typed_fields(
            c,
            env,
            struct_name,
            fields,
            0,
            Seq::empty(),
        ) {
            Err(m) => Err(m),
            Ok(list) => Ok(
                HirExprView {
                    kind: HirExprKindView::StructInit {
                        struct_name,
                        generic_args: Seq::empty(),
                        fields: list,
                    },
                    ty: TypeView::Struct(struct_name),
                },
            ),
        },
        ExprKindView::ArrayLiteral(list) => match typed_elements(
            c,
            env,
            list,
            0,
            Seq::empty(),
            TypeView::Never,
        ) {
            Err(m) => Err(m),
            Ok((elements, ty)) => Ok(
                HirExprView {
                    kind: HirExprKindView::ArrayLiteral(elements),
                    ty: TypeView::Array(Box::new(ty), decimal(elements.len())),
                },
            ),
        },
        ExprKindView::Index { expr, index } => match typed(c, env, *expr) {
            Err(m) => Err(m),
            Ok(x) => match typed(c, env, *index) {
                Err(m) => Err(m),
                Ok(i) => match element_type(x.ty) {
                    None => Err("value has no elements"@),
                    Some(ty) => if i.ty is Never || (is_number(i.ty) && !is_float(i.ty)) {
                        Ok(
                            HirExprView {
                                kind: HirExprKindView::Index {
                                    expr: Box::new(x),
                                    index: Box::new(i),
                                },
                                ty,
                            },
                        )
                    } else {
                        Err("index is no integer"@)
                    },
                },
            },
        },
        ExprKindView::LackSlice(ty) => {
            let elem = c.resolve(ty);
            Ok(
                HirExprView {
                    kind: HirExprKindView::LackSlice(elem),
                    ty: TypeView::Ref {
                        mutable: false,
                        inner: Box::new(TypeView::Slice(Box::new(elem))),
                    },
                },
            )
        },
        ExprKindView::Block(b) => match typed_block(c, env, b) {
            Err(m) => Err(m),
            Ok((body, ty)) => Ok(HirExprView { kind: HirExprKindView::Block(body), ty }),
        },
        ExprKindView::UnsafeBlock(u) => match typed_block(c, env, u.body) {
            Err(m) => Err(m),
            Ok((body, ty)) => Ok(
                HirExprView { kind: HirExprKindView::UnsafeBlock { kind: u.kind, body }, ty },
            ),
        },
        _ => Err("type checking of this expression is not supported"@),
    }
}

/// An `if` with its types.
pub open spec fn typed_if(
    kind: IfKind,
    cond: HirExprView,
    then_expr: HirExprView,
    else_expr: Option<HirExprView>,
) -> HirExprView {
    HirExprView {
        kind: HirExprKindView::If {
            kind,
            cond: Box::new(cond),
            then_expr: Box::new(then_expr),
            else_expr: match else_expr {
                Some(e) => Some(Box::new(e)),
                None => None,
            },
        },
        ty: match else_expr {
            Some(e) => joined(then_expr.ty, e.ty),
            None => TypeView::Unit,
        },
    }
}

/// The arguments from the `i`-th on, behind those of `done`.
pub open spec fn typed_args(
    c: Around,
    env: Env,
    list: Seq<CallArgView>,
    i: nat,
    done: Seq<HirCallArgView>,
) -> Result<Seq<HirCallArgView>, Chars>
    decreases list, list.len() - i,
{
    if i >= list.len() {
        Ok(done)
    } else {
        match typed_arg(c, env, list[i as int]) {
            Err(m) => Err(m),
            Ok(a) => typed_args(c, env, list, i + 1, done.push(a)),
        }
    }
}

/// An argument.
pub open spec fn typed_arg(c: Around, env: Env, a: CallArgView) -> Result<HirCallArgView, Chars>
    decreases a, 0nat,
{
    match a {
        CallArgView::Positional(e) => match typed(c, env, e) {
            Err(m) => Err(m),
            Ok(x) => Ok(HirCallArgView::Positional(x)),
        },
        CallArgView::Named(name, e) => match typed(c, env, e) {
            Err(m) => Err(m),
            Ok(x) => Ok(HirCallArgView::Named(name, x)),
        },
    }
}

/// The fields of a structure from the `i`-th on, behind those of `done`.
pub open spec fn typed_fields(
    c: Around,
    env: Env,
    name: Chars,
    list: Seq<(Chars, ExprView)>,
    i: nat,
    done: Seq<(Chars, HirExprView)>,
) -> Result<Seq<(Chars, HirExprView)>, Chars>
    decreases list, list.len() - i,
{
    if i >= list.len() {
        Ok(done)
    } else {
        match typed(c, env, list[i as int].1) {
            Err(m) => Err(m),
            Ok(x) => match field_type(c.ctx, name, list[i as int].0) {
                None => Err("struct `"@ + name + "` has no field `"@ + list[i as int].0 + "`"@),
                Some(t) => if t is Param || fits(x.ty, t) {
                    typed_fields(c, env, name, list, i + 1, done.push((list[i as int].0, x)))
                } else {
                    Err("type mismatch in the field `"@ + list[i as int].0 + "`"@)
                },
            },
        }
    }
}

/// The elements of an array from the `i`-th on, behind those of `done`, which have
/// the type `ty`.
pub open spec fn typed_elements(
    c: Around,
    env: Env,
    list: Seq<ExprView>,
    i: nat,
    done: Seq<HirExprView>,
    ty: TypeView,
) -> Result<(Seq<HirExprView>, TypeView), Chars>
    decreases list, list.len() - i,
{
    if i >= list.len() {
        Ok((done, ty))
    } else {
        match typed(c, env, list[i as int]) {
            Err(m) => Err(m),
            Ok(x) => if fits(ty, x.ty) || fits(x.ty, ty) {
                typed_elements(c, env, list, i + 1, done.push(x), joined(ty, x.ty))
            } else {
                Err("elements of different types"@)
            },
        }
    }
}

/// The arms of a `match` from the `i`-th on, behind those of `done`, which have the
/// type `ty`. The value has the type `t`.
pub open spec fn typed_arms(
    c: Around,
    env: Env,
    t: TypeView,
    list: Seq<MatchArmView>,
    i: nat,
    done: Seq<HirMatchArmView>,
    ty: TypeView,
) -> Result<(Seq<HirMatchArmView>, TypeView), Chars>
    decreases list, list.len() - i,
{
    if i >= list.len() {
        Ok((done, ty))
    } else {
        match typed_arm(c, env, t, list[i as int]) {
            Err(m) => Err(m),
            Ok(arm) => typed_arms(
                c,
                env,
                t,
                list,
                i + 1,
                done.push(arm),
                joined(ty, arm.expr.ty),
            ),
        }
    }
}

/// An arm of a `match` on a value of type `t`.
pub open spec fn typed_arm(c: Around, env: Env, t: TypeView, arm: MatchArmView) -> Result<
    HirMatchArmView,
    Chars,
>
    decreases arm, 0nat,
{
    match bindings(c, t, arm.pattern) {
        Err(m) => Err(m),
        Ok(vars) => match typed(c, env + vars, *arm.expr) {
            Err(m) => Err(m),
            Ok(x) => Ok(HirMatchArmView { pattern: arm.pattern, expr: x }),
        },
    }
}

// Statements.

/// A block and its type: that of its last statement.
pub open spec fn typed_block(c: Around, env: Env, b: BlockView) -> Result<
    (HirBlockView, TypeView),
    Chars,
>
    decreases b, 0nat,
{
    match typed_stmts(c, env, b.stmts, 0, Seq::empty(), TypeView::Unit) {
        Err(m) => Err(m),
        Ok((stmts, ty)) => Ok((HirBlockView { stmts }, ty)),
    }
}

/// The statements from the `i`-th on, behind those of `done`, the last of which has
/// the type `ty`.
pub open spec fn typed_stmts(
    c: Around,
    env: Env,
    list: Seq<StmtView>,
    i: nat,
    done: Seq<HirStmtView>,
    ty: TypeView,
) -> Result<(Seq<HirStmtView>, TypeView), Chars>
    decreases list, list.len() - i,
{
    if i >= list.len() {
        Ok((done, ty))
    } else {
        match typed_stmt(c, env, list[i as int]) {
            Err(m) => Err(m),
            Ok(s) => typed_stmts(
                c,
                env_after(env, s),
                list,
                i + 1,
                done.push(s),
                stmt_type(s),
            ),
        }
    }
}

/// The variables in scope behind a statement.
pub open spec fn env_after(env: Env, s: HirStmtView) -> Env {
    match s {
        HirStmtView::Let { name, ty, init, mutable, persist } => env.push(
            (
                name,
                match ty {
                    Some(t) => t,
                    None => init.ty,
                },
            ),
        ),
        _ => env,
    }
}

/// The type of a statement: that of an expression, and of control that goes
/// elsewhere.
pub open spec fn stmt_type(s: HirStmtView) -> TypeView {
    match s {
        HirStmtView::Expr { expr } => expr.ty,
        HirStmtView::Return { expr } => TypeView::Never,
        HirStmtView::Break => TypeView::Never,
        _ => TypeView::Unit,
    }
}

/// A statement.
pub open spec fn typed_stmt(c: Around, env: Env, s: StmtView) -> Result<HirStmtView, Chars>
    decreases s, 1nat,
{
    typed_stmt_rule(c, env, s)
}

#[verifier::opaque]
pub open spec fn typed_stmt_rule(c: Around, env: Env, s: StmtView) -> Result<HirStmtView, Chars>
    decreases s, 0nat,
{
    match s {
        StmtView::Let(s) => match typed(c, env, *s.init) {
            Err(m) => Err(m),
            Ok(init) => match s.ty {
                None => Ok(
                    HirStmtView::Let {
                        name: s.name,
                        ty: None,
                        init,
                        mutable: s.mutable,
                        persist: s.persist,
                    },
                ),
                Some(t) => if fits(init.ty, c.resolve(t)) {
                    Ok(
                        HirStmtView::Let {
                            name: s.name,
                            ty: Some(c.resolve(t)),
                            init,
                            mutable: s.mutable,
                            persist: s.persist,
                        },
                    )
                } else {
                    Err("type mismatch in the definition of `"@ + s.name + "`"@)
                },
            },
        },
        StmtView::Assign(s) => match typed(c, env, *s.target) {
            Err(m) => Err(m),
            Ok(target) => match typed(c, env, *s.expr) {
                Err(m) => Err(m),
                Ok(expr) => if fits(expr.ty, target.ty) {
                    Ok(HirStmtView::Assign { target, expr })
                } else {
                    Err("type mismatch in an assignment"@)
                },
            },
        },
        StmtView::ExprStmt(e) => match typed(c, env, e) {
            Err(m) => Err(m),
            Ok(expr) => Ok(HirStmtView::Expr { expr }),
        },
        StmtView::Return(None) => if c.ret is Unit {
            Ok(HirStmtView::Return { expr: None })
        } else {
            Err("type mismatch in the value that is returned"@)
        },
        StmtView::Return(Some(e)) => match typed(c, env, e) {
            Err(m) => Err(m),
            Ok(x) => if fits(x.ty, c.ret) {
                Ok(HirStmtView::Return { expr: Some(x) })
            } else {
                Err("type mismatch in the value that is returned"@)
            },
        },
        StmtView::While(s) => match typed(c, env, *s.cond) {
            Err(m) => Err(m),
            Ok(cond) => if !fits(cond.ty, TypeView::Bool) {
                Err("condition is not of type bool"@)
            } else {
                match typed_block(c.in_loop(), env, s.body) {
                    Err(m) => Err(m),
                    Ok((body, _)) => Ok(HirStmtView::While { cond, body }),
                }
            },
        },
        StmtView::For(s) => match typed_iterable(c, env, *s.iterable) {
            Err(m) => Err(m),
            Ok((iterable, t)) => match typed_block(c.in_loop(), env.push((s.var, t)), s.body) {
                Err(m) => Err(m),
                Ok((body, _)) => Ok(HirStmtView::For { var: s.var, iterable, body }),
            },
        },
        StmtView::Loop(s) => match typed_block(c.in_loop(), env, s.body) {
            Err(m) => Err(m),
            Ok((body, _)) => Ok(HirStmtView::Loop { body }),
        },
        StmtView::Break => if c.looping {
            Ok(HirStmtView::Break)
        } else {
            Err("`break` outside of a loop"@)
        },
    }
}

/// What a `for` goes through, and the type of what it meets there: the numbers of a
/// range, or the elements of an array or a slice.
pub open spec fn typed_iterable(c: Around, env: Env, e: ExprView) -> Result<
    (HirExprView, TypeView),
    Chars,
>
    decreases e, 2nat,
{
    match e.kind {
        ExprKindView::Range { start, end } => match typed(c, env, *start) {
            Err(m) => Err(m),
            Ok(a) => match typed(c, env, *end) {
                Err(m) => Err(m),
                Ok(b) => if is_number(a.ty) && fits(b.ty, a.ty) {
                    Ok(
                        (
                            HirExprView {
                                kind: HirExprKindView::Range {
                                    start: Box::new(a),
                                    end: Box::new(b),
                                },
                                ty: a.ty,
                            },
                            a.ty,
                        ),
                    )
                } else {
                    Err("range is not of numbers of one type"@)
                },
            },
        },
        _ => match typed(c, env, e) {
            Err(m) => Err(m),
            Ok(x) => match element_type(x.ty) {
                None => Err("value has no elements"@),
                Some(t) => Ok((x, t)),
            },
        },
    }
}

// Items.

/// The parameters of a function as fields.
pub open spec fn typed_params(enums: Seq<Chars>, me: Option<Chars>, list: Seq<ParamView>) -> Seq<
    HirFieldView,
> {
    Seq::new(
        list.len(),
        |i: int| HirFieldView { name: list[i].name, ty: resolved(enums, me, list[i].ty) },
    )
}

/// Fields as variables.
pub open spec fn fields_env(list: Seq<HirFieldView>) -> Env {
    Seq::new(list.len(), |i: int| (list[i].name, list[i].ty))
}

/// The type that a function returns, as it is written.
pub open spec fn result_type(f: FnDefView) -> TypeView {
    match f.return_type {
        Some(t) => t,
        None => TypeView::Unit,
    }
}

/// The statements of a function that returns `ret`. The last one gives the
/// function's value, if it is an expression and the function has a value.
pub open spec fn with_value(stmts: Seq<HirStmtView>, ty: TypeView, ret: TypeView) -> Result<
    Seq<HirStmtView>,
    Chars,
> {
    if ret is Unit {
        Ok(stmts)
    } else if stmts.len() > 0 && stmts.last() is Expr {
        let x = stmts.last()->Expr_expr;
        if fits(x.ty, ret) {
            Ok(stmts.drop_last().push(HirStmtView::Return { expr: Some(x) }))
        } else {
            Err("type mismatch in the value that is returned"@)
        }
    } else if ty is Never {
        Ok(stmts)
    } else {
        Err("function does not return a value"@)
    }
}

/// What is known of the whole program.
pub struct Known {
    pub ctx: Ctx,
    pub sigs: Seq<SigView>,
    pub enums: Seq<Chars>,
}

/// A function with its types, one of the type `me` if there is one.
pub open spec fn typed_fn(k: Known, me: Option<Chars>, f: FnDefView) -> Result<HirFnView, Chars> {
    let params = typed_params(k.enums, me, f.params);
    let ret = resolved(k.enums, me, result_type(f));
    let c = Around { ctx: k.ctx, sigs: k.sigs, enums: k.enums, me, ret, looping: false };
    match typed_stmts(c, fields_env(params), f.body.stmts, 0, Seq::empty(), TypeView::Unit) {
        Err(m) => Err(m),
        Ok((stmts, ty)) => match with_value(stmts, ty, ret) {
            Err(m) => Err(m),
            Ok(stmts) => Ok(
                HirFnView {
                    name: f.name,
                    generic_params: f.generic_params,
                    params,
                    return_type: ret,
                    body: HirBlockView { stmts },
                    is_forward: false,
                    effects: Seq::empty(),
                },
            ),
        },
    }
}

/// The functions from the `i`-th on, behind those of `done`.
pub open spec fn typed_fns(
    k: Known,
    me: Option<Chars>,
    list: Seq<FnDefView>,
    i: nat,
    done: Seq<HirFnView>,
) -> Result<Seq<HirFnView>, Chars>
    decreases list.len() - i,
{
    if i >= list.len() {
        Ok(done)
    } else {
        match typed_fn(k, me, list[i as int]) {
            Err(m) => Err(m),
            Ok(f) => typed_fns(k, me, list, i + 1, done.push(f)),
        }
    }
}

/// The names of the first `n` items that are enumerations.
pub open spec fn enum_names(items: Seq<ItemView>, n: nat) -> Seq<Chars>
    decreases n,
{
    if n == 0 {
        Seq::empty()
    } else {
        let before = enum_names(items, (n - 1) as nat);
        match items[n - 1] {
            ItemView::EnumDef(e) => before.push(e.name),
            _ => before,
        }
    }
}

/// What a call has to know of a function.
pub open spec fn sig_of(enums: Seq<Chars>, owner: Option<Chars>, f: FnDefView) -> SigView {
    SigView {
        owner,
        name: f.name,
        generics: f.generic_params.map_values(|g: GenericParamView| g.name),
        params: Seq::new(f.params.len(), |i: int| resolved(enums, owner, f.params[i].ty)),
        ret: resolved(enums, owner, result_type(f)),
    }
}

/// The first `n` functions of a type.
pub open spec fn sigs_of(enums: Seq<Chars>, owner: Option<Chars>, list: Seq<FnDefView>, n: nat) -> Seq<
    SigView,
> {
    Seq::new(n, |i: int| sig_of(enums, owner, list[i]))
}

/// The functions of the first `n` items.
pub open spec fn all_sigs(enums: Seq<Chars>, items: Seq<ItemView>, n: nat) -> Seq<SigView>
    decreases n,
{
    if n == 0 {
        Seq::empty()
    } else {
        let before = all_sigs(enums, items, (n - 1) as nat);
        match items[n - 1] {
            ItemView::FnDef(f) => before.push(sig_of(enums, None, f)),
            ItemView::Implement(d) => before + sigs_of(
                enums,
                Some(d.target),
                d.functions,
                d.functions.len(),
            ),
            ItemView::ModelDef(d) => before + sigs_of(
                enums,
                Some(d.name),
                d.functions,
                d.functions.len(),
            ),
            _ => before,
        }
    }
}

/// A variant with its type.
pub open spec fn typed_variant_def(enums: Seq<Chars>, v: EnumVariantDefView) -> HirVariantView {
    HirVariantView {
        name: v.name,
        ty: match v.ty {
            Some(t) => Some(resolved(enums, None, t)),
            None => None,
        },
    }
}

/// The variants of an enumeration with their types.
pub open spec fn typed_variant_defs(enums: Seq<Chars>, list: Seq<EnumVariantDefView>) -> Seq<
    HirVariantView,
> {
    Seq::new(list.len(), |i: int| typed_variant_def(enums, list[i]))
}

/// A program without anything.
pub open spec fn empty_program() -> HirProgramView {
    HirProgramView {
        structs: Seq::empty(),
        enums: Seq::empty(),
        fns: Seq::empty(),
        models: Seq::empty(),
        impls: Seq::empty(),
        intrinsics: Seq::empty(),
        constants: Seq::empty(),
    }
}

/// The structures, enumerations and constants of the first `n` items.
pub open spec fn declared(enums: Seq<Chars>, items: Seq<ItemView>, n: nat) -> HirProgramView
    decreases n,
{
    if n == 0 {
        empty_program()
    } else {
        let p = declared(enums, items, (n - 1) as nat);
        match items[n - 1] {
            ItemView::StructDef(s) => HirProgramView {
                structs: p.structs.push(
                    HirStructView {
                        name: s.name,
                        generic_params: s.generic_params,
                        fields: typed_params(enums, None, s.fields),
                    },
                ),
                ..p
            },
            ItemView::EnumDef(e) => HirProgramView {
                enums: p.enums.push(
                    HirEnumView {
                        name: e.name,
                        generic_params: e.generic_params,
                        variants: typed_variant_defs(enums, e.variants),
                    },
                ),
                ..p
            },
            ItemView::ConstDef(d) => HirProgramView { constants: p.constants.push(d.name), ..p },
            _ => p,
        }
    }
}

/// What is known of a program.
pub open spec fn known_of(items: Seq<ItemView>) -> Known {
    let enums = enum_names(items, items.len());
    Known {
        ctx: ctx_of(declared(enums, items, items.len())),
        sigs: all_sigs(enums, items, items.len()),
        enums,
    }
}

/// What is known around the value of a constant.
pub open spec fn around_const(k: Known) -> Around {
    Around {
        ctx: k.ctx,
        sigs: k.sigs,
        enums: k.enums,
        me: None,
        ret: TypeView::Unit,
        looping: false,
    }
}

/// The functions of the items from the `i`-th on, added to the program `p`.
pub open spec fn typed_items(k: Known, list: Seq<ItemView>, i: nat, p: HirProgramView) -> Result<
    HirProgramView,
    Chars,
>
    decreases list.len() - i,
{
    if i >= list.len() {
        Ok(p)
    } else {
        match list[i as int] {
            ItemView::FnDef(f) => match typed_fn(k, None, f) {
                Err(m) => Err(m),
                Ok(g) => typed_items(k, list, i + 1, HirProgramView { fns: p.fns.push(g), ..p }),
            },
            ItemView::ModelDef(d) => match typed_fns(k, Some(d.name), d.functions, 0, Seq::empty()) {
                Err(m) => Err(m),
                Ok(functions) => typed_items(
                    k,
                    list,
                    i + 1,
                    HirProgramView {
                        models: p.models.push(HirModelView { name: d.name, functions }),
                        ..p
                    },
                ),
            },
            ItemView::Implement(d) => match typed_fns(
                k,
                Some(d.target),
                d.functions,
                0,
                Seq::empty(),
            ) {
                Err(m) => Err(m),
                Ok(functions) => typed_items(
                    k,
                    list,
                    i + 1,
                    HirProgramView {
                        impls: p.impls.push(HirImplView { target: d.target, functions }),
                        ..p
                    },
                ),
            },
            ItemView::ConstDef(d) => match typed(around_const(k), Seq::empty(), d.value) {
                Err(m) => Err(m),
                Ok(x) => if fits(x.ty, resolved(k.enums, None, d.ty)) {
                    typed_items(k, list, i + 1, p)
                } else {
                    Err("type mismatch in the definition of `"@ + d.name + "`"@)
                },
            },
            _ => typed_items(k, list, i + 1, p),
        }
    }
}

/// A program with its types.
pub open spec fn typed_program(p: ProgramView) -> Result<HirProgramView, Chars> {
    let k = known_of(p.items);
    typed_items(k, p.items, 0, declared(k.enums, p.items, p.items.len()))
}

} // verus!
