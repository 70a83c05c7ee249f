//! The typed tree that the checker makes of a program.
use crate::ast::{
    BinaryOp, Block, dup_generic_param_list, dup_string_list, dup_type_list, Expr,
    generic_param_views, GenericParam, GenericParamView, IfKind, Literal, LiteralView, Pattern,
    PatternView, string_views, Type, type_views, TypeView, UnaryOp, UnsafeKind,
};
use crate::text::Chars;
use vstd::prelude::*;

verus! {

/// The number of a function that is built in.
#[derive(Clone, Copy, PartialEq, Eq, Structural, Debug)]
pub struct IntrinsicFn(pub u32);

/// A typed program, with what is built into the language.
#[derive(Debug)]
pub struct HirProgram {
    pub structs: Vec<HirStruct>,
    pub enums: Vec<HirEnum>,
    pub fns: Vec<HirFn>,
    pub models: Vec<HirModel>,
    pub impls: Vec<HirImpl>,
    pub intrinsics: Vec<IntrinsicDecl>,
    pub constants: Vec<String>,
}

/// `HirProgram` as a mathematical value.
pub struct HirProgramView {
    pub structs: Seq<HirStructView>,
    pub enums: Seq<HirEnumView>,
    pub fns: Seq<HirFnView>,
    pub models: Seq<HirModelView>,
    pub impls: Seq<HirImplView>,
    pub intrinsics: Seq<IntrinsicDeclView>,
    pub constants: Seq<Chars>,
}

impl HirProgram {
    /// The mathematical value of `self`.
    pub open spec fn model(self) -> HirProgramView
        decreases self, 2nat,
    {
        HirProgramView {
            structs: hir_struct_views(self.structs@),
            enums: hir_enum_views(self.enums@),
            fns: hir_fn_views(self.fns@),
            models: hir_model_views(self.models@),
            impls: hir_impl_views(self.impls@),
            intrinsics: intrinsic_decl_views(self.intrinsics@),
            constants: string_views(self.constants@),
        }
    }

    /// A copy of `self`.
    pub fn dup(&self) -> (r: Self)
        ensures
            r.model() == self.model(),
        decreases self,
    {
        HirProgram {
            structs: dup_hir_struct_list(&self.structs),
            enums: dup_hir_enum_list(&self.enums),
            fns: dup_hir_fn_list(&self.fns),
            models: dup_hir_model_list(&self.models),
            impls: dup_hir_impl_list(&self.impls),
            intrinsics: dup_intrinsic_decl_list(&self.intrinsics),
            constants: dup_string_list(&self.constants),
        }
    }
}

/// A field of a structure, or a parameter of a function.
#[derive(Debug)]
pub struct HirField {
    pub name: String,
    pub ty: Type,
}

/// `HirField` as a mathematical value.
pub struct HirFieldView {
    pub name: Chars,
    pub ty: TypeView,
}

impl HirField {
    /// The mathematical value of `self`.
    pub open spec fn model(self) -> HirFieldView
        decreases self, 2nat,
    {
        HirFieldView {
            name: self.name@,
            ty: self.ty.model(),
        }
    }

    /// A copy of `self`.
    pub fn dup(&self) -> (r: Self)
        ensures
            r.model() == self.model(),
        decreases self,
    {
        HirField {
            name: self.name.clone(),
            ty: self.ty.dup(),
        }
    }
}

/// A structure.
#[derive(Debug)]
pub struct HirStruct {
    pub name: String,
    pub generic_params: Vec<GenericParam>,
    pub fields: Vec<HirField>,
}

/// `HirStruct` as a mathematical value.
pub struct HirStructView {
    pub name: Chars,
    pub generic_params: Seq<GenericParamView>,
    pub fields: Seq<HirFieldView>,
}

impl HirStruct {
    /// The mathematical value of `self`.
    pub open spec fn model(self) -> HirStructView
        decreases self, 2nat,
    {
        HirStructView {
            name: self.name@,
            generic_params: generic_param_views(self.generic_params@),
            fields: hir_field_views(self.fields@),
        }
    }

    /// A copy of `self`.
    pub fn dup(&self) -> (r: Self)
        ensures
            r.model() == self.model(),
        decreases self,
    {
        HirStruct {
            name: self.name.clone(),
            generic_params: dup_generic_param_list(&self.generic_params),
            fields: dup_hir_field_list(&self.fields),
        }
    }
}

/// A variant of an enumeration.
#[derive(Debug)]
pub struct HirVariant {
    pub name: String,
    pub ty: Option<Type>,
}

/// `HirVariant` as a mathematical value.
pub struct HirVariantView {
    pub name: Chars,
    pub ty: Option<TypeView>,
}

impl HirVariant {
    /// The mathematical value of `self`.
    pub open spec fn model(self) -> HirVariantView
        decreases self, 2nat,
    {
        HirVariantView {
            name: self.name@,
            ty: match self.ty { Some(y) => Some(y.model()), None => None },
        }
    }

    /// A copy of `self`.
    pub fn dup(&self) -> (r: Self)
        ensures
            r.model() == self.model(),
        decreases self,
    {
        HirVariant {
            name: self.name.clone(),
            ty: (match &self.ty { Some(y) => Some(y.dup()), None => None }),
        }
    }
}

/// An enumeration.
#[derive(Debug)]
pub struct HirEnum {
    pub name: String,
    pub generic_params: Vec<GenericParam>,
    pub variants: Vec<HirVariant>,
}

/// `HirEnum` as a mathematical value.
pub struct HirEnumView {
    pub name: Chars,
    pub generic_params: Seq<GenericParamView>,
    pub variants: Seq<HirVariantView>,
}

impl HirEnum {
    /// The mathematical value of `self`.
    pub open spec fn model(self) -> HirEnumView
        decreases self, 2nat,
    {
        HirEnumView {
            name: self.name@,
            generic_params: generic_param_views(self.generic_params@),
            variants: hir_variant_views(self.variants@),
        }
    }

    /// A copy of `self`.
    pub fn dup(&self) -> (r: Self)
        ensures
            r.model() == self.model(),
        decreases self,
    {
        HirEnum {
            name: self.name.clone(),
            generic_params: dup_generic_param_list(&self.generic_params),
            variants: dup_hir_variant_list(&self.variants),
        }
    }
}

/// A function. `is_forward` marks the forward pass of a model.
#[derive(Debug)]
pub struct HirFn {
    pub name: String,
    pub generic_params: Vec<GenericParam>,
    pub params: Vec<HirField>,
    pub return_type: Type,
    pub body: HirBlock,
    pub is_forward: bool,
    pub effects: Vec<String>,
}

/// `HirFn` as a mathematical value.
pub struct HirFnView {
    pub name: Chars,
    pub generic_params: Seq<GenericParamView>,
    pub params: Seq<HirFieldView>,
    pub return_type: TypeView,
    pub body: HirBlockView,
    pub is_forward: bool,
    pub effects: Seq<Chars>,
}

impl HirFn {
    /// The mathematical value of `self`.
    pub open spec fn model(self) -> HirFnView
        decreases self, 2nat,
    {
        HirFnView {
            name: self.name@,
            generic_params: generic_param_views(self.generic_params@),
            params: hir_field_views(self.params@),
            return_type: self.return_type.model(),
            body: self.body.model(),
            is_forward: self.is_forward,
            effects: string_views(self.effects@),
        }
    }

    /// A copy of `self`.
    pub fn dup(&self) -> (r: Self)
        ensures
            r.model() == self.model(),
        decreases self,
    {
        HirFn {
            name: self.name.clone(),
            generic_params: dup_generic_param_list(&self.generic_params),
            params: dup_hir_field_list(&self.params),
            return_type: self.return_type.dup(),
            body: self.body.dup(),
            is_forward: self.is_forward,
            effects: dup_string_list(&self.effects),
        }
    }
}

/// A model with its functions.
#[derive(Debug)]
pub struct HirModel {
    pub name: String,
    pub functions: Vec<HirFn>,
}

/// `HirModel` as a mathematical value.
pub struct HirModelView {
    pub name: Chars,
    pub functions: Seq<HirFnView>,
}

impl HirModel {
    /// The mathematical value of `self`.
    pub open spec fn model(self) -> HirModelView
        decreases self, 2nat,
    {
        HirModelView {
            name: self.name@,
            functions: hir_fn_views(self.functions@),
        }
    }

    /// A copy of `self`.
    pub fn dup(&self) -> (r: Self)
        ensures
            r.model() == self.model(),
        decreases self,
    {
        HirModel {
            name: self.name.clone(),
            functions: dup_hir_fn_list(&self.functions),
        }
    }
}

/// The functions of a type.
#[derive(Debug)]
pub struct HirImpl {
    pub target: String,
    pub functions: Vec<HirFn>,
}

/// `HirImpl` as a mathematical value.
pub struct HirImplView {
    pub target: Chars,
    pub functions: Seq<HirFnView>,
}

impl HirImpl {
    /// The mathematical value of `self`.
    pub open spec fn model(self) -> HirImplView
        decreases self, 2nat,
    {
        HirImplView {
            target: self.target@,
            functions: hir_fn_views(self.functions@),
        }
    }

    /// A copy of `self`.
    pub fn dup(&self) -> (r: Self)
        ensures
            r.model() == self.model(),
        decreases self,
    {
        HirImpl {
            target: self.target.clone(),
            functions: dup_hir_fn_list(&self.functions),
        }
    }
}

/// A function that is built in, and where it may be called.
#[derive(Debug)]
pub struct IntrinsicDecl {
    pub name: String,
    pub id: IntrinsicFn,
    pub unsafe_only: bool,
    pub forward_only: bool,
    pub never_returns: bool,
}

/// `IntrinsicDecl` as a mathematical value.
pub struct IntrinsicDeclView {
    pub name: Chars,
    pub id: IntrinsicFn,
    pub unsafe_only: bool,
    pub forward_only: bool,
    pub never_returns: bool,
}

impl IntrinsicDecl {
    /// The mathematical value of `self`.
    pub open spec fn model(self) -> IntrinsicDeclView
        decreases self, 2nat,
    {
        IntrinsicDeclView {
            name: self.name@,
            id: self.id,
            unsafe_only: self.unsafe_only,
            forward_only: self.forward_only,
            never_returns: self.never_returns,
        }
    }

    /// A copy of `self`.
    pub fn dup(&self) -> (r: Self)
        ensures
            r.model() == self.model(),
        decreases self,
    {
        IntrinsicDecl {
            name: self.name.clone(),
            id: self.id,
            unsafe_only: self.unsafe_only,
            forward_only: self.forward_only,
            never_returns: self.never_returns,
        }
    }
}

/// Statements in braces.
#[derive(Debug)]
pub struct HirBlock {
    pub stmts: Vec<HirStmt>,
}

/// `HirBlock` as a mathematical value.
pub struct HirBlockView {
    pub stmts: Seq<HirStmtView>,
}

impl HirBlock {
    /// The mathematical value of `self`.
    pub open spec fn model(self) -> HirBlockView
        decreases self, 2nat,
    {
        HirBlockView {
            stmts: hir_stmt_views(self.stmts@),
        }
    }

    /// A copy of `self`.
    pub fn dup(&self) -> (r: Self)
        ensures
            r.model() == self.model(),
        decreases self,
    {
        HirBlock {
            stmts: dup_hir_stmt_list(&self.stmts),
        }
    }
}

/// A statement.
#[derive(Debug)]
pub enum HirStmt {
    Let { name: String, ty: Option<Type>, init: HirExpr, mutable: bool, persist: bool },
    Expr { expr: HirExpr },
    Return { expr: Option<HirExpr> },
    Assign { target: HirExpr, expr: HirExpr },
    While { cond: HirExpr, body: HirBlock },
    Loop { body: HirBlock },
    Break,
    For { var: String, iterable: HirExpr, body: HirBlock },
    UnsafeBlock { body: HirBlock },
}

/// `HirStmt` as a mathematical value.
pub enum HirStmtView {
    Let { name: Chars, ty: Option<TypeView>, init: HirExprView, mutable: bool, persist: bool },
    Expr { expr: HirExprView },
    Return { expr: Option<HirExprView> },
    Assign { target: HirExprView, expr: HirExprView },
    While { cond: HirExprView, body: HirBlockView },
    Loop { body: HirBlockView },
    Break,
    For { var: Chars, iterable: HirExprView, body: HirBlockView },
    UnsafeBlock { body: HirBlockView },
}

impl HirStmt {
    /// The mathematical value of `self`.
    pub open spec fn model(self) -> HirStmtView
        decreases self, 2nat,
    {
        match self {
            HirStmt::Let { name, ty, init, mutable, persist } => HirStmtView::Let { name: name@, ty: match ty { Some(y) => Some(y.model()), None => None }, init: init.model(), mutable: mutable, persist: persist },
            HirStmt::Expr { expr } => HirStmtView::Expr { expr: expr.model() },
            HirStmt::Return { expr } => HirStmtView::Return { expr: match expr { Some(y) => Some(y.model()), None => None } },
            HirStmt::Assign { target, expr } => HirStmtView::Assign { target: target.model(), expr: expr.model() },
            HirStmt::While { cond, body } => HirStmtView::While { cond: cond.model(), body: body.model() },
            HirStmt::Loop { body } => HirStmtView::Loop { body: body.model() },
            HirStmt::Break => HirStmtView::Break,
            HirStmt::For { var, iterable, body } => HirStmtView::For { var: var@, iterable: iterable.model(), body: body.model() },
            HirStmt::UnsafeBlock { body } => HirStmtView::UnsafeBlock { body: body.model() },
        }
    }

    /// A copy of `self`.
    pub fn dup(&self) -> (r: Self)
        ensures
            r.model() == self.model(),
        decreases self,
    {
        match self {
            HirStmt::Let { name, ty, init, mutable, persist } => HirStmt::Let { name: name.clone(), ty: (match ty { Some(z) => Some(z.dup()), None => None }), init: init.dup(), mutable: *mutable, persist: *persist },
            HirStmt::Expr { expr } => HirStmt::Expr { expr: expr.dup() },
            HirStmt::Return { expr } => HirStmt::Return { expr: (match expr { Some(z) => Some(z.dup()), None => None }) },
            HirStmt::Assign { target, expr } => HirStmt::Assign { target: target.dup(), expr: expr.dup() },
            HirStmt::While { cond, body } => HirStmt::While { cond: cond.dup(), body: body.dup() },
            HirStmt::Loop { body } => HirStmt::Loop { body: body.dup() },
            HirStmt::Break => HirStmt::Break,
            HirStmt::For { var, iterable, body } => HirStmt::For { var: var.clone(), iterable: iterable.dup(), body: body.dup() },
            HirStmt::UnsafeBlock { body } => HirStmt::UnsafeBlock { body: body.dup() },
        }
    }
}

/// An expression with its type.
#[derive(Debug)]
pub struct HirExpr {
    pub kind: HirExprKind,
    pub ty: Type,
}

/// `HirExpr` as a mathematical value.
pub struct HirExprView {
    pub kind: HirExprKindView,
    pub ty: TypeView,
}

impl HirExpr {
    /// The mathematical value of `self`.
    pub open spec fn model(self) -> HirExprView
        decreases self, 2nat,
    {
        HirExprView {
            kind: self.kind.model(),
            ty: self.ty.model(),
        }
    }

    /// A copy of `self`.
    pub fn dup(&self) -> (r: Self)
        ensures
            r.model() == self.model(),
        decreases self,
    {
        HirExpr {
            kind: self.kind.dup(),
            ty: self.ty.dup(),
        }
    }
}

/// The kinds of expressions.
#[derive(Debug)]
pub enum HirExprKind {
    Literal(Literal),
    Ident(String),
    Sym(String),
    BinaryOp { op: BinaryOp, left: Box<HirExpr>, right: Box<HirExpr> },
    Unary { op: UnaryOp, expr: Box<HirExpr> },
    Cast { expr: Box<HirExpr>, ty: Type },
    FieldAccess { struct_expr: Box<HirExpr>, field_name: String },
    Index { expr: Box<HirExpr>, index: Box<HirExpr> },
    Call { qualifier: Option<String>, func: String, generic_args: Vec<Type>, args: Vec<HirCallArg>, is_method: bool },
    EnumVariantConstruction { enum_name: String, generic_args: Vec<Type>, variant_name: String, args: Vec<HirCallArg> },
    EnumVariantAccess { enum_name: String, variant_name: String },
    StructInit { struct_name: String, generic_args: Vec<Type>, fields: Vec<(String, HirExpr)> },
    ArrayLiteral(Vec<HirExpr>),
    LackSlice(Type),
    Block(HirBlock),
    UnsafeBlock { kind: UnsafeKind, body: HirBlock },
    If { kind: IfKind, cond: Box<HirExpr>, then_expr: Box<HirExpr>, else_expr: Option<Box<HirExpr>> },
    Match { cond: Box<HirExpr>, arms: Vec<HirMatchArm> },
    Closure { param: String, body: Box<HirExpr> },
    Range { start: Box<HirExpr>, end: Box<HirExpr> },
}

/// `HirExprKind` as a mathematical value.
pub enum HirExprKindView {
    Literal(LiteralView),
    Ident(Chars),
    Sym(Chars),
    BinaryOp { op: BinaryOp, left: Box<HirExprView>, right: Box<HirExprView> },
    Unary { op: UnaryOp, expr: Box<HirExprView> },
    Cast { expr: Box<HirExprView>, ty: TypeView },
    FieldAccess { struct_expr: Box<HirExprView>, field_name: Chars },
    Index { expr: Box<HirExprView>, index: Box<HirExprView> },
    Call { qualifier: Option<Chars>, func: Chars, generic_args: Seq<TypeView>, args: Seq<HirCallArgView>, is_method: bool },
    EnumVariantConstruction { enum_name: Chars, generic_args: Seq<TypeView>, variant_name: Chars, args: Seq<HirCallArgView> },
    EnumVariantAccess { enum_name: Chars, variant_name: Chars },
    StructInit { struct_name: Chars, generic_args: Seq<TypeView>, fields: Seq<(Chars, HirExprView)> },
    ArrayLiteral(Seq<HirExprView>),
    LackSlice(TypeView),
    Block(HirBlockView),
    UnsafeBlock { kind: UnsafeKind, body: HirBlockView },
    If { kind: IfKind, cond: Box<HirExprView>, then_expr: Box<HirExprView>, else_expr: Option<Box<HirExprView>> },
    Match { cond: Box<HirExprView>, arms: Seq<HirMatchArmView> },
    Closure { param: Chars, body: Box<HirExprView> },
    Range { start: Box<HirExprView>, end: Box<HirExprView> },
}

impl HirExprKind {
    /// The mathematical value of `self`.
    pub open spec fn model(self) -> HirExprKindView
        decreases self, 2nat,
    {
        match self {
            HirExprKind::Literal(a0) => HirExprKindView::Literal(a0.model()),
            HirExprKind::Ident(a0) => HirExprKindView::Ident(a0@),
            HirExprKind::Sym(a0) => HirExprKindView::Sym(a0@),
            HirExprKind::BinaryOp { op, left, right } => HirExprKindView::BinaryOp { op: op, left: Box::new((*left).model()), right: Box::new((*right).model()) },
            HirExprKind::Unary { op, expr } => HirExprKindView::Unary { op: op, expr: Box::new((*expr).model()) },
            HirExprKind::Cast { expr, ty } => HirExprKindView::Cast { expr: Box::new((*expr).model()), ty: ty.model() },
            HirExprKind::FieldAccess { struct_expr, field_name } => HirExprKindView::FieldAccess { struct_expr: Box::new((*struct_expr).model()), field_name: field_name@ },
            HirExprKind::Index { expr, index } => HirExprKindView::Index { expr: Box::new((*expr).model()), index: Box::new((*index).model()) },
            HirExprKind::Call { qualifier, func, generic_args, args, is_method } => HirExprKindView::Call { qualifier: match qualifier { Some(y) => Some(y@), None => None }, func: func@, generic_args: type_views(generic_args@), args: hir_call_arg_views(args@), is_method: is_method },
            HirExprKind::EnumVariantConstruction { enum_name, generic_args, variant_name, args } => HirExprKindView::EnumVariantConstruction { enum_name: enum_name@, generic_args: type_views(generic_args@), variant_name: variant_name@, args: hir_call_arg_views(args@) },
            HirExprKind::EnumVariantAccess { enum_name, variant_name } => HirExprKindView::EnumVariantAccess { enum_name: enum_name@, variant_name: variant_name@ },
            HirExprKind::StructInit { struct_name, generic_args, fields } => HirExprKindView::StructInit { struct_name: struct_name@, generic_args: type_views(generic_args@), fields: string_hir_expr_views(fields@) },
            HirExprKind::ArrayLiteral(a0) => HirExprKindView::ArrayLiteral(hir_expr_views(a0@)),
            HirExprKind::LackSlice(a0) => HirExprKindView::LackSlice(a0.model()),
            HirExprKind::Block(a0) => HirExprKindView::Block(a0.model()),
            HirExprKind::UnsafeBlock { kind, body } => HirExprKindView::UnsafeBlock { kind: kind, body: body.model() },
            HirExprKind::If { kind, cond, then_expr, else_expr } => HirExprKindView::If { kind: kind, cond: Box::new((*cond).model()), then_expr: Box::new((*then_expr).model()), else_expr: match else_expr { Some(y) => Some(Box::new((*y).model())), None => None } },
            HirExprKind::Match { cond, arms } => HirExprKindView::Match { cond: Box::new((*cond).model()), arms: hir_match_arm_views(arms@) },
            HirExprKind::Closure { param, body } => HirExprKindView::Closure { param: param@, body: Box::new((*body).model()) },
            HirExprKind::Range { start, end } => HirExprKindView::Range { start: Box::new((*start).model()), end: Box::new((*end).model()) },
        }
    }

    /// A copy of `self`.
    pub fn dup(&self) -> (r: Self)
        ensures
            r.model() == self.model(),
        decreases self,
    {
        match self {
            HirExprKind::Literal(a0) => HirExprKind::Literal(a0.dup()),
            HirExprKind::Ident(a0) => HirExprKind::Ident(a0.clone()),
            HirExprKind::Sym(a0) => HirExprKind::Sym(a0.clone()),
            HirExprKind::BinaryOp { op, left, right } => HirExprKind::BinaryOp { op: *op, left: Box::new((**left).dup()), right: Box::new((**right).dup()) },
            HirExprKind::Unary { op, expr } => HirExprKind::Unary { op: *op, expr: Box::new((**expr).dup()) },
            HirExprKind::Cast { expr, ty } => HirExprKind::Cast { expr: Box::new((**expr).dup()), ty: ty.dup() },
            HirExprKind::FieldAccess { struct_expr, field_name } => HirExprKind::FieldAccess { struct_expr: Box::new((**struct_expr).dup()), field_name: field_name.clone() },
            HirExprKind::Index { expr, index } => HirExprKind::Index { expr: Box::new((**expr).dup()), index: Box::new((**index).dup()) },
            HirExprKind::Call { qualifier, func, generic_args, args, is_method } => HirExprKind::Call { qualifier: (match qualifier { Some(z) => Some(z.clone()), None => None }), func: func.clone(), generic_args: dup_type_list(generic_args), args: dup_hir_call_arg_list(args), is_method: *is_method },
            HirExprKind::EnumVariantConstruction { enum_name, generic_args, variant_name, args } => HirExprKind::EnumVariantConstruction { enum_name: enum_name.clone(), generic_args: dup_type_list(generic_args), variant_name: variant_name.clone(), args: dup_hir_call_arg_list(args) },
            HirExprKind::EnumVariantAccess { enum_name, variant_name } => HirExprKind::EnumVariantAccess { enum_name: enum_name.clone(), variant_name: variant_name.clone() },
            HirExprKind::StructInit { struct_name, generic_args, fields } => HirExprKind::StructInit { struct_name: struct_name.clone(), generic_args: dup_type_list(generic_args), fields: dup_string_hir_expr_list(fields) },
            HirExprKind::ArrayLiteral(a0) => HirExprKind::ArrayLiteral(dup_hir_expr_list(a0)),
            HirExprKind::LackSlice(a0) => HirExprKind::LackSlice(a0.dup()),
            HirExprKind::Block(a0) => HirExprKind::Block(a0.dup()),
            HirExprKind::UnsafeBlock { kind, body } => HirExprKind::UnsafeBlock { kind: *kind, body: body.dup() },
            HirExprKind::If { kind, cond, then_expr, else_expr } => HirExprKind::If { kind: *kind, cond: Box::new((**cond).dup()), then_expr: Box::new((**then_expr).dup()), else_expr: (match else_expr { Some(z) => Some(Box::new((**z).dup())), None => None }) },
            HirExprKind::Match { cond, arms } => HirExprKind::Match { cond: Box::new((**cond).dup()), arms: dup_hir_match_arm_list(arms) },
            HirExprKind::Closure { param, body } => HirExprKind::Closure { param: param.clone(), body: Box::new((**body).dup()) },
            HirExprKind::Range { start, end } => HirExprKind::Range { start: Box::new((**start).dup()), end: Box::new((**end).dup()) },
        }
    }
}

/// An arm of a `match`.
#[derive(Debug)]
pub struct HirMatchArm {
    pub pattern: Pattern,
    pub expr: HirExpr,
}

/// `HirMatchArm` as a mathematical value.
pub struct HirMatchArmView {
    pub pattern: PatternView,
    pub expr: HirExprView,
}

impl HirMatchArm {
    /// The mathematical value of `self`.
    pub open spec fn model(self) -> HirMatchArmView
        decreases self, 2nat,
    {
        HirMatchArmView {
            pattern: self.pattern.model(),
            expr: self.expr.model(),
        }
    }

    /// A copy of `self`.
    pub fn dup(&self) -> (r: Self)
        ensures
            r.model() == self.model(),
        decreases self,
    {
        HirMatchArm {
            pattern: self.pattern.dup(),
            expr: self.expr.dup(),
        }
    }
}

/// An argument of a call, with its name where one is given.
#[derive(Debug)]
pub enum HirCallArg {
    Positional(HirExpr),
    Named(String, HirExpr),
}

/// `HirCallArg` as a mathematical value.
pub enum HirCallArgView {
    Positional(HirExprView),
    Named(Chars, HirExprView),
}

impl HirCallArg {
    /// The mathematical value of `self`.
    pub open spec fn model(self) -> HirCallArgView
        decreases self, 2nat,
    {
        match self {
            HirCallArg::Positional(a0) => HirCallArgView::Positional(a0.model()),
            HirCallArg::Named(a0, a1) => HirCallArgView::Named(a0@, a1.model()),
        }
    }

    /// A copy of `self`.
    pub fn dup(&self) -> (r: Self)
        ensures
            r.model() == self.model(),
        decreases self,
    {
        match self {
            HirCallArg::Positional(a0) => HirCallArg::Positional(a0.dup()),
            HirCallArg::Named(a0, a1) => HirCallArg::Named(a0.clone(), a1.dup()),
        }
    }
}

/// The mathematical values of a list.
pub open spec fn hir_struct_views(s: Seq<HirStruct>) -> Seq<HirStructView>
    decreases s, 1nat,
{
    hir_struct_seq(s)
}

/// The mathematical values of a list, one by one.
#[verifier::opaque]
pub open spec fn hir_struct_seq(s: Seq<HirStruct>) -> Seq<HirStructView>
    decreases s, 0nat,
{
    Seq::new(
        s.len(),
        |i: int|
            if 0 <= i < s.len() {
                s[i].model()
            } else {
                arbitrary()
            },
    )
}

/// Appending to a list appends to its mathematical values.
pub proof fn lemma_hir_struct_push(s: Seq<HirStruct>, x: HirStruct)
    ensures
        hir_struct_views(s.push(x)) == hir_struct_views(s).push(x.model()),
{
    reveal(hir_struct_seq);
    assert(hir_struct_views(s.push(x)) =~= hir_struct_views(s).push(x.model()));
}

/// The mathematical values of a list are as many as the list holds, each in its
/// place.
pub proof fn lemma_hir_struct_views(s: Seq<HirStruct>)
    ensures
        hir_struct_views(s).len() == s.len(),
        forall|i: int|
            0 <= i < s.len() ==> #[trigger] hir_struct_views(s)[i] == (s[i].model()),
{
    reveal(hir_struct_seq);
}

/// A copy of a list.
pub fn dup_hir_struct_list(v: &Vec<HirStruct>) -> (r: Vec<HirStruct>)
    ensures
        hir_struct_views(r@) == hir_struct_views(v@),
    decreases v@,
{
    let mut out: Vec<HirStruct> = Vec::new();
    let mut i: usize = 0;
    proof {
        lemma_hir_struct_views(v@);
        lemma_hir_struct_views(out@);
    }
    assert(hir_struct_views(out@) =~= hir_struct_views(v@).take(0));
    while i < v.len()
        invariant
            i <= v.len(),
            hir_struct_views(out@) == hir_struct_views(v@).take(i as int),
        decreases v.len() - i,
    {
        let x = v[i].dup();
        proof {
            lemma_hir_struct_push(out@, x);
            lemma_hir_struct_views(v@);
        }
        out.push(x);
        i = i + 1;
        assert(hir_struct_views(out@) =~= hir_struct_views(v@).take(i as int));
    }
    proof {
        lemma_hir_struct_views(v@);
    }
    assert(hir_struct_views(out@) =~= hir_struct_views(v@));
    out
}

/// The mathematical values of a list.
pub open spec fn hir_enum_views(s: Seq<HirEnum>) -> Seq<HirEnumView>
    decreases s, 1nat,
{
    hir_enum_seq(s)
}

/// The mathematical values of a list, one by one.
#[verifier::opaque]
pub open spec fn hir_enum_seq(s: Seq<HirEnum>) -> Seq<HirEnumView>
    decreases s, 0nat,
{
    Seq::new(
        s.len(),
        |i: int|
            if 0 <= i < s.len() {
                s[i].model()
            } else {
                arbitrary()
            },
    )
}

/// Appending to a list appends to its mathematical values.
pub proof fn lemma_hir_enum_push(s: Seq<HirEnum>, x: HirEnum)
    ensures
        hir_enum_views(s.push(x)) == hir_enum_views(s).push(x.model()),
{
    reveal(hir_enum_seq);
    assert(hir_enum_views(s.push(x)) =~= hir_enum_views(s).push(x.model()));
}

/// The mathematical values of a list are as many as the list holds, each in its
/// place.
pub proof fn lemma_hir_enum_views(s: Seq<HirEnum>)
    ensures
        hir_enum_views(s).len() == s.len(),
        forall|i: int|
            0 <= i < s.len() ==> #[trigger] hir_enum_views(s)[i] == (s[i].model()),
{
    reveal(hir_enum_seq);
}

/// A copy of a list.
pub fn dup_hir_enum_list(v: &Vec<HirEnum>) -> (r: Vec<HirEnum>)
    ensures
        hir_enum_views(r@) == hir_enum_views(v@),
    decreases v@,
{
    let mut out: Vec<HirEnum> = Vec::new();
    let mut i: usize = 0;
    proof {
        lemma_hir_enum_views(v@);
        lemma_hir_enum_views(out@);
    }
    assert(hir_enum_views(out@) =~= hir_enum_views(v@).take(0));
    while i < v.len()
        invariant
            i <= v.len(),
            hir_enum_views(out@) == hir_enum_views(v@).take(i as int),
        decreases v.len() - i,
    {
        let x = v[i].dup();
        proof {
            lemma_hir_enum_push(out@, x);
            lemma_hir_enum_views(v@);
        }
        out.push(x);
        i = i + 1;
        assert(hir_enum_views(out@) =~= hir_enum_views(v@).take(i as int));
    }
    proof {
        lemma_hir_enum_views(v@);
    }
    assert(hir_enum_views(out@) =~= hir_enum_views(v@));
    out
}

/// The mathematical values of a list.
pub open spec fn hir_fn_views(s: Seq<HirFn>) -> Seq<HirFnView>
    decreases s, 1nat,
{
    hir_fn_seq(s)
}

/// The mathematical values of a list, one by one.
#[verifier::opaque]
pub open spec fn hir_fn_seq(s: Seq<HirFn>) -> Seq<HirFnView>
    decreases s, 0nat,
{
    Seq::new(
        s.len(),
        |i: int|
            if 0 <= i < s.len() {
                s[i].model()
            } else {
                arbitrary()
            },
    )
}

/// Appending to a list appends to its mathematical values.
pub proof fn lemma_hir_fn_push(s: Seq<HirFn>, x: HirFn)
    ensures
        hir_fn_views(s.push(x)) == hir_fn_views(s).push(x.model()),
{
    reveal(hir_fn_seq);
    assert(hir_fn_views(s.push(x)) =~= hir_fn_views(s).push(x.model()));
}

/// The mathematical values of a list are as many as the list holds, each in its
/// place.
pub proof fn lemma_hir_fn_views(s: Seq<HirFn>)
    ensures
        hir_fn_views(s).len() == s.len(),
        forall|i: int|
            0 <= i < s.len() ==> #[trigger] hir_fn_views(s)[i] == (s[i].model()),
{
    reveal(hir_fn_seq);
}

/// A copy of a list.
pub fn dup_hir_fn_list(v: &Vec<HirFn>) -> (r: Vec<HirFn>)
    ensures
        hir_fn_views(r@) == hir_fn_views(v@),
    decreases v@,
{
    let mut out: Vec<HirFn> = Vec::new();
    let mut i: usize = 0;
    proof {
        lemma_hir_fn_views(v@);
        lemma_hir_fn_views(out@);
    }
    assert(hir_fn_views(out@) =~= hir_fn_views(v@).take(0));
    while i < v.len()
        invariant
            i <= v.len(),
            hir_fn_views(out@) == hir_fn_views(v@).take(i as int),
        decreases v.len() - i,
    {
        let x = v[i].dup();
        proof {
            lemma_hir_fn_push(out@, x);
            lemma_hir_fn_views(v@);
        }
        out.push(x);
        i = i + 1;
        assert(hir_fn_views(out@) =~= hir_fn_views(v@).take(i as int));
    }
    proof {
        lemma_hir_fn_views(v@);
    }
    assert(hir_fn_views(out@) =~= hir_fn_views(v@));
    out
}

/// The mathematical values of a list.
pub open spec fn hir_model_views(s: Seq<HirModel>) -> Seq<HirModelView>
    decreases s, 1nat,
{
    hir_model_seq(s)
}

/// The mathematical values of a list, one by one.
#[verifier::opaque]
pub open spec fn hir_model_seq(s: Seq<HirModel>) -> Seq<HirModelView>
    decreases s, 0nat,
{
    Seq::new(
        s.len(),
        |i: int|
            if 0 <= i < s.len() {
                s[i].model()
            } else {
                arbitrary()
            },
    )
}

/// Appending to a list appends to its mathematical values.
pub proof fn lemma_hir_model_push(s: Seq<HirModel>, x: HirModel)
    ensures
        hir_model_views(s.push(x)) == hir_model_views(s).push(x.model()),
{
    reveal(hir_model_seq);
    assert(hir_model_views(s.push(x)) =~= hir_model_views(s).push(x.model()));
}

/// The mathematical values of a list are as many as the list holds, each in its
/// place.
pub proof fn lemma_hir_model_views(s: Seq<HirModel>)
    ensures
        hir_model_views(s).len() == s.len(),
        forall|i: int|
            0 <= i < s.len() ==> #[trigger] hir_model_views(s)[i] == (s[i].model()),
{
    reveal(hir_model_seq);
}

/// A copy of a list.
pub fn dup_hir_model_list(v: &Vec<HirModel>) -> (r: Vec<HirModel>)
    ensures
        hir_model_views(r@) == hir_model_views(v@),
    decreases v@,
{
    let mut out: Vec<HirModel> = Vec::new();
    let mut i: usize = 0;
    proof {
        lemma_hir_model_views(v@);
        lemma_hir_model_views(out@);
    }
    assert(hir_model_views(out@) =~= hir_model_views(v@).take(0));
    while i < v.len()
        invariant
            i <= v.len(),
            hir_model_views(out@) == hir_model_views(v@).take(i as int),
        decreases v.len() - i,
    {
        let x = v[i].dup();
        proof {
            lemma_hir_model_push(out@, x);
            lemma_hir_model_views(v@);
        }
        out.push(x);
        i = i + 1;
        assert(hir_model_views(out@) =~= hir_model_views(v@).take(i as int));
    }
    proof {
        lemma_hir_model_views(v@);
    }
    assert(hir_model_views(out@) =~= hir_model_views(v@));
    out
}

/// The mathematical values of a list.
pub open spec fn hir_impl_views(s: Seq<HirImpl>) -> Seq<HirImplView>
    decreases s, 1nat,
{
    hir_impl_seq(s)
}

/// The mathematical values of a list, one by one.
#[verifier::opaque]
pub open spec fn hir_impl_seq(s: Seq<HirImpl>) -> Seq<HirImplView>
    decreases s, 0nat,
{
    Seq::new(
        s.len(),
        |i: int|
            if 0 <= i < s.len() {
                s[i].model()
            } else {
                arbitrary()
            },
    )
}

/// Appending to a list appends to its mathematical values.
pub proof fn lemma_hir_impl_push(s: Seq<HirImpl>, x: HirImpl)
    ensures
        hir_impl_views(s.push(x)) == hir_impl_views(s).push(x.model()),
{
    reveal(hir_impl_seq);
    assert(hir_impl_views(s.push(x)) =~= hir_impl_views(s).push(x.model()));
}

/// The mathematical values of a list are as many as the list holds, each in its
/// place.
pub proof fn lemma_hir_impl_views(s: Seq<HirImpl>)
    ensures
        hir_impl_views(s).len() == s.len(),
        forall|i: int|
            0 <= i < s.len() ==> #[trigger] hir_impl_views(s)[i] == (s[i].model()),
{
    reveal(hir_impl_seq);
}

/// A copy of a list.
pub fn dup_hir_impl_list(v: &Vec<HirImpl>) -> (r: Vec<HirImpl>)
    ensures
        hir_impl_views(r@) == hir_impl_views(v@),
    decreases v@,
{
    let mut out: Vec<HirImpl> = Vec::new();
    let mut i: usize = 0;
    proof {
        lemma_hir_impl_views(v@);
        lemma_hir_impl_views(out@);
    }
    assert(hir_impl_views(out@) =~= hir_impl_views(v@).take(0));
    while i < v.len()
        invariant
            i <= v.len(),
            hir_impl_views(out@) == hir_impl_views(v@).take(i as int),
        decreases v.len() - i,
    {
        let x = v[i].dup();
        proof {
            lemma_hir_impl_push(out@, x);
            lemma_hir_impl_views(v@);
        }
        out.push(x);
        i = i + 1;
        assert(hir_impl_views(out@) =~= hir_impl_views(v@).take(i as int));
    }
    proof {
        lemma_hir_impl_views(v@);
    }
    assert(hir_impl_views(out@) =~= hir_impl_views(v@));
    out
}

/// The mathematical values of a list.
pub open spec fn intrinsic_decl_views(s: Seq<IntrinsicDecl>) -> Seq<IntrinsicDeclView>
    decreases s, 1nat,
{
    intrinsic_decl_seq(s)
}

/// The mathematical values of a list, one by one.
#[verifier::opaque]
pub open spec fn intrinsic_decl_seq(s: Seq<IntrinsicDecl>) -> Seq<IntrinsicDeclView>
    decreases s, 0nat,
{
    Seq::new(
        s.len(),
        |i: int|
            if 0 <= i < s.len() {
                s[i].model()
            } else {
                arbitrary()
            },
    )
}

/// Appending to a list appends to its mathematical values.
pub proof fn lemma_intrinsic_decl_push(s: Seq<IntrinsicDecl>, x: IntrinsicDecl)
    ensures
        intrinsic_decl_views(s.push(x)) == intrinsic_decl_views(s).push(x.model()),
{
    reveal(intrinsic_decl_seq);
    assert(intrinsic_decl_views(s.push(x)) =~= intrinsic_decl_views(s).push(x.model()));
}

/// The mathematical values of a list are as many as the list holds, each in its
/// place.
pub proof fn lemma_intrinsic_decl_views(s: Seq<IntrinsicDecl>)
    ensures
        intrinsic_decl_views(s).len() == s.len(),
        forall|i: int|
            0 <= i < s.len() ==> #[trigger] intrinsic_decl_views(s)[i] == (s[i].model()),
{
    reveal(intrinsic_decl_seq);
}

/// A copy of a list.
pub fn dup_intrinsic_decl_list(v: &Vec<IntrinsicDecl>) -> (r: Vec<IntrinsicDecl>)
    ensures
        intrinsic_decl_views(r@) == intrinsic_decl_views(v@),
    decreases v@,
{
    let mut out: Vec<IntrinsicDecl> = Vec::new();
    let mut i: usize = 0;
    proof {
        lemma_intrinsic_decl_views(v@);
        lemma_intrinsic_decl_views(out@);
    }
    assert(intrinsic_decl_views(out@) =~= intrinsic_decl_views(v@).take(0));
    while i < v.len()
        invariant
            i <= v.len(),
            intrinsic_decl_views(out@) == intrinsic_decl_views(v@).take(i as int),
        decreases v.len() - i,
    {
        let x = v[i].dup();
        proof {
            lemma_intrinsic_decl_push(out@, x);
            lemma_intrinsic_decl_views(v@);
        }
        out.push(x);
        i = i + 1;
        assert(intrinsic_decl_views(out@) =~= intrinsic_decl_views(v@).take(i as int));
    }
    proof {
        lemma_intrinsic_decl_views(v@);
    }
    assert(intrinsic_decl_views(out@) =~= intrinsic_decl_views(v@));
    out
}

/// The mathematical values of a list.
pub open spec fn hir_field_views(s: Seq<HirField>) -> Seq<HirFieldView>
    decreases s, 1nat,
{
    hir_field_seq(s)
}

/// The mathematical values of a list, one by one.
#[verifier::opaque]
pub open spec fn hir_field_seq(s: Seq<HirField>) -> Seq<HirFieldView>
    decreases s, 0nat,
{
    Seq::new(
        s.len(),
        |i: int|
            if 0 <= i < s.len() {
                s[i].model()
            } else {
                arbitrary()
            },
    )
}

/// Appending to a list appends to its mathematical values.
pub proof fn lemma_hir_field_push(s: Seq<HirField>, x: HirField)
    ensures
        hir_field_views(s.push(x)) == hir_field_views(s).push(x.model()),
{
    reveal(hir_field_seq);
    assert(hir_field_views(s.push(x)) =~= hir_field_views(s).push(x.model()));
}

/// The mathematical values of a list are as many as the list holds, each in its
/// place.
pub proof fn lemma_hir_field_views(s: Seq<HirField>)
    ensures
        hir_field_views(s).len() == s.len(),
        forall|i: int|
            0 <= i < s.len() ==> #[trigger] hir_field_views(s)[i] == (s[i].model()),
{
    reveal(hir_field_seq);
}

/// A copy of a list.
pub fn dup_hir_field_list(v: &Vec<HirField>) -> (r: Vec<HirField>)
    ensures
        hir_field_views(r@) == hir_field_views(v@),
    decreases v@,
{
    let mut out: Vec<HirField> = Vec::new();
    let mut i: usize = 0;
    proof {
        lemma_hir_field_views(v@);
        lemma_hir_field_views(out@);
    }
    assert(hir_field_views(out@) =~= hir_field_views(v@).take(0));
    while i < v.len()
        invariant
            i <= v.len(),
            hir_field_views(out@) == hir_field_views(v@).take(i as int),
        decreases v.len() - i,
    {
        let x = v[i].dup();
        proof {
            lemma_hir_field_push(out@, x);
            lemma_hir_field_views(v@);
        }
        out.push(x);
        i = i + 1;
        assert(hir_field_views(out@) =~= hir_field_views(v@).take(i as int));
    }
    proof {
        lemma_hir_field_views(v@);
    }
    assert(hir_field_views(out@) =~= hir_field_views(v@));
    out
}

/// The mathematical values of a list.
pub open spec fn hir_variant_views(s: Seq<HirVariant>) -> Seq<HirVariantView>
    decreases s, 1nat,
{
    hir_variant_seq(s)
}

/// The mathematical values of a list, one by one.
#[verifier::opaque]
pub open spec fn hir_variant_seq(s: Seq<HirVariant>) -> Seq<HirVariantView>
    decreases s, 0nat,
{
    Seq::new(
        s.len(),
        |i: int|
            if 0 <= i < s.len() {
                s[i].model()
            } else {
                arbitrary()
            },
    )
}

/// Appending to a list appends to its mathematical values.
pub proof fn lemma_hir_variant_push(s: Seq<HirVariant>, x: HirVariant)
    ensures
        hir_variant_views(s.push(x)) == hir_variant_views(s).push(x.model()),
{
    reveal(hir_variant_seq);
    assert(hir_variant_views(s.push(x)) =~= hir_variant_views(s).push(x.model()));
}

/// The mathematical values of a list are as many as the list holds, each in its
/// place.
pub proof fn lemma_hir_variant_views(s: Seq<HirVariant>)
    ensures
        hir_variant_views(s).len() == s.len(),
        forall|i: int|
            0 <= i < s.len() ==> #[trigger] hir_variant_views(s)[i] == (s[i].model()),
{
    reveal(hir_variant_seq);
}

/// A copy of a list.
pub fn dup_hir_variant_list(v: &Vec<HirVariant>) -> (r: Vec<HirVariant>)
    ensures
        hir_variant_views(r@) == hir_variant_views(v@),
    decreases v@,
{
    let mut out: Vec<HirVariant> = Vec::new();
    let mut i: usize = 0;
    proof {
        lemma_hir_variant_views(v@);
        lemma_hir_variant_views(out@);
    }
    assert(hir_variant_views(out@) =~= hir_variant_views(v@).take(0));
    while i < v.len()
        invariant
            i <= v.len(),
            hir_variant_views(out@) == hir_variant_views(v@).take(i as int),
        decreases v.len() - i,
    {
        let x = v[i].dup();
        proof {
            lemma_hir_variant_push(out@, x);
            lemma_hir_variant_views(v@);
        }
        out.push(x);
        i = i + 1;
        assert(hir_variant_views(out@) =~= hir_variant_views(v@).take(i as int));
    }
    proof {
        lemma_hir_variant_views(v@);
    }
    assert(hir_variant_views(out@) =~= hir_variant_views(v@));
    out
}

/// The mathematical values of a list.
pub open spec fn hir_stmt_views(s: Seq<HirStmt>) -> Seq<HirStmtView>
    decreases s, 1nat,
{
    hir_stmt_seq(s)
}

/// The mathematical values of a list, one by one.
#[verifier::opaque]
pub open spec fn hir_stmt_seq(s: Seq<HirStmt>) -> Seq<HirStmtView>
    decreases s, 0nat,
{
    Seq::new(
        s.len(),
        |i: int|
            if 0 <= i < s.len() {
                s[i].model()
            } else {
                arbitrary()
            },
    )
}

/// Appending to a list appends to its mathematical values.
pub proof fn lemma_hir_stmt_push(s: Seq<HirStmt>, x: HirStmt)
    ensures
        hir_stmt_views(s.push(x)) == hir_stmt_views(s).push(x.model()),
{
    reveal(hir_stmt_seq);
    assert(hir_stmt_views(s.push(x)) =~= hir_stmt_views(s).push(x.model()));
}

/// The mathematical values of a list are as many as the list holds, each in its
/// place.
pub proof fn lemma_hir_stmt_views(s: Seq<HirStmt>)
    ensures
        hir_stmt_views(s).len() == s.len(),
        forall|i: int|
            0 <= i < s.len() ==> #[trigger] hir_stmt_views(s)[i] == (s[i].model()),
{
    reveal(hir_stmt_seq);
}

/// A copy of a list.
pub fn dup_hir_stmt_list(v: &Vec<HirStmt>) -> (r: Vec<HirStmt>)
    ensures
        hir_stmt_views(r@) == hir_stmt_views(v@),
    decreases v@,
{
    let mut out: Vec<HirStmt> = Vec::new();
    let mut i: usize = 0;
    proof {
        lemma_hir_stmt_views(v@);
        lemma_hir_stmt_views(out@);
    }
    assert(hir_stmt_views(out@) =~= hir_stmt_views(v@).take(0));
    while i < v.len()
        invariant
            i <= v.len(),
            hir_stmt_views(out@) == hir_stmt_views(v@).take(i as int),
        decreases v.len() - i,
    {
        let x = v[i].dup();
        proof {
            lemma_hir_stmt_push(out@, x);
            lemma_hir_stmt_views(v@);
        }
        out.push(x);
        i = i + 1;
        assert(hir_stmt_views(out@) =~= hir_stmt_views(v@).take(i as int));
    }
    proof {
        lemma_hir_stmt_views(v@);
    }
    assert(hir_stmt_views(out@) =~= hir_stmt_views(v@));
    out
}

/// The mathematical values of a list.
pub open spec fn hir_call_arg_views(s: Seq<HirCallArg>) -> Seq<HirCallArgView>
    decreases s, 1nat,
{
    hir_call_arg_seq(s)
}

/// The mathematical values of a list, one by one.
#[verifier::opaque]
pub open spec fn hir_call_arg_seq(s: Seq<HirCallArg>) -> Seq<HirCallArgView>
    decreases s, 0nat,
{
    Seq::new(
        s.len(),
        |i: int|
            if 0 <= i < s.len() {
                s[i].model()
            } else {
                arbitrary()
            },
    )
}

/// Appending to a list appends to its mathematical values.
pub proof fn lemma_hir_call_arg_push(s: Seq<HirCallArg>, x: HirCallArg)
    ensures
        hir_call_arg_views(s.push(x)) == hir_call_arg_views(s).push(x.model()),
{
    reveal(hir_call_arg_seq);
    assert(hir_call_arg_views(s.push(x)) =~= hir_call_arg_views(s).push(x.model()));
}

/// The mathematical values of a list are as many as the list holds, each in its
/// place.
pub proof fn lemma_hir_call_arg_views(s: Seq<HirCallArg>)
    ensures
        hir_call_arg_views(s).len() == s.len(),
        forall|i: int|
            0 <= i < s.len() ==> #[trigger] hir_call_arg_views(s)[i] == (s[i].model()),
{
    reveal(hir_call_arg_seq);
}

/// A copy of a list.
pub fn dup_hir_call_arg_list(v: &Vec<HirCallArg>) -> (r: Vec<HirCallArg>)
    ensures
        hir_call_arg_views(r@) == hir_call_arg_views(v@),
    decreases v@,
{
    let mut out: Vec<HirCallArg> = Vec::new();
    let mut i: usize = 0;
    proof {
        lemma_hir_call_arg_views(v@);
        lemma_hir_call_arg_views(out@);
    }
    assert(hir_call_arg_views(out@) =~= hir_call_arg_views(v@).take(0));
    while i < v.len()
        invariant
            i <= v.len(),
            hir_call_arg_views(out@) == hir_call_arg_views(v@).take(i as int),
        decreases v.len() - i,
    {
        let x = v[i].dup();
        proof {
            lemma_hir_call_arg_push(out@, x);
            lemma_hir_call_arg_views(v@);
        }
        out.push(x);
        i = i + 1;
        assert(hir_call_arg_views(out@) =~= hir_call_arg_views(v@).take(i as int));
    }
    proof {
        lemma_hir_call_arg_views(v@);
    }
    assert(hir_call_arg_views(out@) =~= hir_call_arg_views(v@));
    out
}

/// The mathematical values of a list.
pub open spec fn string_hir_expr_views(s: Seq<(String, HirExpr)>) -> Seq<(Chars, HirExprView)>
    decreases s, 1nat,
{
    string_hir_expr_seq(s)
}

/// The mathematical values of a list, one by one.
#[verifier::opaque]
pub open spec fn string_hir_expr_seq(s: Seq<(String, HirExpr)>) -> Seq<(Chars, HirExprView)>
    decreases s, 0nat,
{
    Seq::new(
        s.len(),
        |i: int|
            if 0 <= i < s.len() {
                (s[i].0@, s[i].1.model())
            } else {
                arbitrary()
            },
    )
}

/// Appending to a list appends to its mathematical values.
pub proof fn lemma_string_hir_expr_push(s: Seq<(String, HirExpr)>, x: (String, HirExpr))
    ensures
        string_hir_expr_views(s.push(x)) == string_hir_expr_views(s).push((x.0@, x.1.model())),
{
    reveal(string_hir_expr_seq);
    assert(string_hir_expr_views(s.push(x)) =~= string_hir_expr_views(s).push((x.0@, x.1.model())));
}

/// The mathematical values of a list are as many as the list holds, each in its
/// place.
pub proof fn lemma_string_hir_expr_views(s: Seq<(String, HirExpr)>)
    ensures
        string_hir_expr_views(s).len() == s.len(),
        forall|i: int|
            0 <= i < s.len() ==> #[trigger] string_hir_expr_views(s)[i] == ((s[i].0@, s[i].1.model())),
{
    reveal(string_hir_expr_seq);
}

/// A copy of a list.
pub fn dup_string_hir_expr_list(v: &Vec<(String, HirExpr)>) -> (r: Vec<(String, HirExpr)>)
    ensures
        string_hir_expr_views(r@) == string_hir_expr_views(v@),
    decreases v@,
{
    let mut out: Vec<(String, HirExpr)> = Vec::new();
    let mut i: usize = 0;
    proof {
        lemma_string_hir_expr_views(v@);
        lemma_string_hir_expr_views(out@);
    }
    assert(string_hir_expr_views(out@) =~= string_hir_expr_views(v@).take(0));
    while i < v.len()
        invariant
            i <= v.len(),
            string_hir_expr_views(out@) == string_hir_expr_views(v@).take(i as int),
        decreases v.len() - i,
    {
        let x = (v[i].0.clone(), v[i].1.dup());
        proof {
            lemma_string_hir_expr_push(out@, x);
            lemma_string_hir_expr_views(v@);
        }
        out.push(x);
        i = i + 1;
        assert(string_hir_expr_views(out@) =~= string_hir_expr_views(v@).take(i as int));
    }
    proof {
        lemma_string_hir_expr_views(v@);
    }
    assert(string_hir_expr_views(out@) =~= string_hir_expr_views(v@));
    out
}

/// The mathematical values of a list.
pub open spec fn hir_expr_views(s: Seq<HirExpr>) -> Seq<HirExprView>
    decreases s, 1nat,
{
    hir_expr_seq(s)
}

/// The mathematical values of a list, one by one.
#[verifier::opaque]
pub open spec fn hir_expr_seq(s: Seq<HirExpr>) -> Seq<HirExprView>
    decreases s, 0nat,
{
    Seq::new(
        s.len(),
        |i: int|
            if 0 <= i < s.len() {
                s[i].model()
            } else {
                arbitrary()
            },
    )
}

/// Appending to a list appends to its mathematical values.
pub proof fn lemma_hir_expr_push(s: Seq<HirExpr>, x: HirExpr)
    ensures
        hir_expr_views(s.push(x)) == hir_expr_views(s).push(x.model()),
{
    reveal(hir_expr_seq);
    assert(hir_expr_views(s.push(x)) =~= hir_expr_views(s).push(x.model()));
}

/// The mathematical values of a list are as many as the list holds, each in its
/// place.
pub proof fn lemma_hir_expr_views(s: Seq<HirExpr>)
    ensures
        hir_expr_views(s).len() == s.len(),
        forall|i: int|
            0 <= i < s.len() ==> #[trigger] hir_expr_views(s)[i] == (s[i].model()),
{
    reveal(hir_expr_seq);
}

/// A copy of a list.
pub fn dup_hir_expr_list(v: &Vec<HirExpr>) -> (r: Vec<HirExpr>)
    ensures
        hir_expr_views(r@) == hir_expr_views(v@),
    decreases v@,
{
    let mut out: Vec<HirExpr> = Vec::new();
    let mut i: usize = 0;
    proof {
        lemma_hir_expr_views(v@);
        lemma_hir_expr_views(out@);
    }
    assert(hir_expr_views(out@) =~= hir_expr_views(v@).take(0));
    while i < v.len()
        invariant
            i <= v.len(),
            hir_expr_views(out@) == hir_expr_views(v@).take(i as int),
        decreases v.len() - i,
    {
        let x = v[i].dup();
        proof {
            lemma_hir_expr_push(out@, x);
            lemma_hir_expr_views(v@);
        }
        out.push(x);
        i = i + 1;
        assert(hir_expr_views(out@) =~= hir_expr_views(v@).take(i as int));
    }
    proof {
        lemma_hir_expr_views(v@);
    }
    assert(hir_expr_views(out@) =~= hir_expr_views(v@));
    out
}

/// The mathematical values of a list.
pub open spec fn hir_match_arm_views(s: Seq<HirMatchArm>) -> Seq<HirMatchArmView>
    decreases s, 1nat,
{
    hir_match_arm_seq(s)
}

/// The mathematical values of a list, one by one.
#[verifier::opaque]
pub open spec fn hir_match_arm_seq(s: Seq<HirMatchArm>) -> Seq<HirMatchArmView>
    decreases s, 0nat,
{
    Seq::new(
        s.len(),
        |i: int|
            if 0 <= i < s.len() {
                s[i].model()
            } else {
                arbitrary()
            },
    )
}

/// Appending to a list appends to its mathematical values.
pub proof fn lemma_hir_match_arm_push(s: Seq<HirMatchArm>, x: HirMatchArm)
    ensures
        hir_match_arm_views(s.push(x)) == hir_match_arm_views(s).push(x.model()),
{
    reveal(hir_match_arm_seq);
    assert(hir_match_arm_views(s.push(x)) =~= hir_match_arm_views(s).push(x.model()));
}

/// The mathematical values of a list are as many as the list holds, each in its
/// place.
pub proof fn lemma_hir_match_arm_views(s: Seq<HirMatchArm>)
    ensures
        hir_match_arm_views(s).len() == s.len(),
        forall|i: int|
            0 <= i < s.len() ==> #[trigger] hir_match_arm_views(s)[i] == (s[i].model()),
{
    reveal(hir_match_arm_seq);
}

/// A copy of a list.
pub fn dup_hir_match_arm_list(v: &Vec<HirMatchArm>) -> (r: Vec<HirMatchArm>)
    ensures
        hir_match_arm_views(r@) == hir_match_arm_views(v@),
    decreases v@,
{
    let mut out: Vec<HirMatchArm> = Vec::new();
    let mut i: usize = 0;
    proof {
        lemma_hir_match_arm_views(v@);
        lemma_hir_match_arm_views(out@);
    }
    assert(hir_match_arm_views(out@) =~= hir_match_arm_views(v@).take(0));
    while i < v.len()
        invariant
            i <= v.len(),
            hir_match_arm_views(out@) == hir_match_arm_views(v@).take(i as int),
        decreases v.len() - i,
    {
        let x = v[i].dup();
        proof {
            lemma_hir_match_arm_push(out@, x);
            lemma_hir_match_arm_views(v@);
        }
        out.push(x);
        i = i + 1;
        assert(hir_match_arm_views(out@) =~= hir_match_arm_views(v@).take(i as int));
    }
    proof {
        lemma_hir_match_arm_views(v@);
    }
    assert(hir_match_arm_views(out@) =~= hir_match_arm_views(v@));
    out
}

} // verus!
