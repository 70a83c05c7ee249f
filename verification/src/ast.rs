//! The syntax tree.
use crate::text::Chars;
use vstd::prelude::*;

verus! {

/// An operator between two operands.
#[derive(Clone, Copy, PartialEq, Eq, Structural, Debug)]
pub enum BinaryOp {
    Add,
    Sub,
    Mul,
    Div,
    Mod,
    Eq,
    Neq,
    Lt,
    Gt,
    Le,
    Ge,
    And,
    Or,
}

/// An operator before its operand.
#[derive(Clone, Copy, PartialEq, Eq, Structural, Debug)]
pub enum UnaryOp {
    Not,
    Neg,
}

/// `if`, or `lack if`, which says that there is no `else`.
#[derive(Clone, Copy, PartialEq, Eq, Structural, Debug)]
pub enum IfKind {
    Normal,
    Lack,
}

/// `unsafe`, or `unsafe verify`.
#[derive(Clone, Copy, PartialEq, Eq, Structural, Debug)]
pub enum UnsafeKind {
    Normal,
    Verify,
}

/// A literal.
#[derive(Debug)]
pub enum Literal {
    Int8(i8),
    Int16(i16),
    Int32(i32),
    Int64(i64),
    Int128(i128),
    Isize(isize),
    Uint8(u8),
    Uint16(u16),
    Uint32(u32),
    Uint64(u64),
    Uint128(u128),
    Usize(usize),
    Float(String),
    Str(String),
    Bool(bool),
    Char(char),
    Unit,
}

/// `Literal` as a mathematical value.
pub enum LiteralView {
    Int8(i8),
    Int16(i16),
    Int32(i32),
    Int64(i64),
    Int128(i128),
    Isize(isize),
    Uint8(u8),
    Uint16(u16),
    Uint32(u32),
    Uint64(u64),
    Uint128(u128),
    Usize(usize),
    Float(Chars),
    Str(Chars),
    Bool(bool),
    Char(char),
    Unit,
}

impl Literal {
    /// The mathematical value of `self`.
    pub open spec fn model(self) -> LiteralView
        decreases self, 2nat,
    {
        match self {
            Literal::Int8(a0) => LiteralView::Int8(a0),
            Literal::Int16(a0) => LiteralView::Int16(a0),
            Literal::Int32(a0) => LiteralView::Int32(a0),
            Literal::Int64(a0) => LiteralView::Int64(a0),
            Literal::Int128(a0) => LiteralView::Int128(a0),
            Literal::Isize(a0) => LiteralView::Isize(a0),
            Literal::Uint8(a0) => LiteralView::Uint8(a0),
            Literal::Uint16(a0) => LiteralView::Uint16(a0),
            Literal::Uint32(a0) => LiteralView::Uint32(a0),
            Literal::Uint64(a0) => LiteralView::Uint64(a0),
            Literal::Uint128(a0) => LiteralView::Uint128(a0),
            Literal::Usize(a0) => LiteralView::Usize(a0),
            Literal::Float(a0) => LiteralView::Float(a0@),
            Literal::Str(a0) => LiteralView::Str(a0@),
            Literal::Bool(a0) => LiteralView::Bool(a0),
            Literal::Char(a0) => LiteralView::Char(a0),
            Literal::Unit => LiteralView::Unit,
        }
    }

    /// A copy of `self`.
    pub fn dup(&self) -> (r: Self)
        ensures
            r.model() == self.model(),
        decreases self,
    {
        match self {
            Literal::Int8(a0) => Literal::Int8(*a0),
            Literal::Int16(a0) => Literal::Int16(*a0),
            Literal::Int32(a0) => Literal::Int32(*a0),
            Literal::Int64(a0) => Literal::Int64(*a0),
            Literal::Int128(a0) => Literal::Int128(*a0),
            Literal::Isize(a0) => Literal::Isize(*a0),
            Literal::Uint8(a0) => Literal::Uint8(*a0),
            Literal::Uint16(a0) => Literal::Uint16(*a0),
            Literal::Uint32(a0) => Literal::Uint32(*a0),
            Literal::Uint64(a0) => Literal::Uint64(*a0),
            Literal::Uint128(a0) => Literal::Uint128(*a0),
            Literal::Usize(a0) => Literal::Usize(*a0),
            Literal::Float(a0) => Literal::Float(a0.clone()),
            Literal::Str(a0) => Literal::Str(a0.clone()),
            Literal::Bool(a0) => Literal::Bool(*a0),
            Literal::Char(a0) => Literal::Char(*a0),
            Literal::Unit => Literal::Unit,
        }
    }
}

/// A type.
#[derive(Debug)]
pub enum Type {
    I8,
    I16,
    I32,
    I64,
    I128,
    ISize,
    U8,
    U16,
    U32,
    U64,
    U128,
    USize,
    F16,
    F32,
    F64,
    Bool,
    Char,
    Str,
    Bytes,
    Unit,
    Never,
    SelfType,
    Ref { mutable: bool, inner: Box<Type> },
    Array(Box<Type>, String),
    Slice(Box<Type>),
    Tuple(Vec<Type>),
    Struct(String),
    Enum(String),
    Param(String),
}

/// `Type` as a mathematical value.
pub enum TypeView {
    I8,
    I16,
    I32,
    I64,
    I128,
    ISize,
    U8,
    U16,
    U32,
    U64,
    U128,
    USize,
    F16,
    F32,
    F64,
    Bool,
    Char,
    Str,
    Bytes,
    Unit,
    Never,
    SelfType,
    Ref { mutable: bool, inner: Box<TypeView> },
    Array(Box<TypeView>, Chars),
    Slice(Box<TypeView>),
    Tuple(Seq<TypeView>),
    Struct(Chars),
    Enum(Chars),
    Param(Chars),
}

impl Type {
    /// The mathematical value of `self`.
    pub open spec fn model(self) -> TypeView
        decreases self, 2nat,
    {
        match self {
            Type::I8 => TypeView::I8,
            Type::I16 => TypeView::I16,
            Type::I32 => TypeView::I32,
            Type::I64 => TypeView::I64,
            Type::I128 => TypeView::I128,
            Type::ISize => TypeView::ISize,
            Type::U8 => TypeView::U8,
            Type::U16 => TypeView::U16,
            Type::U32 => TypeView::U32,
            Type::U64 => TypeView::U64,
            Type::U128 => TypeView::U128,
            Type::USize => TypeView::USize,
            Type::F16 => TypeView::F16,
            Type::F32 => TypeView::F32,
            Type::F64 => TypeView::F64,
            Type::Bool => TypeView::Bool,
            Type::Char => TypeView::Char,
            Type::Str => TypeView::Str,
            Type::Bytes => TypeView::Bytes,
            Type::Unit => TypeView::Unit,
            Type::Never => TypeView::Never,
            Type::SelfType => TypeView::SelfType,
            Type::Ref { mutable, inner } => TypeView::Ref { mutable: mutable, inner: Box::new((*inner).model()) },
            Type::Array(a0, a1) => TypeView::Array(Box::new((*a0).model()), a1@),
            Type::Slice(a0) => TypeView::Slice(Box::new((*a0).model())),
            Type::Tuple(a0) => TypeView::Tuple(type_views(a0@)),
            Type::Struct(a0) => TypeView::Struct(a0@),
            Type::Enum(a0) => TypeView::Enum(a0@),
            Type::Param(a0) => TypeView::Param(a0@),
        }
    }

    /// A copy of `self`.
    pub fn dup(&self) -> (r: Self)
        ensures
            r.model() == self.model(),
        decreases self,
    {
        match self {
            Type::I8 => Type::I8,
            Type::I16 => Type::I16,
            Type::I32 => Type::I32,
            Type::I64 => Type::I64,
            Type::I128 => Type::I128,
            Type::ISize => Type::ISize,
            Type::U8 => Type::U8,
            Type::U16 => Type::U16,
            Type::U32 => Type::U32,
            Type::U64 => Type::U64,
            Type::U128 => Type::U128,
            Type::USize => Type::USize,
            Type::F16 => Type::F16,
            Type::F32 => Type::F32,
            Type::F64 => Type::F64,
            Type::Bool => Type::Bool,
            Type::Char => Type::Char,
            Type::Str => Type::Str,
            Type::Bytes => Type::Bytes,
            Type::Unit => Type::Unit,
            Type::Never => Type::Never,
            Type::SelfType => Type::SelfType,
            Type::Ref { mutable, inner } => Type::Ref { mutable: *mutable, inner: Box::new((**inner).dup()) },
            Type::Array(a0, a1) => Type::Array(Box::new((**a0).dup()), a1.clone()),
            Type::Slice(a0) => Type::Slice(Box::new((**a0).dup())),
            Type::Tuple(a0) => Type::Tuple(dup_type_list(a0)),
            Type::Struct(a0) => Type::Struct(a0.clone()),
            Type::Enum(a0) => Type::Enum(a0.clone()),
            Type::Param(a0) => Type::Param(a0.clone()),
        }
    }
}

/// What an arm of a `match` asks for.
#[derive(Debug)]
pub enum Pattern {
    Wildcard,
    IntLiteral(i128),
    BoolLiteral(bool),
    CharLiteral(char),
    EnumVariant { enum_name: String, variant_name: String },
    EnumVariantWithBinding { enum_name: String, variant_name: String, binding: String },
    Struct { name: String, fields: Vec<(String, String)> },
    Tuple(Vec<Option<String>>),
    Array(Vec<Option<String>>),
}

/// `Pattern` as a mathematical value.
pub enum PatternView {
    Wildcard,
    IntLiteral(i128),
    BoolLiteral(bool),
    CharLiteral(char),
    EnumVariant { enum_name: Chars, variant_name: Chars },
    EnumVariantWithBinding { enum_name: Chars, variant_name: Chars, binding: Chars },
    Struct { name: Chars, fields: Seq<(Chars, Chars)> },
    Tuple(Seq<Option<Chars>>),
    Array(Seq<Option<Chars>>),
}

impl Pattern {
    /// The mathematical value of `self`.
    pub open spec fn model(self) -> PatternView
        decreases self, 2nat,
    {
        match self {
            Pattern::Wildcard => PatternView::Wildcard,
            Pattern::IntLiteral(a0) => PatternView::IntLiteral(a0),
            Pattern::BoolLiteral(a0) => PatternView::BoolLiteral(a0),
            Pattern::CharLiteral(a0) => PatternView::CharLiteral(a0),
            Pattern::EnumVariant { enum_name, variant_name } => PatternView::EnumVariant { enum_name: enum_name@, variant_name: variant_name@ },
            Pattern::EnumVariantWithBinding { enum_name, variant_name, binding } => PatternView::EnumVariantWithBinding { enum_name: enum_name@, variant_name: variant_name@, binding: binding@ },
            Pattern::Struct { name, fields } => PatternView::Struct { name: name@, fields: string_string_views(fields@) },
            Pattern::Tuple(a0) => PatternView::Tuple(opt_string_views(a0@)),
            Pattern::Array(a0) => PatternView::Array(opt_string_views(a0@)),
        }
    }

    /// A copy of `self`.
    pub fn dup(&self) -> (r: Self)
        ensures
            r.model() == self.model(),
        decreases self,
    {
        match self {
            Pattern::Wildcard => Pattern::Wildcard,
            Pattern::IntLiteral(a0) => Pattern::IntLiteral(*a0),
            Pattern::BoolLiteral(a0) => Pattern::BoolLiteral(*a0),
            Pattern::CharLiteral(a0) => Pattern::CharLiteral(*a0),
            Pattern::EnumVariant { enum_name, variant_name } => Pattern::EnumVariant { enum_name: enum_name.clone(), variant_name: variant_name.clone() },
            Pattern::EnumVariantWithBinding { enum_name, variant_name, binding } => Pattern::EnumVariantWithBinding { enum_name: enum_name.clone(), variant_name: variant_name.clone(), binding: binding.clone() },
            Pattern::Struct { name, fields } => Pattern::Struct { name: name.clone(), fields: dup_string_string_list(fields) },
            Pattern::Tuple(a0) => Pattern::Tuple(dup_opt_string_list(a0)),
            Pattern::Array(a0) => Pattern::Array(dup_opt_string_list(a0)),
        }
    }
}

/// An expression, with the number that tells it from the others.
#[derive(Debug)]
pub struct Expr {
    pub id: usize,
    pub kind: ExprKind,
}

/// `Expr` as a mathematical value.
pub struct ExprView {
    pub id: usize,
    pub kind: ExprKindView,
}

impl Expr {
    /// The mathematical value of `self`.
    pub open spec fn model(self) -> ExprView
        decreases self, 2nat,
    {
        ExprView {
            id: self.id,
            kind: self.kind.model(),
        }
    }

    /// A copy of `self`.
    pub fn dup(&self) -> (r: Self)
        ensures
            r.model() == self.model(),
        decreases self,
    {
        Expr {
            id: self.id,
            kind: self.kind.dup(),
        }
    }
}

/// The kinds of expressions.
#[derive(Debug)]
pub enum ExprKind {
    Literal(Literal),
    Ident(String),
    Sym(String),
    LackSlice(Type),
    If { kind: IfKind, cond: Box<Expr>, then_expr: Box<Expr>, else_expr: Option<Box<Expr>> },
    Match(MatchExpr),
    Range { start: Box<Expr>, end: Box<Expr> },
    BinaryOp { op: BinaryOp, left: Box<Expr>, right: Box<Expr> },
    Unary { op: UnaryOp, expr: Box<Expr> },
    Index { expr: Box<Expr>, index: Box<Expr> },
    Cast { expr: Box<Expr>, ty: Type },
    Call { qualifier: Option<String>, func: String, args: Vec<CallArg>, is_method: bool },
    FieldAccess { struct_expr: Box<Expr>, field_name: String },
    StructInit { struct_name: String, fields: Vec<(String, Expr)> },
    UnsafeBlock(UnsafeBlockStmt),
    EnumVariantConstruction { enum_name: String, variant_name: String, args: Vec<CallArg> },
    EnumVariantAccess { enum_name: String, variant_name: String },
    ArrayLiteral(Vec<Expr>),
    Block(Block),
    Closure { param: String, body: Box<Expr> },
}

/// `ExprKind` as a mathematical value.
pub enum ExprKindView {
    Literal(LiteralView),
    Ident(Chars),
    Sym(Chars),
    LackSlice(TypeView),
    If { kind: IfKind, cond: Box<ExprView>, then_expr: Box<ExprView>, else_expr: Option<Box<ExprView>> },
    Match(MatchExprView),
    Range { start: Box<ExprView>, end: Box<ExprView> },
    BinaryOp { op: BinaryOp, left: Box<ExprView>, right: Box<ExprView> },
    Unary { op: UnaryOp, expr: Box<ExprView> },
    Index { expr: Box<ExprView>, index: Box<ExprView> },
    Cast { expr: Box<ExprView>, ty: TypeView },
    Call { qualifier: Option<Chars>, func: Chars, args: Seq<CallArgView>, is_method: bool },
    FieldAccess { struct_expr: Box<ExprView>, field_name: Chars },
    StructInit { struct_name: Chars, fields: Seq<(Chars, ExprView)> },
    UnsafeBlock(UnsafeBlockStmtView),
    EnumVariantConstruction { enum_name: Chars, variant_name: Chars, args: Seq<CallArgView> },
    EnumVariantAccess { enum_name: Chars, variant_name: Chars },
    ArrayLiteral(Seq<ExprView>),
    Block(BlockView),
    Closure { param: Chars, body: Box<ExprView> },
}

impl ExprKind {
    /// The mathematical value of `self`.
    pub open spec fn model(self) -> ExprKindView
        decreases self, 2nat,
    {
        match self {
            ExprKind::Literal(a0) => ExprKindView::Literal(a0.model()),
            ExprKind::Ident(a0) => ExprKindView::Ident(a0@),
            ExprKind::Sym(a0) => ExprKindView::Sym(a0@),
            ExprKind::LackSlice(a0) => ExprKindView::LackSlice(a0.model()),
            ExprKind::If { kind, cond, then_expr, else_expr } => ExprKindView::If { kind: kind, cond: Box::new((*cond).model()), then_expr: Box::new((*then_expr).model()), else_expr: match else_expr { Some(y) => Some(Box::new((*y).model())), None => None } },
            ExprKind::Match(a0) => ExprKindView::Match(a0.model()),
            ExprKind::Range { start, end } => ExprKindView::Range { start: Box::new((*start).model()), end: Box::new((*end).model()) },
            ExprKind::BinaryOp { op, left, right } => ExprKindView::BinaryOp { op: op, left: Box::new((*left).model()), right: Box::new((*right).model()) },
            ExprKind::Unary { op, expr } => ExprKindView::Unary { op: op, expr: Box::new((*expr).model()) },
            ExprKind::Index { expr, index } => ExprKindView::Index { expr: Box::new((*expr).model()), index: Box::new((*index).model()) },
            ExprKind::Cast { expr, ty } => ExprKindView::Cast { expr: Box::new((*expr).model()), ty: ty.model() },
            ExprKind::Call { qualifier, func, args, is_method } => ExprKindView::Call { qualifier: match qualifier { Some(y) => Some(y@), None => None }, func: func@, args: call_arg_views(args@), is_method: is_method },
            ExprKind::FieldAccess { struct_expr, field_name } => ExprKindView::FieldAccess { struct_expr: Box::new((*struct_expr).model()), field_name: field_name@ },
            ExprKind::StructInit { struct_name, fields } => ExprKindView::StructInit { struct_name: struct_name@, fields: string_expr_views(fields@) },
            ExprKind::UnsafeBlock(a0) => ExprKindView::UnsafeBlock(a0.model()),
            ExprKind::EnumVariantConstruction { enum_name, variant_name, args } => ExprKindView::EnumVariantConstruction { enum_name: enum_name@, variant_name: variant_name@, args: call_arg_views(args@) },
            ExprKind::EnumVariantAccess { enum_name, variant_name } => ExprKindView::EnumVariantAccess { enum_name: enum_name@, variant_name: variant_name@ },
            ExprKind::ArrayLiteral(a0) => ExprKindView::ArrayLiteral(expr_views(a0@)),
            ExprKind::Block(a0) => ExprKindView::Block(a0.model()),
            ExprKind::Closure { param, body } => ExprKindView::Closure { param: param@, body: Box::new((*body).model()) },
        }
    }

    /// A copy of `self`.
    pub fn dup(&self) -> (r: Self)
        ensures
            r.model() == self.model(),
        decreases self,
    {
        match self {
            ExprKind::Literal(a0) => ExprKind::Literal(a0.dup()),
            ExprKind::Ident(a0) => ExprKind::Ident(a0.clone()),
            ExprKind::Sym(a0) => ExprKind::Sym(a0.clone()),
            ExprKind::LackSlice(a0) => ExprKind::LackSlice(a0.dup()),
            ExprKind::If { kind, cond, then_expr, else_expr } => ExprKind::If { kind: *kind, cond: Box::new((**cond).dup()), then_expr: Box::new((**then_expr).dup()), else_expr: (match else_expr { Some(z) => Some(Box::new((**z).dup())), None => None }) },
            ExprKind::Match(a0) => ExprKind::Match(a0.dup()),
            ExprKind::Range { start, end } => ExprKind::Range { start: Box::new((**start).dup()), end: Box::new((**end).dup()) },
            ExprKind::BinaryOp { op, left, right } => ExprKind::BinaryOp { op: *op, left: Box::new((**left).dup()), right: Box::new((**right).dup()) },
            ExprKind::Unary { op, expr } => ExprKind::Unary { op: *op, expr: Box::new((**expr).dup()) },
            ExprKind::Index { expr, index } => ExprKind::Index { expr: Box::new((**expr).dup()), index: Box::new((**index).dup()) },
            ExprKind::Cast { expr, ty } => ExprKind::Cast { expr: Box::new((**expr).dup()), ty: ty.dup() },
            ExprKind::Call { qualifier, func, args, is_method } => ExprKind::Call { qualifier: (match qualifier { Some(z) => Some(z.clone()), None => None }), func: func.clone(), args: dup_call_arg_list(args), is_method: *is_method },
            ExprKind::FieldAccess { struct_expr, field_name } => ExprKind::FieldAccess { struct_expr: Box::new((**struct_expr).dup()), field_name: field_name.clone() },
            ExprKind::StructInit { struct_name, fields } => ExprKind::StructInit { struct_name: struct_name.clone(), fields: dup_string_expr_list(fields) },
            ExprKind::UnsafeBlock(a0) => ExprKind::UnsafeBlock(a0.dup()),
            ExprKind::EnumVariantConstruction { enum_name, variant_name, args } => ExprKind::EnumVariantConstruction { enum_name: enum_name.clone(), variant_name: variant_name.clone(), args: dup_call_arg_list(args) },
            ExprKind::EnumVariantAccess { enum_name, variant_name } => ExprKind::EnumVariantAccess { enum_name: enum_name.clone(), variant_name: variant_name.clone() },
            ExprKind::ArrayLiteral(a0) => ExprKind::ArrayLiteral(dup_expr_list(a0)),
            ExprKind::Block(a0) => ExprKind::Block(a0.dup()),
            ExprKind::Closure { param, body } => ExprKind::Closure { param: param.clone(), body: Box::new((**body).dup()) },
        }
    }
}

/// A `match`.
#[derive(Debug)]
pub struct MatchExpr {
    pub cond: Box<Expr>,
    pub arms: Vec<MatchArm>,
}

/// `MatchExpr` as a mathematical value.
pub struct MatchExprView {
    pub cond: Box<ExprView>,
    pub arms: Seq<MatchArmView>,
}

impl MatchExpr {
    /// The mathematical value of `self`.
    pub open spec fn model(self) -> MatchExprView
        decreases self, 2nat,
    {
        MatchExprView {
            cond: Box::new((*self.cond).model()),
            arms: match_arm_views(self.arms@),
        }
    }

    /// A copy of `self`.
    pub fn dup(&self) -> (r: Self)
        ensures
            r.model() == self.model(),
        decreases self,
    {
        MatchExpr {
            cond: Box::new((*self.cond).dup()),
            arms: dup_match_arm_list(&self.arms),
        }
    }
}

/// An arm of a `match`.
#[derive(Debug)]
pub struct MatchArm {
    pub pattern: Pattern,
    pub expr: Box<Expr>,
}

/// `MatchArm` as a mathematical value.
pub struct MatchArmView {
    pub pattern: PatternView,
    pub expr: Box<ExprView>,
}

impl MatchArm {
    /// The mathematical value of `self`.
    pub open spec fn model(self) -> MatchArmView
        decreases self, 2nat,
    {
        MatchArmView {
            pattern: self.pattern.model(),
            expr: Box::new((*self.expr).model()),
        }
    }

    /// A copy of `self`.
    pub fn dup(&self) -> (r: Self)
        ensures
            r.model() == self.model(),
        decreases self,
    {
        MatchArm {
            pattern: self.pattern.dup(),
            expr: Box::new((*self.expr).dup()),
        }
    }
}

/// An argument of a call, with its name where one is given.
#[derive(Debug)]
pub enum CallArg {
    Positional(Expr),
    Named(String, Expr),
}

/// `CallArg` as a mathematical value.
pub enum CallArgView {
    Positional(ExprView),
    Named(Chars, ExprView),
}

impl CallArg {
    /// The mathematical value of `self`.
    pub open spec fn model(self) -> CallArgView
        decreases self, 2nat,
    {
        match self {
            CallArg::Positional(a0) => CallArgView::Positional(a0.model()),
            CallArg::Named(a0, a1) => CallArgView::Named(a0@, a1.model()),
        }
    }

    /// A copy of `self`.
    pub fn dup(&self) -> (r: Self)
        ensures
            r.model() == self.model(),
        decreases self,
    {
        match self {
            CallArg::Positional(a0) => CallArg::Positional(a0.dup()),
            CallArg::Named(a0, a1) => CallArg::Named(a0.clone(), a1.dup()),
        }
    }
}

/// Statements in braces.
#[derive(Debug)]
pub struct Block {
    pub stmts: Vec<Stmt>,
}

/// `Block` as a mathematical value.
pub struct BlockView {
    pub stmts: Seq<StmtView>,
}

impl Block {
    /// The mathematical value of `self`.
    pub open spec fn model(self) -> BlockView
        decreases self, 2nat,
    {
        BlockView {
            stmts: stmt_views(self.stmts@),
        }
    }

    /// A copy of `self`.
    pub fn dup(&self) -> (r: Self)
        ensures
            r.model() == self.model(),
        decreases self,
    {
        Block {
            stmts: dup_stmt_list(&self.stmts),
        }
    }
}

/// A block behind `unsafe`.
#[derive(Debug)]
pub struct UnsafeBlockStmt {
    pub kind: UnsafeKind,
    pub body: Block,
}

/// `UnsafeBlockStmt` as a mathematical value.
pub struct UnsafeBlockStmtView {
    pub kind: UnsafeKind,
    pub body: BlockView,
}

impl UnsafeBlockStmt {
    /// The mathematical value of `self`.
    pub open spec fn model(self) -> UnsafeBlockStmtView
        decreases self, 2nat,
    {
        UnsafeBlockStmtView {
            kind: self.kind,
            body: self.body.model(),
        }
    }

    /// A copy of `self`.
    pub fn dup(&self) -> (r: Self)
        ensures
            r.model() == self.model(),
        decreases self,
    {
        UnsafeBlockStmt {
            kind: self.kind,
            body: self.body.dup(),
        }
    }
}

/// A statement.
#[derive(Debug)]
pub enum Stmt {
    Let(LetStmt),
    Assign(AssignStmt),
    ExprStmt(Expr),
    Return(Option<Expr>),
    While(WhileStmt),
    For(ForStmt),
    Loop(LoopStmt),
    Break,
}

/// `Stmt` as a mathematical value.
pub enum StmtView {
    Let(LetStmtView),
    Assign(AssignStmtView),
    ExprStmt(ExprView),
    Return(Option<ExprView>),
    While(WhileStmtView),
    For(ForStmtView),
    Loop(LoopStmtView),
    Break,
}

impl Stmt {
    /// The mathematical value of `self`.
    pub open spec fn model(self) -> StmtView
        decreases self, 2nat,
    {
        match self {
            Stmt::Let(a0) => StmtView::Let(a0.model()),
            Stmt::Assign(a0) => StmtView::Assign(a0.model()),
            Stmt::ExprStmt(a0) => StmtView::ExprStmt(a0.model()),
            Stmt::Return(a0) => StmtView::Return(match a0 { Some(y) => Some(y.model()), None => None }),
            Stmt::While(a0) => StmtView::While(a0.model()),
            Stmt::For(a0) => StmtView::For(a0.model()),
            Stmt::Loop(a0) => StmtView::Loop(a0.model()),
            Stmt::Break => StmtView::Break,
        }
    }

    /// A copy of `self`.
    pub fn dup(&self) -> (r: Self)
        ensures
            r.model() == self.model(),
        decreases self,
    {
        match self {
            Stmt::Let(a0) => Stmt::Let(a0.dup()),
            Stmt::Assign(a0) => Stmt::Assign(a0.dup()),
            Stmt::ExprStmt(a0) => Stmt::ExprStmt(a0.dup()),
            Stmt::Return(a0) => Stmt::Return((match a0 { Some(z) => Some(z.dup()), None => None })),
            Stmt::While(a0) => Stmt::While(a0.dup()),
            Stmt::For(a0) => Stmt::For(a0.dup()),
            Stmt::Loop(a0) => Stmt::Loop(a0.dup()),
            Stmt::Break => Stmt::Break,
        }
    }
}

/// A binding: `let`, or `var` where it is mutable.
#[derive(Debug)]
pub struct LetStmt {
    pub name: String,
    pub ty: Option<Type>,
    pub init: Box<Expr>,
    pub mutable: bool,
    pub persist: bool,
}

/// `LetStmt` as a mathematical value.
pub struct LetStmtView {
    pub name: Chars,
    pub ty: Option<TypeView>,
    pub init: Box<ExprView>,
    pub mutable: bool,
    pub persist: bool,
}

impl LetStmt {
    /// The mathematical value of `self`.
    pub open spec fn model(self) -> LetStmtView
        decreases self, 2nat,
    {
        LetStmtView {
            name: self.name@,
            ty: match self.ty { Some(y) => Some(y.model()), None => None },
            init: Box::new((*self.init).model()),
            mutable: self.mutable,
            persist: self.persist,
        }
    }

    /// A copy of `self`.
    pub fn dup(&self) -> (r: Self)
        ensures
            r.model() == self.model(),
        decreases self,
    {
        LetStmt {
            name: self.name.clone(),
            ty: (match &self.ty { Some(y) => Some(y.dup()), None => None }),
            init: Box::new((*self.init).dup()),
            mutable: self.mutable,
            persist: self.persist,
        }
    }
}

/// An assignment.
#[derive(Debug)]
pub struct AssignStmt {
    pub target: Box<Expr>,
    pub expr: Box<Expr>,
}

/// `AssignStmt` as a mathematical value.
pub struct AssignStmtView {
    pub target: Box<ExprView>,
    pub expr: Box<ExprView>,
}

impl AssignStmt {
    /// The mathematical value of `self`.
    pub open spec fn model(self) -> AssignStmtView
        decreases self, 2nat,
    {
        AssignStmtView {
            target: Box::new((*self.target).model()),
            expr: Box::new((*self.expr).model()),
        }
    }

    /// A copy of `self`.
    pub fn dup(&self) -> (r: Self)
        ensures
            r.model() == self.model(),
        decreases self,
    {
        AssignStmt {
            target: Box::new((*self.target).dup()),
            expr: Box::new((*self.expr).dup()),
        }
    }
}

/// A `while` loop.
#[derive(Debug)]
pub struct WhileStmt {
    pub cond: Box<Expr>,
    pub body: Block,
}

/// `WhileStmt` as a mathematical value.
pub struct WhileStmtView {
    pub cond: Box<ExprView>,
    pub body: BlockView,
}

impl WhileStmt {
    /// The mathematical value of `self`.
    pub open spec fn model(self) -> WhileStmtView
        decreases self, 2nat,
    {
        WhileStmtView {
            cond: Box::new((*self.cond).model()),
            body: self.body.model(),
        }
    }

    /// A copy of `self`.
    pub fn dup(&self) -> (r: Self)
        ensures
            r.model() == self.model(),
        decreases self,
    {
        WhileStmt {
            cond: Box::new((*self.cond).dup()),
            body: self.body.dup(),
        }
    }
}

/// A `for` loop.
#[derive(Debug)]
pub struct ForStmt {
    pub var: String,
    pub iterable: Box<Expr>,
    pub body: Block,
}

/// `ForStmt` as a mathematical value.
pub struct ForStmtView {
    pub var: Chars,
    pub iterable: Box<ExprView>,
    pub body: BlockView,
}

impl ForStmt {
    /// The mathematical value of `self`.
    pub open spec fn model(self) -> ForStmtView
        decreases self, 2nat,
    {
        ForStmtView {
            var: self.var@,
            iterable: Box::new((*self.iterable).model()),
            body: self.body.model(),
        }
    }

    /// A copy of `self`.
    pub fn dup(&self) -> (r: Self)
        ensures
            r.model() == self.model(),
        decreases self,
    {
        ForStmt {
            var: self.var.clone(),
            iterable: Box::new((*self.iterable).dup()),
            body: self.body.dup(),
        }
    }
}

/// A loop without condition.
#[derive(Debug)]
pub struct LoopStmt {
    pub body: Block,
}

/// `LoopStmt` as a mathematical value.
pub struct LoopStmtView {
    pub body: BlockView,
}

impl LoopStmt {
    /// The mathematical value of `self`.
    pub open spec fn model(self) -> LoopStmtView
        decreases self, 2nat,
    {
        LoopStmtView {
            body: self.body.model(),
        }
    }

    /// A copy of `self`.
    pub fn dup(&self) -> (r: Self)
        ensures
            r.model() == self.model(),
        decreases self,
    {
        LoopStmt {
            body: self.body.dup(),
        }
    }
}

/// An argument of an attribute.
#[derive(Debug)]
pub enum AttributeArg {
    KeyValue(String, Box<AttributeArg>),
    Ident(String),
    StringLit(String),
    Rational(String),
    Int(i64),
    Float(String),
}

/// `AttributeArg` as a mathematical value.
pub enum AttributeArgView {
    KeyValue(Chars, Box<AttributeArgView>),
    Ident(Chars),
    StringLit(Chars),
    Rational(Chars),
    Int(i64),
    Float(Chars),
}

impl AttributeArg {
    /// The mathematical value of `self`.
    pub open spec fn model(self) -> AttributeArgView
        decreases self, 2nat,
    {
        match self {
            AttributeArg::KeyValue(a0, a1) => AttributeArgView::KeyValue(a0@, Box::new((*a1).model())),
            AttributeArg::Ident(a0) => AttributeArgView::Ident(a0@),
            AttributeArg::StringLit(a0) => AttributeArgView::StringLit(a0@),
            AttributeArg::Rational(a0) => AttributeArgView::Rational(a0@),
            AttributeArg::Int(a0) => AttributeArgView::Int(a0),
            AttributeArg::Float(a0) => AttributeArgView::Float(a0@),
        }
    }
}

/// An attribute of an item.
#[derive(Debug)]
pub struct Attribute {
    pub name: String,
    pub args: Vec<AttributeArg>,
}

/// `Attribute` as a mathematical value.
pub struct AttributeView {
    pub name: Chars,
    pub args: Seq<AttributeArgView>,
}

impl Attribute {
    /// The mathematical value of `self`.
    pub open spec fn model(self) -> AttributeView
        decreases self, 2nat,
    {
        AttributeView {
            name: self.name@,
            args: attribute_arg_views(self.args@),
        }
    }
}

/// A type parameter.
#[derive(Debug)]
pub struct GenericParam {
    pub name: String,
}

/// `GenericParam` as a mathematical value.
pub struct GenericParamView {
    pub name: Chars,
}

impl GenericParam {
    /// The mathematical value of `self`.
    pub open spec fn model(self) -> GenericParamView
        decreases self, 2nat,
    {
        GenericParamView {
            name: self.name@,
        }
    }

    /// A copy of `self`.
    pub fn dup(&self) -> (r: Self)
        ensures
            r.model() == self.model(),
        decreases self,
    {
        GenericParam {
            name: self.name.clone(),
        }
    }
}

/// A parameter of a function, or a field.
#[derive(Debug)]
pub struct Param {
    pub name: String,
    pub ty: Type,
}

/// `Param` as a mathematical value.
pub struct ParamView {
    pub name: Chars,
    pub ty: TypeView,
}

impl Param {
    /// The mathematical value of `self`.
    pub open spec fn model(self) -> ParamView
        decreases self, 2nat,
    {
        ParamView {
            name: self.name@,
            ty: self.ty.model(),
        }
    }

    /// A copy of `self`.
    pub fn dup(&self) -> (r: Self)
        ensures
            r.model() == self.model(),
        decreases self,
    {
        Param {
            name: self.name.clone(),
            ty: self.ty.dup(),
        }
    }
}

/// A function without its body.
#[derive(Debug)]
pub struct FnSig {
    pub name: String,
    pub params: Vec<Param>,
    pub return_type: Option<Type>,
    pub generic_params: Vec<GenericParam>,
}

/// `FnSig` as a mathematical value.
pub struct FnSigView {
    pub name: Chars,
    pub params: Seq<ParamView>,
    pub return_type: Option<TypeView>,
    pub generic_params: Seq<GenericParamView>,
}

impl FnSig {
    /// The mathematical value of `self`.
    pub open spec fn model(self) -> FnSigView
        decreases self, 2nat,
    {
        FnSigView {
            name: self.name@,
            params: param_views(self.params@),
            return_type: match self.return_type { Some(y) => Some(y.model()), None => None },
            generic_params: generic_param_views(self.generic_params@),
        }
    }
}

/// A function.
#[derive(Debug)]
pub struct FnDef {
    pub attributes: Vec<Attribute>,
    pub name: String,
    pub generic_params: Vec<GenericParam>,
    pub params: Vec<Param>,
    pub return_type: Option<Type>,
    pub body: Block,
}

/// `FnDef` as a mathematical value.
pub struct FnDefView {
    pub attributes: Seq<AttributeView>,
    pub name: Chars,
    pub generic_params: Seq<GenericParamView>,
    pub params: Seq<ParamView>,
    pub return_type: Option<TypeView>,
    pub body: BlockView,
}

impl FnDef {
    /// The mathematical value of `self`.
    pub open spec fn model(self) -> FnDefView
        decreases self, 2nat,
    {
        FnDefView {
            attributes: attribute_views(self.attributes@),
            name: self.name@,
            generic_params: generic_param_views(self.generic_params@),
            params: param_views(self.params@),
            return_type: match self.return_type { Some(y) => Some(y.model()), None => None },
            body: self.body.model(),
        }
    }
}

/// A structure.
#[derive(Debug)]
pub struct StructDef {
    pub name: String,
    pub generic_params: Vec<GenericParam>,
    pub fields: Vec<Param>,
}

/// `StructDef` as a mathematical value.
pub struct StructDefView {
    pub name: Chars,
    pub generic_params: Seq<GenericParamView>,
    pub fields: Seq<ParamView>,
}

impl StructDef {
    /// The mathematical value of `self`.
    pub open spec fn model(self) -> StructDefView
        decreases self, 2nat,
    {
        StructDefView {
            name: self.name@,
            generic_params: generic_param_views(self.generic_params@),
            fields: param_views(self.fields@),
        }
    }
}

/// A variant of an enumeration.
#[derive(Debug)]
pub struct EnumVariantDef {
    pub name: String,
    pub ty: Option<Type>,
}

/// `EnumVariantDef` as a mathematical value.
pub struct EnumVariantDefView {
    pub name: Chars,
    pub ty: Option<TypeView>,
}

impl EnumVariantDef {
    /// The mathematical value of `self`.
    pub open spec fn model(self) -> EnumVariantDefView
        decreases self, 2nat,
    {
        EnumVariantDefView {
            name: self.name@,
            ty: match self.ty { Some(y) => Some(y.model()), None => None },
        }
    }
}

/// An enumeration.
#[derive(Debug)]
pub struct EnumDef {
    pub name: String,
    pub generic_params: Vec<GenericParam>,
    pub variants: Vec<EnumVariantDef>,
}

/// `EnumDef` as a mathematical value.
pub struct EnumDefView {
    pub name: Chars,
    pub generic_params: Seq<GenericParamView>,
    pub variants: Seq<EnumVariantDefView>,
}

impl EnumDef {
    /// The mathematical value of `self`.
    pub open spec fn model(self) -> EnumDefView
        decreases self, 2nat,
    {
        EnumDefView {
            name: self.name@,
            generic_params: generic_param_views(self.generic_params@),
            variants: enum_variant_def_views(self.variants@),
        }
    }
}

/// A constant.
#[derive(Debug)]
pub struct ConstDef {
    pub name: String,
    pub ty: Type,
    pub value: Expr,
}

/// `ConstDef` as a mathematical value.
pub struct ConstDefView {
    pub name: Chars,
    pub ty: TypeView,
    pub value: ExprView,
}

impl ConstDef {
    /// The mathematical value of `self`.
    pub open spec fn model(self) -> ConstDefView
        decreases self, 2nat,
    {
        ConstDefView {
            name: self.name@,
            ty: self.ty.model(),
            value: self.value.model(),
        }
    }
}

/// A model with its functions.
#[derive(Debug)]
pub struct ModelDef {
    pub name: String,
    pub functions: Vec<FnDef>,
}

/// `ModelDef` as a mathematical value.
pub struct ModelDefView {
    pub name: Chars,
    pub functions: Seq<FnDefView>,
}

impl ModelDef {
    /// The mathematical value of `self`.
    pub open spec fn model(self) -> ModelDefView
        decreases self, 2nat,
    {
        ModelDefView {
            name: self.name@,
            functions: fn_def_views(self.functions@),
        }
    }
}

/// A protocol.
#[derive(Debug)]
pub struct ProtoDef {
    pub name: String,
}

/// `ProtoDef` as a mathematical value.
pub struct ProtoDefView {
    pub name: Chars,
}

impl ProtoDef {
    /// The mathematical value of `self`.
    pub open spec fn model(self) -> ProtoDefView
        decreases self, 2nat,
    {
        ProtoDefView {
            name: self.name@,
        }
    }
}

/// An interface.
#[derive(Debug)]
pub struct InterfaceDef {
    pub name: String,
    pub functions: Vec<FnSig>,
}

/// `InterfaceDef` as a mathematical value.
pub struct InterfaceDefView {
    pub name: Chars,
    pub functions: Seq<FnSigView>,
}

impl InterfaceDef {
    /// The mathematical value of `self`.
    pub open spec fn model(self) -> InterfaceDefView
        decreases self, 2nat,
    {
        InterfaceDefView {
            name: self.name@,
            functions: fn_sig_views(self.functions@),
        }
    }
}

/// An import.
#[derive(Debug)]
pub struct UseDef {
    pub path: Vec<String>,
}

/// `UseDef` as a mathematical value.
pub struct UseDefView {
    pub path: Seq<Chars>,
}

impl UseDef {
    /// The mathematical value of `self`.
    pub open spec fn model(self) -> UseDefView
        decreases self, 2nat,
    {
        UseDefView {
            path: string_views(self.path@),
        }
    }
}

/// The functions of a type.
#[derive(Debug)]
pub struct ImplementDef {
    pub target: String,
    pub functions: Vec<FnDef>,
}

/// `ImplementDef` as a mathematical value.
pub struct ImplementDefView {
    pub target: Chars,
    pub functions: Seq<FnDefView>,
}

impl ImplementDef {
    /// The mathematical value of `self`.
    pub open spec fn model(self) -> ImplementDefView
        decreases self, 2nat,
    {
        ImplementDefView {
            target: self.target@,
            functions: fn_def_views(self.functions@),
        }
    }
}

/// An item of a program.
#[derive(Debug)]
pub enum Item {
    FnDef(FnDef),
    StructDef(StructDef),
    EnumDef(EnumDef),
    ConstDef(ConstDef),
    ModelDef(ModelDef),
    ProtoDef(ProtoDef),
    Interface(InterfaceDef),
    Use(UseDef),
    Implement(ImplementDef),
}

/// `Item` as a mathematical value.
pub enum ItemView {
    FnDef(FnDefView),
    StructDef(StructDefView),
    EnumDef(EnumDefView),
    ConstDef(ConstDefView),
    ModelDef(ModelDefView),
    ProtoDef(ProtoDefView),
    Interface(InterfaceDefView),
    Use(UseDefView),
    Implement(ImplementDefView),
}

impl Item {
    /// The mathematical value of `self`.
    pub open spec fn model(self) -> ItemView
        decreases self, 2nat,
    {
        match self {
            Item::FnDef(a0) => ItemView::FnDef(a0.model()),
            Item::StructDef(a0) => ItemView::StructDef(a0.model()),
            Item::EnumDef(a0) => ItemView::EnumDef(a0.model()),
            Item::ConstDef(a0) => ItemView::ConstDef(a0.model()),
            Item::ModelDef(a0) => ItemView::ModelDef(a0.model()),
            Item::ProtoDef(a0) => ItemView::ProtoDef(a0.model()),
            Item::Interface(a0) => ItemView::Interface(a0.model()),
            Item::Use(a0) => ItemView::Use(a0.model()),
            Item::Implement(a0) => ItemView::Implement(a0.model()),
        }
    }
}

/// A program.
#[derive(Debug)]
pub struct Program {
    pub items: Vec<Item>,
}

/// `Program` as a mathematical value.
pub struct ProgramView {
    pub items: Seq<ItemView>,
}

impl Program {
    /// The mathematical value of `self`.
    pub open spec fn model(self) -> ProgramView
        decreases self, 2nat,
    {
        ProgramView {
            items: item_views(self.items@),
        }
    }
}

/// The mathematical values of a list.
pub open spec fn type_views(s: Seq<Type>) -> Seq<TypeView>
    decreases s, 1nat,
{
    type_seq(s)
}

/// The mathematical values of a list, one by one.
#[verifier::opaque]
pub open spec fn type_seq(s: Seq<Type>) -> Seq<TypeView>
    decreases s, 0nat,
{
    Seq::new(
        s.len(),
        |i: int|
            if 0 <= i < s.len() {
                s[i].model()
            } else {
                arbitrary()
            },
    )
}

/// Appending to a list appends to its mathematical values.
pub proof fn lemma_type_push(s: Seq<Type>, x: Type)
    ensures
        type_views(s.push(x)) == type_views(s).push(x.model()),
{
    reveal(type_seq);
    assert(type_views(s.push(x)) =~= type_views(s).push(x.model()));
}

/// The mathematical values of a list are as many as the list holds, each in its
/// place.
pub proof fn lemma_type_views(s: Seq<Type>)
    ensures
        type_views(s).len() == s.len(),
        forall|i: int|
            0 <= i < s.len() ==> #[trigger] type_views(s)[i] == (s[i].model()),
{
    reveal(type_seq);
}

/// A copy of a list.
pub fn dup_type_list(v: &Vec<Type>) -> (r: Vec<Type>)
    ensures
        type_views(r@) == type_views(v@),
    decreases v@,
{
    let mut out: Vec<Type> = Vec::new();
    let mut i: usize = 0;
    proof {
        lemma_type_views(v@);
        lemma_type_views(out@);
    }
    assert(type_views(out@) =~= type_views(v@).take(0));
    while i < v.len()
        invariant
            i <= v.len(),
            type_views(out@) == type_views(v@).take(i as int),
        decreases v.len() - i,
    {
        let x = v[i].dup();
        proof {
            lemma_type_push(out@, x);
            lemma_type_views(v@);
        }
        out.push(x);
        i = i + 1;
        assert(type_views(out@) =~= type_views(v@).take(i as int));
    }
    proof {
        lemma_type_views(v@);
    }
    assert(type_views(out@) =~= type_views(v@));
    out
}

/// The mathematical values of a list.
pub open spec fn string_string_views(s: Seq<(String, String)>) -> Seq<(Chars, Chars)>
{
    string_string_seq(s)
}

/// The mathematical values of a list, one by one.
#[verifier::opaque]
pub open spec fn string_string_seq(s: Seq<(String, String)>) -> Seq<(Chars, Chars)>
{
    Seq::new(s.len(), |i: int| (s[i].0@, s[i].1@))
}

/// Appending to a list appends to its mathematical values.
pub proof fn lemma_string_string_push(s: Seq<(String, String)>, x: (String, String))
    ensures
        string_string_views(s.push(x)) == string_string_views(s).push((x.0@, x.1@)),
{
    reveal(string_string_seq);
    assert(string_string_views(s.push(x)) =~= string_string_views(s).push((x.0@, x.1@)));
}

/// The mathematical values of a list are as many as the list holds, each in its
/// place.
pub proof fn lemma_string_string_views(s: Seq<(String, String)>)
    ensures
        string_string_views(s).len() == s.len(),
        forall|i: int|
            0 <= i < s.len() ==> #[trigger] string_string_views(s)[i] == ((s[i].0@, s[i].1@)),
{
    reveal(string_string_seq);
}

/// A copy of a list.
pub fn dup_string_string_list(v: &Vec<(String, String)>) -> (r: Vec<(String, String)>)
    ensures
        string_string_views(r@) == string_string_views(v@),
    decreases v@,
{
    let mut out: Vec<(String, String)> = Vec::new();
    let mut i: usize = 0;
    proof {
        lemma_string_string_views(v@);
        lemma_string_string_views(out@);
    }
    assert(string_string_views(out@) =~= string_string_views(v@).take(0));
    while i < v.len()
        invariant
            i <= v.len(),
            string_string_views(out@) == string_string_views(v@).take(i as int),
        decreases v.len() - i,
    {
        let x = (v[i].0.clone(), v[i].1.clone());
        proof {
            lemma_string_string_push(out@, x);
            lemma_string_string_views(v@);
        }
        out.push(x);
        i = i + 1;
        assert(string_string_views(out@) =~= string_string_views(v@).take(i as int));
    }
    proof {
        lemma_string_string_views(v@);
    }
    assert(string_string_views(out@) =~= string_string_views(v@));
    out
}

/// The mathematical values of a list.
pub open spec fn opt_string_views(s: Seq<Option<String>>) -> Seq<Option<Chars>>
{
    opt_string_seq(s)
}

/// The mathematical values of a list, one by one.
#[verifier::opaque]
pub open spec fn opt_string_seq(s: Seq<Option<String>>) -> Seq<Option<Chars>>
{
    Seq::new(s.len(), |i: int| match s[i] { Some(y) => Some(y@), None => None })
}

/// Appending to a list appends to its mathematical values.
pub proof fn lemma_opt_string_push(s: Seq<Option<String>>, x: Option<String>)
    ensures
        opt_string_views(s.push(x)) == opt_string_views(s).push(match x { Some(y) => Some(y@), None => None }),
{
    reveal(opt_string_seq);
    assert(opt_string_views(s.push(x)) =~= opt_string_views(s).push(match x { Some(y) => Some(y@), None => None }));
}

/// The mathematical values of a list are as many as the list holds, each in its
/// place.
pub proof fn lemma_opt_string_views(s: Seq<Option<String>>)
    ensures
        opt_string_views(s).len() == s.len(),
        forall|i: int|
            0 <= i < s.len() ==> #[trigger] opt_string_views(s)[i] == (match s[i] { Some(y) => Some(y@), None => None }),
{
    reveal(opt_string_seq);
}

/// A copy of a list.
pub fn dup_opt_string_list(v: &Vec<Option<String>>) -> (r: Vec<Option<String>>)
    ensures
        opt_string_views(r@) == opt_string_views(v@),
    decreases v@,
{
    let mut out: Vec<Option<String>> = Vec::new();
    let mut i: usize = 0;
    proof {
        lemma_opt_string_views(v@);
        lemma_opt_string_views(out@);
    }
    assert(opt_string_views(out@) =~= opt_string_views(v@).take(0));
    while i < v.len()
        invariant
            i <= v.len(),
            opt_string_views(out@) == opt_string_views(v@).take(i as int),
        decreases v.len() - i,
    {
        let x = (match &v[i] { Some(y) => Some(y.clone()), None => None });
        proof {
            lemma_opt_string_push(out@, x);
            lemma_opt_string_views(v@);
        }
        out.push(x);
        i = i + 1;
        assert(opt_string_views(out@) =~= opt_string_views(v@).take(i as int));
    }
    proof {
        lemma_opt_string_views(v@);
    }
    assert(opt_string_views(out@) =~= opt_string_views(v@));
    out
}

/// The mathematical values of a list.
pub open spec fn call_arg_views(s: Seq<CallArg>) -> Seq<CallArgView>
    decreases s, 1nat,
{
    call_arg_seq(s)
}

/// The mathematical values of a list, one by one.
#[verifier::opaque]
pub open spec fn call_arg_seq(s: Seq<CallArg>) -> Seq<CallArgView>
    decreases s, 0nat,
{
    Seq::new(
        s.len(),
        |i: int|
            if 0 <= i < s.len() {
                s[i].model()
            } else {
                arbitrary()
            },
    )
}

/// Appending to a list appends to its mathematical values.
pub proof fn lemma_call_arg_push(s: Seq<CallArg>, x: CallArg)
    ensures
        call_arg_views(s.push(x)) == call_arg_views(s).push(x.model()),
{
    reveal(call_arg_seq);
    assert(call_arg_views(s.push(x)) =~= call_arg_views(s).push(x.model()));
}

/// The mathematical values of a list are as many as the list holds, each in its
/// place.
pub proof fn lemma_call_arg_views(s: Seq<CallArg>)
    ensures
        call_arg_views(s).len() == s.len(),
        forall|i: int|
            0 <= i < s.len() ==> #[trigger] call_arg_views(s)[i] == (s[i].model()),
{
    reveal(call_arg_seq);
}

/// A copy of a list.
pub fn dup_call_arg_list(v: &Vec<CallArg>) -> (r: Vec<CallArg>)
    ensures
        call_arg_views(r@) == call_arg_views(v@),
    decreases v@,
{
    let mut out: Vec<CallArg> = Vec::new();
    let mut i: usize = 0;
    proof {
        lemma_call_arg_views(v@);
        lemma_call_arg_views(out@);
    }
    assert(call_arg_views(out@) =~= call_arg_views(v@).take(0));
    while i < v.len()
        invariant
            i <= v.len(),
            call_arg_views(out@) == call_arg_views(v@).take(i as int),
        decreases v.len() - i,
    {
        let x = v[i].dup();
        proof {
            lemma_call_arg_push(out@, x);
            lemma_call_arg_views(v@);
        }
        out.push(x);
        i = i + 1;
        assert(call_arg_views(out@) =~= call_arg_views(v@).take(i as int));
    }
    proof {
        lemma_call_arg_views(v@);
    }
    assert(call_arg_views(out@) =~= call_arg_views(v@));
    out
}

/// The mathematical values of a list.
pub open spec fn string_expr_views(s: Seq<(String, Expr)>) -> Seq<(Chars, ExprView)>
    decreases s, 1nat,
{
    string_expr_seq(s)
}

/// The mathematical values of a list, one by one.
#[verifier::opaque]
pub open spec fn string_expr_seq(s: Seq<(String, Expr)>) -> Seq<(Chars, ExprView)>
    decreases s, 0nat,
{
    Seq::new(
        s.len(),
        |i: int|
            if 0 <= i < s.len() {
                (s[i].0@, s[i].1.model())
            } else {
                arbitrary()
            },
    )
}

/// Appending to a list appends to its mathematical values.
pub proof fn lemma_string_expr_push(s: Seq<(String, Expr)>, x: (String, Expr))
    ensures
        string_expr_views(s.push(x)) == string_expr_views(s).push((x.0@, x.1.model())),
{
    reveal(string_expr_seq);
    assert(string_expr_views(s.push(x)) =~= string_expr_views(s).push((x.0@, x.1.model())));
}

/// The mathematical values of a list are as many as the list holds, each in its
/// place.
pub proof fn lemma_string_expr_views(s: Seq<(String, Expr)>)
    ensures
        string_expr_views(s).len() == s.len(),
        forall|i: int|
            0 <= i < s.len() ==> #[trigger] string_expr_views(s)[i] == ((s[i].0@, s[i].1.model())),
{
    reveal(string_expr_seq);
}

/// A copy of a list.
pub fn dup_string_expr_list(v: &Vec<(String, Expr)>) -> (r: Vec<(String, Expr)>)
    ensures
        string_expr_views(r@) == string_expr_views(v@),
    decreases v@,
{
    let mut out: Vec<(String, Expr)> = Vec::new();
    let mut i: usize = 0;
    proof {
        lemma_string_expr_views(v@);
        lemma_string_expr_views(out@);
    }
    assert(string_expr_views(out@) =~= string_expr_views(v@).take(0));
    while i < v.len()
        invariant
            i <= v.len(),
            string_expr_views(out@) == string_expr_views(v@).take(i as int),
        decreases v.len() - i,
    {
        let x = (v[i].0.clone(), v[i].1.dup());
        proof {
            lemma_string_expr_push(out@, x);
            lemma_string_expr_views(v@);
        }
        out.push(x);
        i = i + 1;
        assert(string_expr_views(out@) =~= string_expr_views(v@).take(i as int));
    }
    proof {
        lemma_string_expr_views(v@);
    }
    assert(string_expr_views(out@) =~= string_expr_views(v@));
    out
}

/// The mathematical values of a list.
pub open spec fn expr_views(s: Seq<Expr>) -> Seq<ExprView>
    decreases s, 1nat,
{
    expr_seq(s)
}

/// The mathematical values of a list, one by one.
#[verifier::opaque]
pub open spec fn expr_seq(s: Seq<Expr>) -> Seq<ExprView>
    decreases s, 0nat,
{
    Seq::new(
        s.len(),
        |i: int|
            if 0 <= i < s.len() {
                s[i].model()
            } else {
                arbitrary()
            },
    )
}

/// Appending to a list appends to its mathematical values.
pub proof fn lemma_expr_push(s: Seq<Expr>, x: Expr)
    ensures
        expr_views(s.push(x)) == expr_views(s).push(x.model()),
{
    reveal(expr_seq);
    assert(expr_views(s.push(x)) =~= expr_views(s).push(x.model()));
}

/// The mathematical values of a list are as many as the list holds, each in its
/// place.
pub proof fn lemma_expr_views(s: Seq<Expr>)
    ensures
        expr_views(s).len() == s.len(),
        forall|i: int|
            0 <= i < s.len() ==> #[trigger] expr_views(s)[i] == (s[i].model()),
{
    reveal(expr_seq);
}

/// A copy of a list.
pub fn dup_expr_list(v: &Vec<Expr>) -> (r: Vec<Expr>)
    ensures
        expr_views(r@) == expr_views(v@),
    decreases v@,
{
    let mut out: Vec<Expr> = Vec::new();
    let mut i: usize = 0;
    proof {
        lemma_expr_views(v@);
        lemma_expr_views(out@);
    }
    assert(expr_views(out@) =~= expr_views(v@).take(0));
    while i < v.len()
        invariant
            i <= v.len(),
            expr_views(out@) == expr_views(v@).take(i as int),
        decreases v.len() - i,
    {
        let x = v[i].dup();
        proof {
            lemma_expr_push(out@, x);
            lemma_expr_views(v@);
        }
        out.push(x);
        i = i + 1;
        assert(expr_views(out@) =~= expr_views(v@).take(i as int));
    }
    proof {
        lemma_expr_views(v@);
    }
    assert(expr_views(out@) =~= expr_views(v@));
    out
}

/// The mathematical values of a list.
pub open spec fn match_arm_views(s: Seq<MatchArm>) -> Seq<MatchArmView>
    decreases s, 1nat,
{
    match_arm_seq(s)
}

/// The mathematical values of a list, one by one.
#[verifier::opaque]
pub open spec fn match_arm_seq(s: Seq<MatchArm>) -> Seq<MatchArmView>
    decreases s, 0nat,
{
    Seq::new(
        s.len(),
        |i: int|
            if 0 <= i < s.len() {
                s[i].model()
            } else {
                arbitrary()
            },
    )
}

/// Appending to a list appends to its mathematical values.
pub proof fn lemma_match_arm_push(s: Seq<MatchArm>, x: MatchArm)
    ensures
        match_arm_views(s.push(x)) == match_arm_views(s).push(x.model()),
{
    reveal(match_arm_seq);
    assert(match_arm_views(s.push(x)) =~= match_arm_views(s).push(x.model()));
}

/// The mathematical values of a list are as many as the list holds, each in its
/// place.
pub proof fn lemma_match_arm_views(s: Seq<MatchArm>)
    ensures
        match_arm_views(s).len() == s.len(),
        forall|i: int|
            0 <= i < s.len() ==> #[trigger] match_arm_views(s)[i] == (s[i].model()),
{
    reveal(match_arm_seq);
}

/// A copy of a list.
pub fn dup_match_arm_list(v: &Vec<MatchArm>) -> (r: Vec<MatchArm>)
    ensures
        match_arm_views(r@) == match_arm_views(v@),
    decreases v@,
{
    let mut out: Vec<MatchArm> = Vec::new();
    let mut i: usize = 0;
    proof {
        lemma_match_arm_views(v@);
        lemma_match_arm_views(out@);
    }
    assert(match_arm_views(out@) =~= match_arm_views(v@).take(0));
    while i < v.len()
        invariant
            i <= v.len(),
            match_arm_views(out@) == match_arm_views(v@).take(i as int),
        decreases v.len() - i,
    {
        let x = v[i].dup();
        proof {
            lemma_match_arm_push(out@, x);
            lemma_match_arm_views(v@);
        }
        out.push(x);
        i = i + 1;
        assert(match_arm_views(out@) =~= match_arm_views(v@).take(i as int));
    }
    proof {
        lemma_match_arm_views(v@);
    }
    assert(match_arm_views(out@) =~= match_arm_views(v@));
    out
}

/// The mathematical values of a list.
pub open spec fn stmt_views(s: Seq<Stmt>) -> Seq<StmtView>
    decreases s, 1nat,
{
    stmt_seq(s)
}

/// The mathematical values of a list, one by one.
#[verifier::opaque]
pub open spec fn stmt_seq(s: Seq<Stmt>) -> Seq<StmtView>
    decreases s, 0nat,
{
    Seq::new(
        s.len(),
        |i: int|
            if 0 <= i < s.len() {
                s[i].model()
            } else {
                arbitrary()
            },
    )
}

/// Appending to a list appends to its mathematical values.
pub proof fn lemma_stmt_push(s: Seq<Stmt>, x: Stmt)
    ensures
        stmt_views(s.push(x)) == stmt_views(s).push(x.model()),
{
    reveal(stmt_seq);
    assert(stmt_views(s.push(x)) =~= stmt_views(s).push(x.model()));
}

/// The mathematical values of a list are as many as the list holds, each in its
/// place.
pub proof fn lemma_stmt_views(s: Seq<Stmt>)
    ensures
        stmt_views(s).len() == s.len(),
        forall|i: int|
            0 <= i < s.len() ==> #[trigger] stmt_views(s)[i] == (s[i].model()),
{
    reveal(stmt_seq);
}

/// A copy of a list.
pub fn dup_stmt_list(v: &Vec<Stmt>) -> (r: Vec<Stmt>)
    ensures
        stmt_views(r@) == stmt_views(v@),
    decreases v@,
{
    let mut out: Vec<Stmt> = Vec::new();
    let mut i: usize = 0;
    proof {
        lemma_stmt_views(v@);
        lemma_stmt_views(out@);
    }
    assert(stmt_views(out@) =~= stmt_views(v@).take(0));
    while i < v.len()
        invariant
            i <= v.len(),
            stmt_views(out@) == stmt_views(v@).take(i as int),
        decreases v.len() - i,
    {
        let x = v[i].dup();
        proof {
            lemma_stmt_push(out@, x);
            lemma_stmt_views(v@);
        }
        out.push(x);
        i = i + 1;
        assert(stmt_views(out@) =~= stmt_views(v@).take(i as int));
    }
    proof {
        lemma_stmt_views(v@);
    }
    assert(stmt_views(out@) =~= stmt_views(v@));
    out
}

/// The mathematical values of a list.
pub open spec fn attribute_arg_views(s: Seq<AttributeArg>) -> Seq<AttributeArgView>
    decreases s, 1nat,
{
    attribute_arg_seq(s)
}

/// The mathematical values of a list, one by one.
#[verifier::opaque]
pub open spec fn attribute_arg_seq(s: Seq<AttributeArg>) -> Seq<AttributeArgView>
    decreases s, 0nat,
{
    Seq::new(
        s.len(),
        |i: int|
            if 0 <= i < s.len() {
                s[i].model()
            } else {
                arbitrary()
            },
    )
}

/// Appending to a list appends to its mathematical values.
pub proof fn lemma_attribute_arg_push(s: Seq<AttributeArg>, x: AttributeArg)
    ensures
        attribute_arg_views(s.push(x)) == attribute_arg_views(s).push(x.model()),
{
    reveal(attribute_arg_seq);
    assert(attribute_arg_views(s.push(x)) =~= attribute_arg_views(s).push(x.model()));
}

/// The mathematical values of a list are as many as the list holds, each in its
/// place.
pub proof fn lemma_attribute_arg_views(s: Seq<AttributeArg>)
    ensures
        attribute_arg_views(s).len() == s.len(),
        forall|i: int|
            0 <= i < s.len() ==> #[trigger] attribute_arg_views(s)[i] == (s[i].model()),
{
    reveal(attribute_arg_seq);
}

/// The mathematical values of a list.
pub open spec fn param_views(s: Seq<Param>) -> Seq<ParamView>
    decreases s, 1nat,
{
    param_seq(s)
}

/// The mathematical values of a list, one by one.
#[verifier::opaque]
pub open spec fn param_seq(s: Seq<Param>) -> Seq<ParamView>
    decreases s, 0nat,
{
    Seq::new(
        s.len(),
        |i: int|
            if 0 <= i < s.len() {
                s[i].model()
            } else {
                arbitrary()
            },
    )
}

/// Appending to a list appends to its mathematical values.
pub proof fn lemma_param_push(s: Seq<Param>, x: Param)
    ensures
        param_views(s.push(x)) == param_views(s).push(x.model()),
{
    reveal(param_seq);
    assert(param_views(s.push(x)) =~= param_views(s).push(x.model()));
}

/// The mathematical values of a list are as many as the list holds, each in its
/// place.
pub proof fn lemma_param_views(s: Seq<Param>)
    ensures
        param_views(s).len() == s.len(),
        forall|i: int|
            0 <= i < s.len() ==> #[trigger] param_views(s)[i] == (s[i].model()),
{
    reveal(param_seq);
}

/// The mathematical values of a list.
pub open spec fn generic_param_views(s: Seq<GenericParam>) -> Seq<GenericParamView>
    decreases s, 1nat,
{
    generic_param_seq(s)
}

/// The mathematical values of a list, one by one.
#[verifier::opaque]
pub open spec fn generic_param_seq(s: Seq<GenericParam>) -> Seq<GenericParamView>
    decreases s, 0nat,
{
    Seq::new(
        s.len(),
        |i: int|
            if 0 <= i < s.len() {
                s[i].model()
            } else {
                arbitrary()
            },
    )
}

/// Appending to a list appends to its mathematical values.
pub proof fn lemma_generic_param_push(s: Seq<GenericParam>, x: GenericParam)
    ensures
        generic_param_views(s.push(x)) == generic_param_views(s).push(x.model()),
{
    reveal(generic_param_seq);
    assert(generic_param_views(s.push(x)) =~= generic_param_views(s).push(x.model()));
}

/// The mathematical values of a list are as many as the list holds, each in its
/// place.
pub proof fn lemma_generic_param_views(s: Seq<GenericParam>)
    ensures
        generic_param_views(s).len() == s.len(),
        forall|i: int|
            0 <= i < s.len() ==> #[trigger] generic_param_views(s)[i] == (s[i].model()),
{
    reveal(generic_param_seq);
}

/// A copy of a list.
pub fn dup_generic_param_list(v: &Vec<GenericParam>) -> (r: Vec<GenericParam>)
    ensures
        generic_param_views(r@) == generic_param_views(v@),
    decreases v@,
{
    let mut out: Vec<GenericParam> = Vec::new();
    let mut i: usize = 0;
    proof {
        lemma_generic_param_views(v@);
        lemma_generic_param_views(out@);
    }
    assert(generic_param_views(out@) =~= generic_param_views(v@).take(0));
    while i < v.len()
        invariant
            i <= v.len(),
            generic_param_views(out@) == generic_param_views(v@).take(i as int),
        decreases v.len() - i,
    {
        let x = v[i].dup();
        proof {
            lemma_generic_param_push(out@, x);
            lemma_generic_param_views(v@);
        }
        out.push(x);
        i = i + 1;
        assert(generic_param_views(out@) =~= generic_param_views(v@).take(i as int));
    }
    proof {
        lemma_generic_param_views(v@);
    }
    assert(generic_param_views(out@) =~= generic_param_views(v@));
    out
}

/// The mathematical values of a list.
pub open spec fn attribute_views(s: Seq<Attribute>) -> Seq<AttributeView>
    decreases s, 1nat,
{
    attribute_seq(s)
}

/// The mathematical values of a list, one by one.
#[verifier::opaque]
pub open spec fn attribute_seq(s: Seq<Attribute>) -> Seq<AttributeView>
    decreases s, 0nat,
{
    Seq::new(
        s.len(),
        |i: int|
            if 0 <= i < s.len() {
                s[i].model()
            } else {
                arbitrary()
            },
    )
}

/// Appending to a list appends to its mathematical values.
pub proof fn lemma_attribute_push(s: Seq<Attribute>, x: Attribute)
    ensures
        attribute_views(s.push(x)) == attribute_views(s).push(x.model()),
{
    reveal(attribute_seq);
    assert(attribute_views(s.push(x)) =~= attribute_views(s).push(x.model()));
}

/// The mathematical values of a list are as many as the list holds, each in its
/// place.
pub proof fn lemma_attribute_views(s: Seq<Attribute>)
    ensures
        attribute_views(s).len() == s.len(),
        forall|i: int|
            0 <= i < s.len() ==> #[trigger] attribute_views(s)[i] == (s[i].model()),
{
    reveal(attribute_seq);
}

/// The mathematical values of a list.
pub open spec fn enum_variant_def_views(s: Seq<EnumVariantDef>) -> Seq<EnumVariantDefView>
    decreases s, 1nat,
{
    enum_variant_def_seq(s)
}

/// The mathematical values of a list, one by one.
#[verifier::opaque]
pub open spec fn enum_variant_def_seq(s: Seq<EnumVariantDef>) -> Seq<EnumVariantDefView>
    decreases s, 0nat,
{
    Seq::new(
        s.len(),
        |i: int|
            if 0 <= i < s.len() {
                s[i].model()
            } else {
                arbitrary()
            },
    )
}

/// The mathematical values of a list.
pub open spec fn fn_def_views(s: Seq<FnDef>) -> Seq<FnDefView>
    decreases s, 1nat,
{
    fn_def_seq(s)
}

/// The mathematical values of a list, one by one.
#[verifier::opaque]
pub open spec fn fn_def_seq(s: Seq<FnDef>) -> Seq<FnDefView>
    decreases s, 0nat,
{
    Seq::new(
        s.len(),
        |i: int|
            if 0 <= i < s.len() {
                s[i].model()
            } else {
                arbitrary()
            },
    )
}

/// The mathematical values of a list.
pub open spec fn fn_sig_views(s: Seq<FnSig>) -> Seq<FnSigView>
    decreases s, 1nat,
{
    fn_sig_seq(s)
}

/// The mathematical values of a list, one by one.
#[verifier::opaque]
pub open spec fn fn_sig_seq(s: Seq<FnSig>) -> Seq<FnSigView>
    decreases s, 0nat,
{
    Seq::new(
        s.len(),
        |i: int|
            if 0 <= i < s.len() {
                s[i].model()
            } else {
                arbitrary()
            },
    )
}

/// The mathematical values of a list.
pub open spec fn string_views(s: Seq<String>) -> Seq<Chars>
{
    string_seq(s)
}

/// The mathematical values of a list, one by one.
#[verifier::opaque]
pub open spec fn string_seq(s: Seq<String>) -> Seq<Chars>
{
    Seq::new(s.len(), |i: int| s[i]@)
}

/// Appending to a list appends to its mathematical values.
pub proof fn lemma_string_push(s: Seq<String>, x: String)
    ensures
        string_views(s.push(x)) == string_views(s).push(x@),
{
    reveal(string_seq);
    assert(string_views(s.push(x)) =~= string_views(s).push(x@));
}

/// The mathematical values of a list are as many as the list holds, each in its
/// place.
pub proof fn lemma_string_views(s: Seq<String>)
    ensures
        string_views(s).len() == s.len(),
        forall|i: int|
            0 <= i < s.len() ==> #[trigger] string_views(s)[i] == (s[i]@),
{
    reveal(string_seq);
}

/// A copy of a list.
pub fn dup_string_list(v: &Vec<String>) -> (r: Vec<String>)
    ensures
        string_views(r@) == string_views(v@),
    decreases v@,
{
    let mut out: Vec<String> = Vec::new();
    let mut i: usize = 0;
    proof {
        lemma_string_views(v@);
        lemma_string_views(out@);
    }
    assert(string_views(out@) =~= string_views(v@).take(0));
    while i < v.len()
        invariant
            i <= v.len(),
            string_views(out@) == string_views(v@).take(i as int),
        decreases v.len() - i,
    {
        let x = v[i].clone();
        proof {
            lemma_string_push(out@, x);
            lemma_string_views(v@);
        }
        out.push(x);
        i = i + 1;
        assert(string_views(out@) =~= string_views(v@).take(i as int));
    }
    proof {
        lemma_string_views(v@);
    }
    assert(string_views(out@) =~= string_views(v@));
    out
}

/// The mathematical values of a list.
pub open spec fn item_views(s: Seq<Item>) -> Seq<ItemView>
    decreases s, 1nat,
{
    item_seq(s)
}

/// The mathematical values of a list, one by one.
#[verifier::opaque]
pub open spec fn item_seq(s: Seq<Item>) -> Seq<ItemView>
    decreases s, 0nat,
{
    Seq::new(
        s.len(),
        |i: int|
            if 0 <= i < s.len() {
                s[i].model()
            } else {
                arbitrary()
            },
    )
}

/// Appending to a list appends to its mathematical values.
pub proof fn lemma_item_push(s: Seq<Item>, x: Item)
    ensures
        item_views(s.push(x)) == item_views(s).push(x.model()),
{
    reveal(item_seq);
    assert(item_views(s.push(x)) =~= item_views(s).push(x.model()));
}

/// The mathematical values of a list are as many as the list holds, each in its
/// place.
pub proof fn lemma_item_views(s: Seq<Item>)
    ensures
        item_views(s).len() == s.len(),
        forall|i: int|
            0 <= i < s.len() ==> #[trigger] item_views(s)[i] == (s[i].model()),
{
    reveal(item_seq);
}

impl Type {
    /// Whether no value has this type.
    pub fn is_never(&self) -> (r: bool)
        ensures
            r == (self.model() is Never),
    {
        match self {
            Type::Never => true,
            _ => false,
        }
    }

    /// Whether this is the type of the empty value.
    pub fn is_unit(&self) -> (r: bool)
        ensures
            r == (self.model() is Unit),
    {
        match self {
            Type::Unit => true,
            _ => false,
        }
    }
}

/// Appending to a list appends to its mathematical values.
pub proof fn lemma_enum_variant_def_push(s: Seq<EnumVariantDef>, x: EnumVariantDef)
    ensures
        enum_variant_def_views(s.push(x)) == enum_variant_def_views(s).push(x.model()),
{
    reveal(enum_variant_def_seq);
    assert(enum_variant_def_views(s.push(x)) =~= enum_variant_def_views(s).push(x.model()));
}

/// The mathematical values of a list are as many as the list holds, each in its
/// place.
pub proof fn lemma_enum_variant_def_views(s: Seq<EnumVariantDef>)
    ensures
        enum_variant_def_views(s).len() == s.len(),
        forall|i: int|
            0 <= i < s.len() ==> #[trigger] enum_variant_def_views(s)[i] == (s[i].model()),
{
    reveal(enum_variant_def_seq);
}

/// Appending to a list appends to its mathematical values.
pub proof fn lemma_fn_def_push(s: Seq<FnDef>, x: FnDef)
    ensures
        fn_def_views(s.push(x)) == fn_def_views(s).push(x.model()),
{
    reveal(fn_def_seq);
    assert(fn_def_views(s.push(x)) =~= fn_def_views(s).push(x.model()));
}

/// The mathematical values of a list are as many as the list holds, each in its
/// place.
pub proof fn lemma_fn_def_views(s: Seq<FnDef>)
    ensures
        fn_def_views(s).len() == s.len(),
        forall|i: int|
            0 <= i < s.len() ==> #[trigger] fn_def_views(s)[i] == (s[i].model()),
{
    reveal(fn_def_seq);
}

/// Appending to a list appends to its mathematical values.
pub proof fn lemma_fn_sig_push(s: Seq<FnSig>, x: FnSig)
    ensures
        fn_sig_views(s.push(x)) == fn_sig_views(s).push(x.model()),
{
    reveal(fn_sig_seq);
    assert(fn_sig_views(s.push(x)) =~= fn_sig_views(s).push(x.model()));
}

/// The mathematical values of a list are as many as the list holds, each in its
/// place.
pub proof fn lemma_fn_sig_views(s: Seq<FnSig>)
    ensures
        fn_sig_views(s).len() == s.len(),
        forall|i: int|
            0 <= i < s.len() ==> #[trigger] fn_sig_views(s)[i] == (s[i].model()),
{
    reveal(fn_sig_seq);
}

} // verus!
