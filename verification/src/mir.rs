//! The program in basic blocks.
use crate::ast::{
    BinaryOp, dup_generic_param_list, dup_string_list, dup_type_list, generic_param_views,
    GenericParam, GenericParamView, Literal, LiteralView, Param, string_views, Type, type_views,
    TypeView, UnaryOp,
};
use crate::hir::IntrinsicFn;
use crate::text::Chars;
use vstd::prelude::*;

verus! {

/// A version of a local: each assignment makes a new one.
#[derive(Clone, Copy, PartialEq, Eq, Structural, Debug)]
pub struct SsaLocal {
    pub base_id: usize,
    pub version: u32,
}

/// What a local stands for.
#[derive(Clone, Copy, PartialEq, Eq, Structural, Debug)]
pub enum LocalKind {
    Param,
    Var,
    Temp,
    Persist,
}

/// A program in basic blocks.
#[derive(Debug)]
pub struct MirProgram {
    pub structs: Vec<MirStruct>,
    pub enums: Vec<MirEnum>,
    pub fns: Vec<MirFn>,
    pub intrinsics_used: Vec<IntrinsicFn>,
}

/// `MirProgram` as a mathematical value.
pub struct MirProgramView {
    pub structs: Seq<MirStructView>,
    pub enums: Seq<MirEnumView>,
    pub fns: Seq<MirFnView>,
    pub intrinsics_used: Seq<IntrinsicFn>,
}

impl MirProgram {
    /// The mathematical value of `self`.
    pub open spec fn model(self) -> MirProgramView
        decreases self, 2nat,
    {
        MirProgramView {
            structs: mir_struct_views(self.structs@),
            enums: mir_enum_views(self.enums@),
            fns: mir_fn_views(self.fns@),
            intrinsics_used: self.intrinsics_used@,
        }
    }

    /// A copy of `self`.
    pub fn dup(&self) -> (r: Self)
        ensures
            r.model() == self.model(),
        decreases self,
    {
        MirProgram {
            structs: dup_mir_struct_list(&self.structs),
            enums: dup_mir_enum_list(&self.enums),
            fns: dup_mir_fn_list(&self.fns),
            intrinsics_used: dup_intrinsic_fn_list(&self.intrinsics_used),
        }
    }
}

/// A structure.
#[derive(Debug)]
pub struct MirStruct {
    pub name: String,
    pub generic_params: Vec<GenericParam>,
    pub fields: Vec<(String, Type)>,
}

/// `MirStruct` as a mathematical value.
pub struct MirStructView {
    pub name: Chars,
    pub generic_params: Seq<GenericParamView>,
    pub fields: Seq<(Chars, TypeView)>,
}

impl MirStruct {
    /// The mathematical value of `self`.
    pub open spec fn model(self) -> MirStructView
        decreases self, 2nat,
    {
        MirStructView {
            name: self.name@,
            generic_params: generic_param_views(self.generic_params@),
            fields: string_type_views(self.fields@),
        }
    }

    /// A copy of `self`.
    pub fn dup(&self) -> (r: Self)
        ensures
            r.model() == self.model(),
        decreases self,
    {
        MirStruct {
            name: self.name.clone(),
            generic_params: dup_generic_param_list(&self.generic_params),
            fields: dup_string_type_list(&self.fields),
        }
    }
}

/// An enumeration.
#[derive(Debug)]
pub struct MirEnum {
    pub name: String,
    pub generic_params: Vec<GenericParam>,
    pub variants: Vec<(String, Option<Type>)>,
}

/// `MirEnum` as a mathematical value.
pub struct MirEnumView {
    pub name: Chars,
    pub generic_params: Seq<GenericParamView>,
    pub variants: Seq<(Chars, Option<TypeView>)>,
}

impl MirEnum {
    /// The mathematical value of `self`.
    pub open spec fn model(self) -> MirEnumView
        decreases self, 2nat,
    {
        MirEnumView {
            name: self.name@,
            generic_params: generic_param_views(self.generic_params@),
            variants: string_opt_type_views(self.variants@),
        }
    }

    /// A copy of `self`.
    pub fn dup(&self) -> (r: Self)
        ensures
            r.model() == self.model(),
        decreases self,
    {
        MirEnum {
            name: self.name.clone(),
            generic_params: dup_generic_param_list(&self.generic_params),
            variants: dup_string_opt_type_list(&self.variants),
        }
    }
}

/// A function.
#[derive(Debug)]
pub struct MirFn {
    pub name: String,
    pub generic_params: Vec<GenericParam>,
    pub params: Vec<(String, Type)>,
    pub return_type: Type,
    pub body: MirBody,
    pub effect_set: Vec<String>,
}

/// `MirFn` as a mathematical value.
pub struct MirFnView {
    pub name: Chars,
    pub generic_params: Seq<GenericParamView>,
    pub params: Seq<(Chars, TypeView)>,
    pub return_type: TypeView,
    pub body: MirBodyView,
    pub effect_set: Seq<Chars>,
}

impl MirFn {
    /// The mathematical value of `self`.
    pub open spec fn model(self) -> MirFnView
        decreases self, 2nat,
    {
        MirFnView {
            name: self.name@,
            generic_params: generic_param_views(self.generic_params@),
            params: string_type_views(self.params@),
            return_type: self.return_type.model(),
            body: self.body.model(),
            effect_set: string_views(self.effect_set@),
        }
    }

    /// A copy of `self`.
    pub fn dup(&self) -> (r: Self)
        ensures
            r.model() == self.model(),
        decreases self,
    {
        MirFn {
            name: self.name.clone(),
            generic_params: dup_generic_param_list(&self.generic_params),
            params: dup_string_type_list(&self.params),
            return_type: self.return_type.dup(),
            body: self.body.dup(),
            effect_set: dup_string_list(&self.effect_set),
        }
    }
}

/// The locals and blocks of a function; the first block is the entry.
#[derive(Debug)]
pub struct MirBody {
    pub locals: Vec<MirLocal>,
    pub blocks: Vec<MirBlock>,
}

/// `MirBody` as a mathematical value.
pub struct MirBodyView {
    pub locals: Seq<MirLocalView>,
    pub blocks: Seq<MirBlockView>,
}

impl MirBody {
    /// The mathematical value of `self`.
    pub open spec fn model(self) -> MirBodyView
        decreases self, 2nat,
    {
        MirBodyView {
            locals: mir_local_views(self.locals@),
            blocks: mir_block_views(self.blocks@),
        }
    }

    /// A copy of `self`.
    pub fn dup(&self) -> (r: Self)
        ensures
            r.model() == self.model(),
        decreases self,
    {
        MirBody {
            locals: dup_mir_local_list(&self.locals),
            blocks: dup_mir_block_list(&self.blocks),
        }
    }
}

/// A local of a function.
#[derive(Debug)]
pub struct MirLocal {
    pub name: Option<String>,
    pub ty: Type,
    pub mutable: bool,
    pub kind: LocalKind,
}

/// `MirLocal` as a mathematical value.
pub struct MirLocalView {
    pub name: Option<Chars>,
    pub ty: TypeView,
    pub mutable: bool,
    pub kind: LocalKind,
}

impl MirLocal {
    /// The mathematical value of `self`.
    pub open spec fn model(self) -> MirLocalView
        decreases self, 2nat,
    {
        MirLocalView {
            name: match self.name { Some(y) => Some(y@), None => None },
            ty: self.ty.model(),
            mutable: self.mutable,
            kind: self.kind,
        }
    }

    /// A copy of `self`.
    pub fn dup(&self) -> (r: Self)
        ensures
            r.model() == self.model(),
        decreases self,
    {
        MirLocal {
            name: (match &self.name { Some(y) => Some(y.clone()), None => None }),
            ty: self.ty.dup(),
            mutable: self.mutable,
            kind: self.kind,
        }
    }
}

/// Statements without branches, and where control goes after them.
#[derive(Debug)]
pub struct MirBlock {
    pub stmts: Vec<MirStmt>,
    pub terminator: MirTerminator,
}

/// `MirBlock` as a mathematical value.
pub struct MirBlockView {
    pub stmts: Seq<MirStmtView>,
    pub terminator: MirTerminatorView,
}

impl MirBlock {
    /// The mathematical value of `self`.
    pub open spec fn model(self) -> MirBlockView
        decreases self, 2nat,
    {
        MirBlockView {
            stmts: mir_stmt_views(self.stmts@),
            terminator: self.terminator.model(),
        }
    }

    /// A copy of `self`.
    pub fn dup(&self) -> (r: Self)
        ensures
            r.model() == self.model(),
        decreases self,
    {
        MirBlock {
            stmts: dup_mir_stmt_list(&self.stmts),
            terminator: self.terminator.dup(),
        }
    }
}

/// A statement.
#[derive(Debug)]
pub enum MirStmt {
    Assign { dest: MirPlace, value: MirRvalue },
    ExprStmt(MirRvalue),
    Drop(MirPlace),
    EffectCheck { effect: String },
}

/// `MirStmt` as a mathematical value.
pub enum MirStmtView {
    Assign { dest: MirPlaceView, value: MirRvalueView },
    ExprStmt(MirRvalueView),
    Drop(MirPlaceView),
    EffectCheck { effect: Chars },
}

impl MirStmt {
    /// The mathematical value of `self`.
    pub open spec fn model(self) -> MirStmtView
        decreases self, 2nat,
    {
        match self {
            MirStmt::Assign { dest, value } => MirStmtView::Assign { dest: dest.model(), value: value.model() },
            MirStmt::ExprStmt(a0) => MirStmtView::ExprStmt(a0.model()),
            MirStmt::Drop(a0) => MirStmtView::Drop(a0.model()),
            MirStmt::EffectCheck { effect } => MirStmtView::EffectCheck { effect: effect@ },
        }
    }

    /// A copy of `self`.
    pub fn dup(&self) -> (r: Self)
        ensures
            r.model() == self.model(),
        decreases self,
    {
        match self {
            MirStmt::Assign { dest, value } => MirStmt::Assign { dest: dest.dup(), value: value.dup() },
            MirStmt::ExprStmt(a0) => MirStmt::ExprStmt(a0.dup()),
            MirStmt::Drop(a0) => MirStmt::Drop(a0.dup()),
            MirStmt::EffectCheck { effect } => MirStmt::EffectCheck { effect: effect.clone() },
        }
    }
}

/// Where control goes at the end of a block. `Pending` is that of a block that is not finished.
#[derive(Debug)]
pub enum MirTerminator {
    Pending,
    Return(Option<MirOperand>),
    Goto(usize),
    If { cond: MirOperand, then_block: usize, else_block: usize },
    Switch { discr: MirOperand, discr_ty: Type, targets: Vec<(Literal, usize)>, default: usize },
    Unreachable,
}

/// `MirTerminator` as a mathematical value.
pub enum MirTerminatorView {
    Pending,
    Return(Option<MirOperandView>),
    Goto(usize),
    If { cond: MirOperandView, then_block: usize, else_block: usize },
    Switch { discr: MirOperandView, discr_ty: TypeView, targets: Seq<(LiteralView, usize)>, default: usize },
    Unreachable,
}

impl MirTerminator {
    /// The mathematical value of `self`.
    pub open spec fn model(self) -> MirTerminatorView
        decreases self, 2nat,
    {
        match self {
            MirTerminator::Pending => MirTerminatorView::Pending,
            MirTerminator::Return(a0) => MirTerminatorView::Return(match a0 { Some(y) => Some(y.model()), None => None }),
            MirTerminator::Goto(a0) => MirTerminatorView::Goto(a0),
            MirTerminator::If { cond, then_block, else_block } => MirTerminatorView::If { cond: cond.model(), then_block: then_block, else_block: else_block },
            MirTerminator::Switch { discr, discr_ty, targets, default } => MirTerminatorView::Switch { discr: discr.model(), discr_ty: discr_ty.model(), targets: literal_usize_views(targets@), default: default },
            MirTerminator::Unreachable => MirTerminatorView::Unreachable,
        }
    }

    /// A copy of `self`.
    pub fn dup(&self) -> (r: Self)
        ensures
            r.model() == self.model(),
        decreases self,
    {
        match self {
            MirTerminator::Pending => MirTerminator::Pending,
            MirTerminator::Return(a0) => MirTerminator::Return((match a0 { Some(z) => Some(z.dup()), None => None })),
            MirTerminator::Goto(a0) => MirTerminator::Goto(*a0),
            MirTerminator::If { cond, then_block, else_block } => MirTerminator::If { cond: cond.dup(), then_block: *then_block, else_block: *else_block },
            MirTerminator::Switch { discr, discr_ty, targets, default } => MirTerminator::Switch { discr: discr.dup(), discr_ty: discr_ty.dup(), targets: dup_literal_usize_list(targets), default: *default },
            MirTerminator::Unreachable => MirTerminator::Unreachable,
        }
    }
}

/// What an assignment computes.
#[derive(Debug)]
pub enum MirRvalue {
    Use(MirOperand),
    BinaryOp(BinaryOp, MirOperand, MirOperand),
    UnaryOp(UnaryOp, MirOperand),
    Cast(MirOperand, Type),
    Call { func: String, args: Vec<MirOperand>, is_intrinsic: bool, intrinsic_name: Option<IntrinsicFn>, generic_args: Vec<Type> },
    MethodCall { receiver: MirOperand, method: String, args: Vec<MirOperand>, generic_args: Vec<Type> },
    EnumVariantConstruction { enum_name: String, generic_args: Vec<Type>, variant_name: String, args: Vec<MirOperand> },
    StructInit { struct_name: String, generic_args: Vec<Type>, fields: Vec<(String, MirOperand)> },
    ArrayLiteral(Vec<MirOperand>),
    Discriminant { value: MirOperand, enum_name: String },
    Phi { values: Vec<(usize, MirOperand)> },
}

/// `MirRvalue` as a mathematical value.
pub enum MirRvalueView {
    Use(MirOperandView),
    BinaryOp(BinaryOp, MirOperandView, MirOperandView),
    UnaryOp(UnaryOp, MirOperandView),
    Cast(MirOperandView, TypeView),
    Call { func: Chars, args: Seq<MirOperandView>, is_intrinsic: bool, intrinsic_name: Option<IntrinsicFn>, generic_args: Seq<TypeView> },
    MethodCall { receiver: MirOperandView, method: Chars, args: Seq<MirOperandView>, generic_args: Seq<TypeView> },
    EnumVariantConstruction { enum_name: Chars, generic_args: Seq<TypeView>, variant_name: Chars, args: Seq<MirOperandView> },
    StructInit { struct_name: Chars, generic_args: Seq<TypeView>, fields: Seq<(Chars, MirOperandView)> },
    ArrayLiteral(Seq<MirOperandView>),
    Discriminant { value: MirOperandView, enum_name: Chars },
    Phi { values: Seq<(usize, MirOperandView)> },
}

impl MirRvalue {
    /// The mathematical value of `self`.
    pub open spec fn model(self) -> MirRvalueView
        decreases self, 2nat,
    {
        match self {
            MirRvalue::Use(a0) => MirRvalueView::Use(a0.model()),
            MirRvalue::BinaryOp(a0, a1, a2) => MirRvalueView::BinaryOp(a0, a1.model(), a2.model()),
            MirRvalue::UnaryOp(a0, a1) => MirRvalueView::UnaryOp(a0, a1.model()),
            MirRvalue::Cast(a0, a1) => MirRvalueView::Cast(a0.model(), a1.model()),
            MirRvalue::Call { func, args, is_intrinsic, intrinsic_name, generic_args } => MirRvalueView::Call { func: func@, args: mir_operand_views(args@), is_intrinsic: is_intrinsic, intrinsic_name: intrinsic_name, generic_args: type_views(generic_args@) },
            MirRvalue::MethodCall { receiver, method, args, generic_args } => MirRvalueView::MethodCall { receiver: receiver.model(), method: method@, args: mir_operand_views(args@), generic_args: type_views(generic_args@) },
            MirRvalue::EnumVariantConstruction { enum_name, generic_args, variant_name, args } => MirRvalueView::EnumVariantConstruction { enum_name: enum_name@, generic_args: type_views(generic_args@), variant_name: variant_name@, args: mir_operand_views(args@) },
            MirRvalue::StructInit { struct_name, generic_args, fields } => MirRvalueView::StructInit { struct_name: struct_name@, generic_args: type_views(generic_args@), fields: string_mir_operand_views(fields@) },
            MirRvalue::ArrayLiteral(a0) => MirRvalueView::ArrayLiteral(mir_operand_views(a0@)),
            MirRvalue::Discriminant { value, enum_name } => MirRvalueView::Discriminant { value: value.model(), enum_name: enum_name@ },
            MirRvalue::Phi { values } => MirRvalueView::Phi { values: usize_mir_operand_views(values@) },
        }
    }

    /// A copy of `self`.
    pub fn dup(&self) -> (r: Self)
        ensures
            r.model() == self.model(),
        decreases self,
    {
        match self {
            MirRvalue::Use(a0) => MirRvalue::Use(a0.dup()),
            MirRvalue::BinaryOp(a0, a1, a2) => MirRvalue::BinaryOp(*a0, a1.dup(), a2.dup()),
            MirRvalue::UnaryOp(a0, a1) => MirRvalue::UnaryOp(*a0, a1.dup()),
            MirRvalue::Cast(a0, a1) => MirRvalue::Cast(a0.dup(), a1.dup()),
            MirRvalue::Call { func, args, is_intrinsic, intrinsic_name, generic_args } => MirRvalue::Call { func: func.clone(), args: dup_mir_operand_list(args), is_intrinsic: *is_intrinsic, intrinsic_name: *intrinsic_name, generic_args: dup_type_list(generic_args) },
            MirRvalue::MethodCall { receiver, method, args, generic_args } => MirRvalue::MethodCall { receiver: receiver.dup(), method: method.clone(), args: dup_mir_operand_list(args), generic_args: dup_type_list(generic_args) },
            MirRvalue::EnumVariantConstruction { enum_name, generic_args, variant_name, args } => MirRvalue::EnumVariantConstruction { enum_name: enum_name.clone(), generic_args: dup_type_list(generic_args), variant_name: variant_name.clone(), args: dup_mir_operand_list(args) },
            MirRvalue::StructInit { struct_name, generic_args, fields } => MirRvalue::StructInit { struct_name: struct_name.clone(), generic_args: dup_type_list(generic_args), fields: dup_string_mir_operand_list(fields) },
            MirRvalue::ArrayLiteral(a0) => MirRvalue::ArrayLiteral(dup_mir_operand_list(a0)),
            MirRvalue::Discriminant { value, enum_name } => MirRvalue::Discriminant { value: value.dup(), enum_name: enum_name.clone() },
            MirRvalue::Phi { values } => MirRvalue::Phi { values: dup_usize_mir_operand_list(values) },
        }
    }
}

/// A value that an instruction reads.
#[derive(Debug)]
pub enum MirOperand {
    Constant(Literal),
    Copy(MirPlace),
    Move(MirPlace),
}

/// `MirOperand` as a mathematical value.
pub enum MirOperandView {
    Constant(LiteralView),
    Copy(MirPlaceView),
    Move(MirPlaceView),
}

impl MirOperand {
    /// The mathematical value of `self`.
    pub open spec fn model(self) -> MirOperandView
        decreases self, 2nat,
    {
        match self {
            MirOperand::Constant(a0) => MirOperandView::Constant(a0.model()),
            MirOperand::Copy(a0) => MirOperandView::Copy(a0.model()),
            MirOperand::Move(a0) => MirOperandView::Move(a0.model()),
        }
    }

    /// A copy of `self`.
    pub fn dup(&self) -> (r: Self)
        ensures
            r.model() == self.model(),
        decreases self,
    {
        match self {
            MirOperand::Constant(a0) => MirOperand::Constant(a0.dup()),
            MirOperand::Copy(a0) => MirOperand::Copy(a0.dup()),
            MirOperand::Move(a0) => MirOperand::Move(a0.dup()),
        }
    }
}

/// Where a value is.
#[derive(Debug)]
pub enum MirPlace {
    Ssa(SsaLocal),
    Static(String),
    Field { base: Box<MirPlace>, field: String },
    Index { base: Box<MirPlace>, index: Box<MirOperand> },
    EnumPayload { base: Box<MirPlace>, enum_name: String, variant_name: String },
}

/// `MirPlace` as a mathematical value.
pub enum MirPlaceView {
    Ssa(SsaLocal),
    Static(Chars),
    Field { base: Box<MirPlaceView>, field: Chars },
    Index { base: Box<MirPlaceView>, index: Box<MirOperandView> },
    EnumPayload { base: Box<MirPlaceView>, enum_name: Chars, variant_name: Chars },
}

impl MirPlace {
    /// The mathematical value of `self`.
    pub open spec fn model(self) -> MirPlaceView
        decreases self, 2nat,
    {
        match self {
            MirPlace::Ssa(a0) => MirPlaceView::Ssa(a0),
            MirPlace::Static(a0) => MirPlaceView::Static(a0@),
            MirPlace::Field { base, field } => MirPlaceView::Field { base: Box::new((*base).model()), field: field@ },
            MirPlace::Index { base, index } => MirPlaceView::Index { base: Box::new((*base).model()), index: Box::new((*index).model()) },
            MirPlace::EnumPayload { base, enum_name, variant_name } => MirPlaceView::EnumPayload { base: Box::new((*base).model()), enum_name: enum_name@, variant_name: variant_name@ },
        }
    }

    /// A copy of `self`.
    pub fn dup(&self) -> (r: Self)
        ensures
            r.model() == self.model(),
        decreases self,
    {
        match self {
            MirPlace::Ssa(a0) => MirPlace::Ssa(*a0),
            MirPlace::Static(a0) => MirPlace::Static(a0.clone()),
            MirPlace::Field { base, field } => MirPlace::Field { base: Box::new((**base).dup()), field: field.clone() },
            MirPlace::Index { base, index } => MirPlace::Index { base: Box::new((**base).dup()), index: Box::new((**index).dup()) },
            MirPlace::EnumPayload { base, enum_name, variant_name } => MirPlace::EnumPayload { base: Box::new((**base).dup()), enum_name: enum_name.clone(), variant_name: variant_name.clone() },
        }
    }
}

/// The mathematical values of a list.
pub open spec fn mir_struct_views(s: Seq<MirStruct>) -> Seq<MirStructView>
    decreases s, 1nat,
{
    mir_struct_seq(s)
}

/// The mathematical values of a list, one by one.
#[verifier::opaque]
pub open spec fn mir_struct_seq(s: Seq<MirStruct>) -> Seq<MirStructView>
    decreases s, 0nat,
{
    Seq::new(
        s.len(),
        |i: int|
            if 0 <= i < s.len() {
                s[i].model()
            } else {
                arbitrary()
            },
    )
}

/// Appending to a list appends to its mathematical values.
pub proof fn lemma_mir_struct_push(s: Seq<MirStruct>, x: MirStruct)
    ensures
        mir_struct_views(s.push(x)) == mir_struct_views(s).push(x.model()),
{
    reveal(mir_struct_seq);
    assert(mir_struct_views(s.push(x)) =~= mir_struct_views(s).push(x.model()));
}

/// The mathematical values of a list are as many as the list holds, each in its
/// place.
pub proof fn lemma_mir_struct_views(s: Seq<MirStruct>)
    ensures
        mir_struct_views(s).len() == s.len(),
        forall|i: int|
            0 <= i < s.len() ==> #[trigger] mir_struct_views(s)[i] == (s[i].model()),
{
    reveal(mir_struct_seq);
}

/// A copy of a list.
pub fn dup_mir_struct_list(v: &Vec<MirStruct>) -> (r: Vec<MirStruct>)
    ensures
        mir_struct_views(r@) == mir_struct_views(v@),
    decreases v@,
{
    let mut out: Vec<MirStruct> = Vec::new();
    let mut i: usize = 0;
    proof {
        lemma_mir_struct_views(v@);
        lemma_mir_struct_views(out@);
    }
    assert(mir_struct_views(out@) =~= mir_struct_views(v@).take(0));
    while i < v.len()
        invariant
            i <= v.len(),
            mir_struct_views(out@) == mir_struct_views(v@).take(i as int),
        decreases v.len() - i,
    {
        let x = v[i].dup();
        proof {
            lemma_mir_struct_push(out@, x);
            lemma_mir_struct_views(v@);
        }
        out.push(x);
        i = i + 1;
        assert(mir_struct_views(out@) =~= mir_struct_views(v@).take(i as int));
    }
    proof {
        lemma_mir_struct_views(v@);
    }
    assert(mir_struct_views(out@) =~= mir_struct_views(v@));
    out
}

/// The mathematical values of a list.
pub open spec fn mir_enum_views(s: Seq<MirEnum>) -> Seq<MirEnumView>
    decreases s, 1nat,
{
    mir_enum_seq(s)
}

/// The mathematical values of a list, one by one.
#[verifier::opaque]
pub open spec fn mir_enum_seq(s: Seq<MirEnum>) -> Seq<MirEnumView>
    decreases s, 0nat,
{
    Seq::new(
        s.len(),
        |i: int|
            if 0 <= i < s.len() {
                s[i].model()
            } else {
                arbitrary()
            },
    )
}

/// Appending to a list appends to its mathematical values.
pub proof fn lemma_mir_enum_push(s: Seq<MirEnum>, x: MirEnum)
    ensures
        mir_enum_views(s.push(x)) == mir_enum_views(s).push(x.model()),
{
    reveal(mir_enum_seq);
    assert(mir_enum_views(s.push(x)) =~= mir_enum_views(s).push(x.model()));
}

/// The mathematical values of a list are as many as the list holds, each in its
/// place.
pub proof fn lemma_mir_enum_views(s: Seq<MirEnum>)
    ensures
        mir_enum_views(s).len() == s.len(),
        forall|i: int|
            0 <= i < s.len() ==> #[trigger] mir_enum_views(s)[i] == (s[i].model()),
{
    reveal(mir_enum_seq);
}

/// A copy of a list.
pub fn dup_mir_enum_list(v: &Vec<MirEnum>) -> (r: Vec<MirEnum>)
    ensures
        mir_enum_views(r@) == mir_enum_views(v@),
    decreases v@,
{
    let mut out: Vec<MirEnum> = Vec::new();
    let mut i: usize = 0;
    proof {
        lemma_mir_enum_views(v@);
        lemma_mir_enum_views(out@);
    }
    assert(mir_enum_views(out@) =~= mir_enum_views(v@).take(0));
    while i < v.len()
        invariant
            i <= v.len(),
            mir_enum_views(out@) == mir_enum_views(v@).take(i as int),
        decreases v.len() - i,
    {
        let x = v[i].dup();
        proof {
            lemma_mir_enum_push(out@, x);
            lemma_mir_enum_views(v@);
        }
        out.push(x);
        i = i + 1;
        assert(mir_enum_views(out@) =~= mir_enum_views(v@).take(i as int));
    }
    proof {
        lemma_mir_enum_views(v@);
    }
    assert(mir_enum_views(out@) =~= mir_enum_views(v@));
    out
}

/// The mathematical values of a list.
pub open spec fn mir_fn_views(s: Seq<MirFn>) -> Seq<MirFnView>
    decreases s, 1nat,
{
    mir_fn_seq(s)
}

/// The mathematical values of a list, one by one.
#[verifier::opaque]
pub open spec fn mir_fn_seq(s: Seq<MirFn>) -> Seq<MirFnView>
    decreases s, 0nat,
{
    Seq::new(
        s.len(),
        |i: int|
            if 0 <= i < s.len() {
                s[i].model()
            } else {
                arbitrary()
            },
    )
}

/// Appending to a list appends to its mathematical values.
pub proof fn lemma_mir_fn_push(s: Seq<MirFn>, x: MirFn)
    ensures
        mir_fn_views(s.push(x)) == mir_fn_views(s).push(x.model()),
{
    reveal(mir_fn_seq);
    assert(mir_fn_views(s.push(x)) =~= mir_fn_views(s).push(x.model()));
}

/// The mathematical values of a list are as many as the list holds, each in its
/// place.
pub proof fn lemma_mir_fn_views(s: Seq<MirFn>)
    ensures
        mir_fn_views(s).len() == s.len(),
        forall|i: int|
            0 <= i < s.len() ==> #[trigger] mir_fn_views(s)[i] == (s[i].model()),
{
    reveal(mir_fn_seq);
}

/// A copy of a list.
pub fn dup_mir_fn_list(v: &Vec<MirFn>) -> (r: Vec<MirFn>)
    ensures
        mir_fn_views(r@) == mir_fn_views(v@),
    decreases v@,
{
    let mut out: Vec<MirFn> = Vec::new();
    let mut i: usize = 0;
    proof {
        lemma_mir_fn_views(v@);
        lemma_mir_fn_views(out@);
    }
    assert(mir_fn_views(out@) =~= mir_fn_views(v@).take(0));
    while i < v.len()
        invariant
            i <= v.len(),
            mir_fn_views(out@) == mir_fn_views(v@).take(i as int),
        decreases v.len() - i,
    {
        let x = v[i].dup();
        proof {
            lemma_mir_fn_push(out@, x);
            lemma_mir_fn_views(v@);
        }
        out.push(x);
        i = i + 1;
        assert(mir_fn_views(out@) =~= mir_fn_views(v@).take(i as int));
    }
    proof {
        lemma_mir_fn_views(v@);
    }
    assert(mir_fn_views(out@) =~= mir_fn_views(v@));
    out
}

/// A copy of a list.
pub fn dup_intrinsic_fn_list(v: &Vec<IntrinsicFn>) -> (r: Vec<IntrinsicFn>)
    ensures
        r@ == v@,
    decreases v@,
{
    let mut out: Vec<IntrinsicFn> = Vec::new();
    let mut i: usize = 0;
    while i < v.len()
        invariant
            i <= v.len(),
            out@ == v@.take(i as int),
        decreases v.len() - i,
    {
        out.push(v[i]);
        i = i + 1;
        assert(out@ =~= v@.take(i as int));
    }
    assert(out@ =~= v@);
    out
}

/// The mathematical values of a list.
pub open spec fn string_type_views(s: Seq<(String, Type)>) -> Seq<(Chars, TypeView)>
    decreases s, 1nat,
{
    string_type_seq(s)
}

/// The mathematical values of a list, one by one.
#[verifier::opaque]
pub open spec fn string_type_seq(s: Seq<(String, Type)>) -> Seq<(Chars, TypeView)>
    decreases s, 0nat,
{
    Seq::new(
        s.len(),
        |i: int|
            if 0 <= i < s.len() {
                (s[i].0@, s[i].1.model())
            } else {
                arbitrary()
            },
    )
}

/// Appending to a list appends to its mathematical values.
pub proof fn lemma_string_type_push(s: Seq<(String, Type)>, x: (String, Type))
    ensures
        string_type_views(s.push(x)) == string_type_views(s).push((x.0@, x.1.model())),
{
    reveal(string_type_seq);
    assert(string_type_views(s.push(x)) =~= string_type_views(s).push((x.0@, x.1.model())));
}

/// The mathematical values of a list are as many as the list holds, each in its
/// place.
pub proof fn lemma_string_type_views(s: Seq<(String, Type)>)
    ensures
        string_type_views(s).len() == s.len(),
        forall|i: int|
            0 <= i < s.len() ==> #[trigger] string_type_views(s)[i] == ((s[i].0@, s[i].1.model())),
{
    reveal(string_type_seq);
}

/// A copy of a list.
pub fn dup_string_type_list(v: &Vec<(String, Type)>) -> (r: Vec<(String, Type)>)
    ensures
        string_type_views(r@) == string_type_views(v@),
    decreases v@,
{
    let mut out: Vec<(String, Type)> = Vec::new();
    let mut i: usize = 0;
    proof {
        lemma_string_type_views(v@);
        lemma_string_type_views(out@);
    }
    assert(string_type_views(out@) =~= string_type_views(v@).take(0));
    while i < v.len()
        invariant
            i <= v.len(),
            string_type_views(out@) == string_type_views(v@).take(i as int),
        decreases v.len() - i,
    {
        let x = (v[i].0.clone(), v[i].1.dup());
        proof {
            lemma_string_type_push(out@, x);
            lemma_string_type_views(v@);
        }
        out.push(x);
        i = i + 1;
        assert(string_type_views(out@) =~= string_type_views(v@).take(i as int));
    }
    proof {
        lemma_string_type_views(v@);
    }
    assert(string_type_views(out@) =~= string_type_views(v@));
    out
}

/// The mathematical values of a list.
pub open spec fn string_opt_type_views(s: Seq<(String, Option<Type>)>) -> Seq<(Chars, Option<TypeView>)>
    decreases s, 1nat,
{
    string_opt_type_seq(s)
}

/// The mathematical values of a list, one by one.
#[verifier::opaque]
pub open spec fn string_opt_type_seq(s: Seq<(String, Option<Type>)>) -> Seq<(Chars, Option<TypeView>)>
    decreases s, 0nat,
{
    Seq::new(
        s.len(),
        |i: int|
            if 0 <= i < s.len() {
                (s[i].0@, match s[i].1 { Some(y) => Some(y.model()), None => None })
            } else {
                arbitrary()
            },
    )
}

/// Appending to a list appends to its mathematical values.
pub proof fn lemma_string_opt_type_push(s: Seq<(String, Option<Type>)>, x: (String, Option<Type>))
    ensures
        string_opt_type_views(s.push(x)) == string_opt_type_views(s).push((x.0@, match x.1 { Some(y) => Some(y.model()), None => None })),
{
    reveal(string_opt_type_seq);
    assert(string_opt_type_views(s.push(x)) =~= string_opt_type_views(s).push((x.0@, match x.1 { Some(y) => Some(y.model()), None => None })));
}

/// The mathematical values of a list are as many as the list holds, each in its
/// place.
pub proof fn lemma_string_opt_type_views(s: Seq<(String, Option<Type>)>)
    ensures
        string_opt_type_views(s).len() == s.len(),
        forall|i: int|
            0 <= i < s.len() ==> #[trigger] string_opt_type_views(s)[i] == ((s[i].0@, match s[i].1 { Some(y) => Some(y.model()), None => None })),
{
    reveal(string_opt_type_seq);
}

/// A copy of a list.
pub fn dup_string_opt_type_list(v: &Vec<(String, Option<Type>)>) -> (r: Vec<(String, Option<Type>)>)
    ensures
        string_opt_type_views(r@) == string_opt_type_views(v@),
    decreases v@,
{
    let mut out: Vec<(String, Option<Type>)> = Vec::new();
    let mut i: usize = 0;
    proof {
        lemma_string_opt_type_views(v@);
        lemma_string_opt_type_views(out@);
    }
    assert(string_opt_type_views(out@) =~= string_opt_type_views(v@).take(0));
    while i < v.len()
        invariant
            i <= v.len(),
            string_opt_type_views(out@) == string_opt_type_views(v@).take(i as int),
        decreases v.len() - i,
    {
        let x = (v[i].0.clone(), (match &v[i].1 { Some(y) => Some(y.dup()), None => None }));
        proof {
            lemma_string_opt_type_push(out@, x);
            lemma_string_opt_type_views(v@);
        }
        out.push(x);
        i = i + 1;
        assert(string_opt_type_views(out@) =~= string_opt_type_views(v@).take(i as int));
    }
    proof {
        lemma_string_opt_type_views(v@);
    }
    assert(string_opt_type_views(out@) =~= string_opt_type_views(v@));
    out
}

/// The mathematical values of a list.
pub open spec fn mir_local_views(s: Seq<MirLocal>) -> Seq<MirLocalView>
    decreases s, 1nat,
{
    mir_local_seq(s)
}

/// The mathematical values of a list, one by one.
#[verifier::opaque]
pub open spec fn mir_local_seq(s: Seq<MirLocal>) -> Seq<MirLocalView>
    decreases s, 0nat,
{
    Seq::new(
        s.len(),
        |i: int|
            if 0 <= i < s.len() {
                s[i].model()
            } else {
                arbitrary()
            },
    )
}

/// Appending to a list appends to its mathematical values.
pub proof fn lemma_mir_local_push(s: Seq<MirLocal>, x: MirLocal)
    ensures
        mir_local_views(s.push(x)) == mir_local_views(s).push(x.model()),
{
    reveal(mir_local_seq);
    assert(mir_local_views(s.push(x)) =~= mir_local_views(s).push(x.model()));
}

/// The mathematical values of a list are as many as the list holds, each in its
/// place.
pub proof fn lemma_mir_local_views(s: Seq<MirLocal>)
    ensures
        mir_local_views(s).len() == s.len(),
        forall|i: int|
            0 <= i < s.len() ==> #[trigger] mir_local_views(s)[i] == (s[i].model()),
{
    reveal(mir_local_seq);
}

/// A copy of a list.
pub fn dup_mir_local_list(v: &Vec<MirLocal>) -> (r: Vec<MirLocal>)
    ensures
        mir_local_views(r@) == mir_local_views(v@),
    decreases v@,
{
    let mut out: Vec<MirLocal> = Vec::new();
    let mut i: usize = 0;
    proof {
        lemma_mir_local_views(v@);
        lemma_mir_local_views(out@);
    }
    assert(mir_local_views(out@) =~= mir_local_views(v@).take(0));
    while i < v.len()
        invariant
            i <= v.len(),
            mir_local_views(out@) == mir_local_views(v@).take(i as int),
        decreases v.len() - i,
    {
        let x = v[i].dup();
        proof {
            lemma_mir_local_push(out@, x);
            lemma_mir_local_views(v@);
        }
        out.push(x);
        i = i + 1;
        assert(mir_local_views(out@) =~= mir_local_views(v@).take(i as int));
    }
    proof {
        lemma_mir_local_views(v@);
    }
    assert(mir_local_views(out@) =~= mir_local_views(v@));
    out
}

/// The mathematical values of a list.
pub open spec fn mir_block_views(s: Seq<MirBlock>) -> Seq<MirBlockView>
    decreases s, 1nat,
{
    mir_block_seq(s)
}

/// The mathematical values of a list, one by one.
#[verifier::opaque]
pub open spec fn mir_block_seq(s: Seq<MirBlock>) -> Seq<MirBlockView>
    decreases s, 0nat,
{
    Seq::new(
        s.len(),
        |i: int|
            if 0 <= i < s.len() {
                s[i].model()
            } else {
                arbitrary()
            },
    )
}

/// Appending to a list appends to its mathematical values.
pub proof fn lemma_mir_block_push(s: Seq<MirBlock>, x: MirBlock)
    ensures
        mir_block_views(s.push(x)) == mir_block_views(s).push(x.model()),
{
    reveal(mir_block_seq);
    assert(mir_block_views(s.push(x)) =~= mir_block_views(s).push(x.model()));
}

/// The mathematical values of a list are as many as the list holds, each in its
/// place.
pub proof fn lemma_mir_block_views(s: Seq<MirBlock>)
    ensures
        mir_block_views(s).len() == s.len(),
        forall|i: int|
            0 <= i < s.len() ==> #[trigger] mir_block_views(s)[i] == (s[i].model()),
{
    reveal(mir_block_seq);
}

/// A copy of a list.
pub fn dup_mir_block_list(v: &Vec<MirBlock>) -> (r: Vec<MirBlock>)
    ensures
        mir_block_views(r@) == mir_block_views(v@),
    decreases v@,
{
    let mut out: Vec<MirBlock> = Vec::new();
    let mut i: usize = 0;
    proof {
        lemma_mir_block_views(v@);
        lemma_mir_block_views(out@);
    }
    assert(mir_block_views(out@) =~= mir_block_views(v@).take(0));
    while i < v.len()
        invariant
            i <= v.len(),
            mir_block_views(out@) == mir_block_views(v@).take(i as int),
        decreases v.len() - i,
    {
        let x = v[i].dup();
        proof {
            lemma_mir_block_push(out@, x);
            lemma_mir_block_views(v@);
        }
        out.push(x);
        i = i + 1;
        assert(mir_block_views(out@) =~= mir_block_views(v@).take(i as int));
    }
    proof {
        lemma_mir_block_views(v@);
    }
    assert(mir_block_views(out@) =~= mir_block_views(v@));
    out
}

/// The mathematical values of a list.
pub open spec fn mir_stmt_views(s: Seq<MirStmt>) -> Seq<MirStmtView>
    decreases s, 1nat,
{
    mir_stmt_seq(s)
}

/// The mathematical values of a list, one by one.
#[verifier::opaque]
pub open spec fn mir_stmt_seq(s: Seq<MirStmt>) -> Seq<MirStmtView>
    decreases s, 0nat,
{
    Seq::new(
        s.len(),
        |i: int|
            if 0 <= i < s.len() {
                s[i].model()
            } else {
                arbitrary()
            },
    )
}

/// Appending to a list appends to its mathematical values.
pub proof fn lemma_mir_stmt_push(s: Seq<MirStmt>, x: MirStmt)
    ensures
        mir_stmt_views(s.push(x)) == mir_stmt_views(s).push(x.model()),
{
    reveal(mir_stmt_seq);
    assert(mir_stmt_views(s.push(x)) =~= mir_stmt_views(s).push(x.model()));
}

/// The mathematical values of a list are as many as the list holds, each in its
/// place.
pub proof fn lemma_mir_stmt_views(s: Seq<MirStmt>)
    ensures
        mir_stmt_views(s).len() == s.len(),
        forall|i: int|
            0 <= i < s.len() ==> #[trigger] mir_stmt_views(s)[i] == (s[i].model()),
{
    reveal(mir_stmt_seq);
}

/// A copy of a list.
pub fn dup_mir_stmt_list(v: &Vec<MirStmt>) -> (r: Vec<MirStmt>)
    ensures
        mir_stmt_views(r@) == mir_stmt_views(v@),
    decreases v@,
{
    let mut out: Vec<MirStmt> = Vec::new();
    let mut i: usize = 0;
    proof {
        lemma_mir_stmt_views(v@);
        lemma_mir_stmt_views(out@);
    }
    assert(mir_stmt_views(out@) =~= mir_stmt_views(v@).take(0));
    while i < v.len()
        invariant
            i <= v.len(),
            mir_stmt_views(out@) == mir_stmt_views(v@).take(i as int),
        decreases v.len() - i,
    {
        let x = v[i].dup();
        proof {
            lemma_mir_stmt_push(out@, x);
            lemma_mir_stmt_views(v@);
        }
        out.push(x);
        i = i + 1;
        assert(mir_stmt_views(out@) =~= mir_stmt_views(v@).take(i as int));
    }
    proof {
        lemma_mir_stmt_views(v@);
    }
    assert(mir_stmt_views(out@) =~= mir_stmt_views(v@));
    out
}

/// The mathematical values of a list.
pub open spec fn literal_usize_views(s: Seq<(Literal, usize)>) -> Seq<(LiteralView, usize)>
    decreases s, 1nat,
{
    literal_usize_seq(s)
}

/// The mathematical values of a list, one by one.
#[verifier::opaque]
pub open spec fn literal_usize_seq(s: Seq<(Literal, usize)>) -> Seq<(LiteralView, usize)>
    decreases s, 0nat,
{
    Seq::new(
        s.len(),
        |i: int|
            if 0 <= i < s.len() {
                (s[i].0.model(), s[i].1)
            } else {
                arbitrary()
            },
    )
}

/// Appending to a list appends to its mathematical values.
pub proof fn lemma_literal_usize_push(s: Seq<(Literal, usize)>, x: (Literal, usize))
    ensures
        literal_usize_views(s.push(x)) == literal_usize_views(s).push((x.0.model(), x.1)),
{
    reveal(literal_usize_seq);
    assert(literal_usize_views(s.push(x)) =~= literal_usize_views(s).push((x.0.model(), x.1)));
}

/// The mathematical values of a list are as many as the list holds, each in its
/// place.
pub proof fn lemma_literal_usize_views(s: Seq<(Literal, usize)>)
    ensures
        literal_usize_views(s).len() == s.len(),
        forall|i: int|
            0 <= i < s.len() ==> #[trigger] literal_usize_views(s)[i] == ((s[i].0.model(), s[i].1)),
{
    reveal(literal_usize_seq);
}

/// A copy of a list.
pub fn dup_literal_usize_list(v: &Vec<(Literal, usize)>) -> (r: Vec<(Literal, usize)>)
    ensures
        literal_usize_views(r@) == literal_usize_views(v@),
    decreases v@,
{
    let mut out: Vec<(Literal, usize)> = Vec::new();
    let mut i: usize = 0;
    proof {
        lemma_literal_usize_views(v@);
        lemma_literal_usize_views(out@);
    }
    assert(literal_usize_views(out@) =~= literal_usize_views(v@).take(0));
    while i < v.len()
        invariant
            i <= v.len(),
            literal_usize_views(out@) == literal_usize_views(v@).take(i as int),
        decreases v.len() - i,
    {
        let x = (v[i].0.dup(), v[i].1);
        proof {
            lemma_literal_usize_push(out@, x);
            lemma_literal_usize_views(v@);
        }
        out.push(x);
        i = i + 1;
        assert(literal_usize_views(out@) =~= literal_usize_views(v@).take(i as int));
    }
    proof {
        lemma_literal_usize_views(v@);
    }
    assert(literal_usize_views(out@) =~= literal_usize_views(v@));
    out
}

/// The mathematical values of a list.
pub open spec fn mir_operand_views(s: Seq<MirOperand>) -> Seq<MirOperandView>
    decreases s, 1nat,
{
    mir_operand_seq(s)
}

/// The mathematical values of a list, one by one.
#[verifier::opaque]
pub open spec fn mir_operand_seq(s: Seq<MirOperand>) -> Seq<MirOperandView>
    decreases s, 0nat,
{
    Seq::new(
        s.len(),
        |i: int|
            if 0 <= i < s.len() {
                s[i].model()
            } else {
                arbitrary()
            },
    )
}

/// Appending to a list appends to its mathematical values.
pub proof fn lemma_mir_operand_push(s: Seq<MirOperand>, x: MirOperand)
    ensures
        mir_operand_views(s.push(x)) == mir_operand_views(s).push(x.model()),
{
    reveal(mir_operand_seq);
    assert(mir_operand_views(s.push(x)) =~= mir_operand_views(s).push(x.model()));
}

/// The mathematical values of a list are as many as the list holds, each in its
/// place.
pub proof fn lemma_mir_operand_views(s: Seq<MirOperand>)
    ensures
        mir_operand_views(s).len() == s.len(),
        forall|i: int|
            0 <= i < s.len() ==> #[trigger] mir_operand_views(s)[i] == (s[i].model()),
{
    reveal(mir_operand_seq);
}

/// A copy of a list.
pub fn dup_mir_operand_list(v: &Vec<MirOperand>) -> (r: Vec<MirOperand>)
    ensures
        mir_operand_views(r@) == mir_operand_views(v@),
    decreases v@,
{
    let mut out: Vec<MirOperand> = Vec::new();
    let mut i: usize = 0;
    proof {
        lemma_mir_operand_views(v@);
        lemma_mir_operand_views(out@);
    }
    assert(mir_operand_views(out@) =~= mir_operand_views(v@).take(0));
    while i < v.len()
        invariant
            i <= v.len(),
            mir_operand_views(out@) == mir_operand_views(v@).take(i as int),
        decreases v.len() - i,
    {
        let x = v[i].dup();
        proof {
            lemma_mir_operand_push(out@, x);
            lemma_mir_operand_views(v@);
        }
        out.push(x);
        i = i + 1;
        assert(mir_operand_views(out@) =~= mir_operand_views(v@).take(i as int));
    }
    proof {
        lemma_mir_operand_views(v@);
    }
    assert(mir_operand_views(out@) =~= mir_operand_views(v@));
    out
}

/// The mathematical values of a list.
pub open spec fn string_mir_operand_views(s: Seq<(String, MirOperand)>) -> Seq<(Chars, MirOperandView)>
    decreases s, 1nat,
{
    string_mir_operand_seq(s)
}

/// The mathematical values of a list, one by one.
#[verifier::opaque]
pub open spec fn string_mir_operand_seq(s: Seq<(String, MirOperand)>) -> Seq<(Chars, MirOperandView)>
    decreases s, 0nat,
{
    Seq::new(
        s.len(),
        |i: int|
            if 0 <= i < s.len() {
                (s[i].0@, s[i].1.model())
            } else {
                arbitrary()
            },
    )
}

/// Appending to a list appends to its mathematical values.
pub proof fn lemma_string_mir_operand_push(s: Seq<(String, MirOperand)>, x: (String, MirOperand))
    ensures
        string_mir_operand_views(s.push(x)) == string_mir_operand_views(s).push((x.0@, x.1.model())),
{
    reveal(string_mir_operand_seq);
    assert(string_mir_operand_views(s.push(x)) =~= string_mir_operand_views(s).push((x.0@, x.1.model())));
}

/// The mathematical values of a list are as many as the list holds, each in its
/// place.
pub proof fn lemma_string_mir_operand_views(s: Seq<(String, MirOperand)>)
    ensures
        string_mir_operand_views(s).len() == s.len(),
        forall|i: int|
            0 <= i < s.len() ==> #[trigger] string_mir_operand_views(s)[i] == ((s[i].0@, s[i].1.model())),
{
    reveal(string_mir_operand_seq);
}

/// A copy of a list.
pub fn dup_string_mir_operand_list(v: &Vec<(String, MirOperand)>) -> (r: Vec<(String, MirOperand)>)
    ensures
        string_mir_operand_views(r@) == string_mir_operand_views(v@),
    decreases v@,
{
    let mut out: Vec<(String, MirOperand)> = Vec::new();
    let mut i: usize = 0;
    proof {
        lemma_string_mir_operand_views(v@);
        lemma_string_mir_operand_views(out@);
    }
    assert(string_mir_operand_views(out@) =~= string_mir_operand_views(v@).take(0));
    while i < v.len()
        invariant
            i <= v.len(),
            string_mir_operand_views(out@) == string_mir_operand_views(v@).take(i as int),
        decreases v.len() - i,
    {
        let x = (v[i].0.clone(), v[i].1.dup());
        proof {
            lemma_string_mir_operand_push(out@, x);
            lemma_string_mir_operand_views(v@);
        }
        out.push(x);
        i = i + 1;
        assert(string_mir_operand_views(out@) =~= string_mir_operand_views(v@).take(i as int));
    }
    proof {
        lemma_string_mir_operand_views(v@);
    }
    assert(string_mir_operand_views(out@) =~= string_mir_operand_views(v@));
    out
}

/// The mathematical values of a list.
pub open spec fn usize_mir_operand_views(s: Seq<(usize, MirOperand)>) -> Seq<(usize, MirOperandView)>
    decreases s, 1nat,
{
    usize_mir_operand_seq(s)
}

/// The mathematical values of a list, one by one.
#[verifier::opaque]
pub open spec fn usize_mir_operand_seq(s: Seq<(usize, MirOperand)>) -> Seq<(usize, MirOperandView)>
    decreases s, 0nat,
{
    Seq::new(
        s.len(),
        |i: int|
            if 0 <= i < s.len() {
                (s[i].0, s[i].1.model())
            } else {
                arbitrary()
            },
    )
}

/// Appending to a list appends to its mathematical values.
pub proof fn lemma_usize_mir_operand_push(s: Seq<(usize, MirOperand)>, x: (usize, MirOperand))
    ensures
        usize_mir_operand_views(s.push(x)) == usize_mir_operand_views(s).push((x.0, x.1.model())),
{
    reveal(usize_mir_operand_seq);
    assert(usize_mir_operand_views(s.push(x)) =~= usize_mir_operand_views(s).push((x.0, x.1.model())));
}

/// The mathematical values of a list are as many as the list holds, each in its
/// place.
pub proof fn lemma_usize_mir_operand_views(s: Seq<(usize, MirOperand)>)
    ensures
        usize_mir_operand_views(s).len() == s.len(),
        forall|i: int|
            0 <= i < s.len() ==> #[trigger] usize_mir_operand_views(s)[i] == ((s[i].0, s[i].1.model())),
{
    reveal(usize_mir_operand_seq);
}

/// A copy of a list.
pub fn dup_usize_mir_operand_list(v: &Vec<(usize, MirOperand)>) -> (r: Vec<(usize, MirOperand)>)
    ensures
        usize_mir_operand_views(r@) == usize_mir_operand_views(v@),
    decreases v@,
{
    let mut out: Vec<(usize, MirOperand)> = Vec::new();
    let mut i: usize = 0;
    proof {
        lemma_usize_mir_operand_views(v@);
        lemma_usize_mir_operand_views(out@);
    }
    assert(usize_mir_operand_views(out@) =~= usize_mir_operand_views(v@).take(0));
    while i < v.len()
        invariant
            i <= v.len(),
            usize_mir_operand_views(out@) == usize_mir_operand_views(v@).take(i as int),
        decreases v.len() - i,
    {
        let x = (v[i].0, v[i].1.dup());
        proof {
            lemma_usize_mir_operand_push(out@, x);
            lemma_usize_mir_operand_views(v@);
        }
        out.push(x);
        i = i + 1;
        assert(usize_mir_operand_views(out@) =~= usize_mir_operand_views(v@).take(i as int));
    }
    proof {
        lemma_usize_mir_operand_views(v@);
    }
    assert(usize_mir_operand_views(out@) =~= usize_mir_operand_views(v@));
    out
}

} // verus!
