//! What the basic blocks of a typed program are.
//!
//! Each rule takes the state of the function that is being built and gives the
//! state after it, or the message of a failure. A rule whose code does not fall
//! through to what follows it gives `Diverged`.
use crate::ast::{LiteralView, PatternView, TypeView};
use crate::hir::{
    HirBlockView, HirCallArgView, HirEnumView, HirExprKindView, HirExprView, HirFieldView,
    HirFnView, HirImplView, HirMatchArmView, HirModelView, HirProgramView, HirStmt, HirStmtView,
    HirStructView, HirVariantView, IntrinsicDeclView, IntrinsicFn,
};
use crate::mir::{
    LocalKind, MirBlockView, MirBodyView, MirEnumView, MirFnView, MirLocalView, MirOperandView,
    MirPlaceView, MirRvalueView, MirStmtView, MirStructView, MirTerminatorView, SsaLocal,
};
use crate::text::{char_debug, Chars, decimal, str_debug};
use vstd::prelude::*;

verus! {

/// The value of a part of the program, or that control never comes out of it.
pub enum Diverging<T> {
    /// The value.
    Value(T),
    /// Control does not come out; the current block has its terminator.
    Diverged,
}

/// A loop around: where `break` goes, and how many scopes are around its body.
#[derive(Clone, Copy, PartialEq, Eq, Structural, Debug)]
pub struct LoopCtx {
    pub break_target: usize,
    pub scope_depth: usize,
}

/// A function that is being built.
pub struct Bs {
    pub locals: Seq<MirLocalView>,
    pub blocks: Seq<MirBlockView>,
    /// The block that statements go to.
    pub cur: usize,
    /// The names that are known, by scope, with the locals that they stand for.
    pub scope: Seq<Seq<(Chars, usize)>>,
    /// The locals that each scope drops at its end.
    pub vars: Seq<Seq<usize>>,
    /// The version of each local.
    pub versions: Seq<u32>,
    /// The versions whose values have been moved out or dropped.
    pub moved: Set<SsaLocal>,
    pub loops: Seq<LoopCtx>,
    pub in_unsafe: bool,
    pub in_forward: bool,
}

/// What a rule gives.
pub type Step<T> = Result<(Bs, Diverging<T>), Chars>;

/// The message where a local would get more versions than can be counted.
pub open spec fn too_many_versions() -> Chars {
    "too many versions of a local"@
}

impl Bs {
    /// Nothing built yet.
    pub open spec fn start(in_forward: bool) -> Bs {
        Bs {
            locals: Seq::empty(),
            blocks: Seq::empty(),
            cur: 0,
            scope: seq![Seq::empty()],
            vars: seq![Seq::empty()],
            versions: Seq::empty(),
            moved: Set::empty(),
            loops: Seq::empty(),
            in_unsafe: false,
            in_forward,
        }
    }

    /// The number of the next block.
    pub open spec fn next_block(self) -> usize {
        self.blocks.len() as usize
    }

    /// With a new block, which is not finished.
    pub open spec fn new_block(self) -> Bs {
        Bs {
            blocks: self.blocks.push(
                MirBlockView { stmts: Seq::empty(), terminator: MirTerminatorView::Pending },
            ),
            ..self
        }
    }

    pub open spec fn switch(self, block: usize) -> Bs {
        Bs { cur: block, ..self }
    }

    /// The current block.
    pub open spec fn block(self) -> MirBlockView {
        self.blocks[self.cur as int]
    }

    pub open spec fn push_stmt(self, s: MirStmtView) -> Bs {
        Bs {
            blocks: self.blocks.update(
                self.cur as int,
                MirBlockView { stmts: self.block().stmts.push(s), ..self.block() },
            ),
            ..self
        }
    }

    pub open spec fn set_term(self, t: MirTerminatorView) -> Bs {
        Bs {
            blocks: self.blocks.update(
                self.cur as int,
                MirBlockView { terminator: t, ..self.block() },
            ),
            ..self
        }
    }

    /// Whether the current block is not finished.
    pub open spec fn pending(self) -> bool {
        self.block().terminator is Pending
    }

    /// With a jump to `block`, if the current block is not finished.
    pub open spec fn goto_if_pending(self, block: usize) -> Bs {
        if self.pending() {
            self.set_term(MirTerminatorView::Goto(block))
        } else {
            self
        }
    }

    /// The number of the next local.
    pub open spec fn next_local(self) -> usize {
        self.locals.len() as usize
    }

    /// With a new local; an owned one is dropped at the end of its scope.
    pub open spec fn new_local(self, local: MirLocalView, owned: bool) -> Bs {
        Bs {
            locals: self.locals.push(local),
            versions: self.versions.push(0),
            vars: if owned {
                self.vars.update(
                    self.vars.len() - 1,
                    self.vars.last().push(self.next_local()),
                )
            } else {
                self.vars
            },
            ..self
        }
    }

    /// With a new local for a value in between, which nothing drops.
    pub open spec fn new_temp(self, ty: TypeView) -> Bs {
        self.new_local(
            MirLocalView { name: None, ty, mutable: false, kind: LocalKind::Temp },
            false,
        )
    }

    /// With a new local for a value in between that the scope drops at its end.
    pub open spec fn new_held(self, ty: TypeView) -> Bs {
        self.new_local(
            MirLocalView { name: None, ty, mutable: false, kind: LocalKind::Temp },
            true,
        )
    }

    /// With a new variable, not yet known by its name.
    pub open spec fn new_var(self, name: Chars, ty: TypeView, mutable: bool) -> Bs {
        self.new_local(
            MirLocalView { name: Some(name), ty, mutable, kind: LocalKind::Var },
            true,
        )
    }

    /// The current version of a local.
    pub open spec fn ssa(self, id: usize) -> SsaLocal {
        SsaLocal { base_id: id, version: self.versions[id as int] }
    }

    /// With the next version of a local, if there is one.
    pub open spec fn bump(self, id: usize) -> Option<Bs> {
        let v = self.versions[id as int];
        if v < u32::MAX {
            Some(Bs { versions: self.versions.update(id as int, (v + 1) as u32), ..self })
        } else {
            None
        }
    }

    /// With a value assigned to the next version of a local.
    pub open spec fn define(self, id: usize, value: MirRvalueView) -> Option<Bs> {
        match self.bump(id) {
            None => None,
            Some(b) => Some(
                b.push_stmt(MirStmtView::Assign { dest: MirPlaceView::Ssa(b.ssa(id)), value }),
            ),
        }
    }

    /// With a name for a local in the innermost scope.
    pub open spec fn bind(self, name: Chars, id: usize) -> Bs {
        Bs {
            scope: self.scope.update(self.scope.len() - 1, self.scope.last().push((name, id))),
            ..self
        }
    }

    /// The local that a name stands for, seen from the innermost scope.
    pub open spec fn lookup(self, name: Chars) -> Option<usize> {
        lookup_in(self.scope, name)
    }

    pub open spec fn mark_moved(self, s: SsaLocal) -> Bs {
        Bs { moved: self.moved.insert(s), ..self }
    }

    pub open spec fn push_scope(self) -> Bs {
        Bs { scope: self.scope.push(Seq::empty()), vars: self.vars.push(Seq::empty()), ..self }
    }

    /// With a local dropped, unless its value is gone.
    pub open spec fn drop_var(self, id: usize) -> Bs {
        let s = self.ssa(id);
        if self.moved.contains(s) {
            self
        } else {
            self.push_stmt(MirStmtView::Drop(MirPlaceView::Ssa(s))).mark_moved(s)
        }
    }

    /// With the first `k` of those locals dropped, the last first.
    pub open spec fn drop_vars(self, ids: Seq<usize>, k: nat) -> Bs
        decreases k,
    {
        if k == 0 {
            self
        } else {
            self.drop_var(ids[k - 1]).drop_vars(ids, (k - 1) as nat)
        }
    }

    /// With the locals of the scopes from `depth` up to `top` dropped, the
    /// innermost first.
    pub open spec fn drop_scopes(self, top: nat, depth: nat) -> Bs
        decreases top,
    {
        if top <= depth {
            self
        } else {
            let ids = self.vars[top - 1];
            self.drop_vars(ids, ids.len()).drop_scopes((top - 1) as nat, depth)
        }
    }

    /// Behind the innermost scope, with its locals dropped.
    pub open spec fn pop_scope(self) -> Bs {
        let b = self.drop_vars(self.vars.last(), self.vars.last().len());
        Bs { scope: b.scope.drop_last(), vars: b.vars.drop_last(), ..b }
    }

    pub open spec fn push_loop(self, end: usize) -> Bs {
        Bs {
            loops: self.loops.push(
                LoopCtx { break_target: end, scope_depth: self.vars.len() as usize },
            ),
            ..self
        }
    }

    pub open spec fn pop_loop(self) -> Bs {
        Bs { loops: self.loops.drop_last(), ..self }
    }
}

/// The local that a name stands for in one scope: the one bound last.
pub open spec fn lookup_level(level: Seq<(Chars, usize)>, name: Chars) -> Option<usize>
    decreases level.len(),
{
    if level.len() == 0 {
        None
    } else if level.last().0 == name {
        Some(level.last().1)
    } else {
        lookup_level(level.drop_last(), name)
    }
}

/// The local that a name stands for, the innermost scope first.
pub open spec fn lookup_in(scope: Seq<Seq<(Chars, usize)>>, name: Chars) -> Option<usize>
    decreases scope.len(),
{
    if scope.len() == 0 {
        None
    } else {
        match lookup_level(scope.last(), name) {
            Some(id) => Some(id),
            None => lookup_in(scope.drop_last(), name),
        }
    }
}

// What the functions of a program share.

/// A variant, with its enumeration and its place in it.
pub struct VariantView {
    pub enum_name: Chars,
    pub name: Chars,
    pub index: usize,
    pub ty: Option<TypeView>,
}

/// What is known of the program around a function.
pub struct Ctx {
    pub structs: Seq<HirStructView>,
    pub variants: Seq<VariantView>,
    pub intrinsics: Seq<IntrinsicDeclView>,
    pub constants: Seq<Chars>,
}

/// The first `n` variants of an enumeration.
pub open spec fn enum_variants(e: HirEnumView, n: nat) -> Seq<VariantView> {
    Seq::new(
        n,
        |i: int|
            VariantView {
                enum_name: e.name,
                name: e.variants[i].name,
                index: i as usize,
                ty: e.variants[i].ty,
            },
    )
}

/// The variants of the first `n` enumerations.
pub open spec fn all_variants(enums: Seq<HirEnumView>, n: nat) -> Seq<VariantView>
    decreases n,
{
    if n == 0 {
        Seq::empty()
    } else {
        all_variants(enums, (n - 1) as nat) + enum_variants(enums[n - 1], enums[n - 1].variants.len())
    }
}

/// What a program shows its functions.
pub open spec fn ctx_of(hir: HirProgramView) -> Ctx {
    Ctx {
        structs: hir.structs,
        variants: all_variants(hir.enums, hir.enums.len()),
        intrinsics: hir.intrinsics,
        constants: hir.constants,
    }
}

/// The last of the first `n` structures with that name.
pub open spec fn struct_named(structs: Seq<HirStructView>, n: nat, name: Chars) -> Option<
    HirStructView,
>
    decreases n,
{
    if n == 0 {
        None
    } else if structs[n - 1].name == name {
        Some(structs[n - 1])
    } else {
        struct_named(structs, (n - 1) as nat, name)
    }
}

/// The type of the last of the first `n` fields with that name.
pub open spec fn field_named(fields: Seq<HirFieldView>, n: nat, name: Chars) -> Option<TypeView>
    decreases n,
{
    if n == 0 {
        None
    } else if fields[n - 1].name == name {
        Some(fields[n - 1].ty)
    } else {
        field_named(fields, (n - 1) as nat, name)
    }
}

/// The type of a field of a structure.
pub open spec fn field_type(c: Ctx, struct_name: Chars, field: Chars) -> Option<TypeView> {
    match struct_named(c.structs, c.structs.len(), struct_name) {
        None => None,
        Some(s) => field_named(s.fields, s.fields.len(), field),
    }
}

/// How many of the first `n` variants have that name.
pub open spec fn count_variants(vs: Seq<VariantView>, n: nat, name: Chars) -> nat
    decreases n,
{
    if n == 0 {
        0
    } else {
        count_variants(vs, (n - 1) as nat, name) + (if vs[n - 1].name == name {
            1nat
        } else {
            0
        })
    }
}

/// The enumeration of the last of the first `n` variants with that name.
pub open spec fn variant_owner(vs: Seq<VariantView>, n: nat, name: Chars) -> Option<Chars>
    decreases n,
{
    if n == 0 {
        None
    } else if vs[n - 1].name == name {
        Some(vs[n - 1].enum_name)
    } else {
        variant_owner(vs, (n - 1) as nat, name)
    }
}

/// The enumeration of the variant with that name, if just one variant of the
/// program has it.
pub open spec fn sole_owner(c: Ctx, name: Chars) -> Option<Chars> {
    if count_variants(c.variants, c.variants.len(), name) == 1 {
        variant_owner(c.variants, c.variants.len(), name)
    } else {
        None
    }
}

/// The place of the last of the first `n` variants with those names.
pub open spec fn variant_index(vs: Seq<VariantView>, n: nat, enum_name: Chars, name: Chars) -> Option<
    usize,
>
    decreases n,
{
    if n == 0 {
        None
    } else if vs[n - 1].enum_name == enum_name && vs[n - 1].name == name {
        Some(vs[n - 1].index)
    } else {
        variant_index(vs, (n - 1) as nat, enum_name, name)
    }
}

/// The type of the value of the last of the first `n` variants with those names
/// that has a value.
pub open spec fn variant_payload(vs: Seq<VariantView>, n: nat, enum_name: Chars, name: Chars) -> Option<
    TypeView,
>
    decreases n,
{
    if n == 0 {
        None
    } else if vs[n - 1].enum_name == enum_name && vs[n - 1].name == name && vs[n - 1].ty is Some {
        vs[n - 1].ty
    } else {
        variant_payload(vs, (n - 1) as nat, enum_name, name)
    }
}

// What is built in.

/// The name of a function with its qualifier.
pub open spec fn full_name(qualifier: Option<Chars>, func: Chars) -> Chars {
    match qualifier {
        Some(q) => q + "::"@ + func,
        None => func,
    }
}

/// The first function that is built in with that name, from the `i`-th on.
pub open spec fn intrinsic_from(list: Seq<IntrinsicDeclView>, i: int, name: Chars) -> Option<
    IntrinsicDeclView,
>
    decreases list.len() - i,
{
    if i < 0 || i >= list.len() {
        None
    } else if list[i].name == name {
        Some(list[i])
    } else {
        intrinsic_from(list, i + 1, name)
    }
}

/// Whether a call names a constant that is built in: it has no arguments and is
/// no method.
pub open spec fn is_constant_ref(
    c: Ctx,
    qualifier: Option<Chars>,
    func: Chars,
    is_method: bool,
    args: nat,
) -> bool {
    !is_method && args == 0 && c.constants.contains(full_name(qualifier, func))
}

/// Which function that is built in a call means, if any, or why it may not be
/// called here.
pub open spec fn resolve_intrinsic(
    c: Ctx,
    qualifier: Option<Chars>,
    func: Chars,
    in_forward: bool,
    in_unsafe: bool,
    diverges: bool,
) -> Result<Option<IntrinsicFn>, Chars> {
    let name = full_name(qualifier, func);
    match intrinsic_from(c.intrinsics, 0, name) {
        None => Ok(None),
        Some(d) => if d.unsafe_only && !in_unsafe {
            Err("intrinsic `"@ + name + "` requires an unsafe block"@)
        } else if d.forward_only && !in_forward {
            Err("intrinsic `"@ + name + "` is only allowed in forward"@)
        } else if d.never_returns && !diverges {
            Err("intrinsic `"@ + name + "` must have type never"@)
        } else {
            Ok(Some(d.id))
        },
    }
}

// Patterns and literals.

/// The items of a list as the `Debug` format shows them.
pub open spec fn list_debug(items: Seq<Chars>, n: nat) -> Chars
    decreases n,
{
    if n == 0 {
        Seq::empty()
    } else if n == 1 {
        items[0]
    } else {
        list_debug(items, (n - 1) as nat) + ", "@ + items[n - 1]
    }
}

pub open spec fn option_debug(o: Option<Chars>) -> Chars {
    match o {
        Some(s) => "Some("@ + str_debug(s) + ")"@,
        None => "None"@,
    }
}

/// An integer in decimal, with its sign where it is negative.
pub open spec fn signed_decimal(v: i128) -> Chars {
    if v < 0 {
        "-"@ + decimal((0 - v) as nat)
    } else {
        decimal(v as nat)
    }
}

/// A pattern as messages show it.
pub open spec fn pattern_debug(p: PatternView) -> Chars {
    match p {
        PatternView::Wildcard => "Wildcard"@,
        PatternView::IntLiteral(v) => "IntLiteral("@ + signed_decimal(v) + ")"@,
        PatternView::BoolLiteral(v) => if v {
            "BoolLiteral(true)"@
        } else {
            "BoolLiteral(false)"@
        },
        PatternView::CharLiteral(c) => "CharLiteral("@ + char_debug(c) + ")"@,
        PatternView::EnumVariant { enum_name, variant_name } => "EnumVariant { enum_name: "@
            + str_debug(enum_name) + ", variant_name: "@ + str_debug(variant_name) + " }"@,
        PatternView::EnumVariantWithBinding { enum_name, variant_name, binding } => {
            "EnumVariantWithBinding { enum_name: "@ + str_debug(enum_name) + ", variant_name: "@
                + str_debug(variant_name) + ", binding: "@ + str_debug(binding) + " }"@
        },
        PatternView::Struct { name, fields } => {
            let items = Seq::new(
                fields.len(),
                |i: int|
                    "("@ + str_debug(fields[i].0) + ", "@ + str_debug(fields[i].1) + ")"@,
            );
            "Struct { name: "@ + str_debug(name) + ", fields: ["@ + list_debug(items, items.len())
                + "] }"@
        },
        PatternView::Tuple(list) => {
            let items = Seq::new(list.len(), |i: int| option_debug(list[i]));
            "Tuple(["@ + list_debug(items, items.len()) + "])"@
        },
        PatternView::Array(list) => {
            let items = Seq::new(list.len(), |i: int| option_debug(list[i]));
            "Array(["@ + list_debug(items, items.len()) + "])"@
        },
    }
}

/// The literal of an integer type, if the value fits.
pub open spec fn int_literal(v: i128, ty: TypeView) -> Option<LiteralView> {
    match ty {
        TypeView::I8 => if i8::MIN <= v <= i8::MAX {
            Some(LiteralView::Int8(v as i8))
        } else {
            None
        },
        TypeView::I16 => if i16::MIN <= v <= i16::MAX {
            Some(LiteralView::Int16(v as i16))
        } else {
            None
        },
        TypeView::I32 => if i32::MIN <= v <= i32::MAX {
            Some(LiteralView::Int32(v as i32))
        } else {
            None
        },
        TypeView::I64 => if i64::MIN <= v <= i64::MAX {
            Some(LiteralView::Int64(v as i64))
        } else {
            None
        },
        TypeView::I128 => Some(LiteralView::Int128(v)),
        TypeView::ISize => if isize::MIN <= v <= isize::MAX {
            Some(LiteralView::Isize(v as isize))
        } else {
            None
        },
        TypeView::U8 => if 0 <= v <= u8::MAX {
            Some(LiteralView::Uint8(v as u8))
        } else {
            None
        },
        TypeView::U16 => if 0 <= v <= u16::MAX {
            Some(LiteralView::Uint16(v as u16))
        } else {
            None
        },
        TypeView::U32 => if 0 <= v <= u32::MAX {
            Some(LiteralView::Uint32(v as u32))
        } else {
            None
        },
        TypeView::U64 => if 0 <= v <= u64::MAX {
            Some(LiteralView::Uint64(v as u64))
        } else {
            None
        },
        TypeView::U128 => if 0 <= v {
            Some(LiteralView::Uint128(v as u128))
        } else {
            None
        },
        TypeView::USize => if 0 <= v <= usize::MAX {
            Some(LiteralView::Usize(v as usize))
        } else {
            None
        },
        _ => None,
    }
}

/// The message where a pattern's integer is none of the type that is matched.
pub open spec fn int_literal_message(v: i128) -> Chars {
    "integer pattern "@ + signed_decimal(v) + " does not fit the matched type"@
}

// Places.

/// The local that a place lies in, if it lies in one.
pub open spec fn place_base(p: MirPlaceView) -> Option<SsaLocal>
    decreases p,
{
    match p {
        MirPlaceView::Ssa(s) => Some(s),
        MirPlaceView::Static(_) => None,
        MirPlaceView::Field { base, field } => place_base(*base),
        MirPlaceView::Index { base, index } => place_base(*base),
        MirPlaceView::EnumPayload { base, enum_name, variant_name } => place_base(*base),
    }
}

/// The operand that moves the current version of a local out.
pub open spec fn move_of(s: SsaLocal) -> MirOperandView {
    MirOperandView::Move(MirPlaceView::Ssa(s))
}

/// A value put into a new local.
pub open spec fn in_temp(b: Bs, ty: TypeView, value: MirRvalueView) -> Step<MirOperandView> {
    let id = b.next_local();
    match b.new_temp(ty).define(id, value) {
        None => Err(too_many_versions()),
        Some(b1) => Ok((b1, Diverging::Value(move_of(b1.ssa(id))))),
    }
}

/// Whether an expression names a place by itself.
pub open spec fn is_place_kind(e: HirExprView) -> bool {
    e.kind is Ident || e.kind is FieldAccess || e.kind is Index
}

/// How a place is ordered among the rules for one expression.
pub open spec fn place_rank(e: HirExprView) -> nat {
    if is_place_kind(e) {
        0
    } else {
        8
    }
}

/// The place of an expression: of a variable, a field or an element, or the one
/// that the value of any other expression is put in.
pub open spec fn place(c: Ctx, b: Bs, e: HirExprView) -> Step<MirPlaceView>
    decreases e, place_rank(e) + 1,
{
    place_rule(c, b, e)
}

#[verifier::opaque]
pub open spec fn place_rule(c: Ctx, b: Bs, e: HirExprView) -> Step<MirPlaceView>
    decreases e, place_rank(e),
{
    match e.kind {
        HirExprKindView::Ident(name) => match b.lookup(name) {
            None => Err("undefined variable `"@ + name + "`"@),
            Some(id) => Ok((b, Diverging::Value(MirPlaceView::Ssa(b.ssa(id))))),
        },
        HirExprKindView::FieldAccess { struct_expr, field_name } => match place(
            c,
            b,
            *struct_expr,
        ) {
            Err(m) => Err(m),
            Ok((b1, Diverging::Diverged)) => Ok((b1, Diverging::Diverged)),
            Ok((b1, Diverging::Value(p))) => Ok(
                (
                    b1,
                    Diverging::Value(
                        MirPlaceView::Field { base: Box::new(p), field: field_name },
                    ),
                ),
            ),
        },
        HirExprKindView::Index { expr: base, index } => match place(c, b, *base) {
            Err(m) => Err(m),
            Ok((b1, Diverging::Diverged)) => Ok((b1, Diverging::Diverged)),
            Ok((b1, Diverging::Value(p))) => match expr(c, b1, *index) {
                Err(m) => Err(m),
                Ok((b2, Diverging::Diverged)) => Ok((b2, Diverging::Diverged)),
                Ok((b2, Diverging::Value(i))) => Ok(
                    (
                        b2,
                        Diverging::Value(
                            MirPlaceView::Index { base: Box::new(p), index: Box::new(i) },
                        ),
                    ),
                ),
            },
        },
        _ => match expr(c, b, e) {
            Err(m) => Err(m),
            Ok((b1, Diverging::Diverged)) => Ok((b1, Diverging::Diverged)),
            Ok((b1, Diverging::Value(op))) => match op {
                MirOperandView::Move(p) => Ok((b1, Diverging::Value(p))),
                MirOperandView::Copy(p) => Ok((b1, Diverging::Value(p))),
                MirOperandView::Constant(_) => {
                    let id = b1.next_local();
                    match b1.new_temp(e.ty).define(id, MirRvalueView::Use(op)) {
                        None => Err(too_many_versions()),
                        Some(b2) => Ok((b2, Diverging::Value(MirPlaceView::Ssa(b2.ssa(id))))),
                    }
                },
            },
        },
    }
}

// Expressions.

/// The value of an expression as an operand.
pub open spec fn expr(c: Ctx, b: Bs, e: HirExprView) -> Step<MirOperandView>
    decreases e, 7nat,
{
    expr_rule(c, b, e)
}

#[verifier::opaque]
pub open spec fn expr_rule(c: Ctx, b: Bs, e: HirExprView) -> Step<MirOperandView>
    decreases e, 6nat,
{
    match e.kind {
        HirExprKindView::Literal(l) => Ok((b, Diverging::Value(MirOperandView::Constant(l)))),
        _ => match rvalue(c, b, e) {
            Err(m) => Err(m),
            Ok((b1, Diverging::Diverged)) => Ok((b1, Diverging::Diverged)),
            Ok((b1, Diverging::Value(value))) => match value {
                MirRvalueView::Use(op) => Ok((b1, Diverging::Value(op))),
                _ => in_temp(b1, e.ty, value),
            },
        },
    }
}

/// The value of the last statement of a block, or the empty value.
pub open spec fn block_value(r: Step<Option<MirOperandView>>) -> Step<MirRvalueView> {
    match r {
        Err(m) => Err(m),
        Ok((b, Diverging::Diverged)) => Ok((b, Diverging::Diverged)),
        Ok((b, Diverging::Value(last))) => Ok(
            (
                b,
                Diverging::Value(
                    MirRvalueView::Use(
                        match last {
                            Some(op) => op,
                            None => MirOperandView::Constant(LiteralView::Unit),
                        },
                    ),
                ),
            ),
        ),
    }
}

/// A step that cannot diverge.
pub open spec fn value<T>(b: Bs, v: T) -> Step<T> {
    Ok((b, Diverging::Value(v)))
}

/// The value of an expression.
pub open spec fn rvalue(c: Ctx, b: Bs, e: HirExprView) -> Step<MirRvalueView>
    decreases e, 5nat,
{
    rvalue_rule(c, b, e)
}

#[verifier::opaque]
pub open spec fn rvalue_rule(c: Ctx, b: Bs, e: HirExprView) -> Step<MirRvalueView>
    decreases e, 4nat,
{
    match e.kind {
        HirExprKindView::Literal(l) => value(b, MirRvalueView::Use(MirOperandView::Constant(l))),
        HirExprKindView::Ident(name) => match b.lookup(name) {
            None => Err("undefined variable `"@ + name + "`"@),
            Some(id) => value(
                b.mark_moved(b.ssa(id)),
                MirRvalueView::Use(move_of(b.ssa(id))),
            ),
        },
        HirExprKindView::Sym(name) => value(
            b,
            MirRvalueView::Use(MirOperandView::Move(MirPlaceView::Static(name))),
        ),
        HirExprKindView::BinaryOp { op, left, right } => match expr(c, b, *left) {
            Err(m) => Err(m),
            Ok((b1, Diverging::Diverged)) => Ok((b1, Diverging::Diverged)),
            Ok((b1, Diverging::Value(l))) => match expr(c, b1, *right) {
                Err(m) => Err(m),
                Ok((b2, Diverging::Diverged)) => Ok((b2, Diverging::Diverged)),
                Ok((b2, Diverging::Value(r))) => value(b2, MirRvalueView::BinaryOp(op, l, r)),
            },
        },
        HirExprKindView::Unary { op, expr: inner } => match expr(c, b, *inner) {
            Err(m) => Err(m),
            Ok((b1, Diverging::Diverged)) => Ok((b1, Diverging::Diverged)),
            Ok((b1, Diverging::Value(v))) => value(b1, MirRvalueView::UnaryOp(op, v)),
        },
        HirExprKindView::Cast { expr: inner, ty } => match expr(c, b, *inner) {
            Err(m) => Err(m),
            Ok((b1, Diverging::Diverged)) => Ok((b1, Diverging::Diverged)),
            Ok((b1, Diverging::Value(v))) => value(b1, MirRvalueView::Cast(v, ty)),
        },
        HirExprKindView::FieldAccess { struct_expr, field_name } => read_place(c, b, e),
        HirExprKindView::Index { expr: base, index } => read_place(c, b, e),
        HirExprKindView::Call { qualifier, func, generic_args, args, is_method } => call(c, b, e),
        HirExprKindView::EnumVariantConstruction {
            enum_name,
            generic_args,
            variant_name,
            args: list,
        } => match args(c, b, list, 0, Seq::empty()) {
            Err(m) => Err(m),
            Ok((b1, Diverging::Diverged)) => Ok((b1, Diverging::Diverged)),
            Ok((b1, Diverging::Value(ops))) => value(
                b1,
                MirRvalueView::EnumVariantConstruction {
                    enum_name,
                    generic_args,
                    variant_name,
                    args: ops,
                },
            ),
        },
        HirExprKindView::EnumVariantAccess { enum_name, variant_name } => value(
            b,
            MirRvalueView::EnumVariantConstruction {
                enum_name,
                generic_args: Seq::empty(),
                variant_name,
                args: Seq::empty(),
            },
        ),
        HirExprKindView::StructInit { struct_name, generic_args, fields: list } => match fields(
            c,
            b,
            list,
            0,
            Seq::empty(),
        ) {
            Err(m) => Err(m),
            Ok((b1, Diverging::Diverged)) => Ok((b1, Diverging::Diverged)),
            Ok((b1, Diverging::Value(ops))) => value(
                b1,
                MirRvalueView::StructInit { struct_name, generic_args, fields: ops },
            ),
        },
        HirExprKindView::ArrayLiteral(list) => match elements(c, b, list, 0, Seq::empty()) {
            Err(m) => Err(m),
            Ok((b1, Diverging::Diverged)) => Ok((b1, Diverging::Diverged)),
            Ok((b1, Diverging::Value(ops))) => value(b1, MirRvalueView::ArrayLiteral(ops)),
        },
        HirExprKindView::LackSlice(_) => value(b, MirRvalueView::ArrayLiteral(Seq::empty())),
        HirExprKindView::Block(blk) => block_value(block(c, b, blk)),
        HirExprKindView::UnsafeBlock { kind, body } => block_value(unsafe_block(c, b, body)),
        HirExprKindView::If { kind, cond, then_expr, else_expr } => if_value(c, b, e),
        HirExprKindView::Match { cond, arms } => match_value(c, b, e),
        HirExprKindView::Closure { param, body } => Err(
            "MIR lowering for Closure: 捕获变量与闭包结构体生成策略还没设计"@,
        ),
        HirExprKindView::Range { start, end } => Err(
            "MIR lowering for bare Range: Range 目前只应该在 for 循环展开后被消费，独立出现说明 elaborate.rs 该做的展开还没做"@,
        ),
    }
}

/// A field or an element that is read: its value is moved out, and the local that
/// it lies in counts as moved.
pub open spec fn read_place(c: Ctx, b: Bs, e: HirExprView) -> Step<MirRvalueView>
    decreases e, place_rank(e) + 2,
{
    match place(c, b, e) {
        Err(m) => Err(m),
        Ok((b1, Diverging::Diverged)) => Ok((b1, Diverging::Diverged)),
        Ok((b1, Diverging::Value(p))) => value(
            match place_base(p) {
                Some(s) => b1.mark_moved(s),
                None => b1,
            },
            MirRvalueView::Use(MirOperandView::Move(p)),
        ),
    }
}

/// An argument.
pub open spec fn arg(c: Ctx, b: Bs, a: HirCallArgView) -> Step<MirOperandView>
    decreases a, 0nat,
{
    match a {
        HirCallArgView::Positional(e) => expr(c, b, e),
        HirCallArgView::Named(_, e) => expr(c, b, e),
    }
}

/// The arguments from the `i`-th on, in order, up to one that diverges.
pub open spec fn args(
    c: Ctx,
    b: Bs,
    list: Seq<HirCallArgView>,
    i: nat,
    ops: Seq<MirOperandView>,
) -> Step<Seq<MirOperandView>>
    decreases list, list.len() - i,
{
    if i >= list.len() {
        value(b, ops)
    } else {
        match arg(c, b, list[i as int]) {
            Err(m) => Err(m),
            Ok((b1, Diverging::Diverged)) => Ok((b1, Diverging::Diverged)),
            Ok((b1, Diverging::Value(v))) => args(c, b1, list, i + 1, ops.push(v)),
        }
    }
}

/// The elements from the `i`-th on.
pub open spec fn elements(
    c: Ctx,
    b: Bs,
    list: Seq<HirExprView>,
    i: nat,
    ops: Seq<MirOperandView>,
) -> Step<Seq<MirOperandView>>
    decreases list, list.len() - i,
{
    if i >= list.len() {
        value(b, ops)
    } else {
        match expr(c, b, list[i as int]) {
            Err(m) => Err(m),
            Ok((b1, Diverging::Diverged)) => Ok((b1, Diverging::Diverged)),
            Ok((b1, Diverging::Value(v))) => elements(c, b1, list, i + 1, ops.push(v)),
        }
    }
}

/// The fields from the `i`-th on.
pub open spec fn fields(
    c: Ctx,
    b: Bs,
    list: Seq<(Chars, HirExprView)>,
    i: nat,
    ops: Seq<(Chars, MirOperandView)>,
) -> Step<Seq<(Chars, MirOperandView)>>
    decreases list, list.len() - i,
{
    if i >= list.len() {
        value(b, ops)
    } else {
        match expr(c, b, list[i as int].1) {
            Err(m) => Err(m),
            Ok((b1, Diverging::Diverged)) => Ok((b1, Diverging::Diverged)),
            Ok((b1, Diverging::Value(v))) => fields(
                c,
                b1,
                list,
                i + 1,
                ops.push((list[i as int].0, v)),
            ),
        }
    }
}

/// A call: of a variant by its bare name, of a method, of a constant that is built
/// in, or of a function. One of type `never` does not return.
pub open spec fn call(c: Ctx, b: Bs, e: HirExprView) -> Step<MirRvalueView>
    decreases e, 1nat,
{
    call_rule(c, b, e)
}

#[verifier::opaque]
pub open spec fn call_rule(c: Ctx, b: Bs, e: HirExprView) -> Step<MirRvalueView>
    decreases e, 0nat,
{
    match e.kind {
        HirExprKindView::Call { qualifier, func, generic_args, args: list, is_method } => {
            if qualifier is None && !is_method && sole_owner(c, func) is Some {
                match args(c, b, list, 0, Seq::empty()) {
                    Err(m) => Err(m),
                    Ok((b1, Diverging::Diverged)) => Ok((b1, Diverging::Diverged)),
                    Ok((b1, Diverging::Value(ops))) => value(
                        b1,
                        MirRvalueView::EnumVariantConstruction {
                            enum_name: sole_owner(c, func)->0,
                            generic_args,
                            variant_name: func,
                            args: ops,
                        },
                    ),
                }
            } else if is_method {
                if list.len() == 0 {
                    Err("method call requires a receiver"@)
                } else {
                    match args(c, b, list, 0, Seq::empty()) {
                        Err(m) => Err(m),
                        Ok((b1, Diverging::Diverged)) => Ok((b1, Diverging::Diverged)),
                        Ok((b1, Diverging::Value(ops))) => value(
                            b1,
                            MirRvalueView::MethodCall {
                                receiver: ops[0],
                                method: func,
                                args: ops.skip(1),
                                generic_args,
                            },
                        ),
                    }
                }
            } else if is_constant_ref(c, qualifier, func, is_method, list.len()) {
                value(
                    b,
                    MirRvalueView::Use(
                        MirOperandView::Move(
                            MirPlaceView::Static(full_name(qualifier, func)),
                        ),
                    ),
                )
            } else {
                let diverges = e.ty is Never;
                match resolve_intrinsic(
                    c,
                    qualifier,
                    func,
                    b.in_forward,
                    b.in_unsafe,
                    diverges,
                ) {
                    Err(m) => Err(m),
                    Ok(id) => match args(c, b, list, 0, Seq::empty()) {
                        Err(m) => Err(m),
                        Ok((b1, Diverging::Diverged)) => Ok((b1, Diverging::Diverged)),
                        Ok((b1, Diverging::Value(ops))) => {
                            let rv = MirRvalueView::Call {
                                func: full_name(qualifier, func),
                                args: ops,
                                is_intrinsic: id is Some,
                                intrinsic_name: id,
                                generic_args,
                            };
                            if diverges {
                                Ok(
                                    (
                                        b1.push_stmt(MirStmtView::ExprStmt(rv)).set_term(
                                            MirTerminatorView::Unreachable,
                                        ),
                                        Diverging::Diverged,
                                    ),
                                )
                            } else {
                                value(b1, rv)
                            }
                        },
                    },
                }
            }
        },
        _ => Err(Seq::empty()),
    }
}

/// The branches that came to their end, each with the version that its value is in.
pub type Joins = Seq<(usize, SsaLocal)>;

/// The end of a branch: its value goes to the next version of `dest`, and control
/// to `end`.
pub open spec fn join_branch(
    b: Bs,
    dest: usize,
    op: MirOperandView,
    branch: usize,
    end: usize,
    joins: Joins,
) -> Option<(Bs, Joins)> {
    match b.define(dest, MirRvalueView::Use(op)) {
        None => None,
        Some(b1) => Some((b1.goto_if_pending(end), joins.push((branch, b1.ssa(dest))))),
    }
}

/// The operands of a join.
pub open spec fn phi_values(joins: Joins) -> Seq<(usize, MirOperandView)> {
    Seq::new(joins.len(), |i: int| (joins[i].0, move_of(joins[i].1)))
}

/// The value where the branches join; nothing comes out where no branch came to
/// its end.
pub open spec fn join(b: Bs, dest: usize, end: usize, joins: Joins) -> Step<MirRvalueView> {
    if joins.len() == 0 {
        Ok((b, Diverging::Diverged))
    } else {
        match b.switch(end).define(dest, MirRvalueView::Phi { values: phi_values(joins) }) {
            None => Err(too_many_versions()),
            Some(b2) => value(b2, MirRvalueView::Use(move_of(b2.ssa(dest)))),
        }
    }
}

/// An `if`: two branches that join.
pub open spec fn if_value(c: Ctx, b: Bs, e: HirExprView) -> Step<MirRvalueView>
    decreases e, 1nat,
{
    if_value_rule(c, b, e)
}

#[verifier::opaque]
pub open spec fn if_value_rule(c: Ctx, b: Bs, e: HirExprView) -> Step<MirRvalueView>
    decreases e, 0nat,
{
    match e.kind {
        HirExprKindView::If { kind, cond, then_expr, else_expr } => match expr(c, b, *cond) {
            Err(m) => Err(m),
            Ok((b1, Diverging::Diverged)) => Ok((b1, Diverging::Diverged)),
            Ok((b1, Diverging::Value(op))) => {
                let then_block = b1.next_block();
                let b2 = b1.new_block();
                let else_block = b2.next_block();
                let b3 = b2.new_block();
                let end = b3.next_block();
                let b4 = b3.new_block().set_term(
                    MirTerminatorView::If { cond: op, then_block, else_block },
                );
                let dest = b4.next_local();
                let b5 = b4.new_temp(e.ty);
                let b6 = b5.switch(then_block);
                match expr(c, b6, *then_expr) {
                    Err(m) => Err(m),
                    Ok((b7, d)) => {
                        let r7 = match d {
                            Diverging::Diverged => Some((b7, Seq::empty())),
                            Diverging::Value(v) => join_branch(
                                b7,
                                dest,
                                v,
                                then_block,
                                end,
                                Seq::empty(),
                            ),
                        };
                        match r7 {
                            None => Err(too_many_versions()),
                            Some((b8, joins)) => match else_expr {
                                Some(x) => match expr(c, b8.switch(else_block), *x) {
                                    Err(m) => Err(m),
                                    Ok((b9, Diverging::Diverged)) => join(b9, dest, end, joins),
                                    Ok((b9, Diverging::Value(v))) => match join_branch(
                                        b9,
                                        dest,
                                        v,
                                        else_block,
                                        end,
                                        joins,
                                    ) {
                                        None => Err(too_many_versions()),
                                        Some((b10, joins1)) => join(b10, dest, end, joins1),
                                    },
                                },
                                None => match join_branch(
                                    b8.switch(else_block),
                                    dest,
                                    MirOperandView::Constant(LiteralView::Unit),
                                    else_block,
                                    end,
                                    joins,
                                ) {
                                    None => Err(too_many_versions()),
                                    Some((b10, joins1)) => join(b10, dest, end, joins1),
                                },
                            },
                        }
                    },
                }
            },
        },
        _ => Err(Seq::empty()),
    }
}

/// A `match`: its condition goes to a new local, and the type of the condition
/// says what its arms may be.
pub open spec fn match_value(c: Ctx, b: Bs, e: HirExprView) -> Step<MirRvalueView>
    decreases e, 1nat,
{
    match_value_rule(c, b, e)
}

#[verifier::opaque]
pub open spec fn match_value_rule(c: Ctx, b: Bs, e: HirExprView) -> Step<MirRvalueView>
    decreases e, 0nat,
{
    match e.kind {
        HirExprKindView::Match { cond, arms } => match expr(c, b, *cond) {
            Err(m) => Err(m),
            Ok((b1, Diverging::Diverged)) => Ok((b1, Diverging::Diverged)),
            Ok((b1, Diverging::Value(op))) => {
                let id = b1.next_local();
                match b1.new_held(cond.ty).define(id, MirRvalueView::Use(op)) {
                    None => Err(too_many_versions()),
                    Some(b2) => match cond.ty {
                        TypeView::Struct(name) => match_one(c, b2, cond.ty, id, arms),
                        TypeView::Tuple(tys) => match_one(c, b2, cond.ty, id, arms),
                        TypeView::Array(elem, len) => match_one(c, b2, cond.ty, id, arms),
                        TypeView::Enum(name) => match_enum(c, b2, name, id, arms, e.ty),
                        _ => match_scalar(c, b2, cond.ty, id, arms, e.ty),
                    },
                }
            },
        },
        _ => Err(Seq::empty()),
    }
}

/// The message where a value that has just one shape has not just one arm.
pub open spec fn one_arm_message(ty: TypeView, n: nat) -> Chars {
    match ty {
        TypeView::Struct(name) => "match 条件是结构体类型 `"@ + name
            + "`，结构体不是和类型，不支持多路分支——只能有唯一一条解构 arm，实际有 "@ + decimal(n)
            + " 条（这本该在 sema 的可达性检查里被拦下）"@,
        TypeView::Tuple(_) => {
            "match 条件是元组类型，元组不是和类型，不支持多路分支——只能有唯一一条解构 arm，实际有 "@
                + decimal(n) + " 条"@
        },
        _ => "match 条件是数组类型，数组不是和类型，不支持多路分支——只能有唯一一条解构 arm，实际有 "@
            + decimal(n) + " 条"@,
    }
}

/// The message where the pattern of that arm is of another shape.
pub open spec fn shape_message(ty: TypeView, p: PatternView) -> Chars {
    match ty {
        TypeView::Struct(name) => "match 条件是结构体类型 `"@ + name + "`，但这个 arm 的模式是 "@
            + pattern_debug(p),
        TypeView::Tuple(_) => "match 条件是元组类型，但这个 arm 的模式是 "@ + pattern_debug(p),
        _ => "match 条件是数组类型，但这个 arm 的模式是 "@ + pattern_debug(p),
    }
}

/// A variable for a part of the value of a `match`, which is then moved out of it.
pub open spec fn bind_part(
    b: Bs,
    cond: usize,
    name: Chars,
    ty: TypeView,
    part: MirPlaceView,
) -> Option<Bs> {
    let id = b.next_local();
    match b.new_var(name, ty, false).define(
        id,
        MirRvalueView::Use(MirOperandView::Move(part)),
    ) {
        None => None,
        Some(b1) => Some(b1.bind(name, id).mark_moved(b1.ssa(cond))),
    }
}

/// The place of the value of a `match`.
pub open spec fn cond_place(b: Bs, cond: usize) -> MirPlaceView {
    MirPlaceView::Ssa(b.ssa(cond))
}

/// Variables for the fields from the `i`-th on.
pub open spec fn bind_fields(
    c: Ctx,
    b: Bs,
    cond: usize,
    struct_name: Chars,
    list: Seq<(Chars, Chars)>,
    i: nat,
) -> Result<Bs, Chars>
    decreases list.len() - i,
{
    if i >= list.len() {
        Ok(b)
    } else {
        let field = list[i as int].0;
        match field_type(c, struct_name, field) {
            None => Err("struct `"@ + struct_name + "` has no field `"@ + field + "`"@),
            Some(ty) => match bind_part(
                b,
                cond,
                list[i as int].1,
                ty,
                MirPlaceView::Field { base: Box::new(cond_place(b, cond)), field },
            ) {
                None => Err(too_many_versions()),
                Some(b1) => bind_fields(c, b1, cond, struct_name, list, i + 1),
            },
        }
    }
}

/// Variables for the members of a tuple from the `i`-th on, where they have names.
pub open spec fn bind_members(
    b: Bs,
    cond: usize,
    tys: Seq<TypeView>,
    list: Seq<Option<Chars>>,
    i: nat,
) -> Result<Bs, Chars>
    decreases list.len() - i,
{
    if i >= list.len() {
        Ok(b)
    } else {
        match list[i as int] {
            None => bind_members(b, cond, tys, list, i + 1),
            Some(name) => if i >= tys.len() {
                Err("tuple pattern has more bindings than the tuple type has elements"@)
            } else {
                match bind_part(
                    b,
                    cond,
                    name,
                    tys[i as int],
                    MirPlaceView::Field {
                        base: Box::new(cond_place(b, cond)),
                        field: decimal(i),
                    },
                ) {
                    None => Err(too_many_versions()),
                    Some(b1) => bind_members(b1, cond, tys, list, i + 1),
                }
            },
        }
    }
}

/// Variables for the elements of an array from the `i`-th on, where they have names.
pub open spec fn bind_elements(
    b: Bs,
    cond: usize,
    ty: TypeView,
    list: Seq<Option<Chars>>,
    i: nat,
) -> Result<Bs, Chars>
    decreases list.len() - i,
{
    if i >= list.len() {
        Ok(b)
    } else {
        match list[i as int] {
            None => bind_elements(b, cond, ty, list, i + 1),
            Some(name) => match bind_part(
                b,
                cond,
                name,
                ty,
                MirPlaceView::Index {
                    base: Box::new(cond_place(b, cond)),
                    index: Box::new(MirOperandView::Constant(LiteralView::Usize(i as usize))),
                },
            ) {
                None => Err(too_many_versions()),
                Some(b1) => bind_elements(b1, cond, ty, list, i + 1),
            },
        }
    }
}

/// The variables of the one arm of a `match` on a value of one shape.
pub open spec fn bind_shape(
    c: Ctx,
    b: Bs,
    ty: TypeView,
    cond: usize,
    p: PatternView,
) -> Result<Bs, Chars> {
    match p {
        PatternView::Wildcard => Ok(b),
        PatternView::Struct { name, fields } => match ty {
            TypeView::Struct(struct_name) => bind_fields(c, b, cond, struct_name, fields, 0),
            _ => Err(shape_message(ty, p)),
        },
        PatternView::Tuple(list) => match ty {
            TypeView::Tuple(tys) => bind_members(b, cond, tys, list, 0),
            _ => Err(shape_message(ty, p)),
        },
        PatternView::Array(list) => match ty {
            TypeView::Array(elem, len) => bind_elements(b, cond, *elem, list, 0),
            _ => Err(shape_message(ty, p)),
        },
        _ => Err(shape_message(ty, p)),
    }
}

/// A `match` on a structure, a tuple or an array: its one arm, with variables for
/// the parts of the value.
pub open spec fn match_one(
    c: Ctx,
    b: Bs,
    ty: TypeView,
    cond: usize,
    arms: Seq<HirMatchArmView>,
) -> Step<MirRvalueView>
    decreases arms, 0nat,
{
    if arms.len() != 1 {
        Err(one_arm_message(ty, arms.len()))
    } else {
        match bind_shape(c, b.push_scope(), ty, cond, arms[0].pattern) {
            Err(m) => Err(m),
            Ok(b1) => match expr(c, b1, arms[0].expr) {
                Err(m) => Err(m),
                Ok((b2, Diverging::Diverged)) => Ok((b2.pop_scope(), Diverging::Diverged)),
                Ok((b2, Diverging::Value(op))) => value(b2.pop_scope(), MirRvalueView::Use(op)),
            },
        }
    }
}

/// What the arms of a `match` with several branches have come to: the targets of
/// the switch, the default, and the block of each arm.
pub struct Plan {
    pub b: Bs,
    pub targets: Seq<(LiteralView, usize)>,
    pub default: Option<usize>,
    pub blocks: Seq<usize>,
}

impl Plan {
    /// With a block for an arm that a literal chooses.
    pub open spec fn with_target(self, l: LiteralView) -> Plan {
        Plan {
            b: self.b.new_block(),
            targets: self.targets.push((l, self.b.next_block())),
            default: self.default,
            blocks: self.blocks.push(self.b.next_block()),
        }
    }

    /// With a block for an arm that takes what is left.
    pub open spec fn with_default(self) -> Plan {
        Plan {
            b: self.b.new_block(),
            targets: self.targets,
            default: Some(self.b.next_block()),
            blocks: self.blocks.push(self.b.next_block()),
        }
    }
}

/// No arm planned yet.
pub open spec fn empty_plan(b: Bs) -> Plan {
    Plan { b, targets: Seq::empty(), default: None, blocks: Seq::empty() }
}

/// The literal by which a variant is chosen.
pub open spec fn variant_literal(c: Ctx, enum_name: Chars, name: Chars) -> Result<
    LiteralView,
    Chars,
> {
    match variant_index(c.variants, c.variants.len(), enum_name, name) {
        None => Err("unknown enum variant: "@ + enum_name + "::"@ + name),
        Some(i) => Ok(LiteralView::Int64(i as i64)),
    }
}

/// The arms on an enumeration from the `i`-th on.
pub open spec fn plan_enum(c: Ctx, plan: Plan, arms: Seq<HirMatchArmView>, i: nat) -> Result<
    Plan,
    Chars,
>
    decreases arms.len() - i,
{
    if i >= arms.len() {
        Ok(plan)
    } else {
        match arms[i as int].pattern {
            PatternView::EnumVariant { enum_name, variant_name } => match variant_literal(
                c,
                enum_name,
                variant_name,
            ) {
                Err(m) => Err(m),
                Ok(l) => plan_enum(c, plan.with_target(l), arms, i + 1),
            },
            PatternView::EnumVariantWithBinding { enum_name, variant_name, binding } => {
                match variant_literal(c, enum_name, variant_name) {
                    Err(m) => Err(m),
                    Ok(l) => plan_enum(c, plan.with_target(l), arms, i + 1),
                }
            },
            PatternView::Wildcard => plan_enum(c, plan.with_default(), arms, i + 1),
            p => Err(
                "match 条件是枚举类型，但这个 arm 的模式是 "@ + pattern_debug(p)
                    + "——只能用 EnumVariant/EnumVariantWithBinding/Wildcard 匹配"@,
            ),
        }
    }
}

/// The arms on a scalar from the `i`-th on.
pub open spec fn plan_scalar(ty: TypeView, plan: Plan, arms: Seq<HirMatchArmView>, i: nat) -> Result<
    Plan,
    Chars,
>
    decreases arms.len() - i,
{
    if i >= arms.len() {
        Ok(plan)
    } else {
        match arms[i as int].pattern {
            PatternView::IntLiteral(v) => match int_literal(v, ty) {
                None => Err(int_literal_message(v)),
                Some(l) => plan_scalar(ty, plan.with_target(l), arms, i + 1),
            },
            PatternView::BoolLiteral(v) => plan_scalar(
                ty,
                plan.with_target(LiteralView::Bool(v)),
                arms,
                i + 1,
            ),
            PatternView::CharLiteral(v) => plan_scalar(
                ty,
                plan.with_target(LiteralView::Char(v)),
                arms,
                i + 1,
            ),
            PatternView::Wildcard => plan_scalar(ty, plan.with_default(), arms, i + 1),
            p => Err(
                "match 条件是标量类型（整数/布尔/字符），但这个 arm 的模式是 "@ + pattern_debug(p)
                    + "——只能用 IntLiteral/BoolLiteral/CharLiteral/Wildcard 匹配"@,
            ),
        }
    }
}

/// The variable for the value of a variant, where the pattern gives it a name.
pub open spec fn bind_payload(c: Ctx, b: Bs, cond: usize, p: PatternView) -> Result<Bs, Chars> {
    match p {
        PatternView::EnumVariantWithBinding { enum_name, variant_name, binding } => {
            match sole_owner(c, variant_name) {
                None => Err("unknown enum variant: "@ + variant_name),
                Some(owner) => match variant_payload(
                    c.variants,
                    c.variants.len(),
                    owner,
                    variant_name,
                ) {
                    None => Err(
                        "variant `"@ + variant_name + "` has no payload but pattern binds `"@
                            + binding + "`"@,
                    ),
                    Some(ty) => match bind_part(
                        b,
                        cond,
                        binding,
                        ty,
                        MirPlaceView::EnumPayload {
                            base: Box::new(cond_place(b, cond)),
                            enum_name: owner,
                            variant_name,
                        },
                    ) {
                        None => Err(too_many_versions()),
                        Some(b1) => Ok(b1),
                    },
                },
            }
        },
        _ => Ok(b),
    }
}

/// The bodies of the arms from the `i`-th on, each in its block. Those on an
/// enumeration have a scope of their own.
pub open spec fn run_arms(
    c: Ctx,
    b: Bs,
    arms: Seq<HirMatchArmView>,
    blocks: Seq<usize>,
    i: nat,
    on_enum: bool,
    cond: usize,
    dest: usize,
    end: usize,
    joins: Joins,
) -> Result<(Bs, Joins), Chars>
    decreases arms, arms.len() - i,
{
    if i >= arms.len() {
        Ok((b, joins))
    } else {
        let block = blocks[i as int];
        let b0 = b.switch(block);
        let r = if on_enum {
            bind_payload(c, b0.push_scope(), cond, arms[i as int].pattern)
        } else {
            Ok(b0)
        };
        match r {
            Err(m) => Err(m),
            Ok(b1) => match expr(c, b1, arms[i as int].expr) {
                Err(m) => Err(m),
                Ok((b2, d)) => {
                    let r2 = match d {
                        Diverging::Diverged => Some((b2, joins)),
                        Diverging::Value(op) => join_branch(b2, dest, op, block, end, joins),
                    };
                    match r2 {
                        None => Err(too_many_versions()),
                        Some((b3, joins1)) => run_arms(
                            c,
                            if on_enum {
                                b3.pop_scope()
                            } else {
                                b3
                            },
                            arms,
                            blocks,
                            i + 1,
                            on_enum,
                            cond,
                            dest,
                            end,
                            joins1,
                        ),
                    }
                },
            },
        }
    }
}

/// A `match` on an enumeration: a switch on the place of its variant.
pub open spec fn match_enum(
    c: Ctx,
    b: Bs,
    enum_name: Chars,
    cond: usize,
    arms: Seq<HirMatchArmView>,
    ty: TypeView,
) -> Step<MirRvalueView>
    decreases arms, arms.len() + 2,
{
    match_enum_rule(c, b, enum_name, cond, arms, ty)
}

#[verifier::opaque]
pub open spec fn match_enum_rule(
    c: Ctx,
    b: Bs,
    enum_name: Chars,
    cond: usize,
    arms: Seq<HirMatchArmView>,
    ty: TypeView,
) -> Step<MirRvalueView>
    decreases arms, arms.len() + 1,
{
    let disc = b.next_local();
    match b.new_temp(TypeView::I64).define(
        disc,
        MirRvalueView::Discriminant {
            value: MirOperandView::Copy(cond_place(b, cond)),
            enum_name,
        },
    ) {
        None => Err(too_many_versions()),
        Some(b1) => {
            let end = b1.next_block();
            let b2 = b1.new_block();
            let dest = b2.next_local();
            let b3 = b2.new_temp(ty);
            match plan_enum(c, empty_plan(b3), arms, 0) {
                Err(m) => Err(m),
                Ok(plan) => {
                    let default = match plan.default {
                        Some(d) => d,
                        None => plan.b.next_block(),
                    };
                    let b4 = match plan.default {
                        Some(_) => plan.b,
                        None => plan.b.new_block(),
                    };
                    let b5 = b4.set_term(
                        MirTerminatorView::Switch {
                            discr: move_of(b1.ssa(disc)),
                            discr_ty: TypeView::I64,
                            targets: plan.targets,
                            default,
                        },
                    );
                    match run_arms(
                        c,
                        b5,
                        arms,
                        plan.blocks,
                        0,
                        true,
                        cond,
                        dest,
                        end,
                        Seq::empty(),
                    ) {
                        Err(m) => Err(m),
                        Ok((b6, joins)) => join(b6, dest, end, joins),
                    }
                },
            }
        },
    }
}

/// A `match` on an integer, a Boolean or a character: a switch on it, which needs
/// an arm for what is left.
pub open spec fn match_scalar(
    c: Ctx,
    b: Bs,
    cond_ty: TypeView,
    cond: usize,
    arms: Seq<HirMatchArmView>,
    ty: TypeView,
) -> Step<MirRvalueView>
    decreases arms, arms.len() + 2,
{
    match_scalar_rule(c, b, cond_ty, cond, arms, ty)
}

#[verifier::opaque]
pub open spec fn match_scalar_rule(
    c: Ctx,
    b: Bs,
    cond_ty: TypeView,
    cond: usize,
    arms: Seq<HirMatchArmView>,
    ty: TypeView,
) -> Step<MirRvalueView>
    decreases arms, arms.len() + 1,
{
    let end = b.next_block();
    let b1 = b.new_block();
    let dest = b1.next_local();
    let b2 = b1.new_temp(ty);
    match plan_scalar(cond_ty, empty_plan(b2), arms, 0) {
        Err(m) => Err(m),
        Ok(plan) => match plan.default {
            None => Err(
                "match 条件是标量类型，但没有 Wildcard 兜底分支——标量字面量模式不可能自证穷尽，这应该在 sema 阶段就被拦下"@,
            ),
            Some(default) => {
                let b3 = plan.b.set_term(
                    MirTerminatorView::Switch {
                        discr: MirOperandView::Copy(cond_place(b, cond)),
                        discr_ty: cond_ty,
                        targets: plan.targets,
                        default,
                    },
                );
                match run_arms(
                    c,
                    b3,
                    arms,
                    plan.blocks,
                    0,
                    false,
                    cond,
                    dest,
                    end,
                    Seq::empty(),
                ) {
                    Err(m) => Err(m),
                    Ok((b4, joins)) => join(b4, dest, end, joins),
                }
            },
        },
    }
}

// Statements.

/// Statements in a scope of their own.
pub open spec fn block(c: Ctx, b: Bs, blk: HirBlockView) -> Step<Option<MirOperandView>>
    decreases blk, 1nat,
{
    match stmts(c, b.push_scope(), blk.stmts, 0, None) {
        Err(m) => Err(m),
        Ok((b1, d)) => Ok((b1.pop_scope(), d)),
    }
}

/// A block in which what needs `unsafe` is allowed.
pub open spec fn unsafe_block(c: Ctx, b: Bs, blk: HirBlockView) -> Step<Option<MirOperandView>>
    decreases blk, 2nat,
{
    let b1 = (Bs { in_unsafe: true, ..b }).push_stmt(
        MirStmtView::EffectCheck { effect: "unsafe"@ },
    );
    match block(c, b1, blk) {
        Err(m) => Err(m),
        Ok((b2, d)) => Ok((Bs { in_unsafe: b.in_unsafe, ..b2 }, d)),
    }
}

/// The statements from the `i`-th on, up to one that diverges.
pub open spec fn stmts(
    c: Ctx,
    b: Bs,
    list: Seq<HirStmtView>,
    i: nat,
    last: Option<MirOperandView>,
) -> Step<Option<MirOperandView>>
    decreases list, list.len() - i,
{
    if i >= list.len() {
        value(b, last)
    } else {
        match stmt(c, b, list[i as int]) {
            Err(m) => Err(m),
            Ok((b1, Diverging::Diverged)) => Ok((b1, Diverging::Diverged)),
            Ok((b1, Diverging::Value(v))) => stmts(c, b1, list, i + 1, v),
        }
    }
}

/// A statement.
pub open spec fn stmt(c: Ctx, b: Bs, s: HirStmtView) -> Step<Option<MirOperandView>>
    decreases s, 1nat,
{
    stmt_rule(c, b, s)
}

#[verifier::opaque]
pub open spec fn stmt_rule(c: Ctx, b: Bs, s: HirStmtView) -> Step<Option<MirOperandView>>
    decreases s, 0nat,
{
    match s {
        HirStmtView::Let { name, ty, init, mutable, persist } => match expr(c, b, init) {
            Err(m) => Err(m),
            Ok((b1, Diverging::Diverged)) => Ok((b1, Diverging::Diverged)),
            Ok((b1, Diverging::Value(v))) => {
                let id = b1.next_local();
                let local_ty = match ty {
                    Some(t) => t,
                    None => init.ty,
                };
                let b2 = if persist {
                    b1.new_local(
                        MirLocalView {
                            name: Some(name),
                            ty: local_ty,
                            mutable,
                            kind: LocalKind::Persist,
                        },
                        false,
                    )
                } else {
                    b1.new_var(name, local_ty, mutable)
                };
                match b2.bind(name, id).define(id, MirRvalueView::Use(v)) {
                    None => Err(too_many_versions()),
                    Some(b3) => value(b3, None),
                }
            },
        },
        HirStmtView::Expr { expr: e } => match rvalue(c, b, e) {
            Err(m) => Err(m),
            Ok((b1, Diverging::Diverged)) => Ok((b1, Diverging::Diverged)),
            Ok((b1, Diverging::Value(v))) => value(b1.push_stmt(MirStmtView::ExprStmt(v)), None),
        },
        HirStmtView::Return { expr: e } => match e {
            None => Ok(
                (
                    b.drop_scopes(b.vars.len(), 0).set_term(MirTerminatorView::Return(None)),
                    Diverging::Diverged,
                ),
            ),
            Some(x) => match expr(c, b, x) {
                Err(m) => Err(m),
                Ok((b1, Diverging::Diverged)) => Ok((b1, Diverging::Diverged)),
                Ok((b1, Diverging::Value(op))) => Ok(
                    (
                        b1.drop_scopes(b1.vars.len(), 0).set_term(
                            MirTerminatorView::Return(Some(op)),
                        ),
                        Diverging::Diverged,
                    ),
                ),
            },
        },
        HirStmtView::Assign { target, expr: e } => match place(c, b, target) {
            Err(m) => Err(m),
            Ok((b1, Diverging::Diverged)) => Ok((b1, Diverging::Diverged)),
            Ok((b1, Diverging::Value(p))) => match renewed(b1, p) {
                None => Err(too_many_versions()),
                Some((b2, dest)) => match rvalue(c, b2, e) {
                    Err(m) => Err(m),
                    Ok((b3, Diverging::Diverged)) => Ok((b3, Diverging::Diverged)),
                    Ok((b3, Diverging::Value(v))) => value(
                        b3.push_stmt(MirStmtView::Assign { dest, value: v }),
                        None,
                    ),
                },
            },
        },
        HirStmtView::While { cond, body } => {
            let cond_block = b.next_block();
            let b1 = b.new_block();
            let body_block = b1.next_block();
            let b2 = b1.new_block();
            let end = b2.next_block();
            let b3 = b2.new_block().set_term(MirTerminatorView::Goto(cond_block)).switch(
                cond_block,
            );
            match expr(c, b3, cond) {
                Err(m) => Err(m),
                Ok((b4, Diverging::Diverged)) => Ok((b4, Diverging::Diverged)),
                Ok((b4, Diverging::Value(op))) => {
                    let b5 = b4.set_term(
                        MirTerminatorView::If {
                            cond: op,
                            then_block: body_block,
                            else_block: end,
                        },
                    ).switch(body_block);
                    match block(c, b5.push_loop(end), body) {
                        Err(m) => Err(m),
                        Ok((b6, _)) => value(
                            b6.pop_loop().goto_if_pending(cond_block).switch(end),
                            None,
                        ),
                    }
                },
            }
        },
        HirStmtView::Loop { body } => {
            let body_block = b.next_block();
            let b1 = b.new_block();
            let end = b1.next_block();
            let b2 = b1.new_block().set_term(MirTerminatorView::Goto(body_block)).switch(
                body_block,
            );
            match block(c, b2.push_loop(end), body) {
                Err(m) => Err(m),
                Ok((b3, _)) => value(
                    b3.pop_loop().goto_if_pending(body_block).switch(end),
                    None,
                ),
            }
        },
        HirStmtView::Break => if b.loops.len() == 0 {
            Err(
                "internal error: HirStmt::Break 出现在循环之外 (sema.rs 的检查应该已经拦住这种情况，走到这里说明两边检查不一致)"@,
            )
        } else {
            Ok(
                (
                    b.drop_scopes(b.vars.len(), b.loops.last().scope_depth as nat).set_term(
                        MirTerminatorView::Goto(b.loops.last().break_target),
                    ),
                    Diverging::Diverged,
                ),
            )
        },
        HirStmtView::For { var, iterable, body } => Err(
            "internal error: HirStmt::For 不该走到 mir_builder 这一层——elaborate.rs 应已在 MIR 构建之前将其展开成 loop + match"@,
        ),
        HirStmtView::UnsafeBlock { body } => unsafe_block(c, b, body),
    }
}

/// The place that an assignment writes: the next version of a local, and of a
/// field or an element the place itself.
pub open spec fn renewed(b: Bs, p: MirPlaceView) -> Option<(Bs, MirPlaceView)> {
    match p {
        MirPlaceView::Ssa(s) => match b.bump(s.base_id) {
            None => None,
            Some(b1) => Some((b1, MirPlaceView::Ssa(b1.ssa(s.base_id)))),
        },
        _ => Some((b, p)),
    }
}

// Functions and programs.

/// The parameters of a function as locals, from the `i`-th on.
pub open spec fn with_params(b: Bs, params: Seq<HirFieldView>, i: nat) -> Bs
    decreases params.len() - i,
{
    if i >= params.len() {
        b
    } else {
        let p = params[i as int];
        let id = b.next_local();
        let b1 = b.new_local(
            MirLocalView {
                name: Some(p.name),
                ty: p.ty,
                mutable: false,
                kind: LocalKind::Param,
            },
            false,
        );
        with_params(b1.bind(p.name, id), params, i + 1)
    }
}

/// The names and types of fields.
pub open spec fn pairs(list: Seq<HirFieldView>) -> Seq<(Chars, TypeView)> {
    Seq::new(list.len(), |i: int| (list[i].name, list[i].ty))
}

/// A function: its parameters, then its body. Where the body falls through, its
/// value is returned.
pub open spec fn function(c: Ctx, f: HirFnView) -> Result<MirFnView, Chars> {
    let b = with_params(Bs::start(f.is_forward).new_block(), f.params, 0);
    match block(c, b, f.body) {
        Err(m) => Err(m),
        Ok((b1, d)) => {
            let ret = match d {
                Diverging::Value(v) => v,
                Diverging::Diverged => None,
            };
            let b2 = if b1.pending() {
                b1.set_term(MirTerminatorView::Return(ret))
            } else {
                b1
            };
            Ok(
                MirFnView {
                    name: f.name,
                    generic_params: f.generic_params,
                    params: pairs(f.params),
                    return_type: f.return_type,
                    body: MirBodyView { locals: b2.locals, blocks: b2.blocks },
                    effect_set: f.effects,
                },
            )
        },
    }
}

/// The first `n` functions of a list, behind those of `done`.
pub open spec fn functions(c: Ctx, done: Seq<MirFnView>, list: Seq<HirFnView>, n: nat) -> Result<
    Seq<MirFnView>,
    Chars,
>
    decreases n,
{
    if n == 0 {
        Ok(done)
    } else {
        match functions(c, done, list, (n - 1) as nat) {
            Err(m) => Err(m),
            Ok(fs) => match function(c, list[n - 1]) {
                Err(m) => Err(m),
                Ok(f) => Ok(fs.push(f)),
            },
        }
    }
}

/// The functions of the first `n` models, behind those of `done`.
pub open spec fn model_functions(
    c: Ctx,
    done: Seq<MirFnView>,
    list: Seq<HirModelView>,
    n: nat,
) -> Result<Seq<MirFnView>, Chars>
    decreases n,
{
    if n == 0 {
        Ok(done)
    } else {
        match model_functions(c, done, list, (n - 1) as nat) {
            Err(m) => Err(m),
            Ok(fs) => functions(c, fs, list[n - 1].functions, list[n - 1].functions.len()),
        }
    }
}

/// The functions of the first `n` types, behind those of `done`.
pub open spec fn impl_functions(
    c: Ctx,
    done: Seq<MirFnView>,
    list: Seq<HirImplView>,
    n: nat,
) -> Result<Seq<MirFnView>, Chars>
    decreases n,
{
    if n == 0 {
        Ok(done)
    } else {
        match impl_functions(c, done, list, (n - 1) as nat) {
            Err(m) => Err(m),
            Ok(fs) => functions(c, fs, list[n - 1].functions, list[n - 1].functions.len()),
        }
    }
}

/// All functions of a program: the free ones, those of the models, those of the
/// types.
pub open spec fn program_functions(hir: HirProgramView) -> Result<Seq<MirFnView>, Chars> {
    let c = ctx_of(hir);
    match functions(c, Seq::empty(), hir.fns, hir.fns.len()) {
        Err(m) => Err(m),
        Ok(f1) => match model_functions(c, f1, hir.models, hir.models.len()) {
            Err(m) => Err(m),
            Ok(f2) => impl_functions(c, f2, hir.impls, hir.impls.len()),
        },
    }
}

/// The structures of a program.
pub open spec fn structs_of(list: Seq<HirStructView>) -> Seq<MirStructView> {
    Seq::new(
        list.len(),
        |i: int|
            MirStructView {
                name: list[i].name,
                generic_params: list[i].generic_params,
                fields: pairs(list[i].fields),
            },
    )
}

/// The names and types of variants.
pub open spec fn variant_pairs(list: Seq<HirVariantView>) -> Seq<(Chars, Option<TypeView>)> {
    Seq::new(list.len(), |i: int| (list[i].name, list[i].ty))
}

/// The enumerations of a program.
pub open spec fn enums_of(list: Seq<HirEnumView>) -> Seq<MirEnumView> {
    Seq::new(
        list.len(),
        |i: int|
            MirEnumView {
                name: list[i].name,
                generic_params: list[i].generic_params,
                variants: variant_pairs(list[i].variants),
            },
    )
}

/// The function that is built in that a statement calls, if it calls one.
pub open spec fn intrinsic_of(s: MirStmtView) -> Option<IntrinsicFn> {
    match s {
        MirStmtView::Assign { dest, value } => value_intrinsic(value),
        MirStmtView::ExprStmt(value) => value_intrinsic(value),
        _ => None,
    }
}

pub open spec fn value_intrinsic(v: MirRvalueView) -> Option<IntrinsicFn> {
    match v {
        MirRvalueView::Call { func, args, is_intrinsic, intrinsic_name, generic_args } => {
            intrinsic_name
        },
        _ => None,
    }
}

/// The functions that are built in that the first `n` statements call, in order.
pub open spec fn stmt_intrinsics(stmts: Seq<MirStmtView>, n: nat) -> Seq<IntrinsicFn>
    decreases n,
{
    if n == 0 {
        Seq::empty()
    } else {
        let before = stmt_intrinsics(stmts, (n - 1) as nat);
        match intrinsic_of(stmts[n - 1]) {
            Some(id) => before.push(id),
            None => before,
        }
    }
}

/// The functions that are built in that the first `n` blocks call, in order.
pub open spec fn block_intrinsics(blocks: Seq<MirBlockView>, n: nat) -> Seq<IntrinsicFn>
    decreases n,
{
    if n == 0 {
        Seq::empty()
    } else {
        block_intrinsics(blocks, (n - 1) as nat) + stmt_intrinsics(
            blocks[n - 1].stmts,
            blocks[n - 1].stmts.len(),
        )
    }
}

/// Whether a function calls one that is built in.
pub open spec fn calls_intrinsic(f: MirFnView, id: IntrinsicFn) -> bool {
    exists|i: int, j: int|
        0 <= i < f.body.blocks.len() && 0 <= j < f.body.blocks[i].stmts.len() && intrinsic_of(
            #[trigger] f.body.blocks[i].stmts[j],
        ) == Some(id)
}

/// Whether a list of functions that are built in is in order, without repetition,
/// and holds just those that one of the functions calls.
pub open spec fn intrinsics_used(list: Seq<IntrinsicFn>, fns: Seq<MirFnView>) -> bool {
    &&& forall|i: int, j: int| 0 <= i < j < list.len() ==> (#[trigger] list[i]).0 < (
    #[trigger] list[j]).0
    &&& forall|id: IntrinsicFn| #[trigger]
        list.contains(id) <==> exists|k: int|
            0 <= k < fns.len() && calls_intrinsic(#[trigger] fns[k], id)
}

} // verus!
