//! What holds of a function while it is built, and what each step keeps.
use crate::lowering::Bs;
use crate::mir::{
    MirBlockView, MirFnView, MirOperandView, MirPlaceView, MirRvalueView, MirStmtView,
    MirTerminatorView, SsaLocal,
};
use crate::text::Chars;
use vstd::prelude::*;

verus! {

/// Whether control goes to one of the first `n` blocks, or leaves the function.
pub open spec fn jump_inside(t: MirTerminatorView, n: nat) -> bool {
    match t {
        MirTerminatorView::Goto(b) => b < n,
        MirTerminatorView::If { cond, then_block, else_block } => then_block < n && else_block < n,
        MirTerminatorView::Switch { discr, discr_ty, targets, default } => {
            &&& default < n
            &&& forall|k: int| 0 <= k < targets.len() ==> (#[trigger] targets[k]).1 < n
        },
        _ => true,
    }
}

/// Whether a statement assigns a version of a local.
pub open spec fn assigns(s: MirStmtView, x: SsaLocal) -> bool {
    match s {
        MirStmtView::Assign { dest, value } => dest == MirPlaceView::Ssa(x),
        _ => false,
    }
}

/// Whether a statement drops a version of a local.
pub open spec fn drops(s: MirStmtView, x: SsaLocal) -> bool {
    s == MirStmtView::Drop(MirPlaceView::Ssa(x))
}

/// Whether one of the blocks assigns a version of a local.
pub open spec fn assigned(blocks: Seq<MirBlockView>, x: SsaLocal) -> bool {
    exists|i: int, j: int|
        0 <= i < blocks.len() && 0 <= j < blocks[i].stmts.len() && assigns(
            #[trigger] blocks[i].stmts[j],
            x,
        )
}

/// Whether one of the blocks drops a version of a local.
pub open spec fn dropped(blocks: Seq<MirBlockView>, x: SsaLocal) -> bool {
    exists|i: int, j: int|
        0 <= i < blocks.len() && 0 <= j < blocks[i].stmts.len() && drops(
            #[trigger] blocks[i].stmts[j],
            x,
        )
}

/// Whether all locals of a place are among the first `n`.
pub open spec fn place_in(p: MirPlaceView, n: nat) -> bool
    decreases p,
{
    match p {
        MirPlaceView::Ssa(s) => s.base_id < n,
        MirPlaceView::Static(_) => true,
        MirPlaceView::Field { base, field } => place_in(*base, n),
        MirPlaceView::Index { base, index } => place_in(*base, n) && operand_in(*index, n),
        MirPlaceView::EnumPayload { base, enum_name, variant_name } => place_in(*base, n),
    }
}

/// Whether all locals of an operand are among the first `n`.
pub open spec fn operand_in(op: MirOperandView, n: nat) -> bool
    decreases op,
{
    match op {
        MirOperandView::Move(p) => place_in(p, n),
        MirOperandView::Copy(p) => place_in(p, n),
        MirOperandView::Constant(_) => true,
    }
}

/// Whether all locals of operands are among the first `n`.
pub open spec fn operands_in(ops: Seq<MirOperandView>, n: nat) -> bool {
    forall|k: int| 0 <= k < ops.len() ==> operand_in(#[trigger] ops[k], n)
}

/// Whether all locals of fields are among the first `n`.
pub open spec fn fields_in(fields: Seq<(Chars, MirOperandView)>, n: nat) -> bool {
    forall|k: int| 0 <= k < fields.len() ==> operand_in((#[trigger] fields[k]).1, n)
}

/// Whether all locals of a value are among the first `n`.
pub open spec fn rvalue_in(v: MirRvalueView, n: nat) -> bool {
    match v {
        MirRvalueView::Use(op) => operand_in(op, n),
        MirRvalueView::BinaryOp(_, l, r) => operand_in(l, n) && operand_in(r, n),
        MirRvalueView::UnaryOp(_, op) => operand_in(op, n),
        MirRvalueView::Cast(op, _) => operand_in(op, n),
        MirRvalueView::Call { func, args, is_intrinsic, intrinsic_name, generic_args } => {
            operands_in(args, n)
        },
        MirRvalueView::MethodCall { receiver, method, args, generic_args } => operand_in(
            receiver,
            n,
        ) && operands_in(args, n),
        MirRvalueView::EnumVariantConstruction { enum_name, generic_args, variant_name, args } => {
            operands_in(args, n)
        },
        MirRvalueView::StructInit { struct_name, generic_args, fields } => fields_in(fields, n),
        MirRvalueView::ArrayLiteral(ops) => operands_in(ops, n),
        MirRvalueView::Discriminant { value, enum_name } => operand_in(value, n),
        MirRvalueView::Phi { values } => {
            forall|k: int| 0 <= k < values.len() ==> operand_in((#[trigger] values[k]).1, n)
        },
    }
}

/// Whether all locals of a statement are among the first `n`.
pub open spec fn stmt_in(s: MirStmtView, n: nat) -> bool {
    match s {
        MirStmtView::Assign { dest, value } => place_in(dest, n) && rvalue_in(value, n),
        MirStmtView::ExprStmt(value) => rvalue_in(value, n),
        MirStmtView::Drop(p) => place_in(p, n),
        MirStmtView::EffectCheck { effect } => true,
    }
}

/// Whether all locals of a terminator are among the first `n`.
pub open spec fn terminator_in(t: MirTerminatorView, n: nat) -> bool {
    match t {
        MirTerminatorView::Return(Some(op)) => operand_in(op, n),
        MirTerminatorView::If { cond, then_block, else_block } => operand_in(cond, n),
        MirTerminatorView::Switch { discr, discr_ty, targets, default } => operand_in(discr, n),
        _ => true,
    }
}

/// Every local of the blocks is among the first `n`.
#[verifier::opaque]
pub open spec fn locals_inside(blocks: Seq<MirBlockView>, n: nat) -> bool {
    &&& forall|i: int, j: int|
        0 <= i < blocks.len() && 0 <= j < blocks[i].stmts.len() ==> stmt_in(
            #[trigger] blocks[i].stmts[j],
            n,
        )
    &&& forall|i: int|
        0 <= i < blocks.len() ==> terminator_in((#[trigger] blocks[i]).terminator, n)
}

/// Every jump goes to one of the blocks.
pub open spec fn jumps_inside(blocks: Seq<MirBlockView>) -> bool {
    forall|i: int|
        0 <= i < blocks.len() ==> jump_inside((#[trigger] blocks[i]).terminator, blocks.len())
}

/// Each version of a local is assigned by one statement at most.
pub open spec fn assigned_once(blocks: Seq<MirBlockView>) -> bool {
    forall|i: int, j: int, k: int, l: int, x: SsaLocal|
        #![trigger assigns(blocks[i].stmts[j], x), assigns(blocks[k].stmts[l], x)]
        0 <= i < blocks.len() && 0 <= j < blocks[i].stmts.len() && 0 <= k < blocks.len() && 0 <= l
            < blocks[k].stmts.len() && assigns(blocks[i].stmts[j], x) && assigns(
            blocks[k].stmts[l],
            x,
        ) ==> i == k && j == l
}

/// Each version of a local is dropped by one statement at most.
pub open spec fn dropped_once(blocks: Seq<MirBlockView>) -> bool {
    forall|i: int, j: int, k: int, l: int, x: SsaLocal|
        #![trigger drops(blocks[i].stmts[j], x), drops(blocks[k].stmts[l], x)]
        0 <= i < blocks.len() && 0 <= j < blocks[i].stmts.len() && 0 <= k < blocks.len() && 0 <= l
            < blocks[k].stmts.len() && drops(blocks[i].stmts[j], x) && drops(
            blocks[k].stmts[l],
            x,
        ) ==> i == k && j == l
}

/// Whether a function is in order: it has an entry, every jump stays in it, every
/// local is one of its own, and no version of a local is assigned twice or dropped
/// twice.
pub open spec fn well_built(f: MirFnView) -> bool {
    &&& f.body.blocks.len() > 0
    &&& jumps_inside(f.body.blocks)
    &&& locals_inside(f.body.blocks, f.body.locals.len())
    &&& assigned_once(f.body.blocks)
    &&& dropped_once(f.body.blocks)
}

/// What holds of every state of a function that is being built.
#[verifier::opaque]
pub open spec fn sound(b: Bs) -> bool {
    &&& jumps_inside(b.blocks)
    &&& locals_inside(b.blocks, b.versions.len())
    &&& forall|k: int| 0 <= k < b.loops.len() ==> (#[trigger] b.loops[k]).break_target
        < b.blocks.len()
    &&& assigned_once(b.blocks)
    &&& forall|x: SsaLocal| #[trigger]
        assigned(b.blocks, x) ==> x.base_id < b.versions.len() && x.version
            <= b.versions[x.base_id as int]
    &&& dropped_once(b.blocks)
    &&& forall|x: SsaLocal| #[trigger] dropped(b.blocks, x) ==> b.moved.contains(x)
}

/// What a part of the work keeps: the blocks but the current one, the locals, and
/// the versions that were there, which it does not assign.
#[verifier::opaque]
pub open spec fn kept(a: Bs, b: Bs) -> bool {
    &&& a.blocks.len() <= b.blocks.len()
    &&& a.versions.len() <= b.versions.len()
    &&& (b.cur == a.cur || b.cur >= a.blocks.len())
    &&& forall|i: int|
        0 <= i < a.blocks.len() && i != a.cur ==> #[trigger] b.blocks[i] == a.blocks[i]
    &&& forall|i: int|
        0 <= i < a.versions.len() ==> #[trigger] b.versions[i] >= a.versions[i]
    &&& forall|x: SsaLocal|
        x.base_id < a.versions.len() && x.version <= a.versions[x.base_id as int]
            && #[trigger] assigned(b.blocks, x) ==> assigned(a.blocks, x)
}

/// Whether a statement can go to the end of the current block.
pub open spec fn fits(b: Bs, s: MirStmtView) -> bool {
    &&& stmt_in(s, b.versions.len())
    &&& forall|x: SsaLocal| #[trigger]
        assigns(s, x) ==> !assigned(b.blocks, x) && x.base_id < b.versions.len() && x.version
            <= b.versions[x.base_id as int]
    &&& forall|x: SsaLocal| #[trigger]
        drops(s, x) ==> !dropped(b.blocks, x) && b.moved.contains(x)
}

// More locals do not hide those that were there.

pub broadcast proof fn lemma_place_in(p: MirPlaceView, n: nat, m: nat)
    requires
        #[trigger] place_in(p, n),
        n <= m,
    ensures
        #[trigger] place_in(p, m),
    decreases p,
{
    match p {
        MirPlaceView::Field { base, field } => {
            lemma_place_in(*base, n, m);
        },
        MirPlaceView::Index { base, index } => {
            lemma_place_in(*base, n, m);
            lemma_operand_in(*index, n, m);
        },
        MirPlaceView::EnumPayload { base, enum_name, variant_name } => {
            lemma_place_in(*base, n, m);
        },
        _ => {},
    }
}

pub broadcast proof fn lemma_operand_in(op: MirOperandView, n: nat, m: nat)
    requires
        #[trigger] operand_in(op, n),
        n <= m,
    ensures
        #[trigger] operand_in(op, m),
    decreases op,
{
    match op {
        MirOperandView::Move(p) => {
            lemma_place_in(p, n, m);
        },
        MirOperandView::Copy(p) => {
            lemma_place_in(p, n, m);
        },
        MirOperandView::Constant(_) => {},
    }
}

pub broadcast proof fn lemma_operands_in(ops: Seq<MirOperandView>, n: nat, m: nat)
    requires
        #[trigger] operands_in(ops, n),
        n <= m,
    ensures
        #[trigger] operands_in(ops, m),
{
    assert forall|k: int| 0 <= k < ops.len() implies operand_in(#[trigger] ops[k], m) by {
        lemma_operand_in(ops[k], n, m);
    }
}

pub broadcast proof fn lemma_fields_in(fields: Seq<(Chars, MirOperandView)>, n: nat, m: nat)
    requires
        #[trigger] fields_in(fields, n),
        n <= m,
    ensures
        #[trigger] fields_in(fields, m),
{
    assert forall|k: int| 0 <= k < fields.len() implies operand_in((#[trigger] fields[k]).1, m) by {
        lemma_operand_in(fields[k].1, n, m);
    }
}

pub broadcast proof fn lemma_rvalue_in(v: MirRvalueView, n: nat, m: nat)
    requires
        #[trigger] rvalue_in(v, n),
        n <= m,
    ensures
        #[trigger] rvalue_in(v, m),
{
    broadcast use {lemma_operand_in, lemma_operands_in, lemma_fields_in};

}

pub broadcast group group_inside {
    lemma_place_in,
    lemma_operand_in,
    lemma_operands_in,
    lemma_fields_in,
    lemma_rvalue_in,
}

/// Blocks whose locals are among the first ones.
proof fn lemma_locals_inside(blocks: Seq<MirBlockView>, n: nat, m: nat)
    requires
        locals_inside(blocks, n),
        n <= m,
    ensures
        locals_inside(blocks, m),
{
    broadcast use group_inside;

    reveal(locals_inside);
    assert forall|i: int, j: int|
        0 <= i < blocks.len() && 0 <= j < blocks[i].stmts.len() implies stmt_in(
        #[trigger] blocks[i].stmts[j],
        m,
    ) by {
        assert(stmt_in(blocks[i].stmts[j], n));
    }
    assert forall|i: int| 0 <= i < blocks.len() implies terminator_in(
        (#[trigger] blocks[i]).terminator,
        m,
    ) by {
        assert(terminator_in(blocks[i].terminator, n));
    }
}

// Steps keep a state sound.

/// Where nothing but the terminators and empty blocks differ, the same versions
/// are assigned and dropped.
pub proof fn lemma_same_stmts(a: Seq<MirBlockView>, b: Seq<MirBlockView>)
    requires
        a.len() <= b.len(),
        forall|i: int| 0 <= i < a.len() ==> (#[trigger] b[i]).stmts == a[i].stmts,
        forall|i: int| a.len() <= i < b.len() ==> (#[trigger] b[i]).stmts.len() == 0,
    ensures
        forall|x: SsaLocal| #[trigger] assigned(b, x) <==> assigned(a, x),
        forall|x: SsaLocal| #[trigger] dropped(b, x) <==> dropped(a, x),
        assigned_once(a) ==> assigned_once(b),
        dropped_once(a) ==> dropped_once(b),
{
    assert forall|x: SsaLocal| #[trigger] assigned(b, x) <==> assigned(a, x) by {
        if assigned(b, x) {
            let (i, j) = choose|i: int, j: int|
                0 <= i < b.len() && 0 <= j < b[i].stmts.len() && assigns(
                    #[trigger] b[i].stmts[j],
                    x,
                );
            assert(assigns(a[i].stmts[j], x));
        }
        if assigned(a, x) {
            let (i, j) = choose|i: int, j: int|
                0 <= i < a.len() && 0 <= j < a[i].stmts.len() && assigns(
                    #[trigger] a[i].stmts[j],
                    x,
                );
            assert(assigns(b[i].stmts[j], x));
        }
    }
    assert forall|x: SsaLocal| #[trigger] dropped(b, x) <==> dropped(a, x) by {
        if dropped(b, x) {
            let (i, j) = choose|i: int, j: int|
                0 <= i < b.len() && 0 <= j < b[i].stmts.len() && drops(
                    #[trigger] b[i].stmts[j],
                    x,
                );
            assert(drops(a[i].stmts[j], x));
        }
        if dropped(a, x) {
            let (i, j) = choose|i: int, j: int|
                0 <= i < a.len() && 0 <= j < a[i].stmts.len() && drops(
                    #[trigger] a[i].stmts[j],
                    x,
                );
            assert(drops(b[i].stmts[j], x));
        }
    }
    if assigned_once(a) {
        assert forall|i: int, j: int, k: int, l: int, x: SsaLocal|
            #![trigger assigns(b[i].stmts[j], x), assigns(b[k].stmts[l], x)]
            0 <= i < b.len() && 0 <= j < b[i].stmts.len() && 0 <= k < b.len() && 0 <= l
                < b[k].stmts.len() && assigns(b[i].stmts[j], x) && assigns(
                b[k].stmts[l],
                x,
            ) implies i == k && j == l by {
            assert(assigns(a[i].stmts[j], x) && assigns(a[k].stmts[l], x));
        }
    }
    if dropped_once(a) {
        assert forall|i: int, j: int, k: int, l: int, x: SsaLocal|
            #![trigger drops(b[i].stmts[j], x), drops(b[k].stmts[l], x)]
            0 <= i < b.len() && 0 <= j < b[i].stmts.len() && 0 <= k < b.len() && 0 <= l
                < b[k].stmts.len() && drops(b[i].stmts[j], x) && drops(
                b[k].stmts[l],
                x,
            ) implies i == k && j == l by {
            assert(drops(a[i].stmts[j], x) && drops(a[k].stmts[l], x));
        }
    }
}

/// A new block.
pub proof fn lemma_new_block(b: Bs)
    requires
        sound(b),
    ensures
        sound(b.new_block()),
        b.cur < b.blocks.len() ==> kept(b, b.new_block()),
{
    reveal(sound);
    reveal(kept);
    let c = b.new_block();
    lemma_same_stmts(b.blocks, c.blocks);
    assert(locals_inside(c.blocks, c.versions.len())) by {
        reveal(locals_inside);
        assert forall|i: int, j: int|
            0 <= i < c.blocks.len() && 0 <= j < c.blocks[i].stmts.len() implies stmt_in(
            #[trigger] c.blocks[i].stmts[j],
            c.versions.len(),
        ) by {
            assert(stmt_in(b.blocks[i].stmts[j], b.versions.len()));
        }
    }
    assert forall|i: int| 0 <= i < c.blocks.len() implies jump_inside(
        (#[trigger] c.blocks[i]).terminator,
        c.blocks.len(),
    ) by {
        if i < b.blocks.len() {
            assert(c.blocks[i] == b.blocks[i]);
        }
    }
}

/// A terminator of the current block.
pub proof fn lemma_set_term(b: Bs, t: MirTerminatorView)
    requires
        sound(b),
        b.cur < b.blocks.len(),
        jump_inside(t, b.blocks.len()),
        terminator_in(t, b.versions.len()),
    ensures
        sound(b.set_term(t)),
        kept(b, b.set_term(t)),
{
    reveal(sound);
    reveal(kept);
    let c = b.set_term(t);
    lemma_same_stmts(b.blocks, c.blocks);
    assert(locals_inside(c.blocks, c.versions.len())) by {
        reveal(locals_inside);
        assert forall|i: int, j: int|
            0 <= i < c.blocks.len() && 0 <= j < c.blocks[i].stmts.len() implies stmt_in(
            #[trigger] c.blocks[i].stmts[j],
            c.versions.len(),
        ) by {
            assert(stmt_in(b.blocks[i].stmts[j], b.versions.len()));
        }
        assert forall|i: int| 0 <= i < c.blocks.len() implies terminator_in(
            (#[trigger] c.blocks[i]).terminator,
            c.versions.len(),
        ) by {
            if i != b.cur {
                assert(c.blocks[i] == b.blocks[i]);
            }
        }
    }
    assert forall|i: int| 0 <= i < c.blocks.len() implies jump_inside(
        (#[trigger] c.blocks[i]).terminator,
        c.blocks.len(),
    ) by {
        if i != b.cur {
            assert(c.blocks[i] == b.blocks[i]);
        }
    }
}

/// What a statement at the end of the current block adds.
proof fn lemma_pushed(b: Bs, s: MirStmtView, x: SsaLocal)
    requires
        b.cur < b.blocks.len(),
    ensures
        assigned(b.push_stmt(s).blocks, x) <==> assigned(b.blocks, x) || assigns(s, x),
        dropped(b.push_stmt(s).blocks, x) <==> dropped(b.blocks, x) || drops(s, x),
{
    let c = b.push_stmt(s).blocks;
    let n = b.block().stmts.len() as int;
    let cur = b.cur as int;
    assert(c[cur].stmts[n] == s);
    assert forall|i: int, j: int|
        0 <= i < b.blocks.len() && 0 <= j < b.blocks[i].stmts.len() implies #[trigger] c[i].stmts[j]
        == b.blocks[i].stmts[j] by {}
    if assigned(c, x) {
        let (i, j) = choose|i: int, j: int|
            0 <= i < c.len() && 0 <= j < c[i].stmts.len() && assigns(#[trigger] c[i].stmts[j], x);
        if !(i == cur && j == n) {
            assert(assigns(b.blocks[i].stmts[j], x));
        }
    }
    if assigned(b.blocks, x) {
        let (i, j) = choose|i: int, j: int|
            0 <= i < b.blocks.len() && 0 <= j < b.blocks[i].stmts.len() && assigns(
                #[trigger] b.blocks[i].stmts[j],
                x,
            );
        assert(assigns(c[i].stmts[j], x));
    }
    if assigns(s, x) {
        assert(assigns(c[cur].stmts[n], x));
    }
    if dropped(c, x) {
        let (i, j) = choose|i: int, j: int|
            0 <= i < c.len() && 0 <= j < c[i].stmts.len() && drops(#[trigger] c[i].stmts[j], x);
        if !(i == cur && j == n) {
            assert(drops(b.blocks[i].stmts[j], x));
        }
    }
    if dropped(b.blocks, x) {
        let (i, j) = choose|i: int, j: int|
            0 <= i < b.blocks.len() && 0 <= j < b.blocks[i].stmts.len() && drops(
                #[trigger] b.blocks[i].stmts[j],
                x,
            );
        assert(drops(c[i].stmts[j], x));
    }
    if drops(s, x) {
        assert(drops(c[cur].stmts[n], x));
    }
}

/// A statement at the end of the current block.
pub proof fn lemma_push_stmt(b: Bs, s: MirStmtView)
    requires
        sound(b),
        b.cur < b.blocks.len(),
        fits(b, s),
    ensures
        sound(b.push_stmt(s)),
{
    reveal(sound);
    let c = b.push_stmt(s);
    let n = b.block().stmts.len() as int;
    let cur = b.cur as int;
    assert(locals_inside(c.blocks, c.versions.len())) by {
        reveal(locals_inside);
        assert forall|i: int, j: int|
            0 <= i < c.blocks.len() && 0 <= j < c.blocks[i].stmts.len() implies stmt_in(
            #[trigger] c.blocks[i].stmts[j],
            c.versions.len(),
        ) by {
            if !(i == cur && j == n) {
                assert(stmt_in(b.blocks[i].stmts[j], b.versions.len()));
            }
        }
        assert forall|i: int| 0 <= i < c.blocks.len() implies terminator_in(
            (#[trigger] c.blocks[i]).terminator,
            c.versions.len(),
        ) by {
            assert(terminator_in(b.blocks[i].terminator, b.versions.len()));
        }
    }
    assert forall|x: SsaLocal|
        (#[trigger] assigned(c.blocks, x) <==> assigned(b.blocks, x) || assigns(s, x)) by {
        lemma_pushed(b, s, x);
    }
    assert forall|x: SsaLocal|
        (#[trigger] dropped(c.blocks, x) <==> dropped(b.blocks, x) || drops(s, x)) by {
        lemma_pushed(b, s, x);
    }
    assert forall|i: int| 0 <= i < c.blocks.len() implies jump_inside(
        (#[trigger] c.blocks[i]).terminator,
        c.blocks.len(),
    ) by {
        assert(jump_inside(b.blocks[i].terminator, b.blocks.len()));
    }
    assert forall|i: int, j: int, k: int, l: int, x: SsaLocal|
        #![trigger assigns(c.blocks[i].stmts[j], x), assigns(c.blocks[k].stmts[l], x)]
        0 <= i < c.blocks.len() && 0 <= j < c.blocks[i].stmts.len() && 0 <= k < c.blocks.len() && 0
            <= l < c.blocks[k].stmts.len() && assigns(c.blocks[i].stmts[j], x) && assigns(
            c.blocks[k].stmts[l],
            x,
        ) implies i == k && j == l by {
        let first = i == cur && j == n;
        let second = k == cur && l == n;
        if !first {
            assert(assigns(b.blocks[i].stmts[j], x));
        }
        if !second {
            assert(assigns(b.blocks[k].stmts[l], x));
        }
        if first && !second {
            assert(assigns(s, x));
            assert(assigned(b.blocks, x));
        }
        if second && !first {
            assert(assigns(s, x));
            assert(assigned(b.blocks, x));
        }
    }
    assert forall|i: int, j: int, k: int, l: int, x: SsaLocal|
        #![trigger drops(c.blocks[i].stmts[j], x), drops(c.blocks[k].stmts[l], x)]
        0 <= i < c.blocks.len() && 0 <= j < c.blocks[i].stmts.len() && 0 <= k < c.blocks.len() && 0
            <= l < c.blocks[k].stmts.len() && drops(c.blocks[i].stmts[j], x) && drops(
            c.blocks[k].stmts[l],
            x,
        ) implies i == k && j == l by {
        let first = i == cur && j == n;
        let second = k == cur && l == n;
        if !first {
            assert(drops(b.blocks[i].stmts[j], x));
        }
        if !second {
            assert(drops(b.blocks[k].stmts[l], x));
        }
        if first && !second {
            assert(drops(s, x));
            assert(dropped(b.blocks, x));
        }
        if second && !first {
            assert(drops(s, x));
            assert(dropped(b.blocks, x));
        }
    }
}

/// A statement that assigns no version, or one that is newer than all of `a`, at
/// the end of the current block.
pub proof fn lemma_push_kept(a: Bs, b: Bs, s: MirStmtView)
    requires
        kept(a, b),
        b.cur < b.blocks.len(),
        forall|x: SsaLocal| #[trigger]
            assigns(s, x) ==> x.base_id >= a.versions.len() || x.version
                > a.versions[x.base_id as int],
    ensures
        kept(a, b.push_stmt(s)),
{
    reveal(kept);
    let c = b.push_stmt(s);
    assert forall|x: SsaLocal|
        x.base_id < a.versions.len() && x.version <= a.versions[x.base_id as int]
            && #[trigger] assigned(c.blocks, x) implies assigned(a.blocks, x) by {
        lemma_pushed(b, s, x);
        assert(assigned(b.blocks, x));
    }
}

/// A state that differs from another in what neither soundness nor keeping speaks
/// of.
pub proof fn lemma_other_fields(a: Bs, b: Bs)
    requires
        sound(a),
        b.blocks == a.blocks,
        b.versions == a.versions,
        a.moved.subset_of(b.moved),
        forall|k: int|
            0 <= k < b.loops.len() ==> (#[trigger] b.loops[k]).break_target < b.blocks.len(),
    ensures
        sound(b),
        b.cur == a.cur ==> kept(a, b),
{
    reveal(sound);
    reveal(kept);
    assert forall|x: SsaLocal| #[trigger] dropped(b.blocks, x) implies b.moved.contains(x) by {
        assert(dropped(a.blocks, x));
        assert(a.moved.contains(x));
    }
}

/// Loops jump to blocks.
pub proof fn lemma_loops(b: Bs)
    requires
        sound(b),
    ensures
        forall|k: int|
            0 <= k < b.loops.len() ==> (#[trigger] b.loops[k]).break_target < b.blocks.len(),
{
    reveal(sound);
}

/// A new local.
pub proof fn lemma_new_local(a: Bs, b: Bs)
    requires
        sound(a),
        b.blocks == a.blocks,
        b.moved == a.moved,
        b.loops == a.loops,
        b.cur == a.cur,
        b.versions == a.versions.push(0),
    ensures
        sound(b),
        kept(a, b),
{
    reveal(sound);
    reveal(kept);
    lemma_locals_inside(a.blocks, a.versions.len(), b.versions.len());
    assert forall|x: SsaLocal| #[trigger] assigned(b.blocks, x) implies x.base_id
        < b.versions.len() && x.version <= b.versions[x.base_id as int] by {
        assert(assigned(a.blocks, x));
    }
}

/// The next version of a local, which nothing has assigned.
pub proof fn lemma_bump(b: Bs, id: usize)
    requires
        sound(b),
        id < b.versions.len(),
        b.bump(id) is Some,
    ensures
        ({
            let c = b.bump(id)->Some_0;
            &&& sound(c)
            &&& kept(b, c)
            &&& !assigned(c.blocks, c.ssa(id))
            &&& c.ssa(id).version > b.versions[id as int]
        }),
{
    reveal(sound);
    reveal(kept);
    let c = b.bump(id)->Some_0;
    assert forall|x: SsaLocal| #[trigger] assigned(c.blocks, x) implies x.base_id
        < c.versions.len() && x.version <= c.versions[x.base_id as int] by {
        assert(assigned(b.blocks, x));
    }
}

// Keeping is an order.

/// Nothing done keeps everything.
pub broadcast proof fn lemma_kept_same(a: Bs)
    ensures
        #[trigger] kept(a, a),
{
    reveal(kept);
}

/// What two parts of the work keep, both together do.
pub broadcast proof fn lemma_kept_both(a: Bs, b: Bs, c: Bs)
    requires
        #[trigger] kept(a, b),
        #[trigger] kept(b, c),
    ensures
        kept(a, c),
{
    reveal(kept);
    assert forall|i: int| 0 <= i < a.blocks.len() && i != a.cur implies #[trigger] c.blocks[i]
        == a.blocks[i] by {
        assert(b.blocks[i] == a.blocks[i]);
    }
    assert forall|i: int| 0 <= i < a.versions.len() implies #[trigger] c.versions[i]
        >= a.versions[i] by {
        assert(b.versions[i] >= a.versions[i]);
    }
    assert forall|x: SsaLocal|
        x.base_id < a.versions.len() && x.version <= a.versions[x.base_id as int]
            && #[trigger] assigned(c.blocks, x) implies assigned(a.blocks, x) by {
        assert(b.versions[x.base_id as int] >= a.versions[x.base_id as int]);
        assert(assigned(b.blocks, x));
    }
}

/// Going on in a block that was not there keeps what was.
pub broadcast proof fn lemma_switch(a: Bs, b: Bs, block: usize)
    requires
        #[trigger] kept(a, b),
        block >= a.blocks.len() || block == a.cur,
    ensures
        kept(a, #[trigger] b.switch(block)),
{
    reveal(kept);
}

pub broadcast group group_kept {
    lemma_kept_same,
    lemma_kept_both,
    lemma_switch,
}

/// A block that is not the current one stays as it is.
pub proof fn lemma_kept_block(a: Bs, b: Bs, i: int)
    requires
        kept(a, b),
        0 <= i < a.blocks.len(),
        i != a.cur,
    ensures
        b.blocks[i] == a.blocks[i],
{
    reveal(kept);
}

/// A version that nothing had assigned is not assigned.
pub proof fn lemma_kept_version(a: Bs, b: Bs, x: SsaLocal)
    requires
        kept(a, b),
        x.base_id < a.versions.len(),
        x.version <= a.versions[x.base_id as int],
        !assigned(a.blocks, x),
    ensures
        !assigned(b.blocks, x),
        x.base_id < b.versions.len(),
        x.version <= b.versions[x.base_id as int],
{
    reveal(kept);
    assert(b.versions[x.base_id as int] >= a.versions[x.base_id as int]);
}

} // verus!
