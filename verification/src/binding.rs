//! The names of a pattern stand for the parts of the value that is matched.
use crate::ast::{LiteralView, PatternView, TypeView};
use crate::lowering::{
    bind_elements, bind_fields, bind_members, bind_part, bind_payload, Bs, cond_place, Ctx,
    sole_owner,
};
use crate::meaning::{Machine, Names, operand_value, place_value, point_at, reaches, State};
use crate::mir::{MirOperandView, MirPlaceView, MirRvalueView, MirStmtView, SsaLocal};
use crate::preservation::{
    agrees, assigned, extends, lemma_extends_trans, lemma_reach_join, lemma_reach_more,
    lemma_reach_self, sound,
};
use crate::running::{apart, lemma_bound, lemma_extends_self, lemma_pushed};
use crate::text::{Chars, decimal};
use vstd::prelude::*;

verus! {

/// Names with one more in the innermost scope.
pub open spec fn with_name<V>(names: Names<V>, name: Chars, v: V) -> Names<V> {
    names.drop_last().push(names.last().push((name, v)))
}

/// Names with those of fields from the `i`-th on, which stand for the fields of `v`.
pub open spec fn with_fields<V>(
    m: Machine<V>,
    names: Names<V>,
    v: V,
    list: Seq<(Chars, Chars)>,
    i: nat,
) -> Names<V>
    decreases list.len() - i,
{
    if i >= list.len() {
        names
    } else {
        with_fields(
            m,
            with_name(names, list[i as int].1, (m.field)(v, list[i as int].0)),
            v,
            list,
            i + 1,
        )
    }
}

/// Names with those of a list from the `i`-th on, where there is one, which stand for the
/// parts of a value.
pub open spec fn with_parts<V>(
    names: Names<V>,
    part: spec_fn(nat) -> V,
    list: Seq<Option<Chars>>,
    i: nat,
) -> Names<V>
    decreases list.len() - i,
{
    if i >= list.len() {
        names
    } else {
        with_parts(
            match list[i as int] {
                Some(name) => with_name(names, name, part(i)),
                None => names,
            },
            part,
            list,
            i + 1,
        )
    }
}

/// Whether a run of what was built takes `s` to `s1`, in which the names have their values
/// and the value that is matched is still there.
pub open spec fn binds<V>(
    m: Machine<V>,
    b: Bs,
    s: State<V>,
    b1: Bs,
    s1: State<V>,
    cond: usize,
    names: Names<V>,
) -> bool {
    &&& extends(b.blocks, b1.blocks)
    &&& reaches(m, false, b1.blocks, point_at(b, s), point_at(b1, s1))
    &&& sound(b1)
    &&& apart(b1)
    &&& b1.scope.len() > 0
    &&& b1.locals.len() >= b.locals.len()
    &&& agrees(false, b1, s1.store, names)
    &&& s1.log == s.log
    &&& s1.store[SsaLocal { base_id: cond, version: 0 }] == s.store[SsaLocal {
        base_id: cond,
        version: 0,
    }]
}

/// Whether a run of what was built comes to such a state.
pub open spec fn can_bind<V>(
    m: Machine<V>,
    b: Bs,
    s: State<V>,
    b1: Bs,
    cond: usize,
    names: Names<V>,
) -> bool {
    exists|s1: State<V>| binds(m, b, s, b1, s1, cond, names)
}

/// A name for one part.
proof fn lemma_part<V>(
    m: Machine<V>,
    b: Bs,
    s: State<V>,
    names: Names<V>,
    cond: usize,
    name: Chars,
    ty: TypeView,
    part: MirPlaceView,
) -> (s1: State<V>)
    requires
        sound(b),
        apart(b),
        b.scope.len() > 0,
        cond < b.locals.len() < usize::MAX,
        agrees(false, b, s.store, names),
    ensures
        bind_part(b, cond, name, ty, part) matches Some(b1) ==> b1.locals.len() == b.locals.len()
            + 1 && b1.blocks.len() == b.blocks.len() && binds(
            m,
            b,
            s,
            b1,
            s1,
            cond,
            with_name(names, name, place_value(m, false, s.store, part)),
        ),
{
    let id = b.next_local();
    let b0 = b.new_var(name, ty, false);
    let rv = MirRvalueView::Use(MirOperandView::Move(part));
    match b0.define(id, rv) {
        None => s,
        Some(b1) => {
            let b2 = b1.bind(name, id).mark_moved(b1.ssa(cond));
            let d = MirStmtView::Assign { dest: MirPlaceView::Ssa(b1.ssa(id)), value: rv };
            let s1 = assigned(m, false, s, b1.ssa(id), rv);
            lemma_pushed(m, b, s, b2, d, s1);
            let v = place_value(m, false, s.store, part);
            assert(operand_value(m, false, s.store, MirOperandView::Move(part)) == v);
            lemma_bound(b, b2, s.store, s1.store, names, name, id, v);
            s1
        },
    }
}

/// Bindings behind bindings.
proof fn lemma_binds_trans<V>(
    m: Machine<V>,
    b: Bs,
    s: State<V>,
    b1: Bs,
    s1: State<V>,
    b2: Bs,
    s2: State<V>,
    cond: usize,
    names1: Names<V>,
    names2: Names<V>,
)
    requires
        binds(m, b, s, b1, s1, cond, names1),
        binds(m, b1, s1, b2, s2, cond, names2),
    ensures
        binds(m, b, s, b2, s2, cond, names2),
{
    lemma_extends_trans(b.blocks, b1.blocks, b2.blocks);
    lemma_reach_more(m, false, b1.blocks, b2.blocks, point_at(b, s), point_at(b1, s1));
    lemma_reach_join(m, false, b2.blocks, point_at(b, s), point_at(b1, s1), point_at(b2, s2));
}

proof fn lemma_no_binding<V>(m: Machine<V>, b: Bs, s: State<V>, cond: usize, names: Names<V>)
    requires
        sound(b),
        apart(b),
        b.scope.len() > 0,
        agrees(false, b, s.store, names),
    ensures
        binds(m, b, s, b, s, cond, names),
{
    lemma_extends_self(b.blocks);
    lemma_reach_self(m, false, b.blocks, point_at(b, s));
}

#[verifier::rlimit(40)]
proof fn lemma_fields<V>(
    m: Machine<V>,
    c: Ctx,
    b: Bs,
    s: State<V>,
    names: Names<V>,
    cond: usize,
    struct_name: Chars,
    list: Seq<(Chars, Chars)>,
    i: nat,
) -> (s2: State<V>)
    requires
        i <= list.len(),
        sound(b),
        apart(b),
        b.scope.len() > 0,
        cond < b.locals.len(),
        b.locals.len() + list.len() - i <= usize::MAX,
        agrees(false, b, s.store, names),
    ensures
        bind_fields(c, b, cond, struct_name, list, i) matches Ok(b2) ==> binds(
            m,
            b,
            s,
            b2,
            s2,
            cond,
            with_fields(m, names, s.store[SsaLocal { base_id: cond, version: 0 }], list, i),
        ),
    decreases list.len() - i,
{
    if i >= list.len() {
        lemma_no_binding(m, b, s, cond, names);
        s
    } else {
        let v = s.store[SsaLocal { base_id: cond, version: 0 }];
        let (field, name) = list[i as int];
        match crate::lowering::field_type(c, struct_name, field) {
            None => s,
            Some(ty) => {
                let base = cond_place(b, cond);
                let part = MirPlaceView::Field { base: Box::new(base), field };
                assert(place_value(m, false, s.store, base) == v);
                assert(place_value(m, false, s.store, part) == (m.field)(v, field));
                let s1 = lemma_part(m, b, s, names, cond, name, ty, part);
                match bind_part(b, cond, name, ty, part) {
                    None => s,
                    Some(b1) => {
                        let names1 = with_name(names, name, (m.field)(v, field));
                        let s2 = lemma_fields(
                            m,
                            c,
                            b1,
                            s1,
                            names1,
                            cond,
                            struct_name,
                            list,
                            i + 1,
                        );
                        if let Ok(b2) = bind_fields(c, b1, cond, struct_name, list, i + 1) {
                            lemma_binds_trans(
                                m,
                                b,
                                s,
                                b1,
                                s1,
                                b2,
                                s2,
                                cond,
                                names1,
                                with_fields(m, names1, v, list, i + 1),
                            );
                        }
                        s2
                    },
                }
            },
        }
    }
}

/// The member of a tuple at a place.
pub open spec fn member_of<V>(m: Machine<V>, v: V) -> spec_fn(nat) -> V {
    |i: nat| (m.field)(v, decimal(i))
}

/// The element of an array at a place.
pub open spec fn element_of<V>(m: Machine<V>, v: V) -> spec_fn(nat) -> V {
    |i: nat| (m.index)(v, (m.literal)(LiteralView::Usize(i as usize)))
}

#[verifier::rlimit(40)]
proof fn lemma_members<V>(
    m: Machine<V>,
    b: Bs,
    s: State<V>,
    names: Names<V>,
    cond: usize,
    tys: Seq<TypeView>,
    list: Seq<Option<Chars>>,
    i: nat,
) -> (s2: State<V>)
    requires
        i <= list.len(),
        sound(b),
        apart(b),
        b.scope.len() > 0,
        cond < b.locals.len(),
        b.locals.len() + list.len() - i <= usize::MAX,
        agrees(false, b, s.store, names),
    ensures
        bind_members(b, cond, tys, list, i) matches Ok(b2) ==> binds(
            m,
            b,
            s,
            b2,
            s2,
            cond,
            with_parts(
                names,
                member_of(m, s.store[SsaLocal { base_id: cond, version: 0 }]),
                list,
                i,
            ),
        ),
    decreases list.len() - i,
{
    let v = s.store[SsaLocal { base_id: cond, version: 0 }];
    let f = member_of(m, v);
    if i >= list.len() {
        lemma_no_binding(m, b, s, cond, names);
        s
    } else {
        match list[i as int] {
            None => lemma_members(m, b, s, names, cond, tys, list, i + 1),
            Some(name) => if i >= tys.len() {
                s
            } else {
                let base = cond_place(b, cond);
                let part = MirPlaceView::Field { base: Box::new(base), field: decimal(i) };
                assert(place_value(m, false, s.store, base) == v);
                assert(place_value(m, false, s.store, part) == f(i));
                let s1 = lemma_part(m, b, s, names, cond, name, tys[i as int], part);
                match bind_part(b, cond, name, tys[i as int], part) {
                    None => s,
                    Some(b1) => {
                        let names1 = with_name(names, name, f(i));
                        let s2 = lemma_members(m, b1, s1, names1, cond, tys, list, i + 1);
                        if let Ok(b2) = bind_members(b1, cond, tys, list, i + 1) {
                            lemma_binds_trans(
                                m,
                                b,
                                s,
                                b1,
                                s1,
                                b2,
                                s2,
                                cond,
                                names1,
                                with_parts(names1, f, list, i + 1),
                            );
                        }
                        s2
                    },
                }
            },
        }
    }
}

#[verifier::rlimit(40)]
proof fn lemma_elements<V>(
    m: Machine<V>,
    b: Bs,
    s: State<V>,
    names: Names<V>,
    cond: usize,
    ty: TypeView,
    list: Seq<Option<Chars>>,
    i: nat,
) -> (s2: State<V>)
    requires
        i <= list.len(),
        sound(b),
        apart(b),
        b.scope.len() > 0,
        cond < b.locals.len(),
        b.locals.len() + list.len() - i <= usize::MAX,
        agrees(false, b, s.store, names),
    ensures
        bind_elements(b, cond, ty, list, i) matches Ok(b2) ==> binds(
            m,
            b,
            s,
            b2,
            s2,
            cond,
            with_parts(
                names,
                element_of(m, s.store[SsaLocal { base_id: cond, version: 0 }]),
                list,
                i,
            ),
        ),
    decreases list.len() - i,
{
    let v = s.store[SsaLocal { base_id: cond, version: 0 }];
    let f = element_of(m, v);
    if i >= list.len() {
        lemma_no_binding(m, b, s, cond, names);
        s
    } else {
        match list[i as int] {
            None => lemma_elements(m, b, s, names, cond, ty, list, i + 1),
            Some(name) => {
                let base = cond_place(b, cond);
                let at = MirOperandView::Constant(LiteralView::Usize(i as usize));
                let part = MirPlaceView::Index { base: Box::new(base), index: Box::new(at) };
                assert(place_value(m, false, s.store, base) == v);
                assert(operand_value(m, false, s.store, at) == (m.literal)(
                    LiteralView::Usize(i as usize),
                ));
                assert(place_value(m, false, s.store, part) == f(i));
                let s1 = lemma_part(m, b, s, names, cond, name, ty, part);
                match bind_part(b, cond, name, ty, part) {
                    None => s,
                    Some(b1) => {
                        let names1 = with_name(names, name, f(i));
                        let s2 = lemma_elements(m, b1, s1, names1, cond, ty, list, i + 1);
                        if let Ok(b2) = bind_elements(b1, cond, ty, list, i + 1) {
                            lemma_binds_trans(
                                m,
                                b,
                                s,
                                b1,
                                s1,
                                b2,
                                s2,
                                cond,
                                names1,
                                with_parts(names1, f, list, i + 1),
                            );
                        }
                        s2
                    },
                }
            },
        }
    }
}

/// The names of a pattern for a structure stand for its fields, those for a tuple for its
/// members, and those for an array for its elements, each for the one at its place.
pub proof fn patterns_bind_the_parts<V>(
    m: Machine<V>,
    c: Ctx,
    b: Bs,
    s: State<V>,
    names: Names<V>,
    cond: usize,
    struct_name: Chars,
    fields: Seq<(Chars, Chars)>,
    tys: Seq<TypeView>,
    ty: TypeView,
    list: Seq<Option<Chars>>,
)
    requires
        sound(b),
        apart(b),
        b.scope.len() > 0,
        cond < b.locals.len(),
        b.locals.len() + fields.len() <= usize::MAX,
        b.locals.len() + list.len() <= usize::MAX,
        agrees(false, b, s.store, names),
    ensures
        ({
            let v = s.store[SsaLocal { base_id: cond, version: 0 }];
            &&& bind_fields(c, b, cond, struct_name, fields, 0) matches Ok(b1) ==> exists|
                s1: State<V>,
            | #[trigger]
                binds(m, b, s, b1, s1, cond, with_fields(m, names, v, fields, 0))
            &&& bind_members(b, cond, tys, list, 0) matches Ok(b1) ==> exists|s1: State<V>|
                #[trigger] binds(
                    m,
                    b,
                    s,
                    b1,
                    s1,
                    cond,
                    with_parts(names, member_of(m, v), list, 0),
                )
            &&& bind_elements(b, cond, ty, list, 0) matches Ok(b1) ==> exists|s1: State<V>|
                #[trigger] binds(
                    m,
                    b,
                    s,
                    b1,
                    s1,
                    cond,
                    with_parts(names, element_of(m, v), list, 0),
                )
        }),
{
    let s1 = lemma_fields(m, c, b, s, names, cond, struct_name, fields, 0);
    let s2 = lemma_members(m, b, s, names, cond, tys, list, 0);
    let s3 = lemma_elements(m, b, s, names, cond, ty, list, 0);
}

/// The name in a pattern for a variant stands for the value of the variant; other patterns
/// for an enumeration bind nothing.
pub proof fn variant_patterns_bind_the_value<V>(
    m: Machine<V>,
    c: Ctx,
    b: Bs,
    s: State<V>,
    names: Names<V>,
    cond: usize,
    p: PatternView,
)
    requires
        sound(b),
        apart(b),
        b.scope.len() > 0,
        cond < b.locals.len() < usize::MAX,
        agrees(false, b, s.store, names),
    ensures
        bind_payload(c, b, cond, p) matches Ok(b1) ==> match p {
            PatternView::EnumVariantWithBinding { enum_name, variant_name, binding } => {
                let v = s.store[SsaLocal { base_id: cond, version: 0 }];
                let owner = sole_owner(c, variant_name)->0;
                can_bind(
                    m,
                    b,
                    s,
                    b1,
                    cond,
                    with_name(names, binding, (m.payload)(v, owner, variant_name)),
                )
            },
            _ => b1 == b,
        },
{
    match p {
        PatternView::EnumVariantWithBinding { enum_name, variant_name, binding } => {
            if let Some(owner) = sole_owner(c, variant_name) {
                if let Some(ty) = crate::lowering::variant_payload(
                    c.variants,
                    c.variants.len(),
                    owner,
                    variant_name,
                ) {
                    let v = s.store[SsaLocal { base_id: cond, version: 0 }];
                    let base = cond_place(b, cond);
                    let part = MirPlaceView::EnumPayload {
                        base: Box::new(base),
                        enum_name: owner,
                        variant_name,
                    };
                    assert(place_value(m, false, s.store, base) == v);
                    assert(place_value(m, false, s.store, part) == (m.payload)(
                        v,
                        owner,
                        variant_name,
                    ));
                    let s1 = lemma_part(m, b, s, names, cond, binding, ty, part);
                    if let Some(b1) = bind_part(b, cond, binding, ty, part) {
                        assert(bind_payload(c, b, cond, p) == Ok::<Bs, Chars>(b1));
                        let names1 = with_name(
                            names,
                            binding,
                            (m.payload)(v, owner, variant_name),
                        );
                        assert(binds(m, b, s, b1, s1, cond, names1));
                        assert(can_bind(m, b, s, b1, cond, names1));
                    }
                }
            }
        },
        _ => {},
    }
}

} // verus!
