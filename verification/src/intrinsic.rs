//! What the functions of a program share: structures, variants, and what is built
//! into the language.
use crate::ast::{string_views, Type, TypeView};
use crate::hir::{
    hir_enum_views, hir_field_views, hir_struct_views, hir_variant_views, HirProgram,
    intrinsic_decl_views, IntrinsicFn, lemma_hir_enum_views, lemma_hir_field_views,
    lemma_hir_struct_views, lemma_hir_variant_views, lemma_intrinsic_decl_views,
};
use crate::lowering::{
    all_variants, count_variants, Ctx, ctx_of, enum_variants, field_named, field_type, full_name,
    intrinsic_from, is_constant_ref, resolve_intrinsic, sole_owner, struct_named, variant_index,
    variant_owner, variant_payload, VariantView,
};
use crate::text::{Chars, join3};
use vstd::prelude::*;

verus! {

/// A variant, with its enumeration and its place in it.
pub struct VariantInfo {
    pub enum_name: String,
    pub name: String,
    pub index: usize,
    pub ty: Option<Type>,
}

impl VariantInfo {
    /// The mathematical value of `self`.
    pub open spec fn model(self) -> VariantView {
        VariantView {
            enum_name: self.enum_name@,
            name: self.name@,
            index: self.index,
            ty: match self.ty {
                Some(t) => Some(t.model()),
                None => None,
            },
        }
    }
}

/// The mathematical values of a list of variants.
pub open spec fn variant_models(s: Seq<VariantInfo>) -> Seq<VariantView> {
    Seq::new(s.len(), |i: int| s[i].model())
}

/// What is known of the program around a function.
pub struct SharedContext<'a> {
    pub hir: &'a HirProgram,
    pub variants: Vec<VariantInfo>,
}

/// A qualifier as a mathematical value.
pub open spec fn qualifier_model(q: Option<String>) -> Option<Chars> {
    match q {
        Some(s) => Some(s@),
        None => None,
    }
}

/// The name of a function with its qualifier.
pub fn full_name_of(qualifier: &Option<String>, func: &String) -> (r: String)
    ensures
        r@ == full_name(qualifier_model(*qualifier), func@),
{
    match qualifier {
        Some(q) => join3(q.as_str(), "::", func.as_str()),
        None => func.clone(),
    }
}

/// A copy of an optional type.
pub fn dup_type(t: &Option<Type>) -> (r: Option<Type>)
    ensures
        (match r {
            Some(x) => Some(x.model()),
            None => None::<TypeView>,
        }) == (match *t {
            Some(x) => Some(x.model()),
            None => None::<TypeView>,
        }),
{
    match t {
        Some(x) => Some(x.dup()),
        None => None,
    }
}

impl<'a> SharedContext<'a> {
    /// The mathematical value of `self`.
    pub open spec fn model(self) -> Ctx {
        Ctx {
            structs: hir_struct_views(self.hir.structs@),
            variants: variant_models(self.variants@),
            intrinsics: intrinsic_decl_views(self.hir.intrinsics@),
            constants: string_views(self.hir.constants@),
        }
    }

    /// What a program shows its functions.
    #[verifier::spinoff_prover]
    pub fn new(hir: &'a HirProgram) -> (r: Self)
        ensures
            r.model() == ctx_of(hir.model()),
            r.hir == hir,
    {
        let ghost enums = hir_enum_views(hir.enums@);
        let mut variants: Vec<VariantInfo> = Vec::new();
        let mut i: usize = 0;
        proof {
            lemma_hir_enum_views(hir.enums@);
            assert(variant_models(variants@) =~= Seq::<VariantView>::empty());
        }
        while i < hir.enums.len()
            invariant
                i <= hir.enums.len(),
                enums == hir_enum_views(hir.enums@),
                enums.len() == hir.enums@.len(),
                forall|k: int|
                    0 <= k < hir.enums@.len() ==> #[trigger] enums[k] == hir.enums@[k].model(),
                variant_models(variants@) == all_variants(enums, i as nat),
            decreases hir.enums.len() - i,
        {
            let e = &hir.enums[i];
            let ghost ev = enums[i as int];
            let ghost before = variants@;
            let mut k: usize = 0;
            proof {
                lemma_hir_variant_views(e.variants@);
                assert(ev == e.model());
                assert(ev.variants == hir_variant_views(e.variants@));
                assert(variant_models(variants@) =~= variant_models(before) + enum_variants(ev, 0));
            }
            while k < e.variants.len()
                invariant
                    k <= e.variants.len(),
                    ev == e.model(),
                    ev.variants == hir_variant_views(e.variants@),
                    ev.variants.len() == e.variants@.len(),
                    forall|m: int|
                        0 <= m < e.variants@.len() ==> #[trigger] ev.variants[m]
                            == e.variants@[m].model(),
                    variant_models(variants@) == variant_models(before) + enum_variants(
                        ev,
                        k as nat,
                    ),
                decreases e.variants.len() - k,
            {
                let v = &e.variants[k];
                let info = VariantInfo {
                    enum_name: e.name.clone(),
                    name: v.name.clone(),
                    index: k,
                    ty: dup_type(&v.ty),
                };
                let ghost prev = variants@;
                assert(ev.variants[k as int] == v.model());
                variants.push(info);
                k = k + 1;
                assert(variant_models(variants@) =~= variant_models(prev).push(info.model()));
                assert(enum_variants(ev, k as nat) =~= enum_variants(ev, (k - 1) as nat).push(
                    info.model(),
                ));
                assert(variant_models(variants@) =~= variant_models(before) + enum_variants(
                    ev,
                    k as nat,
                ));
            }
            i = i + 1;
        }
        let r = SharedContext { hir, variants };
        assert(hir.model().enums == enums);
        r
    }

    /// The type of a field of a structure.
    #[verifier::spinoff_prover]
    pub fn field_type(&self, struct_name: &String, field: &String) -> (r: Option<Type>)
        ensures
            match r {
                Some(t) => field_type(self.model(), struct_name@, field@) == Some(t.model()),
                None => field_type(self.model(), struct_name@, field@) is None,
            },
    {
        let structs = &self.hir.structs;
        let ghost views = self.model().structs;
        proof {
            lemma_hir_struct_views(structs@);
        }
        let mut i: usize = structs.len();
        while i > 0
            invariant
                i <= structs.len(),
                *structs == self.hir.structs,
                views == self.model().structs,
                views.len() == structs@.len(),
                forall|k: int|
                    0 <= k < structs@.len() ==> #[trigger] views[k] == structs@[k].model(),
                struct_named(views, views.len(), struct_name@) == struct_named(
                    views,
                    i as nat,
                    struct_name@,
                ),
            decreases i,
        {
            i = i - 1;
            let s = &structs[i];
            let ghost sv = views[i as int];
            assert(sv == s.model());
            if s.name.as_str().eq(struct_name.as_str()) {
                proof {
                    lemma_hir_field_views(s.fields@);
                    assert(sv.fields == hir_field_views(s.fields@));
                }
                let mut j: usize = s.fields.len();
                while j > 0
                    invariant
                        j <= s.fields.len(),
                        sv.fields == hir_field_views(s.fields@),
                        sv.fields.len() == s.fields@.len(),
                        forall|k: int|
                            0 <= k < s.fields@.len() ==> #[trigger] sv.fields[k]
                                == s.fields@[k].model(),
                        field_type(self.model(), struct_name@, field@) == field_named(
                            sv.fields,
                            j as nat,
                            field@,
                        ),
                    decreases j,
                {
                    j = j - 1;
                    assert(sv.fields[j as int] == s.fields@[j as int].model());
                    if s.fields[j].name.as_str().eq(field.as_str()) {
                        return Some(s.fields[j].ty.dup());
                    }
                }
                return None;
            }
        }
        None
    }

    /// The enumeration of the variant with that name, if just one variant of the
    /// program has it.
    #[verifier::spinoff_prover]
    pub fn sole_owner(&self, name: &String) -> (r: Option<String>)
        ensures
            match r {
                Some(s) => sole_owner(self.model(), name@) == Some(s@),
                None => sole_owner(self.model(), name@) is None,
            },
    {
        let ghost vs = self.model().variants;
        let mut count: usize = 0;
        let mut owner: Option<String> = None;
        let mut i: usize = 0;
        while i < self.variants.len()
            invariant
                i <= self.variants.len(),
                vs == variant_models(self.variants@),
                vs == self.model().variants,
                count <= i,
                count == count_variants(vs, i as nat, name@),
                match owner {
                    Some(s) => variant_owner(vs, i as nat, name@) == Some(s@),
                    None => variant_owner(vs, i as nat, name@) is None,
                },
            decreases self.variants.len() - i,
        {
            assert(vs[i as int] == self.variants@[i as int].model());
            if self.variants[i].name.as_str().eq(name.as_str()) {
                count = count + 1;
                owner = Some(self.variants[i].enum_name.clone());
            }
            i = i + 1;
        }
        if count == 1 {
            owner
        } else {
            None
        }
    }

    /// The place of a variant in its enumeration.
    #[verifier::spinoff_prover]
    pub fn variant_index(&self, enum_name: &String, name: &String) -> (r: Option<usize>)
        ensures
            r == variant_index(
                self.model().variants,
                self.model().variants.len(),
                enum_name@,
                name@,
            ),
    {
        let ghost vs = self.model().variants;
        let mut i: usize = self.variants.len();
        while i > 0
            invariant
                i <= self.variants.len(),
                vs == variant_models(self.variants@),
                variant_index(vs, vs.len(), enum_name@, name@) == variant_index(
                    vs,
                    i as nat,
                    enum_name@,
                    name@,
                ),
            decreases i,
        {
            i = i - 1;
            assert(vs[i as int] == self.variants@[i as int].model());
            if self.variants[i].enum_name.as_str().eq(enum_name.as_str())
                && self.variants[i].name.as_str().eq(name.as_str()) {
                return Some(self.variants[i].index);
            }
        }
        None
    }

    /// The type of the value of a variant.
    #[verifier::spinoff_prover]
    pub fn variant_payload(&self, enum_name: &String, name: &String) -> (r: Option<Type>)
        ensures
            ({
                let vs = self.model().variants;
                match r {
                    Some(t) => variant_payload(vs, vs.len(), enum_name@, name@) == Some(t.model()),
                    None => variant_payload(vs, vs.len(), enum_name@, name@) is None,
                }
            }),
    {
        let ghost vs = self.model().variants;
        let mut i: usize = self.variants.len();
        while i > 0
            invariant
                i <= self.variants.len(),
                vs == variant_models(self.variants@),
                variant_payload(vs, vs.len(), enum_name@, name@) == variant_payload(
                    vs,
                    i as nat,
                    enum_name@,
                    name@,
                ),
            decreases i,
        {
            i = i - 1;
            assert(vs[i as int] == self.variants@[i as int].model());
            if self.variants[i].enum_name.as_str().eq(enum_name.as_str())
                && self.variants[i].name.as_str().eq(name.as_str()) {
                if let Some(t) = &self.variants[i].ty {
                    return Some(t.dup());
                }
            }
        }
        None
    }

    /// The constant that is built in that a call names, if it names one.
    #[verifier::spinoff_prover]
    pub fn try_resolve_constant_ref(
        &self,
        qualifier: &Option<String>,
        func: &String,
        is_method: bool,
        args: usize,
    ) -> (r: Option<String>)
        ensures
            r is Some == is_constant_ref(
                self.model(),
                qualifier_model(*qualifier),
                func@,
                is_method,
                args as nat,
            ),
            r matches Some(s) ==> s@ == full_name(qualifier_model(*qualifier), func@),
    {
        if is_method || args != 0 {
            return None;
        }
        let name = full_name_of(qualifier, func);
        let constants = &self.hir.constants;
        let ghost views = self.model().constants;
        proof {
            crate::ast::lemma_string_views(constants@);
        }
        let mut i: usize = 0;
        while i < constants.len()
            invariant
                i <= constants.len(),
                views.len() == constants@.len(),
                views == self.model().constants,
                forall|k: int| 0 <= k < constants@.len() ==> #[trigger] views[k] == constants@[k]@,
                forall|k: int| 0 <= k < i ==> #[trigger] views[k] != name@,
                name@ == full_name(qualifier_model(*qualifier), func@),
                !is_method,
                args == 0,
            decreases constants.len() - i,
        {
            assert(views[i as int] == constants@[i as int]@);
            if constants[i].as_str().eq(name.as_str()) {
                assert(views.contains(name@));
                return Some(name);
            }
            i = i + 1;
        }
        assert(!views.contains(name@));
        None
    }

    /// The function that is built in that a call means, if any, or why it may not
    /// be called here.
    #[verifier::spinoff_prover]
    pub fn resolve_intrinsic_call(
        &self,
        qualifier: &Option<String>,
        func: &String,
        in_forward: bool,
        in_unsafe: bool,
        diverges: bool,
    ) -> (r: Result<Option<IntrinsicFn>, String>)
        ensures
            ({
                let want = resolve_intrinsic(
                    self.model(),
                    qualifier_model(*qualifier),
                    func@,
                    in_forward,
                    in_unsafe,
                    diverges,
                );
                match r {
                    Ok(id) => want == Ok::<Option<IntrinsicFn>, Chars>(id),
                    Err(e) => want == Err::<Option<IntrinsicFn>, Chars>(e@),
                }
            }),
    {
        let name = full_name_of(qualifier, func);
        let list = &self.hir.intrinsics;
        let ghost views = self.model().intrinsics;
        proof {
            lemma_intrinsic_decl_views(list@);
        }
        let mut i: usize = 0;
        while i < list.len()
            invariant
                i <= list.len(),
                views == self.model().intrinsics,
                views.len() == list@.len(),
                forall|k: int| 0 <= k < list@.len() ==> #[trigger] views[k] == list@[k].model(),
                name@ == full_name(qualifier_model(*qualifier), func@),
                intrinsic_from(views, 0, name@) == intrinsic_from(views, i as int, name@),
            decreases list.len() - i,
        {
            let d = &list[i];
            assert(views[i as int] == d.model());
            if d.name.as_str().eq(name.as_str()) {
                return if d.unsafe_only && !in_unsafe {
                    Err(join3("intrinsic `", name.as_str(), "` requires an unsafe block"))
                } else if d.forward_only && !in_forward {
                    Err(join3("intrinsic `", name.as_str(), "` is only allowed in forward"))
                } else if d.never_returns && !diverges {
                    Err(join3("intrinsic `", name.as_str(), "` must have type never"))
                } else {
                    Ok(Some(d.id))
                };
            }
            i = i + 1;
        }
        Ok(None)
    }
}

} // verus!
