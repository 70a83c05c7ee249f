//! The files of the standard library: which they are and in what order they load.
use crate::text::{Chars, chars_of, text_of};
use super::config::texts;
use vstd::prelude::*;

verus! {

/// The last place of a character before `n`, or -1.
pub open spec fn last_place(s: Chars, c: char, n: int) -> int
    decreases n,
{
    if n <= 0 {
        -1
    } else if s[n - 1] == c {
        n - 1
    } else {
        last_place(s, c, n - 1)
    }
}

/// The name of a file without its extension: all before the last dot, unless the
/// name starts there.
pub open spec fn stem(name: Chars) -> Chars {
    let dot = last_place(name, '.', name.len() as int);
    if dot <= 0 {
        name
    } else {
        name.take(dot)
    }
}

/// Whether a file belongs to the standard library: whether its extension is
/// `xiyi`.
pub open spec fn is_module(name: Chars) -> bool {
    let dot = last_place(name, '.', name.len() as int);
    dot > 0 && name.skip(dot + 1) == "xiyi"@
}

/// The name under which a file's definitions are reported.
pub open spec fn label_of(name: Chars) -> Chars {
    if name.len() == 0 || name == "."@ || name == ".."@ {
        "<unknown>"@
    } else {
        stem(name)
    }
}

/// The order of texts by their characters.
pub open spec fn text_le(a: Chars, b: Chars) -> bool
    decreases a.len(),
{
    if a.len() == 0 {
        true
    } else if b.len() == 0 {
        false
    } else if a[0] != b[0] {
        (a[0] as int) < (b[0] as int)
    } else {
        text_le(a.skip(1), b.skip(1))
    }
}

/// Each text is at most the ones behind it.
pub open spec fn in_order(list: Seq<Chars>) -> bool {
    forall|i: int, j: int|
        0 <= i < j < list.len() ==> text_le(#[trigger] list[i], #[trigger] list[j])
}

/// Two texts are in order one way or the other.
pub proof fn text_order_is_total(a: Chars, b: Chars)
    ensures
        text_le(a, b) || text_le(b, a),
    decreases a.len(),
{
    if a.len() > 0 && b.len() > 0 && a[0] == b[0] {
        text_order_is_total(a.skip(1), b.skip(1));
    }
}

/// Where one text is at most a second, and that one at most a third, the first is
/// at most the third.
pub proof fn text_order_is_transitive(a: Chars, b: Chars, c: Chars)
    requires
        text_le(a, b),
        text_le(b, c),
    ensures
        text_le(a, c),
    decreases a.len(),
{
    if a.len() > 0 && a[0] == b[0] && b[0] == c[0] {
        text_order_is_transitive(a.skip(1), b.skip(1), c.skip(1));
    }
}

/// Two texts that are in order both ways are the same.
pub proof fn text_order_is_antisymmetric(a: Chars, b: Chars)
    requires
        text_le(a, b),
        text_le(b, a),
    ensures
        a == b,
    decreases a.len(),
{
    if a.len() > 0 {
        text_order_is_antisymmetric(a.skip(1), b.skip(1));
        assert(a =~= seq![a[0]] + a.skip(1));
        assert(b =~= seq![b[0]] + b.skip(1));
    } else {
        assert(a =~= b);
    }
}

/// The names among a list that are in it and belong to the library, but for
/// `lib.xiyi`.
pub open spec fn plain_modules(names: Seq<Chars>) -> Seq<Chars> {
    names.filter(|n: Chars| is_module(n) && n != "lib.xiyi"@)
}

/// Whether a list holds the files of the standard library in the order in which
/// they load: by name, with `lib.xiyi` at the end.
pub open spec fn load_order(names: Seq<Chars>, list: Seq<Chars>) -> bool {
    let lib = names.contains("lib.xiyi"@);
    let plain = if lib {
        list.drop_last()
    } else {
        list
    };
    &&& lib ==> list.len() > 0 && list.last() == "lib.xiyi"@
    &&& in_order(plain)
    &&& plain.to_multiset() == plain_modules(names).to_multiset()
}

/// The last dot of a name, if it has one.
fn last_dot(chars: &Vec<char>) -> (r: Option<usize>)
    ensures
        match r {
            Some(i) => i == last_place(chars@, '.', chars@.len() as int) && i < chars.len(),
            None => last_place(chars@, '.', chars@.len() as int) == -1,
        },
{
    let mut i: usize = chars.len();
    while i > 0
        invariant
            i <= chars.len(),
            last_place(chars@, '.', chars@.len() as int) == last_place(chars@, '.', i as int),
        decreases i,
    {
        i = i - 1;
        if chars[i] == '.' {
            return Some(i);
        }
    }
    None
}

/// The name under which a file's definitions are reported.
pub fn module_label(name: &str) -> (r: String)
    ensures
        r@ == label_of(name@),
{
    let chars = chars_of(name);
    if chars.len() == 0 || name.eq(".") || name.eq("..") {
        return "<unknown>".to_string();
    }
    match last_dot(&chars) {
        Some(dot) => {
            if dot == 0 {
                name.to_string()
            } else {
                let r = text_of(&chars, 0, dot);
                assert(r@ =~= name@.take(dot as int));
                r
            }
        },
        None => name.to_string(),
    }
}

/// Whether a file belongs to the standard library.
fn has_module_extension(name: &str) -> (r: bool)
    ensures
        r == is_module(name@),
{
    let chars = chars_of(name);
    match last_dot(&chars) {
        Some(dot) => {
            if dot == 0 {
                false
            } else {
                let extension = text_of(&chars, dot + 1, chars.len());
                assert(extension@ =~= name@.skip(dot + 1));
                extension.as_str().eq("xiyi")
            }
        },
        None => false,
    }
}

/// The number of a character.
fn code_of(c: char) -> (r: u32)
    ensures
        r as int == c as int,
{
    c as u32
}

/// Whether a text is at most another.
#[verifier::spinoff_prover]
fn at_most(a: &str, b: &str) -> (r: bool)
    ensures
        r == text_le(a@, b@),
{
    let x = chars_of(a);
    let y = chars_of(b);
    let mut i: usize = 0;
    assert(x@.skip(0) =~= x@);
    assert(y@.skip(0) =~= y@);
    while i < x.len() && i < y.len()
        invariant
            i <= x.len(),
            i <= y.len(),
            x@ == a@,
            y@ == b@,
            text_le(a@, b@) == text_le(x@.skip(i as int), y@.skip(i as int)),
        decreases x.len() - i,
    {
        let p: u32 = code_of(x[i]);
        let q: u32 = code_of(y[i]);
        proof {
            let xs = x@.skip(i as int);
            let ys = y@.skip(i as int);
            assert(xs[0] == x@[i as int] && ys[0] == y@[i as int]);
            assert(xs.skip(1) =~= x@.skip(i + 1));
            assert(ys.skip(1) =~= y@.skip(i + 1));
        }
        if p != q {
            return p < q;
        }
        i = i + 1;
    }
    i >= x.len()
}

/// Puts a text in its place in a list that is in order.
#[verifier::spinoff_prover]
fn insert_text(list: &mut Vec<String>, x: String)
    requires
        in_order(texts(old(list)@)),
    ensures
        in_order(texts(final(list)@)),
        texts(final(list)@).to_multiset() == texts(old(list)@).to_multiset().insert(x@),
{
    let ghost before = texts(list@);
    let mut i: usize = 0;
    while i < list.len() && at_most(list[i].as_str(), x.as_str())
        invariant
            i <= list.len(),
            before == texts(list@),
            forall|k: int| 0 <= k < i ==> text_le(#[trigger] before[k], x@),
        decreases list.len() - i,
    {
        assert(before[i as int] == list@[i as int]@);
        i = i + 1;
    }
    list.insert(i, x);
    proof {
        let after = texts(list@);
        assert(after =~= before.insert(i as int, x@));
        if i < before.len() {
            text_order_is_total(before[i as int], x@);
        }
        assert forall|j: int, k: int| 0 <= j < k < after.len() implies text_le(
            #[trigger] after[j],
            #[trigger] after[k],
        ) by {
            if k < i {
                assert(after[j] == before[j] && after[k] == before[k]);
            } else if k == i {
                assert(after[j] == before[j]);
            } else if j < i {
                assert(after[j] == before[j] && after[k] == before[k - 1]);
            } else if j > i {
                assert(after[j] == before[j - 1] && after[k] == before[k - 1]);
            } else {
                assert(after[k] == before[k - 1]);
                if k - 1 > i {
                    assert(text_le(before[i as int], before[k - 1]));
                    text_order_is_transitive(x@, before[i as int], before[k - 1]);
                }
            }
        }
        vstd::seq_lib::to_multiset_insert(before, i as int, x@);
    }
}

/// The files of the standard library, in the order in which they load.
#[verifier::spinoff_prover]
pub fn collect_module_files(names: Vec<String>) -> (r: Vec<String>)
    ensures
        load_order(texts(names@), texts(r@)),
{
    let ghost all = texts(names@);
    let ghost keep = |n: Chars| is_module(n) && n != "lib.xiyi"@;
    let mut modules: Vec<String> = Vec::new();
    let mut lib: bool = false;
    proof {
        assert(texts(modules@) =~= Seq::empty());
        assert(all.take(0) =~= Seq::empty());
        reveal(Seq::filter);
        assert(plain_modules(all.take(0)) =~= Seq::empty());
    }
    let mut i: usize = 0;
    while i < names.len()
        invariant
            i <= names.len(),
            all == texts(names@),
            keep == (|n: Chars| is_module(n) && n != "lib.xiyi"@),
            in_order(texts(modules@)),
            texts(modules@).to_multiset() == plain_modules(all.take(i as int)).to_multiset(),
            lib == all.take(i as int).contains("lib.xiyi"@),
        decreases names.len() - i,
    {
        let name: &String = &names[i];
        let ghost prefix = all.take(i as int);
        proof {
            assert(all[i as int] == name@);
            assert(all.take(i + 1) =~= prefix.push(name@));
            prefix.lemma_filter_push(name@, keep);
            lemma_contains_push(prefix, name@, "lib.xiyi"@);
        }
        if has_module_extension(name.as_str()) {
            if name.as_str().eq("lib.xiyi") {
                lib = true;
            } else {
                insert_text(&mut modules, name.clone());
                proof {
                    plain_modules(prefix).to_multiset_ensures();
                }
            }
        } else {
            proof {
                lemma_lib_is_module();
            }
        }
        i = i + 1;
    }
    assert(all.take(i as int) =~= all);
    if lib {
        let ghost before = texts(modules@);
        modules.push("lib.xiyi".to_string());
        assert(texts(modules@).drop_last() =~= before);
    }
    modules
}

/// A list with one more text contains just what it did, and that text.
proof fn lemma_contains_push(s: Seq<Chars>, x: Chars, y: Chars)
    ensures
        s.push(x).contains(y) == (s.contains(y) || x == y),
{
    let t = s.push(x);
    if s.contains(y) {
        let k = choose|k: int| 0 <= k < s.len() && s[k] == y;
        assert(t[k] == y);
    }
    if x == y {
        assert(t[s.len() as int] == y);
    }
    if t.contains(y) && x != y {
        let k = choose|k: int| 0 <= k < t.len() && t[k] == y;
        assert(s[k] == y);
    }
}

/// `lib.xiyi` belongs to the standard library.
proof fn lemma_lib_is_module()
    ensures
        is_module("lib.xiyi"@),
{
    reveal_strlit("lib.xiyi");
    reveal_strlit("xiyi");
    let s = "lib.xiyi"@;
    reveal_with_fuel(last_place, 6);
    assert(last_place(s, '.', 8) == 3);
    assert(s.skip(4) =~= "xiyi"@);
}

/// The same files load in the same order, however their names were listed.
pub proof fn load_order_is_unique(names: Seq<Chars>, other: Seq<Chars>, a: Seq<Chars>, b: Seq<Chars>)
    requires
        names.to_multiset() == other.to_multiset(),
        load_order(names, a),
        load_order(other, b),
    ensures
        a == b,
{
    let lib = "lib.xiyi"@;
    let keep = |n: Chars| is_module(n) && n != "lib.xiyi"@;
    lemma_same_members(names, other, lib);
    lemma_filter_multiset(names, keep);
    lemma_filter_multiset(other, keep);
    let p = if names.contains(lib) {
        a.drop_last()
    } else {
        a
    };
    let q = if names.contains(lib) {
        b.drop_last()
    } else {
        b
    };
    lemma_sorted_is_unique(p, q);
    if names.contains(lib) {
        assert(a =~= p.push(lib));
        assert(b =~= q.push(lib));
    }
}

/// Lists with the same members, counted, contain the same.
proof fn lemma_same_members(s: Seq<Chars>, t: Seq<Chars>, x: Chars)
    requires
        s.to_multiset() == t.to_multiset(),
    ensures
        s.contains(x) == t.contains(x),
{
    s.to_multiset_ensures();
    t.to_multiset_ensures();
    assert(s.contains(x) <==> s.to_multiset().count(x) > 0);
    assert(t.contains(x) <==> t.to_multiset().count(x) > 0);
}

/// The members of a filtered list are the filtered members.
proof fn lemma_filter_multiset(s: Seq<Chars>, keep: spec_fn(Chars) -> bool)
    ensures
        s.filter(keep).to_multiset() == s.to_multiset().filter(keep),
    decreases s.len(),
{
    broadcast use vstd::multiset::group_multiset_axioms;

    s.to_multiset_ensures();
    if s.len() == 0 {
        assert(s =~= Seq::empty());
        reveal(Seq::filter);
        assert(s.filter(keep) =~= Seq::empty());
        assert(s.filter(keep).to_multiset() =~= s.to_multiset().filter(keep));
    } else {
        let t = s.drop_last();
        let x = s.last();
        lemma_filter_multiset(t, keep);
        assert(s =~= t.push(x));
        t.lemma_filter_push(x, keep);
        t.to_multiset_ensures();
        t.filter(keep).to_multiset_ensures();
        assert(s.to_multiset() =~= t.to_multiset().insert(x));
        if keep(x) {
            assert(s.filter(keep).to_multiset() =~= t.filter(keep).to_multiset().insert(x));
        }
        assert(s.filter(keep).to_multiset() =~= s.to_multiset().filter(keep));
    }
}

/// Lists in order with the same members are the same.
proof fn lemma_sorted_is_unique(p: Seq<Chars>, q: Seq<Chars>)
    requires
        in_order(p),
        in_order(q),
        p.to_multiset() == q.to_multiset(),
    ensures
        p == q,
    decreases p.len(),
{
    p.to_multiset_ensures();
    q.to_multiset_ensures();
    assert(p.len() == q.len());
    if p.len() == 0 {
        assert(p =~= q);
    } else {
        let x = p.last();
        let y = q.last();
        assert(p.contains(x) && q.contains(y));
        lemma_same_members(p, q, x);
        lemma_same_members(p, q, y);
        let i = choose|i: int| 0 <= i < q.len() && q[i] == x;
        let j = choose|j: int| 0 <= j < p.len() && p[j] == y;
        if i < q.len() - 1 {
            assert(text_le(x, y));
        } else {
            text_order_is_total(x, y);
        }
        if j < p.len() - 1 {
            assert(text_le(y, x));
        } else {
            text_order_is_total(x, y);
        }
        if x != y {
            assert(i < q.len() - 1 && j < p.len() - 1);
            text_order_is_antisymmetric(x, y);
        }
        let p1 = p.drop_last();
        let q1 = q.drop_last();
        assert(p =~= p1.push(x));
        assert(q =~= q1.push(x));
        p1.to_multiset_ensures();
        q1.to_multiset_ensures();
        assert(p1.to_multiset() =~= p.to_multiset().remove(x));
        assert(q1.to_multiset() =~= q.to_multiset().remove(x));
        assert forall|a: int, b: int| 0 <= a < b < p1.len() implies text_le(
            #[trigger] p1[a],
            #[trigger] p1[b],
        ) by {
            assert(p1[a] == p[a] && p1[b] == p[b]);
        }
        assert forall|a: int, b: int| 0 <= a < b < q1.len() implies text_le(
            #[trigger] q1[a],
            #[trigger] q1[b],
        ) by {
            assert(q1[a] == q[a] && q1[b] == q[b]);
        }
        lemma_sorted_is_unique(p1, q1);
    }
}

} // verus!
