//! What is dropped where a scope ends.
use crate::lowering::Bs;
use crate::mir::{MirPlaceView, MirStmtView, SsaLocal};
use vstd::prelude::*;

verus! {

/// Whether the locals of a list are different ones.
pub open spec fn different(ids: Seq<usize>) -> bool {
    forall|i: int, j: int| 0 <= i < j < ids.len() ==> #[trigger] ids[i] != #[trigger] ids[j]
}

/// The locals of a list from the last down whose values are still there.
pub open spec fn still_there(b: Bs, ids: Seq<usize>) -> Seq<usize> {
    ids.reverse().filter(|id: usize| !b.moved.contains(b.ssa(id)))
}

/// A statement for each of those locals that drops its value.
pub open spec fn drops_of(b: Bs, ids: Seq<usize>) -> Seq<MirStmtView> {
    ids.map_values(|id: usize| MirStmtView::Drop(MirPlaceView::Ssa(b.ssa(id))))
}

proof fn lemma_filter_same(a: Bs, b: Bs, ids: Seq<usize>)
    requires
        forall|i: int|
            0 <= i < ids.len() ==> (a.moved.contains(a.ssa(#[trigger] ids[i])) <==> b.moved.contains(
                b.ssa(ids[i]),
            )),
    ensures
        ids.filter(|id: usize| !a.moved.contains(a.ssa(id))) == ids.filter(
            |id: usize| !b.moved.contains(b.ssa(id)),
        ),
    decreases ids.len(),
{
    reveal(Seq::filter);
    if ids.len() > 0 {
        assert(ids[ids.len() - 1] == ids.last());
        assert forall|i: int| 0 <= i < ids.drop_last().len() implies (a.moved.contains(
            a.ssa(#[trigger] ids.drop_last()[i]),
        ) <==> b.moved.contains(b.ssa(ids.drop_last()[i]))) by {
            assert(ids.drop_last()[i] == ids[i]);
        }
        lemma_filter_same(a, b, ids.drop_last());
    }
}

/// The first element of a list that is filtered.
proof fn lemma_filter_first(f: spec_fn(usize) -> bool, x: usize, rest: Seq<usize>)
    ensures
        (seq![x] + rest).filter(f) == (if f(x) {
            seq![x] + rest.filter(f)
        } else {
            rest.filter(f)
        }),
    decreases rest.len(),
{
    reveal(Seq::filter);
    let all = seq![x] + rest;
    if rest.len() == 0 {
        assert(all.drop_last() =~= Seq::<usize>::empty());
        assert(all.last() == x);
        assert(Seq::<usize>::empty().filter(f) =~= Seq::<usize>::empty());
        assert(rest.filter(f) =~= Seq::<usize>::empty());
        assert(all.filter(f) =~= (if f(x) {
            seq![x] + rest.filter(f)
        } else {
            rest.filter(f)
        }));
    } else {
        lemma_filter_first(f, x, rest.drop_last());
        assert(all.drop_last() =~= seq![x] + rest.drop_last());
        assert(all.last() == rest.last());
        assert(all.filter(f) =~= (if f(x) {
            seq![x] + rest.filter(f)
        } else {
            rest.filter(f)
        }));
    }
}

/// Dropping the first `k` locals of a list drops, from the last down, just those whose
/// values are still there, once each, and leaves none of them.
#[verifier::spinoff_prover]
#[verifier::rlimit(60)]
proof fn lemma_drops(b: Bs, ids: Seq<usize>, k: nat)
    requires
        b.cur < b.blocks.len(),
        k <= ids.len(),
        different(ids),
    ensures
        ({
            let b1 = b.drop_vars(ids, k);
            let first = ids.take(k as int);
            &&& b1.cur == b.cur
            &&& b1.blocks.len() == b.blocks.len()
            &&& b1.block().stmts == b.block().stmts + drops_of(b, still_there(b, first))
            &&& b1.block().terminator == b.block().terminator
            &&& b1.versions == b.versions
            &&& b1.scope == b.scope
            &&& b1.vars == b.vars
            &&& forall|x: SsaLocal| #[trigger]
                b1.moved.contains(x) <==> b.moved.contains(x) || (exists|i: int|
                    0 <= i < k && x == b.ssa(#[trigger] ids[i]))
        }),
    decreases k,
{
    let first = ids.take(k as int);
    let f = |id: usize| !b.moved.contains(b.ssa(id));
    if k == 0 {
        reveal(Seq::filter);
        assert(first.reverse() =~= Seq::<usize>::empty());
        assert(still_there(b, first) =~= Seq::<usize>::empty());
        assert(b.block().stmts + drops_of(b, still_there(b, first)) =~= b.block().stmts);
    } else {
        let id = ids[k - 1];
        let b1 = b.drop_var(id);
        let before = ids.take(k - 1);
        lemma_drops(b1, ids, (k - 1) as nat);
        let b2 = b1.drop_vars(ids, (k - 1) as nat);
        assert(first.reverse() =~= seq![id] + before.reverse());
        lemma_filter_first(f, id, before.reverse());
        let rest = before.reverse();
        assert forall|i: int| 0 <= i < rest.len() implies (b1.moved.contains(
            b1.ssa(#[trigger] rest[i]),
        ) <==> b.moved.contains(b.ssa(rest[i]))) by {
            let j = before.len() - 1 - i;
            assert(rest[i] == before[j] && before[j] == ids[j]);
            assert(ids[j] != ids[k - 1]);
        }
        lemma_filter_same(b1, b, rest);
        assert(still_there(b1, before) == rest.filter(f));
        assert(drops_of(b1, rest.filter(f)) =~= drops_of(b, rest.filter(f)));
        let d = MirStmtView::Drop(MirPlaceView::Ssa(b.ssa(id)));
        if f(id) {
            assert(still_there(b, first) == seq![id] + rest.filter(f));
            assert(drops_of(b, still_there(b, first)) =~= seq![d] + drops_of(
                b,
                rest.filter(f),
            ));
            assert(b1.block().stmts == b.block().stmts.push(d));
            assert(b2.block().stmts =~= b.block().stmts + drops_of(b, still_there(b, first)));
        } else {
            assert(b1 == b);
        }
        assert forall|x: SsaLocal| #[trigger]
            b2.moved.contains(x) <==> b.moved.contains(x) || (exists|i: int|
                0 <= i < k && x == b.ssa(#[trigger] ids[i])) by {
            if b1.moved.contains(x) && !b.moved.contains(x) {
                assert(x == b.ssa(ids[k - 1]));
            }
            if exists|i: int| 0 <= i < k && x == b.ssa(#[trigger] ids[i]) {
                let i = choose|i: int| 0 <= i < k && x == b.ssa(#[trigger] ids[i]);
                if i < k - 1 {
                    assert(x == b1.ssa(ids[i]));
                } else {
                    assert(b1.moved.contains(x));
                }
            }
        }
    }
}

/// Where a scope ends, its locals whose values were not moved out are dropped, once each and
/// the last first, and no others; the names of the scope are then forgotten.
pub proof fn scopes_drop_what_is_left(b: Bs)
    requires
        b.cur < b.blocks.len(),
        b.vars.len() > 0,
        different(b.vars.last()),
    ensures
        ({
            let b1 = b.pop_scope();
            let ids = b.vars.last();
            &&& b1.block().stmts == b.block().stmts + drops_of(b, still_there(b, ids))
            &&& b1.block().terminator == b.block().terminator
            &&& b1.scope == b.scope.drop_last()
            &&& b1.vars == b.vars.drop_last()
            &&& forall|x: SsaLocal| #[trigger]
                b1.moved.contains(x) <==> b.moved.contains(x) || (exists|i: int|
                    0 <= i < ids.len() && x == b.ssa(#[trigger] ids[i]))
        }),
{
    let ids = b.vars.last();
    lemma_drops(b, ids, ids.len());
    assert(ids.take(ids.len() as int) =~= ids);
}

} // verus!
