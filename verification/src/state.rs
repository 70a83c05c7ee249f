//! The state of a function that is being built: locals, versions, scopes, blocks.
use crate::ast::Type;
use crate::building::{
    assigned, assigns, fits, jump_inside, kept, lemma_bump, lemma_kept_both, lemma_kept_same,
    lemma_loops, lemma_new_block, lemma_new_local, lemma_other_fields, lemma_push_kept,
    lemma_push_stmt, lemma_set_term, locals_inside, rvalue_in, sound, terminator_in,
};
use crate::lowering::{Bs, lookup_in, lookup_level, LoopCtx};
use crate::mir::{
    lemma_mir_block_push, lemma_mir_block_views, lemma_mir_local_push, lemma_mir_local_views,
    lemma_mir_stmt_push, lemma_mir_stmt_views, LocalKind, mir_block_views, mir_local_views,
    MirBlock, MirLocal, MirPlace, MirPlaceView, MirRvalue, MirStmt, MirStmtView, MirTerminator,
    SsaLocal,
};
use crate::text::Chars;
use vstd::prelude::*;

verus! {

/// Builds the blocks of one function.
pub struct MirBuilder {
    pub locals: Vec<MirLocal>,
    pub blocks: Vec<MirBlock>,
    /// The block that statements go to.
    pub current_block: usize,
    /// The names that are known, by scope; the last binding of a name counts.
    pub scope: Vec<Vec<(String, usize)>>,
    /// The locals that each scope drops at its end.
    pub scope_vars: Vec<Vec<usize>>,
    pub in_unsafe: bool,
    pub in_forward: bool,
    /// The version of each local.
    pub ssa_versions: Vec<u32>,
    /// The versions whose values are gone.
    pub moved: Vec<SsaLocal>,
    pub loop_stack: Vec<LoopCtx>,
}

/// The bindings of one scope.
pub open spec fn level_model(level: Seq<(String, usize)>) -> Seq<(Chars, usize)> {
    Seq::new(level.len(), |i: int| (level[i].0@, level[i].1))
}

/// The bindings of all scopes.
pub open spec fn scope_model(scope: Seq<Vec<(String, usize)>>) -> Seq<Seq<(Chars, usize)>> {
    Seq::new(scope.len(), |i: int| level_model(scope[i]@))
}

/// The locals of all scopes.
pub open spec fn vars_model(vars: Seq<Vec<usize>>) -> Seq<Seq<usize>> {
    Seq::new(vars.len(), |i: int| vars[i]@)
}

/// Whether all locals that the scopes name are there.
pub open spec fn ids_known(b: Bs) -> bool {
    &&& forall|i: int, j: int|
        0 <= i < b.vars.len() && 0 <= j < b.vars[i].len() ==> (#[trigger] b.vars[i][j])
            < b.locals.len()
    &&& forall|i: int, j: int|
        0 <= i < b.scope.len() && 0 <= j < b.scope[i].len() ==> (#[trigger] b.scope[i][j]).1
            < b.locals.len()
}

/// Whether a state is one between two statements.
pub open spec fn state_ok(b: Bs) -> bool {
    &&& b.versions.len() == b.locals.len()
    &&& b.scope.len() == b.vars.len()
    &&& b.scope.len() > 0
    &&& ids_known(b)
    &&& sound(b)
}

/// Whether a version is new since `a`, and nothing has assigned it.
pub open spec fn fresh(a: Bs, b: Bs, s: SsaLocal) -> bool {
    &&& !assigned(b.blocks, s)
    &&& s.base_id < a.versions.len()
    &&& s.version > a.versions[s.base_id as int]
    &&& s.version <= b.versions[s.base_id as int]
}

impl MirBuilder {
    /// The state.
    pub open spec fn model(self) -> Bs {
        Bs {
            locals: mir_local_views(self.locals@),
            blocks: mir_block_views(self.blocks@),
            cur: self.current_block,
            scope: scope_model(self.scope@),
            vars: vars_model(self.scope_vars@),
            versions: self.ssa_versions@,
            moved: self.moved@.to_set(),
            loops: self.loop_stack@,
            in_unsafe: self.in_unsafe,
            in_forward: self.in_forward,
        }
    }

    /// The state is in order, and so is the current block.
    pub open spec fn wf(self) -> bool {
        &&& state_ok(self.model())
        &&& self.current_block < self.blocks@.len()
        &&& self.model().blocks.len() == self.blocks@.len()
        &&& self.model().locals.len() == self.locals@.len()
    }

    /// Nothing built but the entry block.
    #[verifier::spinoff_prover]
    pub fn new(in_forward: bool) -> (r: Self)
        ensures
            r.wf(),
            r.model() == Bs::start(in_forward).new_block(),
    {
        let mut scope: Vec<Vec<(String, usize)>> = Vec::new();
        scope.push(Vec::new());
        let mut scope_vars: Vec<Vec<usize>> = Vec::new();
        scope_vars.push(Vec::new());
        let mut blocks: Vec<MirBlock> = Vec::new();
        let entry = MirBlock { stmts: Vec::new(), terminator: MirTerminator::Pending };
        proof {
            lemma_mir_block_views(blocks@);
            lemma_mir_block_push(blocks@, entry);
            lemma_mir_stmt_views(entry.stmts@);
            assert(entry.model().stmts =~= Seq::<MirStmtView>::empty());
        }
        blocks.push(entry);
        let b = MirBuilder {
            locals: Vec::new(),
            blocks,
            current_block: 0,
            scope,
            scope_vars,
            in_unsafe: false,
            in_forward,
            ssa_versions: Vec::new(),
            moved: Vec::new(),
            loop_stack: Vec::new(),
        };
        proof {
            lemma_mir_local_views(b.locals@);
            lemma_mir_block_views(b.blocks@);
            let want = Bs::start(in_forward).new_block();
            assert(b.model().locals =~= want.locals);
            assert(b.model().blocks =~= want.blocks);
            assert(b.model().scope[0] =~= Seq::<(Chars, usize)>::empty());
            assert(b.model().scope =~= want.scope);
            assert(b.model().vars[0] =~= Seq::<usize>::empty());
            assert(b.model().vars =~= want.vars);
            assert(b.model().moved =~= want.moved);
            assert(b.model().loops =~= want.loops);
            reveal(sound);
            reveal(locals_inside);
        }
        b
    }

    /// A new block, which is not finished.
    #[verifier::spinoff_prover]
    pub fn new_block(&mut self) -> (r: usize)
        requires
            old(self).wf(),
        ensures
            final(self).wf(),
            final(self).model() == old(self).model().new_block(),
            r == old(self).model().next_block(),
            r == old(self).blocks@.len(),
            r < final(self).blocks@.len(),
            final(self).blocks@.len() == old(self).blocks@.len() + 1,
            kept(old(self).model(), final(self).model()),
    {
        let id: usize = self.blocks.len();
        let block = MirBlock { stmts: Vec::new(), terminator: MirTerminator::Pending };
        proof {
            lemma_mir_block_push(self.blocks@, block);
            lemma_mir_stmt_views(block.stmts@);
            assert(block.model().stmts =~= Seq::<MirStmtView>::empty());
            lemma_new_block(self.model());
        }
        self.blocks.push(block);
        assert(self.model() == old(self).model().new_block());
        id
    }

    /// Statements go to that block from here on.
    pub fn switch_to_block(&mut self, block: usize)
        requires
            old(self).wf(),
            block < old(self).blocks@.len(),
        ensures
            final(self).wf(),
            final(self).model() == old(self).model().switch(block),
            final(self).blocks@.len() == old(self).blocks@.len(),
    {
        proof {
            lemma_loops(self.model());
            lemma_other_fields(self.model(), self.model().switch(block));
        }
        self.current_block = block;
    }

    /// Appends a statement to the current block.
    #[verifier::spinoff_prover]
    pub fn push_stmt(&mut self, s: MirStmt)
        requires
            old(self).wf(),
            fits(old(self).model(), s.model()),
        ensures
            final(self).wf(),
            final(self).model() == old(self).model().push_stmt(s.model()),
            final(self).blocks@.len() == old(self).blocks@.len(),
            (forall|x: SsaLocal| !#[trigger] assigns(s.model(), x)) ==> kept(
                old(self).model(),
                final(self).model(),
            ),
    {
        let cur: usize = self.current_block;
        proof {
            lemma_push_stmt(self.model(), s.model());
            lemma_kept_same(self.model());
            if forall|x: SsaLocal| !#[trigger] assigns(s.model(), x) {
                lemma_push_kept(self.model(), self.model(), s.model());
            }
            lemma_mir_block_views(self.blocks@);
            lemma_mir_stmt_push(self.blocks@[cur as int].stmts@, s);
        }
        let ghost before = self.blocks@;
        self.blocks[cur].stmts.push(s);
        proof {
            lemma_mir_block_views(self.blocks@);
            assert(self.model().blocks =~= old(self).model().push_stmt(s.model()).blocks);
        }
    }

    /// Sets where control goes after the current block.
    #[verifier::spinoff_prover]
    pub fn set_terminator(&mut self, t: MirTerminator)
        requires
            old(self).wf(),
            jump_inside(t.model(), old(self).blocks@.len()),
            terminator_in(t.model(), old(self).locals@.len()),
        ensures
            final(self).wf(),
            final(self).model() == old(self).model().set_term(t.model()),
            final(self).blocks@.len() == old(self).blocks@.len(),
            kept(old(self).model(), final(self).model()),
    {
        let cur: usize = self.current_block;
        proof {
            lemma_set_term(self.model(), t.model());
            lemma_mir_block_views(self.blocks@);
        }
        self.blocks[cur].terminator = t;
        proof {
            lemma_mir_block_views(self.blocks@);
            assert(self.model().blocks =~= old(self).model().set_term(t.model()).blocks);
        }
    }

    /// Whether the current block is not finished.
    pub fn current_terminator_is_placeholder(&self) -> (r: bool)
        requires
            self.wf(),
        ensures
            r == self.model().pending(),
    {
        proof {
            lemma_mir_block_views(self.blocks@);
        }
        match self.blocks[self.current_block].terminator {
            MirTerminator::Pending => true,
            _ => false,
        }
    }

    /// Jumps to `block`, if the current block is not finished.
    pub fn goto_if_pending(&mut self, block: usize)
        requires
            old(self).wf(),
            block < old(self).blocks@.len(),
        ensures
            final(self).wf(),
            final(self).model() == old(self).model().goto_if_pending(block),
            final(self).blocks@.len() == old(self).blocks@.len(),
            kept(old(self).model(), final(self).model()),
    {
        proof {
            lemma_kept_same(self.model());
        }
        if self.current_terminator_is_placeholder() {
            self.set_terminator(MirTerminator::Goto(block));
        }
    }

    /// A new local; an owned one is dropped at the end of its scope.
    #[verifier::spinoff_prover]
    pub fn add_local(&mut self, local: MirLocal, owned: bool) -> (r: usize)
        requires
            old(self).wf(),
        ensures
            final(self).wf(),
            final(self).model() == old(self).model().new_local(local.model(), owned),
            r == old(self).model().next_local(),
            r < final(self).locals@.len(),
            final(self).locals@.len() == old(self).locals@.len() + 1,
            final(self).blocks@.len() == old(self).blocks@.len(),
            kept(old(self).model(), final(self).model()),
    {
        let id: usize = self.locals.len();
        let ghost b0 = self.model();
        proof {
            lemma_mir_local_push(self.locals@, local);
        }
        self.locals.push(local);
        self.ssa_versions.push(0);
        if owned {
            let top: usize = self.scope_vars.len() - 1;
            let ghost vars0 = self.scope_vars@;
            self.scope_vars[top].push(id);
            assert(vars_model(self.scope_vars@) =~= vars_model(vars0).update(
                top as int,
                vars_model(vars0)[top as int].push(id),
            ));
        }
        proof {
            let b = self.model();
            assert(b == b0.new_local(local.model(), owned));
            lemma_new_local(b0, b);
            assert forall|i: int, j: int|
                0 <= i < b.vars.len() && 0 <= j < b.vars[i].len() implies (
            #[trigger] b.vars[i][j]) < b.locals.len() by {
                if owned && i == b.vars.len() - 1 {
                    if j < b0.vars[i].len() {
                        assert(b.vars[i][j] == b0.vars[i][j]);
                    }
                } else {
                    assert(b.vars[i][j] == b0.vars[i][j]);
                }
            }
            assert forall|i: int, j: int|
                0 <= i < b.scope.len() && 0 <= j < b.scope[i].len() implies (
            #[trigger] b.scope[i][j]).1 < b.locals.len() by {
                assert(b.scope[i][j] == b0.scope[i][j]);
            }
        }
        id
    }

    /// A new variable, not yet known by its name.
    pub fn new_local(&mut self, name: String, ty: Type, mutable: bool) -> (r: usize)
        requires
            old(self).wf(),
        ensures
            final(self).wf(),
            final(self).model() == old(self).model().new_var(name@, ty.model(), mutable),
            r == old(self).model().next_local(),
            r < final(self).locals@.len(),
            final(self).locals@.len() == old(self).locals@.len() + 1,
            final(self).blocks@.len() == old(self).blocks@.len(),
            kept(old(self).model(), final(self).model()),
    {
        self.add_local(MirLocal { name: Some(name), ty, mutable, kind: LocalKind::Var }, true)
    }

    /// A new local for a value in between, which nothing drops.
    pub fn new_temp(&mut self, ty: Type) -> (r: usize)
        requires
            old(self).wf(),
        ensures
            final(self).wf(),
            final(self).model() == old(self).model().new_temp(ty.model()),
            r == old(self).model().next_local(),
            r < final(self).locals@.len(),
            final(self).locals@.len() == old(self).locals@.len() + 1,
            final(self).blocks@.len() == old(self).blocks@.len(),
            kept(old(self).model(), final(self).model()),
    {
        self.add_local(
            MirLocal { name: None, ty, mutable: false, kind: LocalKind::Temp },
            false,
        )
    }

    /// A new local for a value in between that the scope drops at its end.
    pub fn new_held(&mut self, ty: Type) -> (r: usize)
        requires
            old(self).wf(),
        ensures
            final(self).wf(),
            final(self).model() == old(self).model().new_held(ty.model()),
            r == old(self).model().next_local(),
            r < final(self).locals@.len(),
            final(self).locals@.len() == old(self).locals@.len() + 1,
            final(self).blocks@.len() == old(self).blocks@.len(),
            kept(old(self).model(), final(self).model()),
    {
        self.add_local(
            MirLocal { name: None, ty, mutable: false, kind: LocalKind::Temp },
            true,
        )
    }

    /// The current version of a local.
    pub fn current_ssa(&self, id: usize) -> (r: SsaLocal)
        requires
            self.wf(),
            id < self.locals@.len(),
        ensures
            r == self.model().ssa(id),
    {
        SsaLocal { base_id: id, version: self.ssa_versions[id] }
    }

    /// The next version of a local, if there is one.
    #[verifier::spinoff_prover]
    pub fn new_version(&mut self, id: usize) -> (r: Option<SsaLocal>)
        requires
            old(self).wf(),
            id < old(self).locals@.len(),
        ensures
            match r {
                None => old(self).model().bump(id) is None && *final(self) == *old(self),
                Some(s) => {
                    &&& final(self).wf()
                    &&& old(self).model().bump(id) == Some(final(self).model())
                    &&& s == final(self).model().ssa(id)
                    &&& final(self).blocks@.len() == old(self).blocks@.len()
                    &&& final(self).locals@.len() == old(self).locals@.len()
                    &&& kept(old(self).model(), final(self).model())
                    &&& fresh(old(self).model(), final(self).model(), s)
                },
            },
    {
        let v: u32 = self.ssa_versions[id];
        if v == u32::MAX {
            None
        } else {
            self.ssa_versions.set(id, v + 1);
            assert(old(self).model().bump(id) == Some(self.model()));
            proof {
                lemma_bump(old(self).model(), id);
            }
            Some(SsaLocal { base_id: id, version: v + 1 })
        }
    }

    /// Assigns a value to the next version of a local, if there is one.
    #[verifier::spinoff_prover]
    pub fn define(&mut self, id: usize, value: MirRvalue) -> (r: Option<SsaLocal>)
        requires
            old(self).wf(),
            id < old(self).locals@.len(),
            rvalue_in(value.model(), old(self).locals@.len()),
        ensures
            match r {
                None => {
                    &&& old(self).model().define(id, value.model()) is None
                    &&& *final(self) == *old(self)
                },
                Some(s) => {
                    &&& final(self).wf()
                    &&& old(self).model().define(id, value.model()) == Some(final(self).model())
                    &&& s == final(self).model().ssa(id)
                    &&& final(self).blocks@.len() == old(self).blocks@.len()
                    &&& final(self).locals@.len() == old(self).locals@.len()
                    &&& kept(old(self).model(), final(self).model())
                },
            },
    {
        match self.new_version(id) {
            None => None,
            Some(s) => {
                let dest = MirPlace::Ssa(s);
                assert(dest.model() == MirPlaceView::Ssa(s));
                let stmt = MirStmt::Assign { dest, value };
                assert(stmt.model() == MirStmtView::Assign {
                    dest: MirPlaceView::Ssa(s),
                    value: value.model(),
                });
                proof {
                    lemma_push_kept(old(self).model(), self.model(), stmt.model());
                }
                self.push_stmt(stmt);
                Some(s)
            },
        }
    }

    /// Gives a local a name in the innermost scope.
    #[verifier::spinoff_prover]
    pub fn bind(&mut self, name: String, id: usize)
        requires
            old(self).wf(),
            id < old(self).locals@.len(),
        ensures
            final(self).wf(),
            final(self).model() == old(self).model().bind(name@, id),
            final(self).blocks@.len() == old(self).blocks@.len(),
            final(self).locals@.len() == old(self).locals@.len(),
            kept(old(self).model(), final(self).model()),
    {
        let top: usize = self.scope.len() - 1;
        let ghost b0 = self.model();
        let ghost scope0 = self.scope@;
        self.scope[top].push((name, id));
        proof {
            assert(level_model(self.scope@[top as int]@) =~= level_model(
                scope0[top as int]@,
            ).push((name@, id)));
            assert(scope_model(self.scope@) =~= b0.bind(name@, id).scope);
            let b = self.model();
            lemma_loops(b0);
            lemma_other_fields(b0, b);
            assert forall|i: int, j: int|
                0 <= i < b.scope.len() && 0 <= j < b.scope[i].len() implies (
            #[trigger] b.scope[i][j]).1 < b.locals.len() by {
                if i < b.scope.len() - 1 || j < b0.scope[i].len() {
                    assert(b.scope[i][j] == b0.scope[i][j]);
                }
            }
        }
    }

    /// The local that a name stands for, seen from the innermost scope.
    #[verifier::spinoff_prover]
    pub fn lookup(&self, name: &String) -> (r: Option<usize>)
        requires
            self.wf(),
        ensures
            r == self.model().lookup(name@),
            r matches Some(id) ==> id < self.locals@.len(),
    {
        let ghost all = self.model().scope;
        let mut i: usize = self.scope.len();
        assert(all.take(i as int) =~= all);
        while i > 0
            invariant
                i <= self.scope.len(),
                self.wf(),
                all == self.model().scope,
                lookup_in(all, name@) == lookup_in(all.take(i as int), name@),
            decreases i,
        {
            i = i - 1;
            let level = &self.scope[i];
            let ghost names = all[i as int];
            proof {
                assert(all.take(i + 1).last() == names);
                assert(all.take(i + 1).drop_last() =~= all.take(i as int));
            }
            let mut j: usize = level.len();
            assert(names.take(j as int) =~= names);
            while j > 0
                invariant
                    j <= level.len(),
                    i < self.scope.len(),
                    *level == self.scope@[i as int],
                    self.wf(),
                    all == self.model().scope,
                    names == all[i as int],
                    names == level_model(level@),
                    lookup_level(names, name@) == lookup_level(names.take(j as int), name@),
                    lookup_in(all, name@) == (match lookup_level(names, name@) {
                        Some(id) => Some(id),
                        None => lookup_in(all.take(i as int), name@),
                    }),
                decreases j,
            {
                j = j - 1;
                proof {
                    assert(names.take(j + 1).last() == names[j as int]);
                    assert(names.take(j + 1).drop_last() =~= names.take(j as int));
                    assert(names[j as int] == all[i as int][j as int]);
                }
                if level[j].0.as_str().eq(name.as_str()) {
                    return Some(level[j].1);
                }
            }
        }
        None
    }

    /// Whether the value of a version is gone.
    fn is_moved(&self, s: SsaLocal) -> (r: bool)
        ensures
            r == self.model().moved.contains(s),
    {
        let mut i: usize = 0;
        while i < self.moved.len()
            invariant
                i <= self.moved.len(),
                forall|k: int| 0 <= k < i ==> #[trigger] self.moved@[k] != s,
            decreases self.moved.len() - i,
        {
            if self.moved[i] == s {
                assert(self.moved@[i as int] == s);
                assert(self.moved@.contains(s));
                return true;
            }
            i = i + 1;
        }
        assert(!self.moved@.contains(s));
        false
    }

    /// Counts the value of a version as gone.
    pub fn mark_moved(&mut self, s: SsaLocal)
        requires
            old(self).wf(),
        ensures
            final(self).wf(),
            final(self).model() == old(self).model().mark_moved(s),
            final(self).blocks@.len() == old(self).blocks@.len(),
            final(self).locals@.len() == old(self).locals@.len(),
            kept(old(self).model(), final(self).model()),
    {
        let ghost before = self.moved@;
        self.moved.push(s);
        proof {
            assert forall|x: SsaLocal| #[trigger]
                self.moved@.to_set().contains(x) <==> before.to_set().insert(s).contains(x) by {
                if self.moved@.contains(x) {
                    let k = self.moved@.index_of(x);
                    if k < before.len() {
                        assert(before[k] == x);
                    }
                }
                if before.contains(x) {
                    assert(self.moved@[before.index_of(x)] == x);
                }
                if x == s {
                    assert(self.moved@[before.len() as int] == s);
                }
            }
            assert(self.moved@.to_set() =~= before.to_set().insert(s));
            let b0 = old(self).model();
            let b = self.model();
            lemma_loops(b0);
            assert(b.loops == b0.loops);
            lemma_other_fields(b0, b);
        }
    }

    /// A new innermost scope.
    #[verifier::spinoff_prover]
    pub fn push_scope(&mut self)
        requires
            old(self).wf(),
        ensures
            final(self).wf(),
            final(self).model() == old(self).model().push_scope(),
            final(self).blocks@.len() == old(self).blocks@.len(),
            final(self).locals@.len() == old(self).locals@.len(),
            kept(old(self).model(), final(self).model()),
    {
        let ghost b0 = self.model();
        self.scope.push(Vec::new());
        self.scope_vars.push(Vec::new());
        proof {
            let b = self.model();
            assert(b.scope.last() =~= Seq::<(Chars, usize)>::empty());
            assert(b.scope =~= b0.push_scope().scope);
            assert(b.vars.last() =~= Seq::<usize>::empty());
            assert(b.vars =~= b0.push_scope().vars);
            lemma_loops(b0);
            lemma_other_fields(b0, b);
            assert forall|i: int, j: int|
                0 <= i < b.vars.len() && 0 <= j < b.vars[i].len() implies (
            #[trigger] b.vars[i][j]) < b.locals.len() by {
                assert(b.vars[i][j] == b0.vars[i][j]);
            }
            assert forall|i: int, j: int|
                0 <= i < b.scope.len() && 0 <= j < b.scope[i].len() implies (
            #[trigger] b.scope[i][j]).1 < b.locals.len() by {
                assert(b.scope[i][j] == b0.scope[i][j]);
            }
        }
    }

    /// Drops a local, unless its value is gone.
    #[verifier::spinoff_prover]
    fn drop_var(&mut self, id: usize)
        requires
            old(self).wf(),
            id < old(self).locals@.len(),
        ensures
            final(self).wf(),
            final(self).model() == old(self).model().drop_var(id),
            final(self).blocks@.len() == old(self).blocks@.len(),
            final(self).locals@.len() == old(self).locals@.len(),
            kept(old(self).model(), final(self).model()),
    {
        let s = self.current_ssa(id);
        if !self.is_moved(s) {
            let place = MirPlace::Ssa(s);
            assert(place.model() == MirPlaceView::Ssa(s));
            let stmt = MirStmt::Drop(place);
            assert(stmt.model() == MirStmtView::Drop(MirPlaceView::Ssa(s)));
            proof {
                reveal(sound);
            }
            self.mark_moved(s);
            let ghost b1 = self.model();
            self.push_stmt(stmt);
            proof {
                lemma_kept_both(old(self).model(), b1, self.model());
            }
        } else {
            proof {
                lemma_kept_same(self.model());
            }
        }
    }

    /// Drops the locals of a scope, the last first.
    #[verifier::spinoff_prover]
    fn drop_level(&mut self, level: usize)
        requires
            old(self).wf(),
            level < old(self).scope_vars@.len(),
        ensures
            final(self).wf(),
            final(self).model() == old(self).model().drop_vars(
                old(self).model().vars[level as int],
                old(self).model().vars[level as int].len(),
            ),
            final(self).blocks@.len() == old(self).blocks@.len(),
            final(self).locals@.len() == old(self).locals@.len(),
            kept(old(self).model(), final(self).model()),
    {
        let ghost b0 = self.model();
        let ghost ids = b0.vars[level as int];
        proof {
            lemma_kept_same(self.model());
        }
        assert(ids == self.scope_vars@[level as int]@);
        let mut k: usize = self.scope_vars[level].len();
        while k > 0
            invariant
                self.wf(),
                level < b0.vars.len(),
                self.model().vars == b0.vars,
                kept(b0, self.model()),
                self.blocks@.len() == old(self).blocks@.len(),
                self.locals@.len() == old(self).locals@.len(),
                ids == b0.vars[level as int],
                k <= ids.len(),
                b0 == old(self).model(),
                b0.drop_vars(ids, ids.len()) == self.model().drop_vars(ids, k as nat),
            decreases k,
        {
            k = k - 1;
            assert(self.model().vars[level as int] == self.scope_vars@[level as int]@);
            let id: usize = self.scope_vars[level][k];
            assert(self.model().vars[level as int][k as int] == id);
            let ghost b1 = self.model();
            self.drop_var(id);
            proof {
                lemma_kept_both(b0, b1, self.model());
            }
        }
    }

    /// Leaves the innermost scope and drops its locals.
    #[verifier::spinoff_prover]
    pub fn pop_scope(&mut self)
        requires
            old(self).wf(),
            old(self).scope@.len() > 1,
        ensures
            final(self).wf(),
            final(self).model() == old(self).model().pop_scope(),
            final(self).blocks@.len() == old(self).blocks@.len(),
            final(self).locals@.len() == old(self).locals@.len(),
            kept(old(self).model(), final(self).model()),
    {
        let top: usize = self.scope_vars.len() - 1;
        let ghost b = self.model();
        self.drop_level(top);
        let ghost b1 = self.model();
        proof {
            lemma_drop_vars_keeps(b, b.vars.last(), b.vars.last().len());
        }
        let _ = self.scope.pop();
        let _ = self.scope_vars.pop();
        proof {
            let b2 = self.model();
            assert(b2.scope =~= b1.scope.drop_last());
            assert(b2.vars =~= b1.vars.drop_last());
            lemma_loops(b1);
            lemma_other_fields(b1, b2);
            lemma_kept_both(b, b1, b2);
            assert forall|i: int, j: int|
                0 <= i < b2.vars.len() && 0 <= j < b2.vars[i].len() implies (
            #[trigger] b2.vars[i][j]) < b2.locals.len() by {
                assert(b2.vars[i][j] == b1.vars[i][j]);
            }
            assert forall|i: int, j: int|
                0 <= i < b2.scope.len() && 0 <= j < b2.scope[i].len() implies (
            #[trigger] b2.scope[i][j]).1 < b2.locals.len() by {
                assert(b2.scope[i][j] == b1.scope[i][j]);
            }
        }
    }

    /// Drops the locals of all scopes from `depth` on, the innermost first.
    #[verifier::spinoff_prover]
    pub fn emit_drops_for_scopes(&mut self, depth: usize)
        requires
            old(self).wf(),
        ensures
            final(self).wf(),
            final(self).model() == old(self).model().drop_scopes(
                old(self).model().vars.len(),
                depth as nat,
            ),
            final(self).blocks@.len() == old(self).blocks@.len(),
            final(self).locals@.len() == old(self).locals@.len(),
            kept(old(self).model(), final(self).model()),
    {
        let ghost b0 = self.model();
        proof {
            lemma_kept_same(b0);
        }
        let mut top: usize = self.scope_vars.len();
        while top > depth
            invariant
                self.wf(),
                self.model().vars == b0.vars,
                kept(b0, self.model()),
                self.blocks@.len() == old(self).blocks@.len(),
                self.locals@.len() == old(self).locals@.len(),
                top <= b0.vars.len(),
                b0 == old(self).model(),
                b0.drop_scopes(b0.vars.len(), depth as nat) == self.model().drop_scopes(
                    top as nat,
                    depth as nat,
                ),
            decreases top,
        {
            top = top - 1;
            proof {
                let ids = b0.vars[top as int];
                lemma_drop_vars_keeps(self.model(), ids, ids.len());
            }
            let ghost b1 = self.model();
            self.drop_level(top);
            proof {
                lemma_kept_both(b0, b1, self.model());
            }
        }
    }

    /// Allows what needs `unsafe`, or no longer.
    pub fn set_unsafe(&mut self, allowed: bool)
        requires
            old(self).wf(),
        ensures
            final(self).wf(),
            final(self).model() == (Bs { in_unsafe: allowed, ..old(self).model() }),
            final(self).blocks@.len() == old(self).blocks@.len(),
            final(self).locals@.len() == old(self).locals@.len(),
            kept(old(self).model(), final(self).model()),
    {
        self.in_unsafe = allowed;
        proof {
            let b0 = old(self).model();
            let b = self.model();
            lemma_loops(b0);
            assert(b.loops == b0.loops);
            lemma_other_fields(b0, b);
        }
    }

    /// Enters a loop that `break` leaves to `end`.
    pub fn push_loop(&mut self, end: usize)
        requires
            old(self).wf(),
            end < old(self).blocks@.len(),
        ensures
            final(self).wf(),
            final(self).model() == old(self).model().push_loop(end),
            final(self).blocks@.len() == old(self).blocks@.len(),
            final(self).locals@.len() == old(self).locals@.len(),
            kept(old(self).model(), final(self).model()),
    {
        let depth: usize = self.scope_vars.len();
        self.loop_stack.push(LoopCtx { break_target: end, scope_depth: depth });
        proof {
            let b0 = old(self).model();
            let b = self.model();
            lemma_loops(b0);
            assert forall|k: int| 0 <= k < b.loops.len() implies (
            #[trigger] b.loops[k]).break_target < b.blocks.len() by {
                if k < b0.loops.len() {
                    assert(b.loops[k] == b0.loops[k]);
                }
            }
            lemma_other_fields(b0, b);
        }
    }

    /// Leaves a loop.
    pub fn pop_loop(&mut self)
        requires
            old(self).loop_stack@.len() > 0,
        ensures
            final(self).loop_stack@ == old(self).loop_stack@.drop_last(),
            old(self).wf() ==> {
                &&& final(self).wf()
                &&& final(self).model() == old(self).model().pop_loop()
                &&& final(self).blocks@.len() == old(self).blocks@.len()
                &&& final(self).locals@.len() == old(self).locals@.len()
                &&& kept(old(self).model(), final(self).model())
            },
    {
        let _ = self.loop_stack.pop();
        proof {
            if old(self).wf() {
                let b0 = old(self).model();
                let b = self.model();
                lemma_loops(b0);
                assert forall|k: int| 0 <= k < b.loops.len() implies (
                #[trigger] b.loops[k]).break_target < b.blocks.len() by {
                    assert(b.loops[k] == b0.loops[k]);
                }
                lemma_other_fields(b0, b);
            }
        }
    }
}

/// Dropping locals changes neither the scopes nor the locals.
pub proof fn lemma_drop_vars_keeps(b: Bs, ids: Seq<usize>, k: nat)
    ensures
        b.drop_vars(ids, k).scope == b.scope,
        b.drop_vars(ids, k).vars == b.vars,
        b.drop_vars(ids, k).locals == b.locals,
        b.drop_vars(ids, k).versions == b.versions,
        b.drop_vars(ids, k).loops == b.loops,
        b.drop_vars(ids, k).cur == b.cur,
        b.drop_vars(ids, k).in_unsafe == b.in_unsafe,
        b.drop_vars(ids, k).in_forward == b.in_forward,
        b.cur < b.blocks.len() ==> b.drop_vars(ids, k).pending() == b.pending()
            && b.drop_vars(ids, k).blocks.len() == b.blocks.len(),
    decreases k,
{
    if k > 0 {
        lemma_drop_vars_keeps(b.drop_var(ids[k - 1]), ids, (k - 1) as nat);
    }
}

/// Dropping the locals of scopes changes neither the scopes nor the locals.
pub proof fn lemma_drop_scopes_keeps(b: Bs, top: nat, depth: nat)
    ensures
        b.drop_scopes(top, depth).scope == b.scope,
        b.drop_scopes(top, depth).vars == b.vars,
        b.drop_scopes(top, depth).locals == b.locals,
        b.drop_scopes(top, depth).versions == b.versions,
        b.drop_scopes(top, depth).loops == b.loops,
        b.drop_scopes(top, depth).cur == b.cur,
        b.drop_scopes(top, depth).in_unsafe == b.in_unsafe,
        b.drop_scopes(top, depth).in_forward == b.in_forward,
        b.cur < b.blocks.len() ==> b.drop_scopes(top, depth).pending() == b.pending()
            && b.drop_scopes(top, depth).blocks.len() == b.blocks.len(),
    decreases top,
{
    if top > depth {
        let ids = b.vars[top - 1];
        lemma_drop_vars_keeps(b, ids, ids.len());
        lemma_drop_scopes_keeps(b.drop_vars(ids, ids.len()), (top - 1) as nat, depth);
    }
}

} // verus!
