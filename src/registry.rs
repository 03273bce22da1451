//! The executable registry: scopes are opened and closed in stack order, and
//! closing one finalizes its tracked resources, last created first.
use vstd::prelude::*;

use crate::model::{RegistryModel, lemma_create_wf, lemma_empty_wf, lemma_enter_wf, lemma_exit_wf};

verus! {

/// A resource whose end of life is recorded: it carries the identifier it was
/// given when created, for display only.
pub struct TrackedResource {
    id: u64,
}

impl TrackedResource {
    /// The identifier this resource was created with.
    pub closed spec fn spec_id(&self) -> u64 {
        self.id
    }

    /// The identifier this resource was created with.
    pub fn id(&self) -> (r: u64)
        ensures
            r == self.spec_id(),
    {
        self.id
    }
}

/// A value with no finalization behavior.
pub struct PlainValue;

/// Proof that a scope was opened; handed back to close it.
pub struct ScopeHandle {
    depth: usize,
}

impl ScopeHandle {
    /// How many scopes enclosed this one when it was opened.
    pub closed spec fn spec_depth(&self) -> nat {
        self.depth as nat
    }

    /// How many scopes enclosed this one when it was opened.
    pub fn depth(&self) -> (r: usize)
        ensures
            r == self.spec_depth(),
    {
        self.depth
    }
}

/// Tracks the live resources of each open scope and the finalization records
/// emitted so far.
pub struct Registry {
    frames: Vec<Vec<u64>>,
    log: Vec<u64>,
    next_id: u64,
}

impl View for Registry {
    type V = RegistryModel;

    closed spec fn view(&self) -> RegistryModel {
        RegistryModel {
            frames: self.frames@.map_values(|f: Vec<u64>| f@),
            log: self.log@,
            next_id: self.next_id,
        }
    }
}

impl Registry {
    /// Every issued identifier is live in one scope or finalized once.
    pub open spec fn well_formed(&self) -> bool {
        self@.wf()
    }

    /// A registry with no open scope and no record.
    pub fn new() -> (r: Registry)
        ensures
            r@ == RegistryModel::empty(),
            r.well_formed(),
    {
        let r = Registry { frames: Vec::new(), log: Vec::new(), next_id: 0 };
        proof {
            lemma_empty_wf();
            assert(r@.frames =~= Seq::<Seq<u64>>::empty());
            assert(r@.log =~= Seq::<u64>::empty());
        }
        r
    }

    /// Opens a new innermost scope.
    pub fn enter_scope(&mut self) -> (h: ScopeHandle)
        requires
            old(self).well_formed(),
        ensures
            final(self)@ == old(self)@.enter(),
            final(self).well_formed(),
            h.spec_depth() == old(self)@.frames.len(),
    {
        let depth = self.frames.len();
        self.frames.push(Vec::new());
        proof {
            assert(self@.frames =~= old(self)@.frames.push(Seq::empty()));
            assert(self@ == old(self)@.enter());
            lemma_enter_wf(old(self)@);
        }
        ScopeHandle { depth }
    }

    /// Creates a tracked resource owned by the innermost open scope.
    pub fn create_tracked(&mut self) -> (r: TrackedResource)
        requires
            old(self).well_formed(),
            old(self)@.frames.len() > 0,
            old(self)@.next_id < u64::MAX,
        ensures
            final(self)@ == old(self)@.create(),
            final(self).well_formed(),
            r.spec_id() == old(self)@.next_id,
    {
        let id = self.next_id;
        let mut top = self.frames.pop().unwrap();
        top.push(id);
        self.frames.push(top);
        self.next_id = id + 1;
        proof {
            assert(self@.frames =~= old(self)@.create().frames);
            assert(self@ == old(self)@.create());
            lemma_create_wf(old(self)@);
        }
        TrackedResource { id }
    }

    /// Declares a plain value in the innermost scope: nothing is registered,
    /// and it never yields a finalization record.
    pub fn create_plain(&mut self) -> (r: PlainValue)
        ensures
            final(self)@ == old(self)@,
    {
        PlainValue
    }

    /// Closes the innermost scope, finalizing its resources in reverse order
    /// of creation.
    pub fn exit_scope(&mut self, handle: ScopeHandle)
        requires
            old(self).well_formed(),
            handle.spec_depth() + 1 == old(self)@.frames.len(),
        ensures
            final(self)@ == old(self)@.exit(),
            final(self).well_formed(),
    {
        let top = self.frames.pop().unwrap();
        let ghost log0 = self.log@;
        let ghost frames0 = self.frames@;
        let n = top.len();
        let mut i: usize = n;
        while i > 0
            invariant
                i <= n,
                n == top@.len(),
                self.frames@ == frames0,
                frames0 == old(self).frames@.drop_last(),
                self.next_id == old(self).next_id,
                self.log@ =~= log0 + Seq::new((n - i) as nat, |j: int| top@[n - 1 - j]),
            decreases i,
        {
            i = i - 1;
            self.log.push(top[i]);
        }
        proof {
            assert(top@.reverse() =~= Seq::new(n as nat, |j: int| top@[n - 1 - j]));
            assert(self@.frames =~= old(self)@.frames.drop_last());
            assert(self@ == old(self)@.exit());
            lemma_exit_wf(old(self)@);
        }
    }

    /// The finalization records emitted so far, oldest first.
    pub fn records(&self) -> (r: &Vec<u64>)
        ensures
            r@ == self@.log,
    {
        &self.log
    }

    /// How many scopes are open.
    pub fn depth(&self) -> (r: usize)
        ensures
            r == self@.frames.len(),
    {
        self.frames.len()
    }
}

} // verus!
