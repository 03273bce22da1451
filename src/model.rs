//! The mathematical model of a registry: a stack of scopes, each holding the
//! identifiers of its live resources in creation order, and the ordered log of
//! finalization records.
use vstd::prelude::*;

verus! {

/// The abstract state of a registry.
pub struct RegistryModel {
    /// Open scopes, outermost first; each lists its live identifiers in
    /// creation order.
    pub frames: Seq<Seq<u64>>,
    /// Finalization records, in the order they were emitted.
    pub log: Seq<u64>,
    /// The identifier the next tracked resource receives.
    pub next_id: u64,
}

/// The identifiers `0 .. n`, in issue order.
pub open spec fn issued(n: u64) -> Seq<u64> {
    Seq::new(n as nat, |i: int| i as u64)
}

impl RegistryModel {
    /// A registry with no open scope, no record and no resource issued.
    pub open spec fn empty() -> RegistryModel {
        RegistryModel { frames: Seq::empty(), log: Seq::empty(), next_id: 0 }
    }

    /// Identifiers of all live resources, outermost scope first.
    pub open spec fn live(self) -> Seq<u64> {
        self.frames.flatten_alt()
    }

    /// Every identifier ever issued, finalized ones first.
    pub open spec fn accounted(self) -> Seq<u64> {
        self.log + self.live()
    }

    /// Every issued identifier is either live in exactly one place or
    /// finalized exactly once, and nothing else appears.
    pub open spec fn wf(self) -> bool {
        self.accounted().to_multiset() =~= issued(self.next_id).to_multiset()
    }

    /// Opening a new, innermost scope.
    pub open spec fn enter(self) -> RegistryModel {
        RegistryModel { frames: self.frames.push(Seq::empty()), ..self }
    }

    /// Creating a tracked resource in the innermost scope.
    pub open spec fn create(self) -> RegistryModel
        recommends
            self.frames.len() > 0,
            self.next_id < u64::MAX,
    {
        RegistryModel {
            frames: self.frames.update(
                self.frames.len() - 1,
                self.frames.last().push(self.next_id),
            ),
            next_id: (self.next_id + 1) as u64,
            ..self
        }
    }

    /// Closing the innermost scope: its resources are finalized, last
    /// created first.
    pub open spec fn exit(self) -> RegistryModel
        recommends
            self.frames.len() > 0,
    {
        RegistryModel {
            frames: self.frames.drop_last(),
            log: self.log + self.frames.last().reverse(),
            ..self
        }
    }
}

pub proof fn lemma_empty_wf()
    ensures
        RegistryModel::empty().wf(),
{
    broadcast use vstd::seq_lib::group_to_multiset_ensures;

    let s = RegistryModel::empty();
    assert(s.accounted() =~= Seq::<u64>::empty());
    assert(issued(0) =~= Seq::<u64>::empty());
}

/// Opening a scope keeps the registry well formed.
pub proof fn lemma_enter_wf(s: RegistryModel)
    requires
        s.wf(),
    ensures
        s.enter().wf(),
        s.enter().live() == s.live(),
{
    let t = s.enter();
    assert(t.frames.drop_last() =~= s.frames);
    assert(t.live() =~= s.live());
}

/// Creating a resource appends its identifier to the live ones and keeps the
/// registry well formed.
pub proof fn lemma_create_wf(s: RegistryModel)
    requires
        s.wf(),
        s.frames.len() > 0,
        s.next_id < u64::MAX,
    ensures
        s.create().wf(),
        s.create().live() == s.live().push(s.next_id),
{
    broadcast use vstd::seq_lib::group_to_multiset_ensures;

    let t = s.create();
    assert(t.frames.drop_last() =~= s.frames.drop_last());
    assert(s.live() =~= s.frames.drop_last().flatten_alt() + s.frames.last());
    assert(t.live() =~= s.live().push(s.next_id));
    assert(t.accounted() =~= s.accounted().push(s.next_id));
    assert(issued(t.next_id) =~= issued(s.next_id).push(s.next_id));
}

/// Closing a scope moves its identifiers, reversed, from the live ones to the
/// log, and keeps the registry well formed.
pub proof fn lemma_exit_wf(s: RegistryModel)
    requires
        s.wf(),
        s.frames.len() > 0,
    ensures
        s.exit().wf(),
        s.live() == s.exit().live() + s.frames.last(),
{
    broadcast use vstd::seq_lib::lemma_multiset_commutative;

    let t = s.exit();
    let last = s.frames.last();
    assert(s.live() =~= t.live() + last);
    assert(s.accounted() =~= s.log + (t.live() + last));
    assert(t.accounted() =~= (s.log + last.reverse()) + t.live());
    last.lemma_reverse_to_multiset();
    assert(t.accounted().to_multiset() =~= s.accounted().to_multiset()) by {
        vstd::seq_lib::lemma_multiset_commutative(s.log, t.live() + last);
        vstd::seq_lib::lemma_multiset_commutative(t.live(), last);
        vstd::seq_lib::lemma_multiset_commutative(s.log + last.reverse(), t.live());
        vstd::seq_lib::lemma_multiset_commutative(s.log, last.reverse());
        broadcast use vstd::multiset::group_multiset_axioms;

    }
}

} // verus!
