//! Laws of scoped finalization, stated over the model that the registry's
//! operations follow.
use vstd::prelude::*;

use crate::model::{RegistryModel, issued, lemma_create_wf, lemma_enter_wf, lemma_exit_wf};

verus! {

/// The state after `n` tracked resources are created in the innermost scope.
pub open spec fn create_n(s: RegistryModel, n: nat) -> RegistryModel
    decreases n,
{
    if n == 0 {
        s
    } else {
        create_n(s, (n - 1) as nat).create()
    }
}

/// The identifiers `lo .. lo + n`, in issue order.
pub open spec fn fresh(lo: u64, n: nat) -> Seq<u64> {
    Seq::new(n, |i: int| (lo + i) as u64)
}

/// Creating `n` resources appends `n` fresh identifiers to the innermost
/// scope and touches nothing else.
pub proof fn lemma_create_n(s: RegistryModel, n: nat)
    requires
        s.wf(),
        s.frames.len() > 0,
        s.next_id + n <= u64::MAX,
    ensures
        create_n(s, n).wf(),
        create_n(s, n).next_id == s.next_id + n,
        create_n(s, n).log == s.log,
        create_n(s, n).frames == s.frames.update(
            s.frames.len() - 1,
            s.frames.last() + fresh(s.next_id, n),
        ),
    decreases n,
{
    if n == 0 {
        assert(s.frames.last() + fresh(s.next_id, 0) =~= s.frames.last());
        assert(s.frames.update(s.frames.len() - 1, s.frames.last()) =~= s.frames);
    } else {
        let m = (n - 1) as nat;
        lemma_create_n(s, m);
        let p = create_n(s, m);
        lemma_create_wf(p);
        assert(s.frames.last() + fresh(s.next_id, n) =~= (s.frames.last() + fresh(
            s.next_id,
            m,
        )).push(p.next_id));
        assert(create_n(s, n).frames =~= s.frames.update(
            s.frames.len() - 1,
            s.frames.last() + fresh(s.next_id, n),
        ));
    }
}

/// Within one scope, finalization runs in exact reverse order of creation:
/// closing the scope after `n` more creations first emits the `n` new
/// identifiers newest first, then the scope's earlier ones, newest first.
pub proof fn lemma_scope_finalizes_in_reverse(s: RegistryModel, n: nat)
    requires
        s.wf(),
        s.frames.len() > 0,
        s.next_id + n <= u64::MAX,
    ensures
        create_n(s, n).exit().log == s.log + fresh(s.next_id, n).reverse()
            + s.frames.last().reverse(),
        create_n(s, n).exit().frames == s.frames.drop_last(),
        create_n(s, n).exit().wf(),
{
    lemma_create_n(s, n);
    let p = create_n(s, n);
    lemma_exit_wf(p);
    assert((s.frames.last() + fresh(s.next_id, n)).reverse() =~= fresh(s.next_id, n).reverse()
        + s.frames.last().reverse());
    assert(p.exit().frames =~= s.frames.drop_last());
}

/// A scope opened, given `n` resources and closed emits exactly their `n`
/// records, newest first, and leaves the enclosing scopes as they were; with
/// no resource it emits nothing.
pub proof fn lemma_fresh_scope_in_reverse(s: RegistryModel, n: nat)
    requires
        s.wf(),
        s.next_id + n <= u64::MAX,
    ensures
        create_n(s.enter(), n).exit().log == s.log + fresh(s.next_id, n).reverse(),
        create_n(s.enter(), n).exit().frames == s.frames,
        n == 0 ==> s.enter().exit().log == s.log,
{
    lemma_enter_wf(s);
    lemma_scope_finalizes_in_reverse(s.enter(), n);
    assert(s.enter().frames.last().reverse() =~= Seq::<u64>::empty());
    assert(s.log + fresh(s.next_id, n).reverse() + Seq::<u64>::empty() =~= s.log + fresh(
        s.next_id,
        n,
    ).reverse());
    assert(s.enter().frames.drop_last() =~= s.frames);
    assert(s.enter().exit().log =~= s.log);
}

/// Every issued resource is finalized at most once and is either still live
/// or finalized, never both; once no scope is open, every issued resource has
/// been finalized exactly once.
pub proof fn lemma_finalized_exactly_once(s: RegistryModel)
    requires
        s.wf(),
    ensures
        s.log.no_duplicates(),
        s.live().no_duplicates(),
        s.log.disjoint(s.live()),
        forall|id: u64| s.log.contains(id) || s.live().contains(id) <==> id < s.next_id,
        s.frames.len() == 0 ==> forall|id: u64| s.log.contains(id) <==> id < s.next_id,
{
    broadcast use vstd::seq_lib::group_to_multiset_ensures;

    let all = issued(s.next_id);
    let acc = s.accounted();
    assert(all.no_duplicates());
    all.lemma_multiset_has_no_duplicates();
    acc.lemma_multiset_has_no_duplicates_conv();
    assert forall|i: int, j: int| 0 <= i < j < s.log.len() implies s.log[i] != s.log[j] by {
        assert(acc[i] == s.log[i] && acc[j] == s.log[j]);
    }
    assert forall|i: int, j: int| 0 <= i < j < s.live().len() implies s.live()[i]
        != s.live()[j] by {
        assert(acc[s.log.len() + i] == s.live()[i] && acc[s.log.len() + j] == s.live()[j]);
    }
    assert forall|i: int, j: int| 0 <= i < s.log.len() && 0 <= j < s.live().len() implies s.log[i]
        != s.live()[j] by {
        assert(acc[i] == s.log[i] && acc[s.log.len() + j] == s.live()[j]);
    }
    assert forall|id: u64| s.log.contains(id) || s.live().contains(id) <==> id < s.next_id by {
        assert(acc.to_multiset().count(id) == all.to_multiset().count(id));
        assert(acc.contains(id) <==> all.contains(id));
        if id < s.next_id {
            assert(all[id as int] == id);
            assert(all.contains(id));
        }
        if all.contains(id) {
            let k = choose|k: int| 0 <= k < all.len() && all[k] == id;
            assert(all[k] == k as u64);
        }
        if s.log.contains(id) {
            let k = choose|k: int| 0 <= k < s.log.len() && s.log[k] == id;
            assert(acc[k] == id);
        }
        if s.live().contains(id) {
            let k = choose|k: int| 0 <= k < s.live().len() && s.live()[k] == id;
            assert(acc[s.log.len() + k] == id);
        }
        if acc.contains(id) {
            let k = choose|k: int| 0 <= k < acc.len() && acc[k] == id;
            if k < s.log.len() {
                assert(s.log[k] == id);
            } else {
                assert(s.live()[k - s.log.len()] == id);
            }
        }
    }
    if s.frames.len() == 0 {
        assert(s.live() =~= Seq::<u64>::empty());
    }
}

/// Closing an inner scope finalizes every resource created in it before the
/// close returns, and strictly before any resource of the enclosing scope,
/// however many more the enclosing scope creates before it is closed.
pub proof fn lemma_inner_before_outer(s: RegistryModel, k: nat)
    requires
        s.wf(),
        s.frames.len() >= 2,
        s.next_id + k <= u64::MAX,
    ensures
        forall|id: u64| #[trigger]
            s.frames.last().contains(id) ==> s.exit().log.contains(id) && !s.exit().live().contains(
                id,
            ),
        forall|i: int, j: int|
            0 <= i < create_n(s.exit(), k).exit().log.len() && 0 <= j < create_n(
                s.exit(),
                k,
            ).exit().log.len() && s.frames.last().contains(
                #[trigger] create_n(s.exit(), k).exit().log[i],
            ) && create_n(s.exit(), k).frames.last().contains(
                #[trigger] create_n(s.exit(), k).exit().log[j],
            ) ==> i < j,
{
    let t = s.exit();
    let inner = s.frames.last();
    lemma_exit_wf(s);
    lemma_finalized_exactly_once(t);
    lemma_create_n(t, k);
    let p = create_n(t, k);
    let outer = p.frames.last();
    let u = p.exit();
    lemma_exit_wf(p);
    lemma_finalized_exactly_once(u);
    assert(t.log =~= s.log + inner.reverse());
    assert forall|id: u64| #[trigger] inner.contains(id) implies t.log.contains(id)
        && !t.live().contains(id) by {
        let m = choose|m: int| 0 <= m < inner.len() && inner[m] == id;
        assert(t.log[s.log.len() + (inner.len() - 1 - m)] == id);
    }
    assert(u.log =~= t.log + outer.reverse());
    assert forall|i: int, j: int|
        0 <= i < u.log.len() && 0 <= j < u.log.len() && inner.contains(#[trigger] u.log[i])
            && outer.contains(#[trigger] u.log[j]) implies i < j by {
        let b = t.log.len() as int;
        // an outer record sits in the reversed outer frame, past the prefix
        let mj = choose|m: int| 0 <= m < outer.len() && outer[m] == u.log[j];
        assert(u.log[b + (outer.len() - 1 - mj)] == u.log[j]);
        // an inner record sits in the prefix emitted by the inner close
        let mi = choose|m: int| 0 <= m < inner.len() && inner[m] == u.log[i];
        assert(u.log[s.log.len() + (inner.len() - 1 - mi)] == u.log[i]);
    }
}

} // verus!
