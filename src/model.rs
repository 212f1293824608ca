//! The abstract state of a registry: for each present key, the number of
//! live handles on its entry. The registry's operations are stated as
//! transitions of this state, and the laws below are proved over them.
use vstd::prelude::*;

verus! {

/// The state after one more handle is taken on `key`: a present entry gains
/// one, an absent key gets a fresh entry with a count of one.
pub open spec fn after_acquire<K>(m: Map<K, nat>, key: K) -> Map<K, nat> {
    if m.contains_key(key) {
        m.insert(key, m[key] + 1)
    } else {
        m.insert(key, 1)
    }
}

/// The state after the count of a present `key` has dropped by one, before
/// any removal: the entry stays, possibly with a count of zero.
pub open spec fn after_decrement<K>(m: Map<K, nat>, key: K) -> Map<K, nat> {
    m.insert(key, (m[key] - 1) as nat)
}

/// The state after a handle on a present `key` is released: the entry loses
/// one, and is gone once no handle is left.
pub open spec fn after_release<K>(m: Map<K, nat>, key: K) -> Map<K, nat> {
    if m[key] <= 1 {
        m.remove(key)
    } else {
        m.insert(key, (m[key] - 1) as nat)
    }
}

/// Every present entry has at least one live handle.
pub open spec fn steady<K>(m: Map<K, nat>) -> bool {
    forall|k: K| #[trigger] m.contains_key(k) ==> m[k] >= 1
}

} // verus!

verus! {

/// One step of a registry's life, as far as handle counts go.
pub enum Step<K> {
    /// A handle is taken on the key.
    Acquire(K),
    /// A handle on the key is released.
    Release(K),
}

impl<K> Step<K> {
    /// The key the step is about.
    pub open spec fn key(self) -> K {
        match self {
            Step::Acquire(k) => k,
            Step::Release(k) => k,
        }
    }
}

/// The state after `steps`, taken in order from `m`. A release on a key
/// without an entry changes nothing, as `release` leaves the registry alone
/// then.
pub open spec fn replay<K>(m: Map<K, nat>, steps: Seq<Step<K>>) -> Map<K, nat>
    decreases steps.len(),
{
    if steps.len() == 0 {
        m
    } else {
        let before = replay(m, steps.drop_last());
        match steps.last() {
            Step::Acquire(k) => after_acquire(before, k),
            Step::Release(k) => if before.contains_key(k) {
                after_release(before, k)
            } else {
                before
            },
        }
    }
}

/// From an empty registry, any run of acquires and releases leaves every
/// entry with at least one live handle, so the number of entries is the
/// number of keys with a live handle; and a key that no step names has no
/// entry.
pub proof fn lemma_replay_from_empty<K>(steps: Seq<Step<K>>, absent: K)
    requires
        forall|i: int| 0 <= i < steps.len() ==> (#[trigger] steps[i]).key() != absent,
    ensures
        steady(replay(Map::empty(), steps)),
        replay(Map::empty(), steps).dom().filter(|k: K| replay(Map::empty(), steps)[k] >= 1)
            == replay(Map::empty(), steps).dom(),
        !replay(Map::empty(), steps).contains_key(absent),
    decreases steps.len(),
{
    let r = replay(Map::empty(), steps);
    if steps.len() > 0 {
        let prefix = steps.drop_last();
        assert forall|i: int| 0 <= i < prefix.len() implies (#[trigger] prefix[i]).key()
            != absent by {
            assert(prefix[i] == steps[i]);
        }
        lemma_replay_from_empty(prefix, absent);
        assert(steps.last() == steps[steps.len() - 1]);
    }
    assert(r.dom().filter(|k: K| r[k] >= 1) =~= r.dom());
}

/// `n` acquires of `key` in a row.
pub open spec fn acquires<K>(key: K, n: nat) -> Seq<Step<K>> {
    Seq::new(n, |i: int| Step::Acquire(key))
}

/// However many handles are taken on an absent key, one entry is created
/// for it, and its count is the number of handles.
pub proof fn lemma_acquires_share_one_entry<K>(m: Map<K, nat>, key: K, n: nat)
    requires
        !m.contains_key(key),
        n >= 1,
    ensures
        replay(m, acquires(key, n)).dom() == m.dom().insert(key),
        replay(m, acquires(key, n))[key] == n,
        forall|k: K| k != key && #[trigger] m.contains_key(k) ==> replay(m, acquires(key, n))[k] == m[k],
    decreases n,
{
    let steps = acquires(key, n);
    let r = replay(m, steps);
    assert(steps.last() == Step::Acquire(key));
    if n == 1 {
        assert(steps.drop_last() =~= Seq::<Step<K>>::empty());
        assert(replay(m, steps.drop_last()) == m);
    } else {
        assert(steps.drop_last() =~= acquires(key, (n - 1) as nat));
        lemma_acquires_share_one_entry(m, key, (n - 1) as nat);
    }
    assert(r.dom() =~= m.dom().insert(key));
}

/// Releasing the only handle on a key removes its entry at once, and
/// leaves every other entry as it was.
pub proof fn lemma_release_only_handle<K>(m: Map<K, nat>, key: K)
    requires
        m.contains_key(key),
        m[key] == 1,
    ensures
        !after_release(m, key).contains_key(key),
        after_release(m, key) == m.remove(key),
{
}

/// With two handles on a key that had no entry, releasing one keeps the
/// entry with a count of exactly one; releasing the other removes it and
/// gives back the state from before.
pub proof fn lemma_two_handles<K>(m: Map<K, nat>, key: K)
    requires
        !m.contains_key(key),
    ensures
        after_acquire(after_acquire(m, key), key)[key] == 2,
        after_release(after_acquire(after_acquire(m, key), key), key).contains_key(key),
        after_release(after_acquire(after_acquire(m, key), key), key)[key] == 1,
        after_release(after_release(after_acquire(after_acquire(m, key), key), key), key) == m,
{
    let two = after_acquire(after_acquire(m, key), key);
    assert(after_release(after_release(two, key), key) =~= m);
}

/// Taking a handle and releasing it again preserves the invariant that every
/// entry has a live handle.
pub proof fn lemma_steady_preserved<K>(m: Map<K, nat>, key: K)
    requires
        steady(m),
    ensures
        steady(after_acquire(m, key)),
        m.contains_key(key) ==> steady(after_release(m, key)),
{
}

} // verus!
