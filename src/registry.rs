//! The registry: an ordered map from key to entry, with reference counting.
use crate::model::{after_acquire, after_decrement, after_release};
use async_observable::Observable;
use std::collections::BTreeMap;
use vstd::laws_cmp::obeys_cmp;
use vstd::pervasive::strictly_cloned;
use vstd::prelude::*;

verus! {

broadcast use vstd::std_specs::btree::group_btree_axioms;

/// What the registry needs of its key type: an order that behaves as an
/// order, and a `clone` that yields an equal key.
pub open spec fn key_laws<K: Ord + Clone>() -> bool {
    &&& obeys_cmp::<K>()
    &&& forall|a: K, b: K| #[trigger] strictly_cloned(a, b) ==> a == b
}

/// Why a registry operation did not go through.
#[derive(Debug, Clone, Copy, PartialEq, Eq, Structural)]
pub enum SubscriptionError {
    /// A publish or modify named a key that has no entry.
    NotFound,
    /// A removal named a key that has no entry.
    NotFoundDuringRemoval,
    /// A handle was released for a key that has no entry.
    MissingOnRelease,
}

/// One observable value and the number of live handles on it.
#[derive(Clone, Debug)]
#[verifier::reject_recursive_types(V)]
pub struct SubscriptionEntry<V: Clone> {
    observable: Observable<V>,
    rc: usize,
}

impl<V: Clone> SubscriptionEntry<V> {
    /// The number of live handles on this entry.
    pub closed spec fn count(&self) -> nat {
        self.rc as nat
    }

    /// The entry's observable.
    pub closed spec fn spec_observable(&self) -> Observable<V> {
        self.observable
    }

    /// A fresh entry holding `value`, with no handle on it yet.
    pub fn new(value: V) -> (e: Self)
        ensures
            e.count() == 0,
    {
        SubscriptionEntry { observable: Observable::new(value), rc: 0 }
    }

    /// The number of live handles on this entry.
    pub fn ref_count(&self) -> (r: usize)
        ensures
            r == self.count(),
    {
        self.rc
    }
}

/// A handle on one key's entry. It carries its own cursor on the entry's
/// observable, so each holder tracks which version it has seen.
#[derive(Debug)]
#[verifier::reject_recursive_types(V)]
pub struct SubscriptionRef<K, V: Clone> {
    key: K,
    observable: Observable<V>,
}

impl<K, V: Clone> SubscriptionRef<K, V> {
    /// The key this handle was issued for.
    pub closed spec fn spec_key(&self) -> K {
        self.key
    }

    /// This handle's own cursor on the entry's observable.
    pub closed spec fn spec_observable(&self) -> Observable<V> {
        self.observable
    }

    /// The key this handle was issued for.
    pub fn key(&self) -> (r: &K)
        ensures
            *r == self.spec_key(),
    {
        &self.key
    }

    /// This handle's own cursor on the entry's observable.
    pub fn observable(&self) -> (r: &Observable<V>)
        ensures
            *r == self.spec_observable(),
    {
        &self.observable
    }

    /// This handle's own cursor on the entry's observable, to publish
    /// through it or wait for the next version.
    pub fn observable_mut(&mut self) -> (r: &mut Observable<V>)
        ensures
            *r == old(self).spec_observable(),
            final(self).spec_key() == old(self).spec_key(),
            final(self).spec_observable() == *final(r),
    {
        &mut self.observable
    }
}

impl<K, V: Clone> core::ops::Deref for SubscriptionRef<K, V> {
    type Target = Observable<V>;

    fn deref(&self) -> (r: &Observable<V>)
        ensures
            *r == self.spec_observable(),
    {
        &self.observable
    }
}

/// A registry of observable values keyed by `K`.
///
/// An entry exists for a key while some handle on it is live; the count of
/// live handles is what the registry's view shows for each key.
#[derive(Debug)]
#[verifier::reject_recursive_types(K)]
#[verifier::reject_recursive_types(V)]
pub struct SubscriptionMap<K: Ord + Clone, V: Clone> {
    entries: BTreeMap<K, SubscriptionEntry<V>>,
}

impl<K: Ord + Clone, V: Clone> View for SubscriptionMap<K, V> {
    type V = Map<K, nat>;

    closed spec fn view(&self) -> Map<K, nat> {
        self.entries@.map_values(|e: SubscriptionEntry<V>| e.rc as nat)
    }
}

impl<K: Ord + Clone, V: Clone> SubscriptionMap<K, V> {
    /// Each present key's observable, the one its handles are cursors on.
    pub closed spec fn observables(&self) -> Map<K, Observable<V>> {
        self.entries@.map_values(|e: SubscriptionEntry<V>| e.observable)
    }

    /// Every registry holds finitely many entries, and an observable for
    /// each present key and no other.
    pub proof fn lemma_finite(&self)
        ensures
            self@.dom().finite(),
            self.observables().dom() == self@.dom(),
    {
        assert(self@.dom() =~= self.entries@.dom());
        assert(self.observables().dom() =~= self@.dom());
    }

    /// An empty registry.
    pub fn new() -> (m: Self)
        ensures
            m@ == Map::<K, nat>::empty(),
            m@.dom().finite(),
    {
        let m = SubscriptionMap { entries: BTreeMap::new() };
        assert(m@ =~= Map::<K, nat>::empty());
        m
    }

    /// Takes a handle on `key`, creating its entry with `value` when the key
    /// is absent; a present entry keeps its value. The entry's count grows by
    /// one.
    pub fn get_or_insert(&mut self, key: K, value: V) -> (r: SubscriptionRef<K, V>)
        requires
            key_laws::<K>(),
            old(self)@.contains_key(key) ==> old(self)@[key] < usize::MAX,
        ensures
            final(self)@ == after_acquire(old(self)@, key),
            final(self)@.dom().finite(),
            final(self)@.dom() == old(self)@.dom().insert(key),
            !old(self)@.contains_key(key) ==> final(self)@.len() == old(self)@.len() + 1,
            old(self)@.contains_key(key) ==> final(self)@.len() == old(self)@.len(),
            r.spec_key() == key,
            old(self)@.contains_key(key) ==> final(self).observables() == old(self).observables(),
            final(self).observables().remove(key) == old(self).observables().remove(key),
    {
        proof {
            self.lemma_finite();
        }
        let mut entry = match self.entries.remove(&key) {
            Some(e) => e,
            None => SubscriptionEntry::new(value),
        };
        entry.rc = entry.rc + 1;
        let observable = entry.observable.clone();
        let handle_key = key.clone();
        assert(strictly_cloned(key, handle_key));
        self.entries.insert(key, entry);
        assert(final(self)@ =~= after_acquire(old(self)@, key));
        assert(final(self).observables().remove(key) =~= old(self).observables().remove(key));
        assert(old(self)@.contains_key(key) ==> final(self).observables() =~= old(self).observables());
        assert(final(self)@.dom() =~= old(self)@.dom().insert(key));
        proof {
            self.lemma_finite();
        }
        SubscriptionRef { key: handle_key, observable }
    }

    /// Publishes `value` on `key`'s entry if it differs from the current
    /// value, and says whether it did. Fails with `NotFound` exactly when the
    /// key has no entry. The counts are untouched.
    pub fn publish_if_changed(&mut self, key: &K, value: V) -> (r: Result<bool, SubscriptionError>)
        where
            V: PartialEq,
        requires
            key_laws::<K>(),
        ensures
            final(self)@ == old(self)@,
            r is Err <==> !old(self)@.contains_key(*key),
            r is Err ==> r == Err::<bool, SubscriptionError>(SubscriptionError::NotFound),
            r is Err ==> final(self).observables() == old(self).observables(),
            final(self).observables().remove(*key) == old(self).observables().remove(*key),
    {
        match self.entries.remove(key) {
            None => Err(SubscriptionError::NotFound),
            Some(mut entry) => {
                let changed = entry.observable.publish_if_changed(value);
                let slot = key.clone();
                assert(strictly_cloned(*key, slot));
                self.entries.insert(slot, entry);
                assert(final(self)@ =~= old(self)@);
                assert(final(self).observables().remove(*key) =~= old(self).observables().remove(
                    *key,
                ));
                Ok(changed)
            },
        }
    }

    /// Applies `modify` to `key`'s value in place and publishes the outcome
    /// as a new version, whether or not it changed. Fails with `NotFound`
    /// exactly when the key has no entry. The counts are untouched.
    ///
    /// The observable holds its own lock while `modify` runs, so `modify`
    /// must not publish through a handle on the same key: that deadlocks.
    pub fn modify_and_publish<F, R>(&mut self, key: &K, modify: F) -> (r: Result<(), SubscriptionError>)
        where
            F: FnOnce(&mut V) -> R,
        requires
            key_laws::<K>(),
            forall|v: &mut V| modify.requires((v,)),
        ensures
            final(self)@ == old(self)@,
            r is Err <==> !old(self)@.contains_key(*key),
            r is Err ==> r == Err::<(), SubscriptionError>(SubscriptionError::NotFound),
            r is Err ==> final(self).observables() == old(self).observables(),
            final(self).observables().remove(*key) == old(self).observables().remove(*key),
    {
        match self.entries.remove(key) {
            None => Err(SubscriptionError::NotFound),
            Some(mut entry) => {
                entry.observable.modify(
                    |v: &mut V|
                        {
                            modify(v);
                        },
                );
                let slot = key.clone();
                assert(strictly_cloned(*key, slot));
                self.entries.insert(slot, entry);
                assert(final(self)@ =~= old(self)@);
                assert(final(self).observables().remove(*key) =~= old(self).observables().remove(
                    *key,
                ));
                Ok(())
            },
        }
    }

    /// Removes `key`'s entry, which must have no live handle left. Fails with
    /// `NotFoundDuringRemoval` exactly when the key has no entry.
    pub fn remove(&mut self, key: &K) -> (r: Result<(), SubscriptionError>)
        requires
            key_laws::<K>(),
            old(self)@.contains_key(*key) ==> old(self)@[*key] == 0,
        ensures
            old(self)@.contains_key(*key) ==> r is Ok && final(self)@ == old(self)@.remove(*key),
            !old(self)@.contains_key(*key) ==> r == Err::<(), SubscriptionError>(
                SubscriptionError::NotFoundDuringRemoval,
            ) && final(self)@ == old(self)@,
            final(self).observables() == old(self).observables().restrict(final(self)@.dom()),
            final(self)@.dom().finite(),
    {
        match self.entries.remove(key) {
            None => {
                assert(old(self).observables() =~= old(self).observables().restrict(
                    old(self)@.dom(),
                ));
                proof {
                    self.lemma_finite();
                }
                Err(SubscriptionError::NotFoundDuringRemoval)
            },
            Some(_) => {
                assert(final(self)@ =~= old(self)@.remove(*key));
                assert(final(self).observables() =~= old(self).observables().restrict(
                    final(self)@.dom(),
                ));
                proof {
                    self.lemma_finite();
                }
                Ok(())
            },
        }
    }

    /// Second half of releasing a handle, under contention: removes `key`'s
    /// entry if its count is still zero and says whether it did. An entry
    /// that a new handle took again in the meantime stays. Fails with
    /// `NotFoundDuringRemoval` exactly when the key has no entry.
    pub fn remove_if_unreferenced(&mut self, key: &K) -> (r: Result<bool, SubscriptionError>)
        requires
            key_laws::<K>(),
        ensures
            !old(self)@.contains_key(*key) ==> r == Err::<bool, SubscriptionError>(
                SubscriptionError::NotFoundDuringRemoval,
            ) && final(self)@ == old(self)@,
            old(self)@.contains_key(*key) && old(self)@[*key] == 0 ==> r == Ok::<
                bool,
                SubscriptionError,
            >(true) && final(self)@ == old(self)@.remove(*key),
            old(self)@.contains_key(*key) && old(self)@[*key] > 0 ==> r == Ok::<
                bool,
                SubscriptionError,
            >(false) && final(self)@ == old(self)@,
            final(self).observables() == old(self).observables().restrict(final(self)@.dom()),
            final(self)@.dom().finite(),
    {
        proof {
            self.lemma_finite();
            assert(old(self).observables() =~= old(self).observables().restrict(old(self)@.dom()));
        }
        match self.ref_count(key) {
            None => Err(SubscriptionError::NotFoundDuringRemoval),
            Some(0) => match self.remove(key) {
                Ok(()) => Ok(true),
                Err(e) => Err(e),
            },
            Some(_) => Ok(false),
        }
    }

    /// First half of releasing a handle on `key`: its entry loses one count,
    /// and the count left is returned. The entry stays even at zero; `remove`
    /// takes it out. Fails with `MissingOnRelease` exactly when the key has no
    /// entry.
    pub fn decrement(&mut self, key: &K) -> (r: Result<usize, SubscriptionError>)
        requires
            key_laws::<K>(),
            old(self)@.contains_key(*key) ==> old(self)@[*key] >= 1,
        ensures
            old(self)@.contains_key(*key) ==> r is Ok && r->Ok_0 == old(self)@[*key] - 1
                && final(self)@ == after_decrement(old(self)@, *key),
            !old(self)@.contains_key(*key) ==> r == Err::<usize, SubscriptionError>(
                SubscriptionError::MissingOnRelease,
            ) && final(self)@ == old(self)@,
            final(self).observables() == old(self).observables(),
            final(self)@.dom().finite(),
    {
        match self.entries.remove(key) {
            None => {
                proof {
                    self.lemma_finite();
                }
                Err(SubscriptionError::MissingOnRelease)
            },
            Some(mut entry) => {
                entry.rc = entry.rc - 1;
                let left = entry.rc;
                let slot = key.clone();
                assert(strictly_cloned(*key, slot));
                self.entries.insert(slot, entry);
                assert(final(self)@ =~= after_decrement(old(self)@, *key));
                assert(final(self).observables() =~= old(self).observables());
                proof {
                    self.lemma_finite();
                }
                Ok(left)
            },
        }
    }

    /// Releases `handle`: its entry loses one count and is removed when no
    /// handle is left. Fails with `MissingOnRelease`, changing nothing,
    /// exactly when the handle's key has no entry.
    pub fn release(&mut self, handle: SubscriptionRef<K, V>) -> (r: Result<(), SubscriptionError>)
        requires
            key_laws::<K>(),
            old(self)@.contains_key(handle.spec_key()) ==> old(self)@[handle.spec_key()] >= 1,
        ensures
            old(self)@.contains_key(handle.spec_key()) ==> r is Ok && final(self)@ == after_release(
                old(self)@,
                handle.spec_key(),
            ),
            !old(self)@.contains_key(handle.spec_key()) ==> r == Err::<(), SubscriptionError>(
                SubscriptionError::MissingOnRelease,
            ) && final(self)@ == old(self)@,
            final(self).observables() == old(self).observables().restrict(final(self)@.dom()),
            final(self)@.dom().finite(),
    {
        let key = handle.key;
        match self.decrement(&key) {
            Err(e) => {
                assert(old(self).observables() =~= old(self).observables().restrict(
                    old(self)@.dom(),
                ));
                Err(e)
            },
            Ok(left) => {
                if left == 0 {
                    let removed = self.remove(&key);
                    assert(final(self)@ =~= after_release(old(self)@, key));
                    assert(final(self).observables() =~= old(self).observables().restrict(
                        final(self)@.dom(),
                    ));
                    removed
                } else {
                    assert(final(self)@ =~= after_release(old(self)@, key));
                    assert(final(self).observables() =~= old(self).observables().restrict(
                        final(self)@.dom(),
                    ));
                    Ok(())
                }
            },
        }
    }

    /// The number of keys that have an entry.
    pub fn len(&self) -> (r: usize)
        requires
            key_laws::<K>(),
        ensures
            r == self@.len(),
            self@.dom().finite(),
    {
        assert(self@.dom() =~= self.entries@.dom());
        self.entries.len()
    }

    /// The number of live handles on `key`'s entry, or `None` when the key
    /// has no entry.
    pub fn ref_count(&self, key: &K) -> (r: Option<usize>)
        requires
            key_laws::<K>(),
        ensures
            r == (if self@.contains_key(*key) {
                Some(self@[*key] as usize)
            } else {
                None::<usize>
            }),
    {
        match self.entries.get(key) {
            None => None,
            Some(entry) => Some(entry.rc),
        }
    }
}

impl<K: Ord + Clone, V: Clone> Default for SubscriptionMap<K, V> {
    fn default() -> (m: Self)
        ensures
            m@ == Map::<K, nat>::empty(),
    {
        Self::new()
    }
}

} // verus!
