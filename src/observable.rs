//! Contracts for the outside observable primitive.
//!
//! An `Observable` is a shared cell: every clone of it sees the same value
//! and version stream. What it holds can change through any clone, so no
//! contract here speaks of its value.
use async_observable::Observable;
use vstd::prelude::*;

verus! {

/// Declares `async_observable::Observable`, held opaquely in entries and
/// handles.
#[verifier::external_type_specification]
#[verifier::external_body]
#[verifier::reject_recursive_types(T)]
pub struct ExObservable<T: Clone>(Observable<T>);

/// Relies on `Observable::new`: a fresh shared cell holding `value`.
pub assume_specification<T: Clone>[ Observable::<T>::new ](value: T) -> Observable<T>;

/// Relies on `Observable`'s `Clone`: another cursor on the same shared cell.
pub assume_specification<T: Clone>[ <Observable<T> as Clone>::clone ](
    this: &Observable<T>,
) -> Observable<T>;

/// Relies on `Observable::publish_if_changed`: stores `value` and wakes the
/// waiters only when it differs from the current value, and says whether it did.
pub assume_specification<T: Clone + PartialEq>[ Observable::<T>::publish_if_changed ](
    this: &mut Observable<T>,
    value: T,
) -> bool;

/// Relies on `Observable::modify`: applies `modify` to the current value and
/// publishes the outcome as a new version.
pub assume_specification<T: Clone, M>[ Observable::<T>::modify::<M> ](
    this: &mut Observable<T>,
    modify: M,
)
    where
        M: FnOnce(&mut T),
;

} // verus!
