//! A self-cleaning registry of observable values keyed by an identifier.
//!
//! Each key owns one entry: an observable value and the number of live
//! subscription handles on it. An entry is created by the first subscriber
//! and removed as soon as the last one is released, so transient keys do not
//! pile up. Every subscriber on a key shares one value stream and keeps its
//! own cursor into it.
mod observable;

pub mod model;

mod registry;

pub use model::{after_acquire, after_decrement, after_release, replay, steady, Step};
pub use registry::{
    key_laws, SubscriptionEntry, SubscriptionError, SubscriptionMap, SubscriptionRef,
};
