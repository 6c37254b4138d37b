//! Maps whose keys are enum variants, each variant holding entries of its own type.

use std::collections::HashMap;
use vstd::prelude::*;

pub mod example;

verus! {

/// Keys of a [`VariantMap`]: each key's variant fixes the type of its entry.
pub trait VariantMapKey: Sized {
    /// An owned entry.
    type Entry: Sized;
    /// A mutable borrow of an entry.
    type EntryMut<'a>: Sized;
    /// A shared borrow of an entry.
    type EntryRef<'a>: Sized;
    /// The storage of an entry of any variant.
    type Union: Sized;
}

/// Map from keys to entries whose type depends on the key's variant.
pub struct VariantMap<K: VariantMapKey>(HashMap<K, K::Union>);

} // verus!
