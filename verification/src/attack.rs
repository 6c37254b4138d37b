//! Configuration markers of attacks and their storage.

use vstd::prelude::*;

verus! {

/// Sortie shared by the whole process.
#[derive(Debug)]
pub struct GlobalSortie {}

/// Sortie local to one owner.
#[derive(Debug)]
pub struct LocalSortie {}

/// Configuration of a sortie.
pub trait SortieConfig {
    /// The number of variants.
    fn variants() -> u16;
}

/// Archive of attacks.
pub trait AttackArchive {

}

/// Store of attacks.
pub trait AttackStore {

}

} // verus!
