//! The table of the cells that are still covered, kept in a hash map of
//! `bevy_utils`.

use vstd::prelude::*;

verus! {

/// Hash map from the position of each covered cell, as `(x, y)`, to whether
/// the cell carries a flag.
///
/// The map is a `bevy_utils::HashMap`, which is a `hashbrown::HashMap` with
/// the hasher of `ahash`. Verus does not look inside it: what it holds is
/// named by `covered_entries`, and each method below states what the method
/// of the map that it calls does to those entries. Nothing of this is
/// proved.
#[verifier::external_body]
pub struct CoveredCells {
    cells: bevy_utils::HashMap<(u16, u16), bool>,
}

/// The entries of the table: the positions of the covered cells, each with
/// its flag.
pub uninterp spec fn covered_entries(table: CoveredCells) -> Map<(u16, u16), bool>;

impl View for CoveredCells {
    type V = Map<(u16, u16), bool>;

    open spec fn view(&self) -> Map<(u16, u16), bool> {
        covered_entries(*self)
    }
}

impl CoveredCells {
    /// `HashMap::new`: a map without entries.
    #[verifier::external_body]
    pub(crate) fn new() -> (table: CoveredCells)
        ensures
            (covered_entries(table) == Map::<(u16, u16), bool>::empty()),
    {
        CoveredCells { cells: bevy_utils::HashMap::new() }
    }

    /// `HashMap::len`: the number of entries.
    #[verifier::external_body]
    pub(crate) fn len(&self) -> (n: usize)
        ensures
            n == covered_entries(*self).dom().len(),
    {
        self.cells.len()
    }

    /// `HashMap::insert`: the key has the new value afterwards and no other
    /// entry changes; the value that the key had before is returned.
    #[verifier::external_body]
    pub(crate) fn insert(&mut self, key: (u16, u16), flagged: bool) -> (previous: Option<bool>)
        ensures
            covered_entries(*final(self)) == covered_entries(*old(self)).insert(key, flagged),
            previous == (if covered_entries(*old(self)).dom().contains(key) {
                Some(covered_entries(*old(self))[key])
            } else {
                None
            }),
    {
        self.cells.insert(key, flagged)
    }

    /// `HashMap::remove`: the key has no entry afterwards and no other entry
    /// changes; the value that the key had is returned.
    #[verifier::external_body]
    pub(crate) fn remove(&mut self, key: (u16, u16)) -> (previous: Option<bool>)
        ensures
            covered_entries(*final(self)) == covered_entries(*old(self)).remove(key),
            previous == (if covered_entries(*old(self)).dom().contains(key) {
                Some(covered_entries(*old(self))[key])
            } else {
                None
            }),
    {
        self.cells.remove(&key)
    }

    /// `HashMap::get`: the value of the key, if it has an entry.
    #[verifier::external_body]
    pub(crate) fn get(&self, key: (u16, u16)) -> (value: Option<bool>)
        ensures
            value == (if covered_entries(*self).dom().contains(key) {
                Some(covered_entries(*self)[key])
            } else {
                None
            }),
    {
        self.cells.get(&key).copied()
    }
}

} // verus!
