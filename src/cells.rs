//! The table from cell keys to the numbers of the entries filed there. It
//! is bevy's hash map; Verus sees it only through what is stated here.
use vstd::prelude::*;
use bevy::utils::HashMap;

verus! {

/// Cell lists by cell key, held in bevy's `HashMap` (hashbrown, hashed with
/// aHash).
#[verifier::external_body]
pub struct CellMap {
    map: HashMap<u128, Vec<usize>>,
}

/// What a `CellMap` holds: the list of each key present.
pub uninterp spec fn cell_map_contents(m: CellMap) -> Map<u128, Seq<usize>>;

impl CellMap {
    /// Relies on `Default` for hashbrown's `HashMap`: a new map holds no key.
    #[verifier::external_body]
    pub(crate) fn new() -> (r: CellMap)
        ensures
            forall|k: u128| !cell_map_contents(r).contains_key(k),
    {
        CellMap { map: HashMap::default() }
    }

    /// Relies on hashbrown's `HashMap::get`: the value stored under `key`, if
    /// any.
    #[verifier::external_body]
    pub(crate) fn get(&self, key: u128) -> (r: Option<&Vec<usize>>)
        ensures
            match r {
                Some(v) => cell_map_contents(*self).contains_key(key) && v@ == cell_map_contents(
                    *self,
                )[key],
                None => !cell_map_contents(*self).contains_key(key),
            },
    {
        self.map.get(&key)
    }

    /// Relies on hashbrown's `HashMap::remove`: takes out the value stored
    /// under `key`, if any, and hands it back.
    #[verifier::external_body]
    pub(crate) fn remove(&mut self, key: u128) -> (r: Option<Vec<usize>>)
        ensures
            cell_map_contents(*final(self)) == cell_map_contents(*old(self)).remove(key),
            match r {
                Some(v) => cell_map_contents(*old(self)).contains_key(key) && v@
                    == cell_map_contents(*old(self))[key],
                None => !cell_map_contents(*old(self)).contains_key(key),
            },
    {
        self.map.remove(&key)
    }

    /// Relies on hashbrown's `HashMap::insert`: afterwards `key` maps to
    /// `list`, whether it was present or not.
    #[verifier::external_body]
    pub(crate) fn insert(&mut self, key: u128, list: Vec<usize>)
        ensures
            cell_map_contents(*final(self)) == cell_map_contents(*old(self)).insert(key, list@),
    {
        self.map.insert(key, list);
    }

    /// Relies on hashbrown's `HashMap::clear`: afterwards the map holds no
    /// key.
    #[verifier::external_body]
    pub(crate) fn clear(&mut self)
        ensures
            forall|k: u128| !cell_map_contents(*final(self)).contains_key(k),
    {
        self.map.clear();
    }
}

} // verus!
