//! The persistent store model: a durable map from record keys to record
//! texts. The engine treats the store as a simple key-value collaborator;
//! its model is the map of the records it currently holds.

use vstd::hash_map::StringHashMap;
use vstd::prelude::*;

verus! {

/// The durable record store, keyed by the alias-derived record key.
pub struct PersistentStore {
    table: StringHashMap<String>,
}

impl PersistentStore {
    /// The records the store holds, as a map of character sequences.
    pub closed spec fn records(&self) -> Map<Seq<char>, Seq<char>> {
        Map::new(|k: Seq<char>| self.table@.dom().contains(k), |k: Seq<char>| self.table@[k]@)
    }

    pub fn new() -> (s: PersistentStore)
        ensures
            s.records() == Map::<Seq<char>, Seq<char>>::empty(),
    {
        let s = PersistentStore { table: StringHashMap::new() };
        proof {
            assert(s.records() =~= Map::<Seq<char>, Seq<char>>::empty());
        }
        s
    }

    /// Read the record under `key`, if any.
    pub fn get<'a>(&'a self, key: &str) -> (r: Option<&'a String>)
        ensures
            match r {
                Some(v) => self.records().dom().contains(key@) && v@ == self.records()[key@],
                None => !self.records().dom().contains(key@),
            },
    {
        self.table.get(key)
    }

    /// Write the record under `key`, fully replacing any prior one.
    pub fn put(&mut self, key: &String, value: String)
        ensures
            final(self).records() == old(self).records().insert(key@, value@),
    {
        self.table.insert(key.clone(), value);
        proof {
            assert(self.records() =~= old(self).records().insert(key@, value@));
        }
    }

    /// Remove the record under `key`; report whether one existed.
    pub fn remove(&mut self, key: &str) -> (present: bool)
        ensures
            present == old(self).records().dom().contains(key@),
            final(self).records() == old(self).records().remove(key@),
    {
        let present = self.table.contains_key(key);
        self.table.remove(key);
        proof {
            assert(self.records() =~= old(self).records().remove(key@));
        }
        present
    }
}

} // verus!
