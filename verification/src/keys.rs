//! The key manager and its model of the external key facility.
//!
//! The facility owns one authenticated-encryption key per alias. The engine
//! never sees key bytes; it only obtains handles. A key is modelled by its
//! generation number: the facility hands out a fresh generation for every key
//! it creates, so a handle whose generation differs from the facility's
//! current generation for an alias refers to a key that no longer exists.

use vstd::hash_map::StringHashMap;
use vstd::prelude::*;

use crate::error::Error;

verus! {

/// An opaque reference to one hardware-backed key, scoped to one alias.
/// Two handles refer to the same key exactly when their generations agree.
#[derive(Clone, Copy, Debug, PartialEq, Eq, Structural)]
pub struct KeyHandle {
    pub generation: u64,
}

/// The key facility: one key generation per alias, plus the counter from
/// which fresh generations are drawn.
pub struct KeyFacility {
    table: StringHashMap<u64>,
    next_generation: u64,
}

/// The generation `ensure_key` hands back: the existing one if the alias
/// already has a key, the facility's next fresh generation otherwise.
pub open spec fn spec_ensured_gen(keys: Map<Seq<char>, u64>, next_gen: u64, a: Seq<char>) -> u64 {
    if keys.dom().contains(a) {
        keys[a]
    } else {
        next_gen
    }
}

impl KeyFacility {
    /// The alias-to-generation table.
    pub closed spec fn keys(&self) -> Map<Seq<char>, u64> {
        self.table@
    }

    /// The next generation the facility will assign.
    pub closed spec fn next_gen(&self) -> u64 {
        self.next_generation
    }

    /// Every assigned generation lies below the fresh-generation counter, so
    /// a fresh generation never collides with an existing one.
    pub open spec fn wf(&self) -> bool {
        forall|a: Seq<char>| #[trigger]
            self.keys().dom().contains(a) ==> self.keys()[a] < self.next_gen()
    }

    pub fn new() -> (f: KeyFacility)
        ensures
            f.keys() == Map::<Seq<char>, u64>::empty(),
            f.next_gen() == 0,
            f.wf(),
    {
        KeyFacility { table: StringHashMap::new(), next_generation: 0 }
    }

    /// Non-mutating probe: does a key exist for this alias?
    pub fn key_exists(&self, alias: &str) -> (r: bool)
        ensures
            r == self.keys().dom().contains(alias@),
    {
        self.table.contains_key(alias)
    }

    /// Non-mutating lookup: a handle to the current key for this alias, if
    /// one exists.
    pub fn get_key(&self, alias: &str) -> (r: Option<KeyHandle>)
        ensures
            match r {
                Some(h) => self.keys().dom().contains(alias@) && h.generation == self.keys().index(
                    alias@,
                ),
                None => !self.keys().dom().contains(alias@),
            },
    {
        match self.table.get(alias) {
            Some(g) => Some(KeyHandle { generation: *g }),
            None => None,
        }
    }

    /// Idempotent get-or-create: hand back the existing key for `alias`, or
    /// create one with the fixed authenticated-encryption configuration.
    /// Fails with `PlatformFailure` exactly when a key would have to be
    /// created and the facility's generation space is exhausted.
    pub fn ensure_key(&mut self, alias: &String) -> (r: Result<KeyHandle, Error>)
        requires
            old(self).wf(),
        ensures
            final(self).wf(),
            match r {
                Ok(h) => {
                    &&& h.generation == spec_ensured_gen(
                        old(self).keys(),
                        old(self).next_gen(),
                        alias@,
                    )
                    &&& final(self).keys() == old(self).keys().insert(alias@, h.generation)
                    &&& final(self).next_gen() == if old(self).keys().dom().contains(alias@) {
                        old(self).next_gen()
                    } else {
                        (old(self).next_gen() + 1) as u64
                    }
                    &&& (old(self).keys().dom().contains(alias@) || old(self).next_gen()
                        < u64::MAX)
                },
                Err(e) => {
                    &&& e == Error::PlatformFailure
                    &&& !old(self).keys().dom().contains(alias@)
                    &&& old(self).next_gen() == u64::MAX
                    &&& *final(self) == *old(self)
                },
            },
    {
        match self.table.get(alias.as_str()) {
            Some(g) => {
                let h = KeyHandle { generation: *g };
                proof {
                    assert(self.keys() =~= self.keys().insert(alias@, h.generation));
                }
                Ok(h)
            },
            None => {
                if self.next_generation == u64::MAX {
                    return Err(Error::PlatformFailure);
                }
                let g = self.next_generation;
                self.table.insert(alias.clone(), g);
                self.next_generation = g + 1;
                proof {
                    assert forall|a: Seq<char>| #[trigger]
                        self.keys().dom().contains(a) implies self.keys()[a] < self.next_gen() by {
                        if a != alias@ {
                            assert(old(self).keys().dom().contains(a));
                        }
                    }
                }
                Ok(KeyHandle { generation: g })
            },
        }
    }

    /// Replace the key for `alias` with a freshly generated one, whether or
    /// not one existed. This models the out-of-band path by which the
    /// facility's owner can regenerate key material underneath the engine;
    /// any record sealed under the old generation becomes undecryptable.
    pub fn regenerate_key(&mut self, alias: &String) -> (r: Result<KeyHandle, Error>)
        requires
            old(self).wf(),
        ensures
            final(self).wf(),
            match r {
                Ok(h) => {
                    &&& h.generation == old(self).next_gen()
                    &&& old(self).next_gen() < u64::MAX
                    &&& final(self).keys() == old(self).keys().insert(alias@, h.generation)
                    &&& final(self).next_gen() == old(self).next_gen() + 1
                },
                Err(e) => {
                    &&& e == Error::PlatformFailure
                    &&& old(self).next_gen() == u64::MAX
                    &&& *final(self) == *old(self)
                },
            },
    {
        if self.next_generation == u64::MAX {
            return Err(Error::PlatformFailure);
        }
        let g = self.next_generation;
        self.table.insert(alias.clone(), g);
        self.next_generation = g + 1;
        proof {
            assert forall|a: Seq<char>| #[trigger]
                self.keys().dom().contains(a) implies self.keys()[a] < self.next_gen() by {
                if a != alias@ {
                    assert(old(self).keys().dom().contains(a));
                }
            }
        }
        Ok(KeyHandle { generation: g })
    }
}

} // verus!
