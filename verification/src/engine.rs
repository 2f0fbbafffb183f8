//! The credential entry facade: the engine that orchestrates alias
//! resolution, key management, the cipher and the codec over the persistent
//! store.
//!
//! Every operation is specified against `EngineModel`, the mathematical
//! state of the two collaborators plus the nonce source: the alias-keyed
//! generation map of the key facility, its fresh-generation counter, the
//! record map of the store, and the nonce counter. Exclusive access through
//! `&mut` serializes operations on the engine, so each call is one atomic
//! step of the model: no interleaving can mix the nonce of one write with
//! the ciphertext of another.

use vstd::bytes::lemma_auto_spec_u64_to_from_le_bytes;
use vstd::bytes::spec_u64_to_le_bytes;
use vstd::bytes::u64_to_le_bytes;
use vstd::prelude::*;

use crate::alias::resolve;
use crate::alias::spec_alias;
use crate::alias::valid_component;
use crate::alias::CredentialId;
use crate::cipher::spec_open;
use crate::cipher::spec_seal;
use crate::codec::decode;
use crate::codec::encode;
use crate::codec::spec_decode_record;
use crate::codec::spec_encode_record;
use crate::codec::SealedBlob;
use crate::error::Error;
use crate::keys::spec_ensured_gen;
use crate::keys::KeyFacility;
use crate::store::PersistentStore;
use crate::MAX_SECRET_LEN;
use crate::NONCE_LEN;

verus! {

/// The mathematical state of the engine and its collaborators.
pub ghost struct EngineModel {
    /// The key facility: current key generation per alias.
    pub keys: Map<Seq<char>, u64>,
    /// The generation the key facility will assign next.
    pub next_gen: u64,
    /// The persistent store: record text per record key.
    pub records: Map<Seq<char>, Seq<char>>,
    /// The counter the next nonce is drawn from.
    pub nonce_ctr: u64,
}

/// Every assigned key generation lies below the fresh-generation counter.
pub open spec fn model_wf(m: EngineModel) -> bool {
    forall|a: Seq<char>| #[trigger] m.keys.dom().contains(a) ==> m.keys[a] < m.next_gen
}

/// The nonce drawn for counter value `ctr`: its little-endian bytes padded
/// to the nonce width. Distinct counter values give distinct nonces, and the
/// counter never repeats, so no nonce is ever reused.
pub open spec fn nonce_of(ctr: u64) -> Seq<u8> {
    spec_u64_to_le_bytes(ctr) + seq![0u8, 0u8, 0u8, 0u8]
}

/// The model after a successful `set_password`: the key for the alias is
/// the existing one or a freshly created one, and the record is fully
/// replaced by the encoding of the secret sealed under that key with the
/// next nonce.
pub open spec fn spec_set_ok(
    m: EngineModel,
    service: Seq<char>,
    account: Seq<char>,
    secret: Seq<u8>,
) -> EngineModel {
    let a = spec_alias(service, account);
    let g = spec_ensured_gen(m.keys, m.next_gen, a);
    let nonce = nonce_of(m.nonce_ctr);
    EngineModel {
        keys: m.keys.insert(a, g),
        next_gen: if m.keys.dom().contains(a) {
            m.next_gen
        } else {
            (m.next_gen + 1) as u64
        },
        records: m.records.insert(a, spec_encode_record(nonce, spec_seal(g, nonce, secret))),
        nonce_ctr: (m.nonce_ctr + 1) as u64,
    }
}

/// The model after a successful `delete_credential`: the record is gone,
/// the key is retained (removal from the key facility is not required for
/// correctness; a retained key is simply reused by the next write).
pub open spec fn spec_delete(m: EngineModel, service: Seq<char>, account: Seq<char>) -> EngineModel {
    EngineModel {
        keys: m.keys,
        next_gen: m.next_gen,
        records: m.records.remove(spec_alias(service, account)),
        nonce_ctr: m.nonce_ctr,
    }
}

/// The model after the key behind an alias is regenerated out-of-band: the
/// alias maps to a fresh generation and the records are untouched.
pub open spec fn spec_regenerate(
    m: EngineModel,
    service: Seq<char>,
    account: Seq<char>,
) -> EngineModel {
    EngineModel {
        keys: m.keys.insert(spec_alias(service, account), m.next_gen),
        next_gen: (m.next_gen + 1) as u64,
        records: m.records,
        nonce_ctr: m.nonce_ctr,
    }
}

/// What `get_password` returns on a given model: the full read path —
/// resolve, record lookup, decode, key lookup, decrypt — with every failure
/// mapped to its error.
pub open spec fn spec_get(m: EngineModel, service: Seq<char>, account: Seq<char>) -> Result<
    Seq<u8>,
    Error,
> {
    if !(valid_component(service) && valid_component(account)) {
        Err(Error::InvalidArgument)
    } else {
        let a = spec_alias(service, account);
        if !m.records.dom().contains(a) {
            Err(Error::NoEntry)
        } else {
            match spec_decode_record(m.records[a]) {
                None => Err(Error::BadEncoding),
                Some(pair) => {
                    if !m.keys.dom().contains(a) {
                        Err(Error::NoEntry)
                    } else {
                        match spec_open(m.keys[a], pair.0, pair.1) {
                            None => Err(Error::PlatformFailure),
                            Some(p) => Ok(p),
                        }
                    }
                },
            }
        }
    }
}

fn make_nonce(ctr: u64) -> (nonce: Vec<u8>)
    ensures
        nonce@ == nonce_of(ctr),
        nonce@.len() == NONCE_LEN,
{
    let mut nonce = u64_to_le_bytes(ctr);
    nonce.push(0);
    nonce.push(0);
    nonce.push(0);
    nonce.push(0);
    proof {
        assert(nonce@ =~= nonce_of(ctr));
    }
    nonce
}

/// The credential engine: the key facility, the persistent store, and the
/// nonce source, driven by the set/get/delete facade.
pub struct CredentialStore {
    facility: KeyFacility,
    store: PersistentStore,
    nonce_counter: u64,
}

impl View for CredentialStore {
    type V = EngineModel;

    closed spec fn view(&self) -> EngineModel {
        EngineModel {
            keys: self.facility.keys(),
            next_gen: self.facility.next_gen(),
            records: self.store.records(),
            nonce_ctr: self.nonce_counter,
        }
    }
}

impl CredentialStore {
    pub open spec fn wf(&self) -> bool {
        model_wf(self@)
    }

    /// A fresh engine over an empty key facility and an empty store.
    pub fn new() -> (s: CredentialStore)
        ensures
            s@.keys == Map::<Seq<char>, u64>::empty(),
            s@.records == Map::<Seq<char>, Seq<char>>::empty(),
            s@.next_gen == 0,
            s@.nonce_ctr == 0,
            s.wf(),
    {
        CredentialStore {
            facility: KeyFacility::new(),
            store: PersistentStore::new(),
            nonce_counter: 0,
        }
    }

    /// Store a secret for a credential, fully replacing any prior record:
    /// resolve the alias, ensure a key, seal the secret under a fresh nonce,
    /// encode, and write the record.
    ///
    /// Fails with `InvalidArgument` on a malformed identity or an oversized
    /// secret, and with `PlatformFailure` exactly when a counter of the
    /// platform model is exhausted; in every failure case the state is
    /// unchanged.
    pub fn set_password(&mut self, id: &CredentialId, secret: &[u8]) -> (r: Result<(), Error>)
        requires
            old(self).wf(),
        ensures
            final(self).wf(),
            match r {
                Ok(()) => {
                    &&& id.valid()
                    &&& secret@.len() <= MAX_SECRET_LEN
                    &&& old(self)@.nonce_ctr < u64::MAX
                    &&& (old(self)@.keys.dom().contains(id.alias()) || old(self)@.next_gen
                        < u64::MAX)
                    &&& final(self)@ == spec_set_ok(
                        old(self)@,
                        id.service@,
                        id.account@,
                        secret@,
                    )
                    &&& spec_get(final(self)@, id.service@, id.account@) == Ok::<
                        Seq<u8>,
                        Error,
                    >(secret@)
                },
                Err(e) => {
                    &&& final(self)@ == old(self)@
                    &&& if !id.valid() || secret@.len() > MAX_SECRET_LEN {
                        e == Error::InvalidArgument
                    } else {
                        &&& e == Error::PlatformFailure
                        &&& (old(self)@.nonce_ctr == u64::MAX || (!old(
                            self,
                        )@.keys.dom().contains(id.alias()) && old(self)@.next_gen == u64::MAX))
                    }
                },
            },
    {
        let alias = match resolve(id) {
            Ok(a) => a,
            Err(e) => {
                return Err(e);
            },
        };
        if secret.len() > MAX_SECRET_LEN {
            return Err(Error::InvalidArgument);
        }
        if self.nonce_counter == u64::MAX {
            return Err(Error::PlatformFailure);
        }
        proof {
            assert forall|a: Seq<char>| #[trigger]
                self.facility.keys().dom().contains(a) implies self.facility.keys()[a]
                < self.facility.next_gen() by {
                assert(self@.keys.dom().contains(a));
            }
        }
        let handle = match self.facility.ensure_key(&alias) {
            Ok(h) => h,
            Err(e) => {
                return Err(e);
            },
        };
        let ctr = self.nonce_counter;
        self.nonce_counter = ctr + 1;
        let nonce = make_nonce(ctr);
        let ctt = handle.seal(nonce.as_slice(), secret);
        let blob = SealedBlob { nonce, ciphertext_and_tag: ctt };
        proof {
            lemma_auto_spec_u64_to_from_le_bytes();
        }
        let value = encode(&blob);
        self.store.put(&alias, value);
        proof {
            assert(self@ == spec_set_ok(old(self)@, id.service@, id.account@, secret@));
            crate::laws::lemma_set_then_get(old(self)@, id.service@, id.account@, secret@);
            assert forall|a: Seq<char>| #[trigger]
                self@.keys.dom().contains(a) implies self@.keys[a] < self@.next_gen by {
                assert(self.facility.keys().dom().contains(a));
            }
        }
        Ok(())
    }

    /// Read the secret for a credential: resolve the alias, fetch the
    /// record, decode it, look the key up, and open the blob. Absence of a
    /// record — and a record with no key behind it — is `NoEntry`; a
    /// malformed record is `BadEncoding`; a failed authentication check is
    /// `PlatformFailure`.
    pub fn get_password(&self, id: &CredentialId) -> (r: Result<Vec<u8>, Error>)
        ensures
            match r {
                Ok(p) => spec_get(self@, id.service@, id.account@) == Ok::<Seq<u8>, Error>(p@),
                Err(e) => spec_get(self@, id.service@, id.account@) == Err::<Seq<u8>, Error>(e),
            },
    {
        let alias = match resolve(id) {
            Ok(a) => a,
            Err(e) => {
                return Err(e);
            },
        };
        let value = match self.store.get(alias.as_str()) {
            Some(v) => v,
            None => {
                return Err(Error::NoEntry);
            },
        };
        let blob = match decode(value.as_str()) {
            Ok(b) => b,
            Err(e) => {
                return Err(e);
            },
        };
        let handle = match self.facility.get_key(alias.as_str()) {
            Some(h) => h,
            None => {
                return Err(Error::NoEntry);
            },
        };
        match handle.open(blob.nonce.as_slice(), blob.ciphertext_and_tag.as_slice()) {
            Some(p) => Ok(p),
            None => Err(Error::PlatformFailure),
        }
    }

    /// Delete the record for a credential. The key facility may retain the
    /// key; engine correctness does not depend on it. Fails with `NoEntry`
    /// when no record existed.
    pub fn delete_credential(&mut self, id: &CredentialId) -> (r: Result<(), Error>)
        ensures
            match r {
                Ok(()) => {
                    &&& id.valid()
                    &&& old(self)@.records.dom().contains(id.alias())
                    &&& final(self)@ == spec_delete(old(self)@, id.service@, id.account@)
                    &&& spec_get(final(self)@, id.service@, id.account@) == Err::<
                        Seq<u8>,
                        Error,
                    >(Error::NoEntry)
                },
                Err(e) => {
                    &&& final(self)@ == old(self)@
                    &&& if !id.valid() {
                        e == Error::InvalidArgument
                    } else {
                        e == Error::NoEntry && !old(self)@.records.dom().contains(id.alias())
                    }
                },
            },
    {
        let alias = match resolve(id) {
            Ok(a) => a,
            Err(e) => {
                return Err(e);
            },
        };
        let present = self.store.remove(alias.as_str());
        if present {
            proof {
                assert(self@ == spec_delete(old(self)@, id.service@, id.account@));
                crate::laws::lemma_delete_then_get(old(self)@, id.service@, id.account@);
            }
            Ok(())
        } else {
            proof {
                assert(old(self)@.records.remove(id.alias()) =~= old(self)@.records);
                assert(self@ == old(self)@);
            }
            Err(Error::NoEntry)
        }
    }

    /// Replace the key behind a credential's alias with a freshly generated
    /// one, leaving the record in place. This models the out-of-band key
    /// regeneration the engine cannot observe directly: it only learns of it
    /// when the next read fails to authenticate.
    pub fn regenerate_key(&mut self, id: &CredentialId) -> (r: Result<(), Error>)
        requires
            old(self).wf(),
        ensures
            final(self).wf(),
            match r {
                Ok(()) => {
                    &&& id.valid()
                    &&& old(self)@.next_gen < u64::MAX
                    &&& final(self)@ == spec_regenerate(old(self)@, id.service@, id.account@)
                },
                Err(e) => {
                    &&& final(self)@ == old(self)@
                    &&& if !id.valid() {
                        e == Error::InvalidArgument
                    } else {
                        e == Error::PlatformFailure && old(self)@.next_gen == u64::MAX
                    }
                },
            },
    {
        let alias = match resolve(id) {
            Ok(a) => a,
            Err(e) => {
                return Err(e);
            },
        };
        proof {
            assert forall|a: Seq<char>| #[trigger]
                self.facility.keys().dom().contains(a) implies self.facility.keys()[a]
                < self.facility.next_gen() by {
                assert(self@.keys.dom().contains(a));
            }
        }
        match self.facility.regenerate_key(&alias) {
            Ok(_) => {
                proof {
                    assert(self@ == spec_regenerate(old(self)@, id.service@, id.account@));
                    assert forall|a: Seq<char>| #[trigger]
                        self@.keys.dom().contains(a) implies self@.keys[a] < self@.next_gen by {
                        assert(self.facility.keys().dom().contains(a));
                    }
                }
                Ok(())
            },
            Err(e) => Err(e),
        }
    }
}

} // verus!
