//! The cipher engine: an executable model of authenticated encryption.
//!
//! A sealed blob is the keystream-masked plaintext followed by a fixed-width
//! authentication tag. The tag binds the key generation, the nonce and the
//! ciphertext, so opening a blob under a different generation than the one it
//! was sealed with always fails, and opening under the sealing generation
//! recovers the plaintext exactly. The model is deliberately simple — it is a
//! stand-in for a hardware AEAD primitive, not a secure cipher — but its
//! contracts are exact, which is what the engine's correctness rests on.

use vstd::arithmetic::div_mod::lemma_small_mod;
use vstd::bytes::lemma_auto_spec_u64_to_from_le_bytes;
use vstd::bytes::spec_u64_from_le_bytes;
use vstd::bytes::spec_u64_to_le_bytes;
use vstd::bytes::u64_from_le_bytes;
use vstd::bytes::u64_to_le_bytes;
use vstd::prelude::*;
use vstd::slice::slice_subrange;

use crate::keys::KeyHandle;
use crate::MAX_SECRET_LEN;
use crate::NONCE_LEN;
use crate::TAG_LEN;

verus! {

/// One byte of the keystream for a given key generation and nonce.
pub open spec fn ks_byte(gen: u64, nonce: Seq<u8>, i: int) -> u8
    recommends
        nonce.len() == NONCE_LEN,
        0 <= i,
{
    spec_u64_to_le_bytes(gen)[i % 8] ^ nonce[i % (NONCE_LEN as int)]
}

/// Masking a byte sequence with the keystream; its own inverse.
pub open spec fn spec_mask(gen: u64, nonce: Seq<u8>, data: Seq<u8>) -> Seq<u8> {
    Seq::new(data.len(), |i: int| data[i] ^ ks_byte(gen, nonce, i))
}

/// The plain sum of a byte sequence.
pub open spec fn byte_sum(s: Seq<u8>) -> int
    decreases s.len(),
{
    if s.len() == 0 {
        0
    } else {
        byte_sum(s.drop_last()) + s.last()
    }
}

/// The authentication tag: the key generation folded with a checksum of the
/// nonce and the ciphertext.
pub open spec fn spec_tag(gen: u64, nonce: Seq<u8>, ct: Seq<u8>) -> u64 {
    gen ^ ((byte_sum(nonce + ct) % 0x1_0000_0000_0000_0000) as u64)
}

/// The ciphertext-and-tag a seal under `gen` and `nonce` produces.
pub open spec fn spec_seal(gen: u64, nonce: Seq<u8>, plaintext: Seq<u8>) -> Seq<u8> {
    spec_mask(gen, nonce, plaintext) + spec_u64_to_le_bytes(
        spec_tag(gen, nonce, spec_mask(gen, nonce, plaintext)),
    )
}

/// What opening a ciphertext-and-tag under `gen` and `nonce` yields: the
/// plaintext when the recomputed tag matches the stored one, nothing
/// otherwise.
pub open spec fn spec_open(gen: u64, nonce: Seq<u8>, ctt: Seq<u8>) -> Option<Seq<u8>> {
    if ctt.len() < TAG_LEN {
        None
    } else {
        let ct = ctt.take(ctt.len() - TAG_LEN);
        let tag = ctt.skip(ctt.len() - TAG_LEN);
        if tag == spec_u64_to_le_bytes(spec_tag(gen, nonce, ct)) {
            Some(spec_mask(gen, nonce, ct))
        } else {
            None
        }
    }
}

pub proof fn lemma_byte_sum_bound(s: Seq<u8>)
    ensures
        0 <= byte_sum(s) <= 255 * s.len(),
    decreases s.len(),
{
    if s.len() > 0 {
        lemma_byte_sum_bound(s.drop_last());
    }
}

pub proof fn lemma_byte_sum_concat(a: Seq<u8>, b: Seq<u8>)
    ensures
        byte_sum(a + b) == byte_sum(a) + byte_sum(b),
    decreases b.len(),
{
    if b.len() == 0 {
        assert(a + b =~= a);
    } else {
        lemma_byte_sum_concat(a, b.drop_last());
        assert((a + b).drop_last() =~= a + b.drop_last());
        assert((a + b).last() == b.last());
    }
}

/// Masking is an involution: applying the same keystream twice gives the
/// data back.
pub proof fn lemma_mask_involutive(gen: u64, nonce: Seq<u8>, data: Seq<u8>)
    ensures
        spec_mask(gen, nonce, spec_mask(gen, nonce, data)) == data,
{
    let once = spec_mask(gen, nonce, data);
    let twice = spec_mask(gen, nonce, once);
    assert forall|i: int| 0 <= i < data.len() implies twice[i] == data[i] by {
        let k = ks_byte(gen, nonce, i);
        let x = data[i];
        assert((x ^ k) ^ k == x) by (bit_vector);
    }
    assert(twice =~= data);
}

/// Round trip: opening a blob under the generation and nonce it was sealed
/// with recovers the plaintext exactly.
pub proof fn lemma_seal_open(gen: u64, nonce: Seq<u8>, plaintext: Seq<u8>)
    ensures
        spec_open(gen, nonce, spec_seal(gen, nonce, plaintext)) == Some(plaintext),
{
    let ct = spec_mask(gen, nonce, plaintext);
    let tagb = spec_u64_to_le_bytes(spec_tag(gen, nonce, ct));
    lemma_auto_spec_u64_to_from_le_bytes();
    let sealed = spec_seal(gen, nonce, plaintext);
    assert(sealed.len() == ct.len() + TAG_LEN);
    assert(sealed.take(sealed.len() - TAG_LEN) =~= ct);
    assert(sealed.skip(sealed.len() - TAG_LEN) =~= tagb);
    lemma_mask_involutive(gen, nonce, plaintext);
}

/// Key invalidation: a blob sealed under one generation never opens under
/// another, whatever the nonce and plaintext were.
pub proof fn lemma_open_wrong_key(gen: u64, other: u64, nonce: Seq<u8>, plaintext: Seq<u8>)
    requires
        gen != other,
    ensures
        spec_open(other, nonce, spec_seal(gen, nonce, plaintext)) == None::<Seq<u8>>,
{
    let ct = spec_mask(gen, nonce, plaintext);
    let tagb = spec_u64_to_le_bytes(spec_tag(gen, nonce, ct));
    lemma_auto_spec_u64_to_from_le_bytes();
    let sealed = spec_seal(gen, nonce, plaintext);
    assert(sealed.take(sealed.len() - TAG_LEN) =~= ct);
    assert(sealed.skip(sealed.len() - TAG_LEN) =~= tagb);
    let c = ((byte_sum(nonce + ct) % 0x1_0000_0000_0000_0000) as u64);
    assert(gen ^ c != other ^ c) by (bit_vector)
        requires
            gen != other,
    ;
    assert(spec_tag(gen, nonce, ct) != spec_tag(other, nonce, ct));
    if tagb == spec_u64_to_le_bytes(spec_tag(other, nonce, ct)) {
        assert(spec_u64_from_le_bytes(tagb) == spec_tag(gen, nonce, ct));
        assert(spec_u64_from_le_bytes(tagb) == spec_tag(other, nonce, ct));
        assert(false);
    }
}

fn apply_stream(gen: u64, nonce: &[u8], data: &[u8]) -> (out: Vec<u8>)
    requires
        nonce@.len() == NONCE_LEN,
    ensures
        out@ == spec_mask(gen, nonce@, data@),
{
    let gb = u64_to_le_bytes(gen);
    let n = data.len();
    let mut out: Vec<u8> = Vec::new();
    let mut i: usize = 0;
    while i < n
        invariant
            0 <= i <= n,
            n == data@.len(),
            nonce@.len() == NONCE_LEN,
            gb@ == spec_u64_to_le_bytes(gen),
            gb@.len() == 8,
            out@.len() == i,
            forall|j: int| 0 <= j < i ==> out@[j] == data@[j] ^ ks_byte(gen, nonce@, j),
        decreases n - i,
    {
        let k = gb[i % 8] ^ nonce[i % NONCE_LEN];
        out.push(data[i] ^ k);
        i = i + 1;
    }
    proof {
        assert(out@ =~= spec_mask(gen, nonce@, data@));
    }
    out
}

fn compute_tag(gen: u64, nonce: &[u8], ct: &[u8]) -> (t: u64)
    requires
        nonce@.len() == NONCE_LEN,
        ct@.len() <= MAX_SECRET_LEN + TAG_LEN,
    ensures
        t == spec_tag(gen, nonce@, ct@),
{
    let mut acc: u64 = 0;
    let mut i: usize = 0;
    while i < nonce.len()
        invariant
            0 <= i <= nonce@.len(),
            nonce@.len() == NONCE_LEN,
            acc == byte_sum(nonce@.take(i as int)),
        decreases nonce@.len() - i,
    {
        proof {
            lemma_byte_sum_bound(nonce@.take(i as int));
            assert(nonce@.take(i + 1).drop_last() =~= nonce@.take(i as int));
            assert(nonce@.take(i + 1).last() == nonce@[i as int]);
        }
        acc = acc + nonce[i] as u64;
        i = i + 1;
    }
    proof {
        assert(nonce@.take(nonce@.len() as int) =~= nonce@);
    }
    assert(acc == byte_sum(nonce@));
    let mut j: usize = 0;
    while j < ct.len()
        invariant
            0 <= j <= ct@.len(),
            nonce@.len() == NONCE_LEN,
            ct@.len() <= MAX_SECRET_LEN + TAG_LEN,
            acc == byte_sum(nonce@) + byte_sum(ct@.take(j as int)),
        decreases ct@.len() - j,
    {
        proof {
            lemma_byte_sum_bound(nonce@);
            lemma_byte_sum_bound(ct@.take(j as int));
            assert(ct@.take(j + 1).drop_last() =~= ct@.take(j as int));
            assert(ct@.take(j + 1).last() == ct@[j as int]);
        }
        acc = acc + ct[j] as u64;
        j = j + 1;
    }
    proof {
        assert(ct@.take(ct@.len() as int) =~= ct@);
        lemma_byte_sum_concat(nonce@, ct@);
        lemma_byte_sum_bound(nonce@);
        lemma_byte_sum_bound(ct@);
        lemma_small_mod(byte_sum(nonce@ + ct@) as nat, 0x1_0000_0000_0000_0000 as nat);
    }
    gen ^ acc
}

impl KeyHandle {
    /// Authenticated encryption under this key: mask the plaintext with the
    /// keystream and append the tag that binds generation, nonce and
    /// ciphertext.
    pub fn seal(&self, nonce: &[u8], plaintext: &[u8]) -> (ctt: Vec<u8>)
        requires
            nonce@.len() == NONCE_LEN,
            plaintext@.len() <= MAX_SECRET_LEN,
        ensures
            ctt@ == spec_seal(self.generation, nonce@, plaintext@),
    {
        let mut ct = apply_stream(self.generation, nonce, plaintext);
        let t = compute_tag(self.generation, nonce, ct.as_slice());
        let mut tagb = u64_to_le_bytes(t);
        ct.append(&mut tagb);
        proof {
            assert(ct@ =~= spec_seal(self.generation, nonce@, plaintext@));
        }
        ct
    }

    /// Authenticated decryption under this key: fails exactly when the
    /// recomputed tag does not match the stored one — a replaced key, a
    /// corrupted record and a tampered record are indistinguishable here,
    /// by design.
    pub fn open(&self, nonce: &[u8], ctt: &[u8]) -> (r: Option<Vec<u8>>)
        requires
            nonce@.len() == NONCE_LEN,
            ctt@.len() <= MAX_SECRET_LEN + TAG_LEN,
        ensures
            match r {
                Some(p) => spec_open(self.generation, nonce@, ctt@) == Some(p@),
                None => spec_open(self.generation, nonce@, ctt@) == None::<Seq<u8>>,
            },
    {
        if ctt.len() < TAG_LEN {
            return None;
        }
        let n = ctt.len();
        let ct = slice_subrange(ctt, 0, n - TAG_LEN);
        let tagb = slice_subrange(ctt, n - TAG_LEN, n);
        let expected = compute_tag(self.generation, nonce, ct);
        let stored = u64_from_le_bytes(tagb);
        proof {
            lemma_auto_spec_u64_to_from_le_bytes();
            assert(ct@ =~= ctt@.take(n - TAG_LEN));
            assert(tagb@ =~= ctt@.skip(n - TAG_LEN));
        }
        if stored == expected {
            let p = apply_stream(self.generation, nonce, ct);
            proof {
                assert(spec_u64_to_le_bytes(spec_u64_from_le_bytes(tagb@)) == tagb@);
            }
            Some(p)
        } else {
            proof {
                if tagb@ == spec_u64_to_le_bytes(spec_tag(self.generation, nonce@, ct@)) {
                    assert(spec_u64_from_le_bytes(tagb@) == spec_tag(
                        self.generation,
                        nonce@,
                        ct@,
                    ));
                }
            }
            None
        }
    }
}

} // verus!
