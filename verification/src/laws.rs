//! The engine's laws: what holds across sequences of operations, proved
//! over the model transitions that the facade's contracts pin down.
//!
//! Alias injectivity itself — distinct pairs never collide — is proved in
//! `alias`; the laws here build on it.

use vstd::bytes::lemma_auto_spec_u64_to_from_le_bytes;
use vstd::bytes::spec_u64_from_le_bytes;
use vstd::bytes::spec_u64_to_le_bytes;
use vstd::prelude::*;

use crate::alias::lemma_alias_injective;
use crate::alias::spec_alias;
use crate::alias::valid_component;
use crate::cipher::lemma_open_wrong_key;
use crate::cipher::lemma_seal_open;
use crate::cipher::spec_seal;
use crate::codec::lemma_codec_roundtrip;
use crate::codec::spec_encode_record;
use crate::engine::model_wf;
use crate::engine::nonce_of;
use crate::engine::spec_delete;
use crate::engine::spec_get;
use crate::engine::spec_regenerate;
use crate::engine::spec_set_ok;
use crate::engine::EngineModel;
use crate::error::Error;
use crate::keys::spec_ensured_gen;
use crate::MAX_SECRET_LEN;
use crate::NONCE_LEN;
use crate::TAG_LEN;

verus! {

/// The conditions under which `set_password` succeeds on a model: a valid
/// identity, an accepted secret size, and unexhausted counters.
pub open spec fn can_set(
    m: EngineModel,
    service: Seq<char>,
    account: Seq<char>,
    secret: Seq<u8>,
) -> bool {
    &&& valid_component(service)
    &&& valid_component(account)
    &&& secret.len() <= MAX_SECRET_LEN
    &&& m.nonce_ctr < u64::MAX
    &&& (m.keys.dom().contains(spec_alias(service, account)) || m.next_gen < u64::MAX)
}

/// Nonce freshness: distinct counter values give distinct nonces. The
/// engine increments the counter on every successful write, so no nonce is
/// ever used for two seals, under any key.
pub proof fn lemma_nonce_injective(c1: u64, c2: u64)
    requires
        c1 != c2,
    ensures
        nonce_of(c1) != nonce_of(c2),
{
    lemma_auto_spec_u64_to_from_le_bytes();
    if nonce_of(c1) == nonce_of(c2) {
        assert(nonce_of(c1).take(8) =~= spec_u64_to_le_bytes(c1));
        assert(nonce_of(c2).take(8) =~= spec_u64_to_le_bytes(c2));
        assert(spec_u64_from_le_bytes(spec_u64_to_le_bytes(c1)) == c1);
        assert(spec_u64_from_le_bytes(spec_u64_to_le_bytes(c2)) == c2);
        assert(false);
    }
}

/// Round trip: on any well-formed model, a successful `set_password`
/// followed by `get_password` on the same identity returns the secret
/// exactly. The successor model is well formed again.
pub proof fn lemma_set_then_get(
    m: EngineModel,
    service: Seq<char>,
    account: Seq<char>,
    secret: Seq<u8>,
)
    requires
        model_wf(m),
        can_set(m, service, account, secret),
    ensures
        spec_get(spec_set_ok(m, service, account, secret), service, account) == Ok::<
            Seq<u8>,
            Error,
        >(secret),
        model_wf(spec_set_ok(m, service, account, secret)),
{
    let al = spec_alias(service, account);
    let g = spec_ensured_gen(m.keys, m.next_gen, al);
    let nonce = nonce_of(m.nonce_ctr);
    lemma_auto_spec_u64_to_from_le_bytes();
    assert(nonce.len() == NONCE_LEN);
    let ctt = spec_seal(g, nonce, secret);
    assert(ctt.len() == secret.len() + TAG_LEN);
    lemma_codec_roundtrip(nonce, ctt);
    lemma_seal_open(g, nonce, secret);
    let m2 = spec_set_ok(m, service, account, secret);
    assert(m2.records[al] == spec_encode_record(nonce, ctt));
    assert(m2.keys[al] == g);
    assert forall|a: Seq<char>| #[trigger] m2.keys.dom().contains(a) implies m2.keys[a]
        < m2.next_gen by {
        if a != al {
            assert(m.keys.dom().contains(a));
        }
    }
}

/// Idempotent overwrite: writing twice and reading gives the second secret,
/// never the first and never a mix.
pub proof fn lemma_overwrite(
    m: EngineModel,
    service: Seq<char>,
    account: Seq<char>,
    first: Seq<u8>,
    second: Seq<u8>,
)
    requires
        model_wf(m),
        can_set(m, service, account, first),
        second.len() <= MAX_SECRET_LEN,
        m.nonce_ctr + 1 < u64::MAX,
    ensures
        spec_get(
            spec_set_ok(spec_set_ok(m, service, account, first), service, account, second),
            service,
            account,
        ) == Ok::<Seq<u8>, Error>(second),
{
    lemma_set_then_get(m, service, account, first);
    let m1 = spec_set_ok(m, service, account, first);
    assert(m1.keys.dom().contains(spec_alias(service, account)));
    lemma_set_then_get(m1, service, account, second);
}

/// Isolation: a write to one credential never changes what a read of a
/// different credential returns.
pub proof fn lemma_isolation(
    m: EngineModel,
    service_a: Seq<char>,
    account_a: Seq<char>,
    service_b: Seq<char>,
    account_b: Seq<char>,
    secret: Seq<u8>,
)
    requires
        valid_component(service_b),
        valid_component(account_b),
        can_set(m, service_a, account_a, secret),
        service_a != service_b || account_a != account_b,
    ensures
        spec_get(spec_set_ok(m, service_a, account_a, secret), service_b, account_b) == spec_get(
            m,
            service_b,
            account_b,
        ),
{
    let al_a = spec_alias(service_a, account_a);
    let al_b = spec_alias(service_b, account_b);
    if al_a == al_b {
        lemma_alias_injective(service_a, account_a, service_b, account_b);
        assert(false);
    }
    let m2 = spec_set_ok(m, service_a, account_a, secret);
    assert(m2.records.dom().contains(al_b) == m.records.dom().contains(al_b));
    assert(m2.keys.dom().contains(al_b) == m.keys.dom().contains(al_b));
    if m.records.dom().contains(al_b) {
        assert(m2.records[al_b] == m.records[al_b]);
        if m.keys.dom().contains(al_b) {
            assert(m2.keys[al_b] == m.keys[al_b]);
        }
    }
}

/// Missing entry: a read of a credential with no record is `NoEntry`.
pub proof fn lemma_get_missing(m: EngineModel, service: Seq<char>, account: Seq<char>)
    requires
        valid_component(service),
        valid_component(account),
        !m.records.dom().contains(spec_alias(service, account)),
    ensures
        spec_get(m, service, account) == Err::<Seq<u8>, Error>(Error::NoEntry),
{
}

/// Missing entry after deletion: a read right after `delete_credential` on
/// the same identity is `NoEntry`.
pub proof fn lemma_delete_then_get(m: EngineModel, service: Seq<char>, account: Seq<char>)
    requires
        valid_component(service),
        valid_component(account),
    ensures
        spec_get(spec_delete(m, service, account), service, account) == Err::<Seq<u8>, Error>(
            Error::NoEntry,
        ),
{
    let md = spec_delete(m, service, account);
    assert(!md.records.dom().contains(spec_alias(service, account)));
    lemma_get_missing(md, service, account);
}

/// Key invalidation: when the key behind an alias is regenerated
/// out-of-band after a write, the next read fails with `PlatformFailure` —
/// the record is intact but no longer authenticates.
pub proof fn lemma_invalidation_fails_get(
    m: EngineModel,
    service: Seq<char>,
    account: Seq<char>,
    secret: Seq<u8>,
)
    requires
        model_wf(m),
        can_set(m, service, account, secret),
        spec_set_ok(m, service, account, secret).next_gen < u64::MAX,
    ensures
        spec_get(
            spec_regenerate(spec_set_ok(m, service, account, secret), service, account),
            service,
            account,
        ) == Err::<Seq<u8>, Error>(Error::PlatformFailure),
{
    let al = spec_alias(service, account);
    let g = spec_ensured_gen(m.keys, m.next_gen, al);
    let m1 = spec_set_ok(m, service, account, secret);
    let m2 = spec_regenerate(m1, service, account);
    let g2 = m1.next_gen;
    if m.keys.dom().contains(al) {
        assert(m.keys[al] < m.next_gen);
    }
    assert(g != g2);
    let nonce = nonce_of(m.nonce_ctr);
    lemma_auto_spec_u64_to_from_le_bytes();
    let ctt = spec_seal(g, nonce, secret);
    lemma_codec_roundtrip(nonce, ctt);
    lemma_open_wrong_key(g, g2, nonce, secret);
    assert(m2.records[al] == spec_encode_record(nonce, ctt));
    assert(m2.keys[al] == g2);
}

/// Recovery: after an out-of-band key regeneration, the next write seals
/// under the current key, and a read returns the new secret.
pub proof fn lemma_recovery_after_invalidation(
    m: EngineModel,
    service: Seq<char>,
    account: Seq<char>,
    secret: Seq<u8>,
    fresh: Seq<u8>,
)
    requires
        model_wf(m),
        can_set(m, service, account, secret),
        spec_set_ok(m, service, account, secret).next_gen < u64::MAX,
        fresh.len() <= MAX_SECRET_LEN,
        m.nonce_ctr + 1 < u64::MAX,
    ensures
        spec_get(
            spec_set_ok(
                spec_regenerate(spec_set_ok(m, service, account, secret), service, account),
                service,
                account,
                fresh,
            ),
            service,
            account,
        ) == Ok::<Seq<u8>, Error>(fresh),
{
    let al = spec_alias(service, account);
    lemma_set_then_get(m, service, account, secret);
    let m1 = spec_set_ok(m, service, account, secret);
    let m2 = spec_regenerate(m1, service, account);
    assert forall|a: Seq<char>| #[trigger] m2.keys.dom().contains(a) implies m2.keys[a]
        < m2.next_gen by {
        if a != al {
            assert(m1.keys.dom().contains(a));
        }
    }
    assert(model_wf(m2));
    assert(m2.keys.dom().contains(al));
    lemma_set_then_get(m2, service, account, fresh);
}

} // verus!
