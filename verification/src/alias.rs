//! Alias resolution: the pure derivation of a stable identifier from a
//! (service, account) pair.
//!
//! The alias doubles as the key-facility identifier and as the record key of
//! the persistent store, so it must be deterministic and collision-free:
//! distinct pairs must never produce the same alias. Both components are
//! restricted to a conservative identifier charset that excludes the
//! separator, which makes plain concatenation around the separator injective.

use vstd::prelude::*;
use vstd::string::StrSliceExecFns;
use vstd::string::StringExecFns;

use crate::error::Error;

verus! {

/// Characters accepted in a service or account name: ASCII letters, digits,
/// and `. _ - @ +`. The separator `:` is deliberately excluded.
pub open spec fn legal_char(c: char) -> bool {
    (97 <= c as u32 && c as u32 <= 122)  // 'a' ..= 'z'
    || (65 <= c as u32 && c as u32 <= 90)  // 'A' ..= 'Z'
    || (48 <= c as u32 && c as u32 <= 57)  // '0' ..= '9'
    || c == '.' || c == '_' || c == '-' || c == '@' || c == '+'
}

/// A component of a credential identity: non-empty and made of legal
/// characters only.
pub open spec fn valid_component(s: Seq<char>) -> bool {
    s.len() > 0 && (forall|i: int| 0 <= i < s.len() ==> legal_char(s[i]))
}

/// The alias derived from a (service, account) pair: the two components
/// joined by `:`, which neither component may contain.
pub open spec fn spec_alias(service: Seq<char>, account: Seq<char>) -> Seq<char> {
    service + seq![':'] + account
}

/// The identity of one credential: a service name and an account name.
/// Constructed transiently per call; validation happens at resolution time.
#[derive(Clone, Debug)]
pub struct CredentialId {
    pub service: String,
    pub account: String,
}

impl CredentialId {
    /// Both components are non-empty and drawn from the legal charset.
    pub open spec fn valid(&self) -> bool {
        valid_component(self.service@) && valid_component(self.account@)
    }

    /// The alias this identity resolves to.
    pub open spec fn alias(&self) -> Seq<char> {
        spec_alias(self.service@, self.account@)
    }

    pub fn new(service: String, account: String) -> (id: CredentialId)
        ensures
            id.service == service,
            id.account == account,
    {
        CredentialId { service, account }
    }
}

fn legal_char_exec(c: char) -> (r: bool)
    ensures
        r == legal_char(c),
{
    let u = c as u32;
    (97 <= u && u <= 122) || (65 <= u && u <= 90) || (48 <= u && u <= 57) || c == '.' || c == '_'
        || c == '-' || c == '@' || c == '+'
}

fn component_ok(s: &str) -> (r: bool)
    ensures
        r == valid_component(s@),
{
    let n = s.unicode_len();
    if n == 0 {
        return false;
    }
    let mut i: usize = 0;
    while i < n
        invariant
            0 <= i <= n,
            n == s@.len(),
            forall|j: int| 0 <= j < i ==> legal_char(s@[j]),
        decreases n - i,
    {
        let c = s.get_char(i);
        if !legal_char_exec(c) {
            return false;
        }
        i = i + 1;
    }
    true
}

/// Derive the alias for a credential identity.
///
/// Total and deterministic: returns the alias exactly when both components
/// are valid, and `InvalidArgument` otherwise, before any collaborator is
/// consulted.
pub fn resolve(id: &CredentialId) -> (r: Result<String, Error>)
    ensures
        match r {
            Ok(a) => id.valid() && a@ == id.alias(),
            Err(e) => !id.valid() && e == Error::InvalidArgument,
        },
{
    if !component_ok(id.service.as_str()) || !component_ok(id.account.as_str()) {
        return Err(Error::InvalidArgument);
    }
    let sep = ":";
    proof {
        reveal_strlit(":");
        assert(sep@ =~= seq![':']);
    }
    let a = id.service.clone().concat(sep).concat(id.account.as_str());
    proof {
        assert(a@ =~= spec_alias(id.service@, id.account@));
    }
    Ok(a)
}

/// Distinct valid (service, account) pairs never collide: the alias map is
/// injective on valid components.
pub proof fn lemma_alias_injective(s1: Seq<char>, a1: Seq<char>, s2: Seq<char>, a2: Seq<char>)
    requires
        valid_component(s1),
        valid_component(a1),
        valid_component(s2),
        valid_component(a2),
        spec_alias(s1, a1) == spec_alias(s2, a2),
    ensures
        s1 == s2,
        a1 == a2,
{
    let t = spec_alias(s1, a1);
    assert(!legal_char(':'));
    assert(t.len() == s1.len() + 1 + a1.len());
    assert(t.len() == s2.len() + 1 + a2.len());
    assert(t[s1.len() as int] == ':');
    assert(t[s2.len() as int] == ':');
    if s1.len() < s2.len() {
        assert(t[s1.len() as int] == s2[s1.len() as int]);
        assert(legal_char(s2[s1.len() as int]));
        assert(false);
    }
    if s2.len() < s1.len() {
        assert(t[s2.len() as int] == s1[s2.len() as int]);
        assert(legal_char(s1[s2.len() as int]));
        assert(false);
    }
    assert(s1.len() == s2.len());
    assert forall|i: int| 0 <= i < s1.len() implies s1[i] == s2[i] by {
        assert(t[i] == s1[i]);
        assert(t[i] == s2[i]);
    }
    assert(s1 =~= s2);
    assert(a1.len() == a2.len());
    assert forall|i: int| 0 <= i < a1.len() implies a1[i] == a2[i] by {
        assert(t[s1.len() + 1 + i] == a1[i]);
        assert(t[s2.len() + 1 + i] == a2[i]);
    }
    assert(a1 =~= a2);
}

} // verus!
