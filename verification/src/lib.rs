//! A verified credential engine: a per-(service, account) secret store built
//! from an alias resolver, a key manager, an authenticated-encryption model,
//! a storage codec, and a durable key-value record store.

use vstd::prelude::*;

pub mod alias;
pub mod cipher;
pub mod codec;
pub mod engine;
pub mod error;
pub mod keys;
pub mod laws;
pub mod store;

verus! {

/// Width in bytes of the nonce carried by every sealed blob.
pub const NONCE_LEN: usize = 12;

/// Width in bytes of the authentication tag that ends every sealed blob.
pub const TAG_LEN: usize = 8;

/// Largest secret, in bytes, the engine accepts. The bound keeps the
/// arithmetic of the cipher model comfortably inside `u64`.
pub const MAX_SECRET_LEN: usize = 0x4000_0000;

} // verus!
