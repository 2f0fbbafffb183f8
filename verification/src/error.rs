//! The error taxonomy of the credential engine.

use vstd::prelude::*;

verus! {

/// Outcome classification for every engine operation.
///
/// - `InvalidArgument`: a service, account or secret was malformed.
/// - `NoEntry`: no usable record exists for the credential.
/// - `BadEncoding`: a stored record is structurally malformed.
/// - `PlatformFailure`: a collaborator-level failure, including a failed
///   authentication check during decryption (a replaced or invalidated key,
///   or a tampered record) and an exhausted key or nonce counter.
#[derive(Clone, Copy, Debug, PartialEq, Eq, Structural)]
pub enum Error {
    InvalidArgument,
    NoEntry,
    BadEncoding,
    PlatformFailure,
}

} // verus!
