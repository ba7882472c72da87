//! Peer and session identities: 128-bit values that arrive as UUID text.

use vstd::prelude::*;

use crate::error::SignalError;

verus! {

/// What `uuid::Uuid::parse_str` reads from `text`: the 128-bit value of the
/// UUID, most significant byte first, or `None` where it reports an error.
pub uninterp spec fn parsed_uuid(text: Seq<char>) -> Option<u128>;

/// `uuid::Uuid::parse_str`, then `Uuid::as_u128` on what it read. The outcome
/// depends on the characters of `text` alone.
#[verifier::external_body]
pub(crate) fn parse_uuid(text: &str) -> (id: Option<u128>)
    ensures
        id == parsed_uuid(text@),
{
    match uuid::Uuid::parse_str(text) {
        Ok(id) => Some(id.as_u128()),
        Err(_) => None,
    }
}

/// The identity that `text` names, as a spec value: `MalformedIdentity` where
/// `text` is no UUID.
pub open spec fn identity_of(text: Seq<char>) -> Result<u128, SignalError> {
    match parsed_uuid(text) {
        Some(id) => Ok(id),
        None => Err(SignalError::MalformedIdentity),
    }
}

/// Reads an identity from its text form.
pub fn parse_identity(text: &str) -> (r: Result<u128, SignalError>)
    ensures
        r == identity_of(text@),
{
    match parse_uuid(text) {
        Some(id) => Ok(id),
        None => Err(SignalError::MalformedIdentity),
    }
}

} // verus!
