//! Identities: 128-bit identifiers, stored as text.

use std::str::FromStr;
use vstd::prelude::*;
use crate::error::IdentityParseError;

verus! {

/// Trusted: the error of the uuid crate, `uuid::Error`. Nothing is
/// claimed of what it holds.
#[verifier::external_type_specification]
#[verifier::external_body]
pub struct ExUuidError(uuid::Error);

/// The identifier that the uuid crate reads from `text`, as a number with
/// the identifier's first byte highest; `None` where the crate rejects
/// the text. It is a function of the text alone.
pub uninterp spec fn parsed_identity(text: Seq<char>) -> Option<u128>;

/// What reading an identity from `text` gives.
pub open spec fn identity_of(text: Seq<char>) -> Result<u128, IdentityParseError> {
    match parsed_identity(text) {
        Some(id) => Ok(id),
        None => Err(IdentityParseError {  }),
    }
}

/// Trusted: calls `Uuid::from_str` of the uuid crate and, where it
/// accepts the text, packs the identifier into a number with
/// `Uuid::as_u128`.
///
/// The contract claims nothing of which texts are accepted or of the
/// number's value. It only gives the outcome its name,
/// [`parsed_identity`].
#[verifier::external_body]
fn uuid_from_str(text: &str) -> (r: Result<u128, uuid::Error>)
    ensures
        match r {
            Ok(id) => parsed_identity(text@) == Some(id),
            Err(_) => parsed_identity(text@) is None,
        },
{
    match uuid::Uuid::from_str(text) {
        Ok(id) => Ok(id.as_u128()),
        Err(e) => Err(e),
    }
}

/// Reads an identity from its stored text.
pub fn parse_identity(text: &str) -> (r: Result<u128, IdentityParseError>)
    ensures
        r == identity_of(text@),
{
    match uuid_from_str(text) {
        Ok(id) => Ok(id),
        Err(_) => Err(IdentityParseError {  }),
    }
}

} // verus!
