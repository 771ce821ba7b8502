//! Generation of opaque capability tokens and event identifiers.

use vstd::prelude::*;

verus! {

/// Relies on `uuid::Uuid::new_v4` and its `Display` form: a random
/// version-4 UUID rendered as 36 characters of hyphenated lowercase
/// hex. The value is random; only its length is stated.
#[verifier::external_body]
pub(crate) fn generate_token() -> (token: String)
    ensures
        token@.len() == 36,
{
    uuid::Uuid::new_v4().to_string()
}

/// Relies on `uuid::Uuid::new_v4` and `Uuid::as_u128`: a random
/// version-4 UUID as an unsigned 128-bit value. Nothing is promised of
/// the value.
#[verifier::external_body]
pub(crate) fn new_event_id() -> u128 {
    uuid::Uuid::new_v4().as_u128()
}

} // verus!
