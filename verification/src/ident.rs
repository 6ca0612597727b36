//! Fresh 128-bit identifiers.

use vstd::prelude::*;

verus! {

/// A new identifier from `ulid::Ulid::new`, converted by `From<Ulid> for u128`.
///
/// A ULID is built from the system time and random bits, so nothing is
/// claimed of the value: not even that two calls differ.
#[verifier::external_body]
pub(crate) fn fresh_id() -> (id: u128) {
    ulid::Ulid::new().into()
}

} // verus!
