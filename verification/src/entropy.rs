//! Fresh random identifiers, behind a trusted boundary.

use vstd::prelude::*;

verus! {

/// Relies on `uuid::Uuid::new_v4` and `uuid::Uuid::as_u128`: a freshly drawn
/// random version-4 identifier, taken as its 128-bit value. The draw is
/// random, so nothing is assumed of the value.
#[verifier::external_body]
pub(crate) fn fresh_u128() -> u128 {
    uuid::Uuid::new_v4().as_u128()
}

} // verus!
