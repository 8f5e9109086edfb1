//! Layer identifiers, drawn from the `uuid` crate.

use vstd::prelude::*;

verus! {

#[verifier::external_type_specification]
#[verifier::external_body]
pub struct ExUuid(uuid::Uuid);

/// Relies on `uuid::Uuid`'s derived `Clone`: `Uuid` is `Copy`, so cloning
/// returns the identifier itself.
pub assume_specification[ <uuid::Uuid as core::clone::Clone>::clone ](u: &uuid::Uuid) -> (r:
    uuid::Uuid)
    ensures
        r == *u,
;

/// Relies on `uuid::Uuid::new_v4`: a freshly generated random identifier.
/// The result is random, so nothing is assumed about its value.
#[verifier::external_body]
pub fn fresh_layer_id() -> uuid::Uuid {
    uuid::Uuid::new_v4()
}

} // verus!
