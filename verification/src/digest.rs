//! Name-based identifiers.

use vstd::prelude::*;

verus! {

/// The 128-bit identifier that the name-based SHA-1 scheme assigns to `name`
/// inside `namespace`.
pub uninterp spec fn name_based_id(namespace: u128, name: Seq<u8>) -> u128;

/// Calls `uuid::Uuid::new_v5` on the namespace `uuid::Uuid::from_u128(namespace)`
/// and reads the result back with `uuid::Uuid::as_u128`.
///
/// The identifier is a SHA-1 digest of the namespace bytes followed by `name`,
/// so it depends on the two arguments alone; the contract gives it a name and
/// claims nothing else about its value.
#[verifier::external_body]
pub(crate) fn uuid_v5(namespace: u128, name: &[u8]) -> (id: u128)
    ensures
        id == name_based_id(namespace, name@),
{
    uuid::Uuid::new_v5(&uuid::Uuid::from_u128(namespace), name).as_u128()
}

} // verus!
