use vstd::prelude::*;

verus! {

/// The version field of a 128-bit identifier (bits 76 to 79).
pub open spec fn uuid_version(id: u128) -> u128 {
    (id >> 76u128) & 0xfu128
}

/// The variant field of a 128-bit identifier (bits 62 and 63).
pub open spec fn uuid_variant(id: u128) -> u128 {
    (id >> 62u128) & 0x3u128
}

/// A fresh random layer identifier, from `uuid::Uuid::new_v4`, as its 128-bit value
/// (`Uuid::as_u128`). The random bits are not stated; the version (4) and the
/// variant (RFC 4122) fields that `new_v4` sets are.
#[verifier::external_body]
pub fn new_layer_id() -> (r: u128)
    ensures
        uuid_version(r) == 4,
        uuid_variant(r) == 2,
{
    uuid::Uuid::new_v4().as_u128()
}

} // verus!
