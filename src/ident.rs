//! Identifiers: 128-bit random (version 4) UUIDs, generated on the client
//! before a record reaches storage.
use crate::schema::Column;
use vstd::prelude::*;

verus! {

/// A row identifier, held as the UUID's 128 bits in big-endian order.
#[derive(Clone, Copy, Debug, PartialEq, Eq, Structural, Hash)]
pub struct Id {
    pub bits: u128,
}

/// The version nibble of a UUID held as a big-endian `u128`.
pub open spec fn version_of(bits: u128) -> u128 {
    (bits >> 76u128) & 0xfu128
}

/// The two variant bits of a UUID held as a big-endian `u128`.
pub open spec fn variant_of(bits: u128) -> u128 {
    (bits >> 62u128) & 0x3u128
}

impl Id {
    /// A well-formed random identifier: version 4, RFC 4122 variant (`0b10`).
    pub open spec fn is_random_uuid(self) -> bool {
        version_of(self.bits) == 4 && variant_of(self.bits) == 2
    }

    pub fn from_bits(bits: u128) -> (r: Id)
        ensures
            r.bits == bits,
    {
        Id { bits }
    }

    /// Whether the identifier is a well-formed random UUID.
    pub fn is_valid(&self) -> (r: bool)
        ensures
            r == self.is_random_uuid(),
    {
        (self.bits >> 76u128) & 0xfu128 == 4 && (self.bits >> 62u128) & 0x3u128 == 2
    }
}

/// Relies on uuid::Uuid::new_v4 and Uuid::as_u128: the random bits are masked
/// so that the version nibble is 4 and the variant bits are `0b10`. It panics
/// only where the operating system's random source fails, which no argument
/// decides.
#[verifier::external_body]
fn new_v4_bits() -> (r: u128)
    ensures
        version_of(r) == 4,
        variant_of(r) == 2,
{
    uuid::Uuid::new_v4().as_u128()
}

/// A freshly drawn random identifier.
pub fn new_id() -> (r: Id)
    ensures
        r.is_random_uuid(),
{
    Id { bits: new_v4_bits() }
}

/// An assignment `column = value` that gives a record its identifier on insert.
#[derive(Clone, Copy, Debug, PartialEq, Eq, Structural)]
pub struct IdAssignment {
    pub column: Column,
    pub value: Id,
}

/// Pairs an identifier column with a freshly drawn random identifier.
pub fn id_for(column: Column) -> (r: IdAssignment)
    ensures
        r.column == column,
        r.value.is_random_uuid(),
{
    IdAssignment { column, value: new_id() }
}

} // verus!
