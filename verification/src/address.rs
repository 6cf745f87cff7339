//! Mapping of virtual addresses of the reference image to buffer offsets.

use vstd::prelude::*;

verus! {

/// Virtual address at which the first byte of the image buffer is loaded.
pub const BASE_ADDRESS: usize = 0x1D1C85C;

/// The offset into the image buffer of the byte loaded at `address`.
pub open spec fn offset_of(address: int) -> int {
    address - BASE_ADDRESS
}

/// Converts a virtual address into an offset into the image buffer.
///
/// Addresses below the load address have no offset; callers check the range
/// first.
#[inline]
pub fn address_to_offset(address: usize) -> (offset: usize)
    requires
        address >= BASE_ADDRESS,
    ensures
        offset == offset_of(address as int),
        offset + BASE_ADDRESS == address,
{
    address - BASE_ADDRESS
}

/// Converts the start and end address of a range into buffer offsets.
pub fn addresses_to_offsets(addresses: (usize, usize)) -> (offsets: (usize, usize))
    requires
        addresses.0 >= BASE_ADDRESS,
        addresses.1 >= BASE_ADDRESS,
    ensures
        offsets.0 == offset_of(addresses.0 as int),
        offsets.1 == offset_of(addresses.1 as int),
        offsets.1 - offsets.0 == addresses.1 - addresses.0,
{
    (address_to_offset(addresses.0), address_to_offset(addresses.1))
}

/// Mapping an address to its offset and adding the load address back gives
/// the address again.
pub proof fn lemma_offset_round_trip(address: int)
    requires
        address >= BASE_ADDRESS,
    ensures
        offset_of(address) >= 0,
        offset_of(address) + BASE_ADDRESS == address,
{
}

} // verus!
