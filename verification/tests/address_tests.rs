use merino::address::{address_to_offset, addresses_to_offsets, BASE_ADDRESS};

#[test]
fn base_address_maps_to_offset_zero() {
    assert_eq!(address_to_offset(BASE_ADDRESS), 0);
}

#[test]
fn offset_is_distance_from_base() {
    assert_eq!(BASE_ADDRESS, 0x1D1C85C);
    assert_eq!(address_to_offset(0x1D1C860), 4);
    assert_eq!(address_to_offset(0x1D1D85C), 0x1000);
}

#[test]
fn offset_plus_base_gives_address_back() {
    for address in [BASE_ADDRESS, BASE_ADDRESS + 1, BASE_ADDRESS + 4, 0x2000_0000, 0x7FFF_FFFC] {
        assert_eq!(address_to_offset(address) + BASE_ADDRESS, address);
    }
}

#[test]
fn both_ends_of_a_range_are_mapped() {
    assert_eq!(addresses_to_offsets((BASE_ADDRESS + 4, BASE_ADDRESS + 12)), (4, 12));
    assert_eq!(addresses_to_offsets((BASE_ADDRESS, BASE_ADDRESS)), (0, 0));
}
