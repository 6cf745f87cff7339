use merino::address::BASE_ADDRESS;
use merino::extract::{encode, extract, reference_codes, ExtractError, Symbol};

#[test]
fn words_are_read_big_endian_in_order() {
    let bytes = [0x48, 0x00, 0x00, 0x04, 0x4E, 0x80, 0x00, 0x20];
    assert_eq!(extract(&bytes), Ok(vec![0x4800_0004, 0x4E80_0020]));
}

#[test]
fn one_word_is_not_its_low_byte_first() {
    assert_eq!(extract(&[0x12, 0x34, 0x56, 0x78]), Ok(vec![0x1234_5678]));
    assert_ne!(extract(&[0x12, 0x34, 0x56, 0x78]), Ok(vec![0x7856_3412]));
}

#[test]
fn empty_range_gives_empty_sequence() {
    assert_eq!(extract(&[]), Ok(vec![]));
}

#[test]
fn partial_word_is_refused() {
    assert_eq!(extract(&[1, 2, 3, 4, 5]), Err(ExtractError::PartialWord { len: 5 }));
    assert_eq!(extract(&[1]), Err(ExtractError::PartialWord { len: 1 }));
    assert_eq!(extract(&[1, 2, 3, 4, 5, 6, 7]), Err(ExtractError::PartialWord { len: 7 }));
}

#[test]
fn encode_writes_most_significant_byte_first() {
    assert_eq!(encode(&[0x1234_5678, 0xFFFF_FF00]), vec![0x12, 0x34, 0x56, 0x78, 0xFF, 0xFF, 0xFF, 0x00]);
    assert_eq!(encode(&[]), Vec::<u8>::new());
}

#[test]
fn extract_then_encode_reproduces_bytes() {
    let bytes: Vec<u8> = (0u16..256).map(|b| b as u8).collect();
    let words = extract(&bytes).unwrap();
    assert_eq!(words.len(), 64);
    assert_eq!(encode(&words), bytes);
    let other = [0xDE, 0xAD, 0xBE, 0xEF];
    assert_eq!(encode(&extract(&other).unwrap()), other.to_vec());
}

#[test]
fn reference_range_is_read_from_image() {
    let image: Vec<u8> = (0u8..16).collect();
    assert_eq!(
        reference_codes(&image, BASE_ADDRESS + 4, BASE_ADDRESS + 12),
        Ok(vec![0x0405_0607, 0x0809_0A0B])
    );
    assert_eq!(
        reference_codes(&image, BASE_ADDRESS, BASE_ADDRESS + 16).map(|w| w.len()),
        Ok(4)
    );
    assert_eq!(reference_codes(&image, BASE_ADDRESS + 8, BASE_ADDRESS + 8), Ok(vec![]));
}

#[test]
fn range_below_base_is_refused() {
    let image = [0u8; 16];
    assert_eq!(
        reference_codes(&image, BASE_ADDRESS - 4, BASE_ADDRESS + 4),
        Err(ExtractError::BelowBase { address: BASE_ADDRESS - 4 })
    );
    assert_eq!(
        reference_codes(&image, BASE_ADDRESS + 4, 8),
        Err(ExtractError::BelowBase { address: 8 })
    );
}

#[test]
fn reversed_range_is_refused() {
    let image = [0u8; 16];
    assert_eq!(
        reference_codes(&image, BASE_ADDRESS + 8, BASE_ADDRESS + 4),
        Err(ExtractError::Reversed)
    );
}

#[test]
fn range_past_image_is_refused() {
    let image = [0u8; 16];
    assert_eq!(
        reference_codes(&image, BASE_ADDRESS + 8, BASE_ADDRESS + 20),
        Err(ExtractError::OutsideImage { end_offset: 20 })
    );
}

#[test]
fn unaligned_range_is_refused() {
    let image = [0u8; 16];
    assert_eq!(
        reference_codes(&image, BASE_ADDRESS + 4, BASE_ADDRESS + 10),
        Err(ExtractError::PartialWord { len: 6 })
    );
}

#[test]
fn symbol_range_must_be_aligned_and_not_empty() {
    let symbol = |start: usize, end: usize| Symbol {
        name: String::from("f"),
        start_address: start,
        end_address: end,
    };
    assert!(symbol(0x1D1C85C, 0x1D1C860).is_well_formed());
    assert!(!symbol(0x1D1C860, 0x1D1C860).is_well_formed());
    assert!(!symbol(0x1D1C864, 0x1D1C860).is_well_formed());
    assert!(!symbol(0x1D1C85D, 0x1D1C860).is_well_formed());
    assert!(!symbol(0x1D1C85C, 0x1D1C862).is_well_formed());
}

#[test]
fn symbol_is_made_only_from_a_well_formed_range() {
    let made = Symbol::new(String::from("f"), 0x1D1C85C, 0x1D1C864).unwrap();
    assert_eq!(made.name, "f");
    assert_eq!(made.start_address, 0x1D1C85C);
    assert_eq!(made.end_address, 0x1D1C864);
    assert!(made.is_well_formed());
    assert!(Symbol::new(String::from("f"), 0x1D1C864, 0x1D1C864).is_none());
    assert!(Symbol::new(String::from("f"), 0x1D1C85C, 0x1D1C863).is_none());
    assert!(Symbol::new(String::from("f"), 0x1D1C85E, 0x1D1C864).is_none());
}
