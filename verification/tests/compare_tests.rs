use merino::compare::{compare, same_codes, ComparisonResult};

const ADD: u32 = 0x7C43_2214;
const ADDC: u32 = 0x7C43_2014;
const BLR: u32 = 0x4E80_0020;

#[test]
fn sequence_is_identical_to_itself() {
    assert_eq!(compare(&[], &[]), ComparisonResult::Identical);
    assert_eq!(compare(&[ADD], &[ADD]), ComparisonResult::Identical);
    assert_eq!(compare(&[ADD, 0, BLR], &[ADD, 0, BLR]), ComparisonResult::Identical);
    assert_eq!(compare(&[0xFFFF_FFFF, 0x1234], &[0xFFFF_FFFF, 0x1234]), ComparisonResult::Identical);
}

#[test]
fn branch_targets_are_ignored() {
    assert_eq!(compare(&[0x4800_0000], &[0x4800_0004]), ComparisonResult::Identical);
    assert_eq!(
        compare(&[ADD, 0x4800_A5C9, BLR], &[ADD, 0x4823_B4D9, BLR]),
        ComparisonResult::Identical
    );
}

#[test]
fn address_operands_of_loads_and_stores_are_ignored() {
    assert_eq!(compare(&[0x9001_40CC], &[0x9003_FFBC]), ComparisonResult::Identical);
    assert_eq!(compare(&[0xC001_027C], &[0xC002_8000]), ComparisonResult::Identical);
    assert_eq!(compare(&[0x3D00_EFCE], &[0x38A0_0000]), ComparisonResult::Identical);
}

#[test]
fn first_differing_instruction_is_reported() {
    assert_eq!(
        compare(&[ADD, ADD, BLR], &[ADD, ADDC, BLR]),
        ComparisonResult::SemanticMismatch {
            at_index: 1,
            original_mnemonic: String::from("add r2, r3, r4"),
            candidate_mnemonic: String::from("addc r2, r3, r4"),
        }
    );
}

#[test]
fn only_the_first_divergence_is_reported() {
    assert_eq!(
        compare(&[ADD, ADD, ADD], &[ADDC, ADDC]),
        ComparisonResult::SemanticMismatch {
            at_index: 0,
            original_mnemonic: String::from("add r2, r3, r4"),
            candidate_mnemonic: String::from("addc r2, r3, r4"),
        }
    );
}

#[test]
fn unknown_words_that_differ_do_not_match() {
    assert_eq!(
        compare(&[1], &[2]),
        ComparisonResult::SemanticMismatch {
            at_index: 0,
            original_mnemonic: String::from("<illegal; found: 0x00000001>"),
            candidate_mnemonic: String::from("<illegal; found: 0x00000002>"),
        }
    );
}

#[test]
fn short_candidate_is_a_length_mismatch() {
    assert_eq!(
        compare(&[ADD, ADD, BLR], &[ADD, ADD]),
        ComparisonResult::LengthMismatch { at_index: 2 }
    );
    assert_eq!(compare(&[ADD], &[]), ComparisonResult::LengthMismatch { at_index: 0 });
    assert_eq!(
        compare(&[0x4800_0000, BLR], &[0x4800_0004]),
        ComparisonResult::LengthMismatch { at_index: 1 }
    );
}

#[test]
fn longer_candidate_with_matching_start_is_identical() {
    assert_eq!(compare(&[ADD], &[ADD, BLR]), ComparisonResult::Identical);
    assert_eq!(compare(&[], &[BLR]), ComparisonResult::Identical);
}

#[test]
fn same_codes_is_word_for_word() {
    assert!(same_codes(&[], &[]));
    assert!(same_codes(&[1, 2, 3], &[1, 2, 3]));
    assert!(!same_codes(&[1, 2, 3], &[1, 2]));
    assert!(!same_codes(&[1, 2, 3], &[1, 2, 4]));
}

#[test]
fn each_result_has_its_message() {
    assert_eq!(ComparisonResult::Identical.report(), "The functions are identical.");
    assert_eq!(ComparisonResult::LengthMismatch { at_index: 3 }.report(), "function too small");
    assert_eq!(
        compare(&[ADD], &[ADDC]).report(),
        "Nonmatching instruction.\nOriginal: add r2, r3, r4\nCompiled: addc r2, r3, r4"
    );
}
