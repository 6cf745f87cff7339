use merino::classify::{
    code_to_instruction, equivalent_ignoring_relocation, mnemonic_from_decoded, mnemonics_agree,
};

#[test]
fn known_words_decode_to_their_mnemonics() {
    assert_eq!(code_to_instruction(0x7C43_2214), "add r2, r3, r4");
    assert_eq!(code_to_instruction(0x4800_0000), "b 0x0");
    assert_eq!(code_to_instruction(0x4800_A5C9), "bl 0xa5c8");
    assert_eq!(code_to_instruction(0x38A0_0000), "li r5, 0x0");
    assert_eq!(code_to_instruction(0x4E80_0020), "blr");
}

#[test]
fn unknown_word_carries_its_value() {
    assert_eq!(code_to_instruction(0), "<illegal; found: 0x00000000>");
    assert_eq!(code_to_instruction(0x0000_ABCD), "<illegal; found: 0x0000ABCD>");
}

#[test]
fn decoder_mark_is_replaced_and_other_text_kept() {
    assert_eq!(
        mnemonic_from_decoded(String::from("<illegal>"), 0xDEAD_BEEF),
        "<illegal; found: 0xDEADBEEF>"
    );
    assert_eq!(mnemonic_from_decoded(String::from("<illegal>"), 0x1F), "<illegal; found: 0x0000001F>");
    assert_eq!(mnemonic_from_decoded(String::from("nop"), 0x6000_0000), "nop");
    assert_eq!(mnemonic_from_decoded(String::from("<illegal> "), 7), "<illegal> ");
    assert_eq!(mnemonic_from_decoded(String::new(), 7), "");
}

#[test]
fn same_family_is_equivalent() {
    assert!(equivalent_ignoring_relocation("b 0x0", "bl 0xa5c8"));
    assert!(equivalent_ignoring_relocation("li r5, 0x0", "li r5, 0x10"));
    assert!(equivalent_ignoring_relocation("lis r8, 0xefce", "lis r8, 0x1"));
    assert!(equivalent_ignoring_relocation("li r5, 0x0", "lis r8, 0xefce"));
    assert!(equivalent_ignoring_relocation("stw r0, 0x40cc(r1)", "stw r0, -0x44(r3)"));
    assert!(equivalent_ignoring_relocation("lfs f0, 0x27c(r1)", "lfs f0, -0x8000(r2)"));
    assert!(equivalent_ignoring_relocation("stfs f0, 0x86c(r3)", "stfs f0, -0x8000(r3)"));
}

#[test]
fn different_families_are_not_equivalent() {
    assert!(!equivalent_ignoring_relocation("add r2, r3, r4", "addc r2, r3, r4"));
    assert!(!equivalent_ignoring_relocation("b 0x0", "add r2, r3, r4"));
    assert!(!equivalent_ignoring_relocation("stw r0, 0x40cc(r1)", "lfs f0, 0x27c(r1)"));
    assert!(!equivalent_ignoring_relocation("", ""));
    assert!(!equivalent_ignoring_relocation("stw", "st"));
}

#[test]
fn family_test_is_by_substring() {
    assert!(equivalent_ignoring_relocation("subf r3, r4, r5", "b 0x0"));
    assert!(equivalent_ignoring_relocation("xstwx", "stw"));
}

#[test]
fn equal_mnemonics_agree() {
    assert!(mnemonics_agree("add r2, r3, r4", "add r2, r3, r4"));
    assert!(mnemonics_agree("", ""));
    assert!(mnemonics_agree("b 0x0", "b 0x4"));
    assert!(!mnemonics_agree("add r2, r3, r4", "add r2, r3, r5"));
    assert_eq!(mnemonics_agree("mr r3, r4", "nop"), mnemonics_agree("nop", "mr r3, r4"));
}
