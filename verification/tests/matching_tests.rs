use merino::address::BASE_ADDRESS;
use merino::compare::ComparisonResult;
use merino::dump::ScanError;
use merino::extract::{ExtractError, Symbol};
use merino::matching::{find_symbol, match_symbol, reference_table, MatchError};

fn symbol(name: &str, start: usize, end: usize) -> Symbol {
    Symbol { name: String::from(name), start_address: BASE_ADDRESS + start, end_address: BASE_ADDRESS + end }
}

fn image() -> Vec<u8> {
    vec![
        0x7C, 0x43, 0x22, 0x14, // add r2, r3, r4
        0x48, 0x00, 0x00, 0x00, // b 0x0
        0x4E, 0x80, 0x00, 0x20, // blr
        0x7C, 0x43, 0x20, 0x14, // addc r2, r3, r4
    ]
}

const LISTING: &[u8] = b"other:\n  00000000 4E800020\nunit.o/work:\n  00000000 7C432214\n  00000004 48000010\n  00000008 4E800020\n";

#[test]
fn matching_function_is_identical() {
    let symbols = vec![symbol("other", 8, 12), symbol("work", 0, 12)];
    assert_eq!(match_symbol(&image(), &symbols, LISTING, "work"), Ok(ComparisonResult::Identical));
    assert_eq!(match_symbol(&image(), &symbols, LISTING, "other"), Ok(ComparisonResult::Identical));
}

#[test]
fn longer_reference_is_a_length_mismatch() {
    let symbols = vec![symbol("work", 0, 16)];
    assert_eq!(
        match_symbol(&image(), &symbols, LISTING, "work"),
        Ok(ComparisonResult::LengthMismatch { at_index: 3 })
    );
}

#[test]
fn differing_reference_is_a_semantic_mismatch() {
    let symbols = vec![symbol("work", 4, 16)];
    assert_eq!(
        match_symbol(&image(), &symbols, LISTING, "work"),
        Ok(ComparisonResult::SemanticMismatch {
            at_index: 0,
            original_mnemonic: String::from("b 0x0"),
            candidate_mnemonic: String::from("add r2, r3, r4"),
        })
    );
}

#[test]
fn later_symbol_of_a_name_counts() {
    let symbols = vec![symbol("work", 12, 16), symbol("work", 0, 12)];
    assert_eq!(match_symbol(&image(), &symbols, LISTING, "work"), Ok(ComparisonResult::Identical));
    assert_eq!(find_symbol(&symbols, "work"), Some(1));
    assert_eq!(find_symbol(&symbols, "wor"), None);
    assert_eq!(find_symbol(&[], "work"), None);
}

#[test]
fn bad_table_row_is_reported_first() {
    let symbols = vec![symbol("work", 0, 12), symbol("far", 8, 24), symbol("odd", 0, 3)];
    assert_eq!(
        match_symbol(&image(), &symbols, LISTING, "missing"),
        Err(MatchError::Extract { index: 1, error: ExtractError::OutsideImage { end_offset: 24 } })
    );
    assert_eq!(
        reference_table(&image(), &symbols[2..]),
        Err(MatchError::Extract { index: 0, error: ExtractError::PartialWord { len: 3 } })
    );
}

#[test]
fn reference_table_has_one_sequence_per_symbol() {
    let symbols = vec![symbol("a", 0, 4), symbol("b", 4, 12)];
    assert_eq!(
        reference_table(&image(), &symbols),
        Ok(vec![vec![0x7C43_2214], vec![0x4800_0000, 0x4E80_0020]])
    );
    assert_eq!(reference_table(&image(), &[]), Ok(vec![]));
}

#[test]
fn symbol_absent_from_listing_is_reported() {
    let symbols = vec![symbol("gone", 0, 4)];
    assert_eq!(
        match_symbol(&image(), &symbols, LISTING, "gone"),
        Err(MatchError::Scan { error: ScanError::SymbolNotFound })
    );
}

#[test]
fn malformed_listing_is_reported() {
    let symbols = vec![symbol("work", 0, 4)];
    assert_eq!(
        match_symbol(&image(), &symbols, b"work:\n  00000000 7C43221\n", "work"),
        Err(MatchError::Scan { error: ScanError::MalformedLine { line: 1 } })
    );
}

#[test]
fn symbol_absent_from_table_is_reported() {
    let symbols = vec![symbol("other", 8, 12)];
    assert_eq!(match_symbol(&image(), &symbols, LISTING, "work"), Err(MatchError::NotInTable));
}
