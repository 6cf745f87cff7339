//! Decoding of instruction words into mnemonic text, and the family test
//! that tells link-time differences from real ones.

use ppc750cl::Ins;
use vstd::prelude::*;
use vstd::string::*;

verus! {

/// The text that the decoder prints for the simplified form of `code`.
pub uninterp spec fn simplified_text(code: u32) -> Seq<char>;

/// The upper-case hexadecimal digit of a value below sixteen.
pub open spec fn hex_digit(nibble: u32) -> char {
    if nibble < 10 {
        (0x30 + nibble) as u8 as char
    } else {
        (0x37 + nibble) as u8 as char
    }
}

/// `code` as eight upper-case hexadecimal digits, most significant first.
pub open spec fn hex8(code: u32) -> Seq<char> {
    Seq::new(8, |i: int| hex_digit((code >> ((4 * (7 - i)) as u32)) & 0xf))
}

/// The text that stands for a word the decoder does not recognise.
pub open spec fn illegal_text(code: u32) -> Seq<char> {
    "<illegal; found: 0x"@ + hex8(code) + ">"@
}

/// The mnemonic of `code`, given what the decoder printed for it.
pub open spec fn mnemonic_from(decoded: Seq<char>, code: u32) -> Seq<char> {
    if decoded == "<illegal>"@ {
        illegal_text(code)
    } else {
        decoded
    }
}

/// The mnemonic of `code`.
pub open spec fn mnemonic_of(code: u32) -> Seq<char> {
    mnemonic_from(simplified_text(code), code)
}

/// `needle` occurs in `hay` as a run of consecutive characters.
pub open spec fn contains_text(hay: Seq<char>, needle: Seq<char>) -> bool {
    exists|i: int|
        0 <= i && i + needle.len() <= hay.len() && #[trigger] hay.subrange(i, i + needle.len())
            == needle
}

/// Both mnemonics name the operation `family`.
pub open spec fn share_family(a: Seq<char>, b: Seq<char>, family: Seq<char>) -> bool {
    contains_text(a, family) && contains_text(b, family)
}

/// Both mnemonics name the same address-sensitive operation: a branch, one of
/// the two immediate loads, a word store, a single-precision float load or a
/// single-precision float store.
pub open spec fn equivalent_text(a: Seq<char>, b: Seq<char>) -> bool {
    ||| share_family(a, b, "b"@)
    ||| share_family(a, b, "li"@)
    ||| share_family(a, b, "lis"@)
    ||| share_family(a, b, "stw"@)
    ||| share_family(a, b, "lfs"@)
    ||| share_family(a, b, "stfs"@)
}

/// Two mnemonics that do not set a comparison off: equal ones, and ones of
/// the same address-sensitive family.
pub open spec fn agree_text(a: Seq<char>, b: Seq<char>) -> bool {
    a == b || equivalent_text(a, b)
}

/// `ppc750cl::Ins::new(code).simplified().to_string()`: the decoder's text
/// for the simplified form of `code`. The decoder is a pure table-driven
/// function of the word; its output is named, not described.
#[verifier::external_body]
fn simplified_mnemonic(code: u32) -> (text: String)
    ensures
        text@ == simplified_text(code),
{
    Ins::new(code).simplified().to_string()
}

/// `format!` with `{:08X}`: the value in upper-case hexadecimal, padded with
/// zeros to eight digits.
#[verifier::external_body]
fn upper_hex8(code: u32) -> (text: String)
    ensures
        text@ == hex8(code),
{
    format!("{:08X}", code)
}

/// `str::contains` with a string pattern: whether the pattern matches a
/// sub-slice of the text.
#[verifier::external_body]
fn text_contains(hay: &str, needle: &str) -> (found: bool)
    ensures
        found == contains_text(hay@, needle@),
{
    hay.contains(needle)
}

/// `==` on `str`: whether the two texts hold the same characters.
#[verifier::external_body]
pub(crate) fn text_eq(a: &str, b: &str) -> (same: bool)
    ensures
        same == (a@ == b@),
{
    a == b
}

/// The mnemonic for `code` once the decoder has printed `decoded` for it:
/// the decoder's text, or, where that is the decoder's mark for an
/// unrecognised word, a text that carries the word itself.
pub fn mnemonic_from_decoded(decoded: String, code: u32) -> (text: String)
    ensures
        text@ == mnemonic_from(decoded@, code),
{
    if !text_eq(decoded.as_str(), "<illegal>") {
        decoded
    } else {
        let mut text = String::from_str("<illegal; found: 0x");
        let digits = upper_hex8(code);
        text.append(digits.as_str());
        text.append(">");
        text
    }
}

/// Decodes `code` into its mnemonic. Every word has one: a word that the
/// decoder does not recognise is rendered with its own value in it.
pub fn code_to_instruction(code: u32) -> (text: String)
    ensures
        text@ == mnemonic_of(code),
{
    mnemonic_from_decoded(simplified_mnemonic(code), code)
}

/// Whether both mnemonics contain `family`.
fn both_contain(a: &str, b: &str, family: &str) -> (both: bool)
    ensures
        both == share_family(a@, b@, family@),
{
    text_contains(a, family) && text_contains(b, family)
}

/// Whether two mnemonics belong to the same address-sensitive family, whose
/// encodings differ between a linked and an unlinked build.
pub fn equivalent_ignoring_relocation(a: &str, b: &str) -> (same_family: bool)
    ensures
        same_family == equivalent_text(a@, b@),
{
    both_contain(a, b, "b") || both_contain(a, b, "li") || both_contain(a, b, "lis")
        || both_contain(a, b, "stw") || both_contain(a, b, "lfs") || both_contain(a, b, "stfs")
}

/// Whether two mnemonics count as matching: they are equal, or of the same
/// address-sensitive family.
pub fn mnemonics_agree(a: &str, b: &str) -> (agree: bool)
    ensures
        agree == agree_text(a@, b@),
{
    text_eq(a, b) || equivalent_ignoring_relocation(a, b)
}

/// Two mnemonics that both contain the branch letter are equivalent.
pub proof fn lemma_branches_equivalent(a: Seq<char>, b: Seq<char>)
    requires
        contains_text(a, "b"@),
        contains_text(b, "b"@),
    ensures
        equivalent_text(a, b),
        agree_text(a, b),
{
}

} // verus!
