//! Position-by-position comparison of a reference instruction sequence with
//! a rebuilt one.

use vstd::prelude::*;
use vstd::string::*;

use crate::classify::{
    agree_text, code_to_instruction, contains_text, equivalent_text, lemma_branches_equivalent,
    mnemonic_of, mnemonics_agree,
};

verus! {

/// Outcome of comparing a reference sequence with a candidate.
#[derive(Debug, Clone, PartialEq, Eq)]
pub enum ComparisonResult {
    /// No position of the reference diverges.
    Identical,
    /// The candidate ends at `at_index`, before the reference does.
    LengthMismatch { at_index: usize },
    /// The instructions at `at_index` are the first that differ in meaning.
    SemanticMismatch { at_index: usize, original_mnemonic: String, candidate_mnemonic: String },
}

/// What a `ComparisonResult` says, over mathematical values.
pub enum Verdict {
    Identical,
    LengthMismatch { at_index: int },
    SemanticMismatch { at_index: int, original_mnemonic: Seq<char>, candidate_mnemonic: Seq<char> },
}

impl View for ComparisonResult {
    type V = Verdict;

    open spec fn view(&self) -> Verdict {
        match self {
            ComparisonResult::Identical => Verdict::Identical,
            ComparisonResult::LengthMismatch { at_index } => Verdict::LengthMismatch {
                at_index: *at_index as int,
            },
            ComparisonResult::SemanticMismatch {
                at_index,
                original_mnemonic,
                candidate_mnemonic,
            } => Verdict::SemanticMismatch {
                at_index: *at_index as int,
                original_mnemonic: original_mnemonic@,
                candidate_mnemonic: candidate_mnemonic@,
            },
        }
    }
}

/// The message that reports a verdict.
pub open spec fn report_text(verdict: Verdict) -> Seq<char> {
    match verdict {
        Verdict::Identical => "The functions are identical."@,
        Verdict::LengthMismatch { .. } => "function too small"@,
        Verdict::SemanticMismatch { original_mnemonic, candidate_mnemonic, .. } => {
            "Nonmatching instruction.\nOriginal: "@ + original_mnemonic + "\nCompiled: "@
                + candidate_mnemonic
        },
    }
}

impl ComparisonResult {
    /// The message that reports this result: that the functions are
    /// identical, that the rebuilt one is too small, or the two mnemonics
    /// that do not match.
    pub fn report(&self) -> (text: String)
        ensures
            text@ == report_text(self@),
    {
        match self {
            ComparisonResult::Identical => String::from_str("The functions are identical."),
            ComparisonResult::LengthMismatch { .. } => String::from_str("function too small"),
            ComparisonResult::SemanticMismatch { original_mnemonic, candidate_mnemonic, .. } => {
                let mut text = String::from_str("Nonmatching instruction.\nOriginal: ");
                text.append(original_mnemonic.as_str());
                text.append("\nCompiled: ");
                text.append(candidate_mnemonic.as_str());
                text
            },
        }
    }
}

/// The two instruction words decode to mnemonics that agree.
pub open spec fn codes_agree(original: u32, candidate: u32) -> bool {
    agree_text(mnemonic_of(original), mnemonic_of(candidate))
}

/// Position `i` of the reference has a counterpart in the candidate that
/// agrees with it.
pub open spec fn matches_at(reference: Seq<u32>, candidate: Seq<u32>, i: int) -> bool {
    i < candidate.len() && codes_agree(reference[i], candidate[i])
}

/// The first position at or after `from` at which the reference diverges
/// from the candidate, or the reference's length if there is none.
pub open spec fn divergence_from(reference: Seq<u32>, candidate: Seq<u32>, from: int) -> int
    decreases reference.len() - from,
{
    if from >= reference.len() {
        reference.len() as int
    } else if !matches_at(reference, candidate, from) {
        from
    } else {
        divergence_from(reference, candidate, from + 1)
    }
}

/// The verdict on a reference that first diverges at `at` (its length, if it
/// never does).
pub open spec fn verdict_at(reference: Seq<u32>, candidate: Seq<u32>, at: int) -> Verdict {
    if at >= reference.len() {
        Verdict::Identical
    } else if at >= candidate.len() {
        Verdict::LengthMismatch { at_index: at }
    } else {
        Verdict::SemanticMismatch {
            at_index: at,
            original_mnemonic: mnemonic_of(reference[at]),
            candidate_mnemonic: mnemonic_of(candidate[at]),
        }
    }
}

/// The verdict on a reference and a candidate: the first position of the
/// reference that the candidate lacks or answers with a mnemonic that does
/// not agree, if there is one.
pub open spec fn compare_verdict(reference: Seq<u32>, candidate: Seq<u32>) -> Verdict {
    verdict_at(reference, candidate, divergence_from(reference, candidate, 0))
}

/// `divergence_from` is the least diverging position at or after `from`.
pub proof fn lemma_divergence(reference: Seq<u32>, candidate: Seq<u32>, from: int)
    requires
        0 <= from <= reference.len(),
    ensures
        from <= divergence_from(reference, candidate, from) <= reference.len(),
        forall|j: int|
            from <= j < divergence_from(reference, candidate, from) ==> matches_at(
                reference,
                candidate,
                j,
            ),
        divergence_from(reference, candidate, from) < reference.len() ==> !matches_at(
            reference,
            candidate,
            divergence_from(reference, candidate, from),
        ),
    decreases reference.len() - from,
{
    if from < reference.len() && matches_at(reference, candidate, from) {
        lemma_divergence(reference, candidate, from + 1);
    }
}

/// A position before which everything matches, and which itself diverges or
/// is the reference's end, is the first divergence.
pub proof fn lemma_divergence_is(reference: Seq<u32>, candidate: Seq<u32>, at: int)
    requires
        0 <= at <= reference.len(),
        forall|j: int| 0 <= j < at ==> matches_at(reference, candidate, j),
        at < reference.len() ==> !matches_at(reference, candidate, at),
    ensures
        divergence_from(reference, candidate, 0) == at,
{
    lemma_divergence(reference, candidate, 0);
    let d = divergence_from(reference, candidate, 0);
    if d < at {
        assert(matches_at(reference, candidate, d));
    } else if at < d {
        assert(matches_at(reference, candidate, at));
    }
}

/// Whether two sequences hold the same words.
pub fn same_codes(a: &[u32], b: &[u32]) -> (same: bool)
    ensures
        same == (a@ == b@),
{
    if a.len() != b.len() {
        return false;
    }
    let mut i: usize = 0;
    while i < a.len()
        invariant
            a@.len() == b@.len(),
            i <= a@.len(),
            forall|j: int| 0 <= j < i ==> a@[j] == b@[j],
        decreases a@.len() - i,
    {
        if a[i] != b[i] {
            return false;
        }
        i += 1;
    }
    assert(a@ =~= b@);
    true
}

/// Compares a reference instruction sequence with a candidate and reports
/// the first position at which they diverge.
///
/// Sequences that are equal word for word are identical without decoding.
/// Otherwise each position of the reference is decoded on both sides; a
/// position diverges if the candidate has ended, or if the two mnemonics
/// differ and are not of one address-sensitive family.
pub fn compare(reference: &[u32], candidate: &[u32]) -> (result: ComparisonResult)
    ensures
        result@ == compare_verdict(reference@, candidate@),
{
    if same_codes(reference, candidate) {
        proof {
            lemma_compare_reflexive(reference@);
        }
        return ComparisonResult::Identical;
    }
    let mut i: usize = 0;
    while i < reference.len()
        invariant
            i <= reference@.len(),
            divergence_from(reference@, candidate@, 0) == divergence_from(
                reference@,
                candidate@,
                i as int,
            ),
        decreases reference@.len() - i,
    {
        if i >= candidate.len() {
            return ComparisonResult::LengthMismatch { at_index: i };
        }
        let original_mnemonic = code_to_instruction(reference[i]);
        let candidate_mnemonic = code_to_instruction(candidate[i]);
        if !mnemonics_agree(original_mnemonic.as_str(), candidate_mnemonic.as_str()) {
            return ComparisonResult::SemanticMismatch {
                at_index: i,
                original_mnemonic,
                candidate_mnemonic,
            };
        }
        i += 1;
    }
    ComparisonResult::Identical
}

/// Every sequence is identical to itself.
pub proof fn lemma_compare_reflexive(codes: Seq<u32>)
    ensures
        compare_verdict(codes, codes) == Verdict::Identical,
{
    assert forall|j: int| 0 <= j < codes.len() implies matches_at(codes, codes, j) by {}
    lemma_divergence_is(codes, codes, codes.len() as int);
}

/// Sequences of one length whose words, position by position, decode to
/// equal mnemonics or to mnemonics that both contain the branch letter are
/// identical.
pub proof fn lemma_branch_operands_ignored(reference: Seq<u32>, candidate: Seq<u32>)
    requires
        reference.len() == candidate.len(),
        forall|j: int|
            0 <= j < reference.len() ==> mnemonic_of(reference[j]) == mnemonic_of(candidate[j]) || (
            contains_text(mnemonic_of(reference[j]), "b"@) && contains_text(
                mnemonic_of(candidate[j]),
                "b"@,
            )),
    ensures
        compare_verdict(reference, candidate) == Verdict::Identical,
{
    assert forall|j: int| 0 <= j < reference.len() implies matches_at(reference, candidate, j) by {
        if mnemonic_of(reference[j]) != mnemonic_of(candidate[j]) {
            lemma_branches_equivalent(mnemonic_of(reference[j]), mnemonic_of(candidate[j]));
        }
    }
    lemma_divergence_is(reference, candidate, reference.len() as int);
}

/// Where everything before position `i` matches, and the two mnemonics at
/// `i` differ and are of no common address-sensitive family, the verdict is
/// a semantic mismatch at `i` that carries both mnemonics.
pub proof fn lemma_semantic_mismatch(reference: Seq<u32>, candidate: Seq<u32>, i: int)
    requires
        0 <= i < reference.len(),
        i < candidate.len(),
        forall|j: int| 0 <= j < i ==> matches_at(reference, candidate, j),
        mnemonic_of(reference[i]) != mnemonic_of(candidate[i]),
        !equivalent_text(mnemonic_of(reference[i]), mnemonic_of(candidate[i])),
    ensures
        compare_verdict(reference, candidate) == (Verdict::SemanticMismatch {
            at_index: i,
            original_mnemonic: mnemonic_of(reference[i]),
            candidate_mnemonic: mnemonic_of(candidate[i]),
        }),
{
    lemma_divergence_is(reference, candidate, i);
}

/// A candidate that is shorter than the reference and matches it as far as
/// it goes gives a length mismatch at the candidate's length.
pub proof fn lemma_short_candidate(reference: Seq<u32>, candidate: Seq<u32>)
    requires
        candidate.len() < reference.len(),
        forall|j: int| 0 <= j < candidate.len() ==> codes_agree(reference[j], candidate[j]),
    ensures
        compare_verdict(reference, candidate) == (Verdict::LengthMismatch {
            at_index: candidate.len() as int,
        }),
{
    lemma_divergence_is(reference, candidate, candidate.len() as int);
}

/// What each verdict means: `Identical`, that every position of the
/// reference has a counterpart that agrees; a mismatch, that its position is
/// the first without one, a length mismatch where the candidate has ended
/// there and a semantic mismatch where the two mnemonics do not agree.
pub proof fn lemma_verdict_meaning(reference: Seq<u32>, candidate: Seq<u32>)
    ensures
        match compare_verdict(reference, candidate) {
            Verdict::Identical => forall|j: int|
                0 <= j < reference.len() ==> matches_at(reference, candidate, j),
            Verdict::LengthMismatch { at_index } => {
                &&& at_index == candidate.len()
                &&& at_index < reference.len()
                &&& forall|j: int| 0 <= j < at_index ==> matches_at(reference, candidate, j)
            },
            Verdict::SemanticMismatch { at_index, original_mnemonic, candidate_mnemonic } => {
                &&& 0 <= at_index < reference.len()
                &&& at_index < candidate.len()
                &&& original_mnemonic == mnemonic_of(reference[at_index])
                &&& candidate_mnemonic == mnemonic_of(candidate[at_index])
                &&& !agree_text(original_mnemonic, candidate_mnemonic)
                &&& forall|j: int| 0 <= j < at_index ==> matches_at(reference, candidate, j)
            },
        },
{
    lemma_divergence(reference, candidate, 0);
    let d = divergence_from(reference, candidate, 0);
    if d < reference.len() && d > candidate.len() {
        assert(matches_at(reference, candidate, candidate.len() as int));
    }
}

} // verus!
