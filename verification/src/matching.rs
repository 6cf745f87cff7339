//! One matching run: the reference sequences of a symbol table are read from
//! the image, the rebuilt sequence of the target symbol from the listing, and
//! the two sequences of the target are compared.

use vstd::prelude::*;
use vstd::string::*;

use crate::classify::text_eq;
use crate::compare::{compare, compare_verdict, ComparisonResult, Verdict};
use crate::dump::{lines_of, scan_dump, scan_result, ScanError};
use crate::extract::{range_error, range_words, reference_codes, ExtractError, Symbol};

verus! {

/// Why a run ends without a comparison.
#[derive(Debug, Clone, Copy, PartialEq, Eq)]
pub enum MatchError {
    /// The symbol with this index in the table has a range that the image
    /// does not hold as whole words.
    Extract { index: usize, error: ExtractError },
    /// The listing gives no sequence for the target.
    Scan { error: ScanError },
    /// The table has no symbol of the target's name.
    NotInTable,
}

/// The index of the first symbol at or after `from` whose range is refused
/// for an image of `image_len` bytes, or the number of symbols.
pub open spec fn first_bad_symbol(image_len: int, symbols: Seq<Symbol>, from: int) -> int
    decreases symbols.len() - from,
{
    if from >= symbols.len() {
        symbols.len() as int
    } else if range_error(image_len, symbols[from].start_address, symbols[from].end_address)
        is Some {
        from
    } else {
        first_bad_symbol(image_len, symbols, from + 1)
    }
}

/// The index of the last symbol before `upto` that is called `name`, or -1.
pub open spec fn last_named(symbols: Seq<Symbol>, name: Seq<char>, upto: int) -> int
    decreases upto,
{
    if upto <= 0 {
        -1
    } else if symbols[upto - 1].name@ == name {
        upto - 1
    } else {
        last_named(symbols, name, upto - 1)
    }
}

/// The outcome of a run. `target_bytes` is the target's name as the listing
/// spells it.
pub open spec fn match_outcome(
    image: Seq<u8>,
    symbols: Seq<Symbol>,
    listing: Seq<u8>,
    target: Seq<char>,
    target_bytes: Seq<u8>,
) -> Result<Verdict, MatchError> {
    let bad = first_bad_symbol(image.len() as int, symbols, 0);
    if bad < symbols.len() {
        Err(
            MatchError::Extract {
                index: bad as usize,
                error: range_error(
                    image.len() as int,
                    symbols[bad].start_address,
                    symbols[bad].end_address,
                )->Some_0,
            },
        )
    } else {
        match scan_result(lines_of(listing), target_bytes) {
            Err(error) => Err(MatchError::Scan { error }),
            Ok(candidate) => {
                let at = last_named(symbols, target, symbols.len() as int);
                if at < 0 {
                    Err(MatchError::NotInTable)
                } else {
                    Ok(
                        compare_verdict(
                            range_words(image, symbols[at].start_address, symbols[at].end_address),
                            candidate,
                        ),
                    )
                }
            },
        }
    }
}

/// Reads the reference sequence of every symbol of the table, in order.
pub fn reference_table(image: &[u8], symbols: &[Symbol]) -> (result: Result<
    Vec<Vec<u32>>,
    MatchError,
>)
    ensures
        ({
            let bad = first_bad_symbol(image@.len() as int, symbols@, 0);
            if bad < symbols@.len() {
                result == Err::<Vec<Vec<u32>>, MatchError>(
                    MatchError::Extract {
                        index: bad as usize,
                        error: range_error(
                            image@.len() as int,
                            symbols@[bad].start_address,
                            symbols@[bad].end_address,
                        )->Some_0,
                    },
                )
            } else {
                &&& result is Ok
                &&& result->Ok_0@.len() == symbols@.len()
                &&& forall|j: int|
                    0 <= j < symbols@.len() ==> (#[trigger] result->Ok_0@[j])@ == range_words(
                        image@,
                        symbols@[j].start_address,
                        symbols@[j].end_address,
                    )
            }
        }),
{
    let mut table: Vec<Vec<u32>> = Vec::new();
    let mut i: usize = 0;
    while i < symbols.len()
        invariant
            i <= symbols@.len(),
            table@.len() == i,
            first_bad_symbol(image@.len() as int, symbols@, i as int) == first_bad_symbol(
                image@.len() as int,
                symbols@,
                0,
            ),
            forall|j: int|
                0 <= j < i ==> (#[trigger] table@[j])@ == range_words(
                    image@,
                    symbols@[j].start_address,
                    symbols@[j].end_address,
                ),
        decreases symbols@.len() - i,
    {
        match reference_codes(image, symbols[i].start_address, symbols[i].end_address) {
            Ok(codes) => {
                table.push(codes);
            },
            Err(error) => {
                return Err(MatchError::Extract { index: i, error });
            },
        }
        i += 1;
    }
    Ok(table)
}

/// The index of the last symbol of the table that is called `name`.
pub fn find_symbol(symbols: &[Symbol], name: &str) -> (found: Option<usize>)
    ensures
        match found {
            Some(at) => at == last_named(symbols@, name@, symbols@.len() as int),
            None => last_named(symbols@, name@, symbols@.len() as int) < 0,
        },
        last_named(symbols@, name@, symbols@.len() as int) < symbols@.len(),
{
    let mut upto: usize = symbols.len();
    while upto > 0
        invariant
            upto <= symbols@.len(),
            last_named(symbols@, name@, upto as int) == last_named(
                symbols@,
                name@,
                symbols@.len() as int,
            ),
        decreases upto,
    {
        if text_eq(symbols[upto - 1].name.as_str(), name) {
            return Some(upto - 1);
        }
        upto -= 1;
    }
    None
}

/// Runs one match of the symbol `target`.
///
/// Every range of the table is read first, so a table that does not fit the
/// image is reported whichever symbol is asked for. Then the listing is
/// scanned for the target, the target is looked up in the table (of two
/// symbols of one name the later counts), and the two sequences are
/// compared.
pub fn match_symbol(image: &[u8], symbols: &[Symbol], listing: &[u8], target: &str) -> (result:
    Result<ComparisonResult, MatchError>)
    ensures
        match match_outcome(image@, symbols@, listing@, target@, target.spec_bytes()) {
            Ok(verdict) => result is Ok && result->Ok_0@ == verdict,
            Err(e) => result == Err::<ComparisonResult, MatchError>(e),
        },
{
    let table = match reference_table(image, symbols) {
        Ok(table) => table,
        Err(e) => {
            return Err(e);
        },
    };
    let candidate = match scan_dump(listing, target.as_bytes()) {
        Ok(candidate) => candidate,
        Err(error) => {
            return Err(MatchError::Scan { error });
        },
    };
    match find_symbol(symbols, target) {
        None => Err(MatchError::NotInTable),
        Some(at) => Ok(compare(table[at].as_slice(), candidate.as_slice())),
    }
}

} // verus!
