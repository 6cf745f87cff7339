//! Scanning of the text listing of an object dump for the instruction words
//! of one symbol.
//!
//! The listing is taken as bytes. It is made of lines; a line that ends in a
//! colon, white space aside, is a label and opens a symbol's block, and every
//! other line is a data line of the block opened last. A data line carries
//! its instruction word as eight hexadecimal digits in columns 11 to 18.

use vstd::prelude::*;
use vstd::slice::{slice_subrange, slice_to_vec};

verus! {

/// Column of the first digit of a data line's instruction word.
pub const CODE_START: usize = 11;

/// Column after the last digit of a data line's instruction word.
pub const CODE_END: usize = 19;

/// Why a listing gives no instruction sequence for a symbol.
#[derive(Debug, Clone, Copy, PartialEq, Eq, Structural)]
pub enum ScanError {
    /// No label of the listing ends with the requested name.
    SymbolNotFound,
    /// The data line with this index, counted from zero, is too short or has
    /// something other than hexadecimal digits in the word's columns.
    MalformedLine { line: usize },
}

/// ASCII white space: the space, and the controls from tab to carriage
/// return.
pub open spec fn is_space(b: u8) -> bool {
    b == 0x20 || (0x09 <= b && b <= 0x0d)
}

/// Where the line that starts at `from` ends: at the next line feed, or at
/// the end of the text.
pub open spec fn line_end(text: Seq<u8>, from: int) -> int
    decreases text.len() - from,
{
    if from >= text.len() {
        text.len() as int
    } else if text[from] == 0x0a {
        from
    } else {
        line_end(text, from + 1)
    }
}

/// The lines of `text` that start at or after `from`.
pub open spec fn lines_from(text: Seq<u8>, from: int) -> Seq<Seq<u8>>
    decreases text.len() + 1 - from,
{
    if from < 0 || from >= text.len() {
        Seq::empty()
    } else {
        proof {
            lemma_line_end_bounds(text, from);
        }
        seq![text.subrange(from, line_end(text, from))] + lines_from(
            text,
            line_end(text, from) + 1,
        )
    }
}

/// The lines of `text`, without their line feeds. A line feed ends a line;
/// text after the last line feed is a line if it is not empty. A carriage
/// return before a line feed stays in its line, as trailing white space.
pub open spec fn lines_of(text: Seq<u8>) -> Seq<Seq<u8>> {
    lines_from(text, 0)
}

/// A line ends between its start and the end of the text.
pub proof fn lemma_line_end_bounds(text: Seq<u8>, from: int)
    requires
        0 <= from <= text.len(),
    ensures
        from <= line_end(text, from) <= text.len(),
        forall|k: int| from <= k < line_end(text, from) ==> text[k] != 0x0a,
        line_end(text, from) < text.len() ==> text[line_end(text, from)] == 0x0a,
    decreases text.len() - from,
{
    if from < text.len() && text[from] != 0x0a {
        lemma_line_end_bounds(text, from + 1);
    }
}

/// `s` without its trailing white space.
pub open spec fn trim_end(s: Seq<u8>) -> Seq<u8>
    decreases s.len(),
{
    if s.len() > 0 && is_space(s.last()) {
        trim_end(s.drop_last())
    } else {
        s
    }
}

/// `s` without its leading white space.
pub open spec fn trim_start(s: Seq<u8>) -> Seq<u8>
    decreases s.len(),
{
    if s.len() > 0 && is_space(s.first()) {
        trim_start(s.skip(1))
    } else {
        s
    }
}

/// `s` without its trailing colons.
pub open spec fn strip_colons(s: Seq<u8>) -> Seq<u8>
    decreases s.len(),
{
    if s.len() > 0 && s.last() == 0x3a {
        strip_colons(s.drop_last())
    } else {
        s
    }
}

/// A label line ends in a colon once its trailing white space is removed.
pub open spec fn is_label(line: Seq<u8>) -> bool {
    trim_end(line).len() > 0 && trim_end(line).last() == 0x3a
}

/// The symbol name of a label line: the line without its trailing colons and
/// without white space at either end.
pub open spec fn label_name(line: Seq<u8>) -> Seq<u8> {
    trim_start(trim_end(strip_colons(trim_end(line))))
}

/// `name` ends with the bytes of `suffix`.
pub open spec fn ends_with(name: Seq<u8>, suffix: Seq<u8>) -> bool {
    suffix.len() <= name.len() && name.subrange(name.len() - suffix.len(), name.len() as int)
        == suffix
}

/// A label line whose symbol name ends with `target`.
pub open spec fn is_target_label(line: Seq<u8>, target: Seq<u8>) -> bool {
    is_label(line) && ends_with(label_name(line), target)
}

/// The value of a hexadecimal digit of either case.
pub open spec fn digit_value(b: u8) -> Option<int> {
    if 0x30 <= b && b <= 0x39 {
        Some(b - 0x30)
    } else if 0x41 <= b && b <= 0x46 {
        Some(b - 0x41 + 10)
    } else if 0x61 <= b && b <= 0x66 {
        Some(b - 0x61 + 10)
    } else {
        None
    }
}

/// The value of the digit in column `k` of `line`.
pub open spec fn digit_at(line: Seq<u8>, k: int) -> int {
    digit_value(line[k]).unwrap()
}

/// A data line reaches the end of the word's columns and has a hexadecimal
/// digit in each of them.
pub open spec fn has_code(line: Seq<u8>) -> bool {
    line.len() >= CODE_END && forall|k: int|
        CODE_START <= k < CODE_END ==> (#[trigger] digit_value(line[k])) is Some
}

/// The instruction word of a data line: the number that the eight digits in
/// its columns spell in base sixteen.
#[verifier::opaque]
pub open spec fn line_code(line: Seq<u8>) -> Option<u32> {
    if has_code(line) {
        Some(
            (digit_at(line, 11) * 0x1000_0000 + digit_at(line, 12) * 0x100_0000 + digit_at(line, 13)
                * 0x10_0000 + digit_at(line, 14) * 0x1_0000 + digit_at(line, 15) * 0x1000
                + digit_at(line, 16) * 0x100 + digit_at(line, 17) * 0x10 + digit_at(
                line,
                18,
            )) as u32,
        )
    } else {
        None
    }
}

/// The index of the first line at or after `from` that is a label for
/// `target`, or the number of lines if there is none.
pub open spec fn target_label_from(lines: Seq<Seq<u8>>, target: Seq<u8>, from: int) -> int
    decreases lines.len() - from,
{
    if from >= lines.len() {
        lines.len() as int
    } else if is_target_label(lines[from], target) {
        from
    } else {
        target_label_from(lines, target, from + 1)
    }
}

/// The index of the first label line at or after `from`, or the number of
/// lines if there is none.
pub open spec fn block_end_from(lines: Seq<Seq<u8>>, from: int) -> int
    decreases lines.len() - from,
{
    if from >= lines.len() {
        lines.len() as int
    } else if is_label(lines[from]) {
        from
    } else {
        block_end_from(lines, from + 1)
    }
}

/// The instruction words of the data lines `from..to`, or the first of them
/// that has none.
pub open spec fn block_codes(lines: Seq<Seq<u8>>, from: int, to: int) -> Result<Seq<u32>, ScanError>
    decreases to - from,
{
    if to <= from {
        Ok(Seq::empty())
    } else {
        match block_codes(lines, from, to - 1) {
            Err(e) => Err(e),
            Ok(codes) => match line_code(lines[to - 1]) {
                Some(code) => Ok(codes.push(code)),
                None => Err(ScanError::MalformedLine { line: (to - 1) as usize }),
            },
        }
    }
}

/// What scanning the lines from `from` on for `target` gives: the words of
/// the data lines between the first label whose name ends with `target` and
/// the label after it.
pub open spec fn scan_from(lines: Seq<Seq<u8>>, target: Seq<u8>, from: int) -> Result<
    Seq<u32>,
    ScanError,
> {
    let at = target_label_from(lines, target, from);
    if at >= lines.len() {
        Err(ScanError::SymbolNotFound)
    } else {
        block_codes(lines, at + 1, block_end_from(lines, at + 1))
    }
}

/// What scanning `lines` for `target` gives.
pub open spec fn scan_result(lines: Seq<Seq<u8>>, target: Seq<u8>) -> Result<Seq<u32>, ScanError> {
    scan_from(lines, target, 0)
}

/// A symbol's block: its name and the words of its data lines.
pub type BlockView = (Seq<u8>, Seq<u32>);

/// `blocks` before what the rest of a listing gives.
pub open spec fn blocks_then(blocks: Seq<BlockView>, rest: Result<Seq<BlockView>, ScanError>) -> Result<
    Seq<BlockView>,
    ScanError,
> {
    match rest {
        Ok(more) => Ok(blocks + more),
        Err(e) => Err(e),
    }
}

/// The blocks that start at or after line `from`, in the listing's order:
/// for each label line its name and the words of the data lines up to the
/// next label; or the first data line of a block that has no word. Data
/// lines before the first label belong to no block.
pub open spec fn blocks_from(lines: Seq<Seq<u8>>, from: int) -> Result<Seq<BlockView>, ScanError>
    decreases lines.len() - from,
{
    if from < 0 || block_end_from(lines, from) >= lines.len() {
        Ok(Seq::empty())
    } else {
        let at = block_end_from(lines, from);
        let end = block_end_from(lines, at + 1);
        proof {
            lemma_block_end(lines, from);
            lemma_block_end(lines, at + 1);
        }
        match block_codes(lines, at + 1, end) {
            Err(e) => Err(e),
            Ok(codes) => blocks_then(seq![(label_name(lines[at]), codes)], blocks_from(lines, end)),
        }
    }
}

/// Every block of a listing.
pub open spec fn all_blocks(lines: Seq<Seq<u8>>) -> Result<Seq<BlockView>, ScanError> {
    blocks_from(lines, 0)
}

/// The words of the first of `blocks` whose name ends with `target`.
pub open spec fn pick_block(blocks: Seq<BlockView>, target: Seq<u8>) -> Result<Seq<u32>, ScanError>
    decreases blocks.len(),
{
    if blocks.len() == 0 {
        Err(ScanError::SymbolNotFound)
    } else if ends_with(blocks[0].0, target) {
        Ok(blocks[0].1)
    } else {
        pick_block(blocks.skip(1), target)
    }
}

/// The contents of a list of blocks.
pub open spec fn block_views(blocks: Seq<(Vec<u8>, Vec<u32>)>) -> Seq<BlockView> {
    Seq::new(blocks.len(), |i: int| (blocks[i].0@, blocks[i].1@))
}

/// The contents of a list of lines.
pub open spec fn texts(lines: Seq<Vec<u8>>) -> Seq<Seq<u8>> {
    Seq::new(lines.len(), |i: int| lines[i]@)
}

/// An executable result says what the scan's result is.
pub open spec fn gives(result: Result<Vec<u32>, ScanError>, expected: Result<Seq<u32>, ScanError>) -> bool {
    match expected {
        Ok(codes) => result is Ok && result->Ok_0@ == codes,
        Err(e) => result == Err::<Vec<u32>, ScanError>(e),
    }
}

/// The first label for `target` is the least index of one.
pub proof fn lemma_target_label(lines: Seq<Seq<u8>>, target: Seq<u8>, from: int)
    requires
        0 <= from <= lines.len(),
    ensures
        from <= target_label_from(lines, target, from) <= lines.len(),
        forall|j: int|
            from <= j < target_label_from(lines, target, from) ==> !is_target_label(
                #[trigger] lines[j],
                target,
            ),
        target_label_from(lines, target, from) < lines.len() ==> is_target_label(
            lines[target_label_from(lines, target, from)],
            target,
        ),
    decreases lines.len() - from,
{
    if from < lines.len() && !is_target_label(lines[from], target) {
        lemma_target_label(lines, target, from + 1);
    }
}

/// A block ends at the least index of a label at or after its start.
pub proof fn lemma_block_end(lines: Seq<Seq<u8>>, from: int)
    requires
        0 <= from <= lines.len(),
    ensures
        from <= block_end_from(lines, from) <= lines.len(),
        forall|j: int| from <= j < block_end_from(lines, from) ==> !is_label(#[trigger] lines[j]),
        block_end_from(lines, from) < lines.len() ==> is_label(lines[block_end_from(lines, from)]),
    decreases lines.len() - from,
{
    if from < lines.len() && !is_label(lines[from]) {
        lemma_block_end(lines, from + 1);
    }
}

/// A block that has a malformed line keeps reporting it however far the
/// block goes on.
pub proof fn lemma_block_error_stays(lines: Seq<Seq<u8>>, from: int, to: int, further: int)
    requires
        to <= further,
        block_codes(lines, from, to) is Err,
    ensures
        block_codes(lines, from, further) == block_codes(lines, from, to),
    decreases further - to,
{
    if to < further {
        lemma_block_error_stays(lines, from, to, further - 1);
    }
}

/// The words of a block are as many as its data lines, and each is the word
/// of its line.
pub proof fn lemma_block_len(lines: Seq<Seq<u8>>, from: int, to: int)
    requires
        from <= to,
        block_codes(lines, from, to) is Ok,
    ensures
        block_codes(lines, from, to)->Ok_0.len() == to - from,
        forall|k: int|
            from <= k < to ==> line_code(#[trigger] lines[k]) == Some(
                block_codes(lines, from, to)->Ok_0[k - from],
            ),
    decreases to - from,
{
    if from < to {
        lemma_block_len(lines, from, to - 1);
        let before = block_codes(lines, from, to - 1)->Ok_0;
        let all = block_codes(lines, from, to)->Ok_0;
        assert(all == before.push(line_code(lines[to - 1])->Some_0));
        assert forall|k: int| from <= k < to implies line_code(#[trigger] lines[k]) == Some(
            all[k - from],
        ) by {
            if k < to - 1 {
                assert(all[k - from] == before[k - from]);
            }
        }
    }
}

/// The blocks from a line on are the blocks from the next label on, and a
/// block's end is a label or the listing's end.
pub proof fn lemma_blocks_start_at_label(lines: Seq<Seq<u8>>, from: int)
    requires
        0 <= from <= lines.len(),
    ensures
        blocks_from(lines, from) == blocks_from(lines, block_end_from(lines, from)),
        block_end_from(lines, block_end_from(lines, from)) == block_end_from(lines, from),
{
    lemma_block_end(lines, from);
    let at = block_end_from(lines, from);
    lemma_block_end(lines, at);
}

/// Where the whole listing scans into blocks, a scan for one symbol from
/// line `from` on gives the words of the first block from there on whose
/// name ends with the target.
pub proof fn lemma_scan_from_picks_block(lines: Seq<Seq<u8>>, target: Seq<u8>, from: int)
    requires
        0 <= from <= lines.len(),
        blocks_from(lines, from) is Ok,
    ensures
        scan_from(lines, target, from) == pick_block(blocks_from(lines, from)->Ok_0, target),
    decreases lines.len() - from,
{
    let at = block_end_from(lines, from);
    let found = target_label_from(lines, target, from);
    lemma_block_end(lines, from);
    lemma_target_label(lines, target, from);
    if at >= lines.len() {
        if found < lines.len() {
            assert(is_label(lines[found]));
        }
    } else {
        let end = block_end_from(lines, at + 1);
        lemma_block_end(lines, at + 1);
        let codes = block_codes(lines, at + 1, end)->Ok_0;
        let rest = blocks_from(lines, end)->Ok_0;
        let blocks = blocks_from(lines, from)->Ok_0;
        assert(blocks == seq![(label_name(lines[at]), codes)] + rest);
        assert(blocks.skip(1) =~= rest);
        assert(blocks[0] == (label_name(lines[at]), codes));
        if found < at {
            assert(is_label(lines[found]));
        }
        if is_target_label(lines[at], target) {
            assert(found == at);
        } else {
            lemma_target_label(lines, target, end);
            let later = target_label_from(lines, target, end);
            if found < end {
                assert(is_label(lines[found]));
            }
            assert(found == later);
            lemma_scan_from_picks_block(lines, target, end);
        }
    }
}

/// A scan for one symbol gives the words of the first block of the listing
/// whose name ends with the target, wherever the whole listing scans into
/// blocks.
pub proof fn lemma_scan_picks_block(lines: Seq<Seq<u8>>, target: Seq<u8>)
    requires
        all_blocks(lines) is Ok,
    ensures
        scan_result(lines, target) == pick_block(all_blocks(lines)->Ok_0, target),
{
    lemma_scan_from_picks_block(lines, target, 0);
}

/// A listing without a label whose name ends with `target` has no such
/// symbol, and only such a listing.
pub proof fn lemma_symbol_not_found(lines: Seq<Seq<u8>>, target: Seq<u8>)
    ensures
        scan_result(lines, target) == Err::<Seq<u32>, ScanError>(ScanError::SymbolNotFound) <==> (
        forall|j: int| 0 <= j < lines.len() ==> !is_target_label(#[trigger] lines[j], target)),
{
    lemma_target_label(lines, target, 0);
    let at = target_label_from(lines, target, 0);
    if at < lines.len() {
        lemma_block_end(lines, at + 1);
        let end = block_end_from(lines, at + 1);
        if block_codes(lines, at + 1, end) is Err {
            lemma_block_first_error(lines, at + 1, end);
        }
    }
}

/// The error of a block names a line of the block.
pub proof fn lemma_block_first_error(lines: Seq<Seq<u8>>, from: int, to: int)
    requires
        block_codes(lines, from, to) is Err,
    ensures
        exists|k: int|
            from <= k < to && line_code(lines[k]) is None && block_codes(lines, from, to) == Err::<
                Seq<u32>,
                ScanError,
            >(ScanError::MalformedLine { line: k as usize }),
    decreases to - from,
{
    if block_codes(lines, from, to - 1) is Err {
        lemma_block_first_error(lines, from, to - 1);
    } else {
        assert(line_code(lines[to - 1]) is None);
    }
}

/// Whether `b` is ASCII white space.
pub fn is_space_byte(b: u8) -> (space: bool)
    ensures
        space == is_space(b),
{
    b == 0x20 || (0x09 <= b && b <= 0x0d)
}

/// Where the first `end` bytes of `line` end once their trailing white space
/// is removed.
fn trim_end_at(line: &[u8], end: usize) -> (cut: usize)
    requires
        end <= line@.len(),
    ensures
        cut <= end,
        line@.take(cut as int) == trim_end(line@.take(end as int)),
{
    let mut cut: usize = end;
    while cut > 0 && is_space_byte(line[cut - 1])
        invariant
            cut <= end,
            end <= line@.len(),
            trim_end(line@.take(cut as int)) == trim_end(line@.take(end as int)),
        decreases cut,
    {
        assert(line@.take(cut as int).drop_last() =~= line@.take(cut - 1));
        cut -= 1;
    }
    cut
}

/// Where the first `end` bytes of `line` end once their trailing colons are
/// removed.
fn strip_colons_at(line: &[u8], end: usize) -> (cut: usize)
    requires
        end <= line@.len(),
    ensures
        cut <= end,
        line@.take(cut as int) == strip_colons(line@.take(end as int)),
{
    let mut cut: usize = end;
    while cut > 0 && line[cut - 1] == 0x3a
        invariant
            cut <= end,
            end <= line@.len(),
            strip_colons(line@.take(cut as int)) == strip_colons(line@.take(end as int)),
        decreases cut,
    {
        assert(line@.take(cut as int).drop_last() =~= line@.take(cut - 1));
        cut -= 1;
    }
    cut
}

/// Where the first `end` bytes of `line` start once their leading white
/// space is removed.
fn trim_start_at(line: &[u8], end: usize) -> (start: usize)
    requires
        end <= line@.len(),
    ensures
        start <= end,
        line@.subrange(start as int, end as int) == trim_start(line@.take(end as int)),
{
    let mut start: usize = 0;
    assert(line@.subrange(0, end as int) =~= line@.take(end as int));
    while start < end && is_space_byte(line[start])
        invariant
            start <= end,
            end <= line@.len(),
            trim_start(line@.subrange(start as int, end as int)) == trim_start(
                line@.take(end as int),
            ),
        decreases end - start,
    {
        assert(line@.subrange(start as int, end as int).skip(1) =~= line@.subrange(
            start + 1,
            end as int,
        ));
        start += 1;
    }
    start
}

/// Whether `line` is a label line.
pub fn is_label_line(line: &[u8]) -> (label: bool)
    ensures
        label == is_label(line@),
{
    assert(line@.take(line@.len() as int) =~= line@);
    let cut: usize = trim_end_at(line, line.len());
    cut > 0 && line[cut - 1] == 0x3a
}

/// Whether `name` ends with the bytes of `suffix`.
pub fn bytes_end_with(name: &[u8], suffix: &[u8]) -> (ends: bool)
    ensures
        ends == ends_with(name@, suffix@),
{
    if suffix.len() > name.len() {
        return false;
    }
    let shift: usize = name.len() - suffix.len();
    let ghost tail = name@.subrange(shift as int, name@.len() as int);
    let mut i: usize = 0;
    while i < suffix.len()
        invariant
            i <= suffix@.len(),
            name@.len() <= usize::MAX,
            shift + suffix@.len() == name@.len(),
            tail == name@.subrange(shift as int, name@.len() as int),
            forall|j: int| 0 <= j < i ==> tail[j] == suffix@[j],
        decreases suffix@.len() - i,
    {
        if name[shift + i] != suffix[i] {
            assert(tail[i as int] != suffix@[i as int]);
            return false;
        }
        i += 1;
    }
    assert(tail =~= suffix@);
    true
}

/// Where the symbol name of a label line starts and ends within the line.
fn label_name_bounds(line: &[u8]) -> (bounds: (usize, usize))
    ensures
        bounds.0 <= bounds.1 <= line@.len(),
        line@.subrange(bounds.0 as int, bounds.1 as int) == label_name(line@),
{
    assert(line@.take(line@.len() as int) =~= line@);
    let trimmed: usize = trim_end_at(line, line.len());
    let bare: usize = strip_colons_at(line, trimmed);
    let end: usize = trim_end_at(line, bare);
    let start: usize = trim_start_at(line, end);
    (start, end)
}

/// The symbol name of a label line.
pub fn label_name_of(line: &[u8]) -> (name: Vec<u8>)
    ensures
        name@ == label_name(line@),
{
    let (start, end) = label_name_bounds(line);
    slice_to_vec(slice_subrange(line, start, end))
}

/// Whether `line` is a label line whose symbol name ends with `target`.
pub fn is_label_for(line: &[u8], target: &[u8]) -> (found: bool)
    ensures
        found == is_target_label(line@, target@),
{
    if !is_label_line(line) {
        return false;
    }
    let (start, end) = label_name_bounds(line);
    bytes_end_with(slice_subrange(line, start, end), target)
}

/// The value of `b` as a hexadecimal digit, if it is one.
fn hex_digit_value(b: u8) -> (value: Option<u32>)
    ensures
        match digit_value(b) {
            Some(v) => value == Some(v as u32) && 0 <= v < 16,
            None => value is None,
        },
{
    if 0x30 <= b && b <= 0x39 {
        Some((b - 0x30) as u32)
    } else if 0x41 <= b && b <= 0x46 {
        Some((b - 0x41 + 10) as u32)
    } else if 0x61 <= b && b <= 0x66 {
        Some((b - 0x61 + 10) as u32)
    } else {
        None
    }
}

/// Reads the instruction word of a data line from its eight columns.
///
/// A line that ends before the last column, or has anything but hexadecimal
/// digits in the eight, has no word.
pub fn parse_code(line: &[u8]) -> (code: Option<u32>)
    ensures
        code == line_code(line@),
{
    reveal(line_code);
    if line.len() < CODE_END {
        return None;
    }
    let d0: u32 = match hex_digit_value(line[11]) {
        Some(d) => d,
        None => { return None; },
    };
    let d1: u32 = match hex_digit_value(line[12]) {
        Some(d) => d,
        None => { return None; },
    };
    let d2: u32 = match hex_digit_value(line[13]) {
        Some(d) => d,
        None => { return None; },
    };
    let d3: u32 = match hex_digit_value(line[14]) {
        Some(d) => d,
        None => { return None; },
    };
    let d4: u32 = match hex_digit_value(line[15]) {
        Some(d) => d,
        None => { return None; },
    };
    let d5: u32 = match hex_digit_value(line[16]) {
        Some(d) => d,
        None => { return None; },
    };
    let d6: u32 = match hex_digit_value(line[17]) {
        Some(d) => d,
        None => { return None; },
    };
    let d7: u32 = match hex_digit_value(line[18]) {
        Some(d) => d,
        None => { return None; },
    };
    assert(has_code(line@));
    Some(
        d0 * 0x1000_0000 + d1 * 0x100_0000 + d2 * 0x10_0000 + d3 * 0x1_0000 + d4 * 0x1000 + d5
            * 0x100 + d6 * 0x10 + d7,
    )
}

/// Where the line of `text` that starts at `from` ends.
fn find_line_end(text: &[u8], from: usize) -> (end: usize)
    requires
        from <= text@.len(),
    ensures
        from <= end <= text@.len(),
        end == line_end(text@, from as int),
{
    let mut end: usize = from;
    while end < text.len() && text[end] != 0x0a
        invariant
            from <= end <= text@.len(),
            line_end(text@, end as int) == line_end(text@, from as int),
        decreases text@.len() - end,
    {
        end += 1;
    }
    end
}

/// Splits `text` into its lines.
pub fn split_lines(text: &[u8]) -> (lines: Vec<Vec<u8>>)
    ensures
        texts(lines@) == lines_of(text@),
{
    let mut lines: Vec<Vec<u8>> = Vec::new();
    let mut pos: usize = 0;
    assert(texts(lines@) + lines_from(text@, 0) =~= lines_of(text@));
    while pos < text.len()
        invariant
            pos <= text@.len(),
            texts(lines@) + lines_from(text@, pos as int) == lines_of(text@),
        decreases text@.len() - pos,
    {
        let end: usize = find_line_end(text, pos);
        let line: Vec<u8> = slice_to_vec(slice_subrange(text, pos, end));
        let ghost before = lines@;
        lines.push(line);
        assert(texts(lines@) =~= texts(before) + seq![text@.subrange(pos as int, end as int)]);
        assert(texts(lines@) + lines_from(text@, end + 1) =~= texts(before) + lines_from(
            text@,
            pos as int,
        ));
        if end == text.len() {
            pos = end;
        } else {
            pos = end + 1;
        }
    }
    assert(texts(lines@) + lines_from(text@, pos as int) =~= texts(lines@));
    lines
}

/// The index of the first label line for `target`, or the number of lines.
fn find_target_label(lines: &[Vec<u8>], target: &[u8]) -> (at: usize)
    ensures
        at == target_label_from(texts(lines@), target@, 0),
        at <= lines@.len(),
{
    let ghost all = texts(lines@);
    let mut at: usize = 0;
    while at < lines.len()
        invariant
            at <= lines@.len(),
            all == texts(lines@),
            target_label_from(all, target@, at as int) == target_label_from(all, target@, 0),
        decreases lines@.len() - at,
    {
        assert(all[at as int] == lines@[at as int]@);
        if is_label_for(lines[at].as_slice(), target) {
            return at;
        }
        at += 1;
    }
    at
}

/// Reads the data lines from index `first` up to the next label line.
fn read_block(lines: &[Vec<u8>], first: usize) -> (result: Result<Vec<u32>, ScanError>)
    requires
        first <= lines@.len(),
    ensures
        gives(
            result,
            block_codes(texts(lines@), first as int, block_end_from(texts(lines@), first as int)),
        ),
{
    let ghost all = texts(lines@);
    let mut codes: Vec<u32> = Vec::new();
    let mut i: usize = first;
    assert(codes@ =~= Seq::<u32>::empty());
    while i < lines.len()
        invariant
            first <= i <= lines@.len(),
            all == texts(lines@),
            block_end_from(all, i as int) == block_end_from(all, first as int),
            block_codes(all, first as int, i as int) == Ok::<Seq<u32>, ScanError>(codes@),
        decreases lines@.len() - i,
    {
        assert(all[i as int] == lines@[i as int]@);
        if is_label_line(lines[i].as_slice()) {
            return Ok(codes);
        }
        match parse_code(lines[i].as_slice()) {
            Some(code) => {
                codes.push(code);
            },
            None => {
                proof {
                    lemma_block_end(all, i + 1);
                    assert(block_codes(all, first as int, i + 1) == Err::<Seq<u32>, ScanError>(
                        ScanError::MalformedLine { line: i },
                    ));
                    lemma_block_error_stays(
                        all,
                        first as int,
                        i + 1,
                        block_end_from(all, first as int),
                    );
                }
                return Err(ScanError::MalformedLine { line: i });
            },
        }
        i += 1;
    }
    Ok(codes)
}

/// Scans the lines of a listing for the instruction words of the first
/// symbol whose name ends with `target`.
///
/// Lines before that symbol's label are passed over unread; the data lines
/// after it are read up to the next label, and the first of them that has no
/// word ends the scan with an error.
pub fn scan_lines(lines: &[Vec<u8>], target: &[u8]) -> (result: Result<Vec<u32>, ScanError>)
    ensures
        gives(result, scan_result(texts(lines@), target@)),
{
    let at: usize = find_target_label(lines, target);
    if at >= lines.len() {
        return Err(ScanError::SymbolNotFound);
    }
    read_block(lines, at + 1)
}

/// The index of the first label line at or after `from`.
fn find_label(lines: &[Vec<u8>], from: usize) -> (at: usize)
    requires
        from <= lines@.len(),
    ensures
        from <= at <= lines@.len(),
        at == block_end_from(texts(lines@), from as int),
{
    let ghost all = texts(lines@);
    let mut at: usize = from;
    while at < lines.len()
        invariant
            from <= at <= lines@.len(),
            all == texts(lines@),
            block_end_from(all, at as int) == block_end_from(all, from as int),
        decreases lines@.len() - at,
    {
        assert(all[at as int] == lines@[at as int]@);
        if is_label_line(lines[at].as_slice()) {
            return at;
        }
        at += 1;
    }
    at
}

/// Scans the lines of a listing into the blocks of all its symbols, in the
/// listing's order, each with its name and its instruction words.
pub fn scan_all(lines: &[Vec<u8>]) -> (result: Result<Vec<(Vec<u8>, Vec<u32>)>, ScanError>)
    ensures
        match all_blocks(texts(lines@)) {
            Ok(blocks) => result is Ok && block_views(result->Ok_0@) == blocks,
            Err(e) => result == Err::<Vec<(Vec<u8>, Vec<u32>)>, ScanError>(e),
        },
{
    let ghost all = texts(lines@);
    let mut blocks: Vec<(Vec<u8>, Vec<u32>)> = Vec::new();
    let mut at: usize = find_label(lines, 0);
    proof {
        lemma_blocks_start_at_label(all, 0);
        let rest = blocks_from(all, at as int);
        if rest is Ok {
            assert(block_views(blocks@) + rest->Ok_0 =~= rest->Ok_0);
        }
    }
    while at < lines.len()
        invariant
            at <= lines@.len(),
            all == texts(lines@),
            at == block_end_from(all, at as int),
            blocks_then(block_views(blocks@), blocks_from(all, at as int)) == all_blocks(all),
        decreases lines@.len() - at,
    {
        assert(all[at as int] == lines@[at as int]@);
        let name: Vec<u8> = label_name_of(lines[at].as_slice());
        let ghost end = block_end_from(all, at + 1);
        proof {
            lemma_block_end(all, at + 1);
            lemma_blocks_start_at_label(all, end);
        }
        match read_block(lines, at + 1) {
            Err(e) => {
                return Err(e);
            },
            Ok(codes) => {
                proof {
                    lemma_block_len(all, at + 1, end);
                }
                let ghost before = block_views(blocks@);
                let ghost block = (name@, codes@);
                let next: usize = at + 1 + codes.len();
                blocks.push((name, codes));
                proof {
                    assert(block_views(blocks@) =~= before + seq![block]);
                    let rest = blocks_from(all, end);
                    if rest is Ok {
                        assert(before + (seq![block] + rest->Ok_0) =~= (before + seq![block])
                            + rest->Ok_0);
                    }
                }
                at = next;
            },
        }
    }
    proof {
        assert(block_views(blocks@) + Seq::<BlockView>::empty() =~= block_views(blocks@));
    }
    Ok(blocks)
}

/// Scans the text of a listing for the instruction words of the first symbol
/// whose name ends with `target`.
pub fn scan_dump(text: &[u8], target: &[u8]) -> (result: Result<Vec<u32>, ScanError>)
    ensures
        gives(result, scan_result(lines_of(text@), target@)),
{
    let lines = split_lines(text);
    scan_lines(lines.as_slice(), target)
}

} // verus!
