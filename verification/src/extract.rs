//! Reading big-endian instruction words out of a byte range.

use byteorder::{BigEndian, ByteOrder};
use vstd::prelude::*;
use vstd::slice::slice_subrange;

use crate::address::{address_to_offset, offset_of, BASE_ADDRESS};

verus! {

/// The 32-bit word whose big-endian representation is `b0 b1 b2 b3`.
pub open spec fn be_word(b0: u8, b1: u8, b2: u8, b3: u8) -> u32 {
    ((b0 as u32) << 24) | ((b1 as u32) << 16) | ((b2 as u32) << 8) | (b3 as u32)
}

/// Byte `k` (0 is the most significant) of the big-endian representation of
/// `word`.
pub open spec fn be_byte(word: u32, k: int) -> u8 {
    if k == 0 {
        ((word >> 24) & 0xff) as u8
    } else if k == 1 {
        ((word >> 16) & 0xff) as u8
    } else if k == 2 {
        ((word >> 8) & 0xff) as u8
    } else {
        (word & 0xff) as u8
    }
}

/// The instruction words held by `bytes`, four bytes each, in address order.
/// Bytes after the last full word are not part of any word.
pub open spec fn words_of(bytes: Seq<u8>) -> Seq<u32> {
    Seq::new(
        (bytes.len() / 4) as nat,
        |i: int| be_word(bytes[4 * i], bytes[4 * i + 1], bytes[4 * i + 2], bytes[4 * i + 3]),
    )
}

/// The big-endian bytes of `words`, in order.
pub open spec fn bytes_of(words: Seq<u32>) -> Seq<u8> {
    Seq::new(words.len() * 4, |i: int| be_byte(words[i / 4], i % 4))
}

/// Why a byte range holds no instruction sequence.
#[derive(Debug, Clone, Copy, PartialEq, Eq, Structural)]
pub enum ExtractError {
    /// The range's length is not a multiple of four.
    PartialWord { len: usize },
    /// An address of the range lies below the image's load address.
    BelowBase { address: usize },
    /// The range ends before it starts.
    Reversed,
    /// The range ends after the image does.
    OutsideImage { end_offset: usize },
}

/// `byteorder::BigEndian::read_u32`: the first four bytes of `buf` read as a
/// big-endian unsigned integer. It panics on a shorter buffer.
#[verifier::external_body]
fn read_be_u32(buf: &[u8]) -> (word: u32)
    requires
        buf@.len() >= 4,
    ensures
        word == be_word(buf@[0], buf@[1], buf@[2], buf@[3]),
{
    BigEndian::read_u32(buf)
}

/// Reads `bytes` as consecutive big-endian instruction words.
///
/// A length that is not a multiple of four is reported, never truncated.
pub fn extract(bytes: &[u8]) -> (result: Result<Vec<u32>, ExtractError>)
    ensures
        bytes@.len() % 4 == 0 ==> result is Ok && result->Ok_0@ == words_of(bytes@),
        bytes@.len() % 4 != 0 ==> result == Err::<Vec<u32>, ExtractError>(
            ExtractError::PartialWord { len: bytes.len() },
        ),
{
    if bytes.len() % 4 != 0 {
        return Err(ExtractError::PartialWord { len: bytes.len() });
    }
    let mut words: Vec<u32> = Vec::new();
    let mut offs: usize = 0;
    while offs < bytes.len()
        invariant
            bytes@.len() % 4 == 0,
            offs % 4 == 0,
            offs <= bytes@.len(),
            words@.len() == offs / 4,
            forall|i: int| 0 <= i < words@.len() ==> words@[i] == words_of(bytes@)[i],
        decreases bytes@.len() - offs,
    {
        let chunk = slice_subrange(bytes, offs, offs + 4);
        let word = read_be_u32(chunk);
        words.push(word);
        offs += 4;
    }
    assert(words@ =~= words_of(bytes@));
    Ok(words)
}

/// Writes `words` out as big-endian bytes, four per word.
pub fn encode(words: &[u32]) -> (bytes: Vec<u8>)
    ensures
        bytes@ == bytes_of(words@),
{
    let mut bytes: Vec<u8> = Vec::new();
    let mut i: usize = 0;
    while i < words.len()
        invariant
            i <= words@.len(),
            bytes@.len() == 4 * i,
            forall|k: int| 0 <= k < bytes@.len() ==> bytes@[k] == bytes_of(words@)[k],
        decreases words@.len() - i,
    {
        let w: u32 = words[i];
        let b0: u32 = (w >> 24) & 0xff;
        let b1: u32 = (w >> 16) & 0xff;
        let b2: u32 = (w >> 8) & 0xff;
        let b3: u32 = w & 0xff;
        assert(b0 < 256 && b1 < 256 && b2 < 256 && b3 < 256) by (bit_vector)
            requires
                b0 == (w >> 24) & 0xff,
                b1 == (w >> 16) & 0xff,
                b2 == (w >> 8) & 0xff,
                b3 == w & 0xff,
        ;
        bytes.push(b0 as u8);
        bytes.push(b1 as u8);
        bytes.push(b2 as u8);
        bytes.push(b3 as u8);
        i += 1;
    }
    assert(bytes@ =~= bytes_of(words@));
    bytes
}

/// Splitting a word into its big-endian bytes and reading them back gives the
/// word, and the other way round.
pub proof fn lemma_word_round_trip(b0: u8, b1: u8, b2: u8, b3: u8)
    ensures
        be_byte(be_word(b0, b1, b2, b3), 0) == b0,
        be_byte(be_word(b0, b1, b2, b3), 1) == b1,
        be_byte(be_word(b0, b1, b2, b3), 2) == b2,
        be_byte(be_word(b0, b1, b2, b3), 3) == b3,
{
    let w = be_word(b0, b1, b2, b3);
    assert(((w >> 24) & 0xff) == b0 as u32 && ((w >> 16) & 0xff) == b1 as u32 && ((w >> 8) & 0xff)
        == b2 as u32 && (w & 0xff) == b3 as u32) by (bit_vector)
        requires
            w == ((b0 as u32) << 24) | ((b1 as u32) << 16) | ((b2 as u32) << 8) | (b3 as u32),
    ;
}

/// Extracting the words of a byte range made of whole words and encoding
/// them again reproduces the bytes.
pub proof fn lemma_extract_round_trip(bytes: Seq<u8>)
    requires
        bytes.len() % 4 == 0,
    ensures
        bytes_of(words_of(bytes)) == bytes,
{
    let back = bytes_of(words_of(bytes));
    assert(back.len() == bytes.len());
    assert forall|i: int| 0 <= i < bytes.len() implies back[i] == bytes[i] by {
        let q = i / 4;
        lemma_word_round_trip(bytes[4 * q], bytes[4 * q + 1], bytes[4 * q + 2], bytes[4 * q + 3]);
    }
    assert(back =~= bytes);
}

/// A named function of the reference image with its address range.
#[derive(Debug, Clone)]
pub struct Symbol {
    pub name: String,
    pub start_address: usize,
    pub end_address: usize,
}

impl Symbol {
    /// A symbol's range is non-empty and both of its ends are word-aligned.
    pub open spec fn well_formed(&self) -> bool {
        &&& self.start_address < self.end_address
        &&& self.start_address % 4 == 0
        &&& self.end_address % 4 == 0
    }

    /// A symbol of the given name and range, if the range is non-empty and
    /// word-aligned.
    pub fn new(name: String, start_address: usize, end_address: usize) -> (symbol: Option<Symbol>)
        ensures
            symbol is Some <==> start_address < end_address && start_address % 4 == 0
                && end_address % 4 == 0,
            symbol is Some ==> symbol->Some_0.well_formed() && symbol->Some_0.name == name
                && symbol->Some_0.start_address == start_address && symbol->Some_0.end_address
                == end_address,
    {
        if start_address < end_address && start_address % 4 == 0 && end_address % 4 == 0 {
            Some(Symbol { name, start_address, end_address })
        } else {
            None
        }
    }

    /// Whether the range is non-empty and word-aligned.
    pub fn is_well_formed(&self) -> (ok: bool)
        ensures
            ok == self.well_formed(),
    {
        self.start_address < self.end_address && self.start_address % 4 == 0 && self.end_address
            % 4 == 0
    }
}

/// The error, if any, with which the address range `start..end` is refused
/// for an image of `image_len` bytes.
pub open spec fn range_error(image_len: int, start: usize, end: usize) -> Option<ExtractError> {
    if start < BASE_ADDRESS {
        Some(ExtractError::BelowBase { address: start })
    } else if end < BASE_ADDRESS {
        Some(ExtractError::BelowBase { address: end })
    } else if end < start {
        Some(ExtractError::Reversed)
    } else if offset_of(end as int) > image_len {
        Some(ExtractError::OutsideImage { end_offset: offset_of(end as int) as usize })
    } else if (end - start) % 4 != 0 {
        Some(ExtractError::PartialWord { len: (end - start) as usize })
    } else {
        None
    }
}

/// The instruction words that `image` holds for the address range
/// `start..end`.
pub open spec fn range_words(image: Seq<u8>, start: usize, end: usize) -> Seq<u32> {
    words_of(image.subrange(offset_of(start as int), offset_of(end as int)))
}

/// Reads from `image` the instruction sequence of the address range
/// `start_address..end_address`.
///
/// The range is checked against the load address and the image's length
/// before any byte is read.
pub fn reference_codes(image: &[u8], start_address: usize, end_address: usize) -> (result: Result<
    Vec<u32>,
    ExtractError,
>)
    ensures
        match range_error(image@.len() as int, start_address, end_address) {
            Some(e) => result == Err::<Vec<u32>, ExtractError>(e),
            None => result is Ok && result->Ok_0@ == range_words(image@, start_address, end_address)
                && result->Ok_0@.len() == (end_address - start_address) / 4,
        },
{
    if start_address < BASE_ADDRESS {
        return Err(ExtractError::BelowBase { address: start_address });
    }
    if end_address < BASE_ADDRESS {
        return Err(ExtractError::BelowBase { address: end_address });
    }
    if end_address < start_address {
        return Err(ExtractError::Reversed);
    }
    let start: usize = address_to_offset(start_address);
    let end: usize = address_to_offset(end_address);
    if end > image.len() {
        return Err(ExtractError::OutsideImage { end_offset: end });
    }
    let bytes = slice_subrange(image, start, end);
    extract(bytes)
}

} // verus!
