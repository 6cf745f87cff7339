//! Function-level matching of rebuilt PowerPC machine code against a
//! reference image.
//!
//! The reference instruction words of a symbol are read from the image, the
//! rebuilt ones from the text listing of an object dump, and the two
//! sequences are compared position by position. Instructions whose encodings
//! carry link-time addresses are treated as equal when their mnemonics fall
//! in the same address-sensitive family.

pub mod address;
pub mod classify;
pub mod compare;
pub mod dump;
pub mod extract;
pub mod matching;
