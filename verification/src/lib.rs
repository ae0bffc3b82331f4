//! An owned UTF-16 text buffer paired with the dual byte-length descriptor
//! fields (logical length and physical capacity) that low-level host text
//! APIs expect, together with the invariant maintenance, null-termination
//! protocol, conversion, concatenation, equality and display operations
//! that keep the descriptor consistent with the buffer's real contents.

pub mod owned;
pub mod utf16;

pub use owned::OwnedUnicodeString;
