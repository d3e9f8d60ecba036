//! Decoders that turn streams of code units (ASCII, UTF-8, UTF-16 and UTF-32,
//! native or byte-assembled in either byte order) into Unicode scalar values.
//!
//! Each character decoder reads from a [`Cursor`], consumes exactly the units
//! of one encoded character on success and leaves the cursor where it was on
//! failure. [`decode_string`] repeats a decoder until the first failure.

mod ascii;
mod cursor;
mod encoding;
mod scalar;
mod utf16;
mod utf32;
mod utf8;

pub use ascii::{ascii, ascii_first, lemma_ascii_rejects_high_bytes, Ascii};
pub use cursor::Cursor;
pub use encoding::{
    decode_run, decode_string, encode_all, lemma_first_iff_encoding, lemma_stops_at_invalid,
    starts_with_encoding, Encoding,
};
pub use scalar::{decoded, is_scalar, DecodeError};
pub use utf16::{
    lemma_utf16_rejects_lone_surrogates, utf16, utf16_encode, utf16_first, utf16be, utf16be_first,
    utf16le, utf16le_first, Utf16, Utf16Be, Utf16Le,
};
pub use utf32::{
    lemma_utf32_rejects_non_scalars, utf32, utf32_be, utf32_be_first, utf32_first, utf32_le,
    utf32_le_first, Utf32, Utf32Be, Utf32Le,
};
pub use utf8::{
    lemma_continuation_range, lemma_utf8_rejects_malformed, utf8, utf8_encode, utf8_first, Utf8,
};
