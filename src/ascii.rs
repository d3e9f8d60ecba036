use crate::cursor::Cursor;
use crate::encoding::Encoding;
use crate::scalar::{decoded, scalar_char, DecodeError};
use vstd::prelude::*;

verus! {

/// The character that ASCII finds at the front of `s`: a byte of at most 0x7F.
pub open spec fn ascii_first(s: Seq<u8>) -> Option<(char, nat)> {
    if s.len() > 0 && s[0] <= 0x7F {
        Some((s[0] as u32 as char, 1))
    } else {
        None
    }
}

/// A byte of 0x80 or more is rejected.
pub proof fn lemma_ascii_rejects_high_bytes(s: Seq<u8>)
    ensures
        s.len() > 0 && s[0] >= 0x80 ==> ascii_first(s) is None,
{
}

/// Decodes one ASCII character.
pub fn ascii(src: &mut Cursor<u8>) -> (r: Result<char, DecodeError>)
    requires
        old(src).wf(),
    ensures
        decoded(ascii_first(old(src).rest()), DecodeError::Ascii, *old(src), *final(src), r),
{
    match src.peek(0) {
        Some(b) => if b <= 0x7F {
            src.advance(1);
            Ok(scalar_char(b as u32))
        } else {
            Err(DecodeError::Ascii)
        },
        None => Err(DecodeError::Ascii),
    }
}

/// ASCII: one byte of at most 0x7F per character.
pub struct Ascii;

impl Encoding for Ascii {
    type Unit = u8;

    open spec fn first(s: Seq<u8>) -> Option<(char, nat)> {
        ascii_first(s)
    }

    open spec fn encode(c: char) -> Seq<u8> {
        seq![c as u32 as u8]
    }

    open spec fn can_encode(c: char) -> bool {
        c as u32 <= 0x7F
    }

    open spec fn error() -> DecodeError {
        DecodeError::Ascii
    }

    proof fn lemma_first_len(s: Seq<u8>) {
    }

    proof fn lemma_round_trip(c: char, tail: Seq<u8>) {
        let b = c as u32 as u8;
        assert((seq![b] + tail)[0] == b);
        vstd::utf8::char_u32_cast(c, b as u32);
    }

    proof fn lemma_only_encodings(s: Seq<u8>) {
        if s.len() > 0 && s[0] <= 0x7F {
            assert(s.take(1) =~= seq![s[0]]);
        }
    }

    fn decode(src: &mut Cursor<u8>) -> (r: Result<char, DecodeError>) {
        ascii(src)
    }
}

} // verus!
