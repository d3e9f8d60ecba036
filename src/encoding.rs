use crate::cursor::Cursor;
use crate::scalar::{decoded, DecodeError};
use vstd::prelude::*;

verus! {

/// A character encoding: its code unit, the rule that finds a character at
/// the front of a unit sequence, a reference encoder, and a decoder that
/// follows the rule.
pub trait Encoding {
    /// The code unit that the decoder reads.
    type Unit: Copy;

    /// The character at the front of `s`, with the number of units it
    /// takes, or `None` where the front is not a well-formed character.
    spec fn first(s: Seq<Self::Unit>) -> Option<(char, nat)>;

    /// The units that encode `c`.
    spec fn encode(c: char) -> Seq<Self::Unit>;

    /// The characters that the encoding can represent.
    spec fn can_encode(c: char) -> bool;

    /// The error that the decoder reports.
    spec fn error() -> DecodeError;

    /// A match takes at least one unit, and no more than there are.
    proof fn lemma_first_len(s: Seq<Self::Unit>)
        ensures
            Self::first(s) matches Some((c, n)) ==> 0 < n <= s.len(),
    ;

    /// Decoding the encoding of any character, whatever follows it, gives
    /// back that character and takes exactly its units.
    proof fn lemma_round_trip(c: char, tail: Seq<Self::Unit>)
        requires
            Self::can_encode(c),
        ensures
            Self::first(Self::encode(c) + tail) == Some((c, Self::encode(c).len())),
    ;

    /// Whatever the rule accepts is exactly the encoding of the character it
    /// gives.
    proof fn lemma_only_encodings(s: Seq<Self::Unit>)
        ensures
            Self::first(s) matches Some((c, n)) ==> {
                &&& Self::can_encode(c)
                &&& n == Self::encode(c).len()
                &&& s.take(n as int) == Self::encode(c)
            },
    ;

    /// Decodes one character.
    fn decode(src: &mut Cursor<Self::Unit>) -> (r: Result<char, DecodeError>)
        requires
            old(src).wf(),
        ensures
            decoded(Self::first(old(src).rest()), Self::error(), *old(src), *final(src), r),
    ;
}

/// `s` begins with the encoding of `c`.
pub open spec fn starts_with_encoding<E: Encoding>(s: Seq<E::Unit>, c: char) -> bool {
    &&& E::can_encode(c)
    &&& E::encode(c).len() <= s.len()
    &&& s.take(E::encode(c).len() as int) == E::encode(c)
}

/// The rule finds `c` at the front of `s`, taking the units of its encoding,
/// exactly when `s` begins with the encoding of `c`; and it finds nothing
/// exactly when `s` begins with the encoding of no character.
pub proof fn lemma_first_iff_encoding<E: Encoding>(s: Seq<E::Unit>, c: char)
    ensures
        E::first(s) == Some((c, E::encode(c).len())) <==> starts_with_encoding::<E>(s, c),
        E::first(s) is None <==> forall|d: char| !#[trigger] starts_with_encoding::<E>(s, d),
{
    E::lemma_only_encodings(s);
    E::lemma_first_len(s);
    if starts_with_encoding::<E>(s, c) {
        let n = E::encode(c).len() as int;
        assert(s =~= E::encode(c) + s.skip(n));
        E::lemma_round_trip(c, s.skip(n));
    }
    if E::first(s) is None {
        assert forall|d: char| !#[trigger] starts_with_encoding::<E>(s, d) by {
            if starts_with_encoding::<E>(s, d) {
                let n = E::encode(d).len() as int;
                assert(s =~= E::encode(d) + s.skip(n));
                E::lemma_round_trip(d, s.skip(n));
            }
        }
    } else {
        let (d, n) = E::first(s)->Some_0;
        assert(starts_with_encoding::<E>(s, d));
    }
}

/// The characters decoded one after another from the front of `s` until the
/// first failure, with the number of units they take.
pub open spec fn decode_run<E: Encoding>(s: Seq<E::Unit>) -> (Seq<char>, nat)
    decreases s.len(),
{
    match E::first(s) {
        Some((c, n)) => if 0 < n <= s.len() {
            let (cs, m) = decode_run::<E>(s.skip(n as int));
            (seq![c] + cs, n + m)
        } else {
            (seq![], 0)
        },
        None => (seq![], 0),
    }
}

/// The units that encode the characters `cs`, one after another.
pub open spec fn encode_all<E: Encoding>(cs: Seq<char>) -> Seq<E::Unit>
    decreases cs.len(),
{
    if cs.len() == 0 {
        seq![]
    } else {
        E::encode(cs[0]) + encode_all::<E>(cs.skip(1))
    }
}

/// Decodes characters until the first one that fails, which is left unread
/// together with everything after it.
pub fn decode_string<E: Encoding>(src: &mut Cursor<E::Unit>) -> (out: Vec<char>)
    requires
        old(src).wf(),
    ensures
        final(src).wf(),
        final(src).units() == old(src).units(),
        decode_run::<E>(old(src).rest()) == (out@, (final(src).pos() - old(src).pos()) as nat),
        E::first(final(src).rest()) is None,
{
    let mut out: Vec<char> = Vec::new();
    loop
        invariant
            src.wf(),
            src.units() == old(src).units(),
            old(src).pos() <= src.pos(),
            decode_run::<E>(old(src).rest()) == (
                out@ + decode_run::<E>(src.rest()).0,
                (src.pos() - old(src).pos()) as nat + decode_run::<E>(src.rest()).1,
            ),
        ensures
            src.wf(),
            src.units() == old(src).units(),
            decode_run::<E>(old(src).rest()) == (out@, (src.pos() - old(src).pos()) as nat),
            E::first(src.rest()) is None,
        decreases src.rest().len(),
    {
        let ghost before = *src;
        proof {
            E::lemma_first_len(before.rest());
        }
        match E::decode(src) {
            Ok(c) => {
                let ghost n = (src.pos() - before.pos()) as nat;
                assert(src.rest() =~= before.rest().skip(n as int));
                assert(out@.push(c) + decode_run::<E>(src.rest()).0 =~= out@ + decode_run::<
                    E,
                >(before.rest()).0);
                out.push(c);
            },
            Err(_) => {
                assert(out@ + decode_run::<E>(src.rest()).0 =~= out@);
                break ;
            },
        }
    }
    out
}

/// Decoding the encodings of the characters `cs`, followed by units that do
/// not start a character, gives back exactly `cs` and takes exactly their
/// units, so that the units that failed are the first ones left.
pub proof fn lemma_stops_at_invalid<E: Encoding>(cs: Seq<char>, bad: Seq<E::Unit>)
    requires
        forall|i: int| 0 <= i < cs.len() ==> E::can_encode(#[trigger] cs[i]),
        E::first(bad) is None,
    ensures
        decode_run::<E>(encode_all::<E>(cs) + bad) == (cs, encode_all::<E>(cs).len()),
    decreases cs.len(),
{
    let s = encode_all::<E>(cs) + bad;
    if cs.len() == 0 {
        assert(s =~= bad);
    } else {
        let head = E::encode(cs[0]);
        let rest = encode_all::<E>(cs.skip(1)) + bad;
        assert(s =~= head + rest);
        E::lemma_round_trip(cs[0], rest);
        E::lemma_first_len(s);
        assert(s.skip(head.len() as int) =~= rest);
        lemma_stops_at_invalid::<E>(cs.skip(1), bad);
        assert(seq![cs[0]] + cs.skip(1) =~= cs);
    }
}

} // verus!
