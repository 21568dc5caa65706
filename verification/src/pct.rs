//! Percent encoding for the image-beacon channel.
//!
//! The beacon moves one compact message as a query parameter, so its
//! payload is percent-encoded on the page side and decoded back by the
//! collector. The outside crate does both; the contracts here pin each
//! direction exactly, and the round-trip law says decoding undoes encoding.

use vstd::prelude::*;

verus! {

/// The value of an ASCII hexadecimal digit, or `-1`.
pub open spec fn hex_val(b: u8) -> int {
    if 48 <= b && b <= 57 {
        b - 48
    } else if 65 <= b && b <= 70 {
        b - 65 + 10
    } else if 97 <= b && b <= 102 {
        b - 97 + 10
    } else {
        -1
    }
}

/// The uppercase hexadecimal digit of a value below 16.
pub open spec fn hex_upper(v: int) -> u8 {
    if v < 10 {
        (48 + v) as u8
    } else {
        (55 + v) as u8
    }
}

/// A byte that percent encoding leaves as it is: ASCII alphanumerics and
/// `-` `.` `_` `~`.
pub open spec fn is_unreserved(b: u8) -> bool {
    ||| (48 <= b && b <= 57)
    ||| (65 <= b && b <= 90)
    ||| (97 <= b && b <= 122)
    ||| b == 45
    ||| b == 46
    ||| b == 95
    ||| b == 126
}

/// The percent encoding of a byte text: unreserved bytes stand for
/// themselves, every other byte becomes `%` and two uppercase hex digits.
pub open spec fn pct_encode(data: Seq<u8>) -> Seq<u8>
    decreases data.len(),
{
    if data.len() == 0 {
        Seq::empty()
    } else {
        let b = data[0];
        let head = if is_unreserved(b) {
            seq![b]
        } else {
            seq![37u8, hex_upper(b as int / 16), hex_upper(b as int % 16)]
        };
        head + pct_encode(data.drop_first())
    }
}

/// The percent decoding of a byte text: `%` followed by two hex digits
/// becomes one byte; a `%` whose escape is cut short passes through, with
/// one hex digit kept when only the second is bad; everything else stands
/// for itself.
pub open spec fn pct_decode(data: Seq<u8>) -> Seq<u8>
    decreases data.len(),
{
    if data.len() == 0 {
        Seq::empty()
    } else if data[0] != 37 {
        seq![data[0]] + pct_decode(data.drop_first())
    } else if data.len() < 3 {
        data
    } else if hex_val(data[1]) >= 0 && hex_val(data[2]) >= 0 {
        seq![(hex_val(data[1]) * 16 + hex_val(data[2])) as u8] + pct_decode(data.skip(3))
    } else if hex_val(data[1]) >= 0 {
        seq![37u8, data[1]] + pct_decode(data.skip(2))
    } else {
        seq![37u8] + pct_decode(data.skip(1))
    }
}

/// Relies on `urlencoding::decode_binary`: it scans for `%` escapes and
/// replaces each two-hex-digit escape by its byte, passing a cut-short or
/// non-hex escape through exactly as `pct_decode` says.
#[verifier::external_body]
pub fn pct_decode_bytes(data: &[u8]) -> (r: Vec<u8>)
    ensures
        r@ == pct_decode(data@),
{
    urlencoding::decode_binary(data).into_owned()
}

/// Relies on `urlencoding::encode_binary`: it keeps ASCII alphanumerics
/// and `-` `.` `_` `~`, and writes every other byte as `%` with two
/// uppercase hex digits; the result is ASCII.
#[verifier::external_body]
pub fn pct_encode_bytes(data: &[u8]) -> (r: String)
    ensures
        r@.len() == pct_encode(data@).len(),
        forall|i: int| 0 <= i < r@.len() ==> r@[i] == pct_encode(data@)[i] as char,
{
    urlencoding::encode_binary(data).into_owned()
}

/// Percent decoding undoes percent encoding: the beacon collector reads
/// back exactly the bytes the page side encoded.
pub proof fn lemma_pct_round_trip(data: Seq<u8>)
    ensures
        pct_decode(pct_encode(data)) == data,
    decreases data.len(),
{
    if data.len() == 0 {
        assert(pct_decode(pct_encode(data)) =~= data);
    } else {
        let b = data[0];
        let rest = data.drop_first();
        lemma_pct_round_trip(rest);
        if is_unreserved(b) {
            let e = seq![b] + pct_encode(rest);
            assert(pct_encode(data) == e);
            assert(e[0] == b);
            assert(b != 37);
            assert(e.drop_first() =~= pct_encode(rest));
            assert(pct_decode(e) == seq![b] + pct_decode(pct_encode(rest)));
            assert(seq![b] + rest =~= data);
        } else {
            let h1 = hex_upper(b as int / 16);
            let h2 = hex_upper(b as int % 16);
            let e = seq![37u8, h1, h2] + pct_encode(rest);
            assert(pct_encode(data) == e);
            assert(e.len() >= 3);
            assert(e[0] == 37 && e[1] == h1 && e[2] == h2);
            assert(hex_val(h1) == b / 16);
            assert(hex_val(h2) == b % 16);
            assert(hex_val(e[1]) >= 0 && hex_val(e[2]) >= 0);
            assert((hex_val(e[1]) * 16 + hex_val(e[2])) as u8 == b);
            assert(e.skip(3) =~= pct_encode(rest));
            assert(pct_decode(e) == seq![b] + pct_decode(pct_encode(rest)));
            assert(seq![b] + rest =~= data);
        }
    }
}

} // verus!
