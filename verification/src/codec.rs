//! Percent-encoding of query parameter values.
//!
//! Every byte of the UTF-8 encoding of a value that is not an ASCII letter or
//! digit is written as `%XX` with two upper-case hexadecimal digits; letters
//! and digits pass through unchanged.  Decoding turns every `%` that is
//! followed by two hexadecimal digits back into a byte and leaves every other
//! byte as it stands, then reads the bytes as UTF-8.

use vstd::prelude::*;
use vstd::utf8::*;

verus! {

/// True for bytes that stay unescaped: ASCII letters and digits
/// (`0`-`9`, `A`-`Z`, `a`-`z`).
pub open spec fn spec_is_alphanumeric_byte(b: u8) -> bool {
    (0x30 <= b && b <= 0x39) || (0x41 <= b && b <= 0x5a) || (0x61 <= b && b <= 0x7a)
}

/// True for bytes that are ASCII hexadecimal digits, in either case.
pub open spec fn spec_is_hex_digit_byte(b: u8) -> bool {
    (0x30 <= b && b <= 0x39) || (0x41 <= b && b <= 0x46) || (0x61 <= b && b <= 0x66)
}

/// Numeric value of an ASCII hexadecimal digit byte.
pub open spec fn spec_hex_value(b: u8) -> u8
    recommends
        spec_is_hex_digit_byte(b),
{
    if 0x30 <= b && b <= 0x39 {
        (b - 0x30) as u8
    } else if 0x41 <= b && b <= 0x46 {
        (b - 0x41 + 10) as u8
    } else {
        (b - 0x61 + 10) as u8
    }
}

/// The upper-case hexadecimal digit byte for a value below 16.
pub open spec fn spec_hex_digit(v: u8) -> u8
    recommends
        v < 16,
{
    if v < 10 {
        (0x30 + v) as u8
    } else {
        (0x41 + (v - 10)) as u8
    }
}

/// The three bytes `%XX` that escape one byte.
pub open spec fn spec_escape_byte(b: u8) -> Seq<u8> {
    seq![0x25u8, spec_hex_digit(b / 16), spec_hex_digit(b % 16)]
}

/// The percent-encoding of a byte sequence: letters and digits stand
/// unchanged, every other byte becomes `%XX`.
pub open spec fn spec_pct_encode(bs: Seq<u8>) -> Seq<u8>
    decreases bs.len(),
{
    if bs.len() == 0 {
        Seq::<u8>::empty()
    } else {
        let head = if spec_is_alphanumeric_byte(bs[0]) {
            seq![bs[0]]
        } else {
            spec_escape_byte(bs[0])
        };
        head + spec_pct_encode(bs.drop_first())
    }
}

/// The percent-decoding of a byte sequence: a `%` followed by two hexadecimal
/// digits yields the byte they spell; any other byte, a lone `%` included,
/// passes through unchanged.
pub open spec fn spec_pct_decode(bs: Seq<u8>) -> Seq<u8>
    decreases bs.len(),
{
    if bs.len() == 0 {
        Seq::<u8>::empty()
    } else if bs[0] == 0x25 && bs.len() >= 3 && spec_is_hex_digit_byte(bs[1])
        && spec_is_hex_digit_byte(bs[2]) {
        seq![(spec_hex_value(bs[1]) * 16 + spec_hex_value(bs[2])) as u8] + spec_pct_decode(
            bs.skip(3),
        )
    } else {
        seq![bs[0]] + spec_pct_decode(bs.skip(1))
    }
}

/// Upper-case hexadecimal digit byte for a value below 16.
fn hex_digit(v: u8) -> (c: u8)
    requires
        v < 16,
    ensures
        c == spec_hex_digit(v),
{
    if v < 10 {
        0x30 + v
    } else {
        0x41 + (v - 10)
    }
}

/// Whether a byte is an ASCII letter or digit.
fn is_alphanumeric_byte(b: u8) -> (r: bool)
    ensures
        r == spec_is_alphanumeric_byte(b),
{
    (0x30 <= b && b <= 0x39) || (0x41 <= b && b <= 0x5a) || (0x61 <= b && b <= 0x7a)
}

/// Whether a byte is an ASCII hexadecimal digit.
fn is_hex_digit_byte(b: u8) -> (r: bool)
    ensures
        r == spec_is_hex_digit_byte(b),
{
    (0x30 <= b && b <= 0x39) || (0x41 <= b && b <= 0x46) || (0x61 <= b && b <= 0x66)
}

/// Numeric value of an ASCII hexadecimal digit byte.
fn hex_value(b: u8) -> (v: u8)
    requires
        spec_is_hex_digit_byte(b),
    ensures
        v == spec_hex_value(b),
{
    if 0x30 <= b && b <= 0x39 {
        b - 0x30
    } else if 0x41 <= b && b <= 0x46 {
        b - 0x41 + 10
    } else {
        b - 0x61 + 10
    }
}

/// Every byte of a percent-encoded sequence is a letter, a digit or `%`.
pub proof fn lemma_pct_encode_bytes_are_plain(bs: Seq<u8>)
    ensures
        forall|j: int|
            0 <= j < spec_pct_encode(bs).len() ==> spec_is_alphanumeric_byte(
                #[trigger] spec_pct_encode(bs)[j],
            ) || spec_pct_encode(bs)[j] == 0x25,
    decreases bs.len(),
{
    if bs.len() > 0 {
        lemma_pct_encode_bytes_are_plain(bs.drop_first());
        let enc = spec_pct_encode(bs);
        let rest = spec_pct_encode(bs.drop_first());
        if spec_is_alphanumeric_byte(bs[0]) {
            assert(enc == seq![bs[0]] + rest);
            assert forall|j: int| 0 <= j < enc.len() implies spec_is_alphanumeric_byte(
                #[trigger] enc[j],
            ) || enc[j] == 0x25 by {
                if j > 0 {
                    assert(enc[j] == rest[j - 1]);
                }
            }
        } else {
            assert(enc == spec_escape_byte(bs[0]) + rest);
            assert forall|j: int| 0 <= j < enc.len() implies spec_is_alphanumeric_byte(
                #[trigger] enc[j],
            ) || enc[j] == 0x25 by {
                if j < 3 {
                    assert(enc[j] == spec_escape_byte(bs[0])[j]);
                } else {
                    assert(enc[j] == rest[j - 3]);
                }
            }
        }
    }
}

/// Percent-encoded bytes are ASCII: every byte is below 0x80.
pub proof fn lemma_pct_encode_ascii(bs: Seq<u8>)
    ensures
        forall|j: int| 0 <= j < spec_pct_encode(bs).len() ==> #[trigger] spec_pct_encode(bs)[j]
            < 0x80,
{
    lemma_pct_encode_bytes_are_plain(bs);
}

/// A sequence whose bytes all lie below 0x80 is valid UTF-8.
pub proof fn lemma_ascii_valid_utf8(bs: Seq<u8>)
    requires
        forall|j: int| 0 <= j < bs.len() ==> #[trigger] bs[j] < 0x80,
    ensures
        valid_utf8(bs),
    decreases bs.len(),
{
    if bs.len() > 0 {
        assert(is_leading_byte_width_1(bs[0]));
        assert(length_of_first_scalar(bs) == 1);
        assert(pop_first_scalar(bs) =~= bs.drop_first());
        lemma_ascii_valid_utf8(bs.drop_first());
    }
}

/// Decoding undoes encoding: percent-decoding a percent-encoded sequence
/// yields the original bytes.
pub proof fn lemma_pct_decode_of_encode(bs: Seq<u8>)
    ensures
        spec_pct_decode(spec_pct_encode(bs)) == bs,
    decreases bs.len(),
{
    if bs.len() == 0 {
        assert(spec_pct_decode(spec_pct_encode(bs)) =~= bs);
    } else {
        let b = bs[0];
        let enc = spec_pct_encode(bs);
        let rest = spec_pct_encode(bs.drop_first());
        lemma_pct_decode_of_encode(bs.drop_first());
        if spec_is_alphanumeric_byte(b) {
            assert(enc == seq![b] + rest);
            assert(enc[0] == b);
            // A letter or digit is never `%`, so decoding passes it through.
            assert(!(enc[0] == 0x25 && enc.len() >= 3 && spec_is_hex_digit_byte(enc[1])
                && spec_is_hex_digit_byte(enc[2])));
            assert(enc.skip(1) =~= rest);
            assert(spec_pct_decode(enc) =~= seq![b] + bs.drop_first());
            assert(spec_pct_decode(enc) =~= bs);
        } else {
            let hi = spec_hex_digit(b / 16);
            let lo = spec_hex_digit(b % 16);
            assert(enc == seq![0x25u8, hi, lo] + rest);
            assert(enc[0] == 0x25 && enc[1] == hi && enc[2] == lo);
            assert(spec_is_hex_digit_byte(hi) && spec_hex_value(hi) == b / 16);
            assert(spec_is_hex_digit_byte(lo) && spec_hex_value(lo) == b % 16);
            assert(spec_hex_value(hi) * 16 + spec_hex_value(lo) == b);
            assert(enc.skip(3) =~= rest);
            assert(spec_pct_decode(enc) =~= seq![b] + bs.drop_first());
            assert(spec_pct_decode(enc) =~= bs);
        }
    }
}

/// Relies on `String::from_utf8` of std: it returns `Ok` exactly when the
/// bytes are valid UTF-8, and the string it then returns holds exactly the
/// given bytes, so its characters are their UTF-8 decoding.
#[verifier::external_body]
pub(crate) fn bytes_to_string(bytes: Vec<u8>) -> (r: Option<String>)
    ensures
        r is Some <==> valid_utf8(bytes@),
        r matches Some(s) ==> s@ == decode_utf8(bytes@),
{
    String::from_utf8(bytes).ok()
}

/// Percent-encode a byte slice.
fn pct_encode_bytes(bs: &[u8]) -> (r: Vec<u8>)
    ensures
        r@ == spec_pct_encode(bs@),
{
    let mut out: Vec<u8> = Vec::new();
    let mut i: usize = 0;
    proof {
        assert(bs@.skip(0) =~= bs@);
    }
    while i < bs.len()
        invariant
            i <= bs@.len(),
            out@ + spec_pct_encode(bs@.skip(i as int)) == spec_pct_encode(bs@),
        decreases bs@.len() - i,
    {
        let b = bs[i];
        proof {
            assert(bs@.skip(i as int)[0] == b);
            assert(bs@.skip(i as int).drop_first() =~= bs@.skip(i + 1));
        }
        if is_alphanumeric_byte(b) {
            out.push(b);
            proof {
                assert(out@ + spec_pct_encode(bs@.skip(i + 1)) =~= spec_pct_encode(bs@));
            }
        } else {
            out.push(0x25);
            out.push(hex_digit(b / 16));
            out.push(hex_digit(b % 16));
            proof {
                assert(out@ + spec_pct_encode(bs@.skip(i + 1)) =~= spec_pct_encode(bs@));
            }
        }
        i = i + 1;
    }
    proof {
        assert(bs@.skip(i as int) =~= Seq::<u8>::empty());
        assert(out@ =~= spec_pct_encode(bs@));
    }
    out
}

/// Percent-decode a byte slice.
pub(crate) fn pct_decode_bytes(bs: &[u8]) -> (r: Vec<u8>)
    ensures
        r@ == spec_pct_decode(bs@),
{
    let mut out: Vec<u8> = Vec::new();
    let mut i: usize = 0;
    proof {
        assert(bs@.skip(0) =~= bs@);
    }
    while i < bs.len()
        invariant
            i <= bs@.len(),
            out@ + spec_pct_decode(bs@.skip(i as int)) == spec_pct_decode(bs@),
        decreases bs@.len() - i,
    {
        let b = bs[i];
        proof {
            assert(bs@.skip(i as int)[0] == b);
        }
        if b == 0x25 && bs.len() - i > 2 && is_hex_digit_byte(bs[i + 1]) && is_hex_digit_byte(
            bs[i + 2],
        ) {
            proof {
                assert(bs@.skip(i as int)[1] == bs@[i + 1]);
                assert(bs@.skip(i as int)[2] == bs@[i + 2]);
                assert(bs@.skip(i as int).skip(3) =~= bs@.skip(i + 3));
            }
            out.push(hex_value(bs[i + 1]) * 16 + hex_value(bs[i + 2]));
            proof {
                assert(out@ + spec_pct_decode(bs@.skip(i + 3)) =~= spec_pct_decode(bs@));
            }
            i = i + 3;
        } else {
            proof {
                assert(bs@.skip(i as int).skip(1) =~= bs@.skip(i + 1));
            }
            out.push(b);
            proof {
                assert(out@ + spec_pct_decode(bs@.skip(i + 1)) =~= spec_pct_decode(bs@));
            }
            i = i + 1;
        }
    }
    proof {
        assert(bs@.skip(i as int) =~= Seq::<u8>::empty());
        assert(out@ =~= spec_pct_decode(bs@));
    }
    out
}

/// Percent-encode a string: the UTF-8 bytes of the result are exactly the
/// percent-encoding of the UTF-8 bytes of the input.
pub fn encode_component(s: &str) -> (r: String)
    ensures
        encode_utf8(r@) == spec_pct_encode(encode_utf8(s@)),
{
    let bs = s.as_bytes();
    let out = pct_encode_bytes(bs);
    proof {
        lemma_pct_encode_ascii(bs@);
        lemma_ascii_valid_utf8(out@);
    }
    let r = bytes_to_string(out);
    proof {
        broadcast use vstd::utf8::decode_utf8_encode_utf8;

    }
    r.unwrap()
}

/// Percent-decode a string, reading the decoded bytes as UTF-8.  Returns
/// `None` exactly when those bytes are not valid UTF-8.
pub fn decode_component(s: &str) -> (r: Option<String>)
    ensures
        r is Some <==> valid_utf8(spec_pct_decode(encode_utf8(s@))),
        r matches Some(t) ==> t@ == decode_utf8(spec_pct_decode(encode_utf8(s@))),
{
    let bs = s.as_bytes();
    let out = pct_decode_bytes(bs);
    bytes_to_string(out)
}

/// Encoding then decoding gives the original value back: the decoded bytes
/// of the encoded form are the UTF-8 bytes of the input, so reading them as
/// UTF-8 yields the input exactly.
pub proof fn lemma_component_round_trip(s: Seq<char>)
    ensures
        spec_pct_decode(spec_pct_encode(encode_utf8(s))) == encode_utf8(s),
        valid_utf8(spec_pct_decode(spec_pct_encode(encode_utf8(s)))),
        decode_utf8(spec_pct_decode(spec_pct_encode(encode_utf8(s)))) == s,
{
    lemma_pct_decode_of_encode(encode_utf8(s));
    broadcast use vstd::utf8::encode_utf8_valid_utf8;
    broadcast use vstd::utf8::encode_utf8_decode_utf8;

}

} // verus!
