//! URL percent-encoding and -decoding of byte strings, with exact
//! specifications.  The encoding keeps ASCII alphanumerics and `-`, `_`,
//! `.`, `~` and escapes every other byte as `%XX` with uppercase hex
//! digits; the decoding replaces each well-formed `%XX` escape with its
//! byte and keeps malformed escapes literally.

use vstd::prelude::*;

verus! {

/// A byte the encoding leaves as it stands: ASCII alphanumerics and
/// `-`, `.`, `_`, `~`.
pub open spec fn is_unreserved(b: u8) -> bool {
    (0x30 <= b <= 0x39) || (0x41 <= b <= 0x5a) || (0x61 <= b <= 0x7a) || b == 0x2d || b == 0x2e
        || b == 0x5f || b == 0x7e
}

/// The uppercase hex digit for a value below 16.
pub open spec fn upper_hex(n: u8) -> u8 {
    if n < 10 {
        (0x30 + n) as u8
    } else {
        (0x41 + (n - 10)) as u8
    }
}

/// The percent-encoding of a byte string.
pub open spec fn percent_encoding(s: Seq<u8>) -> Seq<u8>
    decreases s.len(),
{
    if s.len() == 0 {
        seq![]
    } else {
        (if is_unreserved(s[0]) {
            seq![s[0]]
        } else {
            seq![0x25u8, upper_hex(s[0] / 16), upper_hex(s[0] % 16)]
        }) + percent_encoding(s.drop_first())
    }
}

/// A byte that counts as a hex digit in an escape: `0-9`, `A-F`, `a-f`.
pub open spec fn is_hex_digit(b: u8) -> bool {
    (0x30 <= b <= 0x39) || (0x41 <= b <= 0x46) || (0x61 <= b <= 0x66)
}

/// The value of a hex digit byte.
pub open spec fn hex_val(b: u8) -> u8 {
    if 0x30 <= b <= 0x39 {
        (b - 0x30) as u8
    } else if 0x41 <= b <= 0x46 {
        (b - 0x41 + 10) as u8
    } else {
        (b - 0x61 + 10) as u8
    }
}

/// The percent-decoding of a byte string.  A `%` followed by two hex digits
/// becomes the denoted byte.  A `%` followed by one hex digit and a non-hex
/// byte keeps the `%` and the hex digit and decoding resumes at the non-hex
/// byte; a `%` followed by a non-hex byte keeps only the `%` and resumes at
/// that byte; a `%` with fewer than two bytes after it stays as it stands.
pub open spec fn percent_decoding(s: Seq<u8>) -> Seq<u8>
    decreases s.len(),
{
    if s.len() == 0 {
        seq![]
    } else if s[0] != 0x25 {
        seq![s[0]] + percent_decoding(s.drop_first())
    } else if s.len() < 3 {
        s
    } else if is_hex_digit(s[1]) && is_hex_digit(s[2]) {
        seq![(hex_val(s[1]) * 16 + hex_val(s[2])) as u8] + percent_decoding(s.skip(3))
    } else if is_hex_digit(s[1]) {
        seq![0x25u8, s[1]] + percent_decoding(s.skip(2))
    } else {
        seq![0x25u8] + percent_decoding(s.skip(1))
    }
}

/// Law: decoding undoes encoding, for every byte string.
pub proof fn lemma_percent_roundtrip(s: Seq<u8>)
    ensures
        percent_decoding(percent_encoding(s)) == s,
    decreases s.len(),
{
    if s.len() > 0 {
        let b = s[0];
        let rest = s.drop_first();
        lemma_percent_roundtrip(rest);
        let e = percent_encoding(s);
        if is_unreserved(b) {
            assert(e =~= seq![b] + percent_encoding(rest));
            assert(e[0] == b);
            assert(e.drop_first() =~= percent_encoding(rest));
            assert(percent_decoding(e) =~= s);
        } else {
            let h1 = upper_hex(b / 16);
            let h0 = upper_hex(b % 16);
            assert(e =~= seq![0x25u8, h1, h0] + percent_encoding(rest));
            assert(e[0] == 0x25 && e[1] == h1 && e[2] == h0);
            assert(is_hex_digit(h1) && is_hex_digit(h0));
            assert(hex_val(h1) == b / 16 && hex_val(h0) == b % 16);
            assert((hex_val(h1) * 16 + hex_val(h0)) as u8 == b);
            assert(e.skip(3) =~= percent_encoding(rest));
            assert(percent_decoding(e) =~= s);
        }
    }
}

/// Relies on `urlencoding::encode_binary`: it percent-encodes every byte
/// except ASCII alphanumerics and `-`, `_`, `.`, `~`, writing escapes with
/// uppercase hex digits.
#[verifier::external_body]
pub fn percent_encode_bytes(data: &Vec<u8>) -> (r: Vec<u8>)
    ensures
        r@ == percent_encoding(data@),
{
    urlencoding::encode_binary(data.as_slice()).into_owned().into_bytes()
}

/// Relies on `urlencoding::decode_binary`: it replaces each `%` followed by
/// two hex digits with the denoted byte and keeps malformed escapes as they
/// stand, resuming after the escape's longest well-formed prefix.
#[verifier::external_body]
pub fn percent_decode_bytes(data: &Vec<u8>) -> (r: Vec<u8>)
    ensures
        r@ == percent_decoding(data@),
{
    urlencoding::decode_binary(data.as_slice()).into_owned()
}

} // verus!
