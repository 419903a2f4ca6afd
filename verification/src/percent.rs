//! Percent-decoding of query text, and the encoding it undoes.

use vstd::prelude::*;
use vstd::utf8::*;

verus! {

/// The value of an ASCII hexadecimal digit, in either case; `None` for any
/// other byte.
pub open spec fn hex_value(b: u8) -> Option<u8> {
    if 0x30 <= b <= 0x39 {
        Some((b - 0x30) as u8)
    } else if 0x41 <= b <= 0x46 {
        Some((b - 0x41 + 10) as u8)
    } else if 0x61 <= b <= 0x66 {
        Some((b - 0x61 + 10) as u8)
    } else {
        None
    }
}

/// Whether `s` begins with a percent sign followed by two hexadecimal digits.
pub open spec fn starts_with_escape(s: Seq<u8>) -> bool {
    &&& s.len() >= 3
    &&& s[0] == 0x25
    &&& hex_value(s[1]) is Some
    &&& hex_value(s[2]) is Some
}

/// The percent-decoding of `s`: every percent sign followed by two
/// hexadecimal digits stands for the byte the digits name; every other byte,
/// a percent sign without two such digits included, stands for itself.
pub open spec fn percent_decoded(s: Seq<u8>) -> Seq<u8>
    decreases s.len(),
{
    if s.len() == 0 {
        Seq::empty()
    } else if starts_with_escape(s) {
        seq![(hex_value(s[1])->0 * 16 + hex_value(s[2])->0) as u8] + percent_decoded(s.skip(3))
    } else {
        seq![s[0]] + percent_decoded(s.skip(1))
    }
}

/// The upper-case hexadecimal digit for a value below sixteen.
pub open spec fn hex_digit(n: u8) -> u8
    recommends
        n < 16,
{
    if n < 10 {
        (0x30 + n) as u8
    } else {
        (0x41 + n - 10) as u8
    }
}

/// The three bytes that escape `b`: a percent sign and two upper-case
/// hexadecimal digits.
pub open spec fn escape_of(b: u8) -> Seq<u8> {
    seq![0x25u8, hex_digit(b / 16), hex_digit(b % 16)]
}

/// A percent-encoding of `s`. A byte that `keep` admits is written as it is;
/// any other byte is escaped, and so is every percent sign, whatever `keep`
/// says of it.
pub open spec fn percent_encoded(s: Seq<u8>, keep: spec_fn(u8) -> bool) -> Seq<u8>
    decreases s.len(),
{
    if s.len() == 0 {
        Seq::empty()
    } else if keep(s[0]) && s[0] != 0x25 {
        seq![s[0]] + percent_encoded(s.skip(1), keep)
    } else {
        escape_of(s[0]) + percent_encoded(s.skip(1), keep)
    }
}

/// What lossy UTF-8 decoding makes of bytes that are not valid UTF-8: the
/// text in which each ill-formed stretch has given way to U+FFFD.
pub uninterp spec fn utf8_repaired(bytes: Seq<u8>) -> Seq<char>;

/// The text that lossy UTF-8 decoding reads from `bytes`: the text they
/// encode where they are valid UTF-8, and the repaired text where not.
pub open spec fn utf8_lossy(bytes: Seq<u8>) -> Seq<char> {
    if valid_utf8(bytes) {
        decode_utf8(bytes)
    } else {
        utf8_repaired(bytes)
    }
}

/// Percent-decodes `input` and reads the result as UTF-8, lossily.
///
/// Calls `percent_encoding::percent_decode_str` and, on what it returns,
/// `PercentDecode::decode_utf8_lossy`. Taken on trust: the bytes handed to
/// the UTF-8 decoder are `percent_decoded` of the input's bytes; the decoder
/// returns valid UTF-8 unchanged, and otherwise a text that depends on those
/// bytes alone.
#[verifier::external_body]
pub(crate) fn percent_decode_lossy(input: &str) -> (text: String)
    ensures
        ({
            let decoded = percent_decoded(encode_utf8(input@));
            text@ == if valid_utf8(decoded) {
                decode_utf8(decoded)
            } else {
                utf8_repaired(decoded)
            }
        }),
{
    percent_encoding::percent_decode_str(input).decode_utf8_lossy().into_owned()
}

/// Decoding undoes encoding: whatever bytes are percent-encoded, and whichever
/// of them the encoder chose to leave unescaped, percent-decoding gives the
/// same bytes back.
pub proof fn lemma_decode_inverts_encode(s: Seq<u8>, keep: spec_fn(u8) -> bool)
    ensures
        percent_decoded(percent_encoded(s, keep)) == s,
    decreases s.len(),
{
    if s.len() == 0 {
    } else {
        let rest = percent_encoded(s.skip(1), keep);
        let e = percent_encoded(s, keep);
        lemma_decode_inverts_encode(s.skip(1), keep);
        if keep(s[0]) && s[0] != 0x25 {
            assert(e.skip(1) =~= rest);
            assert(seq![s[0]] + s.skip(1) =~= s);
        } else {
            let b = s[0];
            lemma_hex_digit_value((b / 16) as u8);
            lemma_hex_digit_value((b % 16) as u8);
            assert(e.skip(3) =~= rest);
            assert(starts_with_escape(e));
            assert(seq![b] + s.skip(1) =~= s);
        }
    }
}

/// An upper-case hexadecimal digit has the value it was made from.
proof fn lemma_hex_digit_value(n: u8)
    requires
        n < 16,
    ensures
        hex_value(hex_digit(n)) == Some(n),
{
}

} // verus!
