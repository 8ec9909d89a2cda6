//! UTF-16 code units and their relation to Rust text.
//!
//! The command line is modelled as a sequence of 16-bit code units.  The
//! functions here say exactly what the standard library's conversions between
//! such units and `String` return, so that contracts elsewhere can speak of
//! buffers and of the text they decode to.

use vstd::prelude::*;

verus! {

/// The Unicode replacement character, used by lossy decoding.
pub const REPLACEMENT: char = '\u{FFFD}';

pub open spec fn is_high_surrogate(u: u16) -> bool {
    0xD800 <= u <= 0xDBFF
}

pub open spec fn is_low_surrogate(u: u16) -> bool {
    0xDC00 <= u <= 0xDFFF
}

/// The scalar value encoded by a surrogate pair.
pub open spec fn pair_scalar(hi: u16, lo: u16) -> u32
    recommends
        is_high_surrogate(hi),
        is_low_surrogate(lo),
{
    (0x10000 + (hi - 0xD800) * 0x400 + (lo - 0xDC00)) as u32
}

/// The UTF-16 encoding of one character: one unit for a scalar below
/// 0x10000, else a high/low surrogate pair.
pub open spec fn utf16_of_char(c: char) -> Seq<u16> {
    let v = c as u32;
    if v < 0x10000 {
        seq![v as u16]
    } else {
        seq![
            (0xD800 + ((v - 0x10000) / 0x400)) as u16,
            (0xDC00 + ((v - 0x10000) % 0x400)) as u16,
        ]
    }
}

/// The UTF-16 encoding of a character sequence.
pub open spec fn utf16_of(s: Seq<char>) -> Seq<u16>
    decreases s.len(),
{
    if s.len() == 0 {
        Seq::empty()
    } else {
        utf16_of_char(s[0]) + utf16_of(s.skip(1))
    }
}

/// Well-formed UTF-16: every high surrogate is followed by a low surrogate,
/// and no low surrogate stands alone.
pub open spec fn wf_wide(units: Seq<u16>) -> bool
    decreases units.len(),
{
    if units.len() == 0 {
        true
    } else if is_high_surrogate(units[0]) {
        units.len() >= 2 && is_low_surrogate(units[1]) && wf_wide(units.skip(2))
    } else if is_low_surrogate(units[0]) {
        false
    } else {
        wf_wide(units.skip(1))
    }
}

/// Strict UTF-16 decoding, meaningful on well-formed input.
pub open spec fn decode_wide(units: Seq<u16>) -> Seq<char>
    recommends
        wf_wide(units),
    decreases units.len(),
{
    if units.len() == 0 {
        Seq::empty()
    } else if is_high_surrogate(units[0]) && units.len() >= 2 && is_low_surrogate(units[1]) {
        seq![pair_scalar(units[0], units[1]) as char] + decode_wide(units.skip(2))
    } else {
        seq![(units[0] as u32) as char] + decode_wide(units.skip(1))
    }
}

/// Total UTF-16 decoding: each unpaired surrogate becomes U+FFFD.
pub open spec fn decode_wide_lossy(units: Seq<u16>) -> Seq<char>
    decreases units.len(),
{
    if units.len() == 0 {
        Seq::empty()
    } else if is_high_surrogate(units[0]) && units.len() >= 2 && is_low_surrogate(units[1]) {
        seq![pair_scalar(units[0], units[1]) as char] + decode_wide_lossy(units.skip(2))
    } else if is_high_surrogate(units[0]) || is_low_surrogate(units[0]) {
        seq![REPLACEMENT] + decode_wide_lossy(units.skip(1))
    } else {
        seq![(units[0] as u32) as char] + decode_wide_lossy(units.skip(1))
    }
}

/// Relies on `str::encode_utf16` of std: it yields exactly the UTF-16
/// encoding of the string, one unit per character below U+10000 and a
/// surrogate pair for the rest.
#[verifier::external_body]
pub fn encode_wide(s: &str) -> (r: Vec<u16>)
    ensures
        r@ == utf16_of(s@),
{
    s.encode_utf16().collect()
}

/// Relies on `String::from_utf16_lossy` of std: it decodes the units,
/// replacing each unpaired surrogate with U+FFFD.
#[verifier::external_body]
pub fn to_text_lossy(units: &Vec<u16>) -> (r: String)
    ensures
        r@ == decode_wide_lossy(units@),
{
    String::from_utf16_lossy(units)
}

/// Relies on `String::from_utf16` of std: it decodes the units, and fails
/// exactly when they are not well-formed UTF-16.
#[verifier::external_body]
pub fn to_text(units: &Vec<u16>) -> (r: Option<String>)
    ensures
        r is Some <==> wf_wide(units@),
        r matches Some(s) ==> s@ == decode_wide(units@),
{
    String::from_utf16(units).ok()
}

} // verus!
