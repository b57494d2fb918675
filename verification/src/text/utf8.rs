//! Bytes and code units as text, through the standard library's decoders.

use vstd::prelude::*;
use vstd::utf8::{decode_utf8, encode_utf8, valid_utf8};

verus! {

/// What `String::from_utf8_lossy` makes of a byte string.
pub uninterp spec fn utf8_lossy(bytes: Seq<u8>) -> Seq<char>;

/// The text of a byte string: its decoding where it is UTF-8, else what the
/// standard library's lossy decoder makes of it.
pub open spec fn lossy_text(bytes: Seq<u8>) -> Seq<char> {
    if valid_utf8(bytes) {
        decode_utf8(bytes)
    } else {
        utf8_lossy(bytes)
    }
}

/// `String::from_utf8_lossy`: the text of the bytes, with replacement
/// characters where they are not UTF-8. Valid UTF-8 is decoded as it stands;
/// which replacements malformed input gets is left to the name.
#[verifier::external_body]
pub(crate) fn text_lossy(bytes: &[u8]) -> (r: String)
    ensures
        r@ == utf8_lossy(bytes@),
        valid_utf8(bytes@) ==> r@ == decode_utf8(bytes@),
{
    String::from_utf8_lossy(bytes).into_owned()
}

/// `core::str::from_utf8`: the text of the bytes, exactly when they are UTF-8.
#[verifier::external_body]
pub(crate) fn text_strict(bytes: &[u8]) -> (r: Option<String>)
    ensures
        r is Some <==> valid_utf8(bytes@),
        r matches Some(s) ==> s@ == decode_utf8(bytes@),
{
    core::str::from_utf8(bytes).ok().map(String::from)
}

/// A code unit that is one half of a surrogate pair.
pub open spec fn is_surrogate(unit: u16) -> bool {
    0xd800 <= unit <= 0xdfff
}

/// Some code units start with a surrogate pair.
pub open spec fn starts_with_pair(units: Seq<u16>) -> bool {
    units.len() > 1 && 0xd800 <= units[0] <= 0xdbff && 0xdc00 <= units[1] <= 0xdfff
}

/// The text that UTF-16 code units spell. A surrogate pair is one character,
/// and U+FFFD stands for a surrogate without its other half.
pub open spec fn utf16_text(units: Seq<u16>) -> Seq<char>
    decreases units.len(),
{
    if units.len() == 0 {
        Seq::empty()
    } else if starts_with_pair(units) {
        let scalar = 0x10000 + (units[0] - 0xd800) * 0x400 + (units[1] - 0xdc00);
        seq![scalar as u32 as char] + utf16_text(units.skip(2))
    } else if is_surrogate(units[0]) {
        seq![0xfffdu32 as char] + utf16_text(units.skip(1))
    } else {
        seq![units[0] as u32 as char] + utf16_text(units.skip(1))
    }
}

/// `String::from_utf16_lossy`: the text of the UTF-16 code units, with U+FFFD
/// for every surrogate without its other half.
#[verifier::external_body]
pub(crate) fn text_from_utf16(units: &[u16]) -> (r: String)
    ensures
        r@ == utf16_text(units@),
{
    String::from_utf16_lossy(units)
}

/// Encoded text is read back as it was.
pub proof fn lemma_text_survives_lossy(s: Seq<char>)
    ensures
        lossy_text(encode_utf8(s)) == s,
{
    vstd::utf8::encode_utf8_valid_utf8(s);
    vstd::utf8::encode_utf8_decode_utf8(s);
}

} // verus!
