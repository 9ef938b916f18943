//! Contracts of the functions of the standard library that the recorder calls.
use vstd::prelude::*;

verus! {

/// `std::char::from_u32`: a number is a character exactly when it is a code point that is
/// no surrogate, and the character then has that number.
pub assume_specification[ char::from_u32 ](n: u32) -> (r: Option<char>)
    ensures
        r is Some <==> (n < 0xD800 || 0xE000 <= n <= 0x10FFFF),
        r matches Some(c) ==> c as u32 == n,
;

/// `String::push`: the character goes behind the ones that are there.
pub assume_specification[ String::push ](s: &mut String, c: char)
    ensures
        final(s)@ == old(s)@.push(c),
;

/// The text that `String::from_utf8_lossy` makes of a run of bytes.
pub uninterp spec fn utf8_lossy_text(bytes: Seq<u8>) -> Seq<char>;

/// `String::from_utf8_lossy`: the text depends on the bytes alone, and bytes that are UTF-8
/// give the text that they encode. Where they are not, which of them each replacement
/// character stands for is left unsaid here.
#[verifier::external_body]
pub(crate) fn from_utf8_lossy(bytes: &[u8]) -> (r: String)
    ensures
        r@ == utf8_lossy_text(bytes@),
        vstd::utf8::valid_utf8(bytes@) ==> r@ == vstd::utf8::decode_utf8(bytes@),
{
    String::from_utf8_lossy(bytes).into_owned()
}

} // verus!
