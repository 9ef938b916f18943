//! Characters as numbers.
use vstd::prelude::*;

verus! {

/// A character is told by its number, which is at most 0x10FFFF.
pub(crate) proof fn lemma_char_number(c: char)
    ensures
        0 <= c as int <= 0x10FFFF,
        (c as u32) as int == c as int,
        (c as u32) as char == c,
        (c as int) as char == c,
{
}

/// Characters with the same number are the same.
pub(crate) proof fn lemma_same_number(c: char, d: char)
    ensures
        c as u32 == d as u32 <==> c == d,
{
}

} // verus!
