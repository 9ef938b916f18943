//! UTF-16 text: what the clipboard holds and what window names are passed as.
use crate::chars::lemma_char_number;
use vstd::prelude::*;

verus! {

/// The character that stands for a surrogate without its partner.
pub const REPLACEMENT: char = '\u{FFFD}';

/// A unit that opens a pair.
pub open spec fn is_high(unit: u16) -> bool {
    0xD800 <= unit <= 0xDBFF
}

/// A unit that closes a pair.
pub open spec fn is_low(unit: u16) -> bool {
    0xDC00 <= unit <= 0xDFFF
}

/// The one or two units of a character.
pub open spec fn encode_char(c: char) -> Seq<u16> {
    let n = c as int;
    if n < 0x10000 {
        seq![n as u16]
    } else {
        seq![(0xD800 + (n - 0x10000) / 0x400) as u16, (0xDC00 + (n - 0x10000) % 0x400) as u16]
    }
}

/// The units of a text, character by character.
pub open spec fn encode(text: Seq<char>) -> Seq<u16>
    decreases text.len(),
{
    if text.len() == 0 {
        Seq::empty()
    } else {
        encode_char(text[0]) + encode(text.skip(1))
    }
}

/// The character that a pair of units stands for.
pub open spec fn pair_char(high: u16, low: u16) -> char {
    (0x10000 + (high - 0xD800) * 0x400 + (low - 0xDC00)) as char
}

/// The character that a unit outside any pair stands for.
pub open spec fn unit_char(unit: u16) -> char {
    if is_high(unit) || is_low(unit) {
        REPLACEMENT
    } else {
        unit as char
    }
}

/// The text of a run of units: each pair is one character, and each surrogate without its
/// partner becomes one replacement character.
pub open spec fn decode(units: Seq<u16>) -> Seq<char>
    decreases units.len(),
{
    if units.len() == 0 {
        Seq::empty()
    } else if units.len() >= 2 && is_high(units[0]) && is_low(units[1]) {
        seq![pair_char(units[0], units[1])] + decode(units.skip(2))
    } else {
        seq![unit_char(units[0])] + decode(units.skip(1))
    }
}

/// The units in front of the first zero, or all of them where there is none.
pub open spec fn until_nul(units: Seq<u16>) -> Seq<u16>
    decreases units.len(),
{
    if units.len() == 0 || units[0] == 0 {
        Seq::empty()
    } else {
        seq![units[0]] + until_nul(units.skip(1))
    }
}

/// The units of a character in plain numbers.
proof fn lemma_encode_char(c: char)
    ensures
        c as int <= 0x10FFFF,
        c as int >= 0x10000 ==> {
            let n = c as int - 0x10000;
            &&& 0 <= n / 0x400 < 0x400
            &&& encode_char(c).len() == 2
            &&& encode_char(c)[0] == 0xD800 + n / 0x400
            &&& encode_char(c)[1] == 0xDC00 + n % 0x400
            &&& pair_char(encode_char(c)[0], encode_char(c)[1]) == c
        },
        (c as int) < 0x10000 ==> {
            &&& encode_char(c).len() == 1
            &&& encode_char(c)[0] == c as int
            &&& unit_char(encode_char(c)[0]) == c
        },
{
    let n = c as int - 0x10000;
    if c as int >= 0x10000 {
        assert(0 <= n / 0x400 < 0x400);
        assert(encode_char(c)[0] == 0xD800 + n / 0x400);
        assert(encode_char(c)[1] == 0xDC00 + n % 0x400);
    }
}

/// `s` as UTF-16, with the closing zero that the window functions look for.
pub fn wide(s: &str) -> (r: Vec<u16>)
    ensures
        r@ == encode(s@).push(0),
{
    let mut out: Vec<u16> = Vec::new();
    assert(s@.skip(0) =~= s@);
    for c in iter: s.chars()
        invariant
            iter.seq() == s@,
            encode(s@) == out@ + encode(s@.skip(iter.index())),
    {
        let ghost i = iter.index();
        let ghost before = out@;
        proof {
            lemma_encode_char(c);
        }
        let n: u32 = c as u32;
        if n < 0x10000 {
            out.push(n as u16);
        } else {
            let rest: u32 = n - 0x10000;
            out.push((0xD800 + rest / 0x400) as u16);
            out.push((0xDC00 + rest % 0x400) as u16);
        }
        assert(out@ =~= before + encode_char(c));
        assert(s@.skip(i)[0] == c);
        assert(s@.skip(i).skip(1) =~= s@.skip(i + 1));
        assert(before + (encode_char(c) + encode(s@.skip(i + 1))) =~= out@ + encode(
            s@.skip(i + 1),
        ));
    }
    assert(s@.skip(s@.len() as int) =~= Seq::<char>::empty());
    assert(out@ =~= encode(s@));
    out.push(0);
    out
}

/// The text of a run of UTF-16 units, with `REPLACEMENT` for each surrogate without its
/// partner.
pub fn from_utf16_lossy(units: &[u16]) -> (r: String)
    ensures
        r@ == decode(units@),
{
    let mut out = String::new();
    let mut i: usize = 0;
    assert(units@.skip(0) =~= units@);
    assert(out@ + decode(units@) =~= decode(units@));
    while i < units.len()
        invariant
            i <= units@.len(),
            decode(units@) == out@ + decode(units@.skip(i as int)),
        decreases units@.len() - i,
    {
        let ghost before = out@;
        let ghost rest = units@.skip(i as int);
        let unit: u16 = units[i];
        if 0xD800 <= unit && unit <= 0xDBFF && i + 1 < units.len() && 0xDC00 <= units[i + 1]
            && units[i + 1] <= 0xDFFF {
            let n: u32 = 0x10000 + (unit as u32 - 0xD800) * 0x400 + (units[i + 1] as u32 - 0xDC00);
            let c: char = match char::from_u32(n) {
                Some(c) => c,
                None => REPLACEMENT,
            };
            out.push(c);
            proof {
                assert(rest[0] == unit && rest[1] == units@[i + 1]);
                lemma_char_number(c);
                assert(c == pair_char(rest[0], rest[1]));
                assert(rest.skip(2) =~= units@.skip(i + 2));
                assert(before + (seq![c] + decode(rest.skip(2))) =~= out@ + decode(rest.skip(2)));
            }
            i += 2;
        } else {
            let c: char = match char::from_u32(unit as u32) {
                Some(c) => c,
                None => REPLACEMENT,
            };
            out.push(c);
            proof {
                assert(rest[0] == unit);
                lemma_char_number(c);
                assert(c == unit_char(rest[0]));
                assert(rest.skip(1) =~= units@.skip(i + 1));
                assert(before + (seq![c] + decode(rest.skip(1))) =~= out@ + decode(rest.skip(1)));
            }
            i += 1;
        }
    }
    assert(units@.skip(i as int) =~= Seq::<u16>::empty());
    assert(out@ + Seq::<char>::empty() =~= out@);
    out
}

/// Decoding gives back every text that was encoded.
pub proof fn law_decode_undoes_encode(text: Seq<char>)
    ensures
        decode(encode(text)) == text,
    decreases text.len(),
{
    if text.len() > 0 {
        let c = text[0];
        let rest = text.skip(1);
        let head = encode_char(c);
        let units = head + encode(rest);
        law_decode_undoes_encode(rest);
        assert(units.skip(head.len() as int) =~= encode(rest));
        lemma_encode_char(c);
        assert(units[0] == head[0]);
        if c as int >= 0x10000 {
            assert(units[1] == head[1]);
        }
        assert(seq![c] + rest =~= text);
    }
}

/// A text without the character NUL has no zero among its units, and the other way round.
pub proof fn law_zero_unit_is_nul(text: Seq<char>)
    ensures
        encode(text).contains(0u16) <==> text.contains('\0'),
    decreases text.len(),
{
    if text.len() > 0 {
        let c = text[0];
        let rest = text.skip(1);
        law_zero_unit_is_nul(rest);
        assert(text =~= seq![c] + rest);
        let head = encode_char(c);
        lemma_encode_char(c);
        if c == '\0' {
            assert(encode(text)[0] == 0u16);
            assert(text[0] == '\0');
        }
        if encode(rest).contains(0u16) {
            let k = encode(rest).index_of(0u16);
            assert(encode(text)[head.len() + k] == 0u16);
        }
        if rest.contains('\0') {
            let k = rest.index_of('\0');
            assert(text[k + 1] == '\0');
        }
        if encode(text).contains(0u16) {
            let k = encode(text).index_of(0u16);
            if k >= head.len() {
                assert(encode(rest)[k - head.len()] == 0u16);
            }
        }
        if text.contains('\0') {
            let k = text.index_of('\0');
            if k > 0 {
                assert(rest[k - 1] == '\0');
            }
        }
    }
}

/// Reading stops at the first zero: what stands in front of it is kept whole, and what
/// follows it does not matter.
pub proof fn law_until_nul(units: Seq<u16>, rest: Seq<u16>)
    requires
        !units.contains(0u16),
    ensures
        until_nul(units.push(0) + rest) == units,
    decreases units.len(),
{
    let all = units.push(0) + rest;
    if units.len() > 0 {
        assert(units[0] != 0);
        assert(all.skip(1) =~= units.skip(1).push(0) + rest);
        assert forall|i: int| 0 <= i < units.skip(1).len() implies units.skip(1)[i] != 0u16 by {
            assert(units.skip(1)[i] == units[i + 1]);
        }
        law_until_nul(units.skip(1), rest);
        assert(seq![units[0]] + units.skip(1) =~= units);
    }
}

/// A text without NUL comes back whole from its zero-closed UTF-16 form, whatever stands
/// in memory behind it.
pub proof fn law_wide_reads_back(text: Seq<char>, rest: Seq<u16>)
    requires
        !text.contains('\0'),
    ensures
        decode(until_nul(encode(text).push(0) + rest)) == text,
{
    law_zero_unit_is_nul(text);
    law_until_nul(encode(text), rest);
    law_decode_undoes_encode(text);
}

/// What is taken of a memory is its front up to the first zero.
pub proof fn law_until_nul_takes_the_front(memory: Seq<u16>, k: int)
    requires
        0 <= k <= memory.len(),
        k < memory.len() ==> memory[k] == 0,
        forall|j: int| 0 <= j < k ==> memory[j] != 0,
    ensures
        until_nul(memory) == memory.take(k),
    decreases k,
{
    if k == 0 {
        assert(memory.take(0) =~= Seq::<u16>::empty());
    } else {
        let rest = memory.skip(1);
        assert forall|j: int| 0 <= j < k - 1 implies rest[j] != 0 by {
            assert(rest[j] == memory[j + 1]);
        }
        law_until_nul_takes_the_front(rest, k - 1);
        assert(seq![memory[0]] + rest.take(k - 1) =~= memory.take(k));
    }
}

/// A character up to 0xFFFF is the one unit of its number, and a higher one is a pair whose
/// two times ten bits are what its number has above 0x10000.
pub proof fn law_units_of_one_character(c: char)
    ensures
        (c as int) < 0x10000 ==> encode(seq![c]).len() == 1 && encode(seq![c])[0] == c as int,
        c as int >= 0x10000 ==> {
            let units = encode(seq![c]);
            &&& units.len() == 2
            &&& 0xD800 <= units[0] < 0xDC00
            &&& 0xDC00 <= units[1] < 0xE000
            &&& 0x10000 + 0x400 * (units[0] - 0xD800) + (units[1] - 0xDC00) == c as int
        },
{
    reveal_with_fuel(encode, 2);
    lemma_encode_char(c);
    let one = seq![c];
    assert(one.skip(1) =~= Seq::<char>::empty());
    assert(encode_char(c) + Seq::<u16>::empty() =~= encode_char(c));
}

/// Texts are encoded piece by piece.
pub proof fn law_encode_goes_piece_by_piece(a: Seq<char>, b: Seq<char>)
    ensures
        encode(a + b) == encode(a) + encode(b),
        encode(Seq::empty()) == Seq::<u16>::empty(),
    decreases a.len(),
{
    if a.len() == 0 {
        assert(a + b =~= b);
        assert(encode(a) + encode(b) =~= encode(b));
    } else {
        law_encode_goes_piece_by_piece(a.skip(1), b);
        assert((a + b).skip(1) =~= a.skip(1) + b);
        assert((a + b)[0] == a[0]);
        assert(encode_char(a[0]) + (encode(a.skip(1)) + encode(b)) =~= (encode_char(a[0]) + encode(
            a.skip(1),
        )) + encode(b));
    }
}

/// A unit by itself is the character of its number, or U+FFFD where it is half a pair.
pub proof fn law_character_of_one_unit(unit: u16)
    ensures
        decode(seq![unit]).len() == 1,
        !(0xD800 <= unit <= 0xDFFF) ==> decode(seq![unit])[0] as int == unit,
        0xD800 <= unit <= 0xDFFF ==> decode(seq![unit])[0] == '\u{FFFD}',
{
    reveal_with_fuel(decode, 2);
    assert(seq![unit].skip(1) =~= Seq::<u16>::empty());
}

/// A pair is the character whose number has its two times ten bits above 0x10000.
pub proof fn law_character_of_a_pair(high: u16, low: u16)
    requires
        0xD800 <= high <= 0xDBFF,
        0xDC00 <= low <= 0xDFFF,
    ensures
        decode(seq![high, low]).len() == 1,
        decode(seq![high, low])[0] as int == 0x10000 + 0x400 * (high - 0xD800) + (low - 0xDC00),
{
    reveal_with_fuel(decode, 2);
    assert(seq![high, low].skip(2) =~= Seq::<u16>::empty());
}

/// Units are decoded piece by piece, as long as the cut does not go through a pair.
pub proof fn law_decode_goes_piece_by_piece(a: Seq<u16>, b: Seq<u16>)
    requires
        !(a.len() > 0 && b.len() > 0 && 0xD800 <= a.last() <= 0xDBFF && 0xDC00 <= b[0] <= 0xDFFF),
    ensures
        decode(a + b) == decode(a) + decode(b),
        decode(Seq::empty()) == Seq::<char>::empty(),
    decreases a.len(),
{
    let all = a + b;
    if a.len() == 0 {
        assert(all =~= b);
        assert(decode(a) + decode(b) =~= decode(b));
    } else {
        assert(all[0] == a[0]);
        if a.len() >= 2 && is_high(a[0]) && is_low(a[1]) {
            assert(all[1] == a[1]);
            assert(all.skip(2) =~= a.skip(2) + b);
            if a.len() > 2 {
                assert(a.skip(2).last() == a.last());
            }
            law_decode_goes_piece_by_piece(a.skip(2), b);
            let c = seq![pair_char(a[0], a[1])];
            assert(c + (decode(a.skip(2)) + decode(b)) =~= (c + decode(a.skip(2))) + decode(b));
        } else {
            if a.len() >= 2 {
                assert(all[1] == a[1]);
                assert(a.skip(1).last() == a.last());
            } else if b.len() > 0 {
                assert(all[1] == b[0]);
                assert(a.last() == a[0]);
            }
            assert(all.skip(1) =~= a.skip(1) + b);
            law_decode_goes_piece_by_piece(a.skip(1), b);
            let c = seq![unit_char(a[0])];
            assert(c + (decode(a.skip(1)) + decode(b)) =~= (c + decode(a.skip(1))) + decode(b));
        }
    }
}


} // verus!
