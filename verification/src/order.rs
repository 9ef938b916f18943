//! The order of strings, by which the days of a flush follow one another.
use crate::chars::{lemma_char_number, lemma_same_number};
use vstd::prelude::*;

verus! {

/// Whether `a` stands strictly in front of `b`: at the first place where they differ its
/// character is the smaller one, or it ends there.
pub open spec fn precedes(a: Seq<char>, b: Seq<char>) -> bool
    decreases a.len(),
{
    if b.len() == 0 {
        false
    } else if a.len() == 0 {
        true
    } else if a[0] == b[0] {
        precedes(a.skip(1), b.skip(1))
    } else {
        (a[0] as u32) < (b[0] as u32)
    }
}

/// How one string stands to another.
#[derive(Clone, Copy, PartialEq, Eq, Structural, Debug)]
pub enum Standing {
    Before,
    Same,
    After,
}

/// How `a` stands to `b`.
pub fn standing(a: &str, b: &str) -> (r: Standing)
    ensures
        r == Standing::Before <==> precedes(a@, b@),
        r == Standing::Same <==> a@ == b@,
        r == Standing::After <==> precedes(b@, a@),
{
    let mut left = a.chars();
    let mut right = b.chars();
    let ghost mut i: int = 0;
    proof {
        law_exactly_one_standing(a@, b@);
        assert(a@.skip(0) =~= a@);
        assert(b@.skip(0) =~= b@);
    }
    loop
        invariant
            0 <= i <= a@.len(),
            i <= b@.len(),
            vstd::std_specs::iter::IteratorSpec::remaining(&left) == a@.skip(i),
            vstd::std_specs::iter::IteratorSpec::remaining(&right) == b@.skip(i),
            a@.take(i) == b@.take(i),
            precedes(a@, b@) == precedes(a@.skip(i), b@.skip(i)),
            precedes(b@, a@) == precedes(b@.skip(i), a@.skip(i)),
            precedes(a@, b@) ==> a@ != b@ && !precedes(b@, a@),
            precedes(b@, a@) ==> a@ != b@ && !precedes(a@, b@),
        decreases a@.len() - i,
    {
        let x = left.next();
        let y = right.next();
        match (x, y) {
            (None, None) => {
                assert(a@ =~= a@.take(i));
                assert(b@ =~= b@.take(i));
                return Standing::Same;
            },
            (None, Some(_)) => {
                return Standing::Before;
            },
            (Some(_), None) => {
                return Standing::After;
            },
            (Some(c), Some(d)) => {
                assert(a@.skip(i)[0] == c && b@.skip(i)[0] == d);
                let m: u32 = c as u32;
                let n: u32 = d as u32;
                if m < n {
                    return Standing::Before;
                }
                if n < m {
                    return Standing::After;
                }
                proof {
                    lemma_same_number(c, d);
                    assert(a@.skip(i).skip(1) =~= a@.skip(i + 1));
                    assert(b@.skip(i).skip(1) =~= b@.skip(i + 1));
                    assert(a@.take(i + 1) =~= a@.take(i).push(c));
                    assert(b@.take(i + 1) =~= b@.take(i).push(d));
                    i = i + 1;
                }
            },
        }
    }
}

/// Of two strings either one stands in front of the other or they are the same, and never
/// two of these at once.
pub proof fn law_exactly_one_standing(a: Seq<char>, b: Seq<char>)
    ensures
        precedes(a, b) || a == b || precedes(b, a),
        precedes(a, b) ==> a != b && !precedes(b, a),
        precedes(b, a) ==> a != b && !precedes(a, b),
    decreases a.len(),
{
    if a.len() > 0 && b.len() > 0 {
        lemma_same_number(a[0], b[0]);
    }
    if a.len() > 0 && b.len() > 0 && a[0] == b[0] {
        law_exactly_one_standing(a.skip(1), b.skip(1));
        if a.skip(1) == b.skip(1) {
            assert(a =~= seq![a[0]] + a.skip(1));
            assert(b =~= seq![b[0]] + b.skip(1));
        }
    } else if a.len() == 0 && b.len() == 0 {
        assert(a =~= b);
    }
}

/// The order carries over from one string to the next.
pub proof fn law_precedes_is_transitive(a: Seq<char>, b: Seq<char>, c: Seq<char>)
    requires
        precedes(a, b),
        precedes(b, c),
    ensures
        precedes(a, c),
    decreases a.len(),
{
    if a.len() > 0 && a[0] == b[0] && b[0] == c[0] {
        law_precedes_is_transitive(a.skip(1), b.skip(1), c.skip(1));
    }
}

/// What two strings begin with in common does not matter; then an end stands in front of any
/// character, and a character in front of every one with a greater number.
pub proof fn law_first_difference_decides(a: Seq<char>, b: Seq<char>, k: int)
    requires
        0 <= k <= a.len(),
        k < b.len(),
        a.take(k) == b.take(k),
        k == a.len() || (a[k] as int) < (b[k] as int),
    ensures
        precedes(a, b),
    decreases k,
{
    if k > 0 {
        assert(a.take(k)[0] == a[0]);
        assert(b.take(k)[0] == b[0]);
        assert(a.skip(1).take(k - 1) =~= a.take(k).skip(1));
        assert(b.skip(1).take(k - 1) =~= b.take(k).skip(1));
        law_first_difference_decides(a.skip(1), b.skip(1), k - 1);
    } else if a.len() > 0 {
        lemma_char_number(a[0]);
        lemma_char_number(b[0]);
    }
}


} // verus!
