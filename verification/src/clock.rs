//! The local time, and the two ways in which it is written down.
use crate::chars::{lemma_char_number, lemma_same_number};
use crate::order::{law_exactly_one_standing, precedes};
use vstd::prelude::*;

verus! {

pub const YEAR_MARK: char = '\u{5E74}';

pub const MONTH_MARK: char = '\u{6708}';

pub const DAY_MARK: char = '\u{65E5}';

pub const HOUR_MARK: char = '\u{65F6}';

pub const MINUTE_MARK: char = '\u{5206}';

pub const SECOND_MARK: char = '\u{79D2}';

/// One reading of the local clock.
#[derive(Clone, Copy, PartialEq, Eq, Structural, Debug)]
pub struct SystemTime {
    pub year: u16,
    pub month: u16,
    pub day_of_week: u16,
    pub day: u16,
    pub hour: u16,
    pub minute: u16,
    pub second: u16,
    pub milliseconds: u16,
}

/// The decimal digit of a number below ten.
pub open spec fn digit(n: nat) -> char {
    (48 + n) as char
}

/// A number in decimal, without leading zeros.
pub open spec fn digits(n: nat) -> Seq<char>
    decreases n,
{
    if n < 10 {
        seq![digit(n)]
    } else {
        digits(n / 10).push(digit(n % 10))
    }
}

/// `count` zeros.
pub open spec fn zeros(count: nat) -> Seq<char> {
    Seq::new(count, |i: int| '0')
}

/// A number in decimal, filled up with leading zeros to `width` digits; one that has more
/// digits keeps them all.
pub open spec fn padded(n: nat, width: nat) -> Seq<char> {
    let len = digits(n).len();
    if len < width {
        zeros((width - len) as nat) + digits(n)
    } else {
        digits(n)
    }
}

/// The day of a reading: year, month and day, with no mark between them.
pub open spec fn day_text(st: SystemTime) -> Seq<char> {
    padded(st.year as nat, 4) + padded(st.month as nat, 2) + padded(st.day as nat, 2)
}

/// The moment of a reading, to the second.
pub open spec fn time_text(st: SystemTime) -> Seq<char> {
    padded(st.year as nat, 4).push(YEAR_MARK) + padded(st.month as nat, 2).push(MONTH_MARK)
        + padded(st.day as nat, 2).push(DAY_MARK).push(' ') + padded(st.hour as nat, 2).push(
        HOUR_MARK,
    ) + padded(st.minute as nat, 2).push(MINUTE_MARK) + padded(st.second as nat, 2).push(
        SECOND_MARK,
    )
}

/// How many decimal digits `n` has.
fn digit_count(n: u16) -> (r: usize)
    ensures
        r == digits(n as nat).len(),
        1 <= r <= n as nat + 1,
    decreases n,
{
    if n < 10 {
        1
    } else {
        1 + digit_count(n / 10)
    }
}

/// Writes `n` in decimal behind `out`.
fn push_digits(out: &mut String, n: u16)
    ensures
        final(out)@ == old(out)@ + digits(n as nat),
    decreases n,
{
    if n >= 10 {
        push_digits(out, n / 10);
    }
    let last: u8 = (n % 10) as u8;
    out.push((48 + last) as char);
    assert(out@ =~= old(out)@ + digits(n as nat));
}

/// Writes `n` behind `out`, in at least `width` digits.
fn push_padded(out: &mut String, n: u16, width: usize)
    ensures
        final(out)@ == old(out)@ + padded(n as nat, width as nat),
{
    let count: usize = digit_count(n);
    let mut filled: usize = count;
    while filled < width
        invariant
            count == digits(n as nat).len(),
            count <= filled,
            filled <= width || filled == count,
            out@ == old(out)@ + zeros((filled - count) as nat),
        decreases width - filled,
    {
        out.push('0');
        assert(out@ =~= old(out)@ + zeros((filled - count + 1) as nat));
        filled += 1;
    }
    push_digits(out, n);
    assert(out@ =~= old(out)@ + padded(n as nat, width as nat));
}

/// The day of a reading, which names the file that the day's copies go to.
pub fn get_today_string(st: &SystemTime) -> (r: String)
    ensures
        r@ == day_text(*st),
{
    let mut out = String::new();
    push_padded(&mut out, st.year, 4);
    push_padded(&mut out, st.month, 2);
    push_padded(&mut out, st.day, 2);
    assert(out@ =~= day_text(*st));
    out
}

/// The moment of a reading, which heads the block of a copy.
pub fn get_time_string(st: &SystemTime) -> (r: String)
    ensures
        r@ == time_text(*st),
{
    let mut out = String::new();
    push_padded(&mut out, st.year, 4);
    out.push(YEAR_MARK);
    push_padded(&mut out, st.month, 2);
    out.push(MONTH_MARK);
    push_padded(&mut out, st.day, 2);
    out.push(DAY_MARK);
    out.push(' ');
    push_padded(&mut out, st.hour, 2);
    out.push(HOUR_MARK);
    push_padded(&mut out, st.minute, 2);
    out.push(MINUTE_MARK);
    push_padded(&mut out, st.second, 2);
    out.push(SECOND_MARK);
    assert(out@ =~= time_text(*st));
    out
}

/// Whether every character is a decimal digit.
pub open spec fn all_digits(s: Seq<char>) -> bool {
    forall|i: int| 0 <= i < s.len() ==> 48 <= (#[trigger] s[i]) as int <= 57
}

/// The number that a run of decimal digits stands for.
pub open spec fn value(s: Seq<char>) -> int
    decreases s.len(),
{
    if s.len() == 0 {
        0
    } else {
        10 * value(s.drop_last()) + (s.last() as int - 48)
    }
}

/// A reading whose month and day have at most two digits, as those of every calendar have.
pub open spec fn two_digit_date(st: SystemTime) -> bool {
    st.month <= 99 && st.day <= 99
}

/// Whether the day of `a` comes before the day of `b` in the calendar.
pub open spec fn earlier_day(a: SystemTime, b: SystemTime) -> bool {
    ||| a.year < b.year
    ||| a.year == b.year && a.month < b.month
    ||| a.year == b.year && a.month == b.month && a.day < b.day
}

proof fn lemma_zeros(count: nat)
    ensures
        value(zeros(count)) == 0,
    decreases count,
{
    if count > 0 {
        lemma_zeros((count - 1) as nat);
        assert(zeros(count).drop_last() =~= zeros((count - 1) as nat));
    }
}

/// Leading zeros do not change the number.
proof fn lemma_zeros_and_digits(count: nat, n: nat)
    ensures
        value(zeros(count) + digits(n)) == n,
        all_digits(zeros(count) + digits(n)),
    decreases n,
{
    let s = zeros(count) + digits(n);
    if n < 10 {
        lemma_zeros(count);
        assert(s.drop_last() =~= zeros(count));
        assert(s.last() == digit(n));
    } else {
        lemma_zeros_and_digits(count, n / 10);
        assert(s.drop_last() =~= zeros(count) + digits(n / 10));
        assert(s.last() == digit(n % 10));
        assert forall|i: int| 0 <= i < s.len() implies 48 <= (#[trigger] s[i]) as int <= 57 by {
            if i < s.len() - 1 {
                assert(s[i] == s.drop_last()[i]);
            }
        }
    }
}

/// A padded number reads as that number.
proof fn lemma_padded(n: nat, width: nat)
    ensures
        value(padded(n, width)) == n,
        all_digits(padded(n, width)),
        padded(n, width).len() >= width,
{
    let len = digits(n).len();
    if len < width {
        lemma_zeros_and_digits((width - len) as nat, n);
    } else {
        lemma_zeros_and_digits(0, n);
        assert(zeros(0) + digits(n) =~= digits(n));
    }
}

/// Two digits behind a number.
proof fn lemma_two_digits(s: Seq<char>, n: nat)
    requires
        n <= 99,
    ensures
        padded(n, 2) == seq![digit(n / 10), digit(n % 10)],
        value(s + padded(n, 2)) == 100 * value(s) + n,
{
    reveal_with_fuel(digits, 2);
    reveal_with_fuel(value, 3);
    assert(padded(n, 2) =~= seq![digit(n / 10), digit(n % 10)]);
    let t = s + padded(n, 2);
    assert(t.drop_last() =~= s.push(digit(n / 10)));
    assert(t.drop_last().drop_last() =~= s);
    assert(t.last() == digit(n % 10));
    assert(t.drop_last().last() == digit(n / 10));
}

/// How many digits the year takes.
proof fn lemma_year_width(year: u16)
    ensures
        padded(year as nat, 4).len() == if year <= 9999 { 4nat } else { 5nat },
{
    reveal_with_fuel(digits, 5);
}

/// Among strings of one length the order is decided by everything but the last character,
/// and by that one where the rest is equal.
proof fn lemma_precedes_by_last(a: Seq<char>, b: Seq<char>)
    requires
        a.len() == b.len(),
        a.len() > 0,
    ensures
        precedes(a, b) <==> precedes(a.drop_last(), b.drop_last()) || (a.drop_last()
            == b.drop_last() && (a.last() as u32) < (b.last() as u32)),
    decreases a.len(),
{
    reveal_with_fuel(precedes, 2);
    let p = a.drop_last();
    let q = b.drop_last();
    lemma_same_number(a[0], b[0]);
    if a.len() == 1 {
        assert(p =~= q);
    } else {
        lemma_precedes_by_last(a.skip(1), b.skip(1));
        assert(p.skip(1) =~= a.skip(1).drop_last());
        assert(q.skip(1) =~= b.skip(1).drop_last());
        assert(p[0] == a[0] && q[0] == b[0]);
        if p == q {
            assert(p.skip(1) == q.skip(1));
        }
        if a[0] == b[0] && p.skip(1) == q.skip(1) {
            assert(p =~= seq![p[0]] + p.skip(1));
            assert(q =~= seq![q[0]] + q.skip(1));
        }
    }
}

/// Runs of digits of one length are ordered as their numbers are.
pub proof fn law_digit_strings_order_as_numbers(a: Seq<char>, b: Seq<char>)
    requires
        a.len() == b.len(),
        all_digits(a),
        all_digits(b),
    ensures
        precedes(a, b) <==> value(a) < value(b),
        a == b <==> value(a) == value(b),
    decreases a.len(),
{
    if a.len() == 0 {
        assert(a =~= b);
    } else {
        let p = a.drop_last();
        let q = b.drop_last();
        assert forall|i: int| 0 <= i < p.len() implies 48 <= (#[trigger] p[i]) as int <= 57 by {
            assert(p[i] == a[i]);
        }
        assert forall|i: int| 0 <= i < q.len() implies 48 <= (#[trigger] q[i]) as int <= 57 by {
            assert(q[i] == b[i]);
        }
        law_digit_strings_order_as_numbers(p, q);
        law_exactly_one_standing(p, q);
        lemma_precedes_by_last(a, b);
        lemma_char_number(a.last());
        lemma_char_number(b.last());
        assert(48 <= a[a.len() - 1] as int <= 57);
        assert(48 <= b[b.len() - 1] as int <= 57);
        assert(a =~= p.push(a.last()));
        assert(b =~= q.push(b.last()));
    }
}

/// The day is a run of digits that reads as year, month and day, and has eight of them up
/// to the year 9999.
pub proof fn law_day_text_is_a_number(st: SystemTime)
    requires
        two_digit_date(st),
    ensures
        all_digits(day_text(st)),
        value(day_text(st)) == 10000 * st.year + 100 * st.month + st.day,
        day_text(st).len() == if st.year <= 9999 { 8nat } else { 9nat },
{
    let y = padded(st.year as nat, 4);
    let m = padded(st.month as nat, 2);
    let d = padded(st.day as nat, 2);
    lemma_padded(st.year as nat, 4);
    lemma_padded(st.month as nat, 2);
    lemma_padded(st.day as nat, 2);
    lemma_year_width(st.year);
    lemma_two_digits(y, st.month as nat);
    lemma_two_digits(y + m, st.day as nat);
    let s = day_text(st);
    assert forall|i: int| 0 <= i < s.len() implies 48 <= (#[trigger] s[i]) as int <= 57 by {
        if i < y.len() {
            assert(s[i] == y[i]);
        } else if i < y.len() + m.len() {
            assert(s[i] == m[i - y.len()]);
        } else {
            assert(s[i] == d[i - y.len() - m.len()]);
        }
    }
}

/// Two readings have the same day text exactly when they are of the same day.
pub proof fn law_day_text_tells_the_day(a: SystemTime, b: SystemTime)
    requires
        two_digit_date(a),
        two_digit_date(b),
    ensures
        day_text(a) == day_text(b) <==> a.year == b.year && a.month == b.month && a.day == b.day,
{
    law_day_text_is_a_number(a);
    law_day_text_is_a_number(b);
}

/// Day texts are ordered as the days are, as long as the years have equally many digits.
pub proof fn law_day_texts_follow_the_calendar(a: SystemTime, b: SystemTime)
    requires
        two_digit_date(a),
        two_digit_date(b),
        a.year <= 9999 <==> b.year <= 9999,
    ensures
        precedes(day_text(a), day_text(b)) <==> earlier_day(a, b),
{
    law_day_text_is_a_number(a);
    law_day_text_is_a_number(b);
    law_digit_strings_order_as_numbers(day_text(a), day_text(b));
}

/// A further digit makes ten times the number and adds its own.
pub proof fn law_value_is_decimal(s: Seq<char>, c: char)
    ensures
        value(Seq::empty()) == 0,
        value(s.push(c)) == 10 * value(s) + (c as int - 48),
{
    assert(s.push(c).drop_last() =~= s);
}

proof fn lemma_no_leading_zero(n: nat)
    requires
        n > 0,
    ensures
        digits(n)[0] != '0',
        digits(n).len() > 0,
    decreases n,
{
    if n >= 10 {
        lemma_no_leading_zero(n / 10);
        assert(digits(n)[0] == digits(n / 10)[0]);
    }
}

/// A written number consists of digits and reads as that number. It has as many of them as
/// were asked for, and more only where the number needs them.
pub proof fn law_written_number_reads_back(n: nat, width: nat)
    requires
        width >= 1,
    ensures
        all_digits(padded(n, width)),
        value(padded(n, width)) == n,
        padded(n, width).len() >= width,
        padded(n, width).len() > width ==> padded(n, width)[0] != '0',
        n < 100 ==> padded(n, 2).len() == 2,
        n < 10000 ==> padded(n, 4).len() == 4,
{
    lemma_padded(n, width);
    if n > 0 {
        lemma_no_leading_zero(n);
    }
    reveal_with_fuel(digits, 4);
}

/// The parts of a day text, each from where the one before it ends: year, month and day read
/// as those of the reading, and there is nothing else.
pub proof fn law_day_text_reads_back(st: SystemTime)
    ensures
        ({
            let s = day_text(st);
            let m = padded(st.year as nat, 4).len() as int;
            let d = m + padded(st.month as nat, 2).len();
            let end = d + padded(st.day as nat, 2).len();
            &&& s.len() == end
            &&& all_digits(s.subrange(0, m)) && value(s.subrange(0, m)) == st.year
            &&& all_digits(s.subrange(m, d)) && value(s.subrange(m, d)) == st.month
            &&& all_digits(s.subrange(d, end)) && value(s.subrange(d, end)) == st.day
        }),
{
    let s = day_text(st);
    let (y, m, d) = (
        padded(st.year as nat, 4),
        padded(st.month as nat, 2),
        padded(st.day as nat, 2),
    );
    lemma_padded(st.year as nat, 4);
    lemma_padded(st.month as nat, 2);
    lemma_padded(st.day as nat, 2);
    let i = y.len() as int;
    let j = i + m.len();
    assert(s.subrange(0, i) =~= y);
    assert(s.subrange(i, j) =~= m);
    assert(s.subrange(j, j + d.len()) =~= d);
}

/// The parts of a time text, each from where the mark before it ends: all six fields read as
/// those of the reading, the marks stand between them, and there is nothing else.
pub proof fn law_time_text_parts(st: SystemTime)
    ensures
        ({
            let s = time_text(st);
            let y = padded(st.year as nat, 4).len() as int;
            let m = y + 1 + padded(st.month as nat, 2).len();
            let d = m + 1 + padded(st.day as nat, 2).len();
            let h = d + 2 + padded(st.hour as nat, 2).len();
            let n = h + 1 + padded(st.minute as nat, 2).len();
            let e = n + 1 + padded(st.second as nat, 2).len();
            &&& s.len() == e + 1
            &&& all_digits(s.subrange(0, y)) && value(s.subrange(0, y)) == st.year
            &&& s[y] == '\u{5E74}'
            &&& all_digits(s.subrange(y + 1, m)) && value(s.subrange(y + 1, m)) == st.month
            &&& s[m] == '\u{6708}'
            &&& all_digits(s.subrange(m + 1, d)) && value(s.subrange(m + 1, d)) == st.day
            &&& s[d] == '\u{65E5}'
            &&& s[d + 1] == ' '
            &&& all_digits(s.subrange(d + 2, h)) && value(s.subrange(d + 2, h)) == st.hour
            &&& s[h] == '\u{65F6}'
            &&& all_digits(s.subrange(h + 1, n)) && value(s.subrange(h + 1, n)) == st.minute
            &&& s[n] == '\u{5206}'
            &&& all_digits(s.subrange(n + 1, e)) && value(s.subrange(n + 1, e)) == st.second
            &&& s[e] == '\u{79D2}'
        }),
{
    let s = time_text(st);
    let py = padded(st.year as nat, 4);
    let pm = padded(st.month as nat, 2);
    let pd = padded(st.day as nat, 2);
    let ph = padded(st.hour as nat, 2);
    let pn = padded(st.minute as nat, 2);
    let pe = padded(st.second as nat, 2);
    lemma_padded(st.year as nat, 4);
    lemma_padded(st.month as nat, 2);
    lemma_padded(st.day as nat, 2);
    lemma_padded(st.hour as nat, 2);
    lemma_padded(st.minute as nat, 2);
    lemma_padded(st.second as nat, 2);
    let y = py.len() as int;
    let m = y + 1 + pm.len();
    let d = m + 1 + pd.len();
    let h = d + 2 + ph.len();
    let n = h + 1 + pn.len();
    let e = n + 1 + pe.len();
    assert(s.subrange(0, y) =~= py);
    assert(s.subrange(y + 1, m) =~= pm);
    assert(s.subrange(m + 1, d) =~= pd);
    assert(s.subrange(d + 2, h) =~= ph);
    assert(s.subrange(h + 1, n) =~= pn);
    assert(s.subrange(n + 1, e) =~= pe);
}

/// A reading whose fields behind the year have at most two digits, as those of every clock
/// have.
pub open spec fn two_digit_time(st: SystemTime) -> bool {
    two_digit_date(st) && st.hour <= 99 && st.minute <= 99 && st.second <= 99
}

/// The six fields stand at fixed places in a time text, with their marks between them; a
/// year of five digits moves them by one.
pub proof fn law_time_text_reads_back(st: SystemTime)
    requires
        two_digit_time(st),
    ensures
        ({
            let s = time_text(st);
            let y: int = if st.year <= 9999 {
                4
            } else {
                5
            };
            &&& s.len() == y + 17
            &&& all_digits(s.subrange(0, y)) && value(s.subrange(0, y)) == st.year
            &&& s[y] == '\u{5E74}'
            &&& all_digits(s.subrange(y + 1, y + 3)) && value(s.subrange(y + 1, y + 3)) == st.month
            &&& s[y + 3] == '\u{6708}'
            &&& all_digits(s.subrange(y + 4, y + 6)) && value(s.subrange(y + 4, y + 6)) == st.day
            &&& s[y + 6] == '\u{65E5}'
            &&& s[y + 7] == ' '
            &&& all_digits(s.subrange(y + 8, y + 10)) && value(s.subrange(y + 8, y + 10)) == st.hour
            &&& s[y + 10] == '\u{65F6}'
            &&& all_digits(s.subrange(y + 11, y + 13))
            &&& value(s.subrange(y + 11, y + 13)) == st.minute
            &&& s[y + 13] == '\u{5206}'
            &&& all_digits(s.subrange(y + 14, y + 16))
            &&& value(s.subrange(y + 14, y + 16)) == st.second
            &&& s[y + 16] == '\u{79D2}'
        }),
{
    law_time_text_parts(st);
    lemma_year_width(st.year);
    law_written_number_reads_back(st.month as nat, 2);
    law_written_number_reads_back(st.day as nat, 2);
    law_written_number_reads_back(st.hour as nat, 2);
    law_written_number_reads_back(st.minute as nat, 2);
    law_written_number_reads_back(st.second as nat, 2);
}

/// Two readings have the same time text exactly when all six fields agree.
pub proof fn law_time_text_tells_the_moment(a: SystemTime, b: SystemTime)
    requires
        two_digit_time(a),
        two_digit_time(b),
    ensures
        time_text(a) == time_text(b) <==> a.year == b.year && a.month == b.month && a.day == b.day
            && a.hour == b.hour && a.minute == b.minute && a.second == b.second,
{
    law_time_text_reads_back(a);
    law_time_text_reads_back(b);
}


} // verus!
