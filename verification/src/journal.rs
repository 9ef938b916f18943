//! The text files: how they are named and what a saved copy adds to them.
use crate::clock::{
    day_text, law_day_text_is_a_number, law_day_text_tells_the_day, two_digit_date, value,
    SystemTime,
};
use vstd::prelude::*;

verus! {

/// The character that the dividing line is made of.
pub const RULE_CHAR: char = '\u{2550}';

/// How many of them the dividing line has.
pub const RULE_WIDTH: usize = 22;

/// The end of a line.
pub open spec fn crlf() -> Seq<char> {
    seq!['\r', '\n']
}

/// The dividing line.
pub open spec fn rule() -> Seq<char> {
    Seq::new(RULE_WIDTH as nat, |i: int| RULE_CHAR)
}

/// The block of one copy: its time, its text, an empty line, the dividing line and another
/// empty line.
pub open spec fn block(time: Seq<char>, text: Seq<char>) -> Seq<char> {
    time + crlf() + text + crlf() + crlf() + rule() + crlf() + crlf()
}

/// What a file holds once a copy has been saved to it.
pub open spec fn saved(old_content: Seq<char>, time: Seq<char>, text: Seq<char>) -> Seq<char> {
    block(time, text) + old_content
}

/// What a file holds once copies, given as time and text, have been saved to it one after
/// another.
pub open spec fn saved_all(
    old_content: Seq<char>,
    notes: Seq<(Seq<char>, Seq<char>)>,
) -> Seq<char>
    decreases notes.len(),
{
    if notes.len() == 0 {
        old_content
    } else {
        saved(saved_all(old_content, notes.drop_last()), notes.last().0, notes.last().1)
    }
}

/// The blocks of the copies, the last one first.
pub open spec fn blocks_newest_first(notes: Seq<(Seq<char>, Seq<char>)>) -> Seq<char>
    decreases notes.len(),
{
    if notes.len() == 0 {
        Seq::empty()
    } else {
        block(notes.last().0, notes.last().1) + blocks_newest_first(notes.drop_last())
    }
}

/// The name of the file of a day.
pub open spec fn file_name_text(day: Seq<char>) -> Seq<char> {
    "Clipboard"@ + day + ".txt"@
}

/// The name of the file that the copies of `day` go to.
pub fn file_name(day: &str) -> (r: String)
    ensures
        r@ == file_name_text(day@),
{
    let mut out = "Clipboard".to_owned();
    out.append(day);
    out.append(".txt");
    out
}

/// The block of one copy.
pub fn new_block(tm: &str, text: &str) -> (r: String)
    ensures
        r@ == block(tm@, text@),
{
    proof {
        reveal_strlit("\r\n");
        reveal_strlit("\r\n\r\n");
        assert("\r\n"@ =~= crlf());
        assert("\r\n\r\n"@ =~= crlf() + crlf());
    }
    let mut out = tm.to_owned();
    out.append("\r\n");
    out.append(text);
    out.append("\r\n\r\n");
    let ghost head = out@;
    let mut i: usize = 0;
    while i < RULE_WIDTH
        invariant
            i <= RULE_WIDTH,
            out@ == head + Seq::new(i as nat, |k: int| RULE_CHAR),
        decreases RULE_WIDTH - i,
    {
        out.push(RULE_CHAR);
        assert(out@ =~= head + Seq::new((i + 1) as nat, |k: int| RULE_CHAR));
        i += 1;
    }
    out.append("\r\n\r\n");
    assert(out@ =~= block(tm@, text@));
    out
}

/// The new content of a file to which a copy is saved: its block, and behind it what the
/// file held. A file that could not be read counts as empty.
pub fn save_to_file(old_content: Option<String>, tm: &str, text: &str) -> (r: String)
    ensures
        r@ == saved(
            match old_content {
                Some(s) => s@,
                None => Seq::empty(),
            },
            tm@,
            text@,
        ),
{
    let mut out = new_block(tm, text);
    match old_content {
        Some(s) => {
            out.append(s.as_str());
        },
        None => {
            assert(out@ + Seq::<char>::empty() =~= out@);
        },
    }
    out
}

/// However many copies are saved to a file, the newest stands at its top, each older one
/// below it, and what the file held before stays unchanged at its end.
pub proof fn law_newest_on_top(old_content: Seq<char>, notes: Seq<(Seq<char>, Seq<char>)>)
    ensures
        saved_all(old_content, notes) == blocks_newest_first(notes) + old_content,
    decreases notes.len(),
{
    if notes.len() == 0 {
        assert(Seq::<char>::empty() + old_content =~= old_content);
    } else {
        law_newest_on_top(old_content, notes.drop_last());
        let top = block(notes.last().0, notes.last().1);
        assert(top + (blocks_newest_first(notes.drop_last()) + old_content) =~= (top
            + blocks_newest_first(notes.drop_last())) + old_content);
    }
}

/// Saving in two goes leaves the same file as saving everything in one.
pub proof fn law_saving_in_two_goes(
    old_content: Seq<char>,
    first: Seq<(Seq<char>, Seq<char>)>,
    second: Seq<(Seq<char>, Seq<char>)>,
)
    ensures
        saved_all(saved_all(old_content, first), second) == saved_all(old_content, first + second),
    decreases second.len(),
{
    if second.len() == 0 {
        assert(first + second =~= first);
    } else {
        law_saving_in_two_goes(old_content, first, second.drop_last());
        assert((first + second).drop_last() =~= first + second.drop_last());
        assert((first + second).last() == second.last());
    }
}

/// Different days have different files.
pub proof fn law_file_name_tells_the_day(a: Seq<char>, b: Seq<char>)
    ensures
        file_name_text(a) == file_name_text(b) <==> a == b,
{
    if file_name_text(a) == file_name_text(b) {
        let head = "Clipboard"@.len() as int;
        assert(a.len() == b.len()) by {
            assert(file_name_text(a).len() == head + a.len() + ".txt"@.len());
            assert(file_name_text(b).len() == head + b.len() + ".txt"@.len());
        }
        assert(a =~= file_name_text(a).subrange(head, head + a.len()));
        assert(b =~= file_name_text(b).subrange(head, head + b.len()));
    }
}

/// Two readings of the clock name the same file exactly when they are of the same day.
pub proof fn law_one_file_per_day(a: SystemTime, b: SystemTime)
    requires
        two_digit_date(a),
        two_digit_date(b),
    ensures
        file_name_text(day_text(a)) == file_name_text(day_text(b)) <==> a.year == b.year && a.month
            == b.month && a.day == b.day,
{
    law_file_name_tells_the_day(day_text(a), day_text(b));
    law_day_text_tells_the_day(a, b);
}

/// A copy can be read back whole from its block. The block begins with the time and a line
/// end, then comes the text, and behind it always the same 30 characters: two line ends,
/// the dividing line of 22 characters, and two line ends.
pub proof fn law_block_holds_the_whole_copy(time: Seq<char>, text: Seq<char>)
    ensures
        block(time, text).len() == time.len() + text.len() + 32,
        block(time, text).subrange(0, time.len() as int) == time,
        block(time, text)[time.len() as int] == '\r',
        block(time, text)[time.len() + 1int] == '\n',
        block(time, text).subrange(time.len() + 2int, time.len() + 2int + text.len()) == text,
        ({
            let tail = block(time, text).skip((time.len() + 2 + text.len()) as int);
            &&& tail.len() == 30
            &&& tail.subrange(0, 4) == seq!['\r', '\n', '\r', '\n']
            &&& forall|i: int| 4 <= i < 26 ==> #[trigger] tail[i] == '\u{2550}'
            &&& tail.subrange(26, 30) == seq!['\r', '\n', '\r', '\n']
        }),
{
    let b = block(time, text);
    let tail = b.skip((time.len() + 2 + text.len()) as int);
    assert(b.subrange(0, time.len() as int) =~= time);
    assert(b.subrange(time.len() + 2int, time.len() + 2int + text.len()) =~= text);
    assert(tail.subrange(0, 4) =~= seq!['\r', '\n', '\r', '\n']);
    assert(tail.subrange(26, 30) =~= seq!['\r', '\n', '\r', '\n']);
}

/// Saving changes nothing of what a file held: it puts a block in front, the same whatever
/// the file held.
pub proof fn law_saving_keeps_the_file(
    old_content: Seq<char>,
    time: Seq<char>,
    text: Seq<char>,
)
    ensures
        saved(old_content, time, text).len() == old_content.len() + time.len() + text.len() + 32,
        saved(old_content, time, text).skip((time.len() + text.len() + 32) as int) == old_content,
        saved(old_content, time, text).take((time.len() + text.len() + 32) as int) == block(
            time,
            text,
        ),
{
    law_block_holds_the_whole_copy(time, text);
    let s = saved(old_content, time, text);
    let n = (time.len() + text.len() + 32) as int;
    assert(s.skip(n) =~= old_content);
    assert(s.take(n) =~= block(time, text));
}

/// The name of a file is `Clipboard`, the day as it is, and `.txt`.
pub proof fn law_file_name_holds_the_day(day: Seq<char>)
    ensures
        file_name_text(day).len() == day.len() + 13,
        file_name_text(day).subrange(0, 9) == seq!['C', 'l', 'i', 'p', 'b', 'o', 'a', 'r', 'd'],
        file_name_text(day).subrange(9, 9int + day.len()) == day,
        file_name_text(day).skip(9 + day.len() as int) == seq!['.', 't', 'x', 't'],
{
    reveal_strlit("Clipboard");
    reveal_strlit(".txt");
    let name = file_name_text(day);
    assert(name.subrange(0, 9) =~= seq!['C', 'l', 'i', 'p', 'b', 'o', 'a', 'r', 'd']);
    assert(name.subrange(9, 9int + day.len()) =~= day);
    assert(name.skip(9 + day.len() as int) =~= seq!['.', 't', 'x', 't']);
}

/// The number in the name of the file of a reading is made of its year, month and day.
pub proof fn law_file_name_reads_as_the_date(st: SystemTime)
    requires
        two_digit_date(st),
    ensures
        ({
            let name = file_name_text(day_text(st));
            value(name.subrange(9, name.len() - 4)) == 10000 * st.year + 100 * st.month + st.day
        }),
{
    law_file_name_holds_the_day(day_text(st));
    law_day_text_is_a_number(st);
}


} // verus!
