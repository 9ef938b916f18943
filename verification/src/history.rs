//! What holds of the recorder over any run of copies and flushes.
use crate::by_day::{
    grouped, has_file, law_each_day_keeps_its_entries, lemma_no_notes_of_other_days,
    lemma_notes_of_concat, notes_of, written, DayFileView, EntryView,
};
use crate::clock::{
    day_text, earlier_day, law_day_texts_follow_the_calendar, two_digit_date, SystemTime,
};
use crate::journal::{
    blocks_newest_first, law_newest_on_top, law_saving_in_two_goes, saved_all,
};
use crate::order::{law_exactly_one_standing, precedes};
use crate::recorder::{recorded, turned_away, RecorderView, EXIT_WAITS, EXIT_WAIT_MILLIS};
use vstd::prelude::*;

verus! {

/// Something that happens to the recorder: a reading of the clipboard ends, with or without
/// text, or a flush takes the copies that wait and writes them.
pub enum Event {
    Captured { text: Option<Seq<char>>, day: Seq<char>, time: Seq<char> },
    Flushed,
}

/// The memory after the events. Which work is under way does not matter here and is left as
/// it is.
pub open spec fn state_after(v: RecorderView, events: Seq<Event>) -> RecorderView
    decreases events.len(),
{
    if events.len() == 0 {
        v
    } else {
        let before = state_after(v, events.drop_last());
        match events.last() {
            Event::Captured { text, day, time } => recorded(before, text, day, time),
            Event::Flushed => RecorderView { pending: Seq::empty(), ..before },
        }
    }
}

/// The text that was copied last, where `last` was the last one before the events.
pub open spec fn last_text(last: Option<Seq<char>>, events: Seq<Event>) -> Option<Seq<char>>
    decreases events.len(),
{
    if events.len() == 0 {
        last
    } else {
        match events.last() {
            Event::Captured { text: Some(t), .. } => Some(t),
            _ => last_text(last, events.drop_last()),
        }
    }
}

/// The copies whose text differs from that of the copy just before, in their order.
pub open spec fn fresh(last: Option<Seq<char>>, events: Seq<Event>) -> Seq<EntryView>
    decreases events.len(),
{
    if events.len() == 0 {
        Seq::empty()
    } else {
        let before = fresh(last, events.drop_last());
        match events.last() {
            Event::Captured { text: Some(t), day, time } => if last_text(last, events.drop_last())
                == Some(t) {
                before
            } else {
                before.push(EntryView { day, time, text: t })
            },
            _ => before,
        }
    }
}

/// The copies that the flushes among the events took, in their order.
pub open spec fn taken(v: RecorderView, events: Seq<Event>) -> Seq<EntryView>
    decreases events.len(),
{
    if events.len() == 0 {
        Seq::empty()
    } else {
        let before = taken(v, events.drop_last());
        match events.last() {
            Event::Flushed => before + state_after(v, events.drop_last()).pending,
            _ => before,
        }
    }
}

/// What the file of `day` holds after the events, where it held `content` before them and
/// every write succeeds.
pub open spec fn content_after(
    v: RecorderView,
    content: Seq<char>,
    events: Seq<Event>,
    day: Seq<char>,
) -> Seq<char>
    decreases events.len(),
{
    if events.len() == 0 {
        content
    } else {
        let before = content_after(v, content, events.drop_last(), day);
        match events.last() {
            Event::Flushed => saved_all(
                before,
                notes_of(state_after(v, events.drop_last()).pending, day),
            ),
            _ => before,
        }
    }
}

/// What the file of `day` holds once the files of a flush have been written.
pub open spec fn content_with(
    content: Seq<char>,
    files: Seq<DayFileView>,
    day: Seq<char>,
) -> Seq<char> {
    saved_all(content, notes_of(written(files), day))
}

/// A flush adds to the file of each day exactly the copies of that day, in the order in
/// which they were made, also when it comes after midnight.
pub proof fn law_flush_writes_to_the_day_of_the_copy(
    pending: Seq<EntryView>,
    files: Seq<DayFileView>,
    content: Seq<char>,
    day: Seq<char>,
)
    requires
        grouped(pending, files),
    ensures
        content_with(content, files, day) == saved_all(content, notes_of(pending, day)),
        forall|i: int|
            0 <= i < files.len() && (#[trigger] files[i]).day == day ==> content_with(
                content,
                files,
                day,
            ) == saved_all(content, files[i].notes),
        !has_file(files, day) ==> content_with(content, files, day) == content,
{
    law_each_day_keeps_its_entries(pending, files, day);
    if !has_file(files, day) {
        lemma_no_notes_of_other_days(pending, day);
    }
}

/// The text remembered last is the one that was copied last.
pub proof fn law_last_text_is_remembered(v: RecorderView, events: Seq<Event>)
    ensures
        state_after(v, events).last == last_text(v.last, events),
    decreases events.len(),
{
    if events.len() > 0 {
        law_last_text_is_remembered(v, events.drop_last());
    }
}

/// Whatever happens, the copies taken by flushes and those that still wait are together
/// exactly the ones that waited at first and the fresh ones, in their order: none is lost,
/// none comes twice.
pub proof fn law_no_copy_is_lost(v: RecorderView, events: Seq<Event>)
    ensures
        taken(v, events) + state_after(v, events).pending == v.pending + fresh(v.last, events),
    decreases events.len(),
{
    if events.len() == 0 {
        assert(taken(v, events) + v.pending =~= v.pending + fresh(v.last, events));
    } else {
        law_no_copy_is_lost(v, events.drop_last());
        law_last_text_is_remembered(v, events.drop_last());
        let a = taken(v, events.drop_last());
        let p = state_after(v, events.drop_last()).pending;
        let f = fresh(v.last, events.drop_last());
        match events.last() {
            Event::Captured { text: Some(t), day, time } => {
                let e = EntryView { day, time, text: t };
                assert(a + p.push(e) =~= (a + p).push(e));
                assert(v.pending + f.push(e) =~= (v.pending + f).push(e));
            },
            Event::Captured { text: None, .. } => {},
            Event::Flushed => {
                assert((a + p) + Seq::<EntryView>::empty() =~= a + p);
            },
        }
    }
}

/// The last fresh copy has the text that was copied last; so no copy is passed over unless
/// its text has been recorded just before.
pub proof fn law_last_copy_is_recorded(last: Option<Seq<char>>, events: Seq<Event>)
    ensures
        last_text(last, events) != last || fresh(last, events).len() > 0 ==> {
            &&& fresh(last, events).len() > 0
            &&& last_text(last, events) == Some(fresh(last, events).last().text)
        },
    decreases events.len(),
{
    if events.len() > 0 {
        law_last_copy_is_recorded(last, events.drop_last());
    }
}

/// A text that is copied again right after itself is recorded once: no two neighbours among
/// the recorded copies have the same text.
pub proof fn law_no_repeats(last: Option<Seq<char>>, events: Seq<Event>)
    ensures
        forall|i: int, j: int|
            0 <= i < fresh(last, events).len() && j == i + 1 && j < fresh(last, events).len()
                ==> (#[trigger] fresh(last, events)[i]).text != (#[trigger] fresh(
                last,
                events,
            )[j]).text,
        fresh(last, events).len() > 0 ==> Some(fresh(last, events)[0].text) != last,
    decreases events.len(),
{
    if events.len() > 0 {
        law_no_repeats(last, events.drop_last());
        law_last_copy_is_recorded(last, events.drop_last());
    }
}

/// The file of a day after the events, together with the day's copies that still wait, is
/// what saving the day's copies one after another makes of the file as it was.
pub proof fn law_files_hold_the_history(
    v: RecorderView,
    content: Seq<char>,
    events: Seq<Event>,
    day: Seq<char>,
)
    ensures
        saved_all(
            content_after(v, content, events, day),
            notes_of(state_after(v, events).pending, day),
        ) == saved_all(content, notes_of(v.pending + fresh(v.last, events), day)),
        content_after(v, content, events, day) == saved_all(
            content,
            notes_of(taken(v, events), day),
        ),
    decreases events.len(),
{
    if events.len() > 0 {
        let front = events.drop_last();
        law_files_hold_the_history(v, content, front, day);
        if events.last() is Flushed {
            let waiting = state_after(v, front).pending;
            lemma_notes_of_concat(taken(v, front), waiting, day);
            law_saving_in_two_goes(
                content,
                notes_of(taken(v, front), day),
                notes_of(waiting, day),
            );
        }
    }
    law_no_copy_is_lost(v, events);
    lemma_notes_of_concat(taken(v, events), state_after(v, events).pending, day);
    law_saving_in_two_goes(
        content,
        notes_of(taken(v, events), day),
        notes_of(state_after(v, events).pending, day),
    );
}

/// Once everything has been flushed, the file of a day holds the blocks of the day's fresh
/// copies, the newest at the top, and below them what it held before.
pub proof fn law_flushed_file(
    v: RecorderView,
    content: Seq<char>,
    events: Seq<Event>,
    day: Seq<char>,
)
    requires
        v.pending.len() == 0,
    ensures
        content_after(v, content, events.push(Event::Flushed), day) == blocks_newest_first(
            notes_of(fresh(v.last, events), day),
        ) + content,
{
    let all = events.push(Event::Flushed);
    assert(all.drop_last() =~= events);
    law_files_hold_the_history(v, content, events, day);
    assert(v.pending + fresh(v.last, events) =~= fresh(v.last, events));
    law_newest_on_top(content, notes_of(fresh(v.last, events), day));
}

/// A flush writes the file of an earlier day before that of a later one, as long as the
/// years have equally many digits.
pub proof fn law_flush_writes_earlier_days_first(
    pending: Seq<EntryView>,
    files: Seq<DayFileView>,
    i: int,
    j: int,
    a: SystemTime,
    b: SystemTime,
)
    requires
        grouped(pending, files),
        0 <= i < files.len(),
        0 <= j < files.len(),
        files[i].day == day_text(a),
        files[j].day == day_text(b),
        two_digit_date(a),
        two_digit_date(b),
        a.year <= 9999 <==> b.year <= 9999,
    ensures
        i < j <==> earlier_day(a, b),
{
    law_day_texts_follow_the_calendar(a, b);
    law_exactly_one_standing(day_text(a), day_text(b));
    if j < i {
        assert(precedes(files[j].day, files[i].day));
    }
}

/// The last flush waits at most half a second for one that is under way, and then goes on.
pub proof fn law_last_flush_waits_half_a_second(v: RecorderView, waited: u32)
    ensures
        turned_away(v, true, waited) ==> (waited + 1) * EXIT_WAIT_MILLIS <= 500,
        waited >= EXIT_WAITS ==> !turned_away(v, true, waited),
{
}

} // verus!
