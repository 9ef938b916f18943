//! What the recorder remembers between two messages: the last text, the copies that wait
//! for being written, and which work is under way.
use crate::by_day::{
    day_file_views, entry_views, group_by_day, grouped, DayFile, Entry, EntryView,
};
use crate::clock::{day_text, get_time_string, get_today_string, time_text, SystemTime};
use vstd::prelude::*;

verus! {

/// How often the last flush waits for one that is under way.
pub const EXIT_WAITS: u32 = 50;

/// How long it waits each time, in milliseconds.
pub const EXIT_WAIT_MILLIS: u64 = 10;

/// The memory of the recorder.
#[derive(Debug)]
pub struct Recorder {
    last: Option<String>,
    pending: Vec<Entry>,
    processing: bool,
    flushing: bool,
}

/// What a `Recorder` holds: the text that was copied last, the copies that wait for being
/// written, whether a reading of the clipboard is under way, and whether a flush is.
#[verifier::ext_equal]
pub struct RecorderView {
    pub last: Option<Seq<char>>,
    pub pending: Seq<EntryView>,
    pub processing: bool,
    pub flushing: bool,
}

pub open spec fn text_view(text: Option<String>) -> Option<Seq<char>> {
    match text {
        Some(s) => Some(s@),
        None => None,
    }
}

impl View for Recorder {
    type V = RecorderView;

    closed spec fn view(&self) -> RecorderView {
        RecorderView {
            last: text_view(self.last),
            pending: entry_views(self.pending@),
            processing: self.processing,
            flushing: self.flushing,
        }
    }
}

/// The memory after a reading of the clipboard that ended with `text`: a text that differs
/// from the last one becomes the last one and is queued under its day and time; anything
/// else changes nothing.
pub open spec fn recorded(
    v: RecorderView,
    text: Option<Seq<char>>,
    day: Seq<char>,
    time: Seq<char>,
) -> RecorderView {
    match text {
        Some(t) => if v.last == Some(t) {
            v
        } else {
            RecorderView {
                last: Some(t),
                pending: v.pending.push(EntryView { day, time, text: t }),
                ..v
            }
        },
        None => v,
    }
}

/// What a flush does next.
#[derive(Debug)]
pub enum FlushStep {
    /// There is nothing to do, or another flush is doing it.
    Stop,
    /// Sleep, and then ask again with this count of waits.
    Wait { millis: u64, waited: u32 },
    /// Write these files, and then report that the flush has finished.
    Write { files: Vec<DayFile> },
}

/// Whether a flush is turned away because one is under way: one of the timer always is, the
/// last one only until it has waited long enough.
pub open spec fn turned_away(v: RecorderView, ignore_flushing: bool, waited: u32) -> bool {
    v.flushing && (!ignore_flushing || waited < EXIT_WAITS)
}

impl Recorder {
    /// A recorder that has seen no copy.
    pub fn new() -> (r: Recorder)
        ensures
            r@ == (RecorderView {
                last: None,
                pending: Seq::empty(),
                processing: false,
                flushing: false,
            }),
    {
        let r = Recorder { last: None, pending: Vec::new(), processing: false, flushing: false };
        assert(r@.pending =~= Seq::<EntryView>::empty());
        r
    }

    /// Asks whether a reading of the clipboard may begin. It may not while one is under way.
    pub fn begin_capture(&mut self) -> (r: bool)
        ensures
            r == !old(self)@.processing,
            final(self)@ == (RecorderView { processing: true, ..old(self)@ }),
    {
        if self.processing {
            return false;
        }
        self.processing = true;
        true
    }

    /// Reports how a reading of the clipboard ended. `day_reading` and `time_reading` are
    /// the two readings of the clock that go with it.
    pub fn finish_capture(
        &mut self,
        text: Option<String>,
        day_reading: &SystemTime,
        time_reading: &SystemTime,
    )
        ensures
            final(self)@ == (RecorderView {
                processing: false,
                ..recorded(
                    old(self)@,
                    text_view(text),
                    day_text(*day_reading),
                    time_text(*time_reading),
                )
            }),
    {
        self.processing = false;
        if let Some(t) = text {
            if let Some(prev) = &self.last {
                if *prev == t {
                    return ;
                }
            }
            self.last = Some(t.clone());
            self.pending.push(
                Entry {
                    day: get_today_string(day_reading),
                    time: get_time_string(time_reading),
                    text: t,
                },
            );
            assert(self@.pending =~= old(self)@.pending.push(
                EntryView {
                    day: day_text(*day_reading),
                    time: time_text(*time_reading),
                    text: t@,
                },
            ));
        }
    }

    /// Asks what a flush has to do. `ignore_flushing` marks the last flush, which waits for
    /// one that is under way, and `waited` says how often it has waited already. A flush
    /// that may write takes all copies that wait, grouped by the day of the copy.
    pub fn flush_pending(&mut self, ignore_flushing: bool, waited: u32) -> (r: FlushStep)
        ensures
            turned_away(old(self)@, ignore_flushing, waited) ==> {
                &&& final(self)@ == old(self)@
                &&& !ignore_flushing ==> r == FlushStep::Stop
                &&& ignore_flushing ==> r == (FlushStep::Wait {
                    millis: EXIT_WAIT_MILLIS,
                    waited: (waited + 1) as u32,
                })
            },
            !turned_away(old(self)@, ignore_flushing, waited) && old(self)@.pending.len() == 0 ==> {
                &&& r == FlushStep::Stop
                &&& final(self)@ == (RecorderView { flushing: false, ..old(self)@ })
            },
            !turned_away(old(self)@, ignore_flushing, waited) && old(self)@.pending.len() > 0 ==> {
                &&& r matches FlushStep::Write { files }
                &&& grouped(old(self)@.pending, day_file_views(files@))
                &&& final(self)@ == (RecorderView {
                    pending: Seq::empty(),
                    flushing: true,
                    ..old(self)@
                })
            },
    {
        if self.flushing {
            if !ignore_flushing {
                return FlushStep::Stop;
            }
            if waited < EXIT_WAITS {
                return FlushStep::Wait { millis: EXIT_WAIT_MILLIS, waited: waited + 1 };
            }
        }
        if self.pending.len() == 0 {
            self.flushing = false;
            return FlushStep::Stop;
        }
        self.flushing = true;
        let mut entries: Vec<Entry> = Vec::new();
        std::mem::swap(&mut entries, &mut self.pending);
        assert(self@.pending =~= Seq::<EntryView>::empty());
        FlushStep::Write { files: group_by_day(entries) }
    }

    /// Reports that the files of a flush have been written.
    pub fn finish_flush(&mut self)
        ensures
            final(self)@ == (RecorderView { flushing: false, ..old(self)@ }),
    {
        self.flushing = false;
    }
}

/// A text that differs from the last one is queued behind the copies that wait, whole and
/// with its own day and time, and is the last one from then on.
pub proof fn law_new_text_is_queued(
    v: RecorderView,
    text: Seq<char>,
    day: Seq<char>,
    time: Seq<char>,
)
    requires
        v.last != Some(text),
    ensures
        ({
            let r = recorded(v, Some(text), day, time);
            &&& r.last == Some(text)
            &&& r.pending.len() == v.pending.len() + 1
            &&& r.pending.drop_last() == v.pending
            &&& r.pending.last().text == text
            &&& r.pending.last().day == day
            &&& r.pending.last().time == time
            &&& r.processing == v.processing
            &&& r.flushing == v.flushing
        }),
{
    assert(recorded(v, Some(text), day, time).pending.drop_last() =~= v.pending);
}

/// The text that was copied last changes nothing when it comes again, and neither does a
/// reading without text.
pub proof fn law_repeat_changes_nothing(v: RecorderView, day: Seq<char>, time: Seq<char>)
    ensures
        recorded(v, v.last, day, time) == v,
        recorded(v, None, day, time) == v,
{
}

/// Of two copies in a row the second is queued exactly when its text is another one.
pub proof fn law_two_copies_in_a_row(
    v: RecorderView,
    first: Seq<char>,
    second: Seq<char>,
    day: Seq<char>,
    time: Seq<char>,
    later_day: Seq<char>,
    later_time: Seq<char>,
)
    ensures
        ({
            let one = recorded(v, Some(first), day, time);
            let two = recorded(one, Some(second), later_day, later_time);
            two.pending.len() == one.pending.len() + if first == second {
                0int
            } else {
                1int
            }
        }),
{
}

/// Nothing is turned away while no flush is under way. While one is, a flush of the timer
/// always is, and the last one until it has waited fifty times, ten milliseconds each.
pub proof fn law_who_is_turned_away(v: RecorderView, waited: u32)
    ensures
        !v.flushing ==> !turned_away(v, true, waited) && !turned_away(v, false, waited),
        v.flushing ==> turned_away(v, false, waited),
        v.flushing ==> (turned_away(v, true, waited) <==> waited < 50),
        EXIT_WAIT_MILLIS == 10,
{
}

/// The text of a reading is seen as it is.
pub proof fn law_text_is_seen_whole(text: Option<String>)
    ensures
        text is Some <==> text_view(text) is Some,
        text matches Some(s) ==> text_view(text) == Some(s@),
{
}


} // verus!
