//! Copies that wait for being written, and their grouping by the day they were made on.
use crate::order::{
    law_exactly_one_standing, law_precedes_is_transitive, precedes, standing, Standing,
};
use vstd::prelude::*;

verus! {

/// A copy that waits for being written: the day and the time at which it was made, and its
/// text.
#[derive(Debug)]
pub struct Entry {
    pub day: String,
    pub time: String,
    pub text: String,
}

/// What an `Entry` holds.
#[verifier::ext_equal]
pub struct EntryView {
    pub day: Seq<char>,
    pub time: Seq<char>,
    pub text: Seq<char>,
}

impl View for Entry {
    type V = EntryView;

    open spec fn view(&self) -> EntryView {
        EntryView { day: self.day@, time: self.time@, text: self.text@ }
    }
}

/// The copies of one day, each as its time and its text, in the order in which they go to
/// the day's file.
#[derive(Debug)]
pub struct DayFile {
    pub day: String,
    pub notes: Vec<(String, String)>,
}

/// What a `DayFile` holds.
#[verifier::ext_equal]
pub struct DayFileView {
    pub day: Seq<char>,
    pub notes: Seq<(Seq<char>, Seq<char>)>,
}

impl View for DayFile {
    type V = DayFileView;

    open spec fn view(&self) -> DayFileView {
        DayFileView { day: self.day@, notes: note_views(self.notes@) }
    }
}

pub open spec fn note_views(notes: Seq<(String, String)>) -> Seq<(Seq<char>, Seq<char>)> {
    notes.map_values(|n: (String, String)| (n.0@, n.1@))
}

pub open spec fn entry_views(entries: Seq<Entry>) -> Seq<EntryView> {
    entries.map_values(|e: Entry| e@)
}

pub open spec fn day_file_views(files: Seq<DayFile>) -> Seq<DayFileView> {
    files.map_values(|f: DayFile| f@)
}

/// The copies of `day`, in the order in which they were made.
pub open spec fn notes_of(entries: Seq<EntryView>, day: Seq<char>) -> Seq<(Seq<char>, Seq<char>)>
    decreases entries.len(),
{
    if entries.len() == 0 {
        Seq::empty()
    } else {
        let rest = notes_of(entries.drop_last(), day);
        let e = entries.last();
        if e.day == day {
            rest.push((e.time, e.text))
        } else {
            rest
        }
    }
}

/// Whether some entry was made on `day`.
pub open spec fn has_day(entries: Seq<EntryView>, day: Seq<char>) -> bool {
    exists|i: int| 0 <= i < entries.len() && (#[trigger] entries[i]).day == day
}

/// Whether the files stand in strictly rising order of their days.
pub open spec fn days_rise(files: Seq<DayFileView>) -> bool {
    forall|i: int, j: int|
        0 <= i < j < files.len() ==> precedes((#[trigger] files[i]).day, (#[trigger] files[j]).day)
}

/// Whether there is a file for `day`.
pub open spec fn has_file(files: Seq<DayFileView>, day: Seq<char>) -> bool {
    exists|i: int| 0 <= i < files.len() && (#[trigger] files[i]).day == day
}

/// Whether the files are the entries grouped by day: one file for each day on which an
/// entry was made and for no other day, the days rising, and in each file the entries of
/// its day in the order in which they were made.
pub open spec fn grouped(entries: Seq<EntryView>, files: Seq<DayFileView>) -> bool {
    &&& days_rise(files)
    &&& forall|day: Seq<char>| #[trigger] has_file(files, day) <==> has_day(entries, day)
    &&& forall|i: int|
        0 <= i < files.len() ==> (#[trigger] files[i]).notes == notes_of(entries, files[i].day)
}

proof fn lemma_has_day_push(entries: Seq<EntryView>, e: EntryView, day: Seq<char>)
    ensures
        has_day(entries.push(e), day) <==> has_day(entries, day) || e.day == day,
{
    let all = entries.push(e);
    if has_day(entries, day) {
        let k = choose|k: int| 0 <= k < entries.len() && (#[trigger] entries[k]).day == day;
        assert(all[k].day == day);
    }
    if e.day == day {
        assert(all[entries.len() as int].day == day);
    }
    if has_day(all, day) {
        let k = choose|k: int| 0 <= k < all.len() && (#[trigger] all[k]).day == day;
        if k < entries.len() {
            assert(entries[k].day == day);
        }
    }
}

/// Where no entry was made on a day, it has no notes.
pub(crate) proof fn lemma_no_notes_of_other_days(entries: Seq<EntryView>, day: Seq<char>)
    requires
        !has_day(entries, day),
    ensures
        notes_of(entries, day) == Seq::<(Seq<char>, Seq<char>)>::empty(),
    decreases entries.len(),
{
    if entries.len() > 0 {
        assert(entries =~= entries.drop_last().push(entries.last()));
        lemma_has_day_push(entries.drop_last(), entries.last(), day);
        lemma_no_notes_of_other_days(entries.drop_last(), day);
    }
}

/// An entry of a day that has a file already.
proof fn lemma_day_known(
    before: Seq<EntryView>,
    e: EntryView,
    had: Seq<DayFileView>,
    now: Seq<DayFileView>,
    i: int,
)
    requires
        grouped(before, had),
        0 <= i < had.len(),
        had[i].day == e.day,
        now == had.update(
            i,
            (DayFileView { day: had[i].day, notes: had[i].notes.push((e.time, e.text)) }),
        ),
    ensures
        grouped(before.push(e), now),
{
    let all = before.push(e);
    assert(all.drop_last() =~= before);
    assert(forall|k: int| 0 <= k < had.len() ==> (#[trigger] now[k]).day == had[k].day);
    assert forall|day: Seq<char>| #[trigger] has_file(now, day) <==> has_day(all, day) by {
        lemma_has_day_push(before, e, day);
        assert(has_file(had, day) <==> has_day(before, day));
        if has_file(had, day) {
            let k = choose|k: int| 0 <= k < had.len() && (#[trigger] had[k]).day == day;
            assert(now[k].day == day);
        }
        if e.day == day {
            assert(now[i].day == day);
        }
        if has_file(now, day) {
            let k = choose|k: int| 0 <= k < now.len() && (#[trigger] now[k]).day == day;
            assert(had[k].day == day);
        }
    }
    assert forall|a: int, b: int| 0 <= a < b < now.len() implies precedes(
        (#[trigger] now[a]).day,
        (#[trigger] now[b]).day,
    ) by {
        assert(precedes(had[a].day, had[b].day));
    }
    assert forall|k: int| 0 <= k < now.len() implies (#[trigger] now[k]).notes == notes_of(
        all,
        now[k].day,
    ) by {
        assert(had[k].notes == notes_of(before, had[k].day));
        if k < i {
            assert(precedes(had[k].day, had[i].day));
            law_exactly_one_standing(had[k].day, had[i].day);
        } else if k > i {
            assert(precedes(had[i].day, had[k].day));
            law_exactly_one_standing(had[i].day, had[k].day);
        }
    }
}

/// An entry of a day that has no file yet.
proof fn lemma_day_new(
    before: Seq<EntryView>,
    e: EntryView,
    had: Seq<DayFileView>,
    now: Seq<DayFileView>,
    i: int,
)
    requires
        grouped(before, had),
        0 <= i <= had.len(),
        forall|k: int| 0 <= k < i ==> precedes((#[trigger] had[k]).day, e.day),
        i < had.len() ==> precedes(e.day, had[i].day),
        now == had.insert(i, (DayFileView { day: e.day, notes: seq![(e.time, e.text)] })),
    ensures
        grouped(before.push(e), now),
{
    let all = before.push(e);
    assert(all.drop_last() =~= before);
    assert forall|k: int| i <= k < had.len() implies precedes(e.day, (#[trigger] had[k]).day) by {
        if k > i {
            assert(precedes(had[i].day, had[k].day));
            law_precedes_is_transitive(e.day, had[i].day, had[k].day);
        }
    }
    assert forall|k: int| 0 <= k < had.len() implies (#[trigger] had[k]).day != e.day by {
        law_exactly_one_standing(had[k].day, e.day);
    }
    assert(!has_file(had, e.day));
    assert(!has_day(before, e.day));
    lemma_no_notes_of_other_days(before, e.day);
    assert(forall|k: int| 0 <= k < i ==> #[trigger] now[k] == had[k]);
    assert(forall|k: int| i < k < now.len() ==> #[trigger] now[k] == had[k - 1]);
    assert forall|day: Seq<char>| #[trigger] has_file(now, day) <==> has_day(all, day) by {
        lemma_has_day_push(before, e, day);
        assert(has_file(had, day) <==> has_day(before, day));
        if has_file(had, day) {
            let k = choose|k: int| 0 <= k < had.len() && (#[trigger] had[k]).day == day;
            if k < i {
                assert(now[k].day == day);
            } else {
                assert(now[k + 1].day == day);
            }
        }
        if e.day == day {
            assert(now[i].day == day);
        }
        if has_file(now, day) {
            let k = choose|k: int| 0 <= k < now.len() && (#[trigger] now[k]).day == day;
            if k < i {
                assert(had[k].day == day);
            } else if k > i {
                assert(had[k - 1].day == day);
            }
        }
    }
    assert forall|a: int, b: int| 0 <= a < b < now.len() implies precedes(
        (#[trigger] now[a]).day,
        (#[trigger] now[b]).day,
    ) by {
        let x = if a < i { a } else { a - 1 };
        let y = if b < i { b } else { b - 1 };
        if a != i && b != i {
            assert(precedes(had[x].day, had[y].day));
        }
    }
    assert forall|k: int| 0 <= k < now.len() implies (#[trigger] now[k]).notes == notes_of(
        all,
        now[k].day,
    ) by {
        if k == i {
            assert(seq![(e.time, e.text)] =~= Seq::<(Seq<char>, Seq<char>)>::empty().push(
                (e.time, e.text),
            ));
        } else {
            let x = if k < i { k } else { k - 1 };
            assert(had[x].day != e.day);
            assert(had[x].notes == notes_of(before, had[x].day));
        }
    }
}

/// Puts one more entry into the files of the entries before it.
fn add_entry(files: &mut Vec<DayFile>, entry: Entry, Ghost(before): Ghost<Seq<EntryView>>)
    requires
        grouped(before, day_file_views(old(files)@)),
    ensures
        grouped(before.push(entry@), day_file_views(final(files)@)),
{
    let ghost all = before.push(entry@);
    let ghost had = day_file_views(files@);
    assert(all.drop_last() =~= before);
    let mut i: usize = 0;
    while i < files.len()
        invariant_except_break
            i <= files@.len(),
            *files == *old(files),
            had == day_file_views(files@),
            forall|k: int| 0 <= k < i ==> precedes((#[trigger] had[k]).day, entry@.day),
        ensures
            i <= files@.len(),
            *files == *old(files),
            had == day_file_views(files@),
            forall|k: int| 0 <= k < i ==> precedes((#[trigger] had[k]).day, entry@.day),
            i < files@.len() ==> !precedes(had[i as int].day, entry@.day),
        decreases files@.len() - i,
    {
        assert(had[i as int] == files@[i as int]@);
        match standing(files[i].day.as_str(), entry.day.as_str()) {
            Standing::Before => {
                i += 1;
            },
            _ => {
                break;
            },
        }
    }
    let ghost view = entry@;
    if i < files.len() && files[i].day == entry.day {
        files[i].notes.push((entry.time, entry.text));
        proof {
            let now = day_file_views(files@);
            assert(note_views(files@[i as int].notes@) =~= had[i as int].notes.push(
                (view.time, view.text),
            ));
            assert(now =~= had.update(
                i as int,
                DayFileView {
                    day: had[i as int].day,
                    notes: had[i as int].notes.push((view.time, view.text)),
                },
            ));
            lemma_day_known(before, view, had, now, i as int);
        }
    } else {
        let Entry { day, time, text } = entry;
        let mut notes: Vec<(String, String)> = Vec::new();
        notes.push((time, text));
        files.insert(i, DayFile { day, notes });
        proof {
            let now = day_file_views(files@);
            assert(note_views(files@[i as int].notes@) =~= seq![(view.time, view.text)]);
            assert(now =~= had.insert(
                i as int,
                DayFileView { day: view.day, notes: seq![(view.time, view.text)] },
            ));
            if i < had.len() {
                law_exactly_one_standing(had[i as int].day, view.day);
            }
            lemma_day_new(before, view, had, now, i as int);
        }
    }
}

/// The notes of a file as the entries that they were.
pub open spec fn entries_of_file(file: DayFileView) -> Seq<EntryView> {
    Seq::new(
        file.notes.len(),
        |i: int| EntryView { day: file.day, time: file.notes[i].0, text: file.notes[i].1 },
    )
}

/// The entries in the order in which the files take them: file by file, and in each file
/// from its first note to its last.
pub open spec fn written(files: Seq<DayFileView>) -> Seq<EntryView>
    decreases files.len(),
{
    if files.len() == 0 {
        Seq::empty()
    } else {
        written(files.drop_last()) + entries_of_file(files.last())
    }
}

/// The entries grouped by the day on which they were made.
pub fn group_by_day(entries: Vec<Entry>) -> (files: Vec<DayFile>)
    ensures
        grouped(entry_views(entries@), day_file_views(files@)),
{
    let mut files: Vec<DayFile> = Vec::new();
    let ghost all = entry_views(entries@);
    for entry in iter: entries
        invariant
            iter.seq() == entries@,
            all == entry_views(entries@),
            grouped(all.take(iter.index()), day_file_views(files@)),
    {
        let ghost before = all.take(iter.index());
        assert(all.take(iter.index() + 1) =~= before.push(entry@));
        add_entry(&mut files, entry, Ghost(before));
    }
    assert(all.take(all.len() as int) =~= all);
    files
}

/// The days for which there is a file fix the order of the files.
proof fn lemma_rising_days_are_fixed(a: Seq<DayFileView>, b: Seq<DayFileView>)
    requires
        days_rise(a),
        days_rise(b),
        forall|day: Seq<char>| #[trigger] has_file(a, day) <==> has_file(b, day),
    ensures
        a.len() == b.len(),
        forall|i: int| 0 <= i < a.len() ==> (#[trigger] a[i]).day == b[i].day,
    decreases a.len(),
{
    if a.len() == 0 {
        if b.len() > 0 {
            assert(b[0].day == b[0].day);
            assert(has_file(b, b[0].day));
            assert(has_file(a, b[0].day));
        }
    } else {
        let x = a.last().day;
        assert(a[a.len() - 1].day == x);
        assert(has_file(a, x));
        assert(has_file(b, x));
        let y = b.last().day;
        assert(b[b.len() - 1].day == y);
        assert(has_file(b, y));
        assert(has_file(a, y));
        let p = choose|p: int| 0 <= p < b.len() && (#[trigger] b[p]).day == x;
        let q = choose|q: int| 0 <= q < a.len() && (#[trigger] a[q]).day == y;
        law_exactly_one_standing(x, y);
        assert(x == y);
        let c = a.drop_last();
        let d = b.drop_last();
        assert forall|day: Seq<char>| #[trigger] has_file(c, day) <==> has_file(d, day) by {
            assert(has_file(a, day) <==> has_file(b, day));
            if has_file(c, day) {
                let k = choose|k: int| 0 <= k < c.len() && (#[trigger] c[k]).day == day;
                assert(a[k].day == day);
                assert(precedes(a[k].day, a[a.len() - 1].day));
                law_exactly_one_standing(day, x);
                assert(has_file(b, day));
                let m = choose|m: int| 0 <= m < b.len() && (#[trigger] b[m]).day == day;
                assert(d[m].day == day);
            }
            if has_file(d, day) {
                let k = choose|k: int| 0 <= k < d.len() && (#[trigger] d[k]).day == day;
                assert(b[k].day == day);
                assert(precedes(b[k].day, b[b.len() - 1].day));
                law_exactly_one_standing(day, y);
                assert(has_file(a, day));
                let m = choose|m: int| 0 <= m < a.len() && (#[trigger] a[m]).day == day;
                assert(c[m].day == day);
            }
        }
        lemma_rising_days_are_fixed(c, d);
        assert forall|i: int| 0 <= i < a.len() implies (#[trigger] a[i]).day == b[i].day by {
            if i < a.len() - 1 {
                assert(c[i].day == d[i].day);
            }
        }
    }
}

/// There is one way only to group entries by day.
pub proof fn law_grouping_is_unique(
    entries: Seq<EntryView>,
    a: Seq<DayFileView>,
    b: Seq<DayFileView>,
)
    requires
        grouped(entries, a),
        grouped(entries, b),
    ensures
        a == b,
{
    assert forall|day: Seq<char>| #[trigger] has_file(a, day) <==> has_file(b, day) by {
        assert(has_file(a, day) <==> has_day(entries, day));
    }
    lemma_rising_days_are_fixed(a, b);
    assert forall|i: int| 0 <= i < a.len() implies a[i] == b[i] by {
        assert(a[i].day == b[i].day);
        assert(a[i].notes == notes_of(entries, a[i].day));
        assert(b[i].notes == notes_of(entries, b[i].day));
    }
    assert(a =~= b);
}

/// The notes of a day come first from the entries in front and then from the ones behind.
pub(crate) proof fn lemma_notes_of_concat(a: Seq<EntryView>, b: Seq<EntryView>, day: Seq<char>)
    ensures
        notes_of(a + b, day) == notes_of(a, day) + notes_of(b, day),
    decreases b.len(),
{
    if b.len() == 0 {
        assert(a + b =~= a);
        assert(notes_of(a, day) + notes_of(b, day) =~= notes_of(a, day));
    } else {
        lemma_notes_of_concat(a, b.drop_last(), day);
        assert((a + b).drop_last() =~= a + b.drop_last());
        assert((a + b).last() == b.last());
        assert(notes_of(a + b, day) =~= notes_of(a, day) + notes_of(b, day));
    }
}

proof fn lemma_notes_of_file(file: DayFileView, day: Seq<char>)
    ensures
        notes_of(entries_of_file(file), day) == if day == file.day {
            file.notes
        } else {
            Seq::empty()
        },
    decreases file.notes.len(),
{
    let es = entries_of_file(file);
    if file.notes.len() == 0 {
        assert(es =~= Seq::<EntryView>::empty());
        assert(file.notes =~= Seq::<(Seq<char>, Seq<char>)>::empty());
    } else {
        let shorter = DayFileView { day: file.day, notes: file.notes.drop_last() };
        lemma_notes_of_file(shorter, day);
        assert(es.drop_last() =~= entries_of_file(shorter));
        assert(file.notes =~= file.notes.drop_last().push(file.notes.last()));
    }
}

proof fn lemma_notes_of_written(files: Seq<DayFileView>, day: Seq<char>)
    requires
        days_rise(files),
    ensures
        !has_file(files, day) ==> notes_of(written(files), day) == Seq::<
            (Seq<char>, Seq<char>),
        >::empty(),
        forall|i: int|
            0 <= i < files.len() && (#[trigger] files[i]).day == day ==> notes_of(
                written(files),
                day,
            ) == files[i].notes,
    decreases files.len(),
{
    if files.len() > 0 {
        let front = files.drop_last();
        let end = files.last();
        lemma_notes_of_written(front, day);
        lemma_notes_of_concat(written(front), entries_of_file(end), day);
        lemma_notes_of_file(end, day);
        assert(files[files.len() - 1] == end);
        if end.day == day {
            assert forall|k: int| 0 <= k < front.len() implies (#[trigger] front[k]).day != day by {
                assert(precedes(files[k].day, files[files.len() - 1].day));
                law_exactly_one_standing(files[k].day, day);
            }
            assert(!has_file(front, day));
            assert(notes_of(written(files), day) =~= end.notes);
            assert forall|i: int| 0 <= i < files.len() && (#[trigger] files[i]).day == day implies i
                == files.len() - 1 by {
                if i < files.len() - 1 {
                    assert(front[i].day == day);
                }
            }
        } else {
            assert(notes_of(written(files), day) =~= notes_of(written(front), day));
            if has_file(front, day) {
                let k = choose|k: int| 0 <= k < front.len() && (#[trigger] front[k]).day == day;
                assert(files[k].day == day);
            }
            assert forall|i: int| 0 <= i < files.len() && (#[trigger] files[i]).day
                == day implies notes_of(written(files), day) == files[i].notes by {
                assert(front[i].day == day);
            }
        }
    }
}

/// Of each day the files take exactly the entries of that day, in the order in which they
/// were made.
pub proof fn law_each_day_keeps_its_entries(
    entries: Seq<EntryView>,
    files: Seq<DayFileView>,
    day: Seq<char>,
)
    requires
        grouped(entries, files),
    ensures
        notes_of(written(files), day) == notes_of(entries, day),
{
    lemma_notes_of_written(files, day);
    assert(has_file(files, day) <==> has_day(entries, day));
    if has_file(files, day) {
        let k = choose|k: int| 0 <= k < files.len() && (#[trigger] files[k]).day == day;
        assert(files[k].notes == notes_of(entries, day));
    } else {
        lemma_no_notes_of_other_days(entries, day);
    }
}

proof fn lemma_count_by_day(entries: Seq<EntryView>, x: EntryView)
    ensures
        entries.to_multiset().count(x) == notes_of(entries, x.day).to_multiset().count(
            (x.time, x.text),
        ),
    decreases entries.len(),
{
    broadcast use vstd::seq_lib::group_to_multiset_ensures;

    if entries.len() > 0 {
        let front = entries.drop_last();
        lemma_count_by_day(front, x);
        assert(entries =~= front.push(entries.last()));
    }
}

/// Grouping loses no entry and doubles none.
pub proof fn law_grouping_keeps_every_entry(entries: Seq<EntryView>, files: Seq<DayFileView>)
    requires
        grouped(entries, files),
    ensures
        written(files).to_multiset() == entries.to_multiset(),
{
    assert forall|x: EntryView| #[trigger]
        written(files).to_multiset().count(x) == entries.to_multiset().count(x) by {
        law_each_day_keeps_its_entries(entries, files, x.day);
        lemma_count_by_day(entries, x);
        lemma_count_by_day(written(files), x);
    }
    assert(written(files).to_multiset() =~= entries.to_multiset());
}

/// What an entry and a file show is what they hold.
pub proof fn law_views_show_every_field(entry: Entry, file: DayFile, k: int)
    ensures
        entry@.day == entry.day@,
        entry@.time == entry.time@,
        entry@.text == entry.text@,
        file@.day == file.day@,
        file@.notes.len() == file.notes@.len(),
        0 <= k < file.notes@.len() ==> file@.notes[k] == (file.notes@[k].0@, file.notes@[k].1@),
{
}

/// Lists of entries and of files are seen item by item.
pub proof fn law_lists_are_seen_item_by_item(
    entries: Seq<Entry>,
    files: Seq<DayFile>,
    i: int,
    j: int,
)
    ensures
        entry_views(entries).len() == entries.len(),
        0 <= i < entries.len() ==> entry_views(entries)[i] == entries[i]@,
        day_file_views(files).len() == files.len(),
        0 <= j < files.len() ==> day_file_views(files)[j] == files[j]@,
{
}

/// Whether the notes are those of the entries at the places `at`, one for one, and these
/// places are, in rising order, all the places of entries of `day`.
pub open spec fn picks(
    entries: Seq<EntryView>,
    day: Seq<char>,
    at: Seq<int>,
    notes: Seq<(Seq<char>, Seq<char>)>,
) -> bool {
    &&& at.len() == notes.len()
    &&& forall|m: int, n: int| 0 <= m < n < at.len() ==> #[trigger] at[m] < #[trigger] at[n]
    &&& forall|n: int|
        0 <= n < at.len() ==> {
            &&& 0 <= #[trigger] at[n] < entries.len()
            &&& entries[at[n]].day == day
            &&& notes[n] == (entries[at[n]].time, entries[at[n]].text)
        }
    &&& forall|i: int|
        0 <= i < entries.len() && (#[trigger] entries[i]).day == day ==> at.contains(i)
}

/// The places of the entries of a day.
spec fn places_of(entries: Seq<EntryView>, day: Seq<char>) -> Seq<int>
    decreases entries.len(),
{
    if entries.len() == 0 {
        Seq::empty()
    } else {
        let before = places_of(entries.drop_last(), day);
        if entries.last().day == day {
            before.push(entries.len() - 1)
        } else {
            before
        }
    }
}

proof fn lemma_notes_are_picked(entries: Seq<EntryView>, day: Seq<char>)
    ensures
        picks(entries, day, places_of(entries, day), notes_of(entries, day)),
    decreases entries.len(),
{
    if entries.len() > 0 {
        let front = entries.drop_last();
        let last = entries.len() - 1;
        lemma_notes_are_picked(front, day);
        let was = places_of(front, day);
        let at = places_of(entries, day);
        assert forall|i: int|
            0 <= i < entries.len() && (#[trigger] entries[i]).day == day implies at.contains(i) by {
            if i < last {
                assert(front[i].day == day);
                assert(was.contains(i));
                let n = was.index_of(i);
                assert(at[n] == i);
            } else {
                assert(at[at.len() - 1] == i);
            }
        }
        assert forall|n: int| 0 <= n < at.len() implies {
            &&& 0 <= #[trigger] at[n] < entries.len()
            &&& entries[at[n]].day == day
            &&& notes_of(entries, day)[n] == (entries[at[n]].time, entries[at[n]].text)
        } by {
            if n < was.len() {
                assert(at[n] == was[n]);
                assert(front[was[n]] == entries[was[n]]);
            }
        }
        assert forall|m: int, n: int| 0 <= m < n < at.len() implies #[trigger] at[m]
            < #[trigger] at[n] by {
            assert(at[m] == was[m]);
            if n < was.len() {
                assert(at[n] == was[n]);
            }
        }
    }
}

/// A file holds the time and the text of every entry of its day, each once and in the order
/// in which they were made, and nothing else. There is no file without one.
pub proof fn law_file_holds_the_entries_of_its_day(
    entries: Seq<EntryView>,
    files: Seq<DayFileView>,
    k: int,
)
    requires
        grouped(entries, files),
        0 <= k < files.len(),
    ensures
        exists|at: Seq<int>| picks(entries, files[k].day, at, files[k].notes),
        files[k].notes.len() > 0,
{
    let day = files[k].day;
    lemma_notes_are_picked(entries, day);
    assert(files[k].notes == notes_of(entries, day));
    assert(has_file(files, day));
    assert(has_day(entries, day));
    let i = choose|i: int| 0 <= i < entries.len() && (#[trigger] entries[i]).day == day;
    assert(places_of(entries, day).contains(i));
}

/// Every entry has its note in the file of its day.
pub proof fn law_every_entry_has_its_note(
    entries: Seq<EntryView>,
    files: Seq<DayFileView>,
    i: int,
)
    requires
        grouped(entries, files),
        0 <= i < entries.len(),
    ensures
        exists|k: int|
            0 <= k < files.len() && (#[trigger] files[k]).day == entries[i].day
                && files[k].notes.contains((entries[i].time, entries[i].text)),
{
    let day = entries[i].day;
    assert(has_day(entries, day));
    assert(has_file(files, day));
    let k = choose|k: int| 0 <= k < files.len() && (#[trigger] files[k]).day == day;
    lemma_notes_are_picked(entries, day);
    assert(files[k].notes == notes_of(entries, day));
    let n = places_of(entries, day).index_of(i);
    assert(places_of(entries, day)[n] == i);
    assert(files[k].notes[n] == (entries[i].time, entries[i].text));
}

/// Each day has one file, and the files stand in the order of their days.
pub proof fn law_one_file_for_each_day(
    entries: Seq<EntryView>,
    files: Seq<DayFileView>,
    i: int,
    j: int,
)
    requires
        grouped(entries, files),
        0 <= i < files.len(),
        0 <= j < files.len(),
    ensures
        i == j <==> files[i].day == files[j].day,
        i < j <==> precedes(files[i].day, files[j].day),
{
    law_exactly_one_standing(files[i].day, files[j].day);
    if i < j {
        assert(precedes(files[i].day, files[j].day));
    } else if j < i {
        assert(precedes(files[j].day, files[i].day));
    }
}

/// The notes of a day are collected piece by piece.
pub proof fn law_notes_are_collected_piece_by_piece(
    a: Seq<EntryView>,
    b: Seq<EntryView>,
    e: EntryView,
    day: Seq<char>,
)
    ensures
        notes_of(a + b, day) == notes_of(a, day) + notes_of(b, day),
        e.day == day ==> notes_of(seq![e], day) == seq![(e.time, e.text)],
        e.day != day ==> notes_of(seq![e], day).len() == 0,
        notes_of(Seq::empty(), day).len() == 0,
{
    lemma_notes_of_concat(a, b, day);
    reveal_with_fuel(notes_of, 2);
    assert(seq![e].drop_last() =~= Seq::<EntryView>::empty());
    assert(Seq::<(Seq<char>, Seq<char>)>::empty().push((e.time, e.text)) =~= seq![
        (e.time, e.text),
    ]);
}


} // verus!
