//! Reading the text off the clipboard, one call of the system at a time.
//!
//! A `Capture` names the call that is due (`request`) and takes the machine word that the
//! call returned (`reply`), until there is nothing left to do.
use crate::utf16::{
    decode, encode, from_utf16_lossy, law_decode_undoes_encode, law_until_nul_takes_the_front,
    law_zero_unit_is_nul, until_nul,
};
use vstd::prelude::*;

verus! {

/// The clipboard format of UTF-16 text.
pub const CF_UNICODETEXT: u32 = 13;

/// How often opening the clipboard is tried while others hold it.
pub const OPEN_TRIES: u32 = 10;

/// The pause after each failed try, in milliseconds.
pub const OPEN_PAUSE_MILLIS: u64 = 1;

/// A call that is due. `Sleep`, `GlobalUnlock` and `CloseClipboard` may be answered with
/// any word.
#[derive(Clone, Copy, PartialEq, Eq, Structural, Debug)]
pub enum Request {
    OpenClipboard,
    Sleep { millis: u64 },
    IsClipboardFormatAvailable { format: u32 },
    GetClipboardData { format: u32 },
    GlobalLock { handle: isize },
    /// Read the 16-bit unit `index` of the text at `address`.
    ReadUnit { address: isize, index: usize },
    GlobalUnlock { handle: isize },
    CloseClipboard,
    /// Nothing is left to do.
    Stop,
}

#[derive(Debug)]
enum Stage {
    Opening { failed: u32 },
    Pausing { failed: u32 },
    Querying,
    Fetching,
    Locking { handle: isize },
    Reading { handle: isize, address: isize, units: Vec<u16> },
    Unlocking { handle: isize, units: Vec<u16> },
    Closing { text: Option<Vec<u16>> },
    Done { text: Option<Vec<u16>> },
}

/// How far a `Capture` has come. `failed` counts the tries that did not open the clipboard,
/// `units` is what has been read so far and `text` what the reading ends with.
#[verifier::ext_equal]
pub enum StageView {
    Opening { failed: nat },
    Pausing { failed: nat },
    Querying,
    Fetching,
    Locking { handle: isize },
    Reading { handle: isize, address: isize, units: Seq<u16> },
    Unlocking { handle: isize, units: Seq<u16> },
    Closing { text: Option<Seq<u16>> },
    Done { text: Option<Seq<u16>> },
}

/// One reading of the clipboard.
#[derive(Debug)]
pub struct Capture {
    stage: Stage,
}

spec fn units_view(units: Option<Vec<u16>>) -> Option<Seq<u16>> {
    match units {
        Some(u) => Some(u@),
        None => None,
    }
}

impl View for Capture {
    type V = StageView;

    closed spec fn view(&self) -> StageView {
        match self.stage {
            Stage::Opening { failed } => StageView::Opening { failed: failed as nat },
            Stage::Pausing { failed } => StageView::Pausing { failed: failed as nat },
            Stage::Querying => StageView::Querying,
            Stage::Fetching => StageView::Fetching,
            Stage::Locking { handle } => StageView::Locking { handle },
            Stage::Reading { handle, address, units } => StageView::Reading {
                handle,
                address,
                units: units@,
            },
            Stage::Unlocking { handle, units } => StageView::Unlocking { handle, units: units@ },
            Stage::Closing { text } => StageView::Closing { text: units_view(text) },
            Stage::Done { text } => StageView::Done { text: units_view(text) },
        }
    }
}

/// The call that is due at a stage.
pub open spec fn request_at(stage: StageView) -> Request {
    match stage {
        StageView::Opening { .. } => Request::OpenClipboard,
        StageView::Pausing { .. } => Request::Sleep { millis: OPEN_PAUSE_MILLIS },
        StageView::Querying => Request::IsClipboardFormatAvailable { format: CF_UNICODETEXT },
        StageView::Fetching => Request::GetClipboardData { format: CF_UNICODETEXT },
        StageView::Locking { handle } => Request::GlobalLock { handle },
        StageView::Reading { address, units, .. } => Request::ReadUnit {
            address,
            index: units.len() as usize,
        },
        StageView::Unlocking { handle, .. } => Request::GlobalUnlock { handle },
        StageView::Closing { .. } => Request::CloseClipboard,
        StageView::Done { .. } => Request::Stop,
    }
}

/// The unit that a word hands over: its low 16 bits.
pub open spec fn unit_of(word: isize) -> u16 {
    (word as int % 0x10000) as u16
}

/// The stage that follows once the call that was due has returned `word`.
pub open spec fn next(stage: StageView, word: isize) -> StageView {
    match stage {
        StageView::Opening { failed } => if word != 0 {
            StageView::Querying
        } else {
            StageView::Pausing { failed: failed + 1 }
        },
        StageView::Pausing { failed } => if failed < OPEN_TRIES {
            StageView::Opening { failed }
        } else {
            StageView::Done { text: None }
        },
        StageView::Querying => if word != 0 {
            StageView::Fetching
        } else {
            StageView::Closing { text: None }
        },
        StageView::Fetching => if word != 0 {
            StageView::Locking { handle: word }
        } else {
            StageView::Closing { text: None }
        },
        StageView::Locking { handle } => if word != 0 {
            StageView::Reading { handle, address: word, units: Seq::empty() }
        } else {
            StageView::Closing { text: None }
        },
        StageView::Reading { handle, address, units } => if unit_of(word) != 0 {
            StageView::Reading { handle, address, units: units.push(unit_of(word)) }
        } else {
            StageView::Unlocking { handle, units }
        },
        StageView::Unlocking { units, .. } => StageView::Closing { text: Some(units) },
        StageView::Closing { text } => StageView::Done { text },
        StageView::Done { text } => StageView::Done { text },
    }
}

/// The text that a stage has come to: there is one only at the end, and only where text was
/// read.
pub open spec fn text_at(stage: StageView) -> Option<Seq<char>> {
    match stage {
        StageView::Done { text: Some(units) } => Some(decode(units)),
        _ => None,
    }
}

/// The beginning of every reading.
pub open spec fn start() -> StageView {
    StageView::Opening { failed: 0 }
}

impl Capture {
    #[verifier::type_invariant]
    spec fn tries_are_limited(self) -> bool {
        match self.stage {
            Stage::Opening { failed } => failed < OPEN_TRIES,
            Stage::Pausing { failed } => failed <= OPEN_TRIES,
            _ => true,
        }
    }

    /// A reading that has yet to open the clipboard.
    pub fn new() -> (r: Capture)
        ensures
            r@ == start(),
    {
        Capture { stage: Stage::Opening { failed: 0 } }
    }

    /// The call that is due.
    pub fn request(&self) -> (r: Request)
        ensures
            r == request_at(self@),
    {
        match &self.stage {
            Stage::Opening { .. } => Request::OpenClipboard,
            Stage::Pausing { .. } => Request::Sleep { millis: OPEN_PAUSE_MILLIS },
            Stage::Querying => Request::IsClipboardFormatAvailable { format: CF_UNICODETEXT },
            Stage::Fetching => Request::GetClipboardData { format: CF_UNICODETEXT },
            Stage::Locking { handle } => Request::GlobalLock { handle: *handle },
            Stage::Reading { address, units, .. } => Request::ReadUnit {
                address: *address,
                index: units.len(),
            },
            Stage::Unlocking { handle, .. } => Request::GlobalUnlock { handle: *handle },
            Stage::Closing { .. } => Request::CloseClipboard,
            Stage::Done { .. } => Request::Stop,
        }
    }

    /// Takes what the call that was due has returned.
    pub fn reply(self, word: isize) -> (r: Capture)
        ensures
            r@ == next(self@, word),
    {
        proof {
            use_type_invariant(&self);
        }
        let stage = match self.stage {
            Stage::Opening { failed } => if word != 0 {
                Stage::Querying
            } else {
                Stage::Pausing { failed: failed + 1 }
            },
            Stage::Pausing { failed } => if failed < OPEN_TRIES {
                Stage::Opening { failed }
            } else {
                Stage::Done { text: None }
            },
            Stage::Querying => if word != 0 {
                Stage::Fetching
            } else {
                Stage::Closing { text: None }
            },
            Stage::Fetching => if word != 0 {
                Stage::Locking { handle: word }
            } else {
                Stage::Closing { text: None }
            },
            Stage::Locking { handle } => if word != 0 {
                Stage::Reading { handle, address: word, units: Vec::new() }
            } else {
                Stage::Closing { text: None }
            },
            Stage::Reading { handle, address, units } => {
                let unit: u16 = #[verifier::truncate]
                (word as u16);
                assert(word as u16 == (word as i64) % 0x10000i64) by (bit_vector);
                if unit != 0 {
                    let mut more = units;
                    more.push(unit);
                    Stage::Reading { handle, address, units: more }
                } else {
                    Stage::Unlocking { handle, units }
                }
            },
            Stage::Unlocking { units, .. } => Stage::Closing { text: Some(units) },
            Stage::Closing { text } => Stage::Done { text },
            Stage::Done { text } => Stage::Done { text },
        };
        Capture { stage }
    }

    /// The text that was read.
    pub fn text(&self) -> (r: Option<String>)
        ensures
            match r {
                Some(s) => text_at(self@) == Some(s@),
                None => text_at(self@) is None,
            },
    {
        match &self.stage {
            Stage::Done { text: Some(units) } => Some(from_utf16_lossy(units.as_slice())),
            _ => None,
        }
    }
}

/// The stage that the words bring a reading to, one after another, from `stage` on.
pub open spec fn run(stage: StageView, words: Seq<isize>) -> StageView
    decreases words.len(),
{
    if words.len() == 0 {
        stage
    } else {
        next(run(stage, words.drop_last()), words.last())
    }
}

/// How many of the calls that the words answer asked to open the clipboard.
pub open spec fn opens_tried(words: Seq<isize>) -> nat
    decreases words.len(),
{
    if words.len() == 0 {
        0
    } else {
        let due = request_at(run(start(), words.drop_last()));
        opens_tried(words.drop_last()) + if due == Request::OpenClipboard {
            1nat
        } else {
            0nat
        }
    }
}

/// How many of them opened it.
pub open spec fn opens_granted(words: Seq<isize>) -> nat
    decreases words.len(),
{
    if words.len() == 0 {
        0
    } else {
        let due = request_at(run(start(), words.drop_last()));
        opens_granted(words.drop_last()) + if due == Request::OpenClipboard && words.last() != 0 {
            1nat
        } else {
            0nat
        }
    }
}

/// How many of the calls that the words answer closed it.
pub open spec fn closes(words: Seq<isize>) -> nat
    decreases words.len(),
{
    if words.len() == 0 {
        0
    } else {
        let due = request_at(run(start(), words.drop_last()));
        closes(words.drop_last()) + if due == Request::CloseClipboard {
            1nat
        } else {
            0nat
        }
    }
}

/// How many of the calls that the words answer locked the memory of `handle`.
pub open spec fn locks_granted(words: Seq<isize>, handle: isize) -> nat
    decreases words.len(),
{
    if words.len() == 0 {
        0
    } else {
        let due = request_at(run(start(), words.drop_last()));
        locks_granted(words.drop_last(), handle) + if due == (Request::GlobalLock { handle })
            && words.last() != 0 {
            1nat
        } else {
            0nat
        }
    }
}

/// How many of the calls that the words answer unlocked it.
pub open spec fn unlocks(words: Seq<isize>, handle: isize) -> nat
    decreases words.len(),
{
    if words.len() == 0 {
        0
    } else {
        let due = request_at(run(start(), words.drop_last()));
        unlocks(words.drop_last(), handle) + if due == (Request::GlobalUnlock { handle }) {
            1nat
        } else {
            0nat
        }
    }
}

/// Whether the clipboard is open at a stage.
pub open spec fn is_open(stage: StageView) -> bool {
    !(stage is Opening || stage is Pausing || stage is Done)
}

/// Whether the memory of `handle` is locked at a stage.
pub open spec fn is_locked(stage: StageView, handle: isize) -> bool {
    match stage {
        StageView::Reading { handle: h, .. } => h == handle,
        StageView::Unlocking { handle: h, .. } => h == handle,
        _ => false,
    }
}

/// The words by which the units of a text are handed over.
pub open spec fn as_words(units: Seq<u16>) -> Seq<isize> {
    units.map_values(|u: u16| u as isize)
}

/// Whatever the system answers, opening is tried at most `OPEN_TRIES` times.
pub proof fn law_tries_are_limited(words: Seq<isize>)
    ensures
        opens_tried(words) <= OPEN_TRIES,
        match run(start(), words) {
            StageView::Opening { failed } => opens_tried(words) == failed && failed < OPEN_TRIES,
            StageView::Pausing { failed } => opens_tried(words) == failed,
            _ => true,
        },
    decreases words.len(),
{
    if words.len() > 0 {
        law_tries_are_limited(words.drop_last());
    }
}

/// Whatever the system answers, the clipboard is closed as often as it was opened, except
/// while it is open: a reading that has come to its end leaves it closed.
pub proof fn law_clipboard_is_closed(words: Seq<isize>)
    ensures
        opens_granted(words) == closes(words) + if is_open(run(start(), words)) {
            1nat
        } else {
            0nat
        },
        run(start(), words) is Done ==> opens_granted(words) == closes(words),
    decreases words.len(),
{
    if words.len() > 0 {
        law_clipboard_is_closed(words.drop_last());
    }
}

/// Whatever the system answers, memory is unlocked as often as it was locked, except while
/// its text is being read, and it is never locked where the clipboard is not open.
pub proof fn law_memory_is_unlocked(words: Seq<isize>, handle: isize)
    ensures
        locks_granted(words, handle) == unlocks(words, handle) + if is_locked(
            run(start(), words),
            handle,
        ) {
            1nat
        } else {
            0nat
        },
        is_locked(run(start(), words), handle) ==> is_open(run(start(), words)),
        run(start(), words) is Done ==> locks_granted(words, handle) == unlocks(words, handle),
    decreases words.len(),
{
    if words.len() > 0 {
        law_memory_is_unlocked(words.drop_last(), handle);
    }
}

/// A reading that has come to its end stays there.
pub proof fn law_done_is_final(stage: StageView, words: Seq<isize>)
    requires
        stage is Done,
    ensures
        run(stage, words) == stage,
    decreases words.len(),
{
    if words.len() > 0 {
        law_done_is_final(stage, words.drop_last());
    }
}

/// The words in front bring a reading to the stage from which the rest goes on.
pub proof fn law_run_in_two_goes(stage: StageView, first: Seq<isize>, second: Seq<isize>)
    ensures
        run(stage, first + second) == run(run(stage, first), second),
    decreases second.len(),
{
    if second.len() == 0 {
        assert(first + second =~= first);
    } else {
        law_run_in_two_goes(stage, first, second.drop_last());
        assert((first + second).drop_last() =~= first + second.drop_last());
        assert((first + second).last() == second.last());
    }
}

/// The words that refuse to open the clipboard, each followed by the word that answers the
/// pause.
pub open spec fn refusals(pauses: Seq<isize>) -> Seq<isize> {
    Seq::new(
        2 * pauses.len(),
        |i: int|
            if i % 2 == 0 {
                0isize
            } else {
                pauses[i / 2]
            },
    )
}

/// While others hold the clipboard it is asked for again, up to `OPEN_TRIES` times; then
/// the reading ends with no text.
pub proof fn law_refused_reading_tries_again(pauses: Seq<isize>)
    requires
        pauses.len() <= OPEN_TRIES,
    ensures
        run(start(), refusals(pauses)) == if pauses.len() < OPEN_TRIES {
            StageView::Opening { failed: pauses.len() }
        } else {
            StageView::Done { text: None }
        },
    decreases pauses.len(),
{
    reveal_with_fuel(run, 3);
    if pauses.len() > 0 {
        let fewer = pauses.drop_last();
        law_refused_reading_tries_again(fewer);
        let words = refusals(pauses);
        assert(words.drop_last().drop_last() =~= refusals(fewer));
        assert(words.drop_last().last() == 0);
    }
}

/// Reading goes on to the first zero and takes every unit in front of it.
pub proof fn law_reads_to_the_first_zero(
    handle: isize,
    address: isize,
    units: Seq<u16>,
)
    requires
        !units.contains(0u16),
    ensures
        run(
            (StageView::Reading { handle, address, units: Seq::empty() }),
            as_words(units),
        ) == (StageView::Reading { handle, address, units }),
        run(
            (StageView::Reading { handle, address, units: Seq::empty() }),
            as_words(units).push(0),
        ) == (StageView::Unlocking { handle, units }),
    decreases units.len(),
{
    let begin = StageView::Reading { handle, address, units: Seq::empty() };
    let words = as_words(units);
    if units.len() == 0 {
        assert(words =~= Seq::<isize>::empty());
        assert(units =~= Seq::<u16>::empty());
    } else {
        let front = units.drop_last();
        assert forall|i: int| 0 <= i < front.len() implies front[i] != 0u16 by {
            assert(front[i] == units[i]);
        }
        law_reads_to_the_first_zero(handle, address, front);
        assert(words.drop_last() =~= as_words(front));
        let u = units.last();
        assert(units[units.len() - 1] == u);
        assert(words.last() == u as isize);
        assert(unit_of(u as isize) == u);
        assert(front.push(u) =~= units);
    }
    assert(words.push(0).drop_last() =~= words);
}

/// The four calls from a free clipboard to its text.
proof fn lemma_opening_calls(
    failed: nat,
    opened: isize,
    available: isize,
    handle: isize,
    address: isize,
)
    requires
        opened != 0,
        available != 0,
        handle != 0,
        address != 0,
    ensures
        run((StageView::Opening { failed }), seq![opened, available, handle, address]) == (
        StageView::Reading { handle, address, units: Seq::empty() }),
{
    let begin = StageView::Opening { failed };
    let one = seq![opened];
    let two = seq![opened, available];
    let three = seq![opened, available, handle];
    let four = seq![opened, available, handle, address];
    assert(one.drop_last() =~= Seq::<isize>::empty());
    assert(run(begin, one.drop_last()) == begin);
    assert(run(begin, one) == StageView::Querying);
    assert(two.drop_last() =~= one);
    assert(run(begin, two) == StageView::Fetching);
    assert(three.drop_last() =~= two);
    assert(run(begin, three) == (StageView::Locking { handle }));
    assert(four.drop_last() =~= three);
}

/// The two calls from the end of the text to the end of the reading.
proof fn lemma_closing_calls(handle: isize, units: Seq<u16>, unlocked: isize, closed: isize)
    ensures
        run((StageView::Unlocking { handle, units }), seq![unlocked, closed]) == (StageView::Done {
            text: Some(units),
        }),
{
    let begin = StageView::Unlocking { handle, units };
    let one = seq![unlocked];
    let two = seq![unlocked, closed];
    assert(one.drop_last() =~= Seq::<isize>::empty());
    assert(run(begin, one.drop_last()) == begin);
    assert(run(begin, one) == (StageView::Closing { text: Some(units) }));
    assert(two.drop_last() =~= one);
}

/// A clipboard that is free before the last try and holds text gives that text up to
/// its first zero, whatever nonzero words stand for "yes", for the handle and for the
/// address.
pub proof fn law_text_is_captured(
    pauses: Seq<isize>,
    opened: isize,
    available: isize,
    handle: isize,
    address: isize,
    units: Seq<u16>,
    unlocked: isize,
    closed: isize,
)
    requires
        pauses.len() < OPEN_TRIES,
        opened != 0,
        available != 0,
        handle != 0,
        address != 0,
        !units.contains(0u16),
    ensures
        run(
            start(),
            refusals(pauses) + seq![opened, available, handle, address] + as_words(units).push(0)
                + seq![unlocked, closed],
        ) == (StageView::Done { text: Some(units) }),
{
    let calls = seq![opened, available, handle, address];
    let body = as_words(units).push(0);
    let end = seq![unlocked, closed];
    law_refused_reading_tries_again(pauses);
    lemma_opening_calls(pauses.len(), opened, available, handle, address);
    law_run_in_two_goes(start(), refusals(pauses), calls);
    law_reads_to_the_first_zero(handle, address, units);
    law_run_in_two_goes(start(), refusals(pauses) + calls, body);
    lemma_closing_calls(handle, units, unlocked, closed);
    law_run_in_two_goes(start(), refusals(pauses) + calls + body, end);
}

/// A text without NUL that was put on the clipboard is what the reading ends with.
pub proof fn law_copied_text_comes_back(
    pauses: Seq<isize>,
    opened: isize,
    available: isize,
    handle: isize,
    address: isize,
    text: Seq<char>,
    unlocked: isize,
    closed: isize,
)
    requires
        pauses.len() < OPEN_TRIES,
        opened != 0,
        available != 0,
        handle != 0,
        address != 0,
        !text.contains('\0'),
    ensures
        text_at(
            run(
                start(),
                refusals(pauses) + seq![opened, available, handle, address] + as_words(
                    encode(text),
                ).push(0) + seq![unlocked, closed],
            ),
        ) == Some(text),
{
    law_zero_unit_is_nul(text);
    law_decode_undoes_encode(text);
    law_text_is_captured(
        pauses,
        opened,
        available,
        handle,
        address,
        encode(text),
        unlocked,
        closed,
    );
}

/// Whether every call that read a unit was answered with the unit of `memory` that it named.
pub open spec fn reads_memory(words: Seq<isize>, memory: Seq<u16>) -> bool {
    forall|i: int|
        0 <= i < words.len() ==> match request_at(run(start(), #[trigger] words.take(i))) {
            Request::ReadUnit { index, .. } => index < memory.len() && words[i]
                == memory[index as int] as isize,
            _ => true,
        }
}

/// How many of the calls that the words answer read a unit.
pub open spec fn units_read(words: Seq<isize>) -> nat
    decreases words.len(),
{
    if words.len() == 0 {
        0
    } else {
        let due = request_at(run(start(), words.drop_last()));
        units_read(words.drop_last()) + if due is ReadUnit {
            1nat
        } else {
            0nat
        }
    }
}

/// Whether one of the calls that the words answer unlocked the text.
pub open spec fn has_unlocked(words: Seq<isize>) -> bool {
    exists|i: int|
        0 <= i < words.len() && request_at(run(start(), #[trigger] words.take(i))) is GlobalUnlock
}

/// The units that a stage holds are the first ones of the memory that was read.
proof fn lemma_units_are_memory(memory: Seq<u16>, k: int, words: Seq<isize>)
    requires
        0 <= k < memory.len() <= usize::MAX,
        memory[k] == 0,
        forall|j: int| 0 <= j < k ==> memory[j] != 0,
        reads_memory(words, memory),
    ensures
        match run(start(), words) {
            StageView::Reading { units, .. } => units.len() <= k && units == memory.take(
                units.len() as int,
            ),
            StageView::Unlocking { units, .. } => units == memory.take(k),
            StageView::Closing { text: Some(units) } => units == memory.take(k),
            StageView::Done { text: Some(units) } => units == memory.take(k),
            _ => true,
        },
    decreases words.len(),
{
    if words.len() > 0 {
        let front = words.drop_last();
        let last = words.len() - 1;
        assert(front =~= words.take(last));
        assert forall|i: int| 0 <= i < front.len() implies match request_at(
            run(start(), #[trigger] front.take(i)),
        ) {
            Request::ReadUnit { index, .. } => index < memory.len() && front[i]
                == memory[index as int] as isize,
            _ => true,
        } by {
            assert(front.take(i) =~= words.take(i));
            assert(front[i] == words[i]);
        }
        lemma_units_are_memory(memory, k, front);
        if let StageView::Reading { units, .. } = run(start(), front) {
            let index = units.len() as int;
            assert(request_at(run(start(), words.take(last))) is ReadUnit);
            let u = memory[index];
            assert(words.last() == u as isize);
            assert(unit_of(u as isize) == u);
            assert(memory.take(index).push(u) =~= memory.take(index + 1));
        }
    } else {
        assert(run(start(), words) == start());
    }
}

/// Where the text lies in memory and every unit asked for is handed over, no unit behind the
/// first zero is asked for, and the text of the reading is that of the units in front of it,
/// each of them once and in their order.
pub proof fn law_memory_is_read_to_its_first_zero(
    memory: Seq<u16>,
    k: int,
    words: Seq<isize>,
)
    requires
        0 <= k < memory.len() <= usize::MAX,
        memory[k] == 0,
        forall|j: int| 0 <= j < k ==> memory[j] != 0,
        reads_memory(words, memory),
    ensures
        request_at(run(start(), words)) matches Request::ReadUnit { index, .. } ==> index <= k,
        text_at(run(start(), words)) matches Some(text) ==> text == decode(memory.take(k)) && text
            == decode(until_nul(memory)),
{
    lemma_units_are_memory(memory, k, words);
    law_until_nul_takes_the_front(memory, k);
}

proof fn lemma_units_are_counted(words: Seq<isize>)
    ensures
        units_read(words) <= words.len(),
        match run(start(), words) {
            StageView::Reading { units, .. } => units.len() == units_read(words),
            StageView::Opening { .. } => units_read(words) == 0,
            StageView::Pausing { .. } => units_read(words) == 0,
            StageView::Querying => units_read(words) == 0,
            StageView::Fetching => units_read(words) == 0,
            StageView::Locking { .. } => units_read(words) == 0,
            _ => true,
        },
    decreases words.len(),
{
    if words.len() > 0 {
        lemma_units_are_counted(words.drop_last());
    }
}

/// A reading that has taken so many units asks next for the unit with that number: it leaves
/// none out and asks for none twice.
pub proof fn law_units_are_asked_for_in_turn(words: Seq<isize>)
    requires
        words.len() <= usize::MAX,
    ensures
        request_at(run(start(), words)) matches Request::ReadUnit { index, .. } ==> index
            == units_read(words),
{
    lemma_units_are_counted(words);
}

/// A reading that has come to its end has a text exactly when it has read one and unlocked
/// it again; before its end it has none.
pub proof fn law_text_comes_from_memory(words: Seq<isize>)
    ensures
        text_at(run(start(), words)) is Some <==> request_at(run(start(), words)) == Request::Stop
            && has_unlocked(words),
{
    lemma_unlocked_stages(words);
}

proof fn lemma_unlocked_stages(words: Seq<isize>)
    ensures
        has_unlocked(words) <==> match run(start(), words) {
            StageView::Closing { text } => text is Some,
            StageView::Done { text } => text is Some,
            _ => false,
        },
    decreases words.len(),
{
    if words.len() > 0 {
        let front = words.drop_last();
        let last = words.len() - 1;
        lemma_unlocked_stages(front);
        assert(front =~= words.take(last));
        if has_unlocked(front) {
            let i = choose|i: int|
                0 <= i < front.len() && request_at(
                    run(start(), #[trigger] front.take(i)),
                ) is GlobalUnlock;
            assert(front.take(i) =~= words.take(i));
        }
        if has_unlocked(words) {
            let i = choose|i: int|
                0 <= i < words.len() && request_at(
                    run(start(), #[trigger] words.take(i)),
                ) is GlobalUnlock;
            if i < last {
                assert(front.take(i) =~= words.take(i));
            }
        }
        if request_at(run(start(), front)) is GlobalUnlock {
            assert(request_at(run(start(), words.take(last))) is GlobalUnlock);
        }
    } else {
        assert(run(start(), words) == start());
    }
}

/// Which call follows which, told by what the call before returned. Opening comes first. A
/// refused opening is followed by a pause of one millisecond, and the pause by another try
/// until ten have been made. A call that finds nothing is followed by closing. The handle
/// that was returned is locked, the text at the address that was returned is read from its
/// first unit on to its first zero, the handle is unlocked, and the clipboard is closed.
pub proof fn law_calls_follow_one_another(words: Seq<isize>, word: isize)
    requires
        words.len() < usize::MAX,
    ensures
        request_at(run(start(), Seq::empty())) == Request::OpenClipboard,
        ({
            let due = request_at(run(start(), words));
            let then_due = request_at(run(start(), words.push(word)));
            match due {
                Request::OpenClipboard => if word != 0 {
                    then_due == (Request::IsClipboardFormatAvailable { format: 13 })
                } else {
                    then_due == (Request::Sleep { millis: 1 })
                },
                Request::Sleep { .. } => if opens_tried(words) < 10 {
                    then_due == Request::OpenClipboard
                } else {
                    then_due == Request::Stop
                },
                Request::IsClipboardFormatAvailable { .. } => if word != 0 {
                    then_due == (Request::GetClipboardData { format: 13 })
                } else {
                    then_due == Request::CloseClipboard
                },
                Request::GetClipboardData { .. } => if word != 0 {
                    then_due == (Request::GlobalLock { handle: word })
                } else {
                    then_due == Request::CloseClipboard
                },
                Request::GlobalLock { .. } => if word != 0 {
                    then_due == (Request::ReadUnit { address: word, index: 0 })
                } else {
                    then_due == Request::CloseClipboard
                },
                Request::ReadUnit { address, index } => if word as int % 0x10000 != 0 {
                    then_due == (Request::ReadUnit { address, index: (index + 1) as usize })
                } else {
                    then_due matches Request::GlobalUnlock { handle } && locks_granted(
                        words,
                        handle,
                    ) == unlocks(words, handle) + 1
                },
                Request::GlobalUnlock { .. } => then_due == Request::CloseClipboard,
                Request::CloseClipboard => then_due == Request::Stop,
                Request::Stop => then_due == Request::Stop,
            }
        }),
{
    assert(words.push(word).drop_last() =~= words);
    law_tries_are_limited(words);
    lemma_units_are_counted(words);
    match run(start(), words) {
        StageView::Reading { handle, .. } => {
            law_memory_is_unlocked(words, handle);
        },
        _ => {},
    }
}


} // verus!
