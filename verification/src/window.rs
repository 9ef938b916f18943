//! What the hidden window does with the messages that it gets.
use vstd::prelude::*;

verus! {

pub const WM_CREATE: u32 = 0x0001;

pub const WM_DESTROY: u32 = 2;

pub const WM_TIMER: u32 = 0x0113;

pub const WM_POWERBROADCAST: u32 = 0x218;

pub const WM_CLIPBOARDUPDATE: u32 = 0x031D;

/// The power event of waking up after the user has come back.
pub const PBT_APMRESUMESUSPEND: u32 = 7;

/// The power event of waking up by itself.
pub const PBT_APMRESUMEAUTOMATIC: u32 = 18;

/// The timer that flushes the copies that wait.
pub const ID_TIMER_FLUSH: usize = 1;

/// How often it fires, in milliseconds.
pub const FLUSH_MILLIS: u32 = 500;

/// Something that a message asks for.
#[derive(Clone, Copy, PartialEq, Eq, Structural, Debug)]
pub enum Action {
    SetTimer { id: usize, millis: u32 },
    KillTimer { id: usize },
    ProcessClipboard,
    FlushPending { ignore_flushing: bool },
    AddClipboardFormatListener,
    RemoveClipboardFormatListener,
    PostQuitMessage { code: i32 },
}

/// What to do with a message, in this order, and what to answer. With no answer of its own
/// the message goes on to the system's default handling, whose answer counts.
#[derive(Debug)]
pub struct Response {
    pub actions: Vec<Action>,
    pub result: Option<isize>,
}

/// The power event that the message parameter carries in its low 32 bits.
pub open spec fn power_event(wparam: usize) -> u32 {
    ((wparam as u64) % 0x1_0000_0000u64) as u32
}

/// Whether the machine has just woken up.
pub open spec fn is_resume(wparam: usize) -> bool {
    power_event(wparam) == PBT_APMRESUMESUSPEND || power_event(wparam) == PBT_APMRESUMEAUTOMATIC
}

/// What a message asks for.
pub open spec fn actions_for(msg: u32, wparam: usize) -> Seq<Action> {
    if msg == WM_CREATE {
        seq![Action::SetTimer { id: ID_TIMER_FLUSH, millis: FLUSH_MILLIS }]
    } else if msg == WM_TIMER && wparam == ID_TIMER_FLUSH {
        seq![Action::FlushPending { ignore_flushing: false }]
    } else if msg == WM_CLIPBOARDUPDATE {
        seq![Action::ProcessClipboard]
    } else if msg == WM_POWERBROADCAST && is_resume(wparam) {
        seq![Action::AddClipboardFormatListener]
    } else if msg == WM_DESTROY {
        seq![
            Action::FlushPending { ignore_flushing: true },
            Action::KillTimer { id: ID_TIMER_FLUSH },
            Action::RemoveClipboardFormatListener,
            Action::PostQuitMessage { code: 0 },
        ]
    } else {
        Seq::empty()
    }
}

/// What a message is answered; `None` leaves the answer to the default handling.
pub open spec fn result_for(msg: u32, wparam: usize) -> Option<isize> {
    if msg == WM_POWERBROADCAST {
        Some(1)
    } else if msg == WM_CREATE || msg == WM_CLIPBOARDUPDATE || msg == WM_DESTROY || (msg == WM_TIMER
        && wparam == ID_TIMER_FLUSH) {
        Some(0)
    } else {
        None
    }
}

/// What to do with the message `msg` and its parameter `wparam`.
pub fn wnd_proc(msg: u32, wparam: usize) -> (r: Response)
    ensures
        r.actions@ == actions_for(msg, wparam),
        r.result == result_for(msg, wparam),
{
    let mut actions: Vec<Action> = Vec::new();
    let result: Option<isize> = match msg {
        WM_CREATE => {
            actions.push(Action::SetTimer { id: ID_TIMER_FLUSH, millis: FLUSH_MILLIS });
            Some(0)
        },
        WM_TIMER => {
            if wparam == ID_TIMER_FLUSH {
                actions.push(Action::FlushPending { ignore_flushing: false });
                Some(0)
            } else {
                None
            }
        },
        WM_CLIPBOARDUPDATE => {
            actions.push(Action::ProcessClipboard);
            Some(0)
        },
        WM_POWERBROADCAST => {
            let event: u32 = #[verifier::truncate]
            (wparam as u32);
            assert(wparam as u32 == (wparam as u64) % 0x1_0000_0000u64) by (bit_vector);
            if event == PBT_APMRESUMESUSPEND || event == PBT_APMRESUMEAUTOMATIC {
                actions.push(Action::AddClipboardFormatListener);
            }
            Some(1)
        },
        WM_DESTROY => {
            actions.push(Action::FlushPending { ignore_flushing: true });
            actions.push(Action::KillTimer { id: ID_TIMER_FLUSH });
            actions.push(Action::RemoveClipboardFormatListener);
            actions.push(Action::PostQuitMessage { code: 0 });
            Some(0)
        },
        _ => None,
    };
    assert(actions@ =~= actions_for(msg, wparam));
    Response { actions, result }
}

/// The program quits on `WM_DESTROY` only, and the last flush comes before it quits.
pub proof fn law_last_flush_comes_before_quitting(msg: u32, wparam: usize, i: int)
    requires
        0 <= i < actions_for(msg, wparam).len(),
        actions_for(msg, wparam)[i] is PostQuitMessage,
    ensures
        msg == WM_DESTROY,
        i > 0,
        actions_for(msg, wparam)[0] == (Action::FlushPending { ignore_flushing: true }),
{
}

/// A message that is left to the default handling asks for nothing else.
pub proof fn law_default_handling_is_all(msg: u32, wparam: usize)
    ensures
        result_for(msg, wparam) is None ==> actions_for(msg, wparam).len() == 0,
{
}

/// Waking up, by whichever of the two events, makes the program listen again.
pub proof fn law_waking_up_listens_again(wparam: usize)
    ensures
        actions_for(WM_POWERBROADCAST, wparam).contains(Action::AddClipboardFormatListener)
            <==> is_resume(wparam),
{
    if is_resume(wparam) {
        assert(actions_for(WM_POWERBROADCAST, wparam)[0] == Action::AddClipboardFormatListener);
    }
}

/// Copies are recorded when the clipboard has changed and at no other message.
pub proof fn law_recording_follows_the_clipboard(msg: u32, wparam: usize)
    ensures
        actions_for(msg, wparam).contains(Action::ProcessClipboard) <==> msg == 0x31D,
        msg == 0x31D ==> actions_for(msg, wparam).len() == 1,
{
    if msg == 0x31D {
        assert(actions_for(msg, wparam)[0] == Action::ProcessClipboard);
    }
}

/// Flushes come from the timer that was set up for them and from the end of the program;
/// only the one at the end goes ahead of one that is under way.
pub proof fn law_flushes_come_from_the_timer_and_the_end(
    msg: u32,
    wparam: usize,
    ignore_flushing: bool,
)
    ensures
        actions_for(msg, wparam).contains(Action::FlushPending { ignore_flushing }) <==> (
        ignore_flushing && msg == 2) || (!ignore_flushing && msg == 0x113 && wparam == 1),
{
    let actions = actions_for(msg, wparam);
    if msg == 2 {
        assert(actions[0] == (Action::FlushPending { ignore_flushing: true }));
    }
    if msg == 0x113 && wparam == 1 {
        assert(actions[0] == (Action::FlushPending { ignore_flushing: false }));
    }
}

/// The timer is set up once, when the window is created, and fires every half second. It is
/// given up only when the window is destroyed.
pub proof fn law_timer_lives_as_long_as_the_window(
    msg: u32,
    wparam: usize,
    id: usize,
    millis: u32,
)
    ensures
        actions_for(msg, wparam).contains(Action::SetTimer { id, millis }) <==> msg == 1 && id == 1
            && millis == 500,
        actions_for(msg, wparam).contains(Action::KillTimer { id }) <==> msg == 2 && id == 1,
{
    let actions = actions_for(msg, wparam);
    if msg == 1 {
        assert(actions[0] == (Action::SetTimer { id: 1, millis: 500 }));
    }
    if msg == 2 {
        assert(actions[1] == (Action::KillTimer { id: 1 }));
    }
}

/// The program begins to listen again only on waking up, and stops listening and quits only
/// when its window is destroyed.
pub proof fn law_listening_ends_with_the_window(msg: u32, wparam: usize, code: i32)
    ensures
        actions_for(msg, wparam).contains(Action::AddClipboardFormatListener) <==> msg == 0x218 && (
        (wparam as u64) % 0x1_0000_0000u64 == 7 || (wparam as u64) % 0x1_0000_0000u64 == 18),
        actions_for(msg, wparam).contains(Action::RemoveClipboardFormatListener) <==> msg == 2,
        actions_for(msg, wparam).contains(Action::PostQuitMessage { code }) <==> msg == 2 && code
            == 0,
{
    let actions = actions_for(msg, wparam);
    if msg == 0x218 && is_resume(wparam) {
        assert(actions[0] == Action::AddClipboardFormatListener);
    }
    if msg == 2 {
        assert(actions[2] == Action::RemoveClipboardFormatListener);
        assert(actions[3] == (Action::PostQuitMessage { code: 0 }));
    }
}

/// A power message that is no wake-up asks for nothing.
pub proof fn law_other_power_events_change_nothing(wparam: usize)
    requires
        (wparam as u64) % 0x1_0000_0000u64 != 7,
        (wparam as u64) % 0x1_0000_0000u64 != 18,
    ensures
        actions_for(0x218, wparam).len() == 0,
{
}

/// Nothing is done twice on one message. The end of the window takes four steps, of which
/// flushing is the first and quitting the last; every other message takes one at most.
pub proof fn law_each_message_does_one_thing(msg: u32, wparam: usize)
    ensures
        actions_for(msg, wparam).no_duplicates(),
        msg != 2 ==> actions_for(msg, wparam).len() <= 1,
        msg == 2 ==> {
            &&& actions_for(msg, wparam).len() == 4
            &&& actions_for(msg, wparam)[0] is FlushPending
            &&& actions_for(msg, wparam)[3] is PostQuitMessage
        },
{
}

/// Power messages are answered with one and every other message that the program handles
/// with zero; the answer to the rest is left to the system. The parameter matters to the
/// answer for timers only.
pub proof fn law_answers(msg: u32, wparam: usize)
    ensures
        result_for(msg, wparam) == Some(1isize) <==> msg == 0x218,
        result_for(msg, wparam) == Some(0isize) <==> msg == 1 || msg == 2 || msg == 0x31D || (msg
            == 0x113 && wparam == 1),
        result_for(msg, wparam) is None <==> msg != 0x218 && msg != 1 && msg != 2 && msg != 0x31D
            && !(msg == 0x113 && wparam == 1),
        result_for(msg, wparam) is None ==> actions_for(msg, wparam).len() == 0,
{
}


} // verus!
