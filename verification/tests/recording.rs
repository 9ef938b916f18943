use clipboard_autowrite::by_day::{group_by_day, DayFile, Entry};
use clipboard_autowrite::capture::{Capture, Request};
use clipboard_autowrite::clock::SystemTime;
use clipboard_autowrite::journal::{file_name, new_block, save_to_file};
use clipboard_autowrite::recorder::{FlushStep, Recorder};
use clipboard_autowrite::utf16::wide;
use std::collections::BTreeMap;

fn reading(year: u16, month: u16, day: u16, hour: u16, minute: u16, second: u16) -> SystemTime {
    SystemTime { year, month, day_of_week: 0, day, hour, minute, second, milliseconds: 0 }
}

fn copy(r: &mut Recorder, text: &str, at: SystemTime) {
    assert!(r.begin_capture());
    r.finish_capture(Some(text.to_string()), &at, &at);
}

fn files_of(step: FlushStep) -> Vec<DayFile> {
    match step {
        FlushStep::Write { files } => files,
        FlushStep::Stop => panic!("stopped"),
        FlushStep::Wait { .. } => panic!("waits"),
    }
}

fn texts(files: &[DayFile]) -> Vec<(String, Vec<String>)> {
    files
        .iter()
        .map(|f| (f.day.clone(), f.notes.iter().map(|n| n.1.clone()).collect()))
        .collect()
}

/// Answers the requests of a reading the way a clipboard would that is taken `busy` times
/// and then holds `memory`, and returns the requests.
fn serve(busy: u32, available: isize, handle: isize, address: isize, memory: &[u16]) -> (Vec<Request>, Option<String>) {
    let mut asked: Vec<Request> = Vec::new();
    let mut refused: u32 = 0;
    let mut c = Capture::new();
    loop {
        let request = c.request();
        asked.push(request);
        let word: isize = match request {
            Request::OpenClipboard => {
                if refused < busy {
                    refused += 1;
                    0
                } else {
                    1
                }
            }
            Request::Sleep { millis } => {
                assert_eq!(millis, 1);
                0
            }
            Request::IsClipboardFormatAvailable { format } => {
                assert_eq!(format, 13);
                available
            }
            Request::GetClipboardData { format } => {
                assert_eq!(format, 13);
                handle
            }
            Request::GlobalLock { handle: h } => {
                assert_eq!(h, handle);
                address
            }
            Request::ReadUnit { address: a, index } => {
                assert_eq!(a, address);
                memory[index] as isize
            }
            Request::GlobalUnlock { handle: h } => {
                assert_eq!(h, handle);
                1
            }
            Request::CloseClipboard => 1,
            Request::Stop => return (asked, c.text()),
        };
        c = c.reply(word);
    }
}

fn count(asked: &[Request], what: Request) -> usize {
    asked.iter().filter(|r| **r == what).count()
}

#[test]
fn capture_reads_to_the_first_zero() {
    let mut memory = wide("hello \u{1F600}");
    memory.extend([0x78u16, 0x79, 0]);
    let (asked, text) = serve(0, 1, 40, -16, &memory);
    assert_eq!(text, Some("hello \u{1F600}".to_string()));
    assert_eq!(count(&asked, Request::OpenClipboard), 1);
    assert_eq!(count(&asked, Request::GlobalUnlock { handle: 40 }), 1);
    assert_eq!(count(&asked, Request::CloseClipboard), 1);
    assert_eq!(asked[asked.len() - 3..], [
        Request::GlobalUnlock { handle: 40 },
        Request::CloseClipboard,
        Request::Stop,
    ]);
}

#[test]
fn capture_of_an_empty_text() {
    let (_, text) = serve(0, 1, 40, 16, &[0]);
    assert_eq!(text, Some(String::new()));
}

#[test]
fn capture_keeps_high_units() {
    let (_, text) = serve(0, 1, 40, 16, &[0xFFFF, 0xD800, 0]);
    assert_eq!(text, Some("\u{FFFF}\u{FFFD}".to_string()));
}

#[test]
fn capture_tries_again_while_the_clipboard_is_taken() {
    let memory = wide("x");
    for busy in 0..10u32 {
        let (asked, text) = serve(busy, 1, 40, 16, &memory);
        assert_eq!(text, Some("x".to_string()));
        assert_eq!(count(&asked, Request::OpenClipboard), busy as usize + 1);
        assert_eq!(count(&asked, Request::Sleep { millis: 1 }), busy as usize);
    }
}

#[test]
fn capture_gives_up_after_ten_tries() {
    let (asked, text) = serve(10, 1, 40, 16, &[0]);
    assert_eq!(text, None);
    assert_eq!(count(&asked, Request::OpenClipboard), 10);
    assert_eq!(count(&asked, Request::Sleep { millis: 1 }), 10);
    assert_eq!(count(&asked, Request::CloseClipboard), 0);
}

#[test]
fn capture_closes_the_clipboard_when_there_is_no_text() {
    for (available, handle, address) in [(0, 40, 16), (1, 0, 16), (1, 40, 0)] {
        let (asked, text) = serve(0, available, handle, address, &[0x61, 0]);
        assert_eq!(text, None);
        assert_eq!(count(&asked, Request::CloseClipboard), 1);
        assert_eq!(count(&asked, Request::GlobalUnlock { handle }), 0);
    }
}

#[test]
fn capture_stays_at_its_end() {
    let mut c = Capture::new();
    for _ in 0..20 {
        c = c.reply(0);
    }
    assert_eq!(c.request(), Request::Stop);
    c = c.reply(1);
    assert_eq!(c.request(), Request::Stop);
    assert_eq!(c.text(), None);
}

#[test]
fn file_is_named_after_the_day() {
    assert_eq!(file_name("20260813"), "Clipboard20260813.txt");
}

#[test]
fn block_has_its_parts() {
    let rule = "\u{2550}".repeat(22);
    assert_eq!(new_block("T", "text"), format!("T\r\ntext\r\n\r\n{}\r\n\r\n", rule));
}

#[test]
fn saving_puts_the_new_copy_on_top() {
    let first = save_to_file(None, "T1", "one");
    assert_eq!(first, new_block("T1", "one"));
    let second = save_to_file(Some(first), "T2", "two");
    assert_eq!(second, format!("{}{}", new_block("T2", "two"), new_block("T1", "one")));
    let third = save_to_file(Some("old".to_string()), "T", "t");
    assert!(third.ends_with("\r\n\r\nold"));
}

#[test]
fn grouping_agrees_with_an_ordered_map() {
    let days = ["20260102", "20251231", "20260102", "20260101", "20251231", "", "20260102"];
    let mut entries: Vec<Entry> = Vec::new();
    let mut expected: BTreeMap<String, Vec<(String, String)>> = BTreeMap::new();
    for (i, d) in days.iter().enumerate() {
        entries.push(Entry { day: d.to_string(), time: format!("t{}", i), text: format!("x{}", i) });
        expected.entry(d.to_string()).or_default().push((format!("t{}", i), format!("x{}", i)));
    }
    let got: Vec<(String, Vec<(String, String)>)> =
        group_by_day(entries).into_iter().map(|f| (f.day, f.notes)).collect();
    let want: Vec<(String, Vec<(String, String)>)> = expected.into_iter().collect();
    assert_eq!(got, want);
}

#[test]
fn grouping_nothing() {
    assert!(group_by_day(Vec::new()).is_empty());
}

#[test]
fn a_repeated_text_is_skipped() {
    let mut r = Recorder::new();
    let t = reading(2026, 8, 13, 9, 0, 0);
    for s in ["a", "a", "b", "b", "a", ""] {
        copy(&mut r, s, t);
    }
    assert!(r.begin_capture());
    r.finish_capture(None, &t, &t);
    copy(&mut r, "", t);
    let files = files_of(r.flush_pending(false, 0));
    assert_eq!(
        texts(&files),
        vec![("20260813".to_string(), vec!["a".to_string(), "b".to_string(), "a".to_string(), "".to_string()])]
    );
}

#[test]
fn a_repeat_is_skipped_across_a_flush() {
    let mut r = Recorder::new();
    let t = reading(2026, 8, 13, 9, 0, 0);
    copy(&mut r, "a", t);
    files_of(r.flush_pending(false, 0));
    r.finish_flush();
    copy(&mut r, "a", t);
    assert!(matches!(r.flush_pending(false, 0), FlushStep::Stop));
    copy(&mut r, "b", t);
    assert_eq!(texts(&files_of(r.flush_pending(false, 0)))[0].1, vec!["b".to_string()]);
}

#[test]
fn copies_around_midnight_go_to_their_own_days() {
    let mut r = Recorder::new();
    copy(&mut r, "late", reading(2026, 8, 13, 23, 59, 59));
    copy(&mut r, "early", reading(2026, 8, 14, 0, 0, 0));
    let files = files_of(r.flush_pending(false, 0));
    assert_eq!(
        texts(&files),
        vec![
            ("20260813".to_string(), vec!["late".to_string()]),
            ("20260814".to_string(), vec!["early".to_string()]),
        ]
    );
    assert_eq!(files[0].notes[0].0, "2026\u{5E74}08\u{6708}13\u{65E5} 23\u{65F6}59\u{5206}59\u{79D2}");
}

#[test]
fn day_and_time_come_from_their_own_readings() {
    let mut r = Recorder::new();
    assert!(r.begin_capture());
    r.finish_capture(
        Some("x".to_string()),
        &reading(2026, 8, 13, 23, 59, 59),
        &reading(2026, 8, 14, 0, 0, 0),
    );
    let files = files_of(r.flush_pending(false, 0));
    assert_eq!(files[0].day, "20260813");
    assert_eq!(files[0].notes[0].0, "2026\u{5E74}08\u{6708}14\u{65E5} 00\u{65F6}00\u{5206}00\u{79D2}");
}

#[test]
fn one_capture_at_a_time() {
    let mut r = Recorder::new();
    let t = reading(2026, 1, 1, 0, 0, 0);
    assert!(r.begin_capture());
    assert!(!r.begin_capture());
    r.finish_capture(None, &t, &t);
    assert!(r.begin_capture());
}

#[test]
fn timer_flush_is_turned_away_by_a_flush_under_way() {
    let mut r = Recorder::new();
    let t = reading(2026, 1, 1, 0, 0, 0);
    copy(&mut r, "a", t);
    files_of(r.flush_pending(false, 0));
    copy(&mut r, "b", t);
    assert!(matches!(r.flush_pending(false, 0), FlushStep::Stop));
    r.finish_flush();
    assert_eq!(texts(&files_of(r.flush_pending(false, 0)))[0].1, vec!["b".to_string()]);
}

#[test]
fn last_flush_waits_fifty_times_and_then_writes() {
    let mut r = Recorder::new();
    let t = reading(2026, 1, 1, 0, 0, 0);
    copy(&mut r, "a", t);
    files_of(r.flush_pending(false, 0));
    copy(&mut r, "b", t);
    let mut waited: u32 = 0;
    let mut total: u64 = 0;
    loop {
        match r.flush_pending(true, waited) {
            FlushStep::Wait { millis, waited: next } => {
                assert_eq!(next, waited + 1);
                waited = next;
                total += millis;
            }
            FlushStep::Write { files } => {
                assert_eq!(texts(&files)[0].1, vec!["b".to_string()]);
                break;
            }
            FlushStep::Stop => panic!("stopped"),
        }
    }
    assert_eq!(waited, 50);
    assert_eq!(total, 500);
}

#[test]
fn flush_with_nothing_to_write_stops_and_frees_the_way() {
    let mut r = Recorder::new();
    let t = reading(2026, 1, 1, 0, 0, 0);
    assert!(matches!(r.flush_pending(false, 0), FlushStep::Stop));
    assert!(matches!(r.flush_pending(true, 0), FlushStep::Stop));
    copy(&mut r, "a", t);
    files_of(r.flush_pending(false, 0));
    assert!(matches!(r.flush_pending(true, 50), FlushStep::Stop));
    copy(&mut r, "b", t);
    assert_eq!(texts(&files_of(r.flush_pending(false, 0)))[0].1, vec!["b".to_string()]);
}

#[test]
fn history_of_a_day_ends_up_in_its_file() {
    let mut r = Recorder::new();
    let mut disk: BTreeMap<String, String> = BTreeMap::new();
    disk.insert("Clipboard20260813.txt".to_string(), "before".to_string());
    let morning = reading(2026, 8, 13, 9, 0, 0);
    let batches = [vec!["a", "a", "b"], vec!["b", "c"]];
    for batch in batches {
        for s in batch {
            copy(&mut r, s, morning);
        }
        for file in files_of(r.flush_pending(false, 0)) {
            let name = file_name(&file.day);
            for (time, text) in file.notes {
                let content = save_to_file(disk.get(&name).cloned(), &time, &text);
                disk.insert(name.clone(), content);
            }
        }
        r.finish_flush();
    }
    let time = "2026\u{5E74}08\u{6708}13\u{65E5} 09\u{65F6}00\u{5206}00\u{79D2}";
    let expected = format!(
        "{}{}{}before",
        new_block(time, "c"),
        new_block(time, "b"),
        new_block(time, "a")
    );
    assert_eq!(disk["Clipboard20260813.txt"], expected);
    assert_eq!(disk.len(), 1);
}
