use clipboard_autowrite::autostart::{
    after_probe, elevation_probe, is_elevated, setup_autostart, setup_registry, setup_task,
    shows_computer, task_xml, Step, TASK_FILE, TASK_HEAD, TASK_TAIL,
};
use clipboard_autowrite::window::{wnd_proc, Action};
use clipboard_autowrite::xml::escape_xml;

#[test]
fn markup_is_escaped() {
    assert_eq!(escape_xml("a&b<c>d\"e"), "a&amp;b&lt;c&gt;d&quot;e");
    assert_eq!(escape_xml("&amp;"), "&amp;amp;");
    assert_eq!(escape_xml("'\\ \u{5E74}"), "'\\ \u{5E74}");
    assert_eq!(escape_xml(""), "");
}

#[test]
fn escaping_agrees_with_replacing_in_turn() {
    for s in ["C:\\A & B\\<x>\"y\".exe", "&&<<>>\"\"", "&lt;&quot;", "plain"] {
        let want = s
            .replace('&', "&amp;")
            .replace('<', "&lt;")
            .replace('>', "&gt;")
            .replace('"', "&quot;");
        assert_eq!(escape_xml(s), want);
    }
}

#[test]
fn escaped_text_reads_back() {
    for s in ["C:\\A & B\\<x>\"y\".exe", "&lt;&quot;&amp;", "plain"] {
        let back = escape_xml(s)
            .replace("&lt;", "<")
            .replace("&gt;", ">")
            .replace("&quot;", "\"")
            .replace("&amp;", "&");
        assert_eq!(back, s);
    }
}

#[test]
fn task_is_described() {
    let xml = task_xml("C:\\a & b.exe");
    assert_eq!(xml, format!("{}C:\\a &amp; b.exe{}", TASK_HEAD, TASK_TAIL));
    assert!(xml.starts_with("<?xml version=\"1.0\" encoding=\"UTF-16\"?>\n<Task version=\"1.2\""));
    assert!(xml.contains("      <Command>C:\\a &amp; b.exe</Command>\n    </Exec>\n  </Actions>\n</Task>"));
    assert!(xml.contains("    <RestartOnFailure>\n      <Interval>PT1M</Interval>\n      <Count>3</Count>\n"));
    assert!(xml.ends_with("</Task>"));
    assert_eq!(xml.lines().count(), 42);
}

#[test]
fn registry_command_is_complete() {
    let c = setup_registry("C:\\p q\\x.exe");
    assert_eq!(c.program, "reg");
    assert_eq!(c.creation_flags, 0x08000000);
    assert_eq!(
        c.args,
        vec![
            "add",
            "HKCU\\Software\\Microsoft\\Windows\\CurrentVersion\\Run",
            "/v",
            "ClipboardAutoWrite",
            "/t",
            "REG_SZ",
            "/d",
            "C:\\p q\\x.exe",
            "/f",
        ]
    );
}

#[test]
fn task_is_replaced_step_by_step() {
    let steps = setup_task("x.exe", "C:\\tmp\\clipboard_task.xml");
    assert_eq!(steps.len(), 4);
    match &steps[0] {
        Step::Run { command } => {
            assert_eq!(command.program, "schtasks");
            assert_eq!(command.creation_flags, 0x08000000);
            assert_eq!(command.args, vec!["/delete", "/tn", "ClipboardAutoWrite_Wake", "/f"]);
        }
        _ => panic!("no command"),
    }
    match &steps[1] {
        Step::WriteTaskFile { content } => assert_eq!(*content, task_xml("x.exe")),
        _ => panic!("no file"),
    }
    match &steps[2] {
        Step::Run { command } => {
            assert_eq!(command.program, "schtasks");
            assert_eq!(command.creation_flags, 0x08000000);
            assert_eq!(
                command.args,
                vec![
                    "/create",
                    "/tn",
                    "ClipboardAutoWrite_Wake",
                    "/xml",
                    "C:\\tmp\\clipboard_task.xml",
                    "/f",
                ]
            );
        }
        _ => panic!("no command"),
    }
    assert!(matches!(steps[3], Step::RemoveTaskFile));
    assert_eq!(TASK_FILE, "clipboard_task.xml");
}

#[test]
fn autostart_writes_the_registry_and_probes() {
    let steps = setup_autostart(Some("x.exe"));
    assert_eq!(steps.len(), 2);
    match &steps[0] {
        Step::Run { command } => assert_eq!(command.args[7], "x.exe"),
        _ => panic!("no command"),
    }
    match &steps[1] {
        Step::Probe { command } => {
            assert_eq!(command.program, "net");
            assert_eq!(command.creation_flags, 0x08000000);
            assert_eq!(command.args, vec!["session"]);
        }
        _ => panic!("no probe"),
    }
    assert_eq!(elevation_probe().program, "net");
}

#[test]
fn autostart_without_a_path_does_nothing() {
    assert!(setup_autostart(None).is_empty());
}

#[test]
fn task_is_for_administrators() {
    assert!(after_probe(false, "x.exe", "p").is_empty());
    assert_eq!(after_probe(true, "x.exe", "p").len(), 4);
}

#[test]
fn two_backslashes_show_a_computer() {
    assert!(shows_computer("\\\\host"));
    assert!(shows_computer("a \\\\"));
    assert!(shows_computer("a\\b\\\\\\c"));
    assert!(!shows_computer("a\\b\\c"));
    assert!(!shows_computer("\\"));
    assert!(!shows_computer(""));
}

#[test]
fn elevation_is_told_by_the_output() {
    let listed = "Computer\r\n\\\\HOST  user".as_bytes();
    assert!(is_elevated(Some((true, listed))));
    assert!(is_elevated(Some((false, listed))));
    assert!(!is_elevated(None));
}

#[test]
fn elevation_without_an_open_session() {
    let empty_list = "There are no entries in the list.\r\n".as_bytes();
    assert!(is_elevated(Some((true, empty_list))));
    assert!(!is_elevated(Some((false, empty_list))));
    assert!(!is_elevated(Some((true, &[]))));
    assert!(!is_elevated(Some((false, &[]))));
}

#[test]
fn elevation_output_need_not_be_utf8() {
    let outputs: [&[u8]; 6] = [
        &[0xFF, 0x5C, 0x5C],
        &[0xE5, 0x5C, 0x5C, 0xB9],
        &[0x5C, 0xE5, 0x5C],
        &[0x5C, 0x80, 0x5C],
        &[0xC0, 0xAF, 0x5C],
        &[0xF0, 0x9F, 0x5C, 0x5C, 0x98],
    ];
    for bytes in outputs {
        assert_eq!(is_elevated(Some((false, bytes))), String::from_utf8_lossy(bytes).contains("\\\\"));
        assert!(is_elevated(Some((true, bytes))));
    }
    assert!(is_elevated(Some((false, outputs[0]))));
    assert!(!is_elevated(Some((false, outputs[2]))));
}

#[test]
fn creation_starts_the_timer() {
    let r = wnd_proc(1, 0);
    assert_eq!(r.actions, vec![Action::SetTimer { id: 1, millis: 500 }]);
    assert_eq!(r.result, Some(0));
}

#[test]
fn timer_flushes() {
    let r = wnd_proc(0x113, 1);
    assert_eq!(r.actions, vec![Action::FlushPending { ignore_flushing: false }]);
    assert_eq!(r.result, Some(0));
    let other = wnd_proc(0x113, 2);
    assert!(other.actions.is_empty());
    assert_eq!(other.result, None);
}

#[test]
fn clipboard_update_is_processed() {
    let r = wnd_proc(0x31D, 0);
    assert_eq!(r.actions, vec![Action::ProcessClipboard]);
    assert_eq!(r.result, Some(0));
}

#[test]
fn waking_up_listens_again() {
    for event in [7usize, 18] {
        let r = wnd_proc(0x218, event);
        assert_eq!(r.actions, vec![Action::AddClipboardFormatListener]);
        assert_eq!(r.result, Some(1));
    }
    for event in [0usize, 4, 6, 8, 17, 19] {
        let r = wnd_proc(0x218, event);
        assert!(r.actions.is_empty());
        assert_eq!(r.result, Some(1));
    }
    let wide = (7u64 | 0x1_0000_0000) as usize;
    assert_eq!(wnd_proc(0x218, wide).actions, vec![Action::AddClipboardFormatListener]);
}

#[test]
fn destruction_flushes_before_quitting() {
    let r = wnd_proc(2, 0);
    assert_eq!(
        r.actions,
        vec![
            Action::FlushPending { ignore_flushing: true },
            Action::KillTimer { id: 1 },
            Action::RemoveClipboardFormatListener,
            Action::PostQuitMessage { code: 0 },
        ]
    );
    assert_eq!(r.result, Some(0));
}

#[test]
fn other_messages_are_left_to_the_system() {
    for msg in [0u32, 3, 0x10, 0x112, 0x114, 0x217, 0x219, 0x31C, 0x31E, u32::MAX] {
        for wparam in [0usize, 1, 7, 18] {
            let r = wnd_proc(msg, wparam);
            assert!(r.actions.is_empty());
            assert_eq!(r.result, None);
        }
    }
}
