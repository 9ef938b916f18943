use clipboard_autowrite::clock::{get_time_string, get_today_string, SystemTime};
use clipboard_autowrite::order::{standing, Standing};
use clipboard_autowrite::utf16::{from_utf16_lossy, wide};

fn reading(year: u16, month: u16, day: u16, hour: u16, minute: u16, second: u16) -> SystemTime {
    SystemTime { year, month, day_of_week: 4, day, hour, minute, second, milliseconds: 999 }
}

fn samples() -> Vec<String> {
    let mut v: Vec<String> = vec![
        "".to_string(),
        "plain".to_string(),
        "line\r\nline\ttab".to_string(),
        "\u{5E74}\u{6708}\u{65E5}".to_string(),
        "a\u{1F600}b\u{10FFFF}\u{10000}".to_string(),
        "\u{D7FF}\u{E000}\u{FFFD}\u{FFFF}".to_string(),
        "with\0nul".to_string(),
    ];
    v.push("long ".repeat(1000));
    v
}

#[test]
fn wide_of_ascii() {
    assert_eq!(wide("ab"), vec![97u16, 98, 0]);
    assert_eq!(wide(""), vec![0u16]);
}

#[test]
fn wide_of_a_pair() {
    assert_eq!(wide("\u{1F600}"), vec![0xD83Du16, 0xDE00, 0]);
    assert_eq!(wide("\u{10000}"), vec![0xD800u16, 0xDC00, 0]);
    assert_eq!(wide("\u{10FFFF}"), vec![0xDBFFu16, 0xDFFF, 0]);
}

#[test]
fn wide_agrees_with_std() {
    for s in samples() {
        let mut expected: Vec<u16> = s.encode_utf16().collect();
        expected.push(0);
        assert_eq!(wide(&s), expected);
    }
}

#[test]
fn decoding_undoes_encoding() {
    for s in samples() {
        let units = wide(&s);
        assert_eq!(from_utf16_lossy(&units[..units.len() - 1]), s);
    }
}

#[test]
fn every_unit_decodes_as_in_std() {
    for unit in 0u16..=0xFFFF {
        assert_eq!(from_utf16_lossy(&[unit]), String::from_utf16_lossy(&[unit]));
        let pair = [0xD83Du16, unit, 0x61];
        assert_eq!(from_utf16_lossy(&pair), String::from_utf16_lossy(&pair));
    }
}

#[test]
fn lone_surrogates_become_replacement_characters() {
    assert_eq!(from_utf16_lossy(&[0x61, 0xD83D, 0x62]), "a\u{FFFD}b");
    assert_eq!(from_utf16_lossy(&[0xDE00, 0xD83D]), "\u{FFFD}\u{FFFD}");
    assert_eq!(from_utf16_lossy(&[0xD83D, 0xD83D, 0xDE00]), "\u{FFFD}\u{1F600}");
}

#[test]
fn standing_agrees_with_the_order_of_strings() {
    let mut all = samples();
    all.push("plai".to_string());
    all.push("plain\u{7F}".to_string());
    all.push("20251231".to_string());
    all.push("20260101".to_string());
    for a in &all {
        for b in &all {
            let expected = if a < b {
                Standing::Before
            } else if a == b {
                Standing::Same
            } else {
                Standing::After
            };
            assert_eq!(standing(a, b), expected);
        }
    }
}

#[test]
fn day_has_eight_digits() {
    assert_eq!(get_today_string(&reading(2026, 8, 13, 9, 5, 7)), "20260813");
    assert_eq!(get_today_string(&reading(1, 1, 1, 0, 0, 0)), "00010101");
    assert_eq!(get_today_string(&reading(30827, 12, 31, 0, 0, 0)), "308271231");
}

#[test]
fn time_has_its_marks() {
    assert_eq!(
        get_time_string(&reading(2026, 8, 13, 9, 5, 7)),
        "2026\u{5E74}08\u{6708}13\u{65E5} 09\u{65F6}05\u{5206}07\u{79D2}"
    );
    assert_eq!(
        get_time_string(&reading(2025, 12, 31, 23, 59, 59)),
        "2025\u{5E74}12\u{6708}31\u{65E5} 23\u{65F6}59\u{5206}59\u{79D2}"
    );
}

#[test]
fn numbers_are_padded_as_by_format() {
    for n in [0u16, 1, 9, 10, 99, 100, 101, 999, 1000, 9999, 10000, 65535] {
        assert_eq!(
            get_today_string(&reading(n, n, n, 0, 0, 0)),
            format!("{:04}{:02}{:02}", n, n, n)
        );
    }
}

#[test]
fn day_texts_follow_the_calendar() {
    let days = [(1999, 12, 31), (2000, 1, 1), (2000, 1, 2), (2000, 2, 1), (2000, 11, 30), (2001, 1, 1)];
    for i in 0..days.len() {
        for j in i + 1..days.len() {
            let a = get_today_string(&reading(days[i].0, days[i].1, days[i].2, 23, 0, 0));
            let b = get_today_string(&reading(days[j].0, days[j].1, days[j].2, 1, 0, 0));
            assert_eq!(standing(&a, &b), Standing::Before);
        }
    }
}
