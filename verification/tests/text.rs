use ghlens::text::{
    blank, chars_of, contains, digits_of, get_bytes, is_before, is_white_space, line_of,
    nth_piece, push_u64, same, show_i64, show_u64, split_words, starts_with, string_of, trim,
    trim_end_matches, trim_start_matches,
};

const SAMPLES: [&str; 24] = [
    "", " ", "a", "ab", "abc", "a b", "  a  b\tc\n", "é", "éa", "aé", "a\u{a0}b", "#", "a#b", "#a#",
    "Event", "EventEvent", "PushEvent", "refs/heads/x", "refs/heads/refs/heads/x", "\u{2003}x\u{3000}",
    "x\r\ny", "x\ny", "日本語", "𝒳y",
];

#[test]
fn white_space_is_that_of_unicode() {
    for n in 0..=0x10ffffu32 {
        if let Some(c) = char::from_u32(n) {
            assert_eq!(is_white_space(c), c.is_whitespace(), "{n:x}");
        }
    }
}

#[test]
fn order_is_that_of_strings() {
    for a in SAMPLES {
        for b in SAMPLES {
            assert_eq!(is_before(a, b), a < b, "{a:?} {b:?}");
            assert_eq!(same(a, b), a == b);
        }
    }
    assert!(is_before("2026-07-19", "2026-07-20"));
    assert!(is_before("\u{ffff}", "\u{10000}"));
}

#[test]
fn searching_is_that_of_strings() {
    for a in SAMPLES {
        for b in SAMPLES {
            assert_eq!(contains(a, b), a.contains(b), "{a:?} {b:?}");
            assert_eq!(starts_with(a, b), a.starts_with(b), "{a:?} {b:?}");
        }
    }
}

#[test]
fn words_are_those_of_strings() {
    for a in SAMPLES {
        let words: Vec<&str> = a.split_whitespace().collect();
        assert_eq!(split_words(a), words, "{a:?}");
        assert_eq!(trim(a), a.trim(), "{a:?}");
    }
}

#[test]
fn pieces_are_those_of_strings() {
    for a in SAMPLES {
        for n in 0..4 {
            assert_eq!(nth_piece(a, '#', n).as_deref(), a.split('#').nth(n), "{a:?} {n}");
        }
    }
    assert_eq!(nth_piece("https://ghe.example.com/o/r", '/', 2).as_deref(), Some("ghe.example.com"));
}

#[test]
fn trimming_takes_off_every_copy() {
    for a in SAMPLES {
        for p in ["Event", "refs/heads/", "a", "b", " "] {
            assert_eq!(trim_start_matches(a, p), a.trim_start_matches(p), "{a:?} {p:?}");
            assert_eq!(trim_end_matches(a, p), a.trim_end_matches(p), "{a:?} {p:?}");
        }
    }
    assert_eq!(trim_end_matches("EventEvent", "Event"), "");
    assert_eq!(trim_start_matches("refs/heads/refs/heads/x", "refs/heads/"), "x");
}

#[test]
fn first_lines_are_those_of_strings() {
    for a in SAMPLES {
        assert_eq!(line_of(a), a.lines().next().unwrap_or(""), "{a:?}");
    }
    for a in ["\n", "\r\n", "a\r", "a\r\r\nb", "a\rb\nc", "\na"] {
        assert_eq!(line_of(a), a.lines().next().unwrap_or(""), "{a:?}");
    }
}

#[test]
fn byte_ranges_are_those_of_strings() {
    for a in SAMPLES {
        for from in 0..8 {
            for to in 0..8 {
                assert_eq!(get_bytes(a, from, to), a.get(from..to), "{a:?} {from} {to}");
            }
        }
    }
}

#[test]
fn digits_at_the_front() {
    assert_eq!(digits_of("12ab3"), "12");
    assert_eq!(digits_of("x1"), "");
    assert_eq!(digits_of("٣"), "");
}

#[test]
fn numbers_in_decimal() {
    for n in [0, 7, 10, 99, 1387, u64::MAX] {
        assert_eq!(show_u64(n), n.to_string());
    }
    for n in [0, -1, 42, i64::MAX, i64::MIN] {
        assert_eq!(show_i64(n), n.to_string());
    }
    let mut t = "n = ".to_string();
    push_u64(&mut t, 205);
    assert_eq!(t, "n = 205");
}

#[test]
fn characters_and_back() {
    let c = chars_of("aé日");
    assert_eq!(c, vec!['a', 'é', '日']);
    assert_eq!(string_of(&c, 1, 3), "é日");
    assert_eq!(string_of(&c, 2, 2), "");
    assert_eq!(blank(3), "   ");
    assert_eq!(blank(0), "");
}
