use ghlens::event::{classify, detail_number, review_verb, Color, Ev};

#[test]
fn review_events_classify() {
    assert_eq!(review_verb("review_requested"), Some("requested"));
    assert_eq!(review_verb("review_request_removed"), Some("unrequested"));
    assert_eq!(review_verb("review_dismissed"), Some("dismissed"));
    assert_eq!(review_verb("committed"), None);
    assert_eq!(classify("review_requested").0, '⊙');
    assert_eq!(classify("PullRequestReviewEvent").0, '⇄');
}

#[test]
fn each_kind_has_its_glyph_and_color() {
    let table = [
        ("push", '↑', Color::Cyan),
        ("branch_creation", '✚', Color::Green),
        ("CreateEvent", '✚', Color::Green),
        ("branch_deletion", '✖', Color::Red),
        ("DeleteEvent", '✖', Color::Red),
        ("force_push", '⚡', Color::Yellow),
        ("IssueCommentEvent", '✎', Color::Blue),
        ("PullRequestReviewCommentEvent", '✎', Color::Blue),
        ("pr_merge", '⇄', Color::Magenta),
        ("PullRequestEvent", '⇄', Color::Magenta),
        ("ForkEvent", '⑂', Color::Cyan),
        ("WatchEvent", '★', Color::Yellow),
        ("IssuesEvent", '◆', Color::Blue),
        ("ReleaseEvent", '⚑', Color::Green),
        ("review_dismissed", '⊙', Color::Magenta),
        ("", '↑', Color::Cyan),
        ("GollumEvent", '↑', Color::Cyan),
    ];
    for (kind, glyph, color) in table {
        assert_eq!(classify(kind), (glyph, color), "{kind}");
    }
}

fn event(ts: &str, detail: &str) -> Ev {
    Ev::new(ts.into(), "Bob".into(), "push", "Push".into(), detail.into(), "Extra 7")
}

#[test]
fn an_event_has_its_day_and_time() {
    let e = event("2026-07-20T10:18:56Z", "Main");
    assert_eq!((e.day.as_str(), e.time.as_str()), ("2026-07-20", "10:18"));
    assert_eq!(e.ts, "2026-07-20T10:18:56Z");
    assert_eq!(e.search, "push bob main extra 7");
    assert_eq!((e.glyph, e.color), ('↑', Color::Cyan));
    assert!(e.before.is_empty() && e.after.is_empty());
    assert!(e.commits.is_none() && e.commit_count.is_none() && !e.expanded);
}

#[test]
fn a_short_stamp_has_no_day_or_time() {
    let e = event("2026-07-20T10:1", "x");
    assert_eq!((e.day.as_str(), e.time.as_str()), ("2026-07-20", ""));
    let e = event("2026-07-2", "x");
    assert_eq!((e.day.as_str(), e.time.as_str()), ("", ""));
    let e = event("", "x");
    assert_eq!((e.day.as_str(), e.time.as_str()), ("", ""));
    let e = event("2026-07-2é10:18:56", "x");
    assert_eq!(e.day, "", "the tenth byte is inside a character");
    assert_eq!(e.time, "10:18");
}

#[test]
fn the_search_text_is_in_lower_case() {
    let e = Ev::new("".into(), "ÉMILE".into(), "push", "ΑΣ".into(), "İ".into(), "X");
    assert_eq!(e.search, format!("{} {} {} {}", "ΑΣ", "ÉMILE", "İ", "X").to_lowercase());
}

#[test]
fn columns_of_an_event() {
    let e = event("2026-07-20T10:18:56Z", "Main");
    assert_eq!(e.cell(1), "2026-07-20 10:18");
    assert_eq!(e.cell(2), "Push");
    assert_eq!(e.cell(3), "Bob");
    assert_eq!(e.cell(4), "Main");
    assert_eq!(e.cell(9), "Main");
}

#[test]
fn pushes_can_be_expanded() {
    let mut e = event("", "x");
    let mut check = |before: &str, after: &str| {
        e.before = before.into();
        e.after = after.into();
        e.expandable()
    };
    assert!(check("1", "2"));
    assert!(!check("", "2"));
    assert!(!check("1", ""));
    assert!(!check("", ""));
    assert!(check("0000001", "a"));
    assert!(check("a", "0000000f"));
    assert!(!check("1", "000000"));
    assert!(!check("00", "a"));
    assert!(!check("0", "0"));
    assert!(!check(&"0".repeat(40), &"c".repeat(40)));
    assert!(!check(&"c".repeat(40), &"0".repeat(40)));
    assert!(check(&"b".repeat(40), &"a".repeat(40)));
}

#[test]
fn numbers_in_details() {
    assert_eq!(detail_number("opened #1387"), "1387");
    assert_eq!(detail_number("#12ab"), "12");
    assert_eq!(detail_number("a#b#7"), "");
    assert_eq!(detail_number("a#"), "");
    assert_eq!(detail_number("no number 5"), "");
    assert_eq!(detail_number("##5"), "");
    assert_eq!(detail_number("#٣"), "");
    assert_eq!(event("", "a#b#7").filter_key(), "a#b#7");
    assert_eq!(event("", "closed #9!").filter_key(), "9");
}
