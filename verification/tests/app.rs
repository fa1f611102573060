use ghlens::app::{Action, App, Row};
use ghlens::event::Ev;
use ghlens::gh::Reply;
use ghlens::input::{
    clipboard_tool, copy_to_clipboard, handle_key, handle_mouse, line_text, Copying, KeyCode, KeyEvent, MouseEvent,
    MouseKind, CONTROL, NONE, SHIFT,
};
use ghlens::layout::Rect;
use ghlens::screen::{ui, Span, HELP, NO_ROWS};

fn mk(ts: &str, kind: &str, label: &str, detail: &str, extra: &str) -> Ev {
    Ev::new(ts.into(), "alice".into(), kind, label.into(), detail.into(), extra)
}

fn sample() -> App {
    let events = vec![
        mk("2026-07-20T10:18:56Z", "push", "push", "feature/1387-search", ""),
        mk("2026-07-19T09:00:00Z", "PullRequestEvent", "PullRequest", "opened #1387", "1387"),
        mk("2026-07-18T08:00:00Z", "branch_creation", "branch_creation", "feature/x", ""),
    ];
    App::new("o/r".into(), None, events, String::new())
}

fn key(modifiers: u8, code: KeyCode) -> KeyEvent {
    KeyEvent { modifiers, code }
}

fn press(app: &mut App, code: KeyCode) -> Action {
    handle_key(app, key(NONE, code))
}

fn control(app: &mut App, c: char) -> Action {
    handle_key(app, key(CONTROL, KeyCode::Char(c)))
}

fn mouse(app: &mut App, kind: MouseKind, column: u16, row: u16, now: u64) -> Action {
    handle_mouse(app, MouseEvent { kind, column, row }, now)
}

fn line(spans: &Vec<Span>) -> String {
    let mut t = String::new();
    for s in spans {
        t.push_str(&s.text);
    }
    t
}

fn put(grid: &mut Vec<Vec<char>>, area: Rect, x: u16, y: u16, text: &str) {
    let right = (area.x + area.width) as usize;
    let mut at = x as usize;
    for c in text.chars() {
        if at < right && y < area.y + area.height {
            grid[y as usize][at] = c;
        }
        at += 1;
    }
}

/// The cells of the screen, row by row, with each part clipped to its place.
fn draw(app: &mut App, w: u16, h: u16) -> String {
    let screen = ui(app, Rect::new(0, 0, w, h));
    let mut grid = vec![vec![' '; w as usize]; h as usize];
    let parts = screen.areas;
    put(&mut grid, parts.title, parts.title.x, parts.title.y, &line(&screen.title));
    put(&mut grid, parts.chart, parts.chart.x + 1, parts.chart.y, &screen.chart_title);
    if let Some((text, at)) = &screen.axis {
        put(&mut grid, *at, at.x, at.y, text);
    }
    let table = app.table_area;
    let spans = app.col_spans();
    for (c, (left, right)) in spans.iter().enumerate() {
        let column = Rect::new(*left, table.y, right - left, table.height);
        put(&mut grid, column, *left, table.y, &screen.header[c].text);
        for (k, row) in screen.rows.iter().skip(app.state.offset).enumerate() {
            if k + 1 < table.height as usize {
                put(&mut grid, column, *left, table.y + 1 + k as u16, &line(&row[c]));
            }
        }
    }
    if let Some(at) = screen.notice {
        put(&mut grid, at, at.x, at.y, NO_ROWS);
    }
    put(&mut grid, parts.footer, parts.footer.x, parts.footer.y, &line(&screen.footer));
    put(&mut grid, parts.footer, parts.footer.x, parts.footer.y + 1, HELP);
    grid.concat().into_iter().collect()
}

#[test]
fn renders_frame() {
    let mut app = sample();
    let dump = draw(&mut app, 90, 20);
    assert!(dump.contains("o/r"), "header repo missing");
    assert!(dump.contains("alice"), "event row missing");
    assert!(dump.contains("full bar ="), "sparkline scale title missing");
    assert!(dump.contains("2026-07-18") && dump.contains("2026-07-20"), "date axis missing");
    assert!(dump.contains("Detail"), "column header missing");
    assert!(dump.contains("focus this branch"), "help line missing");
}

#[test]
fn spark_click_jumps() {
    let mut app = sample();
    draw(&mut app, 90, 20);
    assert_eq!(app.spark_days.len(), 3);
    let sp = app.spark_area;
    mouse(&mut app, MouseKind::Down, sp.x, sp.y, 0);
    assert_eq!(app.state.selected(), Some(2));
}

#[test]
fn all_filter_by_number() {
    let mut app = sample();
    app.filters[0] = "1387".into();
    assert_eq!(app.filtered().len(), 2);
    draw(&mut app, 60, 16);
}

#[test]
fn and_tokens_in_one_box() {
    let mut app = sample();
    app.filters[0] = "push alice".into();
    assert_eq!(app.filtered().len(), 1);
    app.filters[0] = "push nobody".into();
    assert!(app.filtered().is_empty());
    app.filters[0] = "alice push".into();
    assert_eq!(app.filtered().len(), 1);
}

#[test]
fn filter_key_picks_branch_or_number() {
    let app = sample();
    assert_eq!(app.events[0].filter_key(), "feature/1387-search");
    assert_eq!(app.events[1].filter_key(), "1387");
    assert_eq!(app.events[2].filter_key(), "feature/x");
}

#[test]
fn ctrl_f_focuses_branch() {
    let mut app = sample();
    app.filters[2] = "branch_creation".into();
    app.active = 2;
    app.state.select(Some(0));
    let pos = app.visible().iter().position(|r| matches!(r, Row::Event(2))).unwrap();
    app.state.select(Some(pos));
    let quit = matches!(control(&mut app, 'f'), Action::Quit);
    assert!(!quit);
    assert_eq!(app.active, 0, "focus switches to the All column");
    assert_eq!(app.filters[0], "feature/x", "All filter set to the branch");
    assert!(app.filters[2].is_empty(), "the type filter was cleared");
}

#[test]
fn per_column_filter() {
    let mut app = sample();
    app.filters[2] = "pullrequest".into();
    let hits = app.filtered();
    assert_eq!(hits.len(), 1);
    assert_eq!(app.events[hits[0]].label, "PullRequest");
    app.filters[2].clear();
    app.filters[4] = "feature/x".into();
    assert_eq!(app.filtered().len(), 1);
}

#[test]
fn renders_empty_match() {
    let mut app = sample();
    app.filters[0] = "zzz-nothing".into();
    assert!(app.filtered().is_empty());
    let dump = draw(&mut app, 60, 12);
    assert!(dump.contains("no events match"), "empty-state message missing");
}

#[test]
fn expand_splices_commits() {
    let mut app = sample();
    assert!(!app.events[0].expandable(), "no SHAs yet -> not expandable");
    app.events[0].before = "b".repeat(40);
    app.events[0].after = "a".repeat(40);
    assert!(app.events[0].expandable());
    app.events[2].before = "0".repeat(40);
    app.events[2].after = "c".repeat(40);
    assert!(!app.events[2].expandable());

    let base = app.visible().len();
    app.events[0].commits = Some(vec!["abc1234  first".into(), "def5678  second".into()]);
    app.events[0].expanded = true;
    let vis = app.visible();
    assert_eq!(vis.len(), base + 2, "two commit rows spliced in");
    assert!(matches!(vis[1], Row::Commit(0, 0)));

    let dump = draw(&mut app, 90, 20);
    assert!(dump.contains("first"), "commit subject rendered");
    assert!(dump.contains('▾'), "expanded marker rendered");
}

#[test]
fn arrow_click_toggles() {
    let mut app = sample();
    app.events[0].before = "b".repeat(40);
    app.events[0].after = "a".repeat(40);
    app.events[0].commits = Some(vec!["abc1234  x".into()]);
    draw(&mut app, 90, 20);
    let a = app.table_area;
    let marker = app.col_spans()[0];
    mouse(&mut app, MouseKind::Down, marker.0, a.y + 1, 0);
    assert!(app.events[0].expanded, "arrow click should expand");
    let detail_x = app.col_spans()[4].0;
    mouse(&mut app, MouseKind::Down, detail_x, a.y + 1, 0);
    assert!(app.events[0].expanded, "a single body click must not collapse");
}

#[test]
fn commit_count_decorator() {
    let mut app = sample();
    app.events[0].commit_count = Some(3);
    let dump = draw(&mut app, 100, 20);
    assert!(dump.contains("(3 commits)"), "decorator missing");
    app.events[0].commit_count = Some(1);
    assert!(draw(&mut app, 100, 20).contains("(1 commit)"), "singular decorator missing");
}

#[test]
fn copy_line_text() {
    let mut app = sample();
    assert_eq!(
        line_text(&app, Row::Event(1)),
        "2026-07-19 09:00\tPullRequest\talice\topened #1387"
    );
    app.events[0].commits = Some(vec!["abc1234  first".into()]);
    assert_eq!(line_text(&app, Row::Commit(0, 0)), "abc1234  first");
}

#[test]
fn resize_updates_width() {
    let mut app = sample();
    app.table_area = Rect::new(0, 8, 90, 10);
    let spans = app.col_spans();
    let before = app.col_w[2];
    app.drag = Some((2, spans[2].0));
    mouse(&mut app, MouseKind::Drag, spans[2].1 + 5, 12, 0);
    assert_eq!(app.col_w[2], before + 5);
    assert_eq!(app.col_w[1], 16, "neighbor width unchanged");
}

#[test]
fn starts_with_the_initial_filter() {
    let app = App::new("o/r".into(), Some("ghe.example.com".into()), Vec::new(), "x".into());
    assert_eq!(app.filters[0], "x");
    assert!(app.filters[1..].iter().all(|f| f.is_empty()));
    assert_eq!(app.active, 0);
    assert_eq!(app.col_w, [2, 16, 18, 16, 0]);
    assert_eq!(app.state.selected(), None);
    assert_eq!(app.state.offset, 0);
    assert_eq!(app.host.as_deref(), Some("ghe.example.com"));
    assert!(app.status.is_none() && app.drag.is_none() && app.last_click.is_none());
    assert_eq!(sample().state.selected(), Some(0));
}

#[test]
fn an_empty_filter_shows_all_rows_in_order() {
    let mut app = sample();
    app.filters[0] = "  \t ".into();
    assert_eq!(app.filtered(), vec![0, 1, 2]);
    assert_eq!(app.visible(), vec![Row::Event(0), Row::Event(1), Row::Event(2)]);
}

#[test]
fn filters_of_two_columns_both_have_to_match() {
    let mut app = sample();
    app.filters[1] = "2026-07".into();
    app.filters[3] = "ALICE".into();
    assert_eq!(app.filtered(), vec![0, 1, 2]);
    app.filters[4] = "feature".into();
    assert_eq!(app.filtered(), vec![0, 2]);
    app.filters[1] = "20 10:18".into();
    assert_eq!(app.filtered(), vec![0]);
}

#[test]
fn letters_beyond_ascii_match_in_lower_case() {
    let mut app = sample();
    app.events[0] = mk("2026-07-20T10:18:56Z", "push", "push", "Straße/ÄRGER", "");
    app.filters[0] = "äRGER STRASSE".into();
    assert!(app.filtered().is_empty());
    app.filters[0] = "äRGER STRAßE".into();
    assert_eq!(app.filtered(), vec![0]);
    app.filters = Default::default();
    app.filters[4] = "ärger".into();
    assert_eq!(app.filtered(), vec![0]);
}

#[test]
fn tab_goes_round() {
    let mut app = sample();
    let mut seen = Vec::new();
    for _ in 0..5 {
        press(&mut app, KeyCode::Tab);
        seen.push(app.active);
    }
    assert_eq!(seen, vec![1, 2, 3, 4, 0]);
    press(&mut app, KeyCode::BackTab);
    assert_eq!(app.active, 4);
    press(&mut app, KeyCode::Tab);
    assert_eq!(app.active, 0);
}

#[test]
fn typing_edits_the_active_filter() {
    let mut app = sample();
    app.active = 2;
    press(&mut app, KeyCode::Char('p'));
    handle_key(&mut app, key(SHIFT, KeyCode::Char('U')));
    assert_eq!(app.filters[2], "pU");
    assert_eq!(app.filtered(), vec![0, 1]);
    handle_key(&mut app, key(4, KeyCode::Char('x')));
    handle_key(&mut app, key(CONTROL, KeyCode::Char('x')));
    handle_key(&mut app, key(CONTROL | SHIFT, KeyCode::Char('q')));
    assert_eq!(app.filters[2], "pU");
    press(&mut app, KeyCode::Backspace);
    assert_eq!(app.filters[2], "p");
    press(&mut app, KeyCode::Backspace);
    press(&mut app, KeyCode::Backspace);
    assert_eq!(app.filters[2], "");
    assert_eq!(app.filters[0], "");
    press(&mut app, KeyCode::Char('→'));
    assert_eq!(app.filters[2], "→");
    press(&mut app, KeyCode::Backspace);
    assert_eq!(app.filters[2], "");
}

#[test]
fn esc_clears_and_then_quits() {
    let mut app = sample();
    app.filters[4] = "zzz".into();
    app.active = 1;
    app.reset_sel();
    assert_eq!(app.state.selected(), None);
    assert!(matches!(press(&mut app, KeyCode::Esc), Action::Stay));
    assert!(app.filters.iter().all(|f| f.is_empty()));
    assert_eq!(app.active, 1);
    assert_eq!(app.state.selected(), Some(0));
    assert!(matches!(press(&mut app, KeyCode::Esc), Action::Quit));
}

#[test]
fn ctrl_q_quits() {
    let mut app = sample();
    app.filters[0] = "push".into();
    assert!(matches!(control(&mut app, 'q'), Action::Quit));
    assert!(matches!(press(&mut app, KeyCode::Char('q')), Action::Stay));
    assert_eq!(app.filters[0], "pushq");
}

#[test]
fn selection_moves_and_stays_in_the_table() {
    let mut app = sample();
    press(&mut app, KeyCode::Up);
    assert_eq!(app.state.selected(), Some(0));
    press(&mut app, KeyCode::Down);
    assert_eq!(app.state.selected(), Some(1));
    press(&mut app, KeyCode::PageDown);
    assert_eq!(app.state.selected(), Some(2));
    press(&mut app, KeyCode::PageUp);
    assert_eq!(app.state.selected(), Some(0));
    press(&mut app, KeyCode::End);
    assert_eq!(app.state.selected(), Some(2));
    press(&mut app, KeyCode::Home);
    assert_eq!(app.state.selected(), Some(0));
    app.state.select(None);
    press(&mut app, KeyCode::Down);
    assert_eq!(app.state.selected(), Some(1));
    app.state.offset = 2;
    app.filters[0] = "zzz".into();
    press(&mut app, KeyCode::Down);
    assert_eq!(app.state.selected(), None);
    assert_eq!(app.state.offset, 0);
}

#[test]
fn page_keys_move_by_ten() {
    let events = (0..30).map(|_| mk("2026-07-20T10:18:56Z", "push", "push", "main", "")).collect();
    let mut app = App::new("o/r".into(), None, events, String::new());
    press(&mut app, KeyCode::PageDown);
    assert_eq!(app.state.selected(), Some(10));
    press(&mut app, KeyCode::PageDown);
    press(&mut app, KeyCode::PageDown);
    assert_eq!(app.state.selected(), Some(29));
    press(&mut app, KeyCode::PageUp);
    assert_eq!(app.state.selected(), Some(19));
}

#[test]
fn every_key_takes_the_message_off() {
    let mut app = sample();
    app.copied(true);
    assert_eq!(app.status.as_deref(), Some("copied"));
    press(&mut app, KeyCode::Other);
    assert!(app.status.is_none());
    app.copied(false);
    assert_eq!(app.status.as_deref(), Some("no clipboard tool (pbcopy/wl-copy/xclip)"));
    control(&mut app, 'f');
    assert_eq!(app.status.as_deref(), Some("focused: feature/1387-search"));
    press(&mut app, KeyCode::Down);
    assert!(app.status.is_none());
}

#[test]
fn focusing_keeps_the_row() {
    let mut app = sample();
    app.state.select(Some(1));
    control(&mut app, 'f');
    assert_eq!(app.filters[0], "1387");
    assert_eq!(app.filtered(), vec![0, 1]);
    assert_eq!(app.state.selected(), Some(0));
}

#[test]
fn ctrl_c_copies_the_selected_row() {
    let mut app = sample();
    app.state.select(Some(1));
    match control(&mut app, 'c') {
        Action::Copy(t) => {
            assert_eq!(t, "2026-07-19 09:00\tPullRequest\talice\topened #1387")
        }
        _ => panic!("nothing to copy"),
    }
    app.state.select(None);
    assert!(matches!(control(&mut app, 'c'), Action::Stay));
    app.state.select(Some(9));
    assert!(matches!(control(&mut app, 'c'), Action::Stay));
}

fn opened(app: &mut App) -> Option<Vec<String>> {
    match control(app, 'o') {
        Action::Open(args) => Some(args),
        _ => None,
    }
}

#[test]
fn ctrl_o_opens_the_selected_row() {
    let mut app = sample();
    assert_eq!(
        opened(&mut app),
        Some(vec!["browse".into(), "-R".into(), "o/r".into(), "-b".into(), "feature/1387-search".into()])
    );
    app.host = Some("ghe.example.com".into());
    app.state.select(Some(1));
    assert_eq!(
        opened(&mut app),
        Some(vec!["browse".into(), "-R".into(), "ghe.example.com/o/r".into(), "1387".into()])
    );
    app.events[2] = mk("2026-07-18T08:00:00Z", "WatchEvent", "Watch", "starred", "");
    app.state.select(Some(2));
    assert_eq!(opened(&mut app), None);
    app.events[0].commits = Some(vec!["abc1234  first".into(), "… 3 more".into()]);
    app.events[0].expanded = true;
    app.state.select(Some(1));
    assert_eq!(opened(&mut app).map(|a| a[3].clone()), Some("abc1234".into()));
    app.state.select(Some(2));
    assert_eq!(
        opened(&mut app).map(|a| a[3..].to_vec()),
        Some(vec!["-b".into(), "feature/1387-search".into()])
    );
}

fn push_sample() -> App {
    let mut app = sample();
    app.events[0].before = "b".repeat(40);
    app.events[0].after = "a".repeat(40);
    app
}

fn compare_reply() -> Reply {
    let json = r#"{"commits":[
        {"sha":"0123456789abcdef","commit":{"message":"first line\nsecond line"}},
        {"sha":"fedcba","commit":{"message":""}}]}"#;
    Reply::Output { success: true, stdout: json.as_bytes().to_vec(), stderr: Vec::new() }
}

#[test]
fn enter_fetches_once_and_toggles() {
    let mut app = push_sample();
    match press(&mut app, KeyCode::Enter) {
        Action::Fetch { event, args } => {
            assert_eq!(event, 0);
            let path = format!("repos/o/r/compare/{}...{}", "b".repeat(40), "a".repeat(40));
            assert_eq!(args, vec!["api".to_string(), path]);
        }
        _ => panic!("nothing to fetch"),
    }
    assert!(!app.events[0].expanded);
    app.toggle_expand_reply(0, &compare_reply());
    assert!(app.events[0].expanded);
    assert_eq!(app.events[0].commit_count, Some(2));
    assert_eq!(
        app.events[0].commits,
        Some(vec!["0123456  first line".to_string(), "fedcba  ".to_string()])
    );
    assert_eq!(app.visible().len(), 5);
    assert!(matches!(press(&mut app, KeyCode::Enter), Action::Stay));
    assert!(!app.events[0].expanded);
    assert_eq!(app.events[0].commit_count, Some(2));
    assert_eq!(app.visible().len(), 3);
    assert!(matches!(press(&mut app, KeyCode::Enter), Action::Stay));
    assert!(app.events[0].expanded);
}

#[test]
fn a_failed_fetch_says_so_beneath_the_push() {
    let mut app = push_sample();
    app.toggle_expand_reply(0, &Reply::NotRun("no such file".into()));
    assert_eq!(app.events[0].commits, Some(vec!["(gh error: no such file)".to_string()]));
    assert_eq!(app.events[0].commit_count, None);
    assert!(app.events[0].expanded);
}

#[test]
fn only_pushes_expand() {
    let mut app = sample();
    assert!(matches!(press(&mut app, KeyCode::Enter), Action::Stay));
    app.events[2].before = "0".repeat(40);
    app.events[2].after = "c".repeat(40);
    app.state.select(Some(2));
    assert!(matches!(press(&mut app, KeyCode::Enter), Action::Stay));
    assert!(app.events.iter().all(|e| !e.expanded));
}

#[test]
fn double_click_is_enter() {
    let mut app = push_sample();
    app.events[0].commits = Some(vec!["abc1234  x".into()]);
    draw(&mut app, 90, 20);
    let (x, y) = (app.col_spans()[4].0 + 4, app.table_area.y + 1);
    mouse(&mut app, MouseKind::Down, x, y, 1_000);
    assert_eq!(app.last_click, Some((1_000, 0)));
    mouse(&mut app, MouseKind::Down, x, y, 400_001_000);
    assert!(!app.events[0].expanded, "too late for a double click");
    mouse(&mut app, MouseKind::Down, x, y + 1, 400_002_000);
    assert!(!app.events[0].expanded, "another row");
    assert_eq!(app.state.selected(), Some(1));
    mouse(&mut app, MouseKind::Down, x, y, 400_003_000);
    mouse(&mut app, MouseKind::Down, x, y, 800_002_999);
    assert!(app.events[0].expanded);
    assert_eq!(app.last_click, None);
    mouse(&mut app, MouseKind::Down, x, y, 800_003_000);
    assert!(app.events[0].expanded, "a third click is a first one");
    mouse(&mut app, MouseKind::Down, x, y + 1, 800_003_001);
    mouse(&mut app, MouseKind::Down, x, y + 1, 800_003_002);
    assert!(app.events[0].expanded, "a commit's row does not toggle");
}

#[test]
fn a_double_click_can_ask_for_a_fetch() {
    let mut app = push_sample();
    draw(&mut app, 90, 20);
    let y = app.table_area.y + 1;
    assert!(matches!(mouse(&mut app, MouseKind::Down, 0, y, 0), Action::Fetch { event: 0, .. }));
}

#[test]
fn scrolling_moves_by_three() {
    let events = (0..9).map(|_| mk("2026-07-20T10:18:56Z", "push", "push", "main", "")).collect();
    let mut app = App::new("o/r".into(), None, events, String::new());
    mouse(&mut app, MouseKind::ScrollDown, 5, 5, 0);
    assert_eq!(app.state.selected(), Some(0), "the table was not drawn yet");
    draw(&mut app, 80, 24);
    mouse(&mut app, MouseKind::ScrollDown, 5, 5, 0);
    assert_eq!(app.state.selected(), Some(3));
    mouse(&mut app, MouseKind::ScrollUp, 5, 5, 0);
    mouse(&mut app, MouseKind::ScrollUp, 5, 5, 0);
    assert_eq!(app.state.selected(), Some(0));
    mouse(&mut app, MouseKind::Other, 5, 5, 0);
    assert_eq!(app.state.selected(), Some(0));
}

#[test]
fn clicking_the_header_picks_its_filter() {
    let mut app = sample();
    draw(&mut app, 90, 20);
    assert_eq!(app.col_spans(), [(0, 2), (3, 19), (20, 38), (39, 55), (56, 89)]);
    let y = app.table_area.y;
    for (c, x) in [(1, 5), (2, 30), (3, 45), (4, 60)] {
        mouse(&mut app, MouseKind::Down, x, y, 0);
        assert_eq!(app.active, c);
    }
    mouse(&mut app, MouseKind::Down, 0, y, 0);
    assert_eq!(app.active, 4, "the arrows have no filter");
}

#[test]
fn dragging_an_edge_moves_it() {
    let mut app = sample();
    draw(&mut app, 90, 20);
    let y = app.table_area.y;
    mouse(&mut app, MouseKind::Down, 37, y + 3, 0);
    assert_eq!(app.drag, Some((2, 20)));
    mouse(&mut app, MouseKind::Drag, 50, y, 0);
    assert_eq!(app.col_spans()[2], (20, 50));
    mouse(&mut app, MouseKind::Drag, 3, y, 0);
    assert_eq!(app.col_w, [2, 16, 4, 16, 0]);
    mouse(&mut app, MouseKind::Drag, 400, y, 0);
    assert_eq!(app.col_w, [2, 16, 83, 16, 0]);
    mouse(&mut app, MouseKind::Up, 400, y, 0);
    assert_eq!(app.drag, None);
    mouse(&mut app, MouseKind::Drag, 40, y, 0);
    assert_eq!(app.col_w, [2, 16, 83, 16, 0]);
}

#[test]
fn a_narrow_table_keeps_the_least_width() {
    let mut app = sample();
    app.table_area = Rect::new(0, 0, 9, 5);
    app.drag = Some((1, 3));
    mouse(&mut app, MouseKind::Drag, 9, 0, 0);
    assert_eq!(app.col_w[1], 4);
    app.table_area = Rect::new(0, 0, 11, 5);
    mouse(&mut app, MouseKind::Drag, 9, 0, 0);
    assert_eq!(app.col_w[1], 5);
}

#[test]
fn clicks_below_the_rows_do_nothing() {
    let mut app = sample();
    draw(&mut app, 90, 20);
    app.state.select(Some(1));
    let y = app.table_area.y;
    mouse(&mut app, MouseKind::Down, 60, y + 4, 0);
    assert_eq!(app.state.selected(), Some(1));
    app.state.offset = 1;
    mouse(&mut app, MouseKind::Down, 60, y + 2, 0);
    assert_eq!(app.state.selected(), Some(2));
    app.state.offset = usize::MAX;
    mouse(&mut app, MouseKind::Down, 60, y + 2, 0);
    assert_eq!(app.state.selected(), Some(2));
}

#[test]
fn clicks_right_of_the_bars_do_nothing() {
    let mut app = sample();
    draw(&mut app, 90, 20);
    let sp = app.spark_area;
    assert_eq!(sp, Rect::new(1, 2, 88, 3));
    mouse(&mut app, MouseKind::Down, sp.x + 1, sp.y + 2, 0);
    assert_eq!(app.state.selected(), Some(1));
    mouse(&mut app, MouseKind::Down, sp.x + 3, sp.y, 0);
    assert_eq!(app.state.selected(), Some(1));
    app.filters[0] = "push".into();
    app.reset_sel();
    mouse(&mut app, MouseKind::Down, sp.x, sp.y, 0);
    assert_eq!(app.state.selected(), Some(0), "no row of that day is left");
}

#[test]
fn columns_fit_on_usual_screens() {
    let mut app = sample();
    assert!(app.columns_fit(Rect::new(0, 0, 500, 200)));
    assert!(!app.columns_fit(Rect::new(65500, 0, 10, 10)));
    app.col_w[2] = 65535;
    assert!(!app.columns_fit(Rect::new(0, 0, 80, 24)));
}

#[test]
fn the_selection_stays_in_the_table() {
    let mut app = push_sample();
    let codes = [
        KeyCode::Char('a'), KeyCode::Char('z'), KeyCode::Char(' '), KeyCode::Backspace,
        KeyCode::Backspace, KeyCode::Tab, KeyCode::BackTab, KeyCode::Down, KeyCode::Up,
        KeyCode::PageDown, KeyCode::End, KeyCode::Home, KeyCode::Enter, KeyCode::Enter,
        KeyCode::Esc, KeyCode::Other,
    ];
    let mut seed: u32 = 1;
    for step in 0..3000u64 {
        seed = seed.wrapping_mul(1664525).wrapping_add(1013904223);
        let n = (seed >> 16) as usize;
        let action = if n % 3 == 0 {
            draw(&mut app, 60, 16);
            mouse(&mut app, MouseKind::Down, (n / 3 % 60) as u16, (n / 180 % 16) as u16, step)
        } else if n % 11 == 1 {
            control(&mut app, 'f')
        } else {
            press(&mut app, codes[n / 3 % codes.len()])
        };
        if let Action::Fetch { event, .. } = action {
            app.toggle_expand_reply(event, &compare_reply());
        }
        let rows = app.visible().len();
        match app.state.selected() {
            Some(k) => assert!(k < rows),
            None => assert_eq!(rows, 0),
        }
    }
}

#[test]
fn fetched_rows_come_in_beneath_the_selection() {
    let mut app = push_sample();
    app.state.select(Some(2));
    app.toggle_expand_reply(0, &compare_reply());
    assert_eq!(
        app.visible(),
        vec![Row::Event(0), Row::Commit(0, 0), Row::Commit(0, 1), Row::Event(1), Row::Event(2)]
    );
    assert_eq!(app.state.selected(), Some(2));
}

#[test]
fn the_footer_names_the_active_column() {
    let mut app = sample();
    app.active = 3;
    assert!(draw(&mut app, 90, 20).contains("filter[Actor]:"));
    app.active = 0;
    app.filters[0] = "push".into();
    assert!(draw(&mut app, 90, 20).contains(" filter[All]: push▌"));
}

#[test]
fn clipboard_programs_are_tried_in_order() {
    let tool = |n: usize| clipboard_tool(n).map(|t| t.join(" "));
    assert_eq!(tool(0).as_deref(), Some("pbcopy"));
    assert_eq!(tool(1).as_deref(), Some("wl-copy"));
    assert_eq!(tool(2).as_deref(), Some("xclip -selection clipboard"));
    assert_eq!(tool(3), None);
    assert_eq!(tool(usize::MAX), None);
    assert_eq!(copy_to_clipboard(0, false), Copying::Try(1));
    assert_eq!(copy_to_clipboard(1, false), Copying::Try(2));
    assert_eq!(copy_to_clipboard(2, false), Copying::Done(false));
    for n in 0..3 {
        assert_eq!(copy_to_clipboard(n, true), Copying::Done(true));
    }
}

#[test]
fn focusing_keeps_rows_of_any_script() {
    let details = [
        "ΑΣ ΣΑΣ ὈΔΥΣΣΕΎΣ", "Σ", "ΑΣ#12Σ", "x #7Σ", "İSTANBUL İ", "ΑΣ\u{301} ΑΣ'Α", "ǅ ẞ Straße",
        "日本語 #3", "ΑΣ.", "a\u{300}Σ\u{300} Σ", "ﬃ ŉ",
    ];
    for detail in details {
        for n in 0..=0x3000u32 {
            let Some(space) = char::from_u32(n) else { continue };
            if !space.is_whitespace() {
                continue;
            }
            let detail = format!("{detail}{space}ΑΣ{space}{detail}");
            let mut app = sample();
            app.events[1] = mk("2026-07-19T09:00:00Z", "push", "ΠΣ", &detail, "Σ");
            app.state.select(Some(1));
            let key = app.events[1].filter_key();
            assert!(matches!(control(&mut app, 'f'), Action::Stay));
            assert_eq!(app.filters[0], key);
            assert!(app.filtered().contains(&1), "{detail:?}");
            assert_eq!(app.state.selected(), Some(0));
            assert_eq!(app.status, Some(format!("focused: {key}")));
        }
    }
}
