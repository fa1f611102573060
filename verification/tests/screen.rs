use ghlens::app::App;
use ghlens::event::{Color, Ev};
use ghlens::layout::Rect;
use ghlens::screen::{
    badge, chart_axis, chart_title, colored, dump, heights, plain, scrollbar, show_commit_row,
    show_event, strong, ui, Span, Style,
};

fn mk(ts: &str, detail: &str) -> Ev {
    Ev::new(ts.into(), "alice".into(), "push", "push".into(), detail.into(), "")
}

fn app_of(stamps: &[&str]) -> App {
    let events = stamps.iter().map(|ts| mk(ts, "main")).collect();
    App::new("o/r".into(), None, events, String::new())
}

fn texts(spans: &Vec<Span>) -> Vec<&str> {
    spans.iter().map(|s| s.text.as_str()).collect()
}

#[test]
fn screens_that_are_high_enough_are_split_exactly() {
    for height in 10..60u16 {
        let mut app = app_of(&["2026-07-20T10:18:56Z"]);
        let areas = ui(&mut app, Rect::new(2, 3, 70, height)).areas;
        assert_eq!(areas.title, Rect::new(2, 3, 70, 1));
        assert_eq!(areas.chart, Rect::new(2, 4, 70, 6));
        assert_eq!(areas.table, Rect::new(2, 10, 70, height - 9));
        assert_eq!(areas.footer, Rect::new(2, 3 + height - 2, 70, 2));
        assert_eq!(app.table_area, Rect::new(2, 10, 69, height - 9));
        assert_eq!(app.spark_area, Rect::new(3, 5, 68, 3));
    }
}

#[test]
fn parts_of_low_screens_still_fill_the_screen() {
    let least = heights();
    for x in 0..40u16 {
        for height in 0..10u16 {
            let mut app = app_of(&["2026-07-20T10:18:56Z"]);
            let area = Rect::new(x, 5, 80, height);
            let areas = ui(&mut app, area).areas;
            let mut y = area.y;
            for part in [areas.title, areas.chart, areas.table, areas.footer] {
                assert_eq!((part.x, part.width), (x, 80));
                assert_eq!(part.y, y, "{height} {areas:?}");
                y += part.height;
            }
            assert_eq!(y, area.y + area.height, "{height} {areas:?}");
            if height >= 1 {
                assert_eq!(areas.table.height, least.table);
            }
            assert!(areas.title.height <= least.title);
            assert!(areas.chart.height <= least.chart);
            assert!(areas.footer.height <= least.footer);
        }
    }
}

#[test]
fn narrow_and_empty_screens_are_laid_out() {
    for width in 0..6u16 {
        for height in 0..14u16 {
            let mut app = app_of(&["2026-07-20T10:18:56Z", "2026-07-21T10:18:56Z"]);
            let screen = ui(&mut app, Rect::new(0, 0, width, height));
            let inner = width.saturating_sub(2);
            assert_eq!(app.spark_area.width, inner);
            assert_eq!(screen.bars.len(), (inner as usize).clamp(1, 2));
            assert_eq!(app.spark_days.len(), screen.bars.len());
            assert_eq!(app.spark_days.last().map(|d| d.as_str()), Some("2026-07-21"));
        }
    }
}

#[test]
fn the_title_counts_events() {
    let mut app = app_of(&["2026-07-20T10:18:56Z", "2026-07-19T10:18:56Z"]);
    app.filters[1] = "07-19".into();
    let screen = ui(&mut app, Rect::new(0, 0, 80, 24));
    assert_eq!(texts(&screen.title), vec![" o/r ", "  2 events", "  ·  1 shown"]);
    assert_eq!(screen.title[0].style, badge(Color::White, Color::Blue));
    assert_eq!(screen.title[1].style, plain());
    assert_eq!(screen.title[2].style, colored(Color::DarkGray));
}

#[test]
fn days_are_counted_ascending() {
    let mut app = app_of(&[
        "2026-07-20T10:18:56Z",
        "2026-07-18T10:18:56Z",
        "2026-07-20T09:18:56Z",
        "2026-07-19T10:18:56Z",
        "2026-07-20T08:18:56Z",
    ]);
    let screen = ui(&mut app, Rect::new(0, 0, 80, 24));
    assert_eq!(app.spark_days, vec!["2026-07-18", "2026-07-19", "2026-07-20"]);
    assert_eq!(screen.bars, vec![1, 1, 3]);
    assert_eq!(
        screen.chart_title,
        " activity: 1 bar = 1 day, full bar = 3 events · 3 days "
    );
    assert_eq!(screen.bright, Some(app.spark_area.x + 2));
    app.state.select(Some(1));
    assert_eq!(ui(&mut app, Rect::new(0, 0, 80, 24)).bright, Some(app.spark_area.x));
    app.state.select(None);
    assert_eq!(ui(&mut app, Rect::new(0, 0, 80, 24)).bright, None);
}

#[test]
fn a_narrow_chart_has_the_last_days() {
    let mut app = app_of(&["2026-07-20T1", "2026-07-19T1", "2026-07-18T1", "2026-07-17T1"]);
    app.state.select(Some(3));
    let screen = ui(&mut app, Rect::new(0, 0, 4, 24));
    assert_eq!(app.spark_days, vec!["2026-07-19", "2026-07-20"]);
    assert_eq!(screen.bright, None);
    assert_eq!(screen.bars, vec![1, 1]);
}

fn days(n: usize) -> Vec<(String, u64)> {
    (0..n).map(|k| (format!("2026-07-{:02}", k + 10), k as u64 + 1)).collect()
}

#[test]
fn titles_of_charts() {
    assert_eq!(
        chart_title(&Vec::new()),
        " activity: 1 bar = 1 day, full bar = 0 events · 0 days "
    );
    assert_eq!(
        chart_title(&days(1)),
        " activity: 1 bar = 1 day, full bar = 1 event · 1 days "
    );
    let falling = vec![("a".to_string(), 12), ("b".to_string(), 7)];
    assert_eq!(
        chart_title(&falling),
        " activity: 1 bar = 1 day, full bar = 12 events · 2 days "
    );
}

#[test]
fn dates_below_the_bars() {
    assert_eq!(chart_axis(&Vec::new(), 80), "no activity");
    assert_eq!(chart_axis(&vec![("".to_string(), 2), ("2026-07-10".to_string(), 1)], 80), "no activity");
    assert_eq!(chart_axis(&days(1), 80), "2026-07-10");
    assert_eq!(chart_axis(&days(5), 21), "2026-07-10");
    assert_eq!(chart_axis(&days(5), 22), "2026-07-10  2026-07-14");
    assert_eq!(chart_axis(&days(2), 40), format!("2026-07-10{}2026-07-11", " ".repeat(20)));
    assert_eq!(chart_axis(&days(5), 34), "2026-07-10  2026-07-12  2026-07-14");
    assert_eq!(chart_axis(&days(4), 37), "2026-07-10   2026-07-12    2026-07-13");
    for width in 22..120 {
        assert_eq!(chart_axis(&days(4), width).len(), width as usize);
    }
}

#[test]
fn the_axis_stands_in_the_last_row_of_the_chart() {
    let mut app = app_of(&["2026-07-20T10:18:56Z"]);
    let screen = ui(&mut app, Rect::new(0, 0, 80, 24));
    let (text, area) = screen.axis.unwrap();
    assert_eq!(text, "2026-07-20");
    assert_eq!(area, Rect::new(1, 5, 78, 1));
}

#[test]
fn rows_of_events() {
    let mut e = mk("2026-07-20T10:18:56Z", "main");
    let row = show_event(&e);
    let cells: Vec<Vec<&str>> = row.iter().map(texts).collect();
    assert_eq!(
        cells,
        vec![vec![""], vec!["2026-07-20 10:18"], vec!["↑ push"], vec!["alice"], vec!["main"]]
    );
    assert_eq!(row[0][0].style, colored(Color::DarkGray));
    assert_eq!(row[1][0].style, colored(Color::DarkGray));
    assert_eq!(row[2][0].style, colored(Color::Cyan));
    assert_eq!(row[3][0].style, strong());
    assert_eq!(row[4][0].style, colored(Color::Magenta));
    e.before = "1".into();
    e.after = "2".into();
    e.commit_count = Some(0);
    assert_eq!(texts(&show_event(&e)[0]), vec!["▸"]);
    assert_eq!(texts(&show_event(&e)[4]), vec!["main", "  (0 commits)"]);
    e.expanded = true;
    e.commit_count = Some(1);
    assert_eq!(texts(&show_event(&e)[0]), vec!["▾"]);
    assert_eq!(texts(&show_event(&e)[4]), vec!["main", "  (1 commit)"]);
    assert_eq!(show_event(&e)[4][1].style, colored(Color::DarkGray));
}

#[test]
fn rows_of_commits() {
    let row = show_commit_row("abc1234  first");
    let cells: Vec<Vec<&str>> = row.iter().map(texts).collect();
    assert_eq!(cells, vec![vec![], vec![], vec![], vec![], vec!["↳ abc1234  first"]]);
    assert_eq!(row[4][0].style, colored(Color::DarkGray));
}

#[test]
fn the_active_column_stands_out() {
    let mut app = app_of(&[]);
    let screen = ui(&mut app, Rect::new(0, 0, 80, 24));
    assert_eq!(texts(&screen.header), vec!["", "Date", "Type", "Actor", "Detail"]);
    assert!(screen.header[1..].iter().all(|s| s.style == strong()));
    app.active = 3;
    let screen = ui(&mut app, Rect::new(0, 0, 80, 24));
    let bright = Style { fg: Some(Color::Yellow), bg: None, bold: true, underlined: true };
    assert_eq!(screen.header[3].style, bright);
    assert_eq!(screen.header[4].style, strong());
}

#[test]
fn the_footer_names_the_filters() {
    let mut app = app_of(&[]);
    app.active = 3;
    app.filters[3] = "bob".into();
    app.filters[0] = "x".into();
    app.filters[4] = "y z".into();
    app.status = Some("copied".into());
    let screen = ui(&mut app, Rect::new(0, 0, 80, 24));
    assert_eq!(
        texts(&screen.footer),
        vec![" filter[", "Actor", "]:", " bob▌", "  All:x", "  Detail:y z", "   ✓ copied"]
    );
    assert_eq!(screen.footer[1].style, badge(Color::Black, Color::Yellow));
    assert_eq!(screen.footer[4].style, colored(Color::Cyan));
    assert!(texts(&screen.footer).concat().starts_with(" filter[Actor]: bob▌"));
    let green = Style { fg: Some(Color::Green), bg: None, bold: true, underlined: false };
    assert_eq!(screen.footer[6].style, green);
}

#[test]
fn lines_stand_between_the_columns() {
    let mut app = app_of(&["2026-07-20T10:18:56Z"]);
    assert_eq!(ui(&mut app, Rect::new(0, 0, 90, 24)).rules, vec![19, 38, 55]);
    assert_eq!(ui(&mut app, Rect::new(0, 0, 56, 24)).rules, vec![19, 38]);
    assert_eq!(ui(&mut app, Rect::new(0, 0, 20, 24)).rules, Vec::<u16>::new());
}

#[test]
fn an_empty_table_says_so() {
    let mut app = app_of(&[]);
    let screen = ui(&mut app, Rect::new(0, 0, 80, 12));
    assert_eq!(screen.notice, Some(Rect::new(0, 9, 80, 1)));
    assert_eq!(ui(&mut app, Rect::new(0, 0, 80, 11)).notice, None);
    assert_eq!(screen.axis.map(|a| a.0).as_deref(), Some("no activity"));
    let mut app = app_of(&["2026-07-20T10:18:56Z"]);
    assert_eq!(ui(&mut app, Rect::new(0, 0, 80, 24)).notice, None);
}

#[test]
fn the_scroll_bar_shows_where_rows_are_hidden() {
    let mut app = app_of(&["2026-07-20T10:18:56Z"; 8]);
    ui(&mut app, Rect::new(0, 0, 80, 18));
    assert_eq!(scrollbar(&app), None);
    ui(&mut app, Rect::new(0, 0, 80, 17));
    app.state.offset = 1;
    assert_eq!(scrollbar(&app), Some((1, 1)));
    ui(&mut app, Rect::new(0, 0, 80, 10));
    assert_eq!(scrollbar(&app), Some((8, 1)));
    let mut app = app_of(&["2026-07-20T10:18:56Z"]);
    ui(&mut app, Rect::new(0, 0, 80, 10));
    assert_eq!(scrollbar(&app), None);
}

#[test]
fn piped_output_has_the_filtered_rows() {
    let mut app = app_of(&["2026-07-20T10:18:56Z", "2026-07-19T09:00:00Z"]);
    app.filters[1] = "09:00".into();
    assert_eq!(dump(&app), vec!["2026-07-19 09:00\t↑\tpush\talice\tmain"]);
    app.filters[1].clear();
    assert_eq!(dump(&app).len(), 2);
    app.filters[1] = "zzz".into();
    assert!(dump(&app).is_empty());
}
