//! What the screen is for: what stands on it, how it looks and where it is.
use crate::app::{AppView, Row};
use crate::chart_laws;
use crate::event::{Color, EvView};
use crate::laws::on_text;
use crate::layout;
use crate::layout::{Chunks, Rect};
use crate::screen;
use crate::screen::{Day, SpanView, Style};
use crate::text;
use vstd::prelude::*;
use vstd::string::*;

verus! {

// ---------------------------------------------------------------------------
// The chart
// ---------------------------------------------------------------------------

/// How many bars a chart has room for: one in each column inside its border, and at
/// least one.
pub open spec fn room(chart: Rect) -> int {
    if chart.width > 3 {
        chart.width - 2
    } else {
        1
    }
}

/// There is a bar for each day of the events that are shown, or, where there are more
/// days than columns, for the last of them, as many as there are columns. Each bar is
/// as high as its day has events, the days stand from the oldest to the newest, and
/// where all fit none is missing.
pub proof fn law_one_bar_for_each_day(app: AppView, areas: Chunks)
    ensures
        ({
            let all = screen::tally(app.events, app.matching());
            let bars = screen::screen_of(app, areas).bars;
            let days = screen::laid_out(app, areas).spark_days;
            let n = bars.len() as int;
            let fit = all.len() <= room(areas.chart);
            &&& days.len() == n
            &&& fit ==> n == all.len()
            &&& !fit ==> n == room(areas.chart)
            &&& forall|k: int|
                0 <= k < n ==> (#[trigger] days[k]) == all[all.len() - n + k].0 && bars[k]
                    == chart_laws::of_day(app.events, app.matching(), days[k])
            &&& forall|a: int, b: int|
                0 <= a < b < n ==> text::precedes(#[trigger] days[a], #[trigger] days[b])
            &&& forall|d: Seq<char>|
                fit && #[trigger] chart_laws::of_day(app.events, app.matching(), d) > 0
                    ==> days.contains(d)
        }),
{
    let idx = app.matching();
    let all = screen::tally(app.events, idx);
    let shown = screen::charted(app, areas.chart);
    let days = screen::laid_out(app, areas).spark_days;
    let bars = screen::screen_of(app, areas).bars;
    let n = bars.len() as int;
    chart_laws::law_days_are_counted(app.events, idx);
    assert(shown.len() == n);
    assert forall|k: int| 0 <= k < n implies (#[trigger] days[k]) == all[all.len() - n + k].0
        && bars[k] == chart_laws::of_day(app.events, idx, days[k]) by {
        assert(shown[k] == all[all.len() - n + k]);
        assert(bars[k] == shown[k].1);
    }
    assert forall|a: int, b: int| 0 <= a < b < n implies text::precedes(
        #[trigger] days[a],
        #[trigger] days[b],
    ) by {
        assert(text::precedes(all[all.len() - n + a].0, all[all.len() - n + b].0));
    }
    if all.len() <= room(areas.chart) {
        assert(shown == all);
        assert(days == screen::day_names(all));
    }
}

/// A number of things, with an ending where there is not one of them.
pub open spec fn several(digits: Seq<char>, thing: Seq<char>, n: int) -> Seq<char> {
    if n == 1 {
        digits + thing
    } else {
        digits + thing + seq!['s']
    }
}

/// A title with two numbers: what a full bar stands for and how many days there are.
pub open spec fn is_scale(title: Seq<char>, peak: Seq<char>, most: int, n: Seq<char>) -> bool {
    title == " activity: 1 bar = 1 day, full bar = "@ + several(peak, " event"@, most) + " · "@ + n
        + " days "@
}

/// The title of the chart says what a full bar stands for, which is the most events
/// of a day, and how many days there are.
pub proof fn law_chart_title_gives_the_scale(app: AppView, areas: Chunks)
    ensures
        ({
            let days = screen::charted(app, areas.chart);
            let most = screen::peak_of(days) as int;
            exists|peak: Seq<char>, n: Seq<char>| #[trigger]
                is_scale(screen::screen_of(app, areas).chart_title, peak, most, n)
                    && on_text::writes(peak, most) && on_text::writes(n, days.len() as int)
        }),
{
    let days = screen::charted(app, areas.chart);
    let most = screen::peak_of(days) as int;
    let peak = text::decimal(most);
    let n = text::decimal(days.len() as int);
    on_text::law_decimal_reads_back(most);
    on_text::law_decimal_reads_back(days.len() as int);
    reveal_strlit("");
    reveal_strlit("s");
    assert(screen::screen_of(app, areas).chart_title =~= " activity: 1 bar = 1 day, full bar = "@
        + several(peak, " event"@, most) + " · "@ + n + " days "@);
    assert(is_scale(screen::screen_of(app, areas).chart_title, peak, most, n));
}

/// The line below the bars: that there is no activity, or the first day, with the
/// last one at the right where there is room for two, and the middle one between them
/// where there is room for three.
pub proof fn law_dates_stand_below_the_bars(days: Seq<Day>, width: int)
    ensures
        ({
            let axis = screen::axis_of(days, width);
            let n = days.len() as int;
            let empty = n == 0 || days[0].0.len() == 0;
            &&& empty ==> axis == "no activity"@
            &&& !empty && (n == 1 || width < 22) ==> axis == days[0].0
            &&& !empty && width >= 22 && n >= 2 && (n == 2 || width < 34) ==> axis == days[0].0
                + text::spaces((width - 20) as nat) + days[n - 1].0
            &&& !empty && width >= 34 && n >= 3 ==> axis == days[0].0 + text::spaces(
                ((width - 30) / 2) as nat,
            ) + days[n / 2].0 + text::spaces((width - 30 - (width - 30) / 2) as nat) + days[n
                - 1].0
        }),
{
}

/// The bars stand inside the border, above the last row there, which is that of the
/// dates. It is there where the chart is four rows high or more.
pub proof fn law_bars_stand_inside_the_border(app: AppView, areas: Chunks)
    requires
        areas.chart.fits(),
    ensures
        ({
            let c = areas.chart;
            let bars = screen::laid_out(app, areas).spark_area;
            let axis = screen::screen_of(app, areas).axis;
            &&& c.width >= 2 && c.height >= 3 ==> bars == (Rect {
                x: (c.x + 1) as u16,
                y: (c.y + 1) as u16,
                width: (c.width - 2) as u16,
                height: (c.height - 3) as u16,
            })
            &&& c.width <= 2 ==> bars.width == 0
            &&& c.height <= 3 ==> bars.height == 0 && axis is None
            &&& c.height >= 4 ==> axis == Some(
                (
                    screen::axis_of(screen::charted(app, c), if c.width >= 2 {
                        c.width - 2
                    } else {
                        0
                    }),
                    Rect { y: (c.y + c.height - 2) as u16, height: 1, ..bars },
                ),
            )
        }),
{
}

/// A bar stands out exactly when a row is selected whose day has a bar: that one.
pub proof fn law_bright_bar(app: AppView, areas: Chunks, row: Row)
    requires
        areas.chart.fits(),
    ensures
        ({
            let bright = screen::screen_of(app, areas).bright;
            let days = screen::laid_out(app, areas).spark_days;
            let x = screen::laid_out(app, areas).spark_area.x;
            let day = app.events[row.event() as int].day;
            &&& app.selected_row() is None ==> bright is None
            &&& app.selected_row() == Some(row) && !days.contains(day) ==> bright is None
            &&& forall|k: int|
                app.selected_row() == Some(row) && 0 <= k < days.len() && #[trigger] days[k] == day
                    ==> bright == Some((x + k) as u16)
        }),
{
    let shown = screen::charted(app, areas.chart);
    let names = screen::day_names(shown);
    let day = app.events[row.event() as int].day;
    chart_laws::lemma_index_in(names, day, 0);
    if app.selected_row() == Some(row) {
        assert forall|k: int| 0 <= k < names.len() && #[trigger] names[k] == day implies
            screen::screen_of(app, areas).bright == Some(
            (screen::laid_out(app, areas).spark_area.x + k) as u16,
        ) by {
            assert(shown[k].0 == day);
            chart_laws::law_bright_bar_is_the_selected_day(app, areas, k, row);
        }
        if !names.contains(day) {
            match screen::index_in(names, day, 0) {
                Some(k) => assert(names[k] == day),
                None => {},
            }
        }
    }
}

// ---------------------------------------------------------------------------
// The parts
// ---------------------------------------------------------------------------

/// A screen of ten rows or more has one row of title, six of chart, then the table,
/// and two of footer at the bottom.
pub proof fn law_parts_of_the_screen(area: Rect)
    requires
        area.fits(),
        area.height >= 10,
    ensures
        ({
            let c = layout::roomy_chunks(area, screen::heights());
            let part = |y: int, h: int| Rect { y: y as u16, height: h as u16, ..area };
            &&& c.title == part(area.y as int, 1)
            &&& c.chart == part(area.y + 1, 6)
            &&& c.table == part(area.y + 7, area.height - 9)
            &&& c.footer == part(area.y + area.height - 2, 2)
        }),
{
}

/// Drawing only says where things stand: the table leaves its last column to the
/// scroll bar, and nothing but these places changes.
pub proof fn law_drawing_changes_places_alone(app: AppView, areas: Chunks)
    ensures
        ({
            let a = screen::laid_out(app, areas);
            &&& a == AppView {
                table_area: a.table_area,
                spark_area: a.spark_area,
                spark_days: a.spark_days,
                ..app
            }
            &&& areas.table.width > 0 ==> a.table_area == (Rect {
                width: (areas.table.width - 1) as u16,
                ..areas.table
            })
            &&& areas.table.width == 0 ==> a.table_area == areas.table
            &&& screen::screen_of(app, areas).areas == areas
        }),
{
}

/// The lines between the columns stand at the right edges of the date, the type and
/// the actor, as far as these are in the table.
pub proof fn law_lines_stand_at_the_edges(app: AppView, areas: Chunks)
    ensures
        ({
            let a = screen::laid_out(app, areas);
            let right = a.table_area.x + a.table_area.width;
            let edge = |c: int|
                if a.span(c).1 < right {
                    seq![a.span(c).1 as u16]
                } else {
                    seq![]
                };
            screen::screen_of(app, areas).rules == edge(1) + edge(2) + edge(3)
        }),
{
    reveal_with_fuel(screen::rules_from, 5);
    let a = screen::laid_out(app, areas);
    let right = a.table_area.x + a.table_area.width;
    let edge = |c: int|
        if a.span(c).1 < right {
            seq![a.span(c).1 as u16]
        } else {
            seq![]
        };
    assert(screen::rules_from(a, 4) =~= seq![]);
    assert(screen::rules_from(a, 3) =~= edge(3));
    assert(screen::rules_from(a, 2) =~= edge(2) + edge(3));
    assert(screen::rules_from(a, 1) =~= edge(1) + edge(2) + edge(3));
}

/// That nothing matches is said in the third row of the table, where it has one and
/// no others.
pub proof fn law_notice_stands_in_an_empty_table(app: AppView, areas: Chunks)
    requires
        areas.table.fits(),
    ensures
        ({
            let notice = screen::screen_of(app, areas).notice;
            let t = areas.table;
            &&& app.rows().len() == 0 && t.height >= 3 ==> notice == Some(
                Rect { x: t.x, y: (t.y + 2) as u16, width: t.width, height: 1 },
            )
            &&& app.rows().len() > 0 || t.height < 3 ==> notice is None
        }),
{
}

/// There is a scroll bar where more rows are there than fit below the header, and
/// more than one. It moves over the rows that do not fit.
pub proof fn law_scroll_bar_shows_hidden_rows(app: AppView)
    ensures
        ({
            let n = app.rows().len() as int;
            let h = app.table_area.height as int;
            let bar = screen::scroll_bar(app);
            &&& h >= 1 && n > h - 1 && n > 1 ==> bar == Some((n - (h - 1), app.state.offset))
            &&& h == 0 && n > 1 ==> bar == Some((n, app.state.offset))
            &&& n <= 1 || (h >= 1 && n <= h - 1) ==> bar is None
        }),
{
}

// ---------------------------------------------------------------------------
// Texts and looks
// ---------------------------------------------------------------------------

/// A piece of text in a color.
pub open spec fn tinted(text: Seq<char>, c: Color) -> SpanView {
    SpanView { text, style: Style { fg: Some(c), bg: None, bold: false, underlined: false } }
}

/// The title names the repository in white on blue, and says how many events there
/// are and, dimmed, how many of them are shown.
pub proof fn law_title_counts_the_events(app: AppView, areas: Chunks)
    ensures
        exists|all: Seq<char>, some: Seq<char>| #[trigger]
            is_title(screen::screen_of(app, areas).title, app, all, some) && on_text::writes(
                all,
                app.events.len() as int,
            ) && on_text::writes(some, app.matching().len() as int),
{
    let all = text::decimal(app.events.len() as int);
    let some = text::decimal(app.matching().len() as int);
    on_text::law_decimal_reads_back(app.events.len() as int);
    on_text::law_decimal_reads_back(app.matching().len() as int);
    assert(is_title(screen::screen_of(app, areas).title, app, all, some));
}

/// A title with two numbers.
pub open spec fn is_title(
    title: Seq<SpanView>,
    app: AppView,
    all: Seq<char>,
    some: Seq<char>,
) -> bool {
    title == seq![
        SpanView {
            text: " "@ + app.repo + " "@,
            style: Style {
                fg: Some(Color::White),
                bg: Some(Color::Blue),
                bold: true,
                underlined: false,
            },
        },
        SpanView {
            text: "  "@ + all + " events"@,
            style: Style { fg: None, bg: None, bold: false, underlined: false },
        },
        tinted("  ·  "@ + some + " shown"@, Color::DarkGray),
    ]
}

/// The name of a filter.
pub open spec fn title_of_column(c: int) -> Seq<char> {
    if c == 0 {
        "All"@
    } else if c == 1 {
        "Date"@
    } else if c == 2 {
        "Type"@
    } else if c == 3 {
        "Actor"@
    } else {
        "Detail"@
    }
}

/// The header has nothing over the arrows and the name over each column of text, in
/// bold; the active one is yellow and underlined.
pub proof fn law_header_marks_the_active_column(app: AppView, areas: Chunks, c: int)
    requires
        1 <= c <= 4,
    ensures
        ({
            let header = screen::screen_of(app, areas).header;
            &&& header.len() == 5
            &&& header[0].text.len() == 0
            &&& header[c].text == title_of_column(c)
            &&& header[c].style == (Style {
                fg: if c == app.active {
                    Some(Color::Yellow)
                } else {
                    None
                },
                bg: None,
                bold: true,
                underlined: c == app.active,
            })
        }),
{
    reveal_strlit("");
}

/// A filter that is not active and holds something, as the footer shows it.
pub open spec fn other(app: AppView, c: int) -> Seq<SpanView> {
    if c != app.active && app.filters[c].len() > 0 {
        seq![tinted("  "@ + title_of_column(c) + ":"@ + app.filters[c], Color::Cyan)]
    } else {
        seq![]
    }
}

/// The footer begins with the active filter, as `filter[Actor]: text` with a cursor,
/// goes on with every other filter that holds something, in order, and ends with the
/// message, if there is one.
pub proof fn law_footer_names_the_filters(app: AppView, areas: Chunks)
    requires
        app.wf(),
    ensures
        ({
            let footer = screen::screen_of(app, areas).footer;
            let bold = |fg: Option<Color>, bg: Option<Color>|
                Style { fg, bg, bold: true, underlined: false };
            let message = match app.status {
                Some(m) => seq![
                    SpanView { text: "   ✓ "@ + m, style: bold(Some(Color::Green), None) },
                ],
                None => seq![],
            };
            footer == seq![
                tinted(" filter["@, Color::DarkGray),
                SpanView {
                    text: title_of_column(app.active as int),
                    style: bold(Some(Color::Black), Some(Color::Yellow)),
                },
                tinted("]:"@, Color::DarkGray),
                SpanView {
                    text: " "@ + app.filters[app.active as int] + "▌"@,
                    style: bold(None, None),
                },
            ] + (other(app, 0) + other(app, 1) + other(app, 2) + other(app, 3) + other(app, 4))
                + message
        }),
{
    reveal_with_fuel(screen::other_filters, 6);
    let rest = screen::other_filters(app, 5);
    assert(rest =~= seq![]);
    assert(screen::other_filters(app, 4) =~= other(app, 4));
    assert(screen::other_filters(app, 3) =~= other(app, 3) + other(app, 4));
    assert(screen::other_filters(app, 2) =~= other(app, 2) + other(app, 3) + other(app, 4));
    assert(screen::other_filters(app, 1) =~= other(app, 1) + other(app, 2) + other(app, 3) + other(
        app,
        4,
    ));
    assert(screen::other_filters(app, 0) =~= other(app, 0) + other(app, 1) + other(app, 2) + other(
        app,
        3,
    ) + other(app, 4));
}

/// The table has the rows, each with five cells.
pub proof fn law_table_has_the_rows(app: AppView, areas: Chunks, k: int)
    requires
        0 <= k < app.rows().len(),
    ensures
        ({
            let rows = screen::screen_of(app, areas).rows;
            &&& rows.len() == app.rows().len()
            &&& rows[k].len() == 5
            &&& app.rows()[k] matches Row::Event(i) ==> rows[k] == screen::event_cells(
                app.events[i as int],
            )
            &&& app.rows()[k] matches Row::Commit(i, c) ==> (app.events[i as int].commits matches Some(
                cs,
            ) ==> commit_row(rows[k], cs[c as int]))
        }),
{
}

/// The cells of a commit: empty but for the last, which has the commit behind an
/// arrow, dimmed.
pub open spec fn commit_row(cells: Seq<Seq<SpanView>>, commit: Seq<char>) -> bool {
    &&& cells.len() == 5
    &&& cells[0].len() == 0 && cells[1].len() == 0 && cells[2].len() == 0 && cells[3].len() == 0
    &&& cells[4] == seq![tinted("↳ "@ + commit, Color::DarkGray)]
}

/// The row of an event: an arrow for a push, to the right or, expanded, down; the
/// date; the glyph and the type in the color of its kind; the actor in bold; and the
/// detail, with the number of its commits behind it once that is known.
pub proof fn law_row_shows_the_event(e: EvView)
    ensures
        ({
            let cells = screen::event_cells(e);
            let n = e.commit_count;
            &&& cells.len() == 5
            &&& e.can_expand() && e.expanded ==> cells[0] == seq![tinted("▾"@, Color::DarkGray)]
            &&& e.can_expand() && !e.expanded ==> cells[0] == seq![tinted("▸"@, Color::DarkGray)]
            &&& !e.can_expand() ==> cells[0] == seq![tinted(""@, Color::DarkGray)]
            &&& cells[1] == seq![tinted(e.day + " "@ + e.time, Color::DarkGray)]
            &&& cells[2] == seq![tinted(seq![e.glyph] + " "@ + e.label, e.color)]
            &&& cells[3] == seq![
                SpanView {
                    text: e.actor,
                    style: Style { fg: None, bg: None, bold: true, underlined: false },
                },
            ]
            &&& cells[4][0] == tinted(e.detail, Color::Magenta)
            &&& n is None ==> cells[4].len() == 1
            &&& n is Some ==> cells[4].len() == 2 && exists|many: Seq<char>|
                cells[4][1] == tinted(
                    "  ("@ + #[trigger] several(many, " commit"@, n->0 as int) + ")"@,
                    Color::DarkGray,
                ) && on_text::writes(many, n->0 as int)
        }),
{
    match e.commit_count {
        Some(n) => {
            let many = text::decimal(n as int);
            on_text::law_decimal_reads_back(n as int);
            reveal_strlit("");
            reveal_strlit("s");
            assert(screen::event_cells(e)[4][1].text =~= "  ("@ + several(
                many,
                " commit"@,
                n as int,
            ) + ")"@);
        },
        None => {},
    }
}

/// Without a terminal an event is its date, glyph, type, actor and detail with tabs
/// between them.
pub proof fn law_plain_lines_have_tabs(e: EvView)
    ensures
        screen::plain_line(e) == e.day + seq![' '] + e.time + seq!['\t'] + seq![e.glyph] + seq![
            '\t',
        ] + e.label + seq!['\t'] + e.actor + seq!['\t'] + e.detail,
{
    reveal_strlit(" ");
    reveal_strlit("\t");
    assert(" "@ =~= seq![' ']);
    assert("\t"@ =~= seq!['\t']);
}

}
