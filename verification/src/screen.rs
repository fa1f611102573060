//! The screen: the chart of the days, the table and the footer, as texts, colors
//! and places. Drawing them is left to whoever has the terminal.
use crate::app;
use crate::app::{App, AppView, Row, FILTERS};
use crate::event;
use crate::event::{Color, Ev, EvView};
use crate::input::selected_row;
use crate::layout;
use crate::layout::{Chunks, Heights, Rect};
use crate::text;
use crate::text::{blank, is_before, same, show_u64};
use vstd::prelude::*;
use vstd::string::*;

verus! {

// ---------------------------------------------------------------------------
// Styled text
// ---------------------------------------------------------------------------

/// How a text is drawn.
#[derive(Clone, Copy, PartialEq, Eq, Structural, Debug)]
pub struct Style {
    pub fg: Option<Color>,
    pub bg: Option<Color>,
    pub bold: bool,
    pub underlined: bool,
}

/// Text as the terminal has it.
#[verifier::allow_in_spec]
pub fn plain() -> Style
    returns
        (Style { fg: None, bg: None, bold: false, underlined: false }),
{
    Style { fg: None, bg: None, bold: false, underlined: false }
}

/// Text in a color.
#[verifier::allow_in_spec]
pub fn colored(c: Color) -> Style
    returns
        (Style { fg: Some(c), bg: None, bold: false, underlined: false }),
{
    Style { fg: Some(c), bg: None, bold: false, underlined: false }
}

/// Bold text.
#[verifier::allow_in_spec]
pub fn strong() -> Style
    returns
        (Style { fg: None, bg: None, bold: true, underlined: false }),
{
    Style { fg: None, bg: None, bold: true, underlined: false }
}

/// Bold text in a color on another.
#[verifier::allow_in_spec]
pub fn badge(fg: Color, bg: Color) -> Style
    returns
        (Style { fg: Some(fg), bg: Some(bg), bold: true, underlined: false }),
{
    Style { fg: Some(fg), bg: Some(bg), bold: true, underlined: false }
}

/// A piece of text and how it is drawn.
pub struct Span {
    pub text: String,
    pub style: Style,
}

/// What a piece of text holds.
#[verifier::ext_equal]
pub struct SpanView {
    pub text: Seq<char>,
    pub style: Style,
}

impl View for Span {
    type V = SpanView;

    open spec fn view(&self) -> SpanView {
        SpanView { text: self.text@, style: self.style }
    }
}

/// What a line of pieces holds.
pub open spec fn line(spans: Seq<Span>) -> Seq<SpanView> {
    spans.map_values(|s: Span| s@)
}

/// What the cells of a row hold.
pub open spec fn cells(row: Seq<Vec<Span>>) -> Seq<Seq<SpanView>> {
    row.map_values(|c: Vec<Span>| line(c@))
}

/// What the rows of a table hold.
pub open spec fn table(rows: Seq<Vec<Vec<Span>>>) -> Seq<Seq<Seq<SpanView>>> {
    rows.map_values(|r: Vec<Vec<Span>>| cells(r@))
}

/// A piece of text.
pub open spec fn span_of(text: Seq<char>, style: Style) -> SpanView {
    SpanView { text, style }
}

/// Adds a piece of text to a line.
fn push_span(out: &mut Vec<Span>, text: String, style: Style)
    ensures
        line(final(out)@) == line(old(out)@).push(span_of(text@, style)),
{
    let ghost start = out@;
    let s = Span { text, style };
    out.push(s);
    assert(line(out@) =~= line(start).push(s@));
}

/// A line of one piece.
fn one_span(text: String, style: Style) -> (r: Vec<Span>)
    ensures
        line(r@) == seq![span_of(text@, style)],
{
    let mut out: Vec<Span> = Vec::new();
    push_span(&mut out, text, style);
    assert(line(out@) =~= seq![span_of(text@, style)]);
    out
}

/// Adds a cell to a row.
fn push_cell(out: &mut Vec<Vec<Span>>, cell: Vec<Span>)
    ensures
        cells(final(out)@) == cells(old(out)@).push(line(cell@)),
{
    let ghost start = out@;
    out.push(cell);
    assert(cells(out@) =~= cells(start).push(line(cell@)));
}

/// An ending that says whether there is more than one.
pub open spec fn plural(n: int) -> Seq<char> {
    if n == 1 {
        ""@
    } else {
        "s"@
    }
}

/// An ending that says whether there is more than one.
fn plural_end(n: u64) -> (r: &'static str)
    ensures
        r@ == plural(n as int),
{
    if n == 1 {
        ""
    } else {
        "s"
    }
}

// ---------------------------------------------------------------------------
// The chart
// ---------------------------------------------------------------------------

/// A day and how many events it has.
pub type Day = (Seq<char>, nat);

/// The days with one more event on `day`. They are in ascending order, each
/// once.
pub open spec fn counted(days: Seq<Day>, day: Seq<char>) -> Seq<Day>
    decreases days.len(),
{
    if days.len() == 0 || text::precedes(day, days[0].0) {
        seq![(day, 1nat)] + days
    } else if days[0].0 == day {
        seq![(day, days[0].1 + 1)] + days.drop_first()
    } else {
        seq![days[0]] + counted(days.drop_first(), day)
    }
}

/// The days of the events with the given indices, ascending, and how many events
/// each has.
pub open spec fn tally(events: Seq<EvView>, idx: Seq<usize>) -> Seq<Day>
    decreases idx.len(),
{
    if idx.len() == 0 {
        seq![]
    } else {
        counted(tally(events, idx.drop_last()), events[idx.last() as int].day)
    }
}

/// The last days that the chart has room for: one bar in each column.
pub open spec fn last_days(days: Seq<Day>, width: int) -> Seq<Day> {
    let room = if width > 1 {
        width
    } else {
        1
    };
    if days.len() > room {
        days.skip(days.len() - room)
    } else {
        days
    }
}

/// The most events of a day.
pub open spec fn peak_of(days: Seq<Day>) -> nat
    decreases days.len(),
{
    if days.len() == 0 {
        0
    } else if peak_of(days.drop_last()) > days.last().1 {
        peak_of(days.drop_last())
    } else {
        days.last().1
    }
}

/// The title of the chart, which says what a full bar stands for.
pub open spec fn chart_title_of(days: Seq<Day>) -> Seq<char> {
    let peak = peak_of(days) as int;
    " activity: 1 bar = 1 day, full bar = "@ + text::decimal(peak) + " event"@ + plural(peak)
        + " · "@ + text::decimal(days.len() as int) + " days "@
}

/// The line below the bars: the first day at the left, the last at the right and
/// the middle one between them, as many as there is room for.
pub open spec fn axis_of(days: Seq<Day>, width: int) -> Seq<char> {
    if days.len() == 0 || days[0].0.len() == 0 {
        "no activity"@
    } else if width >= 34 && days.len() >= 3 {
        let gap = width - 30;
        days[0].0 + text::spaces((gap / 2) as nat) + days[days.len() as int / 2].0 + text::spaces(
            (gap - gap / 2) as nat,
        ) + days.last().0
    } else if width >= 22 && days.len() >= 2 {
        days[0].0 + text::spaces((width - 20) as nat) + days.last().0
    } else {
        days[0].0
    }
}

/// The names of the days.
pub open spec fn day_names(days: Seq<Day>) -> Seq<Seq<char>> {
    days.map_values(|d: Day| d.0)
}

/// The first index of a text in a list, if it is there.
pub open spec fn index_in(names: Seq<Seq<char>>, name: Seq<char>, from: int) -> Option<int>
    decreases names.len() - from,
{
    if from < 0 || from >= names.len() {
        None
    } else if names[from] == name {
        Some(from)
    } else {
        index_in(names, name, from + 1)
    }
}

/// What a list of counted days holds.
pub open spec fn days_view(days: Seq<(String, u64)>) -> Seq<Day> {
    days.map_values(|d: (String, u64)| (d.0@, d.1 as nat))
}

proof fn lemma_counted_front(head: Seq<Day>, tail: Seq<Day>, day: Seq<char>)
    requires
        forall|k: int|
            0 <= k < head.len() ==> !text::precedes(day, (#[trigger] head[k]).0) && head[k].0
                != day,
    ensures
        counted(head + tail, day) == head + counted(tail, day),
    decreases head.len(),
{
    if head.len() == 0 {
        assert(head + tail =~= tail);
        assert(head + counted(tail, day) =~= counted(tail, day));
    } else {
        let rest = head.drop_first();
        assert forall|k: int| 0 <= k < rest.len() implies !text::precedes(
            day,
            (#[trigger] rest[k]).0,
        ) && rest[k].0 != day by {
            assert(rest[k] == head[k + 1]);
        }
        lemma_counted_front(rest, tail, day);
        assert((head + tail)[0] == head[0]);
        assert((head + tail).drop_first() =~= rest + tail);
        assert(seq![head[0]] + (rest + counted(tail, day)) =~= head + counted(tail, day));
    }
}

/// Counts one more event of a day.
fn count_day(days: &mut Vec<(String, u64)>, day: &String)
    requires
        forall|k: int| 0 <= k < old(days)@.len() ==> (#[trigger] old(days)@[k]).1 < u64::MAX,
    ensures
        days_view(final(days)@) == counted(days_view(old(days)@), day@),
{
    let ghost start = days@;
    let ghost v = days_view(start);
    let mut i: usize = 0;
    while i < days.len() && !is_before(day.as_str(), days[i].0.as_str()) && !same(
        days[i].0.as_str(),
        day.as_str(),
    )
        invariant
            days@ == start,
            v == days_view(start),
            i <= days@.len(),
            forall|k: int|
                0 <= k < i ==> !text::precedes(day@, (#[trigger] v[k]).0) && v[k].0 != day@,
        decreases days@.len() - i,
    {
        assert(v[i as int].0 == start[i as int].0@);
        i += 1;
    }
    let ghost head = v.take(i as int);
    let ghost tail = v.skip(i as int);
    proof {
        assert forall|k: int| 0 <= k < head.len() implies !text::precedes(
            day@,
            (#[trigger] head[k]).0,
        ) && head[k].0 != day@ by {
            assert(head[k] == v[k]);
        }
        lemma_counted_front(head, tail, day@);
        assert(head + tail =~= v);
        if i < start.len() {
            assert(tail[0] == v[i as int]);
            assert(v[i as int].0 == start[i as int].0@);
        }
    }
    if i < days.len() && same(days[i].0.as_str(), day.as_str()) {
        proof {
            text::lemma_precedes_irreflexive(day@);
        }
        let n: u64 = days[i].1;
        days[i].1 = n + 1;
        assert(days_view(days@) =~= head + (seq![(day@, (n + 1) as nat)] + tail.drop_first()));
    } else {
        let d = (day.clone(), 1u64);
        days.insert(i, d);
        assert(days_view(days@) =~= head + (seq![(day@, 1nat)] + tail));
    }
}

/// No day has more events than have been counted.
proof fn lemma_counted_bound(days: Seq<Day>, day: Seq<char>, n: nat)
    requires
        forall|k: int| 0 <= k < days.len() ==> (#[trigger] days[k]).1 <= n,
    ensures
        forall|k: int| 0 <= k < counted(days, day).len() ==> (#[trigger] counted(days, day)[k]).1
            <= n + 1,
    decreases days.len(),
{
    if days.len() == 0 || text::precedes(day, days[0].0) {
    } else if days[0].0 == day {
    } else {
        let rest = days.drop_first();
        assert forall|k: int| 0 <= k < rest.len() implies (#[trigger] rest[k]).1 <= n by {
            assert(rest[k] == days[k + 1]);
        }
        lemma_counted_bound(rest, day, n);
        let r = counted(days, day);
        let s = counted(rest, day);
        assert forall|k: int| 0 <= k < r.len() implies (#[trigger] r[k]).1 <= n + 1 by {
            if k > 0 {
                assert(r[k] == s[k - 1]);
            }
        }
    }
}

/// The days of the events that are shown, ascending, and how many each has.
fn count_days(app: &App, idx: &Vec<usize>) -> (r: Vec<(String, u64)>)
    requires
        forall|k: int| 0 <= k < idx@.len() ==> (#[trigger] idx@[k]) < app.events@.len(),
    ensures
        days_view(r@) == tally(app@.events, idx@),
{
    let mut days: Vec<(String, u64)> = Vec::new();
    let mut k: usize = 0;
    assert(days_view(days@) =~= tally(app@.events, idx@.take(0)));
    while k < idx.len()
        invariant
            k <= idx@.len(),
            forall|j: int| 0 <= j < idx@.len() ==> (#[trigger] idx@[j]) < app.events@.len(),
            days_view(days@) == tally(app@.events, idx@.take(k as int)),
            forall|j: int| 0 <= j < days_view(days@).len() ==> (#[trigger] days_view(days@)[j]).1
                <= k,
        decreases idx@.len() - k,
    {
        let i: usize = idx[k];
        assert(app@.events[i as int] == app.events@[i as int]@);
        assert(idx@.take(k + 1).drop_last() =~= idx@.take(k as int));
        assert(idx@.take(k + 1).last() == i);
        proof {
            lemma_counted_bound(days_view(days@), app.events@[i as int].day@, k as nat);
            assert forall|j: int| 0 <= j < days@.len() implies (#[trigger] days@[j]).1
                < u64::MAX by {
                assert(days_view(days@)[j].1 == days@[j].1);
                assert(idx@.len() == idx.len());
            }
        }
        count_day(&mut days, &app.events[i].day);
        k += 1;
    }
    assert(idx@.take(k as int) =~= idx@);
    days
}

/// The last days that the chart has room for.
fn take_last_days(days: Vec<(String, u64)>, width: u16) -> (r: Vec<(String, u64)>)
    ensures
        days_view(r@) == last_days(days_view(days@), width as int),
{
    let room: usize = if width > 1 {
        width as usize
    } else {
        1
    };
    let mut days = days;
    let ghost v = days_view(days@);
    if days.len() > room {
        let from: usize = days.len() - room;
        let r = days.split_off(from);
        assert(days_view(r@) =~= v.skip(from as int));
        r
    } else {
        days
    }
}

/// The most events of a day.
fn find_peak(days: &Vec<(String, u64)>) -> (r: u64)
    ensures
        r == peak_of(days_view(days@)),
{
    let ghost v = days_view(days@);
    let mut peak: u64 = 0;
    let mut i: usize = 0;
    assert(peak_of(v.take(0)) == 0);
    while i < days.len()
        invariant
            i <= days@.len(),
            v == days_view(days@),
            peak == peak_of(v.take(i as int)),
        decreases days@.len() - i,
    {
        assert(v.take(i + 1).drop_last() =~= v.take(i as int));
        assert(v.take(i + 1).last() == v[i as int]);
        let n: u64 = days[i].1;
        if n >= peak {
            peak = n;
        }
        i += 1;
    }
    assert(v.take(i as int) =~= v);
    peak
}

/// The title of the chart.
pub fn chart_title(days: &Vec<(String, u64)>) -> (r: String)
    ensures
        r@ == chart_title_of(days_view(days@)),
{
    let peak: u64 = find_peak(days);
    let mut t = " activity: 1 bar = 1 day, full bar = ".to_owned();
    t.append(show_u64(peak).as_str());
    t.append(" event");
    t.append(plural_end(peak));
    t.append(" · ");
    t.append(show_u64(days.len() as u64).as_str());
    t.append(" days ");
    t
}

/// The line below the bars.
pub fn chart_axis(days: &Vec<(String, u64)>, width: u16) -> (r: String)
    ensures
        r@ == axis_of(days_view(days@), width as int),
{
    let n: usize = days.len();
    let ghost v = days_view(days@);
    assert(v.len() == n);
    if n == 0 || days[0].0.as_str().is_empty() {
        assert(n > 0 ==> v[0].0 == days@[0].0@);
        return "no activity".to_owned();
    }
    assert(v[0].0 == days@[0].0@);
    assert(v.last().0 == days@[n - 1].0@);
    let mut t = days[0].0.clone();
    if width >= 34 && n >= 3 {
        assert(v[n as int / 2].0 == days@[n as int / 2].0@);
        let gap: usize = width as usize - 30;
        t.append(blank(gap / 2).as_str());
        t.append(days[n / 2].0.as_str());
        t.append(blank(gap - gap / 2).as_str());
        t.append(days[n - 1].0.as_str());
    } else if width >= 22 && n >= 2 {
        t.append(blank(width as usize - 20).as_str());
        t.append(days[n - 1].0.as_str());
    }
    t
}

/// The names of the days.
fn names_of(days: &Vec<(String, u64)>) -> (r: Vec<String>)
    ensures
        text::texts(r@) == day_names(days_view(days@)),
{
    let mut out: Vec<String> = Vec::new();
    let mut i: usize = 0;
    while i < days.len()
        invariant
            i <= days@.len(),
            out@.len() == i,
            forall|k: int| 0 <= k < i ==> (#[trigger] out@[k])@ == days@[k].0@,
        decreases days@.len() - i,
    {
        let d = days[i].0.clone();
        out.push(d);
        i += 1;
    }
    assert(text::texts(out@) =~= day_names(days_view(days@)));
    out
}

/// The counts of the days.
pub open spec fn day_counts(days: Seq<Day>) -> Seq<nat> {
    days.map_values(|d: Day| d.1)
}

/// What a list of counts holds.
pub open spec fn counts_view(counts: Seq<u64>) -> Seq<nat> {
    counts.map_values(|n: u64| n as nat)
}

/// The counts of the days.
fn counts_of(days: &Vec<(String, u64)>) -> (r: Vec<u64>)
    ensures
        counts_view(r@) == day_counts(days_view(days@)),
{
    let mut out: Vec<u64> = Vec::new();
    let mut i: usize = 0;
    while i < days.len()
        invariant
            i <= days@.len(),
            out@.len() == i,
            forall|k: int| 0 <= k < i ==> #[trigger] out@[k] == days@[k].1,
        decreases days@.len() - i,
    {
        let n: u64 = days[i].1;
        out.push(n);
        i += 1;
    }
    assert(counts_view(out@) =~= day_counts(days_view(days@)));
    out
}

// ---------------------------------------------------------------------------
// The table
// ---------------------------------------------------------------------------

/// The name of a filter, which is also that of its column.
pub open spec fn column_name(col: int) -> Seq<char> {
    if col == 0 {
        "All"@
    } else if col == 1 {
        "Date"@
    } else if col == 2 {
        "Type"@
    } else if col == 3 {
        "Actor"@
    } else {
        "Detail"@
    }
}

/// The name of a filter.
pub fn name_of_column(col: usize) -> (r: &'static str)
    ensures
        r@ == column_name(col as int),
{
    if col == 0 {
        "All"
    } else if col == 1 {
        "Date"
    } else if col == 2 {
        "Type"
    } else if col == 3 {
        "Actor"
    } else {
        "Detail"
    }
}

/// The header of a column of text: the active one stands out.
pub open spec fn header_cell(active: int, col: int) -> SpanView {
    span_of(
        column_name(col),
        if col == active {
            Style { fg: Some(Color::Yellow), bg: None, bold: true, underlined: true }
        } else {
            strong()
        },
    )
}

/// The header: nothing over the arrows, then the columns of text.
pub open spec fn header_of(active: int) -> Seq<SpanView> {
    seq![
        span_of(""@, plain()),
        header_cell(active, 1),
        header_cell(active, 2),
        header_cell(active, 3),
        header_cell(active, 4),
    ]
}

/// The arrow of an event: to the right where it can be expanded, down where it is,
/// none where it is no push.
pub open spec fn arrow_of(e: EvView) -> Seq<char> {
    if !e.can_expand() {
        ""@
    } else if e.expanded {
        "▾"@
    } else {
        "▸"@
    }
}

/// The detail of an event, and how many commits it has where that is known.
pub open spec fn detail_line(e: EvView) -> Seq<SpanView> {
    let detail = span_of(e.detail, colored(Color::Magenta));
    match e.commit_count {
        Some(n) => seq![
            detail,
            span_of(
                "  ("@ + text::decimal(n as int) + " commit"@ + plural(n as int) + ")"@,
                colored(Color::DarkGray),
            ),
        ],
        None => seq![detail],
    }
}

/// The cells of an event's row: arrow, date, type, actor and detail.
pub open spec fn event_cells(e: EvView) -> Seq<Seq<SpanView>> {
    seq![
        seq![span_of(arrow_of(e), colored(Color::DarkGray))],
        seq![span_of(e.day + " "@ + e.time, colored(Color::DarkGray))],
        seq![span_of(seq![e.glyph] + " "@ + e.label, colored(e.color))],
        seq![span_of(e.actor, strong())],
        detail_line(e),
    ]
}

/// The cells of a commit's row: the commit under the detail.
pub open spec fn commit_cells(commit: Seq<char>) -> Seq<Seq<SpanView>> {
    seq![
        seq![],
        seq![],
        seq![],
        seq![],
        seq![span_of("↳ "@ + commit, colored(Color::DarkGray))],
    ]
}

/// The cells of a row.
pub open spec fn row_cells(events: Seq<EvView>, row: Row) -> Seq<Seq<SpanView>> {
    match row {
        Row::Event(i) => event_cells(events[i as int]),
        Row::Commit(i, c) => commit_cells(events[i as int].commits->0[c as int]),
    }
}

/// The header of the table.
fn make_header(active: usize) -> (r: Vec<Span>)
    ensures
        line(r@) == header_of(active as int),
{
    let mut out: Vec<Span> = one_span("".to_owned(), plain());
    let mut col: usize = 1;
    while col < FILTERS
        invariant
            1 <= col <= FILTERS,
            line(out@) == header_of(active as int).take(col as int),
        decreases FILTERS - col,
    {
        let style = if col == active {
            Style { fg: Some(Color::Yellow), bg: None, bold: true, underlined: true }
        } else {
            strong()
        };
        push_span(&mut out, name_of_column(col).to_owned(), style);
        assert(header_of(active as int).take(col + 1) =~= header_of(active as int).take(
            col as int,
        ).push(header_cell(active as int, col as int)));
        col += 1;
    }
    assert(header_of(active as int).take(col as int) =~= header_of(active as int));
    out
}

/// The cells of an event's row.
pub fn show_event(e: &Ev) -> (r: Vec<Vec<Span>>)
    ensures
        cells(r@) == event_cells(e@),
{
    let arrow = if !e.expandable() {
        ""
    } else if e.expanded {
        "▾"
    } else {
        "▸"
    };
    let mut date = e.day.clone();
    date.append(" ");
    date.append(e.time.as_str());
    let mut kind = String::new();
    kind.push(e.glyph);
    kind.append(" ");
    kind.append(e.label.as_str());
    assert(kind@ =~= seq![e.glyph] + " "@ + e.label@);
    let mut detail = one_span(e.detail.clone(), colored(Color::Magenta));
    match e.commit_count {
        Some(n) => {
            let mut t = "  (".to_owned();
            t.append(show_u64(n as u64).as_str());
            t.append(" commit");
            t.append(plural_end(n as u64));
            t.append(")");
            push_span(&mut detail, t, colored(Color::DarkGray));
        },
        None => {},
    }
    assert(line(detail@) =~= detail_line(e@));
    let mut out: Vec<Vec<Span>> = Vec::new();
    push_cell(&mut out, one_span(arrow.to_owned(), colored(Color::DarkGray)));
    push_cell(&mut out, one_span(date, colored(Color::DarkGray)));
    push_cell(&mut out, one_span(kind, colored(e.color)));
    push_cell(&mut out, one_span(e.actor.clone(), strong()));
    push_cell(&mut out, detail);
    assert(cells(out@) =~= event_cells(e@));
    out
}

/// The cells of a commit's row.
pub fn show_commit_row(commit: &str) -> (r: Vec<Vec<Span>>)
    ensures
        cells(r@) == commit_cells(commit@),
{
    let mut t = "↳ ".to_owned();
    t.append(commit);
    let mut out: Vec<Vec<Span>> = Vec::new();
    let mut i: usize = 0;
    assert(cells(out@) =~= Seq::new(0, |k: int| Seq::<SpanView>::empty()));
    while i < 4
        invariant
            i <= 4,
            cells(out@) == Seq::new(i as nat, |k: int| Seq::<SpanView>::empty()),
        decreases 4 - i,
    {
        let empty: Vec<Span> = Vec::new();
        assert(line(empty@) =~= Seq::<SpanView>::empty());
        push_cell(&mut out, empty);
        assert(cells(out@) =~= Seq::new((i + 1) as nat, |k: int| Seq::<SpanView>::empty()));
        i += 1;
    }
    push_cell(&mut out, one_span(t, colored(Color::DarkGray)));
    assert(cells(out@) =~= commit_cells(commit@));
    out
}

/// The rows of the table.
fn make_rows(app: &App, rows: &Vec<Row>) -> (r: Vec<Vec<Vec<Span>>>)
    requires
        forall|k: int|
            0 <= k < rows@.len() ==> app::row_ok(app@.events, #[trigger] rows@[k]),
    ensures
        table(r@) == rows@.map_values(|row: Row| row_cells(app@.events, row)),
{
    let mut out: Vec<Vec<Vec<Span>>> = Vec::new();
    let mut k: usize = 0;
    while k < rows.len()
        invariant
            k <= rows@.len(),
            out@.len() == k,
            forall|j: int|
                0 <= j < rows@.len() ==> app::row_ok(app@.events, #[trigger] rows@[j]),
            forall|j: int|
                0 <= j < k ==> cells((#[trigger] out@[j])@) == row_cells(app@.events, rows@[j]),
        decreases rows@.len() - k,
    {
        let row = rows[k];
        assert(app::row_ok(app@.events, rows@[k as int]));
        let c = match row {
            Row::Event(i) => {
                assert(app@.events[i as int] == app.events@[i as int]@);
                show_event(&app.events[i])
            },
            Row::Commit(_, _) => show_commit_row(
                crate::input::line_text(app, row).as_str(),
            ),
        };
        out.push(c);
        k += 1;
    }
    assert(table(out@) =~= rows@.map_values(|row: Row| row_cells(app@.events, row)));
    out
}

// ---------------------------------------------------------------------------
// The title and the footer
// ---------------------------------------------------------------------------

/// The title: the repository, how many events it has and how many are shown.
pub open spec fn title_of(app: AppView) -> Seq<SpanView> {
    seq![
        span_of(" "@ + app.repo + " "@, badge(Color::White, Color::Blue)),
        span_of("  "@ + text::decimal(app.events.len() as int) + " events"@, plain()),
        span_of(
            "  ·  "@ + text::decimal(app.matching().len() as int) + " shown"@,
            colored(Color::DarkGray),
        ),
    ]
}

/// The filters from `from` on that hold something, without the active one.
pub open spec fn other_filters(app: AppView, from: int) -> Seq<SpanView>
    decreases app.filters.len() - from,
{
    if from < 0 || from >= app.filters.len() {
        seq![]
    } else if from != app.active && app.filters[from].len() > 0 {
        seq![
            span_of(
                "  "@ + column_name(from) + ":"@ + app.filters[from],
                colored(Color::Cyan),
            ),
        ] + other_filters(app, from + 1)
    } else {
        other_filters(app, from + 1)
    }
}

/// The message of the footer, if there is one.
pub open spec fn message_of(app: AppView) -> Seq<SpanView> {
    match app.status {
        Some(m) => seq![
            span_of(
                "   ✓ "@ + m,
                Style { fg: Some(Color::Green), bg: None, bold: true, underlined: false },
            ),
        ],
        None => seq![],
    }
}

/// The active filter, as `filter[Actor]: text`, with a cursor behind the text.
pub open spec fn active_filter(app: AppView) -> Seq<SpanView> {
    seq![
        span_of(" filter["@, colored(Color::DarkGray)),
        span_of(column_name(app.active as int), badge(Color::Black, Color::Yellow)),
        span_of("]:"@, colored(Color::DarkGray)),
        span_of(" "@ + app.filters[app.active as int] + "▌"@, strong()),
    ]
}

/// The first line of the footer: the active filter, the others that hold
/// something, and the message.
pub open spec fn footer_of(app: AppView) -> Seq<SpanView> {
    active_filter(app) + other_filters(app, 0) + message_of(app)
}

/// The second line of the footer: the keys.
pub const HELP: &'static str = " type: filter (space = AND) · Tab: column · ^F: focus this branch · Enter/▸: commits · ^C: copy · ^O: browser · drag │: resize · Esc: clear · ^Q: quit";

/// What the table says where it has no rows.
pub const NO_ROWS: &'static str = "no events match the filters · Esc clears them";

/// The title.
fn make_title(app: &App, shown: usize) -> (r: Vec<Span>)
    requires
        shown == app@.matching().len(),
    ensures
        line(r@) == title_of(app@),
{
    let mut name = " ".to_owned();
    name.append(app.repo.as_str());
    name.append(" ");
    let mut all = "  ".to_owned();
    assert(app@.events.len() == app.events@.len());
    all.append(show_u64(app.events.len() as u64).as_str());
    all.append(" events");
    let mut some = "  ·  ".to_owned();
    some.append(show_u64(shown as u64).as_str());
    some.append(" shown");
    let mut out = one_span(name, badge(Color::White, Color::Blue));
    push_span(&mut out, all, plain());
    push_span(&mut out, some, colored(Color::DarkGray));
    assert(line(out@) =~= title_of(app@));
    out
}

/// The first line of the footer.
fn make_footer(app: &App) -> (r: Vec<Span>)
    requires
        app@.wf(),
    ensures
        line(r@) == footer_of(app@),
{
    let mut out = one_span(" filter[".to_owned(), colored(Color::DarkGray));
    push_span(&mut out, name_of_column(app.active).to_owned(), badge(Color::Black, Color::Yellow));
    push_span(&mut out, "]:".to_owned(), colored(Color::DarkGray));
    assert(app@.filters[app.active as int] == app.filters@[app.active as int]@);
    let mut edit = " ".to_owned();
    edit.append(app.filters[app.active].as_str());
    edit.append("▌");
    push_span(&mut out, edit, strong());
    let ghost start = line(out@);
    let mut col: usize = 0;
    assert(start + other_filters(app@, 0) =~= line(out@) + other_filters(app@, 0));
    while col < FILTERS
        invariant
            col <= FILTERS,
            app@.wf(),
            start + other_filters(app@, 0) == line(out@) + other_filters(app@, col as int),
        decreases FILTERS - col,
    {
        assert(app@.filters[col as int] == app.filters@[col as int]@);
        if col != app.active && !app.filters[col].as_str().is_empty() {
            let ghost had = line(out@);
            let mut t = "  ".to_owned();
            t.append(name_of_column(col));
            t.append(":");
            t.append(app.filters[col].as_str());
            let ghost s = span_of(t@, colored(Color::Cyan));
            push_span(&mut out, t, colored(Color::Cyan));
            assert(had + (seq![s] + other_filters(app@, col + 1)) =~= had.push(s) + other_filters(
                app@,
                col + 1,
            ));
        }
        col += 1;
    }
    assert(other_filters(app@, col as int) =~= seq![]);
    assert(line(out@) =~= start + other_filters(app@, 0));
    match &app.status {
        Some(m) => {
            let mut t = "   ✓ ".to_owned();
            t.append(m.as_str());
            push_span(
                &mut out,
                t,
                Style { fg: Some(Color::Green), bg: None, bold: true, underlined: false },
            );
        },
        None => {},
    }
    assert(start =~= active_filter(app@));
    assert(line(out@) =~= footer_of(app@));
    out
}

// ---------------------------------------------------------------------------
// The whole screen
// ---------------------------------------------------------------------------

/// The heights of the parts of the screen: one row of title, six of chart, at
/// least one of table and two of footer.
#[verifier::allow_in_spec]
pub fn heights() -> Heights
    returns
        (Heights { title: 1, chart: 6, table: 1, footer: 2 }),
{
    Heights { title: 1, chart: 6, table: 1, footer: 2 }
}

/// What is on the screen.
pub struct Screen {
    /// The parts of the screen.
    pub areas: Chunks,
    pub title: Vec<Span>,
    /// The title in the chart's border.
    pub chart_title: String,
    /// One bar for each day.
    pub bars: Vec<u64>,
    /// The line below the bars, and where it stands.
    pub axis: Option<(String, Rect)>,
    /// The column of the bar that stands out: that of the selected row's day.
    pub bright: Option<u16>,
    pub header: Vec<Span>,
    /// The rows of the table, each with its cells.
    pub rows: Vec<Vec<Vec<Span>>>,
    /// The columns of the lines between the table's columns.
    pub rules: Vec<u16>,
    /// Where it says that there are no rows.
    pub notice: Option<Rect>,
    pub footer: Vec<Span>,
}

/// What a [`Screen`] holds.
#[verifier::ext_equal]
pub struct ScreenView {
    pub areas: Chunks,
    pub title: Seq<SpanView>,
    pub chart_title: Seq<char>,
    pub bars: Seq<nat>,
    pub axis: Option<(Seq<char>, Rect)>,
    pub bright: Option<u16>,
    pub header: Seq<SpanView>,
    pub rows: Seq<Seq<Seq<SpanView>>>,
    pub rules: Seq<u16>,
    pub notice: Option<Rect>,
    pub footer: Seq<SpanView>,
}

impl View for Screen {
    type V = ScreenView;

    open spec fn view(&self) -> ScreenView {
        ScreenView {
            areas: self.areas,
            title: line(self.title@),
            chart_title: self.chart_title@,
            bars: counts_view(self.bars@),
            axis: match self.axis {
                Some((t, area)) => Some((t@, area)),
                None => None,
            },
            bright: self.bright,
            header: line(self.header@),
            rows: table(self.rows@),
            rules: self.rules@,
            notice: self.notice,
            footer: line(self.footer@),
        }
    }
}

/// The days of the events that are shown, as many as the chart has room for.
pub open spec fn charted(app: AppView, chart: Rect) -> Seq<Day> {
    last_days(tally(app.events, app.matching()), layout::inside(chart).width as int)
}

/// Where the bars stand: inside the border, above the line of dates.
pub open spec fn bars_area(chart: Rect) -> Rect {
    let inner = layout::inside(chart);
    Rect {
        height: (if inner.height > 0 {
            inner.height - 1
        } else {
            0
        }) as u16,
        ..inner
    }
}

/// Where the table stands: its last column is kept for the scroll bar.
pub open spec fn rows_area(table: Rect) -> Rect {
    Rect {
        width: (if table.width > 0 {
            table.width - 1
        } else {
            0
        }) as u16,
        ..table
    }
}

/// The state after the screen has been laid out: it knows where the chart and the
/// table are.
pub open spec fn laid_out(app: AppView, areas: Chunks) -> AppView {
    AppView {
        spark_area: bars_area(areas.chart),
        spark_days: day_names(charted(app, areas.chart)),
        table_area: rows_area(areas.table),
        ..app
    }
}

/// The line of dates, and where it stands; none where there is no row for it.
pub open spec fn axis_placed(app: AppView, chart: Rect) -> Option<(Seq<char>, Rect)> {
    let inner = layout::inside(chart);
    if inner.height >= 2 {
        Some(
            (
                axis_of(charted(app, chart), inner.width as int),
                Rect { y: (inner.y + inner.height - 1) as u16, height: 1, ..inner },
            ),
        )
    } else {
        None
    }
}

/// The column of the bar of the selected row's day, if the row and the bar are
/// there.
pub open spec fn bright_column(app: AppView, chart: Rect) -> Option<u16> {
    match app.selected_row() {
        Some(row) => match index_in(
            day_names(charted(app, chart)),
            app.events[row.event() as int].day,
            0,
        ) {
            Some(k) => Some((bars_area(chart).x + k) as u16),
            None => None,
        },
        None => None,
    }
}

/// The right edges of the resizable columns from `c` on that lie in the table.
pub open spec fn rules_from(app: AppView, c: int) -> Seq<u16>
    decreases 4 - c,
{
    if c < 1 || c > 3 {
        seq![]
    } else if app.span(c).1 < app.table_area.right() {
        seq![app.span(c).1 as u16] + rules_from(app, c + 1)
    } else {
        rules_from(app, c + 1)
    }
}

/// What is on the screen when its parts are `areas`.
pub open spec fn screen_of(app: AppView, areas: Chunks) -> ScreenView {
    ScreenView {
        areas,
        title: title_of(app),
        chart_title: chart_title_of(charted(app, areas.chart)),
        bars: day_counts(charted(app, areas.chart)),
        axis: axis_placed(app, areas.chart),
        bright: bright_column(app, areas.chart),
        header: header_of(app.active as int),
        rows: app.rows().map_values(|row: Row| row_cells(app.events, row)),
        rules: rules_from(laid_out(app, areas), 1),
        notice: if app.rows().len() == 0 && areas.table.height > 2 {
            Some(Rect { y: (areas.table.y + 2) as u16, height: 1, ..areas.table })
        } else {
            None
        },
        footer: footer_of(app),
    }
}

/// The parts of the screen lie where a cell's coordinates can, and so do the
/// columns of the table.
pub open spec fn drawable(app: AppView, areas: Chunks) -> bool {
    &&& areas.chart.fits()
    &&& areas.table.fits()
    &&& laid_out(app, areas).spans_fit()
}

/// The first index of a text in a list.
fn find_name(names: &Vec<String>, name: &str) -> (r: Option<usize>)
    ensures
        match r {
            Some(k) => k < names@.len() && index_in(text::texts(names@), name@, 0) == Some(
                k as int,
            ),
            None => index_in(text::texts(names@), name@, 0) is None,
        },
{
    let mut k: usize = 0;
    assert(text::texts(names@).len() == names@.len());
    while k < names.len()
        invariant
            k <= names@.len(),
            text::texts(names@).len() == names@.len(),
            index_in(text::texts(names@), name@, 0) == index_in(
                text::texts(names@),
                name@,
                k as int,
            ),
        decreases names@.len() - k,
    {
        assert(text::texts(names@)[k as int] == names@[k as int]@);
        if same(names[k].as_str(), name) {
            return Some(k);
        }
        k += 1;
    }
    None
}

/// The columns of the lines between the table's columns.
fn make_rules(app: &App) -> (r: Vec<u16>)
    requires
        app@.spans_fit(),
    ensures
        r@ == rules_from(app@, 1),
{
    let spans = app.col_spans();
    let right: u16 = app.table_area.x + app.table_area.width;
    let mut out: Vec<u16> = Vec::new();
    let mut c: usize = 1;
    assert(out@ + rules_from(app@, 1) =~= rules_from(app@, 1));
    while c <= 3
        invariant
            1 <= c <= 4,
            right == app@.table_area.right(),
            forall|d: int|
                0 <= d < 5 ==> (#[trigger] spans@[d]).0 == app@.span(d).0 && spans@[d].1
                    == app@.span(d).1,
            out@ + rules_from(app@, c as int) == rules_from(app@, 1),
        decreases 4 - c,
    {
        let x: u16 = spans[c].1;
        if x < right {
            let ghost had = out@;
            out.push(x);
            assert(had + (seq![x] + rules_from(app@, c + 1)) =~= out@ + rules_from(app@, c + 1));
        }
        c += 1;
    }
    assert(out@ =~= out@ + rules_from(app@, c as int));
    out
}

/// Lays out the screen when its parts are `areas`, and says what is on it.
pub fn compose(app: &mut App, areas: Chunks) -> (r: Screen)
    requires
        old(app)@.wf(),
        drawable(old(app)@, areas),
    ensures
        final(app)@ == laid_out(old(app)@, areas),
        r@ == screen_of(old(app)@, areas),
{
    let ghost start = app@;
    let idx = app.filtered();
    proof {
        app.lemma_rows_ok();
        app.lemma_matching_in_range();
    }
    let title = make_title(app, idx.len());
    let inner = layout::inner(areas.chart);
    let days = take_last_days(count_days(app, &idx), inner.width);
    let ghost shown = charted(start, areas.chart);
    assert(days_view(days@) == shown);
    let axis = if inner.height >= 2 {
        Some(
            (
                chart_axis(&days, inner.width),
                Rect { y: inner.y + (inner.height - 1), height: 1, ..inner },
            ),
        )
    } else {
        None
    };
    let bars = Rect { height: inner.height.saturating_sub(1), ..inner };
    let names = names_of(&days);
    let chosen = selected_row(app);
    let bright = match chosen {
        Some(row) => {
            let i: usize = row.event_index();
            assert(start.events[i as int] == app.events@[i as int]@);
            match find_name(&names, app.events[i].day.as_str()) {
                Some(k) => {
                    assert(names@.len() == text::texts(names@).len());
                    assert(names@.len() == shown.len());
                    Some(bars.x + k as u16)
                },
                None => None,
            }
        },
        None => None,
    };
    let visible = app.visible();
    let rows = make_rows(app, &visible);
    let header = make_header(app.active);
    let footer = make_footer(app);
    let notice = if visible.len() == 0 && areas.table.height > 2 {
        Some(Rect { y: areas.table.y + 2, height: 1, ..areas.table })
    } else {
        None
    };
    app.spark_area = bars;
    app.spark_days = names;
    app.table_area = Rect { width: areas.table.width.saturating_sub(1), ..areas.table };
    assert(app@ =~= laid_out(start, areas));
    let r = Screen {
        areas,
        title,
        chart_title: chart_title(&days),
        bars: counts_of(&days),
        axis,
        bright,
        header,
        rows,
        rules: make_rules(app),
        notice,
        footer,
    };
    assert(r@ =~= screen_of(start, areas));
    r
}

/// Lays out the screen in `area`, and says what is on it.
pub fn ui(app: &mut App, area: Rect) -> (r: Screen)
    requires
        old(app)@.wf(),
        area.fits(),
        app::columns_fit_in(old(app)@, area),
    ensures
        layout::stacked(r.areas, area),
        1 <= area.height < 10 ==> r.areas.table.height == 1 && layout::within(r.areas, heights()),
        area.height >= 10 ==> r.areas == layout::roomy_chunks(area, heights()),
        final(app)@ == laid_out(old(app)@, r.areas),
        r@ == screen_of(old(app)@, r.areas),
        final(app)@.wf(),
{
    let areas = layout::split(area, heights());
    proof {
        reveal_with_fuel(AppView::column_left, 5);
    }
    compose(app, areas)
}

/// The scroll bar of the table: over how many rows it moves, and where it stands.
/// There is none where all rows are on the screen.
pub open spec fn scroll_bar(app: AppView) -> Option<(int, usize)> {
    let n = app.rows().len() as int;
    let view = if app.table_area.height > 0 {
        app.table_area.height - 1
    } else {
        0
    };
    if n > view && n > 1 {
        Some((n - view, app.state.offset))
    } else {
        None
    }
}

/// The scroll bar of the table, if it has one.
pub fn scrollbar(app: &App) -> (r: Option<(usize, usize)>)
    ensures
        match r {
            Some((n, at)) => scroll_bar(app@) == Some((n as int, at)),
            None => scroll_bar(app@) is None,
        },
{
    let n: usize = app.visible().len();
    let view: usize = app.table_area.height.saturating_sub(1) as usize;
    if n > view && n > 1 {
        Some((n - view, app.state.offset))
    } else {
        None
    }
}

// ---------------------------------------------------------------------------
// Without a terminal
// ---------------------------------------------------------------------------

/// An event as a line of text: its fields with tabs between them.
pub open spec fn plain_line(e: EvView) -> Seq<char> {
    e.day + " "@ + e.time + "\t"@ + seq![e.glyph] + "\t"@ + e.label + "\t"@ + e.actor + "\t"@
        + e.detail
}

/// An event as a line of text.
pub fn show_line(e: &Ev) -> (r: String)
    ensures
        r@ == plain_line(e@),
{
    let mut t = e.day.clone();
    t.append(" ");
    t.append(e.time.as_str());
    t.append("\t");
    t.push(e.glyph);
    t.append("\t");
    t.append(e.label.as_str());
    t.append("\t");
    t.append(e.actor.as_str());
    t.append("\t");
    t.append(e.detail.as_str());
    assert(t@ =~= plain_line(e@));
    t
}

/// The events that are shown, each as a line of text.
pub fn dump(app: &App) -> (r: Vec<String>)
    ensures
        text::texts(r@) == app@.matching().map_values(
            |i: usize| plain_line(app@.events[i as int]),
        ),
{
    let idx = app.filtered();
    proof {
        app.lemma_matching_in_range();
    }
    let mut out: Vec<String> = Vec::new();
    let mut k: usize = 0;
    while k < idx.len()
        invariant
            k <= idx@.len(),
            out@.len() == k,
            forall|j: int| 0 <= j < idx@.len() ==> (#[trigger] idx@[j]) < app.events@.len(),
            forall|j: int|
                0 <= j < k ==> (#[trigger] out@[j])@ == plain_line(
                    app@.events[idx@[j] as int],
                ),
        decreases idx@.len() - k,
    {
        let i: usize = idx[k];
        assert(app@.events[i as int] == app.events@[i as int]@);
        let l = show_line(&app.events[i]);
        out.push(l);
        k += 1;
    }
    assert(text::texts(out@) =~= app@.matching().map_values(
        |i: usize| plain_line(app@.events[i as int]),
    ));
    out
}

}
