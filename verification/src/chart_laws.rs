//! What holds of the chart, of the columns and of the events' texts: laws that tie
//! several functions together.
use crate::app;
use crate::app::{ActionView, AppView, Row};
use crate::event;
use crate::event::EvView;
use crate::input;
use crate::input::{MouseEvent, MouseKind, LEAST_WIDTH};
use crate::layout::Chunks;
use crate::screen;
use crate::screen::Day;
use crate::text;
use vstd::prelude::*;
use vstd::utf8::*;

verus! {

// ---------------------------------------------------------------------------
// The days of the chart
// ---------------------------------------------------------------------------

/// The days stand in ascending order, each once.
pub open spec fn ascending(days: Seq<Day>) -> bool {
    forall|k: int, l: int|
        0 <= k < l < days.len() ==> text::precedes((#[trigger] days[k]).0, (#[trigger] days[l]).0)
}

/// How many of the events with the given indices are of a day.
pub open spec fn of_day(events: Seq<EvView>, idx: Seq<usize>, day: Seq<char>) -> nat
    decreases idx.len(),
{
    if idx.len() == 0 {
        0
    } else {
        of_day(events, idx.drop_last(), day) + if events[idx.last() as int].day == day {
            1nat
        } else {
            0nat
        }
    }
}

/// The count that a list of days has for a day: zero where the day is not in it.
pub open spec fn count_in(days: Seq<Day>, day: Seq<char>) -> nat
    decreases days.len(),
{
    if days.len() == 0 {
        0
    } else if days[0].0 == day {
        days[0].1
    } else {
        count_in(days.drop_first(), day)
    }
}

/// The sum of all counts.
pub open spec fn total(days: Seq<Day>) -> nat
    decreases days.len(),
{
    if days.len() == 0 {
        0
    } else {
        days[0].1 + total(days.drop_first())
    }
}

/// Every day has an event.
pub open spec fn all_counted(days: Seq<Day>) -> bool {
    forall|k: int| 0 <= k < days.len() ==> (#[trigger] days[k]).1 > 0
}

proof fn lemma_rest_ascending(days: Seq<Day>)
    requires
        days.len() > 0,
        ascending(days),
        all_counted(days),
    ensures
        ascending(days.drop_first()),
        all_counted(days.drop_first()),
{
    let rest = days.drop_first();
    assert forall|k: int, l: int| 0 <= k < l < rest.len() implies text::precedes(
        (#[trigger] rest[k]).0,
        (#[trigger] rest[l]).0,
    ) by {
        assert(rest[k] == days[k + 1]);
        assert(rest[l] == days[l + 1]);
    }
    assert forall|k: int| 0 <= k < rest.len() implies (#[trigger] rest[k]).1 > 0 by {
        assert(rest[k] == days[k + 1]);
    }
}

/// A day in front of ascending days that it comes before.
proof fn lemma_front_ascending(first: Day, rest: Seq<Day>)
    requires
        ascending(rest),
        all_counted(rest),
        first.1 > 0,
        forall|k: int| 0 <= k < rest.len() ==> text::precedes(first.0, (#[trigger] rest[k]).0),
    ensures
        ascending(seq![first] + rest),
        all_counted(seq![first] + rest),
        forall|day: Seq<char>| #[trigger]
            count_in(seq![first] + rest, day) == if first.0 == day {
                first.1
            } else {
                count_in(rest, day)
            },
        total(seq![first] + rest) == first.1 + total(rest),
{
    let all = seq![first] + rest;
    assert(all.drop_first() =~= rest);
    assert forall|k: int, l: int| 0 <= k < l < all.len() implies text::precedes(
        (#[trigger] all[k]).0,
        (#[trigger] all[l]).0,
    ) by {
        assert(all[l] == rest[l - 1]);
        if k > 0 {
            assert(all[k] == rest[k - 1]);
        }
    }
    assert forall|k: int| 0 <= k < all.len() implies (#[trigger] all[k]).1 > 0 by {
        if k > 0 {
            assert(all[k] == rest[k - 1]);
        }
    }
}

/// What counting one more event does to ascending days.
proof fn lemma_counted(days: Seq<Day>, day: Seq<char>)
    requires
        ascending(days),
        all_counted(days),
    ensures
        ascending(screen::counted(days, day)),
        all_counted(screen::counted(days, day)),
        forall|d: Seq<char>| #[trigger]
            count_in(screen::counted(days, day), d) == count_in(days, d) + if d == day {
                1nat
            } else {
                0nat
            },
        total(screen::counted(days, day)) == total(days) + 1,
        forall|k: int|
            0 <= k < screen::counted(days, day).len() ==> (#[trigger] screen::counted(
                days,
                day,
            )[k]).0 == day || exists|l: int|
                0 <= l < days.len() && (#[trigger] days[l]).0 == screen::counted(days, day)[k].0,
    decreases days.len(),
{
    let r = screen::counted(days, day);
    if days.len() == 0 {
        lemma_front_ascending((day, 1nat), days);
        assert(count_in(days, day) == 0);
    } else if text::precedes(day, days[0].0) {
        assert forall|k: int| 0 <= k < days.len() implies text::precedes(
            day,
            (#[trigger] days[k]).0,
        ) by {
            if k > 0 {
                assert(text::precedes(days[0].0, days[k].0));
                text::lemma_precedes_transitive(day, days[0].0, days[k].0);
            }
        }
        lemma_front_ascending((day, 1nat), days);
        assert forall|k: int| 0 <= k < days.len() implies (#[trigger] days[k]).0 != day by {
            text::lemma_precedes_irreflexive(day);
        }
        lemma_count_absent(days, day);
        assert forall|k: int| 0 <= k < r.len() implies (#[trigger] r[k]).0 == day || exists|l: int|
            0 <= l < days.len() && (#[trigger] days[l]).0 == r[k].0 by {
            if k > 0 {
                assert(r[k] == days[k - 1]);
            }
        }
    } else {
        let rest = days.drop_first();
        lemma_rest_ascending(days);
        assert(seq![days[0]] + rest =~= days);
        assert forall|k: int| 0 <= k < rest.len() implies text::precedes(
            days[0].0,
            (#[trigger] rest[k]).0,
        ) by {
            assert(rest[k] == days[k + 1]);
        }
        if days[0].0 == day {
            lemma_front_ascending((day, days[0].1 + 1), rest);
            assert forall|k: int| 0 <= k < r.len() implies (#[trigger] r[k]).0 == day || exists|
                l: int,
            |
                0 <= l < days.len() && (#[trigger] days[l]).0 == r[k].0 by {
                if k > 0 {
                    assert(r[k] == days[k]);
                }
            }
        } else {
            lemma_counted(rest, day);
            let s = screen::counted(rest, day);
            text::lemma_precedes_total(day, days[0].0);
            assert forall|k: int| 0 <= k < s.len() implies text::precedes(
                days[0].0,
                (#[trigger] s[k]).0,
            ) by {
                if s[k].0 != day {
                    let l = choose|l: int| 0 <= l < rest.len() && (#[trigger] rest[l]).0 == s[k].0;
                    assert(text::precedes(days[0].0, rest[l].0));
                }
            }
            lemma_front_ascending(days[0], s);
            assert forall|k: int| 0 <= k < r.len() implies (#[trigger] r[k]).0 == day || exists|
                l: int,
            |
                0 <= l < days.len() && (#[trigger] days[l]).0 == r[k].0 by {
                if k == 0 {
                    assert(r[0] == days[0]);
                } else if s[k - 1].0 != day {
                    assert(r[k] == s[k - 1]);
                    let l = choose|l: int|
                        0 <= l < rest.len() && (#[trigger] rest[l]).0 == s[k - 1].0;
                    assert(days[l + 1].0 == r[k].0);
                } else {
                    assert(r[k] == s[k - 1]);
                }
            }
        }
    }
}

/// A day that is not in the list has no count.
proof fn lemma_count_absent(days: Seq<Day>, day: Seq<char>)
    requires
        forall|k: int| 0 <= k < days.len() ==> (#[trigger] days[k]).0 != day,
    ensures
        count_in(days, day) == 0,
    decreases days.len(),
{
    if days.len() > 0 {
        let rest = days.drop_first();
        assert forall|k: int| 0 <= k < rest.len() implies (#[trigger] rest[k]).0 != day by {
            assert(rest[k] == days[k + 1]);
        }
        lemma_count_absent(rest, day);
    }
}

/// In ascending days the count of a day is the one beside it.
proof fn lemma_count_at(days: Seq<Day>, k: int)
    requires
        ascending(days),
        all_counted(days),
        0 <= k < days.len(),
    ensures
        count_in(days, days[k].0) == days[k].1,
    decreases days.len(),
{
    if k > 0 {
        assert(text::precedes(days[0].0, days[k].0));
        text::lemma_precedes_irreflexive(days[k].0);
        lemma_rest_ascending(days);
        assert(days.drop_first()[k - 1] == days[k]);
        lemma_count_at(days.drop_first(), k - 1);
    }
}

proof fn lemma_tally(events: Seq<EvView>, idx: Seq<usize>)
    ensures
        ascending(screen::tally(events, idx)),
        all_counted(screen::tally(events, idx)),
        forall|d: Seq<char>| #[trigger]
            count_in(screen::tally(events, idx), d) == of_day(events, idx, d),
        total(screen::tally(events, idx)) == idx.len(),
    decreases idx.len(),
{
    if idx.len() > 0 {
        lemma_tally(events, idx.drop_last());
        lemma_counted(
            screen::tally(events, idx.drop_last()),
            events[idx.last() as int].day,
        );
    }
}

/// The days that are counted stand in ascending order, each once, and each with
/// the number of events that it has. No day with an event is missing, and no event
/// is counted twice.
pub proof fn law_days_are_counted(events: Seq<EvView>, idx: Seq<usize>)
    ensures
        ascending(screen::tally(events, idx)),
        forall|k: int|
            0 <= k < screen::tally(events, idx).len() ==> (#[trigger] screen::tally(
                events,
                idx,
            )[k]).1 == of_day(events, idx, screen::tally(events, idx)[k].0)
                && screen::tally(events, idx)[k].1 > 0,
        forall|d: Seq<char>| #[trigger]
            of_day(events, idx, d) > 0 ==> screen::day_names(
                screen::tally(events, idx),
            ).contains(d),
        total(screen::tally(events, idx)) == idx.len(),
{
    let days = screen::tally(events, idx);
    lemma_tally(events, idx);
    assert forall|k: int| 0 <= k < days.len() implies (#[trigger] days[k]).1 == of_day(
        events,
        idx,
        days[k].0,
    ) && days[k].1 > 0 by {
        lemma_count_at(days, k);
    }
    assert forall|d: Seq<char>| #[trigger] of_day(events, idx, d) > 0 implies screen::day_names(
        days,
    ).contains(d) by {
        assert(count_in(days, d) == of_day(events, idx, d));
        let names = screen::day_names(days);
        if !names.contains(d) {
            assert forall|k: int| 0 <= k < days.len() implies (#[trigger] days[k]).0 != d by {
                assert(names[k] == days[k].0);
            }
            lemma_count_absent(days, d);
        }
    }
}

/// The peak is the count of some day, and no day has more.
pub proof fn law_peak_is_the_most(days: Seq<Day>)
    ensures
        forall|k: int| 0 <= k < days.len() ==> (#[trigger] days[k]).1 <= screen::peak_of(days),
        days.len() > 0 ==> screen::day_counts(days).contains(screen::peak_of(days)),
    decreases days.len(),
{
    if days.len() > 0 {
        let rest = days.drop_last();
        law_peak_is_the_most(rest);
        let peak = screen::peak_of(days);
        assert forall|k: int| 0 <= k < days.len() implies (#[trigger] days[k]).1 <= peak by {
            if k < rest.len() {
                assert(rest[k] == days[k]);
            }
        }
        let counts = screen::day_counts(days);
        if screen::peak_of(rest) > days.last().1 {
            let old = screen::day_counts(rest);
            assert(rest.len() > 0);
            assert(old.contains(peak));
            let k = choose|k: int| 0 <= k < old.len() && old[k] == peak;
            assert(counts[k] == peak);
        } else {
            assert(counts[days.len() - 1] == peak);
        }
    }
}

/// The dates below the bars fill the width of the chart exactly, wherever there is
/// room for two of them: the last ends where the bars end.
pub proof fn law_axis_fills_the_width(days: Seq<Day>, width: int)
    requires
        days.len() >= 2,
        width >= 22,
        forall|k: int| 0 <= k < days.len() ==> (#[trigger] days[k]).0.len() == 10,
    ensures
        screen::axis_of(days, width).len() == width,
        text::begins(screen::axis_of(days, width), days[0].0),
        text::ends(screen::axis_of(days, width), days.last().0),
{
    let axis = screen::axis_of(days, width);
    assert(days[0].0.len() == 10);
    assert(days[days.len() - 1].0.len() == 10);
    assert(days[days.len() as int / 2].0.len() == 10);
    assert(axis.take(10) =~= days[0].0);
    assert(axis.skip(axis.len() - 10) =~= days.last().0);
}

// ---------------------------------------------------------------------------
// Clicking the chart
// ---------------------------------------------------------------------------

/// A day with events has one of the given indices.
proof fn lemma_of_day_some(events: Seq<EvView>, idx: Seq<usize>, day: Seq<char>)
    requires
        of_day(events, idx, day) > 0,
    ensures
        exists|k: int| 0 <= k < idx.len() && events[(#[trigger] idx[k]) as int].day == day,
    decreases idx.len(),
{
    let rest = idx.drop_last();
    if events[idx.last() as int].day == day {
        assert(events[idx[idx.len() - 1] as int].day == day);
    } else {
        lemma_of_day_some(events, rest, day);
        let k = choose|k: int| 0 <= k < rest.len() && events[(#[trigger] rest[k]) as int].day == day;
        assert(events[idx[k] as int].day == day);
    }
}

/// Every event that is listed has its row.
proof fn lemma_splice_has(events: Seq<EvView>, idx: Seq<usize>, k: int)
    requires
        0 <= k < idx.len(),
    ensures
        app::splice(events, idx).contains(Row::Event(idx[k])),
    decreases idx.len(),
{
    let rest = idx.drop_last();
    let front = app::splice(events, rest);
    let own = app::rows_of(events[idx.last() as int], idx.last());
    let all = app::splice(events, idx);
    if k == idx.len() - 1 {
        assert(own[0] == Row::Event(idx[k]));
        assert(all[front.len() as int] == Row::Event(idx[k]));
    } else {
        lemma_splice_has(events, rest, k);
        let at = choose|at: int| 0 <= at < front.len() && front[at] == Row::Event(rest[k]);
        assert(all[at] == Row::Event(idx[k]));
    }
}

/// The row that is found is the first of its day.
pub proof fn lemma_day_row(rows: Seq<Row>, events: Seq<EvView>, day: Seq<char>, from: int)
    requires
        rows.len() <= usize::MAX,
        0 <= from <= rows.len(),
    ensures
        match input::day_row(rows, events, day, from) {
            Some(k) => from <= k < rows.len() && events[rows[k as int].event() as int].day == day
                && forall|l: int|
                from <= l < k ==> events[(#[trigger] rows[l]).event() as int].day != day,
            None => forall|l: int|
                from <= l < rows.len() ==> events[(#[trigger] rows[l]).event() as int].day != day,
        },
    decreases rows.len() - from,
{
    if from < rows.len() && events[rows[from].event() as int].day != day {
        lemma_day_row(rows, events, day, from + 1);
    }
}

/// Each bar stands for a day of an event that is shown.
proof fn lemma_bar_has_row(app: AppView, areas: Chunks, k: int)
    requires
        0 <= k < screen::charted(app, areas.chart).len(),
    ensures
        exists|p: int|
            0 <= p < app.rows().len() && app.events[(#[trigger] app.rows()[p]).event() as int].day
                == screen::charted(app, areas.chart)[k].0,
{
    let idx = app.matching();
    let days = screen::tally(app.events, idx);
    let shown = screen::charted(app, areas.chart);
    let day = shown[k].0;
    law_days_are_counted(app.events, idx);
    assert(shown[k] == days[days.len() - shown.len() + k]);
    assert(of_day(app.events, idx, day) > 0);
    lemma_of_day_some(app.events, idx, day);
    let j = choose|j: int| 0 <= j < idx.len() && app.events[(#[trigger] idx[j]) as int].day == day;
    lemma_splice_has(app.events, idx, j);
    let p = choose|p: int| 0 <= p < app.rows().len() && app.rows()[p] == Row::Event(idx[j]);
    assert(app.events[app.rows()[p].event() as int].day == day);
}

/// Clicking a bar selects the first row of that bar's day, and there always is
/// one.
pub proof fn law_bar_click_selects_its_day(
    app: AppView,
    areas: Chunks,
    k: int,
    m: MouseEvent,
    now: u64,
)
    requires
        app.rows().len() <= usize::MAX,
        0 <= k < screen::charted(app, areas.chart).len(),
        screen::laid_out(app, areas).table_area.height > 0,
        m.kind == MouseKind::Down,
        m.column == screen::bars_area(areas.chart).x + k,
        screen::bars_area(areas.chart).y <= m.row < screen::bars_area(areas.chart).bottom(),
    ensures
        ({
            let (after, action) = input::mouse_step(screen::laid_out(app, areas), m, now);
            let day = screen::charted(app, areas.chart)[k].0;
            &&& action == ActionView::Stay
            &&& after.state.selected matches Some(p) && p < app.rows().len()
                && app.events[app.rows()[p as int].event() as int].day == day && forall|q: int|
                0 <= q < p ==> app.events[(#[trigger] app.rows()[q]).event() as int].day != day
        }),
{
    let laid = screen::laid_out(app, areas);
    let shown = screen::charted(app, areas.chart);
    assert(laid.rows() == app.rows());
    assert(laid.spark_days[k] == shown[k].0);
    lemma_bar_has_row(app, areas, k);
    lemma_day_row(app.rows(), app.events, shown[k].0, 0);
}

pub proof fn lemma_index_in(names: Seq<Seq<char>>, name: Seq<char>, from: int)
    requires
        0 <= from <= names.len(),
    ensures
        match screen::index_in(names, name, from) {
            Some(k) => from <= k < names.len() && names[k] == name,
            None => forall|l: int| from <= l < names.len() ==> (#[trigger] names[l]) != name,
        },
    decreases names.len() - from,
{
    if from < names.len() && names[from] != name {
        lemma_index_in(names, name, from + 1);
    }
}

/// The bar that stands out is that of the selected row's day.
pub proof fn law_bright_bar_is_the_selected_day(app: AppView, areas: Chunks, k: int, row: Row)
    requires
        areas.chart.fits(),
        app.selected_row() == Some(row),
        0 <= k < screen::charted(app, areas.chart).len(),
    ensures
        screen::bright_column(app, areas.chart) == Some(
            (screen::bars_area(areas.chart).x + k) as u16,
        ) <==> screen::charted(app, areas.chart)[k].0 == app.events[row.event() as int].day,
{
    let shown = screen::charted(app, areas.chart);
    let names = screen::day_names(shown);
    let day = app.events[row.event() as int].day;
    let days = screen::tally(app.events, app.matching());
    lemma_index_in(names, day, 0);
    assert(names[k] == shown[k].0);
    match screen::index_in(names, day, 0) {
        Some(l) => {
            assert(names[l] == shown[l].0);
            law_days_are_counted(app.events, app.matching());
            assert(shown[k] == days[days.len() - shown.len() + k]);
            assert(shown[l] == days[days.len() - shown.len() + l]);
            text::lemma_precedes_irreflexive(day);
            if k < l {
                assert(text::precedes(shown[k].0, shown[l].0));
            } else if l < k {
                assert(text::precedes(shown[l].0, shown[k].0));
            }
        },
        None => {},
    }
}

// ---------------------------------------------------------------------------
// Resizing
// ---------------------------------------------------------------------------

/// The left button with the mouse in a cell.
pub open spec fn left_button(kind: MouseKind, column: u16, row: u16) -> MouseEvent {
    MouseEvent { kind, column, row }
}

/// Dragging the edge of a column moves it to where the mouse is, as far as the
/// column stays between its least and its greatest width. No other width changes.
pub proof fn law_edge_follows_the_mouse(
    app: AppView,
    c: usize,
    x: u16,
    y: u16,
    to: u16,
    row: u16,
    now: u64,
)
    requires
        app.wf(),
        app.spans_fit(),
        app.table_area.height > 0,
        !input::on_chart(app, x as int, y as int),
        input::edge_hit(app, x as int) == Some(c),
    ensures
        ({
            let held = input::mouse_step(app, left_button(MouseKind::Down, x, y), now).0;
            let after = input::mouse_step(held, left_button(MouseKind::Drag, to, row), now).0;
            let freed = input::mouse_step(after, left_button(MouseKind::Up, to, row), now).0;
            let left = app.span(c as int).0;
            &&& LEAST_WIDTH <= after.col_w[c as int] <= input::most_width(app)
            &&& LEAST_WIDTH <= to - left <= input::most_width(app) ==> after.span(c as int) == (
                left,
                to as int,
            )
            &&& forall|d: int|
                0 <= d < app.col_w.len() && d != c ==> (#[trigger] after.col_w[d]) == app.col_w[d]
            &&& freed == AppView { col_w: after.col_w, drag: None, ..app }
        }),
{
    reveal_with_fuel(AppView::column_left, 5);
    let held = input::mouse_step(app, left_button(MouseKind::Down, x, y), now).0;
    assert(held.drag == Some((c, app.span(c as int).0 as u16)));
    let after = input::mouse_step(held, left_button(MouseKind::Drag, to, row), now).0;
    assert(after.col_w.len() == 5);
    assert(1 <= c <= 3);
}

// ---------------------------------------------------------------------------
// The texts of an event
// ---------------------------------------------------------------------------

/// A part of an ASCII text by its byte offsets is the part by its characters.
proof fn lemma_ascii_range(s: Seq<char>, from: int, to: int)
    requires
        is_ascii_chars(s),
        0 <= from <= to <= s.len(),
    ensures
        text::byte_range(s, from, to) == Some(s.subrange(from, to)),
{
    let bytes = encode_utf8(s);
    let part = s.subrange(from, to);
    is_ascii_chars_encode_utf8(s);
    is_ascii_chars_encode_utf8(part);
    encode_utf8_valid_utf8(s);
    is_char_boundary_start_end_of_seq(bytes);
    assert forall|k: int| 0 <= k < bytes.len() implies is_char_boundary(bytes, k) by {
        let b = bytes[k];
        assert(s[k] as u8 == b);
        assert(b <= 0x7f) by {
            assert('\0' <= s[k] <= '\u{7f}');
        }
        assert(!is_continuation_byte(b));
        is_char_boundary_iff_not_is_continuation_byte(bytes, k);
    }
    assert(bytes.subrange(from, to) =~= encode_utf8(part)) by {
        assert forall|k: int| 0 <= k < part.len() implies bytes.subrange(from, to)[k]
            == #[trigger] encode_utf8(part)[k] by {
            assert(part[k] == s[from + k]);
            assert(part[k] as u8 == encode_utf8(part)[k]);
            assert(s[from + k] as u8 == bytes[from + k]);
        }
    }
    encode_utf8_decode_utf8(part);
}

/// Of a time stamp such as GitHub writes them, the day is the date and the time
/// the hour and the minute.
pub proof fn law_day_and_time_of_a_stamp(
    ts: Seq<char>,
    actor: Seq<char>,
    kind: Seq<char>,
    label: Seq<char>,
    detail: Seq<char>,
    extra: Seq<char>,
)
    requires
        is_ascii_chars(ts),
        ts.len() >= 16,
    ensures
        event::event_of(ts, actor, kind, label, detail, extra).day == ts.take(10),
        event::event_of(ts, actor, kind, label, detail, extra).time == ts.subrange(11, 16),
{
    lemma_ascii_range(ts, 0, 10);
    lemma_ascii_range(ts, 11, 16);
    assert(ts.subrange(0, 10) =~= ts.take(10));
}

/// A branch that was created or deleted, and whatever is no push, is never
/// expanded and never fetched.
pub proof fn law_only_pushes_expand(app: AppView, i: int)
    requires
        0 <= i < app.events.len(),
        !event::real_sha(app.events[i].before) || !event::real_sha(app.events[i].after),
    ensures
        app.toggle(i) == (app, ActionView::Stay),
{
}

}
