//! What the state is for: which events the filters show, which rows the table has,
//! and what each key and each move of the mouse does to them.
use crate::app;
use crate::app::{ActionView, AppView, Row, TableState};
use crate::event;
use crate::event::EvView;
use crate::feed;
use crate::feed::ActivityView;
use crate::gh;
use crate::gh::ReplyView;
use crate::input;
use crate::input::{KeyCode, KeyEvent, MouseEvent, MouseKind};
use crate::layout::Rect;
use crate::laws;
use crate::laws::on_text;
use crate::text;
use vstd::prelude::*;
use vstd::string::*;

verus! {

// ---------------------------------------------------------------------------
// Filtering
// ---------------------------------------------------------------------------

/// What each filter looks at: the first one all that an event can be found by, the
/// others its date, its type, its actor and its detail.
pub open spec fn searched(e: EvView, col: int) -> Seq<char> {
    if col == 0 {
        e.search
    } else if col == 1 {
        text::lower(e.day + " "@ + e.time)
    } else if col == 2 {
        text::lower(e.label)
    } else if col == 3 {
        text::lower(e.actor)
    } else {
        text::lower(e.detail)
    }
}

/// Every word of a filter, in lower case, is part of a text.
pub open spec fn passes(hay: Seq<char>, filter: Seq<char>) -> bool {
    forall|k: int|
        0 <= k < text::words(filter).len() ==> on_text::has_part(
            hay,
            text::lower(#[trigger] text::words(filter)[k]),
        )
}

/// An event is shown exactly when each of the five filters finds all its words in
/// what it looks at.
pub proof fn law_each_filter_looks_at_its_column(e: EvView, filters: Seq<Seq<char>>)
    requires
        filters.len() == 5,
    ensures
        app::shows(e, filters) <==> passes(e.search, filters[0]) && passes(
            text::lower(e.day + " "@ + e.time),
            filters[1],
        ) && passes(text::lower(e.label), filters[2]) && passes(text::lower(e.actor), filters[3])
            && passes(text::lower(e.detail), filters[4]),
{
    assert forall|col: int| 0 <= col < 5 implies app::has_all(
        app::haystack(e, col),
        app::needles(#[trigger] filters[col]),
    ) == passes(searched(e, col), filters[col]) by {
        lemma_passes(e, filters[col], col);
    }
    if app::shows(e, filters) {
        assert(passes(searched(e, 0), filters[0]));
        assert(passes(searched(e, 1), filters[1]));
        assert(passes(searched(e, 2), filters[2]));
        assert(passes(searched(e, 3), filters[3]));
        assert(passes(searched(e, 4), filters[4]));
    } else {
        let col = choose|col: int|
            0 <= col < filters.len() && !app::has_all(
                app::haystack(e, col),
                app::needles(#[trigger] filters[col]),
            );
        assert(!passes(searched(e, col), filters[col]));
        assert(col == 0 || col == 1 || col == 2 || col == 3 || col == 4);
    }
}

proof fn lemma_passes(e: EvView, filter: Seq<char>, col: int)
    requires
        0 <= col < 5,
    ensures
        app::has_all(app::haystack(e, col), app::needles(filter)) == passes(
            searched(e, col),
            filter,
        ),
{
    let hay = searched(e, col);
    let words = text::words(filter);
    let needles = app::needles(filter);
    assert(app::haystack(e, col) == hay);
    assert forall|k: int| 0 <= k < words.len() implies text::occurs(hay, #[trigger] needles[k])
        == on_text::has_part(hay, text::lower(words[k])) by {
        on_text::law_occurs_is_a_part(hay, text::lower(words[k]));
    }
    if app::has_all(hay, needles) {
        assert forall|k: int| 0 <= k < words.len() implies on_text::has_part(
            hay,
            text::lower(#[trigger] words[k]),
        ) by {
            assert(text::occurs(hay, needles[k]));
        }
    }
    if passes(hay, filter) {
        assert forall|k: int| 0 <= k < needles.len() implies text::occurs(
            hay,
            #[trigger] needles[k],
        ) by {
            assert(on_text::has_part(hay, text::lower(words[k])));
        }
    }
}

/// Filters that are empty but for one.
pub open spec fn alone(col: int, filter: Seq<char>) -> Seq<Seq<char>> {
    Seq::new(
        5,
        |c: int|
            if c == col {
                filter
            } else {
                seq![]
            },
    )
}

/// A filter on one column treats events alike that have the same text there, whatever
/// else they hold.
pub proof fn law_a_column_filter_sees_its_column_alone(
    a: EvView,
    b: EvView,
    col: int,
    filter: Seq<char>,
)
    requires
        col == 1 ==> a.day == b.day && a.time == b.time,
        col == 2 ==> a.label == b.label,
        col == 3 ==> a.actor == b.actor,
        col == 4 ==> a.detail == b.detail,
        1 <= col <= 4,
    ensures
        app::shows(a, alone(col, filter)) == app::shows(b, alone(col, filter)),
        app::shows(a, alone(col, filter)) == passes(searched(a, col), filter),
{
    law_each_filter_looks_at_its_column(a, alone(col, filter));
    law_each_filter_looks_at_its_column(b, alone(col, filter));
    on_text::law_words_are_parted_by_white_space(seq![], seq![], ' ', seq![]);
}

/// The words of the filters are what counts: the events that are shown are those of
/// the list that pass, each once, in the order of the list.
pub proof fn law_filtering_keeps_the_order(app: AppView)
    requires
        app.filters.len() == 5,
        app.events.len() <= usize::MAX,
    ensures
        forall|a: int, b: int|
            0 <= a < b < app.matching().len() ==> app.matching()[a] < app.matching()[b],
        forall|i: usize| #[trigger]
            app.matching().contains(i) <==> i < app.events.len() && forall|col: int|
                0 <= col < 5 ==> passes(
                    #[trigger] searched(app.events[i as int], col),
                    app.filters[col],
                ),
{
    laws::law_shown_are_those_that_match(app);
    assert forall|i: usize| #[trigger] app.matching().contains(i) == (i < app.events.len()
        && forall|col: int|
        0 <= col < 5 ==> passes(
            #[trigger] searched(app.events[i as int], col),
            app.filters[col],
        )) by {
        let e = app.events[i as int];
        law_each_filter_looks_at_its_column(e, app.filters);
        if i < app.events.len() && app::shows(e, app.filters) {
            assert forall|col: int| 0 <= col < 5 implies passes(
                #[trigger] searched(e, col),
                app.filters[col],
            ) by {
                assert(col == 0 || col == 1 || col == 2 || col == 3 || col == 4);
            }
        }
        if forall|col: int| 0 <= col < 5 ==> passes(#[trigger] searched(e, col), app.filters[col]) {
            assert(passes(searched(e, 0), app.filters[0]));
            assert(passes(searched(e, 1), app.filters[1]));
            assert(passes(searched(e, 2), app.filters[2]));
            assert(passes(searched(e, 3), app.filters[3]));
            assert(passes(searched(e, 4), app.filters[4]));
        }
    }
}

// ---------------------------------------------------------------------------
// Rows
// ---------------------------------------------------------------------------

/// Without an expanded push whose commits are there, the rows are the events that
/// are shown.
pub proof fn law_collapsed_rows_are_the_events(app: AppView)
    requires
        forall|i: int|
            0 <= i < app.events.len() ==> !(#[trigger] app.events[i]).expanded
                || app.events[i].commits is None,
        app.events.len() <= usize::MAX,
    ensures
        app.rows() == app.matching().map_values(|i: usize| Row::Event(i)),
        forall|i: usize, c: usize| #[trigger] Row::Commit(i, c).event() == i,
        forall|i: usize| #[trigger] Row::Event(i).event() == i,
{
    app::lemma_matching_ascending(app.events, app.filters, app.events.len() as int);
    lemma_plain_rows(app.events, app.matching());
}

proof fn lemma_plain_rows(events: Seq<EvView>, idx: Seq<usize>)
    requires
        forall|k: int| 0 <= k < idx.len() ==> (#[trigger] idx[k]) < events.len(),
        forall|i: int|
            0 <= i < events.len() ==> !(#[trigger] events[i]).expanded || events[i].commits is None,
    ensures
        app::splice(events, idx) == idx.map_values(|i: usize| Row::Event(i)),
    decreases idx.len(),
{
    if idx.len() > 0 {
        let rest = idx.drop_last();
        assert forall|k: int| 0 <= k < rest.len() implies (#[trigger] rest[k]) < events.len() by {
            assert(rest[k] == idx[k]);
        }
        lemma_plain_rows(events, rest);
        assert(idx[idx.len() - 1] == idx.last());
        let e = events[idx.last() as int];
        assert(app::rows_of(e, idx.last()) =~= seq![Row::Event(idx.last())]);
    }
    assert(app::splice(events, idx) =~= idx.map_values(|i: usize| Row::Event(i)));
}

/// Expanding or collapsing a push changes that event alone, and of it only whether
/// it is expanded. A push whose commits are not there yet is not touched: what is
/// asked for is the comparison of its two ends. Nothing comes of an event that is no
/// push.
pub proof fn law_toggling_changes_one_event(app: AppView, i: int, k: int)
    requires
        0 <= i < app.events.len() <= usize::MAX,
        0 <= k < app.events.len(),
    ensures
        ({
            let (after, action) = app.toggle(i);
            let e = app.events[i];
            let path = "repos/"@ + app.repo + "/compare/"@ + e.before + "..."@ + e.after;
            &&& after == AppView { events: after.events, ..app }
            &&& after.events.len() == app.events.len()
            &&& k != i ==> after.events[k] == app.events[k]
            &&& e.can_expand() && e.commits is Some ==> action == ActionView::Stay
                && after.events[i] == EvView { expanded: !e.expanded, ..e }
            &&& e.can_expand() && e.commits is None ==> after == app && action
                == (ActionView::Fetch {
                event: i as usize,
                args: match app.host {
                    Some(h) => seq!["api"@, "--hostname"@, h, path],
                    None => seq!["api"@, path],
                },
            })
            &&& !e.can_expand() ==> after == app && action == ActionView::Stay
        }),
{
    let e = app.events[i];
    let path = "repos/"@ + app.repo + "/compare/"@ + e.before + "..."@ + e.after;
    match app.host {
        Some(h) => {
            assert(gh::compare_args(app.host, app.repo, e.before, e.after) =~= seq![
                "api"@,
                "--hostname"@,
                h,
                path,
            ]);
        },
        None => {
            assert(gh::compare_args(app.host, app.repo, e.before, e.after) =~= seq!["api"@, path]);
        },
    }
}

/// The reply to a comparison gives the push its rows, and its count where the reply
/// has one. A count that was known stays where it has none. Nothing else changes.
pub proof fn law_fetched_rows_go_to_their_push(app: AppView, i: int, k: int, reply: ReplyView)
    requires
        0 <= i < app.events.len(),
        0 <= k < app.events.len(),
    ensures
        ({
            let after = app.toggle_fetched(i, reply);
            let (rows, count) = gh::compared(reply);
            let e = app.events[i];
            &&& after == AppView { events: after.events, ..app }
            &&& after.events.len() == app.events.len()
            &&& k != i ==> after.events[k] == app.events[k]
            &&& after.events[i] == EvView {
                commits: Some(rows),
                commit_count: after.events[i].commit_count,
                expanded: !e.expanded,
                ..e
            }
            &&& count is Some && count->0 <= usize::MAX ==> after.events[i].commit_count == Some(
                count->0 as usize,
            )
            &&& count is None ==> after.events[i].commit_count == e.commit_count
        }),
{
}

/// At the start the given filter stands in the first box, nothing in the others, the
/// first box is the active one and the first row is selected.
pub proof fn law_state_at_the_start(
    repo: Seq<char>,
    host: Option<Seq<char>>,
    events: Seq<EvView>,
    initial: Seq<char>,
)
    ensures
        ({
            let a = app::app_of(repo, host, events, initial);
            let none = Rect { x: 0, y: 0, width: 0, height: 0 };
            &&& a.repo == repo && a.host == host && a.events == events
            &&& a.filters == seq![initial, seq![], seq![], seq![], seq![]]
            &&& a.active == 0
            &&& a.col_w == seq![2u16, 16u16, 18u16, 16u16, 0u16]
            &&& a.table_area == none && a.spark_area == none && a.spark_days.len() == 0
            &&& a.drag is None && a.last_click is None && a.status is None
            &&& a.state.offset == 0
            &&& a.rows().len() > 0 ==> a.state.selected == Some(0usize)
            &&& a.rows().len() == 0 ==> a.state.selected is None
        }),
{
    let a = app::app_of(repo, host, events, initial);
    let b = AppView { state: TableState { selected: None, offset: 0 }, ..a };
    assert(a.rows() == b.rows());
}

// ---------------------------------------------------------------------------
// Columns
// ---------------------------------------------------------------------------

/// The first column begins with the table, each next one cell behind the one before
/// it, and each is as wide as set. The last takes what is left, if anything is.
pub proof fn law_columns_stand_side_by_side(app: AppView)
    ensures
        app.span(0).0 == app.table_area.x,
        app.span(1).0 == app.span(0).1 + 1,
        app.span(2).0 == app.span(1).1 + 1,
        app.span(3).0 == app.span(2).1 + 1,
        forall|c: int| 0 <= c < 4 ==> (#[trigger] app.span(c)).1 == app.span(c).0 + app.col_w[c],
        app.span(4).1 == app.table_area.x + app.table_area.width,
        app.span(3).1 + 1 <= app.span(4).1 ==> app.span(4).0 == app.span(3).1 + 1,
        app.span(3).1 + 1 > app.span(4).1 ==> app.span(4).0 == app.span(4).1,
        app.spans_fit() <==> app.span(3).1 + 1 <= 65535 && app.table_area.x + app.table_area.width
            <= 65535,
{
    reveal_with_fuel(AppView::column_left, 5);
}

// ---------------------------------------------------------------------------
// Keys
// ---------------------------------------------------------------------------

/// The state after a key, and what is to be done.
pub open spec fn pressed(app: AppView, modifiers: u8, code: KeyCode) -> (AppView, ActionView) {
    input::key_step(app, KeyEvent { modifiers, code })
}

/// The selection on the first row, or none without rows; the table then starts at
/// its top.
pub open spec fn on_first(app: AppView) -> TableState {
    if app.rows().len() > 0 {
        TableState { selected: Some(0), offset: app.state.offset }
    } else {
        TableState { selected: None, offset: 0 }
    }
}

/// The selection moved by some rows, no further than the first and the last; without
/// one it moves from the first. Without rows there is none.
pub open spec fn on_moved(app: AppView, by: int) -> TableState {
    let n = app.rows().len() as int;
    let from = match app.state.selected {
        Some(k) => k as int,
        None => 0,
    };
    if n == 0 {
        TableState { selected: None, offset: 0 }
    } else if from + by < 0 {
        TableState { selected: Some(0), offset: app.state.offset }
    } else if from + by >= n {
        TableState { selected: Some((n - 1) as usize), offset: app.state.offset }
    } else {
        TableState { selected: Some((from + by) as usize), offset: app.state.offset }
    }
}

/// The arrows move the selection by one row and the page keys by ten, whatever else
/// is held. Nothing else changes but that the message goes.
pub proof fn law_arrows_move_the_selection(app: AppView, modifiers: u8)
    requires
        app.rows().len() <= usize::MAX,
    ensures
        pressed(app, modifiers, KeyCode::Down) == (
            AppView { status: None, state: on_moved(app, 1), ..app },
            ActionView::Stay,
        ),
        pressed(app, modifiers, KeyCode::Up) == (
            AppView { status: None, state: on_moved(app, -1), ..app },
            ActionView::Stay,
        ),
        pressed(app, modifiers, KeyCode::PageDown) == (
            AppView { status: None, state: on_moved(app, 10), ..app },
            ActionView::Stay,
        ),
        pressed(app, modifiers, KeyCode::PageUp) == (
            AppView { status: None, state: on_moved(app, -10), ..app },
            ActionView::Stay,
        ),
{
    assert(AppView { status: None, ..app }.rows() == app.rows());
}

/// `Home` and `End` go to the first and the last row, from any row.
pub proof fn law_home_and_end_go_to_the_ends(app: AppView, modifiers: u8)
    requires
        0 < app.rows().len() <= 1_000_000_000,
        app.state.selected matches Some(k) ==> k < app.rows().len(),
    ensures
        pressed(app, modifiers, KeyCode::Home) == (
            AppView {
                status: None,
                state: TableState { selected: Some(0), offset: app.state.offset },
                ..app
            },
            ActionView::Stay,
        ),
        pressed(app, modifiers, KeyCode::End) == (
            AppView {
                status: None,
                state: TableState {
                    selected: Some((app.rows().len() - 1) as usize),
                    offset: app.state.offset,
                },
                ..app
            },
            ActionView::Stay,
        ),
{
    assert(AppView { status: None, ..app }.rows() == app.rows());
}

/// A character that is typed, with the shift key or without, goes to the end of the
/// active filter and of no other, and the first row is selected. Erasing takes the
/// last character off again.
pub proof fn law_typing_edits_the_active_filter(app: AppView, c: char, modifiers: u8)
    requires
        app.wf(),
    ensures
        ({
            let at = app.active as int;
            let typed = app.filters.update(at, app.filters[at].push(c));
            let shorter = app.filters.update(at, app.filters[at].drop_last());
            let a = AppView { filters: typed, status: None, ..app };
            let b = AppView { filters: shorter, status: None, ..app };
            let n = AppView { status: None, ..app };
            &&& modifiers == 0 || modifiers == 1 ==> pressed(app, modifiers, KeyCode::Char(c)) == (
                AppView { state: on_first(a), ..a },
                ActionView::Stay,
            )
            &&& app.filters[at].len() > 0 ==> pressed(app, modifiers, KeyCode::Backspace) == (
                AppView { state: on_first(b), ..b },
                ActionView::Stay,
            )
            &&& app.filters[at].len() == 0 ==> pressed(app, modifiers, KeyCode::Backspace) == (
                AppView { state: on_first(n), ..n },
                ActionView::Stay,
            )
            &&& modifiers > 2 ==> pressed(app, modifiers, KeyCode::Char(c)) == (n, ActionView::Stay)
            &&& pressed(app, modifiers, KeyCode::Other) == (n, ActionView::Stay)
        }),
{
    let at = app.active as int;
    if app.filters[at].len() == 0 {
        assert(app.filters.update(at, app.filters[at]) =~= app.filters);
    }
}

/// `Esc` empties all filters and selects the first row; where they are empty it
/// quits. `Ctrl-Q` always quits.
pub proof fn law_esc_empties_every_filter(app: AppView, modifiers: u8)
    requires
        app.wf(),
    ensures
        ({
            let none = Seq::new(5, |c: int| Seq::<char>::empty());
            let a = AppView { filters: none, status: None, ..app };
            let n = AppView { status: None, ..app };
            &&& app.filters != none ==> pressed(app, modifiers, KeyCode::Esc) == (
                AppView { state: on_first(a), ..a },
                ActionView::Stay,
            )
            &&& app.filters == none ==> pressed(app, modifiers, KeyCode::Esc) == (
                n,
                ActionView::Quit,
            )
            &&& pressed(app, 2, KeyCode::Char('q')) == (n, ActionView::Quit)
        }),
{
    let none = Seq::new(5, |c: int| Seq::<char>::empty());
    assert(input::no_filters() =~= none);
    if app.filters == none {
        assert(input::unfiltered(app));
    } else {
        if input::unfiltered(app) {
            assert forall|c: int| 0 <= c < 5 implies app.filters[c] == none[c] by {
                assert(app.filters[c] =~= Seq::<char>::empty());
            }
            assert(app.filters =~= none);
        }
    }
}

/// `Tab` makes the next filter the active one and `Shift-Tab` the one before, round
/// and round, and nothing else changes.
pub proof fn law_tab_moves_between_filters(app: AppView, modifiers: u8)
    requires
        app.wf(),
    ensures
        pressed(app, modifiers, KeyCode::Tab) == (
            AppView {
                status: None,
                active: if app.active == 4 {
                    0
                } else {
                    (app.active + 1) as usize
                },
                ..app
            },
            ActionView::Stay,
        ),
        pressed(app, modifiers, KeyCode::BackTab) == (
            AppView {
                status: None,
                active: if app.active == 0 {
                    4
                } else {
                    (app.active - 1) as usize
                },
                ..app
            },
            ActionView::Stay,
        ),
{
}

/// What the keys on a row do: `Enter` toggles an event, `Ctrl-C` copies the row,
/// `Ctrl-O` opens it. Without a selected row, and with any other letter, nothing but
/// the message goes.
pub proof fn law_keys_on_the_selected_row(app: AppView, modifiers: u8, c: char)
    ensures
        ({
            let n = AppView { status: None, ..app };
            let k = app.state.selected;
            let there = k is Some && k->0 < app.rows().len();
            let row = app.rows()[k->0 as int];
            let i = row.event() as int;
            let sha = match row {
                Row::Event(_) => None,
                Row::Commit(_, d) => input::row_sha(app.events[i].commits->0[d as int]),
            };
            &&& there && row is Event ==> pressed(app, modifiers, KeyCode::Enter) == n.toggle(i)
            &&& there && row is Commit ==> pressed(app, modifiers, KeyCode::Enter) == (
                n,
                ActionView::Stay,
            )
            &&& there ==> pressed(app, 2, KeyCode::Char('c')) == (
                n,
                ActionView::Copy(input::row_text(app.events, row)),
            )
            &&& there ==> pressed(app, 2, KeyCode::Char('o')) == (
                n,
                match input::browse_args(app, i, sha) {
                    Some(args) => ActionView::Open(args),
                    None => ActionView::Stay,
                },
            )
            &&& !there ==> pressed(app, modifiers, KeyCode::Enter) == (n, ActionView::Stay)
            &&& !there && (c == 'c' || c == 'f' || c == 'o') ==> pressed(app, 2, KeyCode::Char(c))
                == (n, ActionView::Stay)
            &&& c != 'q' && c != 'c' && c != 'f' && c != 'o' ==> pressed(app, 2, KeyCode::Char(c))
                == (n, ActionView::Stay)
        }),
{
    let n = AppView { status: None, ..app };
    assert(n.rows() == app.rows());
}

// ---------------------------------------------------------------------------
// The text of a row, and its page
// ---------------------------------------------------------------------------

/// A row is copied as its date, type, actor and detail with tabs between them, and a
/// commit's row as it stands.
pub proof fn law_rows_are_copied_with_tabs(events: Seq<EvView>, i: usize, c: usize)
    ensures
        ({
            let e = events[i as int];
            input::row_text(events, Row::Event(i)) == e.day + seq![' '] + e.time + seq!['\t']
                + e.label + seq!['\t'] + e.actor + seq!['\t'] + e.detail
        }),
        events[i as int].commits matches Some(cs) ==> input::row_text(events, Row::Commit(i, c))
            == cs[c as int],
{
    reveal_strlit(" ");
    reveal_strlit("\t");
    assert(" "@ =~= seq![' ']);
    assert("\t"@ =~= seq!['\t']);
}

/// A commit's row is opened as a commit where its first word is an id: seven or more
/// of the digits and the letters `a` to `f`, in either case.
pub proof fn law_commit_rows_name_their_commit(row: Seq<char>)
    ensures
        text::words(row).len() == 0 ==> input::row_sha(row) is None,
        text::words(row).len() > 0 ==> ({
            let w = text::words(row)[0];
            let hex = forall|k: int|
                0 <= k < w.len() ==> ('0' <= #[trigger] w[k] <= '9' || 'a' <= w[k] <= 'f' || 'A'
                    <= w[k] <= 'F');
            &&& w.len() >= 7 && hex ==> input::row_sha(row) == Some(w)
            &&& w.len() < 7 || !hex ==> input::row_sha(row) is None
        }),
{
    if text::words(row).len() > 0 {
        let w = text::words(row)[0];
        let hex = forall|k: int|
            0 <= k < w.len() ==> ('0' <= #[trigger] w[k] <= '9' || 'a' <= w[k] <= 'f' || 'A' <= w[k]
                <= 'F');
        if hex {
            assert forall|k: int| 0 <= k < w.len() implies text::hex_digit(#[trigger] w[k]) by {}
        } else {
            let k = choose|k: int|
                0 <= k < w.len() && !('0' <= #[trigger] w[k] <= '9' || 'a' <= w[k] <= 'f' || 'A'
                    <= w[k] <= 'F');
            assert(!text::hex_digit(w[k]));
        }
    }
}

/// The front of every command that opens a page: the repository, with its host where
/// one is set.
pub open spec fn browse(app: AppView) -> Seq<Seq<char>> {
    seq![
        "browse"@,
        "-R"@,
        match app.host {
            Some(h) => h + "/"@ + app.repo,
            None => app.repo,
        },
    ]
}

/// A label as the branch changes have it: small letters and low lines, nothing else.
pub open spec fn is_change(label: Seq<char>) -> bool {
    forall|k: int|
        0 <= k < label.len() ==> (#[trigger] label[k] == '_' || 'a' <= label[k] <= 'z')
}

/// A commit is opened by its id, an event with a number by the number, a branch
/// change by its branch, and nothing else is opened.
pub proof fn law_rows_are_opened_by_what_they_name(app: AppView, i: int, id: Seq<char>)
    ensures
        ({
            let e = app.events[i];
            let number = event::number_in(e.detail);
            &&& input::browse_args(app, i, Some(id)) == Some(browse(app) + seq![id])
            &&& number.len() > 0 ==> input::browse_args(app, i, None) == Some(
                browse(app) + seq![number],
            )
            &&& number.len() == 0 && is_change(e.label) ==> input::browse_args(app, i, None)
                == Some(browse(app) + seq!["-b"@, e.detail])
            &&& number.len() == 0 && !is_change(e.label) ==> input::browse_args(app, i, None)
                is None
        }),
{
    let e = app.events[i];
    let number = event::number_in(e.detail);
    let start = browse(app);
    assert(start.push(id) =~= start + seq![id]);
    assert(start.push(number) =~= start + seq![number]);
    assert(start.push("-b"@).push(e.detail) =~= start + seq!["-b"@, e.detail]);
    if is_change(e.label) {
        assert forall|k: int| 0 <= k < e.label.len() implies ('a' <= #[trigger] e.label[k] <= 'z'
            || e.label[k] == '_') by {}
    } else {
        let k = choose|k: int|
            0 <= k < e.label.len() && !(#[trigger] e.label[k] == '_' || 'a' <= e.label[k] <= 'z');
        assert(!('a' <= e.label[k] <= 'z' || e.label[k] == '_'));
    }
}

/// Every branch change that the list of them has is opened on its branch: a push, a
/// forced push, a branch that is created or deleted, and a merge of either kind,
/// unless the name of the branch carries a number.
pub proof fn law_branch_changes_open_their_branch(app: AppView, i: int, a: ActivityView)
    requires
        0 <= i < app.events.len(),
        app.events[i] == feed::activity_row(a),
        a.kind == "push"@ || a.kind == "force_push"@ || a.kind == "branch_creation"@ || a.kind
            == "branch_deletion"@ || a.kind == "pr_merge"@ || a.kind == "merge_queue_merge"@,
        event::number_in(app.events[i].detail).len() == 0,
    ensures
        input::browse_args(app, i, None) == Some(
            browse(app) + seq!["-b"@, app.events[i].detail],
        ),
{
    reveal_strlit("push");
    reveal_strlit("force_push");
    reveal_strlit("branch_creation");
    reveal_strlit("branch_deletion");
    reveal_strlit("pr_merge");
    reveal_strlit("merge_queue_merge");
    assert("push"@ =~= seq!['p', 'u', 's', 'h']);
    assert("force_push"@ =~= seq!['f', 'o', 'r', 'c', 'e', '_', 'p', 'u', 's', 'h']);
    assert("pr_merge"@ =~= seq!['p', 'r', '_', 'm', 'e', 'r', 'g', 'e']);
    assert(is_change("push"@));
    assert(is_change("force_push"@));
    assert(is_change("branch_creation"@));
    assert(is_change("branch_deletion"@));
    assert(is_change("pr_merge"@));
    assert(is_change("merge_queue_merge"@));
    law_rows_are_opened_by_what_they_name(app, i, seq![]);
}

/// The clipboard programs are these, in this order.
pub proof fn law_clipboard_programs()
    ensures
        input::clipboard_tools() == seq![
            seq!["pbcopy"@],
            seq!["wl-copy"@],
            seq!["xclip"@, "-selection"@, "clipboard"@],
        ],
{
}

// ---------------------------------------------------------------------------
// The mouse
// ---------------------------------------------------------------------------

/// What the mouse does, in a cell and at a time.
pub open spec fn moved(
    app: AppView,
    kind: MouseKind,
    x: u16,
    y: u16,
    now: u64,
) -> (AppView, ActionView) {
    input::mouse_step(app, MouseEvent { kind, column: x, row: y }, now)
}

/// Before the table has been drawn the mouse does nothing. Then the wheel moves the
/// selection by three rows, letting the button go ends a resize, and a move with it
/// held makes the column end at the mouse, at least four cells wide and six less than
/// the table at most, or four.
pub proof fn law_wheel_and_dragging(app: AppView, kind: MouseKind, x: u16, y: u16, now: u64)
    requires
        app.wf(),
        app.rows().len() <= usize::MAX,
    ensures
        app.table_area.height == 0 ==> moved(app, kind, x, y, now) == (app, ActionView::Stay),
        moved(app, MouseKind::Other, x, y, now) == (app, ActionView::Stay),
        app.table_area.height > 0 ==> moved(app, MouseKind::ScrollDown, x, y, now) == (
            AppView { state: on_moved(app, 3), ..app },
            ActionView::Stay,
        ),
        app.table_area.height > 0 ==> moved(app, MouseKind::ScrollUp, x, y, now) == (
            AppView { state: on_moved(app, -3), ..app },
            ActionView::Stay,
        ),
        app.table_area.height > 0 ==> moved(app, MouseKind::Up, x, y, now) == (
            AppView { drag: None, ..app },
            ActionView::Stay,
        ),
        app.table_area.height > 0 && app.drag is None ==> moved(app, MouseKind::Drag, x, y, now)
            == (app, ActionView::Stay),
        app.table_area.height > 0 && app.drag is Some ==> ({
            let (c, left) = app.drag->0;
            let (after, action) = moved(app, MouseKind::Drag, x, y, now);
            let most = if app.table_area.width >= 10 {
                app.table_area.width - 6
            } else {
                4
            };
            let w = after.col_w[c as int];
            &&& action == ActionView::Stay
            &&& after == AppView { col_w: app.col_w.update(c as int, w), ..app }
            &&& x - left < 4 ==> w == 4
            &&& 4 <= x - left <= most ==> w == x - left
            &&& x - left > most && x - left >= 4 ==> w == most
        }),
{
}

/// The rows of the bars, on the first bar and right of it.
pub open spec fn over_bars(app: AppView, x: u16, y: u16) -> bool {
    app.spark_area.y <= y < app.spark_area.y + app.spark_area.height && x >= app.spark_area.x
}

/// A click in the rows of the bars selects the first row of the day whose bar was
/// hit, and changes nothing where there is no bar or no such row.
pub proof fn law_clicks_over_the_bars(app: AppView, x: u16, y: u16, now: u64)
    requires
        app.table_area.height > 0,
        over_bars(app, x, y),
        app.rows().len() <= usize::MAX,
    ensures
        ({
            let (after, action) = moved(app, MouseKind::Down, x, y, now);
            let at = x - app.spark_area.x;
            let of_day = |q: int|
                app.events[app.rows()[q].event() as int].day == app.spark_days[at];
            &&& action == ActionView::Stay
            &&& at >= app.spark_days.len() ==> after == app
            &&& at < app.spark_days.len() && (forall|q: int|
                0 <= q < app.rows().len() ==> !#[trigger] of_day(q)) ==> after == app
            &&& forall|p: int|
                at < app.spark_days.len() && 0 <= p < app.rows().len() && #[trigger] of_day(p)
                    && (forall|q: int| 0 <= q < p ==> !#[trigger] of_day(q)) ==> after == (AppView {
                    state: TableState { selected: Some(p as usize), offset: app.state.offset },
                    ..app
                })
        }),
{
    let at = x - app.spark_area.x;
    let of_day = |q: int| app.events[app.rows()[q].event() as int].day == app.spark_days[at];
    if at < app.spark_days.len() {
        crate::chart_laws::lemma_day_row(app.rows(), app.events, app.spark_days[at], 0);
        match input::day_row(app.rows(), app.events, app.spark_days[at], 0) {
            Some(k) => {
                assert(of_day(k as int));
                assert forall|p: int|
                    0 <= p < app.rows().len() && #[trigger] of_day(p) && (forall|q: int|
                        0 <= q < p ==> !#[trigger] of_day(q)) implies p == k by {
                    if k < p {
                        assert(of_day(k as int));
                    }
                    if p < k {
                        assert(app.events[app.rows()[p].event() as int].day
                            != app.spark_days[at]);
                    }
                }
            },
            None => {
                assert forall|q: int| 0 <= q < app.rows().len() implies !#[trigger] of_day(q) by {
                    assert(app.events[app.rows()[q].event() as int].day != app.spark_days[at]);
                }
            },
        }
    }
}

/// A cell is at most one from the right edge of a column.
pub open spec fn near_edge(app: AppView, c: int, x: u16) -> bool {
    app.span(c).1 - 1 <= x <= app.span(c).1 + 1
}

/// A click at the edge of the date, the type or the actor begins to resize that
/// column, the first of those that are near, in any row but those of the bars.
pub proof fn law_clicks_on_edges(app: AppView, x: u16, y: u16, now: u64)
    requires
        app.table_area.height > 0,
        !over_bars(app, x, y),
    ensures
        ({
            let (after, action) = moved(app, MouseKind::Down, x, y, now);
            let hold = |c: usize|
                (
                    AppView { drag: Some((c, app.span(c as int).0 as u16)), ..app },
                    ActionView::Stay,
                );
            &&& near_edge(app, 1, x) ==> (after, action) == hold(1)
            &&& !near_edge(app, 1, x) && near_edge(app, 2, x) ==> (after, action) == hold(2)
            &&& !near_edge(app, 1, x) && !near_edge(app, 2, x) && near_edge(app, 3, x) ==> (
                after,
                action,
            ) == hold(3)
        }),
{
}

/// A click that is neither over the bars nor at an edge.
pub open spec fn plain_click(app: AppView, x: u16, y: u16) -> bool {
    &&& app.table_area.height > 0
    &&& !over_bars(app, x, y)
    &&& !near_edge(app, 1, x) && !near_edge(app, 2, x) && !near_edge(app, 3, x)
}

/// A click on the header makes the filter of the column that was hit the active one,
/// and one above the table does nothing.
pub proof fn law_clicks_on_the_header(app: AppView, x: u16, y: u16, now: u64, c: usize)
    requires
        app.wf(),
        plain_click(app, x, y),
    ensures
        y < app.table_area.y ==> moved(app, MouseKind::Down, x, y, now) == (app, ActionView::Stay),
        y == app.table_area.y && 1 <= c <= 4 && app.span(c as int).0 <= x < app.span(c as int).1
            ==> moved(app, MouseKind::Down, x, y, now) == (
            AppView { active: c, ..app },
            ActionView::Stay,
        ),
        y == app.table_area.y && (forall|d: int|
            1 <= d <= 4 ==> !((#[trigger] app.span(d)).0 <= x < app.span(d).1)) ==> moved(
            app,
            MouseKind::Down,
            x,
            y,
            now,
        ) == (app, ActionView::Stay),
{
    reveal_with_fuel(AppView::column_left, 5);
    law_columns_stand_side_by_side(app);
}

/// A click below the header selects the row that stands there, if one does. On the
/// arrow, or within four tenths of a second after a click on the same row, it also
/// does what a toggle of the row's event does. Any other click is remembered, to see
/// whether the next one follows soon.
pub proof fn law_clicks_on_rows(app: AppView, x: u16, y: u16, now: u64)
    requires
        plain_click(app, x, y),
        y > app.table_area.y,
        app.rows().len() <= usize::MAX,
    ensures
        ({
            let k = y - app.table_area.y - 1 + app.state.offset;
            let there = k < app.rows().len();
            let a = AppView {
                state: TableState { selected: Some(k as usize), offset: app.state.offset },
                ..app
            };
            let on_arrow = app.table_area.x <= x < app.table_area.x + app.col_w[0];
            let soon = app.last_click is Some && (app.last_click->0).1 == k && now - (
            app.last_click->0).0 < 400_000_000;
            let (after, action) = moved(app, MouseKind::Down, x, y, now);
            &&& !there ==> after == app && action == ActionView::Stay
            &&& there && !on_arrow && !soon ==> after == AppView {
                last_click: Some((now, k as usize)),
                ..a
            } && action == ActionView::Stay
            &&& there && (on_arrow || soon) && app.rows()[k] is Event ==> ({
                let (b, asked) = a.toggle(app.rows()[k].event() as int);
                after == AppView { last_click: None, ..b } && action == asked
            })
            &&& there && (on_arrow || soon) && app.rows()[k] is Commit ==> after == (AppView {
                last_click: None,
                ..a
            }) && action == ActionView::Stay
        }),
{
    reveal_with_fuel(AppView::column_left, 5);
    let k = y - app.table_area.y - 1 + app.state.offset;
    let a = app.select(Some(k as usize));
    assert(a.rows() == app.rows());
}

}
