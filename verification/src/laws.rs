//! What holds of the program as a whole: laws that tie several functions together.
pub mod on_calls;
pub mod on_events;
pub mod on_screen;
pub mod on_state;
pub mod on_text;
pub mod on_views;

use crate::app;
use crate::app::{ActionView, AppView, Row, FILTERS};
use crate::chart_laws;
use crate::event;
use crate::event::EvView;
use crate::gh;
use crate::gh::ReplyView;
use crate::input;
use crate::input::{Copying, KeyCode, KeyEvent, MouseEvent, MouseKind};
use crate::layout::Chunks;
use crate::screen;
use crate::text;
use vstd::prelude::*;

verus! {

// ---------------------------------------------------------------------------
// Filtering
// ---------------------------------------------------------------------------

/// The events that are shown are those that the filters show, all of them and no
/// others, in the order in which they stand.
pub proof fn law_shown_are_those_that_match(app: AppView)
    requires
        app.events.len() <= usize::MAX,
    ensures
        forall|k: int, l: int|
            0 <= k < l < app.matching().len() ==> app.matching()[k] < app.matching()[l],
        forall|i: usize| #[trigger]
            app.matching().contains(i) <==> i < app.events.len() && app::shows(
                app.events[i as int],
                app.filters,
            ),
{
    app::lemma_matching_ascending(app.events, app.filters, app.events.len() as int);
    lemma_matching_members(app.events, app.filters, app.events.len() as int);
}

proof fn lemma_matching_members(events: Seq<EvView>, filters: Seq<Seq<char>>, n: int)
    requires
        0 <= n <= events.len() <= usize::MAX,
    ensures
        forall|i: usize| #[trigger]
            app::matching_upto(events, filters, n).contains(i) <==> i < n && app::shows(
                events[i as int],
                filters,
            ),
    decreases n,
{
    let m = app::matching_upto(events, filters, n);
    if n > 0 {
        lemma_matching_members(events, filters, n - 1);
        let r = app::matching_upto(events, filters, n - 1);
        assert forall|i: usize| #[trigger] m.contains(i) == (i < n && app::shows(
            events[i as int],
            filters,
        )) by {
            if m.contains(i) {
                let k = choose|k: int| 0 <= k < m.len() && m[k] == i;
                if k < r.len() {
                    assert(r[k] == i);
                    assert(r.contains(i));
                }
            }
            if i < n && app::shows(events[i as int], filters) {
                if i < n - 1 {
                    assert(r.contains(i));
                    let k = choose|k: int| 0 <= k < r.len() && r[k] == i;
                    assert(m[k] == i);
                } else {
                    assert(m[r.len() as int] == i);
                }
            }
        }
    }
}

/// Filters without words show every event.
pub proof fn law_no_filter_shows_all(app: AppView)
    requires
        app.events.len() <= usize::MAX,
        forall|col: int|
            0 <= col < app.filters.len() ==> text::words(#[trigger] app.filters[col]).len() == 0,
    ensures
        app.matching() == Seq::new(app.events.len(), |i: int| i as usize),
{
    lemma_all_shown(app.events, app.filters, app.events.len() as int);
    assert(app.matching() =~= Seq::new(app.events.len(), |i: int| i as usize));
}

proof fn lemma_all_shown(events: Seq<EvView>, filters: Seq<Seq<char>>, n: int)
    requires
        0 <= n <= events.len() <= usize::MAX,
        forall|col: int|
            0 <= col < filters.len() ==> text::words(#[trigger] filters[col]).len() == 0,
    ensures
        app::matching_upto(events, filters, n) =~= Seq::new(n as nat, |i: int| i as usize),
    decreases n,
{
    if n > 0 {
        lemma_all_shown(events, filters, n - 1);
    }
}

/// Every word of one filter is a word of another, whatever its case.
pub open spec fn words_among(f: Seq<char>, g: Seq<char>) -> bool {
    forall|k: int|
        0 <= k < app::needles(f).len() ==> app::needles(g).contains(#[trigger] app::needles(f)[k])
}

/// More words show fewer events: what passes filters with all the words of others
/// passes those too.
pub proof fn law_more_words_show_less(e: EvView, f: Seq<Seq<char>>, g: Seq<Seq<char>>)
    requires
        f.len() == g.len(),
        forall|col: int| 0 <= col < f.len() ==> words_among(#[trigger] f[col], g[col]),
        app::shows(e, g),
    ensures
        app::shows(e, f),
{
    assert forall|col: int| 0 <= col < f.len() implies app::has_all(
        app::haystack(e, col),
        app::needles(#[trigger] f[col]),
    ) by {
        let hay = app::haystack(e, col);
        let (nf, ng) = (app::needles(f[col]), app::needles(g[col]));
        assert(words_among(f[col], g[col]));
        assert(app::has_all(hay, ng));
        assert forall|k: int| 0 <= k < nf.len() implies text::occurs(hay, #[trigger] nf[k]) by {
            assert(ng.contains(nf[k]));
        }
    }
}

/// The order of the words in a filter does not matter, nor their case, nor whether
/// one stands there twice: filters with the same words show the same events.
pub proof fn law_order_of_words_is_free(events: Seq<EvView>, f: Seq<Seq<char>>, g: Seq<Seq<char>>)
    requires
        f.len() == g.len(),
        forall|col: int|
            0 <= col < f.len() ==> words_among(#[trigger] f[col], g[col]) && words_among(
                g[col],
                f[col],
            ),
    ensures
        app::matching_upto(events, f, events.len() as int) == app::matching_upto(
            events,
            g,
            events.len() as int,
        ),
{
    assert forall|col: int| 0 <= col < g.len() implies words_among(#[trigger] g[col], f[col]) by {
        assert(words_among(f[col], g[col]) && words_among(g[col], f[col]));
    }
    assert forall|k: int| 0 <= k < events.len() implies app::shows(#[trigger] events[k], f)
        == app::shows(events[k], g) by {
        if app::shows(events[k], g) {
            law_more_words_show_less(events[k], f, g);
        }
        if app::shows(events[k], f) {
            law_more_words_show_less(events[k], g, f);
        }
    }
    lemma_matching_same(events, events, f, g, events.len() as int);
}

proof fn lemma_matching_same(
    a: Seq<EvView>,
    b: Seq<EvView>,
    f: Seq<Seq<char>>,
    g: Seq<Seq<char>>,
    n: int,
)
    requires
        n <= a.len(),
        a.len() == b.len(),
        forall|k: int|
            0 <= k < a.len() ==> app::shows(#[trigger] a[k], f) == app::shows(b[k], g),
    ensures
        app::matching_upto(a, f, n) == app::matching_upto(b, g, n),
    decreases n,
{
    if n > 0 {
        lemma_matching_same(a, b, f, g, n - 1);
        assert(app::shows(a[n - 1], f) == app::shows(b[n - 1], g));
    }
}

/// The words on both sides of white space are the words of both sides.
pub proof fn lemma_words_concat(a: Seq<char>, b: Seq<char>)
    requires
        a.len() > 0,
        text::white_space(a.last()),
    ensures
        text::words(a + b) == text::words(a) + text::words(b),
    decreases b.len(),
{
    if b.len() == 0 {
        assert(a + b =~= a);
        assert(text::words(a) + text::words(b) =~= text::words(a));
    } else {
        let all = a + b;
        let rest = b.drop_last();
        lemma_words_concat(a, rest);
        assert(all.drop_last() =~= a + rest);
        assert(all.last() == b.last());
        if rest.len() == 0 {
            assert((a + rest).last() == a.last());
        } else {
            assert((a + rest).last() == rest.last());
        }
        let (wa, wr) = (text::words(a), text::words(rest));
        if text::white_space(b.last()) {
        } else if rest.len() == 0 || text::white_space(rest.last()) {
            assert((wa + wr).push(seq![b.last()]) =~= wa + wr.push(seq![b.last()]));
        } else {
            lemma_words_some(rest);
            assert(text::grow_last(wa + wr, b.last()) =~= wa + text::grow_last(wr, b.last()));
        }
    }
}

/// A text that does not end in white space has words.
proof fn lemma_words_some(s: Seq<char>)
    requires
        s.len() > 0,
        !text::white_space(s.last()),
    ensures
        text::words(s).len() > 0,
{
}

/// A space in a filter is an "and": a text passes two filters with a space between
/// them exactly when it passes both.
pub proof fn law_space_is_and(hay: Seq<char>, a: Seq<char>, b: Seq<char>)
    ensures
        app::has_all(hay, app::needles(a + " "@ + b)) <==> app::has_all(hay, app::needles(a))
            && app::has_all(hay, app::needles(b)),
{
    reveal_strlit(" ");
    let left = a + " "@;
    assert(left.last() == ' ');
    assert(left.drop_last() =~= a);
    lemma_words_concat(left, b);
    let (na, nb) = (app::needles(a), app::needles(b));
    let n = app::needles(left + b);
    assert(n =~= na + nb);
    if app::has_all(hay, n) {
        assert forall|k: int| 0 <= k < na.len() implies text::occurs(hay, #[trigger] na[k]) by {
            assert(n[k] == na[k]);
        }
        assert forall|k: int| 0 <= k < nb.len() implies text::occurs(hay, #[trigger] nb[k]) by {
            assert(n[na.len() + k] == nb[k]);
        }
    }
    if app::has_all(hay, na) && app::has_all(hay, nb) {
        assert forall|k: int| 0 <= k < n.len() implies text::occurs(hay, #[trigger] n[k]) by {
            if k < na.len() {
                assert(n[k] == na[k]);
            } else {
                assert(n[k] == nb[k - na.len()]);
            }
        }
    }
}

// ---------------------------------------------------------------------------
// Rows and expanding
// ---------------------------------------------------------------------------

/// Two events that differ at most in what expanding changes.
pub open spec fn same_but_expansion(a: EvView, b: EvView) -> bool {
    b == EvView {
        commits: b.commits,
        commit_count: b.commit_count,
        expanded: b.expanded,
        ..a
    }
}

proof fn lemma_matching_unmoved(app: AppView, i: int, e: EvView)
    requires
        0 <= i < app.events.len(),
        same_but_expansion(app.events[i], e),
    ensures
        app.with_event(i, e).matching() == app.matching(),
{
    let b = app.events.update(i, e);
    assert forall|k: int| 0 <= k < b.len() implies app::shows(#[trigger] b[k], app.filters)
        == app::shows(app.events[k], app.filters) by {
        assert forall|col: int| app::haystack(b[k], col) == app::haystack(app.events[k], col) by {}
    }
    lemma_matching_same(b, app.events, app.filters, app.filters, b.len() as int);
}

proof fn lemma_splice_split(events: Seq<EvView>, idx: Seq<usize>, j: int)
    requires
        0 <= j <= idx.len(),
    ensures
        app::splice(events, idx) == app::splice(events, idx.take(j)) + app::splice(
            events,
            idx.skip(j),
        ),
    decreases idx.len(),
{
    if j == idx.len() {
        assert(idx.take(j) =~= idx);
        assert(idx.skip(j) =~= Seq::<usize>::empty());
        assert(app::splice(events, idx) + app::splice(events, Seq::<usize>::empty())
            =~= app::splice(events, idx));
    } else {
        let rest = idx.drop_last();
        lemma_splice_split(events, rest, j);
        assert(rest.take(j) =~= idx.take(j));
        assert(idx.skip(j).drop_last() =~= rest.skip(j));
        assert(idx.skip(j).last() == idx.last());
        let a = app::splice(events, idx.take(j));
        let b = app::splice(events, rest.skip(j));
        let c = app::rows_of(events[idx.last() as int], idx.last());
        assert((a + b) + c =~= a + (b + c));
    }
}

proof fn lemma_splice_elsewhere(events: Seq<EvView>, idx: Seq<usize>, i: int, e: EvView)
    requires
        0 <= i < events.len(),
        forall|k: int| 0 <= k < idx.len() ==> (#[trigger] idx[k]) != i && idx[k] < events.len(),
    ensures
        app::splice(events.update(i, e), idx) == app::splice(events, idx),
    decreases idx.len(),
{
    if idx.len() > 0 {
        let rest = idx.drop_last();
        assert forall|k: int| 0 <= k < rest.len() implies (#[trigger] rest[k]) != i && rest[k]
            < events.len() by {
            assert(rest[k] == idx[k]);
        }
        lemma_splice_elsewhere(events, rest, i, e);
        assert(idx[idx.len() - 1] == idx.last());
    }
}

proof fn lemma_splice_events(events: Seq<EvView>, idx: Seq<usize>)
    ensures
        forall|k: int|
            0 <= k < app::splice(events, idx).len() ==> idx.contains(
                (#[trigger] app::splice(events, idx)[k]).event(),
            ),
    decreases idx.len(),
{
    if idx.len() > 0 {
        let rest = idx.drop_last();
        lemma_splice_events(events, rest);
        let a = app::splice(events, rest);
        let b = app::rows_of(events[idx.last() as int], idx.last());
        let all = app::splice(events, idx);
        assert forall|k: int| 0 <= k < all.len() implies idx.contains(
            (#[trigger] all[k]).event(),
        ) by {
            if k < a.len() {
                assert(all[k] == a[k]);
                assert(rest.contains(a[k].event()));
                let l = choose|l: int| 0 <= l < rest.len() && rest[l] == a[k].event();
                assert(idx[l] == a[k].event());
            } else {
                assert(all[k] == b[k - a.len()]);
                assert(idx[idx.len() - 1] == idx.last());
            }
        }
    }
}

/// The place of an event in the list of those that are shown.
pub open spec fn is_place(app: AppView, i: int, j: int) -> bool {
    0 <= j < app.matching().len() && app.matching()[j] == i
}

/// The rows before those of the event in place `j`.
pub open spec fn rows_before(app: AppView, j: int) -> Seq<Row> {
    app::splice(app.events, app.matching().take(j))
}

/// The rows behind those of the event in place `j`.
pub open spec fn rows_behind(app: AppView, j: int) -> Seq<Row> {
    app::splice(app.events, app.matching().skip(j + 1))
}

/// The rows of the table are those before an event's, its own and those behind;
/// the event's row stands nowhere else.
proof fn lemma_rows_around(app: AppView, i: int, j: int)
    requires
        app.events.len() <= usize::MAX,
        is_place(app, i, j),
    ensures
        0 <= i < app.events.len(),
        app.rows() == rows_before(app, j) + app::rows_of(app.events[i], i as usize)
            + rows_behind(app, j),
        forall|k: int|
            0 <= k < app.rows().len() && #[trigger] app.rows()[k] == Row::Event(i as usize)
                <==> k == rows_before(app, j).len(),
{
    let m = app.matching();
    app::lemma_matching_ascending(app.events, app.filters, app.events.len() as int);
    let (a, b) = (rows_before(app, j), rows_behind(app, j));
    let own = app::rows_of(app.events[i], i as usize);
    lemma_splice_split(app.events, m, j);
    lemma_splice_split(app.events, m.skip(j), 1);
    assert(m.skip(j).take(1) =~= seq![i as usize]);
    assert(m.skip(j).skip(1) =~= m.skip(j + 1));
    let single = seq![i as usize];
    assert(single.drop_last() =~= Seq::<usize>::empty());
    assert(app::splice(app.events, Seq::<usize>::empty()) =~= Seq::<Row>::empty());
    assert(app::splice(app.events, single) =~= own);
    assert(app.rows() =~= a + own + b);
    lemma_splice_events(app.events, m.take(j));
    lemma_splice_events(app.events, m.skip(j + 1));
    assert forall|k: int| (0 <= k < app.rows().len() && #[trigger] app.rows()[k] == Row::Event(
        i as usize,
    )) == (k == a.len()) by {
        if 0 <= k < a.len() {
            assert(app.rows()[k] == a[k]);
            let front = m.take(j);
            assert(front.contains(a[k].event()));
            let l = choose|l: int| 0 <= l < front.len() && front[l] == a[k].event();
            assert(m[l] < m[j]);
        } else if k == a.len() {
            assert(app.rows()[k] == own[0]);
        } else if k < a.len() + own.len() {
            assert(0 <= k < app.rows().len() ==> app.rows()[k] == own[k - a.len()]);
        } else if k < app.rows().len() {
            assert(app.rows()[k] == b[k - a.len() - own.len()]);
            let r = b[k - a.len() - own.len()];
            let rest = m.skip(j + 1);
            assert(rest.contains(r.event()));
            let l = choose|l: int| 0 <= l < rest.len() && rest[l] == r.event();
            assert(m[j + 1 + l] == r.event());
            assert(m[j] < m[j + 1 + l]);
        }
    }
}

/// Changing what expanding changes of an event changes its own rows alone.
proof fn lemma_rows_changed(app: AppView, i: int, j: int, e: EvView)
    requires
        app.events.len() <= usize::MAX,
        is_place(app, i, j),
        0 <= i < app.events.len(),
        same_but_expansion(app.events[i], e),
    ensures
        is_place(app.with_event(i, e), i, j),
        rows_before(app.with_event(i, e), j) == rows_before(app, j),
        rows_behind(app.with_event(i, e), j) == rows_behind(app, j),
        app.with_event(i, e).rows() == rows_before(app, j) + app::rows_of(e, i as usize)
            + rows_behind(app, j),
{
    let b = app.with_event(i, e);
    let m = app.matching();
    lemma_matching_unmoved(app, i, e);
    app::lemma_matching_ascending(app.events, app.filters, app.events.len() as int);
    assert forall|k: int| 0 <= k < m.take(j).len() implies (#[trigger] m.take(j)[k]) != i
        && m.take(j)[k] < app.events.len() by {
        assert(m.take(j)[k] == m[k]);
        assert(m[k] < m[j]);
    }
    assert forall|k: int| 0 <= k < m.skip(j + 1).len() implies (#[trigger] m.skip(j + 1)[k]) != i
        && m.skip(j + 1)[k] < app.events.len() by {
        assert(m.skip(j + 1)[k] == m[j + 1 + k]);
        assert(m[j] < m[j + 1 + k]);
    }
    lemma_splice_elsewhere(app.events, m.take(j), i, e);
    lemma_splice_elsewhere(app.events, m.skip(j + 1), i, e);
    lemma_rows_around(b, i, j);
}

/// Expanding or collapsing an event that is not shown changes no row.
proof fn lemma_rows_hidden(app: AppView, i: int, e: EvView)
    requires
        app.events.len() <= usize::MAX,
        0 <= i < app.events.len(),
        !app.matching().contains(i as usize),
        same_but_expansion(app.events[i], e),
    ensures
        app.with_event(i, e).rows() == app.rows(),
{
    let m = app.matching();
    lemma_matching_unmoved(app, i, e);
    app::lemma_matching_ascending(app.events, app.filters, app.events.len() as int);
    assert forall|k: int| 0 <= k < m.len() implies (#[trigger] m[k]) != i && m[k]
        < app.events.len() by {
        assert(m.contains(m[k]));
    }
    lemma_splice_elsewhere(app.events, m, i, e);
}

/// Expanding a push puts the rows of its commits directly beneath its row, and
/// leaves every other row where it was, in the same order. Collapsing takes them
/// out again.
pub proof fn law_expanding_splices_commits(app: AppView, i: int, cs: Seq<Seq<char>>)
    requires
        app.events.len() <= usize::MAX,
        app.matching().contains(i as usize),
        0 <= i < app.events.len(),
        app.events[i].commits == Some(cs),
        cs.len() <= usize::MAX,
    ensures
        ({
            let closed = app.with_event(i, EvView { expanded: false, ..app.events[i] });
            let open = app.with_event(i, EvView { expanded: true, ..app.events[i] });
            exists|p: int|
                0 <= p < closed.rows().len() && #[trigger] closed.rows()[p] == Row::Event(
                    i as usize,
                ) && open.rows() == closed.rows().take(p + 1) + Seq::new(
                    cs.len(),
                    |c: int| Row::Commit(i as usize, c as usize),
                ) + closed.rows().skip(p + 1)
        }),
{
    let m = app.matching();
    let j = choose|j: int| 0 <= j < m.len() && m[j] == i as usize;
    let shut = EvView { expanded: false, ..app.events[i] };
    let wide = EvView { expanded: true, ..app.events[i] };
    let closed = app.with_event(i, shut);
    let open = app.with_event(i, wide);
    lemma_rows_changed(app, i, j, shut);
    lemma_rows_changed(app, i, j, wide);
    let (a, b) = (rows_before(app, j), rows_behind(app, j));
    let mine = seq![Row::Event(i as usize)];
    let commits = Seq::new(cs.len(), |c: int| Row::Commit(i as usize, c as usize));
    assert(app::rows_of(shut, i as usize) =~= mine);
    assert(app::rows_of(wide, i as usize) =~= mine + commits);
    let p = a.len() as int;
    assert(closed.rows()[p] == Row::Event(i as usize));
    assert(closed.rows().take(p + 1) =~= a + mine);
    assert(closed.rows().skip(p + 1) =~= b);
    assert(open.rows() =~= a + (mine + commits) + b);
    assert(open.rows() =~= closed.rows().take(p + 1) + commits + closed.rows().skip(p + 1));
}

/// Expanding and collapsing undo each other.
pub proof fn law_toggle_twice_is_nothing(app: AppView, i: int)
    requires
        0 <= i < app.events.len(),
        app.events[i].can_expand(),
        app.events[i].commits is Some,
    ensures
        app.toggle(i).0.toggle(i).0 == app,
        app.toggle(i).0.events[i].expanded == !app.events[i].expanded,
{
    let once = app.toggle(i).0;
    assert(once.toggle(i).0.events =~= app.events);
    assert(once.toggle(i).0 =~= app);
}

/// What was fetched when a push was expanded stays when it is collapsed: its
/// commits, and its count. It is not fetched again.
pub proof fn law_fetched_commits_stay(app: AppView, i: int, reply: ReplyView)
    requires
        0 <= i < app.events.len(),
        app.events[i].can_expand(),
        app.events[i].commits is None,
        !app.events[i].expanded,
    ensures
        ({
            let open = app.toggle_fetched(i, reply);
            let closed = open.toggle(i).0;
            &&& open.events[i].expanded
            &&& !closed.events[i].expanded
            &&& closed.events[i].commits == Some(gh::compared(reply).0)
            &&& closed.events[i].commits == open.events[i].commits
            &&& closed.events[i].commit_count == open.events[i].commit_count
            &&& open.toggle(i).1 == ActionView::Stay
            &&& closed.toggle(i).1 == ActionView::Stay
        }),
{
}

// ---------------------------------------------------------------------------
// The selection
// ---------------------------------------------------------------------------

/// There is a selected row whenever there are rows, and none otherwise.
pub open spec fn selection_ok(app: AppView) -> bool {
    match app.state.selected {
        Some(k) => k < app.rows().len(),
        None => app.rows().len() == 0,
    }
}

/// At the start there is a selected row whenever there are rows.
pub proof fn law_selection_at_start(
    repo: Seq<char>,
    host: Option<Seq<char>>,
    events: Seq<EvView>,
    initial: Seq<char>,
)
    ensures
        selection_ok(app::app_of(repo, host, events, initial)),
{
}

proof fn lemma_toggle_keeps_selection(app: AppView, i: int, k: int)
    requires
        app.events.len() <= usize::MAX,
        0 <= i < app.events.len(),
        0 <= k < app.rows().len(),
        app.rows()[k] == Row::Event(i as usize),
    ensures
        k < app.toggle(i).0.rows().len(),
{
    let m = app.matching();
    let e = app.events[i];
    lemma_splice_events(app.events, m);
    assert(m.contains(app.rows()[k].event()));
    let j = choose|j: int| 0 <= j < m.len() && m[j] == i as usize;
    lemma_rows_around(app, i, j);
    assert(k == rows_before(app, j).len());
    if e.can_expand() && e.commits is Some {
        let f = EvView { expanded: !e.expanded, ..e };
        lemma_rows_changed(app, i, j, f);
        assert(app::rows_of(f, i as usize).len() >= 1);
    }
}

proof fn lemma_reset_selection(app: AppView)
    ensures
        selection_ok(app.reset()),
{
    assert(app.reset().rows() == app.rows());
}

proof fn lemma_moved_selection(app: AppView, delta: int)
    requires
        app.rows().len() <= usize::MAX,
    ensures
        selection_ok(app.moved(delta, app.rows().len())),
{
    assert(app.moved(delta, app.rows().len()).rows() == app.rows());
}

proof fn lemma_toggled_selection(app: AppView)
    requires
        app.events.len() <= usize::MAX,
        selection_ok(app),
    ensures
        app.selected_row() matches Some(Row::Event(i)) ==> selection_ok(app.toggle(i as int).0),
{
    match app.selected_row() {
        Some(Row::Event(i)) => {
            lemma_splice_events(app.events, app.matching());
            let at = app.state.selected->0 as int;
            assert(app.matching().contains(app.rows()[at].event()));
            app::lemma_matching_ascending(app.events, app.filters, app.events.len() as int);
            lemma_toggle_keeps_selection(app, i as int, at);
        },
        _ => {},
    }
}

/// No key loses the selection: whatever is typed, cleared, focused, moved or
/// expanded, there is a selected row whenever there are rows.
pub proof fn law_keys_keep_selection(app: AppView, k: KeyEvent)
    requires
        app.wf(),
        app.events.len() <= usize::MAX,
        app.rows().len() <= usize::MAX,
        selection_ok(app),
    ensures
        selection_ok(input::key_step(app, k).0),
{
    let a = AppView { status: None, ..app };
    let b = input::key_step(app, k).0;
    assert(a.rows() == app.rows());
    assert(selection_ok(a));
    match k.code {
        KeyCode::Enter => lemma_toggled_selection(a),
        KeyCode::Down => lemma_moved_selection(a, 1),
        KeyCode::Up => lemma_moved_selection(a, -1),
        KeyCode::PageDown => lemma_moved_selection(a, 10),
        KeyCode::PageUp => lemma_moved_selection(a, -10),
        KeyCode::Home => lemma_moved_selection(a, -input::far() - 1),
        KeyCode::End => lemma_moved_selection(a, input::far()),
        KeyCode::Tab => assert(b.rows() == a.rows()),
        KeyCode::BackTab => assert(b.rows() == a.rows()),
        KeyCode::Esc => lemma_reset_selection(AppView { filters: input::no_filters(), ..a }),
        KeyCode::Backspace => {
            let old = a.filters[a.active as int];
            let new = if old.len() > 0 {
                old.drop_last()
            } else {
                old
            };
            let filters = a.filters.update(a.active as int, new);
            lemma_reset_selection(AppView { filters, ..a });
        },
        KeyCode::Char(c) => {
            if k.modifiers == input::CONTROL {
                match a.selected_row() {
                    Some(row) => {
                        let key = a.events[row.event() as int].key();
                        let filters = input::no_filters().update(0, key);
                        let f = AppView { filters, active: 0, ..a };
                        lemma_reset_selection(f);
                        let g = input::focused(a, row.event() as int);
                        assert(g.rows() == f.reset().rows());
                        assert(selection_ok(g));
                    },
                    None => {},
                }
            } else {
                let filters = a.filters.update(
                    a.active as int,
                    a.filters[a.active as int].push(c),
                );
                lemma_reset_selection(AppView { filters, ..a });
            }
        },
        KeyCode::Other => {},
    }
}

proof fn lemma_row_click_selection(app: AppView, k: int, x: int, now: u64)
    requires
        app.events.len() <= usize::MAX,
        app.rows().len() <= usize::MAX,
        0 <= k < app.rows().len(),
    ensures
        selection_ok(input::row_click(app, k, x, now).0),
{
    let a = app.select(Some(k as usize));
    assert(a.rows() == app.rows());
    assert(selection_ok(a));
    if input::in_column(a, 0, x) || input::doubled(a, k, now) {
        lemma_toggled_selection(a);
        let b = input::toggle_row(a, a.rows()[k]).0;
        assert(selection_ok(b));
        assert(AppView { last_click: None, ..b }.rows() == b.rows());
    } else {
        assert(AppView { last_click: Some((now, k as usize)), ..a }.rows() == a.rows());
    }
}

proof fn lemma_press_selection(app: AppView, x: int, y: int, now: u64)
    requires
        app.events.len() <= usize::MAX,
        app.rows().len() <= usize::MAX,
        selection_ok(app),
    ensures
        selection_ok(input::press(app, x, y, now).0),
{
    let b = input::press(app, x, y, now).0;
    let k = y - app.table_area.y - 1 + app.state.offset;
    if input::on_chart(app, x, y) {
        let at = x - app.spark_area.x;
        if at < app.spark_days.len() {
            chart_laws::lemma_day_row(app.rows(), app.events, app.spark_days[at], 0);
        }
        assert(b.rows() == app.rows());
    } else if input::edge_hit(app, x) is None && y > app.table_area.y && k < app.rows().len() {
        lemma_row_click_selection(app, k, x, now);
    } else {
        assert(b.rows() == app.rows());
    }
}

/// Nor does the mouse lose the selection.
pub proof fn law_mouse_keeps_selection(app: AppView, m: MouseEvent, now: u64)
    requires
        app.wf(),
        app.events.len() <= usize::MAX,
        app.rows().len() <= usize::MAX,
        selection_ok(app),
    ensures
        selection_ok(input::mouse_step(app, m, now).0),
{
    let b = input::mouse_step(app, m, now).0;
    match m.kind {
        MouseKind::ScrollUp => lemma_moved_selection(app, -3),
        MouseKind::ScrollDown => lemma_moved_selection(app, 3),
        MouseKind::Down => lemma_press_selection(app, m.column as int, m.row as int, now),
        MouseKind::Drag => assert(b.rows() == app.rows()),
        MouseKind::Up => assert(b.rows() == app.rows()),
        MouseKind::Other => {},
    }
}

/// Nor does fetching commits: the selected row stays in the table when the rows of
/// a push's commits come in.
pub proof fn law_fetching_keeps_selection(app: AppView, i: int, reply: ReplyView)
    requires
        app.events.len() <= usize::MAX,
        0 <= i < app.events.len(),
        app.events[i].commits is None,
        selection_ok(app),
    ensures
        selection_ok(app.toggle_fetched(i, reply)),
{
    let m = app.matching();
    let after = app.toggle_fetched(i, reply);
    let e = after.events[i];
    assert(same_but_expansion(app.events[i], e));
    assert(after == app.with_event(i, e));
    if m.contains(i as usize) {
        let j = choose|j: int| 0 <= j < m.len() && m[j] == i as usize;
        lemma_rows_around(app, i, j);
        lemma_rows_changed(app, i, j, e);
        assert(app::rows_of(app.events[i], i as usize).len() == 1);
        assert(app::rows_of(e, i as usize).len() >= 1);
    } else {
        lemma_rows_hidden(app, i, e);
    }
}

/// Drawing the screen changes neither the rows nor the selection.
pub proof fn law_drawing_keeps_selection(app: AppView, areas: Chunks)
    requires
        selection_ok(app),
    ensures
        selection_ok(screen::laid_out(app, areas)),
        screen::laid_out(app, areas).rows() == app.rows(),
        screen::laid_out(app, areas).state == app.state,
{
    assert(screen::laid_out(app, areas).rows() == app.rows());
}

// ---------------------------------------------------------------------------
// Keys
// ---------------------------------------------------------------------------

/// A key without modifiers.
pub open spec fn bare(code: KeyCode) -> KeyEvent {
    KeyEvent { modifiers: input::NONE, code }
}

/// The state after a key.
pub open spec fn after_key(app: AppView, code: KeyCode) -> AppView {
    input::key_step(app, bare(code)).0
}

/// `Tab` and `Shift-Tab` undo each other, and `Tab` goes through all filters and
/// comes back to the first.
pub proof fn law_tab_goes_round(app: AppView)
    requires
        app.wf(),
        app.status is None,
    ensures
        after_key(after_key(app, KeyCode::Tab), KeyCode::BackTab) == app,
        after_key(after_key(app, KeyCode::BackTab), KeyCode::Tab) == app,
        after_key(app, KeyCode::Tab).active == (if app.active == FILTERS - 1 {
            0
        } else {
            app.active + 1
        }),
{
}

/// `Home` selects the first row and `End` the last.
pub proof fn law_home_and_end(app: AppView)
    requires
        selection_ok(app),
        0 < app.rows().len() <= input::far(),
    ensures
        after_key(app, KeyCode::Home).state.selected == Some(0usize),
        after_key(app, KeyCode::End).state.selected == Some((app.rows().len() - 1) as usize),
{
    let a = AppView { status: None, ..app };
    assert(a.rows() == app.rows());
}

/// `Esc` never quits while a filter hides rows: it clears all of them first, and
/// then every event is shown. A second `Esc` quits.
pub proof fn law_esc_clears_then_quits(app: AppView)
    requires
        app.wf(),
        app.events.len() <= usize::MAX,
        !input::unfiltered(app),
    ensures
        input::key_step(app, bare(KeyCode::Esc)).1 == ActionView::Stay,
        after_key(app, KeyCode::Esc).matching() == Seq::new(
            app.events.len(),
            |i: int| i as usize,
        ),
        input::key_step(after_key(app, KeyCode::Esc), bare(KeyCode::Esc)).1 == ActionView::Quit,
{
    let b = after_key(app, KeyCode::Esc);
    assert(b.filters == input::no_filters());
    assert forall|col: int| 0 <= col < b.filters.len() implies (#[trigger] b.filters[col]).len()
        == 0 by {}
    law_no_filter_shows_all(b);
}

/// A double click on a row, and a click on its arrow, do what `Enter` does when the
/// row is selected.
pub proof fn law_double_click_is_enter(app: AppView, m: MouseEvent, now: u64, k: usize)
    requires
        app.table_area.height > 0,
        m.kind == MouseKind::Down,
        !input::on_chart(app, m.column as int, m.row as int),
        input::edge_hit(app, m.column as int) is None,
        m.row > app.table_area.y,
        k == m.row - app.table_area.y - 1 + app.state.offset,
        k < app.rows().len(),
        input::in_column(app, 0, m.column as int) || input::doubled(app, k as int, now),
    ensures
        input::mouse_step(app, m, now).1 == input::key_step(
            app.select(Some(k)),
            bare(KeyCode::Enter),
        ).1,
        input::mouse_step(app, m, now).0 == (AppView {
            last_click: None,
            status: app.status,
            ..after_key(app.select(Some(k)), KeyCode::Enter)
        }),
{
    let a = app.select(Some(k));
    let b = AppView { status: None, ..a };
    assert(a.rows() == app.rows());
    assert(b.rows() == app.rows());
    match app.rows()[k as int] {
        Row::Event(i) => {
            assert(a.toggle(i as int).1 == b.toggle(i as int).1);
        },
        Row::Commit(_, _) => {},
    }
}

/// Typing a character and erasing it gives the same filters back.
pub proof fn law_erasing_undoes_typing(app: AppView, c: char)
    requires
        app.wf(),
    ensures
        after_key(after_key(app, KeyCode::Char(c)), KeyCode::Backspace).filters == app.filters,
{
    let b = after_key(app, KeyCode::Char(c));
    let at = app.active as int;
    assert(b.filters[at].drop_last() =~= app.filters[at]);
    assert(after_key(b, KeyCode::Backspace).filters =~= app.filters);
}

// ---------------------------------------------------------------------------
// Copying
// ---------------------------------------------------------------------------

/// How copying ends when it has come to the program with index `n`, and `starts`
/// says which of the programs can be started.
pub open spec fn copied_from(starts: Seq<bool>, n: int) -> bool
    decreases starts.len() - n,
{
    if n < 0 || n >= starts.len() {
        false
    } else {
        match input::copy_step(n, starts[n]) {
            Copying::Done(ok) => ok,
            Copying::Try(m) => if m > n {
                copied_from(starts, m as int)
            } else {
                false
            },
        }
    }
}

/// A text is copied exactly when one of the clipboard programs can be started, and
/// each is tried only after all before it could not be.
pub proof fn law_copying_needs_one_program(starts: Seq<bool>)
    requires
        starts.len() == input::clipboard_tools().len(),
    ensures
        copied_from(starts, 0) <==> exists|k: int| 0 <= k < starts.len() && starts[k],
        forall|n: int|
            0 <= n < starts.len() && #[trigger] input::copy_step(n, starts[n]) is Try ==> !starts[n]
                && input::copy_step(n, starts[n]) == Copying::Try((n + 1) as usize),
{
    reveal_with_fuel(copied_from, 4);
    if starts[0] || starts[1] || starts[2] {
    } else {
        assert forall|k: int| 0 <= k < starts.len() implies !starts[k] by {
            assert(k == 0 || k == 1 || k == 2);
        }
    }
}

// ---------------------------------------------------------------------------
// Focusing
// ---------------------------------------------------------------------------

/// `Ctrl-F` on a row shows the thread of the row's event: its key stands in the
/// filter on everything, the other filters are empty, and the first row is
/// selected. The event itself is always shown, whatever its key holds.
pub proof fn law_focus_keeps_the_row(app: AppView, row: Row)
    requires
        app.wf(),
        app.events.len() <= usize::MAX,
        app.selected_row() == Some(row),
        app.events[row.event() as int].wf(),
    ensures
        ({
            let (after, action) = input::key_step(
                app,
                KeyEvent { modifiers: input::CONTROL, code: KeyCode::Char('f') },
            );
            let key = app.events[row.event() as int].key();
            &&& action == ActionView::Stay
            &&& after.filters == seq![key, seq![], seq![], seq![], seq![]]
            &&& after.active == 0
            &&& after.status == Some("focused: "@ + key)
            &&& after.state.selected == Some(0usize)
            &&& after.events == app.events
            &&& after.matching().contains(row.event())
        }),
{
    let i = row.event() as int;
    let a = AppView { status: None, ..app };
    lemma_rows_in_range(app);
    assert(a.rows() == app.rows());
    let b = input::focused(a, i);
    let e = app.events[i];
    let key = e.key();
    assert(b.filters =~= seq![key, seq![], seq![], seq![], seq![]]);
    assert forall|col: int| 0 <= col < b.filters.len() implies app::has_all(
        app::haystack(e, col),
        app::needles(#[trigger] b.filters[col]),
    ) by {
        if col == 0 {
            let needles = app::needles(key);
            assert forall|k: int| 0 <= k < needles.len() implies text::occurs(
                e.search,
                #[trigger] needles[k],
            ) by {
                assert(needles[k] == text::lower(text::words(key)[k]));
            }
        } else {
            assert(b.filters[col] =~= Seq::<char>::empty());
        }
    }
    assert(app::shows(b.events[i], b.filters));
    law_shown_are_those_that_match(b);
    let m = b.matching();
    assert(m.contains(row.event()));
    let j = choose|j: int| 0 <= j < m.len() && m[j] == row.event();
    lemma_rows_around(b, i, j);
    let f = AppView { filters: b.filters, active: 0, ..a };
    assert(f.rows() == b.rows());
}

/// No key changes what an event is found by, and neither does the mouse nor a reply
/// with commits: an event that its key finds stays one.
pub proof fn law_events_stay_found(app: AppView, k: KeyEvent, m: MouseEvent, now: u64)
    requires
        app.wf(),
        app.events.len() <= usize::MAX,
        event::all_wf(app.events),
    ensures
        event::all_wf(input::key_step(app, k).0.events),
        event::all_wf(input::mouse_step(app, m, now).0.events),
{
    assert forall|i: int| 0 <= i < app.events.len() implies event::all_wf(
        #[trigger] app.toggle(i).0.events,
    ) by {
        lemma_toggle_found(app, i);
    }
    let a = AppView { status: None, ..app };
    lemma_rows_in_range(app);
    lemma_rows_in_range(a);
    match k.code {
        KeyCode::Enter => match a.selected_row() {
            Some(Row::Event(i)) => lemma_toggle_found(a, i as int),
            _ => {},
        },
        _ => {},
    }
    let at = m.row - app.table_area.y - 1 + app.state.offset;
    if 0 <= at < app.rows().len() {
        let b = app.select(Some(at as usize));
        assert(b.rows() == app.rows());
        match b.rows()[at] {
            Row::Event(i) => lemma_toggle_found(b, i as int),
            Row::Commit(_, _) => {},
        }
    }
}

/// A reply with commits changes no event's texts either.
pub proof fn law_fetching_keeps_events_found(app: AppView, i: int, reply: ReplyView)
    requires
        0 <= i < app.events.len(),
        event::all_wf(app.events),
    ensures
        event::all_wf(app.toggle_fetched(i, reply).events),
{
    let e = app.toggle_fetched(i, reply).events[i];
    assert(e.wf()) by {
        assert(app.events[i].wf());
        assert(e.key() == app.events[i].key());
    }
}

proof fn lemma_toggle_found(app: AppView, i: int)
    requires
        0 <= i < app.events.len(),
        event::all_wf(app.events),
    ensures
        event::all_wf(app.toggle(i).0.events),
{
    let e = EvView { expanded: !app.events[i].expanded, ..app.events[i] };
    assert(e.wf()) by {
        assert(app.events[i].wf());
        assert(e.key() == app.events[i].key());
    }
}

proof fn lemma_rows_in_range(app: AppView)
    requires
        app.events.len() <= usize::MAX,
    ensures
        forall|k: int|
            0 <= k < app.rows().len() ==> (#[trigger] app.rows()[k]).event() < app.events.len(),
{
    let m = app.matching();
    lemma_splice_events(app.events, m);
    app::lemma_matching_ascending(app.events, app.filters, app.events.len() as int);
    assert forall|k: int| 0 <= k < app.rows().len() implies (#[trigger] app.rows()[k]).event()
        < app.events.len() by {
        let row = app.rows()[k];
        assert(m.contains(row.event()));
        let j = choose|j: int| 0 <= j < m.len() && m[j] == row.event();
        assert(m[j] < app.events.len());
    }
}

}
