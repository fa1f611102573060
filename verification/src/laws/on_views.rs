//! What the contracts say of a value is said of all that it holds.
use crate::app::{Action, ActionView, App};
use crate::cli;
use crate::cli::{Cli, Invocation, InvocationView};
use crate::event;
use crate::event::Ev;
use crate::feed::{Activity, FeedItem, TimelineItem};
use crate::gh;
use crate::gh::{Commit, Reply, ReplyView};
use crate::json;
use crate::json::Json;
use crate::load;
use crate::load::Loader;
use crate::screen;
use crate::screen::{Screen, Span};
use crate::text;
use vstd::prelude::*;

verus! {

/// An event holds its fields, and a list of events its events.
pub proof fn law_events_hold_their_fields(e: Ev, evs: Seq<Ev>, k: int)
    requires
        0 <= k < evs.len(),
    ensures
        e@.day == e.day@ && e@.time == e.time@ && e@.ts == e.ts@,
        e@.actor == e.actor@ && e@.label == e.label@ && e@.detail == e.detail@,
        e@.glyph == e.glyph && e@.color == e.color && e@.search == e.search@,
        e@.before == e.before@ && e@.after == e.after@,
        e@.commit_count == e.commit_count && e@.expanded == e.expanded,
        e.commits is None ==> e@.commits is None,
        e.commits is Some ==> e@.commits == Some(text::texts(e.commits->0@)),
        event::views(evs).len() == evs.len(),
        event::views(evs)[k] == evs[k]@,
{
}

/// The state holds its fields.
pub proof fn law_state_holds_its_fields(app: App)
    ensures
        app@.repo == app.repo@ && app@.host == text::opt_text(app.host),
        app@.events == event::views(app.events@),
        app@.filters.len() == 5,
        forall|c: int| 0 <= c < 5 ==> (#[trigger] app@.filters[c]) == app.filters@[c]@,
        app@.active == app.active && app@.col_w == app.col_w@ && app@.state == app.state,
        app@.table_area == app.table_area && app@.spark_area == app.spark_area,
        app@.spark_days == text::texts(app.spark_days@),
        app@.drag == app.drag && app@.last_click == app.last_click,
        app@.status == text::opt_text(app.status),
{
}

/// An action holds what is to be done with what.
pub proof fn law_actions_hold_their_arguments(t: String, i: usize, args: Vec<String>)
    ensures
        Action::Stay@ == ActionView::Stay,
        Action::Quit@ == ActionView::Quit,
        Action::Copy(t)@ == ActionView::Copy(t@),
        Action::Open(args)@ == ActionView::Open(text::texts(args@)),
        (Action::Fetch { event: i, args })@ == (ActionView::Fetch {
            event: i,
            args: text::texts(args@),
        }),
{
}

/// A command line holds the repository, the host and the filter.
pub proof fn law_command_lines_hold_their_parts(c: Cli, host: Option<String>, filter: String)
    ensures
        c@.repo == c.repo@ && c@.host == text::opt_text(c.host) && c@.filter == c.filter@,
        Invocation::Run(c)@ == InvocationView::Run(c@),
        (Invocation::Lookup { host, filter })@ == (InvocationView::Lookup {
            host: text::opt_text(host),
            filter: filter@,
        }),
        Invocation::Help@ == InvocationView::Help,
        Invocation::Version@ == InvocationView::Version,
        cli::looked_up_view(Ok(c)) == Ok::<cli::CliView, Seq<char>>(c@),
        cli::looked_up_view(Err(filter)) == Err::<cli::CliView, Seq<char>>(filter@),
{
}

/// The entries of the lists hold their fields.
pub proof fn law_entries_hold_their_fields(a: Activity, f: FeedItem, t: TimelineItem)
    ensures
        a@.kind == a.kind@ && a@.ref_name == a.ref_name@ && a@.login == a.login@,
        a@.ts == a.ts@ && a@.before == a.before@ && a@.after == a.after@,
        f@.kind == f.kind@ && f@.action == f.action@ && f@.issue == f.issue && f@.pull == f.pull,
        f@.head == f.head@ && f@.forkee == f.forkee@ && f@.tag == f.tag@,
        f@.login == f.login@ && f@.ts == f.ts@,
        t@.event == t.event@ && t@.login == t.login@ && t@.ts == t.ts@,
        t@.user == text::opt_text(t.user) && t@.team == text::opt_text(t.team),
{
}

/// A reply holds what the program wrote, or why it did not run; a loader what it has
/// to ask for and what it has.
pub proof fn law_replies_hold_their_output(
    success: bool,
    stdout: Vec<u8>,
    stderr: Vec<u8>,
    why: String,
    l: Loader,
)
    ensures
        (Reply::Output { success, stdout, stderr })@ == (ReplyView::Output {
            success,
            stdout: stdout@,
            stderr: stderr@,
        }),
        Reply::NotRun(why)@ == ReplyView::NotRun(why@),
        l@.repo == l.repo@ && l@.host == text::opt_text(l.host) && l@.stage == l.stage,
        l@.evs == event::views(l.evs@) && l@.pulls == l.pulls@,
{
}

/// A commit holds its id and its message, and a list of commits its commits.
pub proof fn law_commits_hold_their_fields(c: Commit, cs: Seq<Commit>, n: usize, k: int)
    requires
        0 <= k < cs.len(),
    ensures
        c@.sha == c.sha@ && c@.message == c.message@,
        gh::commit_views(cs).len() == cs.len(),
        gh::commit_views(cs)[k] == cs[k]@,
        gh::opt_nat(Some(n)) == Some(n as nat),
        gh::opt_nat(None) is None,
{
}

/// The screen holds its parts.
pub proof fn law_screen_holds_its_parts(r: Screen)
    ensures
        r@.areas == r.areas && r@.bright == r.bright && r@.notice == r.notice,
        r@.chart_title == r.chart_title@ && r@.rules == r.rules@,
        r@.title == screen::line(r.title@) && r@.header == screen::line(r.header@),
        r@.footer == screen::line(r.footer@) && r@.rows == screen::table(r.rows@),
        r@.bars.len() == r.bars@.len(),
        forall|k: int| 0 <= k < r.bars@.len() ==> (#[trigger] r@.bars[k]) == r.bars@[k],
        r.axis is None ==> r@.axis is None,
        r.axis is Some ==> r@.axis == Some(((r.axis->0).0@, (r.axis->0).1)),
{
}

/// Lines, rows and tables hold their pieces, each in its place.
pub proof fn law_lines_hold_their_pieces(
    s: Span,
    spans: Seq<Span>,
    row: Seq<Vec<Span>>,
    rows: Seq<Vec<Vec<Span>>>,
    k: int,
)
    ensures
        s@.text == s.text@ && s@.style == s.style,
        screen::line(spans).len() == spans.len(),
        screen::cells(row).len() == row.len(),
        screen::table(rows).len() == rows.len(),
        0 <= k < spans.len() ==> screen::line(spans)[k] == spans[k]@,
        0 <= k < row.len() ==> screen::cells(row)[k] == screen::line(row[k]@),
        0 <= k < rows.len() ==> screen::table(rows)[k] == screen::cells(rows[k]@),
{
}

/// Days hold their names and counts, each in its place.
pub proof fn law_days_hold_their_counts(days: Seq<(String, u64)>, k: int)
    requires
        0 <= k < days.len(),
    ensures
        screen::days_view(days).len() == days.len(),
        screen::days_view(days)[k] == (days[k].0@, days[k].1 as nat),
{
}

/// Optional lists of texts are the lists of their texts, and are there where the
/// lists are.
pub proof fn law_optional_texts_are_the_texts(args: Vec<String>, t: String)
    ensures
        load::opt_args(Some(args)) == Some(text::texts(args@)),
        load::opt_args(None) is None,
        event::opt_texts(Some(args)) == Some(text::texts(args@)),
        event::opt_texts(None) is None,
        text::opt_text(Some(t)) == Some(t@),
        text::opt_text(None) is None,
{
}

/// A member of an object is the value under its key; what is no object has none. A
/// text is that of a string and an integer that of a number, and of nothing else.
pub proof fn law_members_stand_under_their_keys(
    m: Map<Seq<char>, Json>,
    j: Json,
    key: Seq<char>,
    t: Seq<char>,
    n: Option<i64>,
)
    ensures
        json::member(Json::Object(m), key) is Some <==> m.dom().contains(key),
        m.dom().contains(key) ==> json::member(Json::Object(m), key) == Some(m[key]),
        !(j is Object) ==> json::member(j, key) is None,
        json::down(Some(j), key) == json::member(j, key),
        json::down(None, key) is None,
        json::text_of(Some(Json::Text(t))) == Some(t),
        json::text_or_empty(Some(Json::Text(t))) == t,
        !(j is Text) ==> json::text_of(Some(j)) is None && json::text_or_empty(Some(j)).len() == 0,
        json::text_of(None) is None && json::text_or_empty(None).len() == 0,
        json::integer_of(Some(Json::Number(n))) == n,
        !(j is Number) ==> json::integer_of(Some(j)) is None,
        json::integer_of(None) is None,
{
}

}
