//! Loading a repository's history: which calls to make, in which order, and the
//! sorted list of events that comes of their replies.
use crate::event;
use crate::event::{Ev, EvView};
use crate::feed;
use crate::feed::{activity_events, feed_events, review_events};
use crate::gh;
use crate::gh::{
    activity_request, events_request, fetch_reviews_request, gh_lines_reply, Reply, ReplyView,
};
use crate::json::Json;
use crate::text;
use crate::text::is_before;
use vstd::prelude::*;
use vstd::string::*;

verus! {

// ---------------------------------------------------------------------------
// Sorting
// ---------------------------------------------------------------------------

/// No event stands before a newer one.
pub open spec fn newest_first(evs: Seq<EvView>) -> bool {
    forall|i: int, j: int| 0 <= i < j < evs.len() ==> !text::precedes(evs[i].ts, evs[j].ts)
}

/// The events with a given time stamp, in order.
pub open spec fn at_time(evs: Seq<EvView>, ts: Seq<char>) -> Seq<EvView>
    decreases evs.len(),
{
    if evs.len() == 0 {
        seq![]
    } else if evs.last().ts == ts {
        at_time(evs.drop_last(), ts).push(evs.last())
    } else {
        at_time(evs.drop_last(), ts)
    }
}

/// `sorted` has the events of `evs`, newest first; events of the same time are in
/// the order in which they stood. There is just one such list.
pub open spec fn sorted_from(sorted: Seq<EvView>, evs: Seq<EvView>) -> bool {
    &&& newest_first(sorted)
    &&& forall|ts: Seq<char>| #[trigger] at_time(sorted, ts) == at_time(evs, ts)
}

proof fn lemma_at_time_concat(a: Seq<EvView>, b: Seq<EvView>, ts: Seq<char>)
    ensures
        at_time(a + b, ts) == at_time(a, ts) + at_time(b, ts),
    decreases b.len(),
{
    if b.len() == 0 {
        assert(a + b =~= a);
        assert(at_time(a, ts) + at_time(b, ts) =~= at_time(a, ts));
    } else {
        lemma_at_time_concat(a, b.drop_last(), ts);
        assert((a + b).drop_last() =~= a + b.drop_last());
        assert((a + b).last() == b.last());
        assert(at_time(a + b, ts) =~= at_time(a, ts) + at_time(b, ts));
    }
}

proof fn lemma_at_time_none(b: Seq<EvView>, ts: Seq<char>)
    requires
        forall|k: int| 0 <= k < b.len() ==> b[k].ts != ts,
    ensures
        at_time(b, ts) == Seq::<EvView>::empty(),
    decreases b.len(),
{
    if b.len() > 0 {
        lemma_at_time_none(b.drop_last(), ts);
    }
}

/// Putting an event behind all that are not older keeps the order, and puts it
/// last among those of its time.
proof fn lemma_insert(evs: Seq<EvView>, j: int, e: EvView)
    requires
        newest_first(evs),
        0 <= j <= evs.len(),
        j > 0 ==> !text::precedes(evs[j - 1].ts, e.ts),
        forall|k: int| j <= k < evs.len() ==> text::precedes(#[trigger] evs[k].ts, e.ts),
    ensures
        newest_first(evs.insert(j, e)),
        forall|ts: Seq<char>| #[trigger]
            at_time(evs.insert(j, e), ts) == (if e.ts == ts {
                at_time(evs, ts).push(e)
            } else {
                at_time(evs, ts)
            }),
{
    let r = evs.insert(j, e);
    assert forall|a: int, b: int| 0 <= a < b < r.len() implies !text::precedes(
        r[a].ts,
        r[b].ts,
    ) by {
        if b < j {
            assert(r[a] == evs[a] && r[b] == evs[b]);
        } else if b == j {
            assert(r[a] == evs[a] && r[b] == e);
            if a < j - 1 {
                lemma_not_before(evs[a].ts, evs[j - 1].ts, e.ts);
            }
        } else if a < j {
            assert(r[a] == evs[a] && r[b] == evs[b - 1]);
        } else if a == j {
            assert(r[a] == e && r[b] == evs[b - 1]);
            if text::precedes(e.ts, evs[b - 1].ts) {
                text::lemma_precedes_transitive(e.ts, evs[b - 1].ts, e.ts);
                text::lemma_precedes_irreflexive(e.ts);
            }
        } else {
            assert(r[a] == evs[a - 1] && r[b] == evs[b - 1]);
        }
    }
    let head = evs.take(j);
    let tail = evs.skip(j);
    assert forall|ts: Seq<char>| #[trigger] at_time(r, ts) == (if e.ts == ts {
        at_time(evs, ts).push(e)
    } else {
        at_time(evs, ts)
    }) by {
        assert(r =~= head + (seq![e] + tail));
        assert(evs =~= head + tail);
        lemma_at_time_concat(head, seq![e] + tail, ts);
        lemma_at_time_concat(seq![e], tail, ts);
        lemma_at_time_concat(head, tail, ts);
        assert(seq![e].drop_last() =~= Seq::<EvView>::empty());
        assert(at_time(Seq::<EvView>::empty(), ts) =~= Seq::<EvView>::empty());
        assert(at_time(seq![e], ts) =~= if e.ts == ts {
            seq![e]
        } else {
            seq![]
        });
        if e.ts == ts {
            assert forall|k: int| 0 <= k < tail.len() implies tail[k].ts != ts by {
                assert(tail[k] == evs[j + k]);
                text::lemma_precedes_irreflexive(ts);
            }
            lemma_at_time_none(tail, ts);
            assert(at_time(r, ts) =~= at_time(evs, ts).push(e));
        } else {
            assert(at_time(r, ts) =~= at_time(evs, ts));
        }
    }
}

/// What is not before a string is not before what that string is not before.
proof fn lemma_not_before(a: Seq<char>, b: Seq<char>, c: Seq<char>)
    requires
        !text::precedes(a, b),
        !text::precedes(b, c),
    ensures
        !text::precedes(a, c),
{
    if text::precedes(a, c) {
        text::lemma_precedes_total(a, b);
        if text::precedes(b, a) {
            text::lemma_precedes_transitive(b, a, c);
        }
    }
}

/// Sorts events, newest first. Events of the same time keep their order.
pub fn sort_events(evs: Vec<Ev>) -> (r: Vec<Ev>)
    ensures
        sorted_from(event::views(r@), event::views(evs@)),
{
    let ghost all = event::views(evs@);
    let mut out: Vec<Ev> = Vec::new();
    assert forall|ts: Seq<char>| #[trigger]
        at_time(event::views(out@), ts) == at_time(all.take(0), ts) by {
        assert(event::views(out@) =~= all.take(0));
    }
    for e in it: evs
        invariant
            it.seq() == evs@,
            all == event::views(evs@),
            newest_first(event::views(out@)),
            forall|ts: Seq<char>| #[trigger]
                at_time(event::views(out@), ts) == at_time(all.take(it.index() as int), ts),
    {
        let ghost start = out@;
        let ghost i = it.index() as int;
        let mut j: usize = out.len();
        while j > 0 && is_before(out[j - 1].ts.as_str(), e.ts.as_str())
            invariant
                j <= out@.len(),
                forall|k: int|
                    j <= k < out@.len() ==> text::precedes(
                        #[trigger] event::views(out@)[k].ts,
                        e@.ts,
                    ),
            decreases j,
        {
            j -= 1;
        }
        proof {
            lemma_insert(event::views(start), j as int, e@);
            assert(all.take(i + 1).drop_last() =~= all.take(i));
            assert(all.take(i + 1).last() == e@);
        }
        out.insert(j, e);
        assert(event::views(out@) =~= event::views(start).insert(j as int, e@));
    }
    assert(all.take(all.len() as int) =~= all);
    out
}

// ---------------------------------------------------------------------------
// The calls
// ---------------------------------------------------------------------------

/// Which call comes next.
#[derive(Clone, Copy, PartialEq, Eq, Structural, Debug)]
pub enum Stage {
    /// The list of branch changes.
    Activity,
    /// The list of events.
    Events,
    /// The timeline of the pull request with the given index; past the last one
    /// there are no more calls.
    Timeline(usize),
}

/// The history of a repository while it is being loaded.
pub struct Loader {
    pub repo: String,
    pub host: Option<String>,
    pub stage: Stage,
    /// The events that have been read.
    pub evs: Vec<Ev>,
    /// The pull requests whose timelines are to be read.
    pub pulls: Vec<i64>,
}

/// What a loader holds.
#[verifier::ext_equal]
pub struct LoaderView {
    pub repo: Seq<char>,
    pub host: Option<Seq<char>>,
    pub stage: Stage,
    pub evs: Seq<EvView>,
    pub pulls: Seq<i64>,
}

impl View for Loader {
    type V = LoaderView;

    open spec fn view(&self) -> LoaderView {
        LoaderView {
            repo: self.repo@,
            host: text::opt_text(self.host),
            stage: self.stage,
            evs: event::views(self.evs@),
            pulls: self.pulls@,
        }
    }
}

/// A loader before its first call.
pub open spec fn fresh(repo: Seq<char>, host: Option<Seq<char>>) -> LoaderView {
    LoaderView { repo, host, stage: Stage::Activity, evs: seq![], pulls: seq![] }
}

/// The values of a reply; none where the call failed.
pub open spec fn listed_or_none(reply: ReplyView) -> Seq<Json> {
    match gh::listed(reply) {
        Ok(js) => js,
        Err(_) => seq![],
    }
}

impl LoaderView {
    /// The arguments of the next call; none when all calls have been made.
    pub open spec fn next(self) -> Option<Seq<Seq<char>>> {
        match self.stage {
            Stage::Activity => Some(gh::list_args(self.host, gh::activity_path(self.repo))),
            Stage::Events => Some(gh::list_args(self.host, gh::events_path(self.repo))),
            Stage::Timeline(n) => if n < self.pulls.len() {
                Some(
                    gh::list_args(
                        self.host,
                        gh::timeline_path(self.repo, self.pulls[n as int] as int),
                    ),
                )
            } else {
                None
            },
        }
    }

    /// The loader after the reply to its next call. Without the branch changes
    /// there is no history, so there a failed call ends the loading. The other
    /// calls only add to it: one that failed adds nothing.
    pub open spec fn after(self, reply: ReplyView) -> Result<LoaderView, Seq<char>> {
        match self.stage {
            Stage::Activity => match gh::listed(reply) {
                Ok(js) => Ok(
                    LoaderView {
                        stage: Stage::Events,
                        evs: self.evs + feed::activity_rows(js),
                        ..self
                    },
                ),
                Err(e) => Err(e),
            },
            Stage::Events => Ok(
                LoaderView {
                    stage: Stage::Timeline(0),
                    evs: self.evs + feed::feed_rows(listed_or_none(reply)),
                    pulls: feed::feed_pulls(listed_or_none(reply)),
                    ..self
                },
            ),
            Stage::Timeline(n) => if n < self.pulls.len() {
                Ok(
                    LoaderView {
                        stage: Stage::Timeline((n + 1) as usize),
                        evs: self.evs + feed::review_rows(
                            self.pulls[n as int] as int,
                            listed_or_none(reply),
                        ),
                        ..self
                    },
                )
            } else {
                Ok(self)
            },
        }
    }
}

/// The texts of optional arguments.
pub open spec fn opt_args(o: Option<Vec<String>>) -> Option<Seq<Seq<char>>> {
    match o {
        Some(v) => Some(text::texts(v@)),
        None => None,
    }
}

proof fn lemma_views_append(a: Seq<Ev>, b: Seq<Ev>)
    ensures
        event::views(a + b) == event::views(a) + event::views(b),
{
    assert(event::views(a + b) =~= event::views(a) + event::views(b));
}

impl Loader {
    /// A loader for a repository, before its first call.
    pub fn new(repo: String, host: Option<String>) -> (r: Loader)
        ensures
            r@ == fresh(repo@, text::opt_text(host)),
            event::all_wf(r@.evs),
    {
        let r = Loader { repo, host, stage: Stage::Activity, evs: Vec::new(), pulls: Vec::new() };
        assert(r@ =~= fresh(repo@, text::opt_text(host)));
        r
    }

    /// The arguments of the next call of `gh`, if there is one to make.
    pub fn request(&self) -> (r: Option<Vec<String>>)
        ensures
            opt_args(r) == self@.next(),
    {
        match self.stage {
            Stage::Activity => Some(activity_request(&self.host, self.repo.as_str())),
            Stage::Events => Some(events_request(&self.host, self.repo.as_str())),
            Stage::Timeline(n) => if n < self.pulls.len() {
                Some(fetch_reviews_request(&self.host, self.repo.as_str(), self.pulls[n]))
            } else {
                None
            },
        }
    }

    /// Takes the reply to the call that [`Loader::request`] asked for. On an error
    /// the loader is left as it was.
    pub fn receive(&mut self, reply: &Reply) -> (r: Result<(), String>)
        ensures
            match old(self)@.after(reply@) {
                Ok(next) => r is Ok && final(self)@ == next,
                Err(e) => r matches Err(m) && m@ == e && final(self)@ == old(self)@,
            },
            event::all_wf(old(self)@.evs) ==> event::all_wf(final(self)@.evs),
    {
        let ghost start = *self;
        match self.stage {
            Stage::Activity => match gh_lines_reply(reply) {
                Ok(vals) => {
                    let mut more = activity_events(&vals);
                    proof {
                        lemma_views_append(self.evs@, more@);
                    }
                    self.evs.append(&mut more);
                    self.stage = Stage::Events;
                    assert(self@ =~= start@.after(reply@)->Ok_0);
                    Ok(())
                },
                Err(e) => Err(e),
            },
            Stage::Events => {
                match gh_lines_reply(reply) {
                    Ok(vals) => {
                        let (mut more, pulls) = feed_events(&vals);
                        proof {
                            lemma_views_append(self.evs@, more@);
                        }
                        self.evs.append(&mut more);
                        self.pulls = pulls;
                    },
                    Err(_) => {
                        self.pulls = Vec::new();
                        assert(self.evs@ =~= start.evs@);
                        assert(self@.evs =~= start@.evs + feed::feed_rows(listed_or_none(reply@)));
                        assert(self.pulls@ =~= feed::feed_pulls(listed_or_none(reply@)));
                    },
                }
                self.stage = Stage::Timeline(0);
                assert(self@ =~= start@.after(reply@)->Ok_0);
                Ok(())
            },
            Stage::Timeline(n) => {
                if n < self.pulls.len() {
                    match gh_lines_reply(reply) {
                        Ok(vals) => {
                            let mut more = review_events(self.pulls[n], &vals);
                            proof {
                                lemma_views_append(self.evs@, more@);
                            }
                            self.evs.append(&mut more);
                        },
                        Err(_) => {
                            assert(self@.evs =~= start@.evs + feed::review_rows(
                                self.pulls@[n as int] as int,
                                listed_or_none(reply@),
                            ));
                        },
                    }
                    self.stage = Stage::Timeline(n + 1);
                    assert(self@ =~= start@.after(reply@)->Ok_0);
                }
                Ok(())
            },
        }
    }

    /// The history: all events that were read, newest first.
    pub fn build_events(self) -> (r: Vec<Ev>)
        ensures
            sorted_from(event::views(r@), self@.evs),
            event::all_wf(self@.evs) ==> event::all_wf(event::views(r@)),
    {
        let ghost all = self@.evs;
        let r = sort_events(self.evs);
        proof {
            law_sorting_keeps_the_events(event::views(r@), all);
        }
        r
    }
}

// ---------------------------------------------------------------------------
// Laws
// ---------------------------------------------------------------------------

/// The loader after several replies, in order; the first error ends it.
pub open spec fn run(start: LoaderView, replies: Seq<ReplyView>) -> Result<LoaderView, Seq<char>>
    decreases replies.len(),
{
    if replies.len() == 0 {
        Ok(start)
    } else {
        match run(start, replies.drop_last()) {
            Ok(l) => l.after(replies.last()),
            Err(e) => Err(e),
        }
    }
}

/// The events of the first `n` timelines.
pub open spec fn timeline_rows(pulls: Seq<i64>, replies: Seq<ReplyView>, n: int) -> Seq<EvView>
    decreases n,
{
    if n <= 0 {
        seq![]
    } else {
        timeline_rows(pulls, replies, n - 1) + feed::review_rows(
            pulls[n - 1] as int,
            listed_or_none(replies[n - 1]),
        )
    }
}

pub proof fn lemma_run_timelines(l: LoaderView, replies: Seq<ReplyView>)
    requires
        l.stage == Stage::Timeline(0),
        replies.len() <= l.pulls.len() <= usize::MAX,
    ensures
        run(l, replies) == Ok::<LoaderView, Seq<char>>(
            LoaderView {
                stage: Stage::Timeline(replies.len() as usize),
                evs: l.evs + timeline_rows(l.pulls, replies, replies.len() as int),
                ..l
            },
        ),
    decreases replies.len(),
{
    let n = replies.len() as int;
    if n == 0 {
        assert(l.evs + timeline_rows(l.pulls, replies, 0) =~= l.evs);
    } else {
        let rest = replies.drop_last();
        lemma_run_timelines(l, rest);
        lemma_timeline_rows_prefix(l.pulls, replies, n - 1);
        assert(l.evs + timeline_rows(l.pulls, rest, n - 1) + feed::review_rows(
            l.pulls[n - 1] as int,
            listed_or_none(replies[n - 1]),
        ) =~= l.evs + timeline_rows(l.pulls, replies, n));
    }
}

proof fn lemma_timeline_rows_prefix(pulls: Seq<i64>, replies: Seq<ReplyView>, n: int)
    requires
        0 <= n < replies.len(),
    ensures
        timeline_rows(pulls, replies.drop_last(), n) == timeline_rows(pulls, replies, n),
    decreases n,
{
    if n > 0 {
        lemma_timeline_rows_prefix(pulls, replies, n - 1);
    }
}

pub proof fn lemma_run_split(l: LoaderView, a: Seq<ReplyView>, b: Seq<ReplyView>)
    requires
        run(l, a) is Ok,
    ensures
        run(l, a + b) == run(run(l, a)->Ok_0, b),
    decreases b.len(),
{
    if b.len() == 0 {
        assert(a + b =~= a);
    } else {
        lemma_run_split(l, a, b.drop_last());
        assert((a + b).drop_last() =~= a + b.drop_last());
    }
}

/// A history is the branch changes, then the events, then the review requests of
/// each pull request that the events name, in ascending order of the numbers. A
/// list of events or a timeline that could not be had adds nothing, and the
/// loading is over once every pull request had its reply.
pub proof fn law_load_gathers_all(
    repo: Seq<char>,
    host: Option<Seq<char>>,
    activity: ReplyView,
    events: ReplyView,
    timelines: Seq<ReplyView>,
)
    requires
        gh::listed(activity) is Ok,
        timelines.len() == feed::feed_pulls(listed_or_none(events)).len(),
        timelines.len() <= usize::MAX,
    ensures
        ({
            let pulls = feed::feed_pulls(listed_or_none(events));
            let end = run(fresh(repo, host), seq![activity, events] + timelines);
            &&& end is Ok
            &&& end->Ok_0.next() is None
            &&& end->Ok_0.evs == feed::activity_rows(gh::listed(activity)->Ok_0) + feed::feed_rows(
                listed_or_none(events),
            ) + timeline_rows(pulls, timelines, pulls.len() as int)
        }),
{
    let start = fresh(repo, host);
    let first = seq![activity];
    let both = seq![activity, events];
    assert(first.drop_last() =~= Seq::<ReplyView>::empty());
    assert(both.drop_last() =~= first);
    assert(run(start, Seq::<ReplyView>::empty()) == Ok::<LoaderView, Seq<char>>(start));
    let one = start.after(activity)->Ok_0;
    assert(run(start, first) == Ok::<LoaderView, Seq<char>>(one));
    let two = one.after(events)->Ok_0;
    assert(run(start, both) == Ok::<LoaderView, Seq<char>>(two));
    lemma_run_split(start, both, timelines);
    lemma_run_timelines(two, timelines);
    assert(one.evs =~= feed::activity_rows(gh::listed(activity)->Ok_0));
}

/// Without the list of branch changes there is no history: the loading ends with
/// the error of that call, whatever would follow.
pub proof fn law_load_needs_activity(
    repo: Seq<char>,
    host: Option<Seq<char>>,
    activity: ReplyView,
    more: Seq<ReplyView>,
)
    requires
        gh::listed(activity) is Err,
    ensures
        run(fresh(repo, host), seq![activity] + more) == Err::<LoaderView, Seq<char>>(
            gh::listed(activity)->Err_0,
        ),
    decreases more.len(),
{
    let all = seq![activity] + more;
    if more.len() == 0 {
        let start = fresh(repo, host);
        assert(all =~= seq![activity]);
        assert(all.drop_last() =~= Seq::<ReplyView>::empty());
        assert(run(start, Seq::<ReplyView>::empty()) == Ok::<LoaderView, Seq<char>>(start));
    } else {
        law_load_needs_activity(repo, host, activity, more.drop_last());
        assert(all.drop_last() =~= seq![activity] + more.drop_last());
    }
}

/// Sorting loses and adds nothing: what stands in one of the two lists stands in the
/// other.
pub proof fn law_sorting_keeps_the_events(sorted: Seq<EvView>, evs: Seq<EvView>)
    requires
        sorted_from(sorted, evs),
    ensures
        forall|k: int| 0 <= k < sorted.len() ==> evs.contains(#[trigger] sorted[k]),
        forall|k: int| 0 <= k < evs.len() ==> sorted.contains(#[trigger] evs[k]),
{
    assert forall|k: int| 0 <= k < sorted.len() implies evs.contains(#[trigger] sorted[k]) by {
        let ts = sorted[k].ts;
        lemma_at_time_has(sorted, k);
        assert(at_time(sorted, ts) == at_time(evs, ts));
        lemma_at_time_from(evs, ts);
    }
    assert forall|k: int| 0 <= k < evs.len() implies sorted.contains(#[trigger] evs[k]) by {
        let ts = evs[k].ts;
        lemma_at_time_has(evs, k);
        assert(at_time(sorted, ts) == at_time(evs, ts));
        lemma_at_time_from(sorted, ts);
    }
}

proof fn lemma_at_time_has(evs: Seq<EvView>, k: int)
    requires
        0 <= k < evs.len(),
    ensures
        at_time(evs, evs[k].ts).contains(evs[k]),
    decreases evs.len(),
{
    let ts = evs[k].ts;
    let rest = evs.drop_last();
    let some = at_time(evs, ts);
    if k == evs.len() - 1 {
        assert(some[some.len() - 1] == evs[k]);
    } else {
        lemma_at_time_has(rest, k);
        let front = at_time(rest, ts);
        let j = choose|j: int| 0 <= j < front.len() && front[j] == evs[k];
        assert(some[j] == evs[k]);
    }
}

proof fn lemma_at_time_from(evs: Seq<EvView>, ts: Seq<char>)
    ensures
        forall|j: int|
            0 <= j < at_time(evs, ts).len() ==> evs.contains(#[trigger] at_time(evs, ts)[j]),
    decreases evs.len(),
{
    if evs.len() > 0 {
        let rest = evs.drop_last();
        lemma_at_time_from(rest, ts);
        let (some, front) = (at_time(evs, ts), at_time(rest, ts));
        assert forall|j: int| 0 <= j < some.len() implies evs.contains(#[trigger] some[j]) by {
            if j < front.len() {
                assert(some[j] == front[j]);
                assert(rest.contains(front[j]));
                let k = choose|k: int| 0 <= k < rest.len() && rest[k] == front[j];
                assert(evs[k] == some[j]);
            } else {
                assert(evs[evs.len() - 1] == some[j]);
            }
        }
    }
}

/// There is just one result of sorting: two sorted lists of the same events are the
/// same list.
pub proof fn law_sorting_determined(a: Seq<EvView>, b: Seq<EvView>, evs: Seq<EvView>)
    requires
        sorted_from(a, evs),
        sorted_from(b, evs),
    ensures
        a == b,
    decreases a.len(),
{
    if a.len() == 0 {
        if b.len() > 0 {
            assert(at_time(b, b.last().ts) == at_time(a, b.last().ts));
            assert(at_time(b, b.last().ts).len() > 0);
        }
        assert(a =~= b);
    } else {
        if b.len() == 0 {
            assert(at_time(a, a.last().ts).len() > 0);
            assert(at_time(a, a.last().ts) == at_time(b, a.last().ts));
        }
        lemma_oldest_last(a, b, evs);
        lemma_oldest_last(b, a, evs);
        text::lemma_precedes_total(a.last().ts, b.last().ts);
        let ts = a.last().ts;
        assert(at_time(a, ts) == at_time(b, ts));
        assert(at_time(a, ts).last() == a.last());
        assert(at_time(b, ts).last() == b.last());
        let (ra, rb) = (a.drop_last(), b.drop_last());
        assert forall|t: Seq<char>| #[trigger] at_time(ra, t) == at_time(rb, t) by {
            assert(at_time(a, t) == at_time(b, t));
            if t == ts {
                assert(at_time(a, t).drop_last() =~= at_time(ra, t));
                assert(at_time(b, t).drop_last() =~= at_time(rb, t));
            }
        }
        law_sorting_determined(ra, rb, rb);
        assert(a =~= ra.push(a.last()));
        assert(b =~= rb.push(b.last()));
    }
}

/// The last event of one sorted list is not newer than the last of another.
proof fn lemma_oldest_last(a: Seq<EvView>, b: Seq<EvView>, evs: Seq<EvView>)
    requires
        sorted_from(a, evs),
        sorted_from(b, evs),
        a.len() > 0,
        b.len() > 0,
    ensures
        !text::precedes(b.last().ts, a.last().ts),
{
    let ts = b.last().ts;
    assert(at_time(a, ts) == at_time(b, ts));
    assert(at_time(b, ts).len() > 0);
    lemma_at_time_some(a, ts);
    let k = choose|k: int| 0 <= k < a.len() && a[k].ts == ts;
    if k < a.len() - 1 {
        assert(!text::precedes(a[k].ts, a[a.len() - 1].ts));
    } else {
        text::lemma_precedes_irreflexive(ts);
    }
}

proof fn lemma_at_time_some(a: Seq<EvView>, ts: Seq<char>)
    requires
        at_time(a, ts).len() > 0,
    ensures
        exists|k: int| 0 <= k < a.len() && a[k].ts == ts,
    decreases a.len(),
{
    if a.last().ts == ts {
        assert(a[a.len() - 1].ts == ts);
    } else {
        lemma_at_time_some(a.drop_last(), ts);
        let k = choose|k: int| 0 <= k < a.drop_last().len() && a.drop_last()[k].ts == ts;
        assert(a[k].ts == ts);
    }
}

}
