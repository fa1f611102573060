//! The feeds of a repository: what each entry says, and the event it becomes.
use crate::event;
use crate::event::{review_verb, Ev, EvView};
use crate::json;
use crate::json::{dig, get, opt_integer, opt_string, s, string_or_empty, Json};
use crate::text;
use crate::text::{same, show_i64, starts_with, trim_end_matches, trim_start_matches};
use serde_json::Value;
use std::collections::BTreeSet;
use vstd::prelude::*;
use vstd::string::*;

verus! {

// ---------------------------------------------------------------------------
// Branch changes
// ---------------------------------------------------------------------------

/// An entry of the list of branch changes.
pub struct Activity {
    pub kind: String,
    pub ref_name: String,
    pub login: String,
    pub ts: String,
    pub before: String,
    pub after: String,
}

/// What a branch change holds.
#[verifier::ext_equal]
pub struct ActivityView {
    pub kind: Seq<char>,
    pub ref_name: Seq<char>,
    pub login: Seq<char>,
    pub ts: Seq<char>,
    pub before: Seq<char>,
    pub after: Seq<char>,
}

impl View for Activity {
    type V = ActivityView;

    open spec fn view(&self) -> ActivityView {
        ActivityView {
            kind: self.kind@,
            ref_name: self.ref_name@,
            login: self.login@,
            ts: self.ts@,
            before: self.before@,
            after: self.after@,
        }
    }
}

/// The text of a member, or nothing.
pub open spec fn field(j: Json, key: Seq<char>) -> Seq<char> {
    json::text_or_empty(json::member(j, key))
}

/// The login of the actor of an entry, or nothing.
pub open spec fn login_of(j: Json) -> Seq<char> {
    json::text_or_empty(json::down(json::member(j, "actor"@), "login"@))
}

/// The branch change that a JSON value describes.
pub open spec fn activity_of(j: Json) -> ActivityView {
    ActivityView {
        kind: field(j, "activity_type"@),
        ref_name: field(j, "ref"@),
        login: login_of(j),
        ts: field(j, "timestamp"@),
        before: field(j, "before"@),
        after: field(j, "after"@),
    }
}

/// A name, or a question mark where there is none.
pub open spec fn known(name: Seq<char>) -> Seq<char> {
    if name.len() == 0 {
        "?"@
    } else {
        name
    }
}

/// The event of a branch change: its detail is the branch, and it keeps the
/// commits that the branch went from and to.
pub open spec fn activity_row(a: ActivityView) -> EvView {
    EvView {
        before: a.before,
        after: a.after,
        ..event::event_of(
            a.ts,
            known(a.login),
            a.kind,
            a.kind,
            text::without_prefix(a.ref_name, "refs/heads/"@),
            ""@,
        )
    }
}

/// The events of a list of branch changes, in order.
pub open spec fn activity_rows(js: Seq<Json>) -> Seq<EvView> {
    js.map_values(|j: Json| activity_row(activity_of(j)))
}

/// Reads a branch change.
pub fn read_activity(v: &Value) -> (r: Activity)
    ensures
        r@ == activity_of(json::contents(*v)),
{
    Activity {
        kind: s(v, "activity_type"),
        ref_name: s(v, "ref"),
        login: string_or_empty(dig(get(v, "actor"), "login")),
        ts: s(v, "timestamp"),
        before: s(v, "before"),
        after: s(v, "after"),
    }
}

/// A name, or a question mark where there is none.
fn known_name(name: &String) -> (r: String)
    ensures
        r@ == known(name@),
{
    if name.as_str().is_empty() {
        "?".to_owned()
    } else {
        name.clone()
    }
}

/// The event of a branch change.
pub fn activity_event(a: &Activity) -> (r: Ev)
    ensures
        r@ == activity_row(a@),
        r@.wf(),
{
    let branch = trim_start_matches(a.ref_name.as_str(), "refs/heads/");
    let mut e = Ev::new(
        a.ts.clone(),
        known_name(&a.login),
        a.kind.as_str(),
        a.kind.clone(),
        branch,
        "",
    );
    let ghost plain = e@;
    e.before = a.before.clone();
    e.after = a.after.clone();
    assert(e@ =~= activity_row(a@));
    assert(e@.key() == plain.key());
    e
}

/// The events of a list of branch changes.
pub fn activity_events(vals: &Vec<Value>) -> (r: Vec<Ev>)
    ensures
        event::views(r@) == activity_rows(json::trees(vals@)),
        event::all_wf(event::views(r@)),
{
    let mut out: Vec<Ev> = Vec::new();
    let mut i: usize = 0;
    while i < vals.len()
        invariant
            i <= vals@.len(),
            out@.len() == i,
            forall|k: int|
                0 <= k < i ==> (#[trigger] out@[k])@ == activity_row(
                    activity_of(json::contents(vals@[k])),
                ) && out@[k]@.wf(),
        decreases vals@.len() - i,
    {
        let e = activity_event(&read_activity(&vals[i]));
        out.push(e);
        i += 1;
    }
    assert(event::views(out@) =~= activity_rows(json::trees(vals@)));
    out
}

// ---------------------------------------------------------------------------
// Events
// ---------------------------------------------------------------------------

/// An entry of the list of events.
pub struct FeedItem {
    pub kind: String,
    pub action: String,
    /// The number of the issue that the entry is about.
    pub issue: Option<i64>,
    /// The number of the pull request that the entry is about.
    pub pull: Option<i64>,
    /// The branch that the pull request is to merge.
    pub head: String,
    /// The name of the fork.
    pub forkee: String,
    /// The tag of the release.
    pub tag: String,
    pub login: String,
    pub ts: String,
}

/// What an entry of the list of events holds.
#[verifier::ext_equal]
pub struct FeedItemView {
    pub kind: Seq<char>,
    pub action: Seq<char>,
    pub issue: Option<i64>,
    pub pull: Option<i64>,
    pub head: Seq<char>,
    pub forkee: Seq<char>,
    pub tag: Seq<char>,
    pub login: Seq<char>,
    pub ts: Seq<char>,
}

impl View for FeedItem {
    type V = FeedItemView;

    open spec fn view(&self) -> FeedItemView {
        FeedItemView {
            kind: self.kind@,
            action: self.action@,
            issue: self.issue,
            pull: self.pull,
            head: self.head@,
            forkee: self.forkee@,
            tag: self.tag@,
            login: self.login@,
            ts: self.ts@,
        }
    }
}

/// The entry that a JSON value describes.
pub open spec fn feed_item_of(j: Json) -> FeedItemView {
    let payload = json::member(j, "payload"@);
    let pull = json::down(payload, "pull_request"@);
    FeedItemView {
        kind: field(j, "type"@),
        action: json::text_or_empty(json::down(payload, "action"@)),
        issue: json::integer_of(json::down(json::down(payload, "issue"@), "number"@)),
        pull: json::integer_of(json::down(pull, "number"@)),
        head: json::text_or_empty(json::down(json::down(pull, "head"@), "ref"@)),
        forkee: json::text_or_empty(json::down(json::down(payload, "forkee"@), "full_name"@)),
        tag: json::text_or_empty(json::down(json::down(payload, "release"@), "tag_name"@)),
        login: login_of(j),
        ts: field(j, "created_at"@),
    }
}

/// The kinds that the list of branch changes covers already.
pub open spec fn covered(kind: Seq<char>) -> bool {
    kind == "PushEvent"@ || kind == "CreateEvent"@ || kind == "DeleteEvent"@
}

/// A number behind a text and a `#`; zero stands for a missing number.
pub open spec fn numbered(what: Seq<char>, n: Option<i64>) -> Seq<char> {
    what + " #"@ + text::decimal(match n {
        Some(k) => k as int,
        None => 0,
    })
}

/// The name of a kind, without the `Event` at its end.
pub open spec fn kind_name(kind: Seq<char>) -> Seq<char> {
    text::without_suffix(kind, "Event"@)
}

/// What an entry says, in words.
pub open spec fn feed_detail(item: FeedItemView) -> Seq<char> {
    if item.kind == "ForkEvent"@ {
        "-> "@ + item.forkee
    } else if item.kind == "WatchEvent"@ {
        "starred"@
    } else if item.kind == "ReleaseEvent"@ {
        item.tag
    } else if item.kind == "IssuesEvent"@ {
        numbered(item.action, item.issue)
    } else if item.kind == "IssueCommentEvent"@ {
        numbered("comment"@, item.issue)
    } else if text::begins(item.kind, "PullRequest"@) {
        numbered(
            if item.action.len() == 0 {
                "review"@
            } else {
                item.action
            },
            item.pull,
        )
    } else {
        kind_name(item.kind)
    }
}

/// The number that an entry can be found by: that of its pull request, or else of
/// its issue, or nothing.
pub open spec fn feed_number(item: FeedItemView) -> Seq<char> {
    match item.pull {
        Some(n) => text::decimal(n as int),
        None => match item.issue {
            Some(n) => text::decimal(n as int),
            None => seq![],
        },
    }
}

/// The event of an entry; none of the kinds that are covered already. It can also
/// be found by its branch and its number.
pub open spec fn feed_row(item: FeedItemView) -> Option<EvView> {
    if covered(item.kind) {
        None
    } else {
        Some(
            event::event_of(
                item.ts,
                item.login,
                item.kind,
                kind_name(item.kind),
                feed_detail(item),
                item.head + " "@ + feed_number(item),
            ),
        )
    }
}

/// The events of a list of entries, in order.
pub open spec fn feed_rows(js: Seq<Json>) -> Seq<EvView>
    decreases js.len(),
{
    if js.len() == 0 {
        seq![]
    } else {
        match feed_row(feed_item_of(js.last())) {
            Some(e) => feed_rows(js.drop_last()).push(e),
            None => feed_rows(js.drop_last()),
        }
    }
}

/// The pull request whose timeline an entry asks for: that of an entry that
/// becomes an event.
pub open spec fn feed_pull(j: Json) -> Option<i64> {
    if covered(feed_item_of(j).kind) {
        None
    } else {
        feed_item_of(j).pull
    }
}

/// `n` put into an ascending list, unless it is there.
pub open spec fn with_number(ns: Seq<i64>, n: i64) -> Seq<i64>
    decreases ns.len(),
{
    if ns.len() == 0 || ns.last() < n {
        ns.push(n)
    } else if ns.last() == n {
        ns
    } else {
        with_number(ns.drop_last(), n).push(ns.last())
    }
}

/// The pull requests whose timelines a list of entries asks for, ascending and
/// each once.
pub open spec fn feed_pulls(js: Seq<Json>) -> Seq<i64>
    decreases js.len(),
{
    if js.len() == 0 {
        seq![]
    } else {
        match feed_pull(js.last()) {
            Some(n) => with_number(feed_pulls(js.drop_last()), n),
            None => feed_pulls(js.drop_last()),
        }
    }
}

/// Reads an entry of the list of events.
pub fn read_feed_item(v: &Value) -> (r: FeedItem)
    ensures
        r@ == feed_item_of(json::contents(*v)),
{
    let payload = get(v, "payload");
    let pull = dig(payload, "pull_request");
    FeedItem {
        kind: s(v, "type"),
        action: string_or_empty(dig(payload, "action")),
        issue: opt_integer(dig(dig(payload, "issue"), "number")),
        pull: opt_integer(dig(pull, "number")),
        head: string_or_empty(dig(dig(pull, "head"), "ref")),
        forkee: string_or_empty(dig(dig(payload, "forkee"), "full_name")),
        tag: string_or_empty(dig(dig(payload, "release"), "tag_name")),
        login: string_or_empty(dig(get(v, "actor"), "login")),
        ts: s(v, "created_at"),
    }
}

/// Whether the list of branch changes covers a kind already.
fn is_covered(kind: &str) -> (r: bool)
    ensures
        r == covered(kind@),
{
    same(kind, "PushEvent") || same(kind, "CreateEvent") || same(kind, "DeleteEvent")
}

/// A number behind a text and a `#`.
fn with_hash(what: &str, n: Option<i64>) -> (r: String)
    ensures
        r@ == numbered(what@, n),
{
    let mut t = what.to_owned();
    t.append(" #");
    let k: i64 = match n {
        Some(k) => k,
        None => 0,
    };
    t.append(show_i64(k).as_str());
    t
}

/// What an entry says, in words.
pub fn show_feed_detail(item: &FeedItem) -> (r: String)
    ensures
        r@ == feed_detail(item@),
{
    let kind = item.kind.as_str();
    if same(kind, "ForkEvent") {
        let mut t = "-> ".to_owned();
        t.append(item.forkee.as_str());
        t
    } else if same(kind, "WatchEvent") {
        "starred".to_owned()
    } else if same(kind, "ReleaseEvent") {
        item.tag.clone()
    } else if same(kind, "IssuesEvent") {
        with_hash(item.action.as_str(), item.issue)
    } else if same(kind, "IssueCommentEvent") {
        with_hash("comment", item.issue)
    } else if starts_with(kind, "PullRequest") {
        if item.action.as_str().is_empty() {
            with_hash("review", item.pull)
        } else {
            with_hash(item.action.as_str(), item.pull)
        }
    } else {
        trim_end_matches(kind, "Event")
    }
}

/// The number that an entry can be found by.
fn show_feed_number(item: &FeedItem) -> (r: String)
    ensures
        r@ == feed_number(item@),
{
    match item.pull {
        Some(n) => show_i64(n),
        None => match item.issue {
            Some(n) => show_i64(n),
            None => {
                let r = String::new();
                assert(r@ =~= feed_number(item@));
                r
            },
        },
    }
}

/// What an optional event holds.
pub open spec fn opt_view(e: Option<Ev>) -> Option<EvView> {
    match e {
        Some(x) => Some(x@),
        None => None,
    }
}

/// The event of an entry, if it becomes one.
pub fn feed_event(item: &FeedItem) -> (r: Option<Ev>)
    ensures
        opt_view(r) == feed_row(item@),
        r matches Some(e) ==> e@.wf(),
{
    if is_covered(item.kind.as_str()) {
        return None;
    }
    let detail = show_feed_detail(item);
    let label = trim_end_matches(item.kind.as_str(), "Event");
    let mut extra = item.head.clone();
    extra.append(" ");
    extra.append(show_feed_number(item).as_str());
    Some(
        Ev::new(
            item.ts.clone(),
            item.login.clone(),
            item.kind.as_str(),
            label,
            detail,
            extra.as_str(),
        ),
    )
}

/// Puts a number into a set.
fn add_number(set: &mut BTreeSet<i64>, n: i64)
    ensures
        final(set)@ == old(set)@.insert(n),
{
    broadcast use vstd::laws_cmp::group_laws_cmp;

    let _ = set.insert(n);
}

/// The numbers of a set, ascending.
fn in_order(set: &BTreeSet<i64>) -> (r: Vec<i64>)
    ensures
        ascending(r@),
        r@.to_set() == set@,
{
    broadcast use {vstd::laws_cmp::group_laws_cmp, vstd::std_specs::btree::group_btree_axioms};

    let ghost all = vstd::std_specs::iter::IteratorSpec::remaining(
        &vstd::std_specs::btree::spec_btree_keys_iter(set),
    );
    let mut out: Vec<i64> = Vec::new();
    for n in it: set.iter()
        invariant
            it.seq() == all,
            out@.len() == it.index(),
            forall|k: int| 0 <= k < out@.len() ==> #[trigger] out@[k] == *all[k],
    {
        out.push(*n);
    }
    assert(out@ =~= all.unref());
    assert forall|i: int, j: int| 0 <= i < j < out@.len() implies out@[i] < out@[j] by {
        assert(vstd::std_specs::btree::increasing_seq(all));
        assert(vstd::std_specs::cmp::OrdSpec::cmp_spec(&all[i], &all[j]) is Less);
    }
    out
}

/// The events of a list of entries, and the pull requests whose timelines they
/// ask for.
pub fn feed_events(vals: &Vec<Value>) -> (r: (Vec<Ev>, Vec<i64>))
    ensures
        event::views(r.0@) == feed_rows(json::trees(vals@)),
        event::all_wf(event::views(r.0@)),
        r.1@ == feed_pulls(json::trees(vals@)),
{
    let mut out: Vec<Ev> = Vec::new();
    let mut pulls: BTreeSet<i64> = BTreeSet::new();
    let mut i: usize = 0;
    let ghost js = json::trees(vals@);
    assert(event::views(out@) =~= feed_rows(js.take(0)));
    assert(pulls@ =~= feed_pulls(js.take(0)).to_set());
    while i < vals.len()
        invariant
            i <= vals@.len(),
            js == json::trees(vals@),
            event::views(out@) == feed_rows(js.take(i as int)),
            event::all_wf(event::views(out@)),
            pulls@ == feed_pulls(js.take(i as int)).to_set(),
        decreases vals@.len() - i,
    {
        assert(js.take(i + 1).drop_last() =~= js.take(i as int));
        assert(js.take(i + 1).last() == json::contents(vals@[i as int]));
        let item = read_feed_item(&vals[i]);
        match feed_event(&item) {
            Some(e) => {
                let ghost done = out@;
                out.push(e);
                assert(event::views(out@) =~= event::views(done).push(e@));
                match item.pull {
                    Some(n) => {
                        proof {
                            law_pulls_asked_once(js.take(i as int));
                            lemma_with_number(feed_pulls(js.take(i as int)), n);
                        }
                        add_number(&mut pulls, n);
                        assert(pulls@ =~= feed_pulls(js.take(i + 1)).to_set());
                    },
                    None => {},
                }
            },
            None => {},
        }
        i += 1;
    }
    assert(js.take(i as int) =~= js);
    let list = in_order(&pulls);
    proof {
        law_pulls_asked_once(js);
        lemma_ascending_determined(list@, feed_pulls(js));
    }
    (out, list)
}

// ---------------------------------------------------------------------------
// Timelines of pull requests
// ---------------------------------------------------------------------------

/// An entry of a pull request's timeline.
pub struct TimelineItem {
    pub event: String,
    pub login: String,
    /// The user whose review is asked for.
    pub user: Option<String>,
    /// The team whose review is asked for.
    pub team: Option<String>,
    pub ts: String,
}

/// What an entry of a timeline holds.
#[verifier::ext_equal]
pub struct TimelineItemView {
    pub event: Seq<char>,
    pub login: Seq<char>,
    pub user: Option<Seq<char>>,
    pub team: Option<Seq<char>>,
    pub ts: Seq<char>,
}

impl View for TimelineItem {
    type V = TimelineItemView;

    open spec fn view(&self) -> TimelineItemView {
        TimelineItemView {
            event: self.event@,
            login: self.login@,
            user: text::opt_text(self.user),
            team: text::opt_text(self.team),
            ts: self.ts@,
        }
    }
}

/// The entry of a timeline that a JSON value describes.
pub open spec fn timeline_item_of(j: Json) -> TimelineItemView {
    TimelineItemView {
        event: field(j, "event"@),
        login: login_of(j),
        user: json::text_of(json::down(json::member(j, "requested_reviewer"@), "login"@)),
        team: json::text_of(json::down(json::member(j, "requested_team"@), "slug"@)),
        ts: field(j, "created_at"@),
    }
}

/// Whose review an entry is about: a user, or else a team, or nobody.
pub open spec fn asked(item: TimelineItemView) -> Seq<char> {
    match item.user {
        Some(name) => name,
        None => match item.team {
            Some(name) => name,
            None => seq![],
        },
    }
}

/// The event of an entry of a pull request's timeline; none of an entry that is
/// not about asking for a review.
pub open spec fn review_row(pr: int, item: TimelineItemView) -> Option<EvView> {
    match event::review_word(item.event) {
        Some(word) => Some(
            event::event_of(
                item.ts,
                known(item.login),
                item.event,
                "Review"@,
                word + " "@ + (if asked(item).len() == 0 {
                    "review"@
                } else {
                    asked(item)
                }) + " #"@ + text::decimal(pr),
                text::decimal(pr),
            ),
        ),
        None => None,
    }
}

/// The events of a pull request's timeline, in order.
pub open spec fn review_rows(pr: int, js: Seq<Json>) -> Seq<EvView>
    decreases js.len(),
{
    if js.len() == 0 {
        seq![]
    } else {
        match review_row(pr, timeline_item_of(js.last())) {
            Some(e) => review_rows(pr, js.drop_last()).push(e),
            None => review_rows(pr, js.drop_last()),
        }
    }
}

/// Reads an entry of a timeline.
pub fn read_timeline_item(v: &Value) -> (r: TimelineItem)
    ensures
        r@ == timeline_item_of(json::contents(*v)),
{
    TimelineItem {
        event: s(v, "event"),
        login: string_or_empty(dig(get(v, "actor"), "login")),
        user: opt_string(dig(get(v, "requested_reviewer"), "login")),
        team: opt_string(dig(get(v, "requested_team"), "slug")),
        ts: s(v, "created_at"),
    }
}

/// The event of an entry of a pull request's timeline, if it becomes one.
pub fn review_event(pr: i64, item: &TimelineItem) -> (r: Option<Ev>)
    ensures
        opt_view(r) == review_row(pr as int, item@),
        r matches Some(e) ==> e@.wf(),
{
    let verb = match review_verb(item.event.as_str()) {
        Some(word) => word,
        None => {
            return None;
        },
    };
    let who = match &item.user {
        Some(name) => name.clone(),
        None => match &item.team {
            Some(name) => name.clone(),
            None => String::new(),
        },
    };
    assert(who@ =~= asked(item@));
    let number = show_i64(pr);
    let mut detail = verb.to_owned();
    detail.append(" ");
    if who.as_str().is_empty() {
        detail.append("review");
    } else {
        detail.append(who.as_str());
    }
    detail.append(" #");
    detail.append(number.as_str());
    Some(
        Ev::new(
            item.ts.clone(),
            known_name(&item.login),
            item.event.as_str(),
            "Review".to_owned(),
            detail,
            number.as_str(),
        ),
    )
}

/// The events of a pull request's timeline.
pub fn review_events(pr: i64, vals: &Vec<Value>) -> (r: Vec<Ev>)
    ensures
        event::views(r@) == review_rows(pr as int, json::trees(vals@)),
        event::all_wf(event::views(r@)),
{
    let mut out: Vec<Ev> = Vec::new();
    let mut i: usize = 0;
    let ghost js = json::trees(vals@);
    assert(event::views(out@) =~= review_rows(pr as int, js.take(0)));
    while i < vals.len()
        invariant
            i <= vals@.len(),
            js == json::trees(vals@),
            event::views(out@) == review_rows(pr as int, js.take(i as int)),
            event::all_wf(event::views(out@)),
        decreases vals@.len() - i,
    {
        assert(js.take(i + 1).drop_last() =~= js.take(i as int));
        assert(js.take(i + 1).last() == json::contents(vals@[i as int]));
        match review_event(pr, &read_timeline_item(&vals[i])) {
            Some(e) => {
                let ghost done = out@;
                out.push(e);
                assert(event::views(out@) =~= event::views(done).push(e@));
            },
            None => {},
        }
        i += 1;
    }
    assert(js.take(i as int) =~= js);
    out
}

// ---------------------------------------------------------------------------
// Laws
// ---------------------------------------------------------------------------

/// A list of numbers is ascending, with none twice.
pub open spec fn ascending(ns: Seq<i64>) -> bool {
    forall|i: int, j: int| 0 <= i < j < ns.len() ==> ns[i] < ns[j]
}

/// Putting a number into an ascending list keeps it ascending and adds that
/// number alone.
pub proof fn lemma_with_number(ns: Seq<i64>, n: i64)
    requires
        ascending(ns),
    ensures
        ascending(with_number(ns, n)),
        forall|m: i64| #[trigger] with_number(ns, n).contains(m) <==> ns.contains(m) || m == n,
    decreases ns.len(),
{
    let r = with_number(ns, n);
    if ns.len() == 0 || ns.last() < n {
        assert(r[ns.len() as int] == n);
        assert forall|m: i64| r.contains(m) == (ns.contains(m) || m == n) by {
            if ns.contains(m) {
                let k = choose|k: int| 0 <= k < ns.len() && ns[k] == m;
                assert(r[k] == m);
            }
        }
    } else if ns.last() == n {
        assert(ns[ns.len() - 1] == n);
    } else {
        let rest = ns.drop_last();
        lemma_with_number(rest, n);
        let inner = with_number(rest, n);
        assert(ns[ns.len() - 1] == ns.last());
        assert forall|k: int| 0 <= k < inner.len() implies inner[k] < ns.last() by {
            assert(inner.contains(inner[k]));
            if rest.contains(inner[k]) {
                let l = choose|l: int| 0 <= l < rest.len() && rest[l] == inner[k];
                assert(ns[l] < ns[ns.len() - 1]);
            }
        }
        assert forall|m: i64| r.contains(m) == (ns.contains(m) || m == n) by {
            if r.contains(m) {
                let k = choose|k: int| 0 <= k < r.len() && r[k] == m;
                if k < inner.len() {
                    assert(inner.contains(m));
                    if rest.contains(m) {
                        let l = choose|l: int| 0 <= l < rest.len() && rest[l] == m;
                        assert(ns[l] == m);
                    }
                }
            }
            if ns.contains(m) || m == n {
                if m == ns.last() {
                    assert(r[inner.len() as int] == m);
                } else {
                    if ns.contains(m) {
                        let k = choose|k: int| 0 <= k < ns.len() && ns[k] == m;
                        assert(rest[k] == m);
                    }
                    assert(inner.contains(m));
                    let l = choose|l: int| 0 <= l < inner.len() && inner[l] == m;
                    assert(r[l] == m);
                }
            }
        }
    }
}

/// An ascending list is determined by the numbers in it.
proof fn lemma_ascending_determined(a: Seq<i64>, b: Seq<i64>)
    requires
        ascending(a),
        ascending(b),
        a.to_set() == b.to_set(),
    ensures
        a == b,
    decreases a.len(),
{
    assert forall|n: i64| a.contains(n) == b.contains(n) by {
        assert(a.to_set().contains(n) == a.contains(n));
        assert(b.to_set().contains(n) == b.contains(n));
    }
    if a.len() == 0 {
        if b.len() > 0 {
            assert(b.contains(b[0]));
        }
        assert(a =~= b);
    } else {
        assert(a.contains(a[a.len() - 1]));
        assert(b.contains(a.last()));
        assert(b.contains(b[b.len() - 1]));
        assert(a.contains(b.last()));
        assert(a.last() == b.last()) by {
            let k = choose|k: int| 0 <= k < b.len() && b[k] == a.last();
            let l = choose|l: int| 0 <= l < a.len() && a[l] == b.last();
            if k < b.len() - 1 && l < a.len() - 1 {
                assert(b[k] < b[b.len() - 1]);
                assert(a[l] < a[a.len() - 1]);
            }
        }
        let (ra, rb) = (a.drop_last(), b.drop_last());
        assert forall|n: i64| ra.contains(n) == rb.contains(n) by {
            if ra.contains(n) {
                let k = choose|k: int| 0 <= k < ra.len() && ra[k] == n;
                assert(a[k] == n && a[k] < a[a.len() - 1]);
                assert(a.contains(n));
                let l = choose|l: int| 0 <= l < b.len() && b[l] == n;
                assert(rb[l] == n);
            }
            if rb.contains(n) {
                let k = choose|k: int| 0 <= k < rb.len() && rb[k] == n;
                assert(b[k] == n && b[k] < b[b.len() - 1]);
                assert(b.contains(n));
                let l = choose|l: int| 0 <= l < a.len() && a[l] == n;
                assert(ra[l] == n);
            }
        }
        assert(ra.to_set() =~= rb.to_set());
        lemma_ascending_determined(ra, rb);
        assert(a =~= ra.push(a.last()));
        assert(b =~= rb.push(b.last()));
    }
}

/// The timelines that a list of entries asks for are those of the pull requests
/// of the entries that become events: each is asked for once, in ascending order.
pub proof fn law_pulls_asked_once(js: Seq<Json>)
    ensures
        ascending(feed_pulls(js)),
        forall|n: i64| #[trigger]
            feed_pulls(js).contains(n) <==> exists|i: int|
                0 <= i < js.len() && #[trigger] feed_pull(js[i]) == Some(n),
    decreases js.len(),
{
    if js.len() > 0 {
        let rest = js.drop_last();
        law_pulls_asked_once(rest);
        match feed_pull(js.last()) {
            Some(n) => {
                lemma_with_number(feed_pulls(rest), n);
            },
            None => {},
        }
        assert forall|n: i64| #[trigger] feed_pulls(js).contains(n) == (exists|i: int|
            0 <= i < js.len() && #[trigger] feed_pull(js[i]) == Some(n)) by {
            if feed_pulls(rest).contains(n) {
                let i = choose|i: int| 0 <= i < rest.len() && #[trigger] feed_pull(rest[i]) == Some(n);
                assert(feed_pull(js[i]) == Some(n));
            }
            if feed_pull(js.last()) == Some(n) {
                assert(feed_pull(js[js.len() - 1]) == Some(n));
            }
            if exists|i: int| 0 <= i < js.len() && #[trigger] feed_pull(js[i]) == Some(n) {
                let i = choose|i: int| 0 <= i < js.len() && #[trigger] feed_pull(js[i]) == Some(n);
                if i < rest.len() {
                    assert(feed_pull(rest[i]) == Some(n));
                }
            }
        }
    }
}

}
