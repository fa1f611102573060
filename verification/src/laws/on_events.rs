//! What the events say: how a line of a feed, read as JSON, becomes an event.
use crate::event;
use crate::event::{Color, EvView};
use crate::feed;
use crate::json;
use crate::json::Json;
use crate::laws::on_text;
use crate::text;
use vstd::prelude::*;
use vstd::string::*;

verus! {

// ---------------------------------------------------------------------------
// Events
// ---------------------------------------------------------------------------

/// One of several texts is part of a kind.
pub open spec fn names(kind: Seq<char>, a: Seq<char>, b: Seq<char>) -> bool {
    on_text::has_part(kind, a) || on_text::has_part(kind, b)
}

/// The glyph and the color of an event go by the words in its kind, the first of
/// the list that is there: a comment on an issue is a comment, a review comment too,
/// and a branch that is created or deleted is that before all else. A kind with none
/// of the words is a push.
pub proof fn law_glyph_goes_by_the_first_word(kind: Seq<char>)
    ensures
        ({
            let m = event::mark(kind);
            let creates = names(kind, "creation"@, "Create"@);
            let deletes = names(kind, "deletion"@, "Delete"@);
            let forces = on_text::has_part(kind, "force"@);
            let comments = on_text::has_part(kind, "Comment"@);
            let merges = names(kind, "merge"@, "PullRequest"@);
            let forks = on_text::has_part(kind, "Fork"@);
            let stars = on_text::has_part(kind, "Watch"@);
            let issues = on_text::has_part(kind, "Issue"@);
            let releases = on_text::has_part(kind, "Release"@);
            let reviews = on_text::has_part(kind, "review"@);
            let early = creates || deletes || forces || comments;
            let middle = early || merges || forks || stars;
            &&& creates ==> m == ('✚', Color::Green)
            &&& deletes && !creates ==> m == ('✖', Color::Red)
            &&& forces && !creates && !deletes ==> m == ('⚡', Color::Yellow)
            &&& comments && !creates && !deletes && !forces ==> m == ('✎', Color::Blue)
            &&& merges && !early ==> m == ('⇄', Color::Magenta)
            &&& forks && !early && !merges ==> m == ('⑂', Color::Cyan)
            &&& stars && !early && !merges && !forks ==> m == ('★', Color::Yellow)
            &&& issues && !middle ==> m == ('◆', Color::Blue)
            &&& releases && !middle && !issues ==> m == ('⚑', Color::Green)
            &&& reviews && !middle && !issues && !releases ==> m == ('⊙', Color::Magenta)
            &&& !middle && !issues && !releases && !reviews ==> m == ('↑', Color::Cyan)
        }),
{
    on_text::law_occurs_is_a_part(kind, "creation"@);
    on_text::law_occurs_is_a_part(kind, "Create"@);
    on_text::law_occurs_is_a_part(kind, "deletion"@);
    on_text::law_occurs_is_a_part(kind, "Delete"@);
    on_text::law_occurs_is_a_part(kind, "force"@);
    on_text::law_occurs_is_a_part(kind, "Comment"@);
    on_text::law_occurs_is_a_part(kind, "merge"@);
    on_text::law_occurs_is_a_part(kind, "PullRequest"@);
    on_text::law_occurs_is_a_part(kind, "Fork"@);
    on_text::law_occurs_is_a_part(kind, "Watch"@);
    on_text::law_occurs_is_a_part(kind, "Issue"@);
    on_text::law_occurs_is_a_part(kind, "Release"@);
    on_text::law_occurs_is_a_part(kind, "review"@);
}

/// An event shows what it was made of, can be found by all of it, and starts
/// collapsed with nothing fetched.
pub proof fn law_event_keeps_its_parts(
    ts: Seq<char>,
    actor: Seq<char>,
    kind: Seq<char>,
    label: Seq<char>,
    detail: Seq<char>,
    extra: Seq<char>,
)
    ensures
        ({
            let e = event::event_of(ts, actor, kind, label, detail, extra);
            &&& e.ts == ts && e.actor == actor && e.label == label && e.detail == detail
            &&& (e.glyph, e.color) == event::mark(kind)
            &&& e.search == text::lower(
                label + " "@ + actor + " "@ + detail + " "@ + extra,
            )
            &&& e.before.len() == 0 && e.after.len() == 0
            &&& e.commits is None && e.commit_count is None && !e.expanded
            &&& e.column(1) == e.day + " "@ + e.time
            &&& e.column(2) == label && e.column(3) == actor && e.column(4) == detail
        }),
{
}

/// The day is the first ten bytes of the stamp and the time the five behind the
/// eleventh; each is empty where no characters end there.
pub proof fn law_day_and_time_are_parts_of_the_stamp(
    ts: Seq<char>,
    actor: Seq<char>,
    kind: Seq<char>,
    label: Seq<char>,
    detail: Seq<char>,
    extra: Seq<char>,
    part: Seq<char>,
)
    ensures
        ({
            let e = event::event_of(ts, actor, kind, label, detail, extra);
            &&& is_range(ts, 0, 10, part) ==> e.day == part
            &&& is_range(ts, 11, 16, part) ==> e.time == part
            &&& (forall|t: Seq<char>| !is_range(ts, 0, 10, t)) ==> e.day.len() == 0
            &&& (forall|t: Seq<char>| !is_range(ts, 11, 16, t)) ==> e.time.len() == 0
        }),
{
    on_text::law_byte_range_is_a_part(ts, 0, 10, part);
    on_text::law_byte_range_is_a_part(ts, 11, 16, part);
    if text::byte_range(ts, 0, 10) is Some {
        on_text::law_byte_range_is_a_part(ts, 0, 10, text::byte_range(ts, 0, 10)->0);
        assert(is_range(ts, 0, 10, text::byte_range(ts, 0, 10)->0));
    }
    if text::byte_range(ts, 11, 16) is Some {
        on_text::law_byte_range_is_a_part(ts, 11, 16, text::byte_range(ts, 11, 16)->0);
        assert(is_range(ts, 11, 16, text::byte_range(ts, 11, 16)->0));
    }
}

/// A text is `part` between two byte offsets.
pub open spec fn is_range(s: Seq<char>, from: int, to: int, part: Seq<char>) -> bool {
    exists|a: Seq<char>, c: Seq<char>|
        s == #[trigger] (a + part + c) && on_text::bytes_of(a) == from && on_text::bytes_of(
            a + part,
        ) == to
}

/// A row of zeros, of any length, or nothing.
pub open spec fn is_zero(sha: Seq<char>) -> bool {
    sha == Seq::new(sha.len(), |k: int| '0')
}

/// A push can be expanded exactly when neither of its ends is missing or zero.
pub proof fn law_pushes_have_two_ends(e: EvView)
    ensures
        e.can_expand() <==> !is_zero(e.before) && !is_zero(e.after),
{
    lemma_real_sha(e.before);
    lemma_real_sha(e.after);
}

proof fn lemma_real_sha(s: Seq<char>)
    ensures
        event::real_sha(s) <==> !is_zero(s),
{
    let zeros = Seq::new(s.len(), |k: int| '0');
    if event::real_sha(s) {
        let i = choose|i: int| 0 <= i < s.len() && s[i] != '0';
        assert(zeros[i] != s[i]);
    } else {
        assert forall|k: int| 0 <= k < s.len() implies s[k] == zeros[k] by {}
        assert(s =~= zeros);
    }
}

/// The number that a detail carries is the run of digits behind its first `#`. An
/// event with one is focused by that number, an event without by its detail.
pub proof fn law_number_stands_behind_the_hash(
    e: EvView,
    a: Seq<char>,
    d: Seq<char>,
    rest: Seq<char>,
)
    requires
        !a.contains('#'),
        on_text::all_digits(d),
        rest.len() > 0 ==> !('0' <= rest[0] <= '9'),
    ensures
        event::number_in(a + seq!['#'] + (d + rest)) == d,
        e.detail == a + seq!['#'] + (d + rest) && d.len() > 0 ==> e.key() == d,
        e.detail == a + seq!['#'] + (d + rest) && d.len() == 0 ==> e.key() == e.detail,
        event::number_in(a).len() == 0,
        e.detail == a ==> e.key() == a,
{
    let b = d + rest;
    let s = a + seq!['#'] + b;
    on_text::law_pieces_are_parted(a, a, b, '#');
    if b.contains('#') {
        b.index_of_first_ensures('#');
        let i = b.index_of_first('#')->0;
        let (front, back) = (b.take(i), b.skip(i + 1));
        assert(b =~= front + seq!['#'] + back);
        assert(!front.contains('#')) by {
            if front.contains('#') {
                let k = choose|k: int| 0 <= k < front.len() && front[k] == '#';
                assert(b[k] == '#');
            }
        }
        on_text::law_pieces_are_parted(front, front, back, '#');
        assert(i >= d.len()) by {
            if i < d.len() {
                assert(d[i] == b[i]);
            }
        }
        let r = rest.take(i - d.len());
        assert(front =~= d + r);
        if r.len() > 0 {
            assert(r[0] == rest[0]);
        }
        on_text::law_leading_digits_end_at_the_first_other(d, r);
        assert(text::pieces(s, '#')[1] == front);
    } else {
        on_text::law_pieces_are_parted(b, a, b, '#');
        on_text::law_leading_digits_end_at_the_first_other(d, rest);
        assert(text::pieces(s, '#')[1] == b);
    }
    assert(text::pieces(a, '#').len() == 1);
}

// ---------------------------------------------------------------------------
// JSON
// ---------------------------------------------------------------------------

/// The value at the end of a path of keys, each into the object before it.
pub open spec fn at(j: Json, path: Seq<Seq<char>>) -> Option<Json>
    decreases path.len(),
{
    if path.len() == 0 {
        Some(j)
    } else {
        match j {
            Json::Object(m) => if m.contains_key(path[0]) {
                at(m[path[0]], path.drop_first())
            } else {
                None
            },
            _ => None,
        }
    }
}

/// The text at the end of a path, or nothing.
pub open spec fn text_at(j: Json, path: Seq<Seq<char>>) -> Seq<char> {
    match at(j, path) {
        Some(Json::Text(t)) => t,
        _ => seq![],
    }
}

/// The integer at the end of a path, if there is one.
pub open spec fn number_at(j: Json, path: Seq<Seq<char>>) -> Option<i64> {
    match at(j, path) {
        Some(Json::Number(n)) => n,
        _ => None,
    }
}

pub(crate) proof fn lemma_path(j: Json, a: Seq<char>, b: Seq<char>, c: Seq<char>)
    ensures
        at(j, seq![a]) == json::member(j, a),
        at(j, seq![a, b]) == json::down(json::member(j, a), b),
        at(j, seq![a, b, c]) == json::down(json::down(json::member(j, a), b), c),
{
    reveal_with_fuel(at, 4);
    assert(seq![a].drop_first() =~= Seq::<Seq<char>>::empty());
    assert(seq![a, b].drop_first() =~= seq![b]);
    assert(seq![b].drop_first() =~= Seq::<Seq<char>>::empty());
    assert(seq![a, b, c].drop_first() =~= seq![b, c]);
    assert(seq![b, c].drop_first() =~= seq![c]);
    assert(seq![c].drop_first() =~= Seq::<Seq<char>>::empty());
}

// ---------------------------------------------------------------------------
// Branch changes
// ---------------------------------------------------------------------------

/// Every branch change becomes one event, in order: of its kind, by its actor or by
/// `?`, on its branch without `refs/heads/`, with both its ends.
pub proof fn law_branch_changes_all_become_events(js: Seq<Json>, j: Json)
    ensures
        feed::activity_rows(seq![]) == Seq::<EvView>::empty(),
        ({
            let login = text_at(j, seq!["actor"@, "login"@]);
            let kind = text_at(j, seq!["activity_type"@]);
            feed::activity_rows(js.push(j)) == feed::activity_rows(js).push(
                EvView {
                    before: text_at(j, seq!["before"@]),
                    after: text_at(j, seq!["after"@]),
                    ..event::event_of(
                        text_at(j, seq!["timestamp"@]),
                        if login == Seq::<char>::empty() {
                            "?"@
                        } else {
                            login
                        },
                        kind,
                        kind,
                        text::without_prefix(text_at(j, seq!["ref"@]), "refs/heads/"@),
                        seq![],
                    )
                },
            )
        }),
{
    lemma_path(j, "activity_type"@, seq![], seq![]);
    lemma_path(j, "ref"@, seq![], seq![]);
    lemma_path(j, "timestamp"@, seq![], seq![]);
    lemma_path(j, "before"@, seq![], seq![]);
    lemma_path(j, "after"@, seq![], seq![]);
    lemma_path(j, "actor"@, "login"@, seq![]);
    reveal_strlit("");
    assert(""@ =~= Seq::<char>::empty());
    let login = text_at(j, seq!["actor"@, "login"@]);
    assert(login.len() == 0 ==> login =~= Seq::<char>::empty());
    assert(feed::activity_rows(js.push(j)) =~= feed::activity_rows(js).push(
        feed::activity_row(feed::activity_of(j)),
    ));
    assert(feed::activity_rows(seq![]) =~= Seq::<EvView>::empty());
}

// ---------------------------------------------------------------------------
// The list of events
// ---------------------------------------------------------------------------

/// What an entry says it is.
pub open spec fn kind_of(j: Json) -> Seq<char> {
    text_at(j, seq!["type"@])
}

/// The entries that the branch changes cover already: pushes, and branches that are
/// created or deleted.
pub open spec fn is_branch_change(j: Json) -> bool {
    kind_of(j) == "PushEvent"@ || kind_of(j) == "CreateEvent"@ || kind_of(j) == "DeleteEvent"@
}

/// How many entries are no branch changes.
pub open spec fn others(js: Seq<Json>) -> nat
    decreases js.len(),
{
    if js.len() == 0 {
        0
    } else {
        others(js.drop_last()) + if is_branch_change(js.last()) {
            0nat
        } else {
            1nat
        }
    }
}

/// A number of the feed as it is written, with zero for one that is missing.
pub open spec fn hash(n: Option<i64>) -> Seq<char> {
    " #"@ + text::decimal(match n {
        Some(k) => k as int,
        None => 0,
    })
}

/// The list has as many events as entries that are no branch changes. An entry that
/// is one adds nothing, any other adds one event at the end. So every comment, fork,
/// star, release and issue is listed, and everything about a pull request.
pub proof fn law_all_but_branch_changes_are_listed(js: Seq<Json>, j: Json)
    ensures
        feed::feed_rows(js).len() == others(js),
        is_branch_change(j) ==> feed::feed_rows(js.push(j)) == feed::feed_rows(js),
        !is_branch_change(j) ==> feed::feed_rows(js.push(j)).len() == feed::feed_rows(js).len() + 1
            && feed::feed_rows(js.push(j)).drop_last() == feed::feed_rows(js),
        kind_of(j) == "IssueCommentEvent"@ || kind_of(j) == "ForkEvent"@ || kind_of(j)
            == "WatchEvent"@ || kind_of(j) == "ReleaseEvent"@ || kind_of(j) == "IssuesEvent"@
            || (exists|s: Seq<char>| kind_of(j) == #[trigger] ("PullRequest"@ + s))
            ==> feed::feed_rows(js.push(j)).len() == feed::feed_rows(js).len() + 1,
    decreases js.len(),
{
    lemma_path(j, "type"@, seq![], seq![]);
    assert(js.push(j).drop_last() =~= js);
    if js.len() > 0 {
        law_all_but_branch_changes_are_listed(js.drop_last(), js.last());
        assert(js.drop_last().push(js.last()) =~= js);
    }
    if !is_branch_change(j) {
        assert(feed::feed_rows(js.push(j)).drop_last() =~= feed::feed_rows(js));
    }
    reveal_strlit("PushEvent");
    reveal_strlit("CreateEvent");
    reveal_strlit("DeleteEvent");
    reveal_strlit("IssueCommentEvent");
    reveal_strlit("ForkEvent");
    reveal_strlit("WatchEvent");
    reveal_strlit("ReleaseEvent");
    reveal_strlit("IssuesEvent");
    reveal_strlit("PullRequest");
    let k = kind_of(j);
    assert("PushEvent"@.len() == 9 && "CreateEvent"@.len() == 11 && "DeleteEvent"@.len() == 11);
    assert("PushEvent"@[0] == 'P' && "PushEvent"@[2] == 's');
    assert("CreateEvent"@[0] == 'C' && "DeleteEvent"@[0] == 'D');
    assert("ForkEvent"@[0] == 'F' && "WatchEvent"@[0] == 'W' && "ReleaseEvent"@[0] == 'R');
    assert("IssuesEvent"@[0] == 'I' && "IssueCommentEvent"@[0] == 'I');
    if exists|s: Seq<char>| k == #[trigger] ("PullRequest"@ + s) {
        let s = choose|s: Seq<char>| k == #[trigger] ("PullRequest"@ + s);
        assert(k[0] == 'P' && k[2] == 'l');
    }
}

/// The event of an entry: when, by whom, of which kind, and found by the branch and
/// the number of its pull request, or else by the number of its issue.
pub proof fn law_entry_becomes_its_event(js: Seq<Json>, j: Json)
    requires
        !is_branch_change(j),
    ensures
        ({
            let e = feed::feed_rows(js.push(j)).last();
            let pull = number_at(j, seq!["payload"@, "pull_request"@, "number"@]);
            let issue = number_at(j, seq!["payload"@, "issue"@, "number"@]);
            let head = text_at4(j, "payload"@, "pull_request"@, "head"@, "ref"@);
            let number = match (pull, issue) {
                (Some(n), _) => text::decimal(n as int),
                (None, Some(n)) => text::decimal(n as int),
                (None, None) => seq![],
            };
            e == event::event_of(
                text_at(j, seq!["created_at"@]),
                text_at(j, seq!["actor"@, "login"@]),
                kind_of(j),
                text::without_suffix(kind_of(j), "Event"@),
                e.detail,
                head + " "@ + number,
            )
        }),
{
    lemma_item(j);
    assert(js.push(j).drop_last() =~= js);
}

/// The text at the end of a path of four keys, or nothing.
pub open spec fn text_at4(
    j: Json,
    a: Seq<char>,
    b: Seq<char>,
    c: Seq<char>,
    d: Seq<char>,
) -> Seq<char> {
    match at(j, seq![a, b, c]) {
        Some(x) => text_at(x, seq![d]),
        None => seq![],
    }
}

/// What an entry says in words: a fork where it went, a star that it is one, a
/// release its tag, an issue what was done to it, a comment its issue, and whatever
/// concerns a pull request what was done to it, a review where nothing is said.
/// Anything else says its kind.
pub proof fn law_entry_says_what_happened(js: Seq<Json>, j: Json)
    requires
        !is_branch_change(j),
    ensures
        ({
            let detail = feed::feed_rows(js.push(j)).last().detail;
            let kind = kind_of(j);
            let action = text_at(j, seq!["payload"@, "action"@]);
            let pull = number_at(j, seq!["payload"@, "pull_request"@, "number"@]);
            let issue = number_at(j, seq!["payload"@, "issue"@, "number"@]);
            let about_pull = exists|s: Seq<char>| kind == #[trigger] ("PullRequest"@ + s);
            &&& kind == "ForkEvent"@ ==> detail == "-> "@ + text_at(
                j,
                seq!["payload"@, "forkee"@, "full_name"@],
            )
            &&& kind == "WatchEvent"@ ==> detail == "starred"@
            &&& kind == "ReleaseEvent"@ ==> detail == text_at(
                j,
                seq!["payload"@, "release"@, "tag_name"@],
            )
            &&& kind == "IssuesEvent"@ ==> detail == action + hash(issue)
            &&& kind == "IssueCommentEvent"@ ==> detail == "comment"@ + hash(issue)
            &&& about_pull && action.len() > 0 ==> detail == action + hash(pull)
            &&& about_pull && action.len() == 0 ==> detail == "review"@ + hash(pull)
            &&& kind != "ForkEvent"@ && kind != "WatchEvent"@ && kind != "ReleaseEvent"@ && kind
                != "IssuesEvent"@ && kind != "IssueCommentEvent"@ && !about_pull ==> detail
                == text::without_suffix(kind, "Event"@)
        }),
{
    lemma_item(j);
    assert(js.push(j).drop_last() =~= js);
    let kind = kind_of(j);
    let item = feed::feed_item_of(j);
    on_text::law_begins_is_a_front(kind, "PullRequest"@);
    reveal_strlit("ForkEvent");
    reveal_strlit("WatchEvent");
    reveal_strlit("ReleaseEvent");
    reveal_strlit("IssuesEvent");
    reveal_strlit("IssueCommentEvent");
    reveal_strlit("PullRequest");
    assert("ForkEvent"@[0] == 'F' && "WatchEvent"@[0] == 'W' && "ReleaseEvent"@[0] == 'R');
    assert("IssuesEvent"@[0] == 'I' && "IssueCommentEvent"@[0] == 'I');
    assert("IssuesEvent"@.len() == 11 && "IssueCommentEvent"@.len() == 17);
    if text::begins(kind, "PullRequest"@) {
        assert(kind.take("PullRequest"@.len() as int)[0] == 'P');
        assert(kind[0] == 'P');
    }
    assert(item.action + " #"@ + text::decimal(0) =~= item.action + hash(None));
    assert("comment"@ + " #"@ + text::decimal(0) =~= "comment"@ + hash(None));
    assert("review"@ + " #"@ + text::decimal(0) =~= "review"@ + hash(None));
    match item.issue {
        Some(n) => {
            assert(item.action + " #"@ + text::decimal(n as int) =~= item.action + hash(Some(n)));
            assert("comment"@ + " #"@ + text::decimal(n as int) =~= "comment"@ + hash(Some(n)));
        },
        None => {},
    }
    match item.pull {
        Some(n) => {
            assert(item.action + " #"@ + text::decimal(n as int) =~= item.action + hash(Some(n)));
            assert("review"@ + " #"@ + text::decimal(n as int) =~= "review"@ + hash(Some(n)));
        },
        None => {},
    }
}

proof fn lemma_item(j: Json)
    ensures
        ({
            let item = feed::feed_item_of(j);
            &&& item.kind == kind_of(j)
            &&& item.action == text_at(j, seq!["payload"@, "action"@])
            &&& item.pull == number_at(j, seq!["payload"@, "pull_request"@, "number"@])
            &&& item.issue == number_at(j, seq!["payload"@, "issue"@, "number"@])
            &&& item.head == text_at4(j, "payload"@, "pull_request"@, "head"@, "ref"@)
            &&& item.forkee == text_at(j, seq!["payload"@, "forkee"@, "full_name"@])
            &&& item.tag == text_at(j, seq!["payload"@, "release"@, "tag_name"@])
            &&& item.login == text_at(j, seq!["actor"@, "login"@])
            &&& item.ts == text_at(j, seq!["created_at"@])
        }),
{
    lemma_path(j, "type"@, seq![], seq![]);
    lemma_path(j, "created_at"@, seq![], seq![]);
    lemma_path(j, "actor"@, "login"@, seq![]);
    lemma_path(j, "payload"@, "action"@, seq![]);
    lemma_path(j, "payload"@, "pull_request"@, "number"@);
    lemma_path(j, "payload"@, "pull_request"@, "head"@);
    lemma_path(j, "payload"@, "issue"@, "number"@);
    lemma_path(j, "payload"@, "forkee"@, "full_name"@);
    lemma_path(j, "payload"@, "release"@, "tag_name"@);
    match at(j, seq!["payload"@, "pull_request"@, "head"@]) {
        Some(x) => lemma_path(x, "ref"@, seq![], seq![]),
        None => {},
    }
}

/// The timelines that are asked for are those of the pull requests that an entry
/// names, of the entries that are listed: none is left out, none is added, and they
/// come in ascending order.
pub proof fn law_timelines_of_all_named_pulls(js: Seq<Json>)
    ensures
        forall|a: int, b: int|
            0 <= a < b < feed::feed_pulls(js).len() ==> feed::feed_pulls(js)[a]
                < feed::feed_pulls(js)[b],
        forall|n: i64| #[trigger]
            feed::feed_pulls(js).contains(n) <==> exists|i: int|
                0 <= i < js.len() && !is_branch_change(#[trigger] js[i]) && number_at(
                    js[i],
                    seq!["payload"@, "pull_request"@, "number"@],
                ) == Some(n),
{
    feed::law_pulls_asked_once(js);
    assert forall|n: i64| #[trigger] feed::feed_pulls(js).contains(n) == (exists|i: int|
        0 <= i < js.len() && !is_branch_change(#[trigger] js[i]) && number_at(
            js[i],
            seq!["payload"@, "pull_request"@, "number"@],
        ) == Some(n)) by {
        if feed::feed_pulls(js).contains(n) {
            let i = choose|i: int| 0 <= i < js.len() && #[trigger] feed::feed_pull(js[i]) == Some(n);
            lemma_item(js[i]);
            assert(!is_branch_change(js[i]));
        }
        if exists|i: int|
            0 <= i < js.len() && !is_branch_change(#[trigger] js[i]) && number_at(
                js[i],
                seq!["payload"@, "pull_request"@, "number"@],
            ) == Some(n) {
            let i = choose|i: int|
                0 <= i < js.len() && !is_branch_change(#[trigger] js[i]) && number_at(
                    js[i],
                    seq!["payload"@, "pull_request"@, "number"@],
                ) == Some(n);
            lemma_item(js[i]);
            assert(feed::feed_pull(js[i]) == Some(n));
        }
    }
}

// ---------------------------------------------------------------------------
// Timelines
// ---------------------------------------------------------------------------

/// Of a timeline, a review that is asked for, no longer asked for or dismissed adds
/// one event at the end, and any other entry nothing.
pub proof fn law_reviews_alone_are_taken_from_timelines(pr: int, js: Seq<Json>, j: Json)
    ensures
        feed::review_rows(pr, seq![]) == Seq::<EvView>::empty(),
        ({
            let what = text_at(j, seq!["event"@]);
            let before = feed::review_rows(pr, js);
            let after = feed::review_rows(pr, js.push(j));
            &&& what == "review_requested"@ ==> after == before.push(
                review_as(pr, j, "requested"@),
            )
            &&& what == "review_request_removed"@ ==> after == before.push(
                review_as(pr, j, "unrequested"@),
            )
            &&& what == "review_dismissed"@ ==> after == before.push(
                review_as(pr, j, "dismissed"@),
            )
            &&& what != "review_requested"@ && what != "review_request_removed"@ && what
                != "review_dismissed"@ ==> after == before
        }),
{
    lemma_path(j, "event"@, seq![], seq![]);
    lemma_path(j, "created_at"@, seq![], seq![]);
    lemma_path(j, "actor"@, "login"@, seq![]);
    lemma_path(j, "requested_reviewer"@, "login"@, seq![]);
    lemma_path(j, "requested_team"@, "slug"@, seq![]);
    assert(js.push(j).drop_last() =~= js);
    reveal_strlit("review_requested");
    reveal_strlit("review_request_removed");
    reveal_strlit("review_dismissed");
    assert("review_requested"@.len() == 16 && "review_request_removed"@.len() == 22);
    assert("review_dismissed"@.len() == 16 && "review_dismissed"@[7] == 'd');
    assert("review_requested"@[7] == 'r');
    assert(feed::review_rows(pr, seq![]) =~= Seq::<EvView>::empty());
    let login = text_at(j, seq!["actor"@, "login"@]);
    assert(login.len() == 0 ==> login =~= Seq::<char>::empty());
}

/// The event of a review of a pull request: what was done, whose review it is (that
/// of a user, or else of a team, or just a review) and the number, by which it can
/// be found.
pub open spec fn review_as(pr: int, j: Json, word: Seq<char>) -> EvView {
    let login = text_at(j, seq!["actor"@, "login"@]);
    let user = at(j, seq!["requested_reviewer"@, "login"@]);
    let team = text_at(j, seq!["requested_team"@, "slug"@]);
    let who = match user {
        Some(Json::Text(name)) => name,
        _ => team,
    };
    event::event_of(
        text_at(j, seq!["created_at"@]),
        if login == Seq::<char>::empty() {
            "?"@
        } else {
            login
        },
        text_at(j, seq!["event"@]),
        "Review"@,
        word + " "@ + (if who.len() == 0 {
            "review"@
        } else {
            who
        }) + " #"@ + text::decimal(pr),
        text::decimal(pr),
    )
}

}
