//! What the calls of `gh` and the command line are for: what is asked, and what the
//! replies mean.
use crate::cli;
use crate::cli::{CliView, InvocationView, Scan};
use crate::event::EvView;
use crate::feed;
use crate::gh;
use crate::gh::ReplyView;
use crate::json;
use crate::json::Json;
use crate::laws::on_events;
use crate::laws::on_text;
use crate::load;
use crate::load::LoaderView;
use crate::text;
use vstd::prelude::*;
use vstd::string::*;

verus! {

// ---------------------------------------------------------------------------
// Lists
// ---------------------------------------------------------------------------

/// Bytes without a line feed are one line, nothing has no lines, and a line feed
/// anywhere parts the lines before it from those behind it.
pub proof fn law_lines_are_parted_by_line_feeds(s: Seq<u8>, a: Seq<u8>, b: Seq<u8>)
    ensures
        gh::byte_lines(seq![]) == Seq::<Seq<u8>>::empty(),
        s.len() > 0 && !s.contains(10) ==> gh::byte_lines(s) == seq![s],
        gh::byte_lines(a + seq![10u8] + b) == gh::byte_lines(a) + gh::byte_lines(b),
{
    if s.len() > 0 && !s.contains(10) {
        lemma_one_line(s);
    }
    lemma_lines_concat(a + seq![10u8], b);
    assert((a + seq![10u8]).drop_last() =~= a);
}

proof fn lemma_one_line(s: Seq<u8>)
    requires
        s.len() > 0,
        !s.contains(10),
    ensures
        gh::byte_lines(s) == seq![s],
    decreases s.len(),
{
    let rest = s.drop_last();
    assert(s[s.len() - 1] == s.last());
    if rest.len() == 0 {
        assert(gh::byte_lines(rest) =~= Seq::<Seq<u8>>::empty());
        assert(seq![s.last()] =~= s);
        assert(gh::byte_lines(s) =~= seq![s]);
    } else {
        assert(!rest.contains(10)) by {
            if rest.contains(10) {
                let k = choose|k: int| 0 <= k < rest.len() && rest[k] == 10;
                assert(s[k] == 10);
            }
        }
        assert(rest[rest.len() - 1] == rest.last());
        assert(rest.last() != 10);
        lemma_one_line(rest);
        assert(rest.push(s.last()) =~= s);
        assert(gh::byte_lines(s) =~= seq![s]);
    }
}

proof fn lemma_lines_concat(a: Seq<u8>, b: Seq<u8>)
    requires
        a.len() > 0,
        a.last() == 10,
    ensures
        gh::byte_lines(a + b) == gh::byte_lines(a) + gh::byte_lines(b),
    decreases b.len(),
{
    if b.len() == 0 {
        assert(a + b =~= a);
        assert(gh::byte_lines(a) + gh::byte_lines(b) =~= gh::byte_lines(a));
    } else {
        let all = a + b;
        let rest = b.drop_last();
        lemma_lines_concat(a, rest);
        assert(all.drop_last() =~= a + rest);
        assert(all.last() == b.last());
        if rest.len() == 0 {
            assert((a + rest).last() == a.last());
        } else {
            assert((a + rest).last() == rest.last());
        }
        let (wa, wr) = (gh::byte_lines(a), gh::byte_lines(rest));
        if b.last() == 10 {
        } else if rest.len() == 0 || rest.last() == 10 {
            assert((wa + wr).push(seq![b.last()]) =~= wa + wr.push(seq![b.last()]));
        } else {
            assert(wr.len() > 0);
            let all_lines = wa + wr;
            assert(all_lines.drop_last().push(all_lines.last().push(b.last())) =~= wa
                + wr.drop_last().push(wr.last().push(b.last())));
        }
    }
}

/// Each line that parses adds its value to the list, and any other line nothing.
pub proof fn law_lines_that_parse_are_listed(lines: Seq<Seq<u8>>, l: Seq<u8>)
    ensures
        gh::line_values(seq![]) == Seq::<Json>::empty(),
        json::parsed(l) matches Ok(j) ==> gh::line_values(lines.push(l)) == gh::line_values(
            lines,
        ).push(j),
        json::parsed(l) is Err ==> gh::line_values(lines.push(l)) == gh::line_values(lines),
{
    assert(lines.push(l).drop_last() =~= lines);
    assert(gh::line_values(seq![]) =~= Seq::<Json>::empty());
}

/// A list that was had is that of the values in its output, whatever was complained
/// of. One that was not had is an error with the complaint, trimmed, or with why
/// `gh` did not run; where it is not needed it counts as empty.
pub proof fn law_replies_are_lists_or_errors(out: Seq<u8>, err: Seq<u8>, why: Seq<char>)
    ensures
        ({
            let good = ReplyView::Output { success: true, stdout: out, stderr: err };
            let bad = ReplyView::Output { success: false, stdout: out, stderr: err };
            let none = ReplyView::NotRun(why);
            let vals = gh::line_values(gh::byte_lines(out));
            &&& gh::listed(good) == Ok::<Seq<Json>, Seq<char>>(vals)
            &&& gh::listed(bad) == Err::<Seq<Json>, Seq<char>>(text::trimmed(text::lossy(err)))
            &&& gh::listed(none) == Err::<Seq<Json>, Seq<char>>("running gh: "@ + why)
            &&& load::listed_or_none(good) == vals
            &&& load::listed_or_none(bad) == Seq::<Json>::empty()
            &&& load::listed_or_none(none) == Seq::<Json>::empty()
        }),
{
}

// ---------------------------------------------------------------------------
// Loading
// ---------------------------------------------------------------------------

/// The arguments of a call for all pages of a list: the host is named where one is
/// set.
pub open spec fn call(host: Option<Seq<char>>, path: Seq<char>) -> Seq<Seq<char>> {
    match host {
        Some(h) => seq![
            "api"@,
            "--hostname"@,
            h,
            path,
            "--paginate"@,
            "--jq"@,
            ".[]"@,
        ],
        None => seq!["api"@, path, "--paginate"@, "--jq"@, ".[]"@],
    }
}

/// The calls are made in this order: for the branch changes, for the events, and
/// then for the timeline of each pull request that the events name, one by one.
pub proof fn law_calls_come_in_order(
    repo: Seq<char>,
    host: Option<Seq<char>>,
    activity: ReplyView,
    events: ReplyView,
    timelines: Seq<ReplyView>,
)
    requires
        gh::listed(activity) is Ok,
        timelines.len() <= feed::feed_pulls(load::listed_or_none(events)).len() <= usize::MAX,
    ensures
        ({
            let start = load::fresh(repo, host);
            let pulls = feed::feed_pulls(load::listed_or_none(events));
            let one = load::run(start, seq![activity]);
            let later = load::run(start, seq![activity, events] + timelines);
            &&& start.next() == Some(call(host, "repos/"@ + repo + "/activity?per_page=100"@))
            &&& one is Ok && one->Ok_0.next() == Some(
                call(host, "repos/"@ + repo + "/events?per_page=100"@),
            )
            &&& later is Ok
            &&& timelines.len() < pulls.len() ==> later->Ok_0.next() == Some(
                call(
                    host,
                    "repos/"@ + repo + "/issues/"@ + text::decimal(
                        pulls[timelines.len() as int] as int,
                    ) + "/timeline?per_page=100"@,
                ),
            )
            &&& timelines.len() == pulls.len() ==> later->Ok_0.next() is None
        }),
{
    let start = load::fresh(repo, host);
    let first = seq![activity];
    let both = seq![activity, events];
    assert(first.drop_last() =~= Seq::<ReplyView>::empty());
    assert(both.drop_last() =~= first);
    assert(load::run(start, Seq::<ReplyView>::empty()) == Ok::<LoaderView, Seq<char>>(start));
    let one = start.after(activity)->Ok_0;
    assert(load::run(start, first) == Ok::<LoaderView, Seq<char>>(one));
    let two = one.after(events)->Ok_0;
    assert(load::run(start, both) == Ok::<LoaderView, Seq<char>>(two));
    load::lemma_run_split(start, both, timelines);
    load::lemma_run_timelines(two, timelines);
    assert forall|path: Seq<char>| #[trigger] gh::list_args(host, path) == call(host, path) by {
        assert(gh::list_args(host, path) =~= call(host, path));
    }
}

/// A sorted list is newest first, and of every time it has the events of that time
/// in the order in which they came.
pub proof fn law_sorting_is_stable(sorted: Seq<EvView>, evs: Seq<EvView>, ts: Seq<char>)
    requires
        load::sorted_from(sorted, evs),
    ensures
        forall|i: int, j: int|
            0 <= i < j < sorted.len() ==> !text::precedes(
                (#[trigger] sorted[i]).ts,
                (#[trigger] sorted[j]).ts,
            ),
        sorted.filter(|e: EvView| e.ts == ts) == evs.filter(|e: EvView| e.ts == ts),
        sorted.len() == evs.len(),
{
    lemma_at_time_filters(sorted, ts);
    lemma_at_time_filters(evs, ts);
    assert(load::at_time(sorted, ts) == load::at_time(evs, ts));
    lemma_same_length(sorted, evs);
}

proof fn lemma_at_time_filters(evs: Seq<EvView>, ts: Seq<char>)
    ensures
        load::at_time(evs, ts) == evs.filter(|e: EvView| e.ts == ts),
    decreases evs.len(),
{
    reveal(Seq::filter);
    if evs.len() > 0 {
        lemma_at_time_filters(evs.drop_last(), ts);
    }
}

/// Lists with the same events of every time are of the same length.
proof fn lemma_same_length(a: Seq<EvView>, b: Seq<EvView>)
    requires
        forall|ts: Seq<char>| #[trigger] load::at_time(a, ts) == load::at_time(b, ts),
    ensures
        a.len() == b.len(),
    decreases a.len() + b.len(),
{
    if a.len() == 0 {
        if b.len() > 0 {
            assert(load::at_time(b, b.last().ts).len() > 0);
            assert(load::at_time(a, b.last().ts) == load::at_time(b, b.last().ts));
        }
    } else {
        let ts = a.last().ts;
        let rest = a.drop_last();
        assert(load::at_time(a, ts) == load::at_time(b, ts));
        let k = lemma_last_at_time(b, ts);
        let other = b.remove(k);
        assert forall|t: Seq<char>| #[trigger]
            load::at_time(rest, t) == load::at_time(other, t) by {
            assert(load::at_time(a, t) == load::at_time(b, t));
            lemma_at_time_removed(b, k, t);
            if t == ts {
                assert(load::at_time(a, t).drop_last() =~= load::at_time(rest, t));
                assert(load::at_time(b, t).drop_last() =~= load::at_time(other, t));
            }
        }
        lemma_same_length(rest, other);
    }
}

/// The last event of a time.
proof fn lemma_last_at_time(b: Seq<EvView>, ts: Seq<char>) -> (k: int)
    requires
        load::at_time(b, ts).len() > 0,
    ensures
        0 <= k < b.len(),
        b[k].ts == ts,
        forall|l: int| k < l < b.len() ==> (#[trigger] b[l]).ts != ts,
    decreases b.len(),
{
    if b.last().ts == ts {
        b.len() - 1
    } else {
        let rest = b.drop_last();
        let k = lemma_last_at_time(rest, ts);
        assert forall|l: int| k < l < b.len() implies (#[trigger] b[l]).ts != ts by {
            if l < rest.len() {
                assert(rest[l] == b[l]);
            }
        }
        k
    }
}

/// Taking out the last event of its time takes it off the events of that time.
proof fn lemma_at_time_removed(b: Seq<EvView>, k: int, t: Seq<char>)
    requires
        0 <= k < b.len(),
        forall|l: int| k < l < b.len() ==> (#[trigger] b[l]).ts != b[k].ts,
    ensures
        t != b[k].ts ==> load::at_time(b.remove(k), t) == load::at_time(b, t),
        t == b[k].ts ==> load::at_time(b, t) == load::at_time(b.remove(k), t).push(b[k]),
    decreases b.len(),
{
    let other = b.remove(k);
    if k == b.len() - 1 {
        assert(other =~= b.drop_last());
    } else {
        let rest = b.drop_last();
        assert forall|l: int| k < l < rest.len() implies (#[trigger] rest[l]).ts != rest[k].ts by {
            assert(rest[l] == b[l]);
        }
        lemma_at_time_removed(rest, k, t);
        assert(other.drop_last() =~= rest.remove(k));
        assert(other.last() == b.last());
        assert(b[b.len() - 1].ts != b[k].ts);
    }
}

// ---------------------------------------------------------------------------
// The commits of a push
// ---------------------------------------------------------------------------

/// The list of commits in what a comparison gave; empty where there is none.
pub open spec fn commit_items(j: Json) -> Seq<Json> {
    match on_events::at(j, seq!["commits"@]) {
        Some(Json::Array(items)) => items,
        _ => seq![],
    }
}

/// The row says a commit: the first seven bytes of its id, or all of an id that has
/// no such front, then two spaces and the first line of its message.
pub open spec fn says_commit(row: Seq<char>, item: Json) -> bool {
    let sha = on_events::text_at(item, seq!["sha"@]);
    let message = on_events::text_at(item, seq!["commit"@, "message"@]);
    exists|short: Seq<char>|
        row == #[trigger] (short + "  "@ + text::first_line(message)) && (on_events::is_range(
            sha,
            0,
            7,
            short,
        ) || (short == sha && forall|t: Seq<char>| !on_events::is_range(sha, 0, 7, t)))
}

/// The count of a push is the number of commits that the comparison lists, however
/// many: up to ten of them stand in rows, in order, and with more the last row says
/// how many more, so that the ten and those make up the count. None is said where
/// there is none.
pub proof fn law_count_is_that_of_the_commits(out: Seq<u8>, err: Seq<u8>, j: Json)
    requires
        json::parsed(out) == Ok::<Json, Seq<char>>(j),
    ensures
        ({
            let (rows, count) = gh::compared(
                ReplyView::Output { success: true, stdout: out, stderr: err },
            );
            let n = commit_items(j).len();
            &&& count == Some(n)
            &&& n == 0 ==> rows == seq!["(no commits)"@]
            &&& 0 < n <= 10 ==> rows.len() == n
            &&& n > 10 ==> rows.len() == 11
            &&& n > 10 ==> exists|more: Seq<char>|
                rows[10] == #[trigger] ("… "@ + more + " more"@) && on_text::writes(more, n - 10)
            &&& forall|k: int|
                0 <= k < n && k < 10 ==> says_commit(#[trigger] rows[k], commit_items(j)[k])
        }),
{
    let (rows, count) = gh::compared(
        ReplyView::Output { success: true, stdout: out, stderr: err },
    );
    on_events::lemma_path(j, "commits"@, seq![], seq![]);
    let items = commit_items(j);
    let cs = gh::commits_of(j);
    assert(cs.len() == items.len());
    let n = items.len();
    if n > 10 {
        let more = text::decimal(cs.len() - gh::COMMIT_ROWS);
        on_text::law_decimal_reads_back(cs.len() - gh::COMMIT_ROWS);
        assert(rows[10] == "… "@ + more + " more"@);
    }
    assert forall|k: int| 0 <= k < n && k < 10 implies says_commit(
        #[trigger] rows[k],
        items[k],
    ) by {
        let item = items[k];
        on_events::lemma_path(item, "sha"@, seq![], seq![]);
        on_events::lemma_path(item, "commit"@, "message"@, seq![]);
        let sha = on_events::text_at(item, seq!["sha"@]);
        let message = on_events::text_at(item, seq!["commit"@, "message"@]);
        assert(cs[k] == gh::commit_of(item));
        assert(rows[k] == gh::commit_row(cs[k]));
        let short = gh::short_sha(sha);
        match text::byte_range(sha, 0, 7) {
            Some(t) => {
                on_text::law_byte_range_is_a_part(sha, 0, 7, t);
                assert(on_events::is_range(sha, 0, 7, short));
            },
            None => {
                assert forall|t: Seq<char>| !on_events::is_range(sha, 0, 7, t) by {
                    on_text::law_byte_range_is_a_part(sha, 0, 7, t);
                }
            },
        }
        assert(rows[k] == short + "  "@ + text::first_line(message));
    }
}

/// Where the commits could not be had, the one row says why, in brackets, and the
/// count is not known.
pub proof fn law_failed_comparisons_say_why(out: Seq<u8>, err: Seq<u8>, why: Seq<char>)
    ensures
        gh::compared(ReplyView::NotRun(why)) == (
            seq!["(gh error: "@ + why + ")"@],
            None::<nat>,
        ),
        gh::compared(ReplyView::Output { success: false, stdout: out, stderr: err }) == (
            seq!["(compare failed: "@ + text::trimmed(text::lossy(err)) + ")"@],
            None::<nat>,
        ),
        json::parsed(out) matches Err(e) ==> gh::compared(
            ReplyView::Output { success: true, stdout: out, stderr: err },
        ) == (seq!["(parse error: "@ + e + ")"@], None::<nat>),
{
}

// ---------------------------------------------------------------------------
// The command line
// ---------------------------------------------------------------------------

/// The arguments are read one by one: a host or a repository by its option, the last
/// one counting and an option at the very end setting none; help and version as soon
/// as they are asked for; and everything else as it stands.
pub proof fn law_arguments_are_read_one_by_one(
    rest: Seq<Seq<char>>,
    st: Scan,
    a: Seq<char>,
    v: Seq<char>,
)
    ensures
        cli::invocation(rest) == cli::invocation_from(
            rest,
            Scan { host: None, repo: None, pos: seq![] },
        ),
        a == "--host"@ ==> cli::invocation_from(seq![a, v] + rest, st) == cli::invocation_from(
            rest,
            Scan { host: Some(v), repo: st.repo, pos: st.pos },
        ),
        a == "--host"@ ==> cli::invocation_from(seq![a], st) == cli::invocation_from(
            seq![],
            Scan { host: None, repo: st.repo, pos: st.pos },
        ),
        a == "-R"@ || a == "--repo"@ ==> cli::invocation_from(seq![a, v] + rest, st)
            == cli::invocation_from(rest, Scan { host: st.host, repo: Some(v), pos: st.pos }),
        a == "-R"@ || a == "--repo"@ ==> cli::invocation_from(seq![a], st)
            == cli::invocation_from(seq![], Scan { host: st.host, repo: None, pos: st.pos }),
        a == "-h"@ || a == "--help"@ ==> cli::invocation_from(seq![a] + rest, st)
            == InvocationView::Help,
        a == "-V"@ || a == "--version"@ ==> cli::invocation_from(seq![a] + rest, st)
            == InvocationView::Version,
        a != "--host"@ && a != "-R"@ && a != "--repo"@ && a != "-h"@ && a != "--help"@ && a
            != "-V"@ && a != "--version"@ ==> cli::invocation_from(seq![a] + rest, st)
            == cli::invocation_from(
            rest,
            Scan { host: st.host, repo: st.repo, pos: st.pos.push(a) },
        ),
{
    reveal_strlit("--host");
    reveal_strlit("-R");
    reveal_strlit("--repo");
    reveal_strlit("-h");
    reveal_strlit("--help");
    reveal_strlit("-V");
    reveal_strlit("--version");
    assert("--host"@.len() == 6 && "-R"@.len() == 2 && "--repo"@.len() == 6);
    assert("-h"@.len() == 2 && "--help"@.len() == 6 && "-V"@.len() == 2);
    assert("--version"@.len() == 9);
    assert("--host"@[3] == 'o' && "--repo"@[2] == 'r' && "--help"@[3] == 'e' && "--host"@[2] == 'h');
    assert("-R"@[1] == 'R' && "-h"@[1] == 'h' && "-V"@[1] == 'V');
    assert(cli::unset() =~= Scan { host: None, repo: None, pos: seq![] });
    let two = seq![a, v] + rest;
    assert(two[0] == a && two[1] == v);
    assert(two.skip(2) =~= rest);
    let one = seq![a] + rest;
    assert(one[0] == a);
    assert(one.drop_first() =~= rest);
    let alone = seq![a];
    assert(cli::past_value(alone) =~= seq![]);
}

/// Once all arguments are read, the first that is no option is the filter. The
/// repository is the one that its option named, or else the second such argument;
/// without either it is that of the current directory.
pub proof fn law_arguments_mean_filter_and_repository(st: Scan)
    ensures
        ({
            let end = cli::invocation_from(seq![], st);
            let filter = if st.pos.len() > 0 {
                st.pos[0]
            } else {
                seq![]
            };
            &&& st.repo matches Some(repo) ==> end == InvocationView::Run(
                CliView { repo, host: st.host, filter },
            )
            &&& st.repo is None && st.pos.len() >= 2 ==> end == InvocationView::Run(
                CliView { repo: st.pos[1], host: st.host, filter },
            )
            &&& st.repo is None && st.pos.len() < 2 ==> end == (InvocationView::Lookup {
                host: st.host,
                filter,
            })
        }),
{
}

/// The current directory's repository is shown on the host of its address, which
/// stands between the second and the third slash, unless that is the public one or
/// the command line named another.
pub proof fn law_directory_names_repository_and_host(
    out: Seq<u8>,
    err: Seq<u8>,
    j: Json,
    scheme: Seq<char>,
    h: Seq<char>,
    path: Seq<char>,
    host: Option<Seq<char>>,
    filter: Seq<char>,
)
    requires
        json::parsed(out) == Ok::<Json, Seq<char>>(j),
        !scheme.contains('/'),
        !h.contains('/'),
        on_events::text_at(j, seq!["url"@]) == scheme + seq!['/'] + (seq!['/'] + h)
            || on_events::text_at(j, seq!["url"@]) == scheme + seq!['/'] + (seq!['/'] + (h + seq![
            '/',
        ] + path)),
    ensures
        cli::looked_up(
            ReplyView::Output { success: true, stdout: out, stderr: err },
            host,
            filter,
        ) == Ok::<CliView, Seq<char>>(
            CliView {
                repo: on_events::text_at(j, seq!["nameWithOwner"@]),
                host: if host is Some {
                    host
                } else if h == "github.com"@ {
                    None
                } else {
                    Some(h)
                },
                filter,
            },
        ),
{
    on_events::lemma_path(j, "url"@, seq![], seq![]);
    on_events::lemma_path(j, "nameWithOwner"@, seq![], seq![]);
    let url = on_events::text_at(j, seq!["url"@]);
    let none = Seq::<char>::empty();
    assert(seq!['/'] + h =~= none + seq!['/'] + h);
    let tail = h + seq!['/'] + path;
    assert(seq!['/'] + tail =~= none + seq!['/'] + tail);
    on_text::law_pieces_are_parted(scheme, scheme, seq!['/'] + h, '/');
    on_text::law_pieces_are_parted(scheme, scheme, seq!['/'] + tail, '/');
    on_text::law_pieces_are_parted(none, none, h, '/');
    on_text::law_pieces_are_parted(none, none, tail, '/');
    on_text::law_pieces_are_parted(h, h, path, '/');
    assert(text::pieces(url, '/')[2] == h);
}

/// A repository without a host in its address is on the public one.
pub proof fn law_address_without_a_host(
    out: Seq<u8>,
    err: Seq<u8>,
    j: Json,
    host: Option<Seq<char>>,
    filter: Seq<char>,
)
    requires
        json::parsed(out) == Ok::<Json, Seq<char>>(j),
        text::pieces(on_events::text_at(j, seq!["url"@]), '/').len() <= 2,
    ensures
        cli::looked_up(
            ReplyView::Output { success: true, stdout: out, stderr: err },
            host,
            filter,
        ) == Ok::<CliView, Seq<char>>(
            CliView { repo: on_events::text_at(j, seq!["nameWithOwner"@]), host, filter },
        ),
{
    on_events::lemma_path(j, "url"@, seq![], seq![]);
    on_events::lemma_path(j, "nameWithOwner"@, seq![], seq![]);
}

/// Where the current directory's repository cannot be found out, the error says why:
/// that `gh` is not there, that this is no repository (with how the program is
/// called, and the complaint), or what is wrong with the answer.
pub proof fn law_no_repository_says_why(
    out: Seq<u8>,
    err: Seq<u8>,
    why: Seq<char>,
    host: Option<Seq<char>>,
    filter: Seq<char>,
)
    ensures
        cli::repo_view_args() == seq!["repo"@, "view"@, "--json"@, "nameWithOwner,url"@],
        cli::looked_up(ReplyView::NotRun(why), host, filter) == Err::<CliView, Seq<char>>(
            "gh not found: "@ + why,
        ),
        cli::looked_up(
            ReplyView::Output { success: false, stdout: out, stderr: err },
            host,
            filter,
        ) == Err::<CliView, Seq<char>>(
            "not inside a GitHub repo (and no repo given).\n"@ + cli::USAGE@ + "\n"@
                + text::trimmed(text::lossy(err)),
        ),
        json::parsed(out) matches Err(e) ==> cli::looked_up(
            ReplyView::Output { success: true, stdout: out, stderr: err },
            host,
            filter,
        ) == Err::<CliView, Seq<char>>(e),
{
}

}
