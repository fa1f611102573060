//! Calls of the `gh` program: the arguments of each, and what its output says.
//!
//! Whoever runs the program hands the outcome back as a [`Reply`].
use crate::json;
use crate::json::{as_array, dig, parse, string_or_empty, Json};
use crate::text;
use crate::text::{from_utf8_lossy, get_bytes, line_of, show_i64, show_u64, trim};
use serde_json::Value;
use vstd::prelude::*;
use vstd::slice::slice_subrange;
use vstd::string::*;

verus! {

// ---------------------------------------------------------------------------
// Replies
// ---------------------------------------------------------------------------

/// How a call of `gh` went.
pub enum Reply {
    /// The program ran.
    Output { success: bool, stdout: Vec<u8>, stderr: Vec<u8> },
    /// The program could not be run, and why.
    NotRun(String),
}

/// What a reply holds.
pub enum ReplyView {
    Output { success: bool, stdout: Seq<u8>, stderr: Seq<u8> },
    NotRun(Seq<char>),
}

impl View for Reply {
    type V = ReplyView;

    open spec fn view(&self) -> ReplyView {
        match *self {
            Reply::Output { success, stdout, stderr } => ReplyView::Output {
                success,
                stdout: stdout@,
                stderr: stderr@,
            },
            Reply::NotRun(why) => ReplyView::NotRun(why@),
        }
    }
}

/// What a program wrote to its error stream, as text without white space at
/// either end.
pub open spec fn complaint(stderr: Seq<u8>) -> Seq<char> {
    text::trimmed(text::lossy(stderr))
}

/// What a program complained of, as text.
pub fn stderr_text(stderr: &Vec<u8>) -> (r: String)
    ensures
        r@ == complaint(stderr@),
{
    trim(from_utf8_lossy(stderr.as_slice()).as_str())
}

// ---------------------------------------------------------------------------
// Lists: one JSON value in each line
// ---------------------------------------------------------------------------

/// The lines of bytes: the longest runs without a line feed, in order.
pub open spec fn byte_lines(b: Seq<u8>) -> Seq<Seq<u8>>
    decreases b.len(),
{
    if b.len() == 0 {
        seq![]
    } else {
        let rest = b.drop_last();
        if b.last() == 10 {
            byte_lines(rest)
        } else if rest.len() == 0 || rest.last() == 10 {
            byte_lines(rest).push(seq![b.last()])
        } else {
            let lines = byte_lines(rest);
            lines.drop_last().push(lines.last().push(b.last()))
        }
    }
}

/// The values of the lines that parse, in order.
pub open spec fn line_values(lines: Seq<Seq<u8>>) -> Seq<Json>
    decreases lines.len(),
{
    if lines.len() == 0 {
        seq![]
    } else {
        match json::parsed(lines.last()) {
            Ok(j) => line_values(lines.drop_last()).push(j),
            Err(_) => line_values(lines.drop_last()),
        }
    }
}

/// What a reply to a list request says: the values of its lines, or why there are
/// none.
pub open spec fn listed(reply: ReplyView) -> Result<Seq<Json>, Seq<char>> {
    match reply {
        ReplyView::NotRun(why) => Err("running gh: "@ + why),
        ReplyView::Output { success, stdout, stderr } => if success {
            Ok(line_values(byte_lines(stdout)))
        } else {
            Err(complaint(stderr))
        },
    }
}

/// What a result of reading a list holds.
pub open spec fn listed_view(r: Result<Vec<Value>, String>) -> Result<Seq<Json>, Seq<char>> {
    match r {
        Ok(vals) => Ok(json::trees(vals@)),
        Err(e) => Err(e@),
    }
}

/// Adds the value of a line, if the line parses.
fn push_line(vals: &mut Vec<Value>, line: &[u8])
    ensures
        json::trees(final(vals)@) == (match json::parsed(line@) {
            Ok(j) => json::trees(old(vals)@).push(j),
            Err(_) => json::trees(old(vals)@),
        }),
{
    match parse(line) {
        Ok(v) => {
            let ghost start = vals@;
            vals.push(v);
            assert(json::trees(vals@) =~= json::trees(start).push(json::contents(v)));
        },
        Err(_) => {},
    }
}

/// The values of the lines of `stdout` that parse. Empty lines and lines that are
/// no JSON are passed over.
pub fn read_lines(stdout: &Vec<u8>) -> (r: Vec<Value>)
    ensures
        json::trees(r@) == line_values(byte_lines(stdout@)),
{
    let b = stdout.as_slice();
    let mut vals: Vec<Value> = Vec::new();
    let mut start: usize = 0;
    let mut i: usize = 0;
    assert(json::trees(vals@) =~= line_values(byte_lines(b@.take(0))));
    while i < b.len()
        invariant
            b@ == stdout@,
            start <= i <= b@.len(),
            forall|k: int| start <= k < i ==> b@[k] != 10,
            start == 0 || b@[start - 1] == 10,
            json::trees(vals@) == line_values(byte_lines(b@.take(start as int))),
            start < i ==> byte_lines(b@.take(i as int)) == byte_lines(b@.take(start as int)).push(
                b@.subrange(start as int, i as int),
            ),
        decreases b@.len() - i,
    {
        let ghost before = b@.take(i as int);
        let ghost after = b@.take(i + 1);
        let ghost done = byte_lines(b@.take(start as int));
        let ghost p = b@.subrange(start as int, i as int);
        assert(after.drop_last() =~= before);
        assert(after.last() == b@[i as int]);
        if b[i] == 10 {
            if start < i {
                push_line(&mut vals, slice_subrange(b, start, i));
                assert(done.push(p).drop_last() =~= done);
            }
            start = i + 1;
        } else {
            if start == i {
                if i > 0 {
                    assert(before.last() == b@[i - 1]);
                }
                assert(b@.subrange(start as int, i + 1) =~= seq![b@[i as int]]);
            } else {
                assert(before.last() == b@[i - 1]);
                assert(done.push(p).drop_last() =~= done);
                assert(p.push(b@[i as int]) =~= b@.subrange(start as int, i + 1));
            }
        }
        i += 1;
    }
    assert(b@.take(i as int) =~= b@);
    if start < i {
        let ghost done = byte_lines(b@.take(start as int));
        let ghost p = b@.subrange(start as int, i as int);
        assert(done.push(p).drop_last() =~= done);
        push_line(&mut vals, slice_subrange(b, start, i));
    }
    vals
}

/// Reads the reply to a list request.
pub fn gh_lines_reply(reply: &Reply) -> (r: Result<Vec<Value>, String>)
    ensures
        listed_view(r) == listed(reply@),
{
    match reply {
        Reply::NotRun(why) => {
            let mut e = "running gh: ".to_owned();
            e.append(why.as_str());
            Err(e)
        },
        Reply::Output { success, stdout, stderr } => {
            if *success {
                Ok(read_lines(stdout))
            } else {
                Err(stderr_text(stderr))
            }
        },
    }
}

// ---------------------------------------------------------------------------
// Requests
// ---------------------------------------------------------------------------

/// The arguments that every call of the API begins with.
pub open spec fn api_args(host: Option<Seq<char>>) -> Seq<Seq<char>> {
    match host {
        Some(h) => seq!["api"@, "--hostname"@, h],
        None => seq!["api"@],
    }
}

/// The arguments of a list request: every page, one value in each line.
pub open spec fn list_args(host: Option<Seq<char>>, path: Seq<char>) -> Seq<Seq<char>> {
    api_args(host) + seq![path, "--paginate"@, "--jq"@, ".[]"@]
}

/// The path of a repository's branch changes.
pub open spec fn activity_path(repo: Seq<char>) -> Seq<char> {
    "repos/"@ + repo + "/activity?per_page=100"@
}

/// The path of a repository's events.
pub open spec fn events_path(repo: Seq<char>) -> Seq<char> {
    "repos/"@ + repo + "/events?per_page=100"@
}

/// The path of a pull request's timeline.
pub open spec fn timeline_path(repo: Seq<char>, pr: int) -> Seq<char> {
    "repos/"@ + repo + "/issues/"@ + text::decimal(pr) + "/timeline?per_page=100"@
}

/// The path of the comparison of two commits.
pub open spec fn compare_path(repo: Seq<char>, before: Seq<char>, after: Seq<char>) -> Seq<char> {
    "repos/"@ + repo + "/compare/"@ + before + "..."@ + after
}

/// The arguments of a request to compare two commits.
pub open spec fn compare_args(
    host: Option<Seq<char>>,
    repo: Seq<char>,
    before: Seq<char>,
    after: Seq<char>,
) -> Seq<Seq<char>> {
    api_args(host).push(compare_path(repo, before, after))
}

/// Adds an argument.
pub(crate) fn push_arg(args: &mut Vec<String>, arg: &str)
    ensures
        text::texts(final(args)@) == text::texts(old(args)@).push(arg@),
{
    let ghost start = args@;
    let a = arg.to_owned();
    args.push(a);
    assert(text::texts(args@) =~= text::texts(start).push(arg@));
}

/// The arguments that every call of the API begins with.
fn api_request(host: &Option<String>) -> (r: Vec<String>)
    ensures
        text::texts(r@) == api_args(text::opt_text(*host)),
{
    let mut args: Vec<String> = Vec::new();
    assert(text::texts(args@) =~= seq![]);
    push_arg(&mut args, "api");
    match host {
        Some(h) => {
            push_arg(&mut args, "--hostname");
            push_arg(&mut args, h.as_str());
        },
        None => {},
    }
    assert(text::texts(args@) =~= api_args(text::opt_text(*host)));
    args
}

/// The arguments of a list request.
pub fn gh_lines_request(host: &Option<String>, path: &str) -> (r: Vec<String>)
    ensures
        text::texts(r@) == list_args(text::opt_text(*host), path@),
{
    let mut args = api_request(host);
    push_arg(&mut args, path);
    push_arg(&mut args, "--paginate");
    push_arg(&mut args, "--jq");
    push_arg(&mut args, ".[]");
    assert(text::texts(args@) =~= list_args(text::opt_text(*host), path@));
    args
}

/// Requests a repository's branch changes.
pub fn activity_request(host: &Option<String>, repo: &str) -> (r: Vec<String>)
    ensures
        text::texts(r@) == list_args(text::opt_text(*host), activity_path(repo@)),
{
    let mut path = "repos/".to_owned();
    path.append(repo);
    path.append("/activity?per_page=100");
    gh_lines_request(host, path.as_str())
}

/// Requests a repository's events.
pub fn events_request(host: &Option<String>, repo: &str) -> (r: Vec<String>)
    ensures
        text::texts(r@) == list_args(text::opt_text(*host), events_path(repo@)),
{
    let mut path = "repos/".to_owned();
    path.append(repo);
    path.append("/events?per_page=100");
    gh_lines_request(host, path.as_str())
}

/// Requests the timeline of a pull request.
pub fn fetch_reviews_request(host: &Option<String>, repo: &str, pr: i64) -> (r: Vec<String>)
    ensures
        text::texts(r@) == list_args(text::opt_text(*host), timeline_path(repo@, pr as int)),
{
    let mut path = "repos/".to_owned();
    path.append(repo);
    path.append("/issues/");
    path.append(show_i64(pr).as_str());
    path.append("/timeline?per_page=100");
    gh_lines_request(host, path.as_str())
}

/// Requests the comparison of the two ends of a push.
pub fn fetch_commits_request(
    host: &Option<String>,
    repo: &str,
    before: &str,
    after: &str,
) -> (r: Vec<String>)
    ensures
        text::texts(r@) == compare_args(text::opt_text(*host), repo@, before@, after@),
{
    let mut path = "repos/".to_owned();
    path.append(repo);
    path.append("/compare/");
    path.append(before);
    path.append("...");
    path.append(after);
    let mut args = api_request(host);
    push_arg(&mut args, path.as_str());
    args
}

// ---------------------------------------------------------------------------
// The commits of a push
// ---------------------------------------------------------------------------

/// A commit, as a comparison lists it.
pub struct Commit {
    pub sha: String,
    pub message: String,
}

/// What a commit holds.
#[verifier::ext_equal]
pub struct CommitView {
    pub sha: Seq<char>,
    pub message: Seq<char>,
}

impl View for Commit {
    type V = CommitView;

    open spec fn view(&self) -> CommitView {
        CommitView { sha: self.sha@, message: self.message@ }
    }
}

/// What a list of commits holds.
pub open spec fn commit_views(cs: Seq<Commit>) -> Seq<CommitView> {
    cs.map_values(|c: Commit| c@)
}

/// The most commits that are listed under a push.
pub const COMMIT_ROWS: usize = 10;

/// The commit that an element of a comparison's list describes.
pub open spec fn commit_of(j: Json) -> CommitView {
    CommitView {
        sha: json::text_or_empty(json::member(j, "sha"@)),
        message: json::text_or_empty(json::down(json::member(j, "commit"@), "message"@)),
    }
}

/// The commits that a comparison lists; none where it has no such list.
pub open spec fn commits_of(j: Json) -> Seq<CommitView> {
    match json::member(j, "commits"@) {
        Some(Json::Array(items)) => items.map_values(|c: Json| commit_of(c)),
        _ => seq![],
    }
}

/// The first seven bytes of a commit id, or all of it where it is shorter.
pub open spec fn short_sha(sha: Seq<char>) -> Seq<char> {
    match text::byte_range(sha, 0, 7) {
        Some(t) => t,
        None => sha,
    }
}

/// The row of a commit: its short id and the first line of its message.
pub open spec fn commit_row(c: CommitView) -> Seq<char> {
    short_sha(c.sha) + "  "@ + text::first_line(c.message)
}

/// The rows of the first commits, up to the limit.
pub open spec fn first_rows(cs: Seq<CommitView>) -> Seq<Seq<char>> {
    Seq::new(
        if cs.len() < COMMIT_ROWS {
            cs.len()
        } else {
            COMMIT_ROWS as nat
        },
        |i: int| commit_row(cs[i]),
    )
}

/// The rows that stand under an expanded push: the first commits, then how many
/// more there are, or a note that there are none.
pub open spec fn commit_rows_of(cs: Seq<CommitView>) -> Seq<Seq<char>> {
    if cs.len() == 0 {
        seq!["(no commits)"@]
    } else if cs.len() > COMMIT_ROWS {
        first_rows(cs).push("… "@ + text::decimal(cs.len() - COMMIT_ROWS) + " more"@)
    } else {
        first_rows(cs)
    }
}

/// The rows and the number of commits that the reply to a comparison gives. Where
/// the call failed the row says so and the number is not known.
pub open spec fn compared(reply: ReplyView) -> (Seq<Seq<char>>, Option<nat>) {
    match reply {
        ReplyView::NotRun(why) => (seq!["(gh error: "@ + why + ")"@], None),
        ReplyView::Output { success, stdout, stderr } => if !success {
            (seq!["(compare failed: "@ + complaint(stderr) + ")"@], None)
        } else {
            match json::parsed(stdout) {
                Err(e) => (seq!["(parse error: "@ + e + ")"@], None),
                Ok(j) => (commit_rows_of(commits_of(j)), Some(commits_of(j).len())),
            }
        },
    }
}

/// The commits that a comparison lists.
pub fn read_commits(v: &Value) -> (r: Vec<Commit>)
    ensures
        commit_views(r@) == commits_of(json::contents(*v)),
{
    let mut out: Vec<Commit> = Vec::new();
    let list = match json::get(v, "commits") {
        Some(x) => as_array(x),
        None => None,
    };
    match list {
        Some(items) => {
            let mut i: usize = 0;
            while i < items.len()
                invariant
                    i <= items@.len(),
                    out@.len() == i,
                    forall|k: int|
                        0 <= k < i ==> (#[trigger] out@[k])@ == commit_of(
                            json::contents(items@[k]),
                        ),
                decreases items@.len() - i,
            {
                let c = Commit {
                    sha: json::s(&items[i], "sha"),
                    message: string_or_empty(dig(json::get(&items[i], "commit"), "message")),
                };
                out.push(c);
                i += 1;
            }
        },
        None => {},
    }
    assert(commit_views(out@) =~= commits_of(json::contents(*v)));
    out
}

/// The row of a commit.
fn show_commit(c: &Commit) -> (r: String)
    ensures
        r@ == commit_row(c@),
{
    let mut t = match get_bytes(c.sha.as_str(), 0, 7) {
        Some(short) => short.to_owned(),
        None => c.sha.clone(),
    };
    t.append("  ");
    t.append(line_of(c.message.as_str()).as_str());
    t
}

/// The rows that stand under an expanded push.
pub fn commit_rows(cs: &Vec<Commit>) -> (r: Vec<String>)
    ensures
        text::texts(r@) == commit_rows_of(commit_views(cs@)),
{
    let total: usize = cs.len();
    let mut rows: Vec<String> = Vec::new();
    let mut i: usize = 0;
    while i < total && i < COMMIT_ROWS
        invariant
            total == cs@.len(),
            i <= total,
            i <= COMMIT_ROWS,
            rows@.len() == i,
            forall|k: int| 0 <= k < i ==> (#[trigger] rows@[k])@ == commit_row(cs@[k]@),
        decreases total - i,
    {
        let row = show_commit(&cs[i]);
        rows.push(row);
        i += 1;
    }
    assert(text::texts(rows@) =~= first_rows(commit_views(cs@)));
    if total > COMMIT_ROWS {
        let mut more = "… ".to_owned();
        more.append(show_u64((total - COMMIT_ROWS) as u64).as_str());
        more.append(" more");
        push_arg(&mut rows, more.as_str());
    }
    if rows.len() == 0 {
        push_arg(&mut rows, "(no commits)");
        assert(text::texts(rows@) =~= seq!["(no commits)"@]);
    }
    rows
}

/// A text in round brackets behind a label.
fn note(label: &str, what: &str) -> (r: Vec<String>)
    ensures
        text::texts(r@) == seq![label@ + what@ + ")"@],
{
    let mut t = label.to_owned();
    t.append(what);
    t.append(")");
    let mut rows: Vec<String> = Vec::new();
    push_arg(&mut rows, t.as_str());
    assert(text::texts(rows@) =~= seq![label@ + what@ + ")"@]);
    rows
}

/// What a number of commits is.
pub open spec fn opt_nat(n: Option<usize>) -> Option<nat> {
    match n {
        Some(k) => Some(k as nat),
        None => None,
    }
}

/// Reads the reply to a comparison: the rows of the commits, and how many commits
/// there are.
pub fn fetch_commits_reply(reply: &Reply) -> (r: (Vec<String>, Option<usize>))
    ensures
        (text::texts(r.0@), opt_nat(r.1)) == compared(reply@),
{
    match reply {
        Reply::NotRun(why) => (note("(gh error: ", why.as_str()), None),
        Reply::Output { success, stdout, stderr } => {
            if !*success {
                (note("(compare failed: ", stderr_text(stderr).as_str()), None)
            } else {
                match parse(stdout.as_slice()) {
                    Err(e) => (note("(parse error: ", e.as_str()), None),
                    Ok(v) => {
                        let commits = read_commits(&v);
                        assert(commit_views(commits@).len() == commits@.len());
                        (commit_rows(&commits), Some(commits.len()))
                    },
                }
            }
        },
    }
}

// ---------------------------------------------------------------------------
// Laws
// ---------------------------------------------------------------------------

/// An expanded push always has a row beneath it, whatever came back, and at most
/// one more than the commits that are listed.
pub proof fn law_commit_rows_bounded(reply: ReplyView)
    ensures
        1 <= compared(reply).0.len() <= COMMIT_ROWS + 1,
{
}

}
