//! The command line: which repository to show, and the filter to start with.
use crate::gh;
use crate::gh::{push_arg, stderr_text, Reply, ReplyView};
use crate::json;
use crate::json::{parse, s};
use crate::text;
use crate::text::{nth_piece, same};
use vstd::prelude::*;
use vstd::string::*;

verus! {

/// How the program is called.
pub const USAGE: &'static str = "usage: ghlens [filter] [owner/repo]\n       ghlens -R owner/repo [filter]\n  filter        initial filter (branch, actor, detail, issue/PR number); edit it live in the TUI\n  owner/repo    omitted -> current directory's GitHub repo (via `gh repo view`)\n  -R, --repo    explicit repo (same as the 2nd positional)\n  --host HOST   GitHub Enterprise host (auto-detected for the current repo)\n  -V, --version print version and exit";

/// What to show.
pub struct Cli {
    pub repo: String,
    pub host: Option<String>,
    pub filter: String,
}

/// What a [`Cli`] holds.
#[verifier::ext_equal]
pub struct CliView {
    pub repo: Seq<char>,
    pub host: Option<Seq<char>>,
    pub filter: Seq<char>,
}

impl View for Cli {
    type V = CliView;

    open spec fn view(&self) -> CliView {
        CliView { repo: self.repo@, host: text::opt_text(self.host), filter: self.filter@ }
    }
}

/// What a command line asks for.
pub enum Invocation {
    /// To show a repository that it names.
    Run(Cli),
    /// To show the repository of the current directory, which is still to be found
    /// out.
    Lookup { host: Option<String>, filter: String },
    /// To say how the program is called.
    Help,
    /// To say which version of the program this is.
    Version,
}

/// What an [`Invocation`] holds.
pub enum InvocationView {
    Run(CliView),
    Lookup { host: Option<Seq<char>>, filter: Seq<char> },
    Help,
    Version,
}

impl View for Invocation {
    type V = InvocationView;

    open spec fn view(&self) -> InvocationView {
        match *self {
            Invocation::Run(cli) => InvocationView::Run(cli@),
            Invocation::Lookup { host, filter } => InvocationView::Lookup {
                host: text::opt_text(host),
                filter: filter@,
            },
            Invocation::Help => InvocationView::Help,
            Invocation::Version => InvocationView::Version,
        }
    }
}

/// What the arguments read so far have set: the host, the repository, and those
/// that are no options.
#[verifier::ext_equal]
pub struct Scan {
    pub host: Option<Seq<char>>,
    pub repo: Option<Seq<char>>,
    pub pos: Seq<Seq<char>>,
}

/// What the first arguments have set when nothing has been read.
pub open spec fn unset() -> Scan {
    Scan { host: None, repo: None, pos: seq![] }
}

/// The argument behind the first one, if there is one.
pub open spec fn value_of(args: Seq<Seq<char>>) -> Option<Seq<char>> {
    if args.len() > 1 {
        Some(args[1])
    } else {
        None
    }
}

/// The arguments behind the first one and its value.
pub open spec fn past_value(args: Seq<Seq<char>>) -> Seq<Seq<char>> {
    if args.len() > 1 {
        args.skip(2)
    } else {
        seq![]
    }
}

/// What a command line asks for when its remaining arguments are `args` and those
/// before them have set `st`. The filter is the first argument that is no option.
/// The repository is the value of its option, or else the second such argument.
pub open spec fn invocation_from(args: Seq<Seq<char>>, st: Scan) -> InvocationView
    decreases args.len(),
{
    if args.len() == 0 {
        let filter = if st.pos.len() > 0 {
            st.pos[0]
        } else {
            seq![]
        };
        match st.repo {
            Some(repo) => InvocationView::Run(CliView { repo, host: st.host, filter }),
            None => if st.pos.len() > 1 {
                InvocationView::Run(CliView { repo: st.pos[1], host: st.host, filter })
            } else {
                InvocationView::Lookup { host: st.host, filter }
            },
        }
    } else if args[0] == "--host"@ {
        invocation_from(past_value(args), Scan { host: value_of(args), ..st })
    } else if args[0] == "-R"@ || args[0] == "--repo"@ {
        invocation_from(past_value(args), Scan { repo: value_of(args), ..st })
    } else if args[0] == "-h"@ || args[0] == "--help"@ {
        InvocationView::Help
    } else if args[0] == "-V"@ || args[0] == "--version"@ {
        InvocationView::Version
    } else {
        invocation_from(args.drop_first(), Scan { pos: st.pos.push(args[0]), ..st })
    }
}

/// What the program's arguments (without its own name) ask for.
pub open spec fn invocation(args: Seq<Seq<char>>) -> InvocationView {
    invocation_from(args, unset())
}

/// The argument with the given index, if there is one.
fn arg_at(args: &Vec<String>, i: usize) -> (r: Option<String>)
    ensures
        text::opt_text(r) == (if i < args@.len() {
            Some(args@[i as int]@)
        } else {
            None
        }),
{
    if i < args.len() {
        Some(args[i].clone())
    } else {
        None
    }
}

/// Reads the program's arguments.
pub fn resolve_args(args: &Vec<String>) -> (r: Invocation)
    ensures
        r@ == invocation(text::texts(args@)),
{
    let ghost all = text::texts(args@);
    let mut host: Option<String> = None;
    let mut repo: Option<String> = None;
    let mut pos: Vec<String> = Vec::new();
    let mut i: usize = 0;
    assert(all.skip(0) =~= all);
    assert(text::texts(pos@) =~= seq![]);
    while i < args.len()
        invariant
            i <= args@.len(),
            all == text::texts(args@),
            invocation_from(
                all.skip(i as int),
                Scan {
                    host: text::opt_text(host),
                    repo: text::opt_text(repo),
                    pos: text::texts(pos@),
                },
            ) == invocation(all),
        decreases args@.len() - i,
    {
        let ghost rest = all.skip(i as int);
        let a = args[i].as_str();
        assert(rest[0] == a@);
        let last = i + 1 == args.len();
        if same(a, "--host") || same(a, "-R") || same(a, "--repo") {
            let value = arg_at(args, i + 1);
            assert(text::opt_text(value) == value_of(rest));
            if same(a, "--host") {
                host = value;
            } else {
                repo = value;
            }
            if last {
                i = args.len();
            } else {
                i += 2;
            }
            assert(past_value(rest) =~= all.skip(i as int));
        } else if same(a, "-h") || same(a, "--help") {
            return Invocation::Help;
        } else if same(a, "-V") || same(a, "--version") {
            return Invocation::Version;
        } else {
            push_arg(&mut pos, a);
            i += 1;
            assert(rest.drop_first() =~= all.skip(i as int));
        }
    }
    assert(all.skip(i as int) =~= seq![]);
    let filter = match arg_at(&pos, 0) {
        Some(f) => f,
        None => String::new(),
    };
    assert(text::texts(pos@).len() == pos@.len());
    assert(filter@ =~= if pos@.len() > 0 {
        text::texts(pos@)[0]
    } else {
        seq![]
    });
    let named = match repo {
        Some(r) => Some(r),
        None => arg_at(&pos, 1),
    };
    match named {
        Some(repo) => Invocation::Run(Cli { repo, host, filter }),
        None => Invocation::Lookup { host, filter },
    }
}

/// The arguments of the call that finds out the repository of the current
/// directory.
pub open spec fn repo_view_args() -> Seq<Seq<char>> {
    seq!["repo"@, "view"@, "--json"@, "nameWithOwner,url"@]
}

/// Requests the repository of the current directory.
pub fn repo_view_request() -> (r: Vec<String>)
    ensures
        text::texts(r@) == repo_view_args(),
{
    let mut args: Vec<String> = Vec::new();
    push_arg(&mut args, "repo");
    push_arg(&mut args, "view");
    push_arg(&mut args, "--json");
    push_arg(&mut args, "nameWithOwner,url");
    assert(text::texts(args@) =~= repo_view_args());
    args
}

/// The host of a repository's address, unless it is the public one.
pub open spec fn host_of(url: Seq<char>) -> Option<Seq<char>> {
    match text::piece(url, '/', 2) {
        Some(h) => if h == "github.com"@ {
            None
        } else {
            Some(h)
        },
        None => None,
    }
}

/// What to show when the current directory's repository is `name`, at `url`: a
/// host that the command line gave goes before the one in the address.
pub open spec fn located(
    name: Seq<char>,
    url: Seq<char>,
    host: Option<Seq<char>>,
    filter: Seq<char>,
) -> CliView {
    CliView {
        repo: name,
        host: match host {
            Some(h) => Some(h),
            None => host_of(url),
        },
        filter,
    }
}

/// What the reply to the question for the current directory's repository gives.
pub open spec fn looked_up(
    reply: ReplyView,
    host: Option<Seq<char>>,
    filter: Seq<char>,
) -> Result<CliView, Seq<char>> {
    match reply {
        ReplyView::NotRun(why) => Err("gh not found: "@ + why),
        ReplyView::Output { success, stdout, stderr } => if !success {
            Err(
                "not inside a GitHub repo (and no repo given).\n"@ + USAGE@ + "\n"@
                    + gh::complaint(stderr),
            )
        } else {
            match json::parsed(stdout) {
                Err(e) => Err(e),
                Ok(j) => Ok(
                    located(
                        json::text_or_empty(json::member(j, "nameWithOwner"@)),
                        json::text_or_empty(json::member(j, "url"@)),
                        host,
                        filter,
                    ),
                ),
            }
        },
    }
}

/// What to show when the current directory's repository is `name`, at `url`.
pub fn locate(name: String, url: &str, host: Option<String>, filter: String) -> (r: Cli)
    ensures
        r@ == located(name@, url@, text::opt_text(host), filter@),
{
    let host = match host {
        Some(h) => Some(h),
        None => match nth_piece(url, '/', 2) {
            Some(h) => if same(h.as_str(), "github.com") {
                None
            } else {
                Some(h)
            },
            None => None,
        },
    };
    Cli { repo: name, host, filter }
}

/// What a result of looking up a repository holds.
pub open spec fn looked_up_view(r: Result<Cli, String>) -> Result<CliView, Seq<char>> {
    match r {
        Ok(cli) => Ok(cli@),
        Err(e) => Err(e@),
    }
}

/// Reads the reply to the question for the current directory's repository.
pub fn repo_view_reply(reply: &Reply, host: Option<String>, filter: String) -> (r: Result<
    Cli,
    String,
>)
    ensures
        looked_up_view(r) == looked_up(reply@, text::opt_text(host), filter@),
{
    match reply {
        Reply::NotRun(why) => {
            let mut e = "gh not found: ".to_owned();
            e.append(why.as_str());
            Err(e)
        },
        Reply::Output { success, stdout, stderr } => {
            if !*success {
                let mut e = "not inside a GitHub repo (and no repo given).\n".to_owned();
                e.append(USAGE);
                e.append("\n");
                e.append(stderr_text(stderr).as_str());
                Err(e)
            } else {
                match parse(stdout.as_slice()) {
                    Err(e) => Err(e),
                    Ok(v) => {
                        let url = s(&v, "url");
                        Ok(locate(s(&v, "nameWithOwner"), url.as_str(), host, filter))
                    },
                }
            }
        },
    }
}

// ---------------------------------------------------------------------------
// Laws
// ---------------------------------------------------------------------------

/// An argument that is read as an option.
pub open spec fn is_option(a: Seq<char>) -> bool {
    a == "--host"@ || a == "-R"@ || a == "--repo"@ || a == "-h"@ || a == "--help"@ || a == "-V"@
        || a == "--version"@
}

/// `-R` names the repository as the second argument without an option does,
/// before the filter or behind it.
pub proof fn law_repo_option_is_second_argument(filter: Seq<char>, repo: Seq<char>)
    requires
        !is_option(filter),
        !is_option(repo),
    ensures
        invocation(seq![filter, repo]) == InvocationView::Run(CliView { repo, host: None, filter }),
        invocation(seq!["-R"@, repo, filter]) == invocation(seq![filter, repo]),
        invocation(seq![filter, "-R"@, repo]) == invocation(seq![filter, repo]),
{
    reveal_strlit("-R");
    reveal_strlit("--host");
    assert("-R"@.len() != "--host"@.len());
    let none = Seq::<Seq<char>>::empty();
    let given = Scan { repo: Some(repo), ..unset() };
    let seen = Scan { pos: seq![filter], ..unset() };

    // The two arguments without an option.
    let a = seq![filter, repo];
    assert(a.drop_first() =~= seq![repo]);
    assert(seq![repo].drop_first() =~= none);
    assert(unset().pos.push(filter) =~= seq![filter]);
    let b = Scan { pos: seq![filter, repo], ..unset() };
    assert(seq![filter].push(repo) =~= b.pos);
    assert(invocation_from(none, b) == InvocationView::Run(CliView { repo, host: None, filter }));
    assert(invocation_from(seq![repo], seen) == invocation_from(none, b));

    // The option, then the filter.
    let c = seq!["-R"@, repo, filter];
    assert(past_value(c) =~= seq![filter]);
    assert(seq![filter].drop_first() =~= none);
    assert(given.pos.push(filter) =~= seq![filter]);
    let d = Scan { repo: Some(repo), pos: seq![filter], ..unset() };
    assert(invocation_from(none, d) == InvocationView::Run(CliView { repo, host: None, filter }));
    assert(invocation_from(seq![filter], given) == invocation_from(none, d));

    // The filter, then the option.
    let e = seq![filter, "-R"@, repo];
    assert(e.drop_first() =~= seq!["-R"@, repo]);
    assert(past_value(seq!["-R"@, repo]) =~= none);
    assert(invocation_from(seq!["-R"@, repo], seen) == invocation_from(none, d));
}

}
