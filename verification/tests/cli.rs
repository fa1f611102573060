use ghlens::cli::{locate, repo_view_reply, repo_view_request, resolve_args, Cli, Invocation, USAGE};
use ghlens::gh::Reply;

fn args(list: &[&str]) -> Vec<String> {
    list.iter().map(|a| a.to_string()).collect()
}

fn run(list: &[&str]) -> (String, Option<String>, String) {
    match resolve_args(&args(list)) {
        Invocation::Run(Cli { repo, host, filter }) => (repo, host, filter),
        _ => panic!("no repository"),
    }
}

fn lookup(list: &[&str]) -> (Option<String>, String) {
    match resolve_args(&args(list)) {
        Invocation::Lookup { host, filter } => (host, filter),
        _ => panic!("a repository"),
    }
}

#[test]
fn arguments_name_filter_and_repository() {
    assert_eq!(lookup(&[]), (None, "".into()));
    assert_eq!(lookup(&["feature/foo-230626"]), (None, "feature/foo-230626".into()));
    assert_eq!(run(&["feature/foo", "cli/cli"]), ("cli/cli".into(), None, "feature/foo".into()));
    assert_eq!(run(&["-R", "cli/cli"]), ("cli/cli".into(), None, "".into()));
    assert_eq!(
        run(&["-R", "myorg/app", "--host", "ghe.example.com"]),
        ("myorg/app".into(), Some("ghe.example.com".into()), "".into())
    );
    assert_eq!(run(&["--repo", "a/b", "x"]), ("a/b".into(), None, "x".into()));
}

#[test]
fn the_repository_option_is_the_second_argument() {
    assert_eq!(run(&["push", "cli/cli"]), run(&["-R", "cli/cli", "push"]));
    assert_eq!(run(&["push", "cli/cli"]), run(&["push", "-R", "cli/cli"]));
}

#[test]
fn odd_arguments() {
    assert_eq!(run(&["x", "a/b", "-R", "c/d", "more"]), ("c/d".into(), None, "x".into()));
    assert_eq!(run(&["-R", "a/b", "-R", "c/d"]).0, "c/d");
    assert_eq!(lookup(&["-R"]), (None, "".into()));
    assert_eq!(run(&["x", "a/b", "-R", "c/d", "-R"]), ("a/b".into(), None, "x".into()));
    assert_eq!(lookup(&["--host", "h", "--host"]), (None, "".into()));
    assert_eq!(lookup(&["--host", "-h"]), (Some("-h".into()), "".into()));
    assert_eq!(lookup(&["--unknown"]), (None, "--unknown".into()));
}

#[test]
fn help_and_version() {
    assert!(matches!(resolve_args(&args(&["x", "-h", "-V"])), Invocation::Help));
    assert!(matches!(resolve_args(&args(&["--help"])), Invocation::Help));
    assert!(matches!(resolve_args(&args(&["-V", "--help"])), Invocation::Version));
    assert!(matches!(resolve_args(&args(&["a", "b/c", "--version"])), Invocation::Version));
    assert!(USAGE.starts_with("usage: ghlens [filter] [owner/repo]\n       ghlens -R owner/repo [filter]\n"));
    assert!(USAGE.ends_with("-V, --version print version and exit"));
}

fn output(success: bool, stdout: &str, stderr: &[u8]) -> Reply {
    Reply::Output { success, stdout: stdout.as_bytes().to_vec(), stderr: stderr.to_vec() }
}

fn found(reply: &Reply, host: Option<&str>) -> Result<(String, Option<String>, String), String> {
    match repo_view_reply(reply, host.map(|h| h.to_string()), "f".into()) {
        Ok(Cli { repo, host, filter }) => Ok((repo, host, filter)),
        Err(e) => Err(e),
    }
}

#[test]
fn the_current_directory_names_the_repository() {
    assert_eq!(repo_view_request(), args(&["repo", "view", "--json", "nameWithOwner,url"]));
    let here = output(true, r#"{"nameWithOwner":"o/r","url":"https://github.com/o/r"}"#, b"");
    assert_eq!(found(&here, None), Ok(("o/r".into(), None, "f".into())));
    assert_eq!(found(&here, Some("h")), Ok(("o/r".into(), Some("h".into()), "f".into())));
    let there = output(true, r#"{"nameWithOwner":"o/r","url":"https://ghe.example.com/o/r"}"#, b"");
    assert_eq!(found(&there, None), Ok(("o/r".into(), Some("ghe.example.com".into()), "f".into())));
    assert_eq!(found(&there, Some("h")), Ok(("o/r".into(), Some("h".into()), "f".into())));
    let bare = output(true, r#"{"nameWithOwner":7}"#, b"");
    assert_eq!(found(&bare, None), Ok(("".into(), None, "f".into())));
}

#[test]
fn without_a_repository_there_is_an_error() {
    let gone = Reply::NotRun("No such file or directory (os error 2)".into());
    assert_eq!(
        found(&gone, None),
        Err("gh not found: No such file or directory (os error 2)".into())
    );
    let outside = output(false, "", b"  not a git repository\xff\n");
    let text = format!(
        "not inside a GitHub repo (and no repo given).\n{USAGE}\nnot a git repository\u{fffd}"
    );
    assert_eq!(found(&outside, None), Err(text));
    let broken = output(true, "{", b"");
    let cause = serde_json::from_slice::<serde_json::Value>(b"{").unwrap_err().to_string();
    assert_eq!(found(&broken, None), Err(cause));
}

#[test]
fn hosts_of_addresses() {
    let host = |url: &str| locate("o/r".into(), url, None, "".into()).host;
    assert_eq!(host("https://github.com/o/r"), None);
    assert_eq!(host("https://ghe.example.com"), Some("ghe.example.com".into()));
    assert_eq!(host("https:/x"), None);
    assert_eq!(host("a//"), Some("".into()));
}
