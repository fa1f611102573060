use ghlens::gh::{
    activity_request, commit_rows, events_request, fetch_commits_reply, fetch_commits_request,
    fetch_reviews_request, gh_lines_reply, gh_lines_request, read_commits, read_lines, stderr_text,
    Commit, Reply,
};
use ghlens::json::s;
use serde_json::Value;

fn strings(list: &[&str]) -> Vec<String> {
    list.iter().map(|a| a.to_string()).collect()
}

fn value(json: &str) -> Value {
    serde_json::from_str(json).unwrap()
}

fn output(success: bool, stdout: &str, stderr: &str) -> Reply {
    Reply::Output {
        success,
        stdout: stdout.as_bytes().to_vec(),
        stderr: stderr.as_bytes().to_vec(),
    }
}

#[test]
fn requests_name_host_and_path() {
    let host = Some("ghe.example.com".to_string());
    assert_eq!(
        gh_lines_request(&host, "p"),
        strings(&["api", "--hostname", "ghe.example.com", "p", "--paginate", "--jq", ".[]"])
    );
    assert_eq!(
        activity_request(&None, "o/r"),
        strings(&["api", "repos/o/r/activity?per_page=100", "--paginate", "--jq", ".[]"])
    );
    assert_eq!(
        events_request(&None, "o/r"),
        strings(&["api", "repos/o/r/events?per_page=100", "--paginate", "--jq", ".[]"])
    );
    assert_eq!(
        fetch_reviews_request(&None, "o/r", 42),
        strings(&["api", "repos/o/r/issues/42/timeline?per_page=100", "--paginate", "--jq", ".[]"])
    );
    assert_eq!(
        fetch_commits_request(&host, "o/r", "a1", "b2"),
        strings(&["api", "--hostname", "ghe.example.com", "repos/o/r/compare/a1...b2"])
    );
}

#[test]
fn strings_of_objects() {
    let v = value(r#"{"a":"x","b":7,"c":null}"#);
    assert_eq!(s(&v, "a"), "x");
    assert_eq!(s(&v, "b"), "");
    assert_eq!(s(&v, "c"), "");
    assert_eq!(s(&v, "d"), "");
    assert_eq!(s(&value("[\"a\"]"), "a"), "");
    assert_eq!(s(&Value::Null, "a"), "");
}

#[test]
fn lines_that_are_no_json_are_left_out() {
    let vals = read_lines(&b"{\"a\":\"1\"}\n\nnonsense\n[2]\n{\"a\":\n\xff\n\"x\"".to_vec());
    assert_eq!(vals, vec![value(r#"{"a":"1"}"#), value("[2]"), value("\"x\"")]);
    assert!(read_lines(&Vec::new()).is_empty());
    assert!(read_lines(&b"\n\n".to_vec()).is_empty());
    assert_eq!(read_lines(&b"1\r\n 2 ".to_vec()), vec![value("1"), value("2")]);
}

#[test]
fn replies_of_failed_calls() {
    assert_eq!(
        gh_lines_reply(&Reply::NotRun("why".into())),
        Err("running gh: why".to_string())
    );
    assert_eq!(
        gh_lines_reply(&output(false, "{}", "\n HTTP 404 \n")),
        Err("HTTP 404".to_string())
    );
    assert_eq!(gh_lines_reply(&output(true, "{}", "warning")), Ok(vec![value("{}")]));
    assert_eq!(stderr_text(&b"\t a\xf0\x9f b \n".to_vec()), "a\u{fffd} b");
    assert_eq!(stderr_text(&"  größer ".as_bytes().to_vec()), "größer");
}

fn commit(sha: &str, message: &str) -> Commit {
    Commit { sha: sha.into(), message: message.into() }
}

#[test]
fn commits_are_rows() {
    assert_eq!(commit_rows(&Vec::new()), strings(&["(no commits)"]));
    assert_eq!(
        commit_rows(&vec![commit("0123456789", "a\nb"), commit("0123", ""), commit("012345é", "x\r\ny")]),
        strings(&["0123456  a", "0123  ", "012345é  x"])
    );
    let ten: Vec<Commit> = (0..10).map(|n| commit("abcdefgh", &n.to_string())).collect();
    let rows = commit_rows(&ten);
    assert_eq!(rows.len(), 10);
    assert_eq!(rows[9], "abcdefg  9");
    let many: Vec<Commit> = (0..13).map(|n| commit("abcdefgh", &n.to_string())).collect();
    let rows = commit_rows(&many);
    assert_eq!(rows.len(), 11);
    assert_eq!(rows[9], "abcdefg  9");
    assert_eq!(rows[10], "… 3 more");
}

#[test]
fn commits_of_a_comparison() {
    let v = value(r#"{"commits":[{"sha":"a","commit":{"message":"m"}},{"sha":1},{},3]}"#);
    let cs = read_commits(&v);
    let pairs: Vec<(&str, &str)> = cs.iter().map(|c| (c.sha.as_str(), c.message.as_str())).collect();
    assert_eq!(pairs, vec![("a", "m"), ("", ""), ("", ""), ("", "")]);
    assert!(read_commits(&value(r#"{"commits":{}}"#)).is_empty());
    assert!(read_commits(&value("[]")).is_empty());
}

#[test]
fn replies_to_comparisons() {
    let good = output(true, r#"{"commits":[{"sha":"0123456789","commit":{"message":"m"}}]}"#, "");
    assert_eq!(fetch_commits_reply(&good), (strings(&["0123456  m"]), Some(1)));
    assert_eq!(fetch_commits_reply(&output(true, "{}", "")), (strings(&["(no commits)"]), Some(0)));
    assert_eq!(
        fetch_commits_reply(&output(false, "{}", " HTTP 404\n")),
        (strings(&["(compare failed: HTTP 404)"]), None)
    );
    assert_eq!(
        fetch_commits_reply(&Reply::NotRun("gone".into())),
        (strings(&["(gh error: gone)"]), None)
    );
    let cause = serde_json::from_slice::<Value>(b"nonsense").unwrap_err();
    assert_eq!(
        fetch_commits_reply(&output(true, "nonsense", "")),
        (vec![format!("(parse error: {cause})")], None)
    );
}
