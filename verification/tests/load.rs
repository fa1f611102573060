use ghlens::event::{Color, Ev};
use ghlens::feed::{
    activity_events, feed_event, feed_events, read_activity, read_feed_item, read_timeline_item,
    review_event, review_events, show_feed_detail, FeedItem, TimelineItem,
};
use ghlens::gh::Reply;
use ghlens::load::{sort_events, Loader};
use serde_json::Value;

fn value(json: &str) -> Value {
    serde_json::from_str(json).unwrap()
}

fn output(stdout: &str) -> Reply {
    Reply::Output { success: true, stdout: stdout.as_bytes().to_vec(), stderr: Vec::new() }
}

fn failed(stderr: &str) -> Reply {
    Reply::Output { success: false, stdout: Vec::new(), stderr: stderr.as_bytes().to_vec() }
}

fn brief(e: &Ev) -> (String, String, String, String) {
    (e.ts.clone(), e.actor.clone(), e.label.clone(), e.detail.clone())
}

fn quad(a: &str, b: &str, c: &str, d: &str) -> (String, String, String, String) {
    (a.into(), b.into(), c.into(), d.into())
}

#[test]
fn branch_changes_become_events() {
    let v = value(
        r#"{"activity_type":"force_push","ref":"refs/heads/feature/x","timestamp":"2026-07-20T10:18:56Z",
            "before":"aa","after":"bb","actor":{"login":"bob"}}"#,
    );
    let a = read_activity(&v);
    assert_eq!((a.kind.as_str(), a.login.as_str()), ("force_push", "bob"));
    let evs = activity_events(&vec![v, value("{}"), value(r#"{"actor":{"login":""},"ref":7}"#)]);
    assert_eq!(evs.len(), 3);
    assert_eq!(brief(&evs[0]), quad("2026-07-20T10:18:56Z", "bob", "force_push", "feature/x"));
    assert_eq!((evs[0].before.as_str(), evs[0].after.as_str()), ("aa", "bb"));
    assert_eq!((evs[0].glyph, evs[0].color), ('⚡', Color::Yellow));
    assert_eq!(evs[0].search, "force_push bob feature/x ");
    assert_eq!(brief(&evs[1]), quad("", "?", "", ""));
    assert_eq!(brief(&evs[2]), quad("", "?", "", ""));
}

fn item(kind: &str) -> FeedItem {
    FeedItem {
        kind: kind.into(),
        action: "opened".into(),
        issue: Some(3),
        pull: None,
        head: "".into(),
        forkee: "me/fork".into(),
        tag: "v1.0".into(),
        login: "bob".into(),
        ts: "t".into(),
    }
}

#[test]
fn details_of_the_feed() {
    assert_eq!(show_feed_detail(&item("ForkEvent")), "-> me/fork");
    assert_eq!(show_feed_detail(&item("WatchEvent")), "starred");
    assert_eq!(show_feed_detail(&item("ReleaseEvent")), "v1.0");
    assert_eq!(show_feed_detail(&item("IssuesEvent")), "opened #3");
    assert_eq!(show_feed_detail(&item("IssueCommentEvent")), "comment #3");
    assert_eq!(show_feed_detail(&item("GollumEvent")), "Gollum");
    assert_eq!(show_feed_detail(&item("PullRequestEvent")), "opened #0");
    let mut i = item("PullRequestReviewEvent");
    i.action = "".into();
    i.pull = Some(-7);
    assert_eq!(show_feed_detail(&i), "review #-7");
    i.kind = "IssuesEvent".into();
    i.issue = None;
    assert_eq!(show_feed_detail(&i), " #0");
}

#[test]
fn entries_of_the_feed_become_events() {
    for kind in ["PushEvent", "CreateEvent", "DeleteEvent"] {
        assert!(feed_event(&item(kind)).is_none(), "{kind}");
    }
    let mut i = item("PullRequestEvent");
    i.pull = Some(12);
    i.head = "Topic".into();
    let e = feed_event(&i).unwrap();
    assert_eq!(brief(&e), quad("t", "bob", "PullRequest", "opened #12"));
    assert_eq!(e.search, "pullrequest bob opened #12 topic 12");
    let e = feed_event(&item("IssuesEvent")).unwrap();
    assert_eq!(e.search, "issues bob opened #3  3");
    i = item("WatchEvent");
    i.issue = None;
    i.login = "".into();
    let e = feed_event(&i).unwrap();
    assert_eq!(e.search, "watch  starred  ");
    assert_eq!(e.actor, "");
}

#[test]
fn feed_items_are_read_from_json() {
    let v = value(
        r#"{"type":"PullRequestEvent","created_at":"t","actor":{"login":"bob"},"payload":{"action":"closed",
            "issue":{"number":4},"pull_request":{"number":5,"head":{"ref":"topic"}},
            "forkee":{"full_name":"a/b"},"release":{"tag_name":"v2"}}}"#,
    );
    let i = read_feed_item(&v);
    assert_eq!(
        (i.kind.as_str(), i.action.as_str(), i.issue, i.pull, i.head.as_str()),
        ("PullRequestEvent", "closed", Some(4), Some(5), "topic")
    );
    assert_eq!(
        (i.forkee.as_str(), i.tag.as_str(), i.login.as_str(), i.ts.as_str()),
        ("a/b", "v2", "bob", "t")
    );
    let i = read_feed_item(&value(r#"{"payload":{"issue":{"number":1.5},"pull_request":{"number":"5"}}}"#));
    assert_eq!((i.issue, i.pull), (None, None));
    let i = read_feed_item(&value(r#"{"payload":{"issue":{"number":18446744073709551615}}}"#));
    assert_eq!(i.issue, None);
}

#[test]
fn pull_requests_of_the_feed_are_ascending_and_once() {
    let pull = |kind: &str, n: i64| {
        value(&format!(r#"{{"type":"{kind}","payload":{{"pull_request":{{"number":{n}}}}}}}"#))
    };
    let (evs, pulls) = feed_events(&vec![
        pull("PullRequestEvent", 9),
        pull("PullRequestReviewEvent", 2),
        pull("PullRequestEvent", 9),
        pull("PushEvent", 5),
        value(r#"{"type":"WatchEvent"}"#),
    ]);
    assert_eq!(evs.len(), 4);
    assert_eq!(pulls, vec![2, 9]);
    let many: Vec<Value> =
        [3, -5, 0, 9, 3, i64::MAX, 9, i64::MIN].iter().map(|n| pull("PullRequestEvent", *n)).collect();
    assert_eq!(feed_events(&many).1, vec![i64::MIN, -5, 0, 3, 9, i64::MAX]);
}

#[test]
fn review_requests_become_events() {
    let v = value(
        r#"{"event":"review_requested","actor":{"login":"bob"},"created_at":"t",
            "requested_reviewer":{"login":"eve"},"requested_team":{"slug":"core"}}"#,
    );
    let e = review_event(7, &read_timeline_item(&v)).unwrap();
    assert_eq!(brief(&e), quad("t", "bob", "Review", "requested eve #7"));
    assert_eq!(e.search, "review bob requested eve #7 7");
    assert_eq!((e.glyph, e.color), ('⊙', Color::Magenta));
    let team = value(r#"{"event":"review_request_removed","requested_team":{"slug":"core"}}"#);
    let none = value(r#"{"event":"review_dismissed"}"#);
    let other = value(r#"{"event":"labeled"}"#);
    let evs = review_events(7, &vec![v, team, other, none]);
    let details: Vec<&str> = evs.iter().map(|e| e.detail.as_str()).collect();
    assert_eq!(details, vec!["requested eve #7", "unrequested core #7", "dismissed review #7"]);
    assert_eq!(evs[1].actor, "?");
    let nobody = TimelineItem {
        event: "review_requested".into(),
        login: "bob".into(),
        user: Some("".into()),
        team: Some("core".into()),
        ts: "".into(),
    };
    assert_eq!(review_event(1, &nobody).unwrap().detail, "requested review #1");
}

fn stamped(ts: &str, detail: &str) -> Ev {
    Ev::new(ts.into(), "a".into(), "push", "push".into(), detail.into(), "")
}

#[test]
fn events_are_sorted_newest_first_and_stably() {
    let evs = vec![
        stamped("2026-07-18", "1"),
        stamped("2026-07-20", "2"),
        stamped("", "3"),
        stamped("2026-07-18", "4"),
        stamped("2026-07-20T00", "5"),
        stamped("2026-07-20", "6"),
    ];
    let order: Vec<String> = sort_events(evs).into_iter().map(|e| e.detail).collect();
    assert_eq!(order, vec!["5", "2", "6", "1", "4", "3"]);
    assert!(sort_events(Vec::new()).is_empty());
}

fn path(l: &Loader) -> Option<String> {
    l.request().map(|args| args[1].clone())
}

#[test]
fn loading_gathers_all_three_feeds() {
    let mut l = Loader::new("o/r".into(), None);
    assert_eq!(path(&l).as_deref(), Some("repos/o/r/activity?per_page=100"));
    let activity = r#"{"activity_type":"push","ref":"refs/heads/main","timestamp":"2026-07-02"}"#;
    assert_eq!(l.receive(&output(activity)), Ok(()));
    assert_eq!(path(&l).as_deref(), Some("repos/o/r/events?per_page=100"));
    let feed = concat_lines(&[
        r#"{"type":"PullRequestEvent","created_at":"2026-07-04","payload":{"action":"opened","pull_request":{"number":20}}}"#,
        r#"{"type":"PullRequestEvent","created_at":"2026-07-01","payload":{"action":"closed","pull_request":{"number":3}}}"#,
        r#"{"type":"PushEvent","created_at":"2026-07-09"}"#,
    ]);
    assert_eq!(l.receive(&output(&feed)), Ok(()));
    assert_eq!(path(&l).as_deref(), Some("repos/o/r/issues/3/timeline?per_page=100"));
    assert_eq!(l.receive(&output(r#"{"event":"review_dismissed","created_at":"2026-07-03"}"#)), Ok(()));
    assert_eq!(path(&l).as_deref(), Some("repos/o/r/issues/20/timeline?per_page=100"));
    assert_eq!(l.receive(&failed("HTTP 500")), Ok(()));
    assert_eq!(path(&l), None);
    let details: Vec<String> = l.build_events().into_iter().map(|e| e.detail).collect();
    assert_eq!(details, vec!["opened #20", "dismissed review #3", "main", "closed #3"]);
}

fn concat_lines(lines: &[&str]) -> String {
    lines.join("\n")
}

#[test]
fn loading_needs_the_activity() {
    let mut l = Loader::new("o/r".into(), Some("h".into()));
    assert_eq!(
        l.request().map(|a| a[1..3].to_vec()),
        Some(vec!["--hostname".to_string(), "h".to_string()])
    );
    assert_eq!(l.receive(&failed(" HTTP 404\n")), Err("HTTP 404".to_string()));
    let mut l = Loader::new("o/r".into(), None);
    assert_eq!(l.receive(&Reply::NotRun("gone".into())), Err("running gh: gone".to_string()));
}

#[test]
fn loading_goes_on_without_the_other_feed() {
    let mut l = Loader::new("o/r".into(), None);
    assert_eq!(l.receive(&output(r#"{"activity_type":"push","timestamp":"t"}"#)), Ok(()));
    assert_eq!(l.receive(&Reply::NotRun("gone".into())), Ok(()));
    assert_eq!(l.request(), None);
    assert_eq!(l.build_events().len(), 1);
}
