use ghfeed::aggregate::aggregate;
use ghfeed::codec::{parse_structured, render_structured};
use ghfeed::event::Event;
use ghfeed::extract::{extract_comment_event, extract_issue_events, CommentRecord, IssueRecord};
use ghfeed::project::{check_project_id, comments_path, issues_path};
use ghfeed::strutil::{last_path_segment, u64_to_dec};
use ghfeed::textfeed::{render_text, TextLine};

fn issue(
    state: &str,
    created_at: &str,
    updated_at: &str,
    user: &str,
    title: &str,
    body: &str,
    number: u64,
) -> IssueRecord {
    IssueRecord {
        state: state.to_string(),
        created_at: created_at.to_string(),
        updated_at: updated_at.to_string(),
        user_login: user.to_string(),
        title: title.to_string(),
        body: body.to_string(),
        number,
        html_url: format!("https://example.com/r/issues/{}", number),
    }
}

fn comment(user: &str, body: &str, updated_at: &str, issue_number: u64) -> CommentRecord {
    CommentRecord {
        user_login: user.to_string(),
        body: body.to_string(),
        updated_at: updated_at.to_string(),
        issue_url: format!("https://example.com/r/issues/{}", issue_number),
        html_url: format!("https://example.com/r/issues/comments/77"),
    }
}

fn event_with(who: &str, what: &str, url: &str) -> Event {
    let c = CommentRecord {
        user_login: who.to_string(),
        body: what.to_string(),
        updated_at: "2024-06-01T00:00:00Z".to_string(),
        issue_url: "issues/9".to_string(),
        html_url: url.to_string(),
    };
    extract_comment_event(&c).unwrap()
}

fn sample_records() -> (Vec<IssueRecord>, Vec<CommentRecord>) {
    let issues = vec![
        issue(
            "open",
            "2024-01-01T10:00:00Z",
            "2024-01-05T00:00:00Z",
            "alice",
            "A",
            "a",
            1,
        ),
        issue(
            "closed",
            "2024-01-02T09:00:00Z",
            "2024-01-03T11:00:00Z",
            "bob",
            "B",
            "b",
            2,
        ),
    ];
    let comments = vec![comment("carol", "c", "2024-01-01T12:00:00Z", 1)];
    (issues, comments)
}

#[test]
fn aggregate_output_is_sorted_ascending() {
    let (issues, comments) = sample_records();
    let events = aggregate(&issues, &comments).unwrap();
    for w in events.windows(2) {
        assert!(w[0].when <= w[1].when);
    }
}

#[test]
fn event_counts_two_per_issue_one_per_comment() {
    let (issues, comments) = sample_records();
    let events = aggregate(&issues, &comments).unwrap();
    assert_eq!(events.len(), 2 * issues.len() + comments.len());

    let two = extract_issue_events(&issues[0]).unwrap();
    assert_eq!(two.len(), 2);
    let one = extract_comment_event(&comments[0]).unwrap();
    assert_eq!(one.who, "carol");
}

#[test]
fn title_event_when_follows_state() {
    let open = issue(
        "open",
        "2024-01-01T10:00:00Z",
        "2024-01-05T00:00:00Z",
        "alice",
        "A",
        "a",
        1,
    );
    let closed = issue(
        "closed",
        "2024-01-02T09:00:00Z",
        "2024-01-03T11:00:00Z",
        "bob",
        "B",
        "b",
        2,
    );

    let open_events = extract_issue_events(&open).unwrap();
    assert_eq!(open_events[0].when_text, "2024-01-01T10:00:00Z");
    assert_eq!(open_events[1].when_text, "2024-01-01T10:00:00Z");

    let closed_events = extract_issue_events(&closed).unwrap();
    assert_eq!(closed_events[0].when_text, "2024-01-03T11:00:00Z");
    assert_eq!(closed_events[1].when_text, "2024-01-02T09:00:00Z");
}

#[test]
fn categories_follow_kind_and_number() {
    let (issues, comments) = sample_records();
    let open_events = extract_issue_events(&issues[0]).unwrap();
    assert_eq!(open_events[0].category, "OPEN 1");
    assert_eq!(open_events[1].category, "OPEN 1");

    let closed_events = extract_issue_events(&issues[1]).unwrap();
    assert_eq!(closed_events[0].category, "CLOSED 2");
    assert_eq!(closed_events[1].category, "OPEN 2");

    let c = extract_comment_event(&comments[0]).unwrap();
    assert_eq!(c.category, "comment 1");
}

#[test]
fn comment_number_from_odd_issue_urls() {
    let mut c = comment("carol", "c", "2024-01-01T12:00:00Z", 1);
    c.issue_url = "no-slash-here".to_string();
    assert_eq!(extract_comment_event(&c).unwrap().category, "comment no-slash-here");
    c.issue_url = "ends/with/".to_string();
    assert_eq!(extract_comment_event(&c).unwrap().category, "comment ");
}

#[test]
fn structured_round_trip_plain() {
    let (issues, comments) = sample_records();
    let events = aggregate(&issues, &comments).unwrap();
    let doc = render_structured(&events);
    let back = parse_structured(doc.as_str()).unwrap();
    assert_eq!(back.len(), events.len());
    for (a, b) in events.iter().zip(back.iter()) {
        assert_eq!(a.who, b.who);
        assert_eq!(a.when, b.when);
        assert_eq!(a.when_text, b.when_text);
        assert_eq!(a.category, b.category);
        assert_eq!(a.what, b.what);
        assert_eq!(a.url, b.url);
    }
}

#[test]
fn structured_round_trip_special_characters() {
    let ev = event_with(
        "a\"b\\c",
        "line one\nline\ttwo\rend \"quoted\" \\slash",
        "https://example.com/x?a=1&b=2",
    );
    let events = vec![ev];
    let doc = render_structured(&events);
    let back = parse_structured(doc.as_str()).unwrap();
    assert_eq!(back.len(), 1);
    assert_eq!(back[0].who, events[0].who);
    assert_eq!(back[0].what, events[0].what);
    assert_eq!(back[0].url, events[0].url);
    assert_eq!(back[0].when, events[0].when);
}

#[test]
fn structured_document_shape() {
    let events: Vec<Event> = Vec::new();
    assert_eq!(render_structured(&events), "[]");
    assert_eq!(parse_structured("[]").unwrap().len(), 0);
    assert!(parse_structured("").is_none());
    assert!(parse_structured("not a document").is_none());
    assert!(parse_structured("[{\"url\":\"x\"}]").is_none());
}

#[test]
fn escaping_changes_the_text() {
    let ev = event_with("w", "a\"b", "u");
    let doc = render_structured(&vec![ev]);
    assert!(doc.contains("a\\\"b"));
    assert!(!doc.contains("\"what\":\"a\"b\""));
}

#[test]
fn day_separator_once_per_day() {
    let (issues, comments) = sample_records();
    let events = aggregate(&issues, &comments).unwrap();
    let lines = render_text(&events, 80, 0);
    let seps: Vec<&str> = lines
        .iter()
        .filter_map(|l| match l {
            TextLine::Separator { day } => Some(day.as_str()),
            _ => None,
        })
        .collect();
    assert_eq!(seps, vec!["2024-01-01", "2024-01-02", "2024-01-03"]);
}

#[test]
fn header_lines_carry_time_actor_category() {
    let (issues, comments) = sample_records();
    let events = aggregate(&issues, &comments).unwrap();
    let lines = render_text(&events, 80, 0);
    let headers: Vec<(String, String, String)> = lines
        .iter()
        .filter_map(|l| match l {
            TextLine::Header { hm, who, category } => {
                Some((hm.clone(), who.clone(), category.clone()))
            }
            _ => None,
        })
        .collect();
    assert_eq!(headers.len(), 5);
    assert_eq!(
        headers[0],
        ("10:00".to_string(), "alice".to_string(), "OPEN 1".to_string())
    );
    assert_eq!(headers[2].0, "12:00");
    assert_eq!(headers[3].0, "09:00");
    assert_eq!(
        headers[4],
        ("11:00".to_string(), "bob".to_string(), "CLOSED 2".to_string())
    );
}

fn body_line_count(what: &str, width: usize, limit: usize) -> usize {
    let ev = event_with("w", what, "u");
    render_text(&vec![ev], width, limit)
        .iter()
        .filter(|l| matches!(l, TextLine::BodyLine { .. }))
        .count()
}

#[test]
fn line_limit_truncates_wrapped_body() {
    let text = "one two three four five six seven eight nine ten";
    let k = body_line_count(text, 10, 0);
    assert!(k > 2);
    assert_eq!(body_line_count(text, 10, 2), 2);
    assert_eq!(body_line_count(text, 10, k), k);
    assert_eq!(body_line_count(text, 10, k + 5), k);
}

#[test]
fn wrapping_splits_long_text() {
    let lines = render_text(&vec![event_with("w", "alpha beta gamma", "u")], 5, 0);
    let bodies: Vec<&str> = lines
        .iter()
        .filter_map(|l| match l {
            TextLine::BodyLine { text } => Some(text.as_str()),
            _ => None,
        })
        .collect();
    assert_eq!(bodies, vec!["alpha", "beta", "gamma"]);
}

#[test]
fn end_to_end_sample_order() {
    let (issues, comments) = sample_records();
    let events = aggregate(&issues, &comments).unwrap();
    assert_eq!(events.len(), 5);
    let summary: Vec<(String, String)> = events
        .iter()
        .map(|e| (e.category.clone(), e.what.clone()))
        .collect();
    assert_eq!(
        summary,
        vec![
            ("OPEN 1".to_string(), "A".to_string()),
            ("OPEN 1".to_string(), "a".to_string()),
            ("comment 1".to_string(), "c".to_string()),
            ("OPEN 2".to_string(), "b".to_string()),
            ("CLOSED 2".to_string(), "B".to_string()),
        ]
    );
}

#[test]
fn bad_timestamp_is_fatal() {
    let mut bad = issue(
        "open",
        "not a timestamp",
        "2024-01-05T00:00:00Z",
        "alice",
        "A",
        "a",
        1,
    );
    let err = extract_issue_events(&bad).unwrap_err();
    assert_eq!(err.bad_timestamp, "not a timestamp");

    bad.created_at = "2024-01-01T10:00:00Z".to_string();
    bad.state = "closed".to_string();
    bad.updated_at = "garbage".to_string();
    let err = extract_issue_events(&bad).unwrap_err();
    assert_eq!(err.bad_timestamp, "garbage");

    let mut c = comment("carol", "c", "nope", 1);
    let err = extract_comment_event(&c).unwrap_err();
    assert_eq!(err.bad_timestamp, "nope");
    c.updated_at = "2024-01-01T12:00:00Z".to_string();
    assert!(extract_comment_event(&c).is_ok());

    let issues = vec![issue(
        "open",
        "broken",
        "2024-01-05T00:00:00Z",
        "alice",
        "A",
        "a",
        1,
    )];
    assert!(aggregate(&issues, &Vec::new()).is_err());
}

#[test]
fn timestamps_normalize_to_utc() {
    let a = extract_comment_event(&comment("w", "x", "2024-01-01T10:00:00Z", 1)).unwrap();
    let b = extract_comment_event(&comment("w", "x", "2024-01-01T12:00:00+02:00", 1)).unwrap();
    assert_eq!(a.when, b.when);
    assert!(extract_comment_event(&comment("w", "x", "2024-01-01", 1)).is_err());
}

#[test]
fn equal_instants_keep_extraction_order() {
    let issues = vec![
        issue(
            "open",
            "2024-01-01T10:00:00Z",
            "2024-01-01T10:00:00Z",
            "alice",
            "first",
            "second",
            1,
        ),
        issue(
            "open",
            "2024-01-01T10:00:00Z",
            "2024-01-01T10:00:00Z",
            "bob",
            "third",
            "fourth",
            2,
        ),
    ];
    let comments = vec![comment("carol", "fifth", "2024-01-01T10:00:00Z", 1)];
    let events = aggregate(&issues, &comments).unwrap();
    let texts: Vec<&str> = events.iter().map(|e| e.what.as_str()).collect();
    assert_eq!(texts, vec!["first", "second", "third", "fourth", "fifth"]);
}

#[test]
fn decimal_rendering_exact() {
    assert_eq!(u64_to_dec(0), "0");
    assert_eq!(u64_to_dec(7), "7");
    assert_eq!(u64_to_dec(10), "10");
    assert_eq!(u64_to_dec(105), "105");
    assert_eq!(u64_to_dec(u64::MAX), "18446744073709551615");
}

#[test]
fn last_path_segment_exact() {
    assert_eq!(last_path_segment("https://e.com/a/b/42"), "42");
    assert_eq!(last_path_segment("plain"), "plain");
    assert_eq!(last_path_segment("trailing/"), "");
    assert_eq!(last_path_segment(""), "");
}

#[test]
fn state_is_upper_cased_in_category() {
    let rec = issue(
        "wip",
        "2024-01-01T10:00:00Z",
        "2024-01-02T10:00:00Z",
        "alice",
        "A",
        "a",
        3,
    );
    let events = extract_issue_events(&rec).unwrap();
    assert_eq!(events[0].category, "WIP 3");
}

#[test]
fn project_paths_and_identifier() {
    assert_eq!(issues_path("octo/cat"), "/repos/octo/cat/issues");
    assert_eq!(comments_path("octo/cat"), "/repos/octo/cat/issues/comments");
    assert!(check_project_id("octo/cat"));
    assert!(!check_project_id("octocat"));
    assert!(!check_project_id("/cat"));
    assert!(!check_project_id("octo/"));
    assert!(!check_project_id("a/b/c"));
}
