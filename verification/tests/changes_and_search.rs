use agent_workspace_api::changes::{
    parse_cursor, poll_outcome, poll_timeout_ms, unchanged_response, ChangeHistory, ChangeLookup, ChangePollQuery,
};
use agent_workspace_api::search::{
    like_pattern, needs_project_lookup, search_term, search_workspace_id, sort_search_results, SearchQuery,
    SearchResult,
};

fn s(x: &str) -> String {
    x.to_string()
}

#[test]
fn publish_then_lookup_sees_the_change() {
    let mut h = ChangeHistory::new();
    assert_eq!(h.current_cursor(), 0);
    let before = h.current_cursor();
    let v = h.publish_project_change("w", "p", "documents");
    assert_eq!(v, 1);
    assert_eq!(h.matching_change_after(before, "w", "p", "documents"), ChangeLookup::Changed(1));
    assert_eq!(h.matching_change_after(before, "w", "p", "tasks"), ChangeLookup::Unchanged);
    assert_eq!(h.matching_change_after(h.current_cursor(), "w", "p", "documents"), ChangeLookup::Unchanged);
    let v2 = h.publish_project_change("w", "other", "documents");
    assert_eq!(v2, 2);
    assert_eq!(h.matching_change_after(1, "w", "p", "documents"), ChangeLookup::Unchanged);
}

#[test]
fn forgotten_changes_report_a_gap() {
    let mut h = ChangeHistory::new();
    for _ in 0..1030 {
        h.publish_project_change("w", "p", "notes");
    }
    assert_eq!(h.current_cursor(), 1030);
    assert_eq!(h.matching_change_after(3, "w", "p", "notes"), ChangeLookup::HistoryGap(1030));
    assert_eq!(h.matching_change_after(1010, "w", "p", "notes"), ChangeLookup::Changed(1011));
    // a zero cursor never reports a gap
    assert_eq!(h.matching_change_after(0, "w", "p", "notes"), ChangeLookup::Changed(7));
}

#[test]
fn poll_parameters() {
    let q = |c: Option<&str>, t: Option<u64>| ChangePollQuery { cursor: c.map(s), timeout_ms: t };
    assert_eq!(parse_cursor(&q(None, None), "r").unwrap(), None);
    assert_eq!(parse_cursor(&q(Some("  "), None), "r").unwrap(), None);
    assert_eq!(parse_cursor(&q(Some(" 42 "), None), "r").unwrap(), Some(42));
    assert_eq!(parse_cursor(&q(Some("+7"), None), "r").unwrap(), Some(7));
    let e = parse_cursor(&q(Some("-1"), None), "r").unwrap_err();
    assert_eq!(e.message, "cursor must be an unsigned integer");
    assert!(parse_cursor(&q(Some("18446744073709551616"), None), "r").is_err());
    assert_eq!(parse_cursor(&q(Some("18446744073709551615"), None), "r").unwrap(), Some(u64::MAX));
    assert_eq!(poll_timeout_ms(&q(None, None)), 25_000);
    assert_eq!(poll_timeout_ms(&q(None, Some(5))), 1_000);
    assert_eq!(poll_timeout_ms(&q(None, Some(99_999))), 30_000);
    assert_eq!(poll_timeout_ms(&q(None, Some(2_000))), 2_000);
    let r = poll_outcome(ChangeLookup::Changed(12)).unwrap();
    assert!(r.changed);
    assert_eq!(r.cursor, "12");
    assert!(poll_outcome(ChangeLookup::HistoryGap(3)).unwrap().changed);
    assert!(poll_outcome(ChangeLookup::Unchanged).is_none());
    let u = unchanged_response(0);
    assert!(!u.changed);
    assert_eq!(u.cursor, "0");
}

fn result(id: &str, updated: &str) -> SearchResult {
    SearchResult {
        kind: s("task"),
        id: s(id),
        workspace_id: None,
        project_id: None,
        title: s(id),
        summary: None,
        updated_at: s(updated),
    }
}

#[test]
fn search_results_newest_first_and_stable() {
    let items = vec![
        result("a", "2024-01-01"),
        result("b", "2024-03-01"),
        result("c", "2024-01-01"),
        result("d", "2024-02-01"),
        result("e", "2024-03-01"),
    ];
    let out = sort_search_results(items);
    let ids: Vec<&str> = out.iter().map(|r| r.id.as_str()).collect();
    assert_eq!(ids, vec!["b", "e", "d", "a", "c"]);
    assert!(sort_search_results(Vec::new()).is_empty());
}

#[test]
fn search_term_and_scope() {
    let q = SearchQuery { q: s("  roadmap "), workspace_slug: Some(s("dev")), project_slug: Some(s("main")) };
    assert_eq!(search_term(&q, "r").unwrap(), "roadmap");
    assert_eq!(like_pattern("roadmap"), "%roadmap%");
    let blank = SearchQuery { q: s(" \t"), workspace_slug: None, project_slug: Some(s("main")) };
    assert_eq!(search_term(&blank, "r").unwrap_err().message, "q must not be empty");
    assert_eq!(search_workspace_id(&blank, None, "r").unwrap(), None);
    assert!(!needs_project_lookup(&blank, &None));
    let e = search_workspace_id(&q, None, "r").unwrap_err();
    assert_eq!(e.message, "workspace not found");
    assert_eq!(search_workspace_id(&q, Some(s("w1")), "r").unwrap(), Some(s("w1")));
    assert!(needs_project_lookup(&q, &Some(s("w1"))));
}
