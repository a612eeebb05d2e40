use agent_workspace_api::error::ApiError;
use agent_workspace_api::mcp::{activity_query, check_mode, resolve_value, task_list_query, ApiSettings, BridgeDefaults};
use agent_workspace_api::pagination::{Page, PaginationParams};

#[test]
fn not_found_returns_404() {
    let err = ApiError::not_found("req-1", "resource not found");
    assert_eq!(err.status_code(), 404);
}

#[test]
fn unauthorised_returns_401() {
    let err = ApiError::unauthorised("req-1", "not authenticated");
    assert_eq!(err.status_code(), 401);
}

#[test]
fn forbidden_returns_403() {
    let err = ApiError::forbidden("req-1", "not allowed");
    assert_eq!(err.status_code(), 403);
}

#[test]
fn validation_error_returns_422() {
    let err = ApiError::validation_error("req-1", "bad input");
    assert_eq!(err.status_code(), 422);
}

#[test]
fn internal_returns_500() {
    let err = ApiError::internal("req-1", "something went wrong");
    assert_eq!(err.status_code(), 500);
}

#[test]
fn unknown_error_code_returns_500() {
    let err = ApiError {
        request_id: "req-1".to_string(),
        error_code: "some_unknown_code".to_string(),
        message: "unexpected".to_string(),
        details: None,
    };
    assert_eq!(err.status_code(), 500);
}

#[test]
fn conflict_returns_409_and_keeps_fields() {
    let err = ApiError::conflict("req-9", "stale");
    assert_eq!(err.status_code(), 409);
    assert_eq!(err.error_code, "conflict");
    assert_eq!(err.request_id, "req-9");
    assert_eq!(err.message, "stale");
    assert!(err.details.is_none());
}

#[test]
fn page_serializes_with_expected_fields() {
    let page = Page::new(vec![1u32, 2, 3], 10, 1, 3);
    assert_eq!(page.items, vec![1u32, 2, 3]);
    assert_eq!(page.total, 10);
    assert_eq!(page.page, 1);
    assert_eq!(page.per_page, 3);
    assert_eq!(page.total_pages, 4);
}

#[test]
fn page_total_pages_rounds_up() {
    let page = Page::new(vec![0u32; 5], 11, 1, 5);
    assert_eq!(page.total_pages, 3);
}

#[test]
fn page_with_zero_page_size_has_no_pages() {
    let page = Page::new(Vec::<u32>::new(), 11, 1, 0);
    assert_eq!(page.total_pages, 0);
    let exact = Page::new(Vec::<u32>::new(), 10, 1, 5);
    assert_eq!(exact.total_pages, 2);
    let huge = Page::new(Vec::<u32>::new(), u64::MAX, 1, 1);
    assert_eq!(huge.total_pages, u32::MAX);
}

#[test]
fn per_page_over_100_is_clamped_to_100_in_params() {
    let params = PaginationParams::from_query(Some(2), Some(999));
    assert_eq!(params.per_page, 100);
    assert_eq!(params.page, 2);
}

#[test]
fn missing_params_fall_back_to_defaults_in_params() {
    let params = PaginationParams::from_query(None, None);
    assert_eq!(params.page, 1);
    assert_eq!(params.per_page, 20);
    let zero = PaginationParams::from_query(Some(0), Some(0));
    assert_eq!(zero.page, 1);
    assert_eq!(zero.per_page, 0);
}

#[test]
fn page_window_and_next_cursor() {
    let params = PaginationParams::from_query(Some(2), Some(1));
    assert_eq!(params.window(), (1, 1));
    assert_eq!(params.next_cursor(3), Some("3".to_string()));
    assert_eq!(params.next_cursor(2), None);
    assert_eq!(params.next_cursor(-5), None);
    let first = PaginationParams::from_query(None, Some(1));
    assert_eq!(first.next_cursor(2), Some("2".to_string()));
}

#[test]
fn resolve_value_uses_explicit_value_before_default() {
    let value = resolve_value(Some("explicit"), Some("default"), "workspace_slug").unwrap();
    assert_eq!(value, "explicit");
}

#[test]
fn resolve_value_rejects_missing_value_without_default() {
    let error = resolve_value(None, None, "project_slug").unwrap_err();
    assert!(error.message.contains("project_slug is required"));
}

#[test]
fn resolve_value_falls_back_and_rejects_blank() {
    assert_eq!(resolve_value(None, Some("dev"), "workspace_slug").unwrap(), "dev");
    let blank = resolve_value(Some("  "), Some("dev"), "workspace_slug").unwrap_err();
    assert_eq!(
        blank.message,
        "workspace_slug is required when no environment default is configured"
    );
    assert_eq!(blank.missing, "workspace_slug");
}

#[test]
fn bridge_paths_use_defaults() {
    let defaults = BridgeDefaults {
        workspace_slug: Some("dev-workspace".to_string()),
        project_slug: None,
    };
    assert_eq!(
        defaults.workspace_path(None, "/activity").unwrap(),
        "/api/v1/workspaces/dev-workspace/activity"
    );
    assert_eq!(
        defaults.project_path(None, Some("main-project"), "/tasks").unwrap(),
        "/api/v1/workspaces/dev-workspace/projects/main-project/tasks"
    );
    let missing = defaults.project_path(None, None, "/tasks").unwrap_err();
    assert_eq!(missing.missing, "project_slug");
}

#[test]
fn api_settings_trim_and_require_token() {
    let s = ApiSettings::from_values(Some("http://api.test///".to_string()), Some("tok".to_string())).unwrap();
    assert_eq!(s.base_url, "http://api.test");
    assert_eq!(s.url("/api/v1/health"), "http://api.test/api/v1/health");
    let d = ApiSettings::from_values(None, Some("tok".to_string())).unwrap();
    assert_eq!(d.base_url, "http://localhost:8080");
    assert_eq!(
        ApiSettings::from_values(None, None).unwrap_err(),
        "AGENT_WORKSPACE_AGENT_TOKEN is required"
    );
    assert_eq!(
        ApiSettings::from_values(None, Some("   ".to_string())).unwrap_err(),
        "AGENT_WORKSPACE_AGENT_TOKEN must not be empty"
    );
}

#[test]
fn bridge_queries_and_mode() {
    let q = task_list_query(Some("todo".to_string()), None, Some("a1".to_string()), Some(-5));
    assert_eq!(
        q,
        vec![
            ("status".to_string(), "todo".to_string()),
            ("assignee_id".to_string(), "a1".to_string()),
            ("limit".to_string(), "-5".to_string()),
        ]
    );
    assert_eq!(
        activity_query(Some(2), Some(50)),
        vec![("page".to_string(), "2".to_string()), ("per_page".to_string(), "50".to_string())]
    );
    assert!(check_mode(None).is_ok());
    assert!(check_mode(Some("stdio".to_string())).is_ok());
    assert_eq!(
        check_mode(Some("http".to_string())).unwrap_err(),
        "unsupported mode 'http'; only 'stdio' is implemented"
    );
}
