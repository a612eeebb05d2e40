use agent_workspace_api::actor::{parse_scopes, ActorKind};
use agent_workspace_api::agent_credentials::{
    check_credential_project, issue_secret, revokes, scope_policy_json, validate_credential_change,
    UpdateAgentCredentialRequest,
};
use agent_workspace_api::agents::{prepare_agent_change, prepare_new_agent, CreateAgentRequest, UpdateAgentRequest};
use agent_workspace_api::assets::{
    content_disposition, download_disposition, prepare_asset_change, prepare_new_asset, validate_asset_update,
    CreateAssetRequest, DownloadAssetQuery, UpdateAssetRequest,
};
use agent_workspace_api::config::{parse_u32, ConfigError, DatabaseBackend, DatabaseConfig};
use agent_workspace_api::crypto::hash_secret;
use agent_workspace_api::integration_connections::{
    check_connection_scope, connection_change, validate_create_connection, CreateIntegrationConnectionRequest,
    UpdateIntegrationConnectionRequest,
};
use agent_workspace_api::knowledge_base::{
    note_author_type, validate_note, AuthorType, CreateNotePayload, NoteKind, NoteRow,
};
use agent_workspace_api::task_management::{
    default_limit, default_priority, default_rank_key, list_limit, next_cursor, prepare_task, task_filters,
    validate_task_status, CreateTaskRequest, ListTasksQuery, TaskDetail, TaskRow, UpdateTaskStatusRequest,
};
use agent_workspace_api::task_structure::{
    prepare_task_group, prepare_task_group_change, CreateTaskGroupRequest, UpdateTaskGroupRequest,
};

fn s(x: &str) -> String {
    x.to_string()
}

#[test]
fn asset_uploads_decode_and_digest() {
    let body = CreateAssetRequest {
        file_name: s("note.txt"),
        media_type: s("text/plain"),
        content_base64: s("aGVsbG8gYXNzZXRz"),
        sha256: None,
    };
    let a = prepare_new_asset(&body, ActorKind::Human, "m1", "r").unwrap();
    assert_eq!(a.content, b"hello assets".to_vec());
    assert_eq!(a.size_bytes, 12);
    assert_eq!(a.uploaded_by_member_id, Some(s("m1")));
    assert_eq!(a.sha256.len(), 64);
    let agent = prepare_new_asset(&body, ActorKind::Agent, "ag", "r").unwrap();
    assert_eq!(agent.uploaded_by_member_id, None);
    let bad = CreateAssetRequest { content_base64: s("%%%"), ..body };
    assert_eq!(prepare_new_asset(&bad, ActorKind::Human, "m1", "r").unwrap_err().message, "content_base64 must be valid base64");
    let blank = CreateAssetRequest {
        file_name: s(" "),
        media_type: s("text/plain"),
        content_base64: s(""),
        sha256: Some(s("given")),
    };
    assert_eq!(prepare_new_asset(&blank, ActorKind::Human, "m1", "r").unwrap_err().message, "file_name must not be empty");
    let empty = CreateAssetRequest { file_name: s("e"), ..blank };
    let e = prepare_new_asset(&empty, ActorKind::Human, "m1", "r").unwrap();
    assert_eq!(e.sha256, "given");
    assert_eq!(e.size_bytes, 0);
}

#[test]
fn asset_changes_and_downloads() {
    let none = UpdateAssetRequest { file_name: None, media_type: Some(s("")), content_base64: None, sha256: None };
    assert_eq!(validate_asset_update(&none, "r").unwrap_err().message, "media_type must not be empty");
    let change = UpdateAssetRequest {
        file_name: Some(s("b.txt")),
        media_type: None,
        content_base64: Some(s("YWJj")),
        sha256: None,
    };
    let c = prepare_asset_change(&change, "r").unwrap();
    assert_eq!(c.content, Some(b"abc".to_vec()));
    assert_eq!(c.size_bytes, Some(3));
    assert_eq!(c.sha256, Some(hash_secret("abc")));
    let meta_only = UpdateAssetRequest { file_name: Some(s("c")), media_type: None, content_base64: None, sha256: None };
    let c = prepare_asset_change(&meta_only, "r").unwrap();
    assert!(c.content.is_none() && c.size_bytes.is_none() && c.sha256.is_none());
    assert_eq!(download_disposition(&DownloadAssetQuery { disposition: Some(s("inline")) }), "inline");
    assert_eq!(download_disposition(&DownloadAssetQuery { disposition: Some(s("x")) }), "attachment");
    assert_eq!(content_disposition("inline", "a.txt"), "inline; filename=\"a.txt\"");
}

#[test]
fn tasks_and_groups() {
    let body = CreateTaskRequest {
        title: s("  Ship it "),
        group_id: None,
        parent_task_id: None,
        description_md: None,
        priority: default_priority(),
        rank_key: default_rank_key(),
        assignee_type: Some(s("agent")),
        assignee_id: None,
    };
    let new_task = prepare_task(&body, "r").unwrap();
    assert_eq!(new_task.title, "Ship it");
    assert_eq!(new_task.status, "todo");
    let bad = CreateTaskRequest { priority: s("urgent"), ..body };
    assert_eq!(prepare_task(&bad, "r").unwrap_err().message, "priority must be one of: low, normal, high, critical");
    assert!(validate_task_status(&UpdateTaskStatusRequest { status: s("in_progress") }, "r").is_ok());
    assert_eq!(
        validate_task_status(&UpdateTaskStatusRequest { status: s("blocked") }, "r").unwrap_err().message,
        "status must be one of: todo, in_progress, done, cancelled"
    );
    let q = ListTasksQuery { status: Some(s("todo")), group_id: None, assignee_id: Some(s("a")), limit: 500 };
    assert_eq!(list_limit(&q), 200);
    assert_eq!(list_limit(&ListTasksQuery { limit: 0, ..q }), 1);
    assert_eq!(default_limit(), 50);
    assert_eq!(next_cursor(60, 50), Some(s("50")));
    assert_eq!(next_cursor(50, 50), None);
    let q = ListTasksQuery { status: Some(s("todo")), group_id: None, assignee_id: Some(s("a")), limit: 5 };
    assert_eq!(task_filters(&q), vec![(s("t.status"), s("todo")), (s("t.assignee_id"), s("a"))]);
    let row = TaskRow {
        id: s("t1"),
        project_id: s("p"),
        group_id: None,
        parent_task_id: None,
        title: s("T"),
        description_md: None,
        status: s("todo"),
        priority: s("normal"),
        rank_key: s("a0"),
        starts_at: None,
        due_at: None,
        assignee_type: None,
        assignee_id: None,
        blocked: 2,
        created_at: s("c"),
        updated_at: s("u"),
    };
    let d = TaskDetail::from_row(row);
    assert!(d.blocked);
    assert_eq!(d.id, "t1");
    let g = CreateTaskGroupRequest { kind: s("epic"), title: s(" Epic "), description_md: None, status: s("active"), priority: 0 };
    assert_eq!(prepare_task_group(&g, "r").unwrap(), "Epic");
    let g2 = CreateTaskGroupRequest { kind: s("story"), ..g };
    assert_eq!(prepare_task_group(&g2, "r").unwrap_err().message, "kind must be one of: initiative, epic");
    let u = UpdateTaskGroupRequest { kind: None, title: Some(s("  ")), description_md: None, status: None, priority: None };
    assert_eq!(prepare_task_group_change(&u, "r").unwrap_err().message, "title must not be empty");
}

#[test]
fn agents_and_credentials() {
    let a = CreateAgentRequest { key: s("ci-bot"), display_name: s(" CI Bot "), status: s("active") };
    let n = prepare_new_agent(&a, "r").unwrap();
    assert_eq!(n.display_name, "CI Bot");
    let bad = CreateAgentRequest { key: s("  "), display_name: s("x"), status: s("active") };
    assert_eq!(prepare_new_agent(&bad, "r").unwrap_err().message, "key must not be empty");
    let bad = CreateAgentRequest { key: s("CI"), display_name: s("x"), status: s("active") };
    assert_eq!(
        prepare_new_agent(&bad, "r").unwrap_err().message,
        "key must be lowercase kebab-case (a-z, 0-9, hyphens; no leading/trailing hyphen)"
    );
    let ch = UpdateAgentRequest { key: None, display_name: Some(s(" ")), status: None };
    assert_eq!(prepare_agent_change(&ch, "r").unwrap_err().message, "display_name must not be empty");
    let secret = issue_secret();
    assert!(secret.secret.starts_with("awcred_"));
    assert_eq!(secret.secret.len(), 7 + 8 + 1 + 32);
    assert_eq!(&secret.secret[7..15], secret.secret_prefix.as_str());
    assert_eq!(secret.secret_hash, hash_secret(&secret.secret));
    let scopes = vec![s("tasks:read"), s("notes:\"write\"")];
    let json = scope_policy_json(&scopes);
    assert_eq!(parse_scopes(&json), scopes);
    let change = UpdateAgentCredentialRequest {
        label: Some(s(" ")),
        project_id: None,
        scope_policy: None,
        status: Some(s("revoked")),
        expires_at: None,
    };
    assert_eq!(validate_credential_change(&change, "r").unwrap_err().message, "label must not be empty");
    assert!(revokes(&change));
    assert!(check_credential_project(&Some(s("p")), true, "r").is_ok());
    assert_eq!(
        check_credential_project(&Some(s("p")), false, "r").unwrap_err().message,
        "project not found in this workspace"
    );
}

#[test]
fn notes_kinds_read_back() {
    for k in [NoteKind::Context, NoteKind::Worklog, NoteKind::Decision, NoteKind::Result] {
        assert_eq!(NoteKind::from_str(k.as_str()), Some(k));
    }
    for a in [AuthorType::WorkspaceMember, AuthorType::Agent, AuthorType::Integration] {
        assert_eq!(AuthorType::from_str(a.as_str()), Some(a));
    }
    assert_eq!(note_author_type(ActorKind::Agent), AuthorType::Agent);
    assert_eq!(note_author_type(ActorKind::System), AuthorType::WorkspaceMember);
    let p = CreateNotePayload { kind: NoteKind::Decision, title: None, body_md: s(" "), agent_session_id: None };
    assert_eq!(validate_note(&p, "r").unwrap_err().message, "body_md must not be empty");
    let row = NoteRow {
        id: s("n"),
        project_id: s("p"),
        agent_session_id: None,
        kind: s("memo"),
        author_type: s("agent"),
        author_id: s("a"),
        title: None,
        body_md: s("b"),
        created_at: s("c"),
        updated_at: s("u"),
    };
    assert_eq!(row.into_response().unwrap_err(), "invalid note kind stored in db: memo");
}

#[test]
fn connections() {
    let c = CreateIntegrationConnectionRequest {
        provider: s("github"),
        scope_kind: s("project"),
        project_id: None,
        status: s("active"),
        config_json: None,
        secret_ciphertext: None,
    };
    assert!(validate_create_connection(&c, "r").is_ok());
    assert_eq!(
        check_connection_scope(&c, false, "r").unwrap_err().message,
        "project_id is required when scope_kind = project"
    );
    let ws = CreateIntegrationConnectionRequest { scope_kind: s("workspace"), project_id: Some(s("p")), ..c };
    assert_eq!(
        check_connection_scope(&ws, true, "r").unwrap_err().message,
        "project_id is only allowed when scope_kind = project"
    );
    let gl = CreateIntegrationConnectionRequest {
        provider: s("gitlab"),
        scope_kind: s("workspace"),
        project_id: None,
        status: s("active"),
        config_json: None,
        secret_ciphertext: None,
    };
    assert_eq!(validate_create_connection(&gl, "r").unwrap_err().message, "provider must be github");
    let u = UpdateIntegrationConnectionRequest {
        provider: None,
        scope_kind: None,
        project_id: Some(None),
        status: Some(s("error")),
        config_json: None,
        secret_ciphertext: Some(Some(s("enc"))),
    };
    let ch = connection_change(&u);
    assert_eq!(ch.project_id, None);
    assert_eq!(ch.secret_ciphertext, Some(s("enc")));
    assert_eq!(ch.status, Some(s("error")));
}

#[test]
fn database_settings() {
    let c = DatabaseConfig::from_values(Some(s("sqlite::memory:")), None, None).unwrap();
    assert_eq!(c.backend, DatabaseBackend::Sqlite);
    assert_eq!(c.max_connections, 10);
    assert_eq!(c.min_connections, 1);
    let pg = DatabaseConfig::from_values(Some(s("postgres://x")), Some(s("25")), Some(s("+2"))).unwrap();
    assert_eq!(pg.backend, DatabaseBackend::Postgres);
    assert_eq!((pg.max_connections, pg.min_connections), (25, 2));
    assert!(matches!(DatabaseConfig::from_values(None, None, None), Err(ConfigError::MissingDatabaseUrl)));
    let e = DatabaseConfig::from_values(Some(s("x")), Some(s("4294967296")), None).unwrap_err();
    assert_eq!(e.message(), "DATABASE_MAX_CONNECTIONS is not a valid u32: 4294967296");
    let e = DatabaseConfig::from_values(Some(s("x")), None, Some(s("-1"))).unwrap_err();
    assert_eq!(e.message(), "DATABASE_MIN_CONNECTIONS is not a valid u32: -1");
    assert_eq!(ConfigError::MissingDatabaseUrl.message(), "DATABASE_URL environment variable is not set");
    assert_eq!(parse_u32("4294967295"), Some(u32::MAX));
    assert_eq!(parse_u32(""), None);
    assert_eq!(parse_u32("+"), None);
}
