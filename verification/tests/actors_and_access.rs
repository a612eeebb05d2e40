use agent_workspace_api::access::{
    check_membership_role, require_agent_scope_for_project, require_authenticated_human, require_project_access,
    WorkspaceRole,
};
use agent_workspace_api::actor::{
    actor_from_bearer, actor_from_legacy_headers, actor_from_session, actor_source, bearer_token, cookie_value,
    parse_scopes, request_id_from_header, session_cookie, ActorContext, ActorKind, ActorSource, CredentialRow,
    LegacyActorHeaders, SessionRow,
};
use agent_workspace_api::audit::{audit_row, AuditEvent};
use agent_workspace_api::crypto::{hash_secret, sha256_hex};

fn s(x: &str) -> String {
    x.to_string()
}

fn agent(workspace: Option<&str>, project: Option<&str>, scopes: &[&str]) -> ActorContext {
    ActorContext {
        actor_kind: ActorKind::Agent,
        actor_id: s("agent-1"),
        workspace_id: workspace.map(s),
        project_id: project.map(s),
        role: None,
        scopes: scopes.iter().map(|x| s(x)).collect(),
    }
}

#[test]
fn system_actor_is_anonymous() {
    let a = ActorContext::system();
    assert_eq!(a.actor_kind, ActorKind::System);
    assert_eq!(a.actor_id, "anonymous");
    assert!(a.workspace_id.is_none() && a.project_id.is_none() && a.role.is_none());
    assert!(a.scopes.is_empty());
}

#[test]
fn human_only_endpoints() {
    let mut h = ActorContext::system();
    assert_eq!(require_authenticated_human(&h, "r").unwrap_err().status_code(), 401);
    h.actor_kind = ActorKind::Human;
    assert!(require_authenticated_human(&h, "r").is_ok());
    let a = agent(Some("w"), None, &[]);
    let e = require_authenticated_human(&a, "r").unwrap_err();
    assert_eq!(e.status_code(), 403);
    assert_eq!(e.message, "agent credentials cannot access this endpoint");
}

#[test]
fn agent_scope_rules() {
    let a = agent(Some("w1"), Some("p1"), &["tasks:read", "documents:write"]);
    assert!(require_agent_scope_for_project(&a, "w1", "p1", "tasks:read", "r").is_ok());
    let e = require_agent_scope_for_project(&a, "w2", "p1", "tasks:read", "r").unwrap_err();
    assert_eq!(e.message, "agent credential is outside the target workspace");
    let e = require_agent_scope_for_project(&a, "w1", "p2", "tasks:read", "r").unwrap_err();
    assert_eq!(e.message, "agent credential is outside the target project");
    let e = require_agent_scope_for_project(&a, "w1", "p1", "notes:write", "r").unwrap_err();
    assert_eq!(e.message, "missing required scope 'notes:write'");
    assert_eq!(e.status_code(), 403);
    let unbound = agent(Some("w1"), None, &["tasks:read"]);
    assert!(require_agent_scope_for_project(&unbound, "w1", "any-project", "tasks:read", "r").is_ok());
    let mut human = agent(Some("w1"), None, &["tasks:read"]);
    human.actor_kind = ActorKind::Human;
    let e = require_agent_scope_for_project(&human, "w1", "p1", "tasks:read", "r").unwrap_err();
    assert_eq!(e.message, "human session cannot use agent-only permissions");
}

#[test]
fn membership_roles_are_ordered() {
    assert_eq!(WorkspaceRole::from_db("owner"), Some(WorkspaceRole::Owner));
    assert_eq!(WorkspaceRole::from_db("admin"), None);
    assert!(check_membership_role(Some("owner"), WorkspaceRole::Editor, "r").is_ok());
    assert!(check_membership_role(Some("editor"), WorkspaceRole::Editor, "r").is_ok());
    let e = check_membership_role(Some("viewer"), WorkspaceRole::Editor, "r").unwrap_err();
    assert_eq!(e.message, "actor does not have enough permissions for this workspace");
    let e = check_membership_role(None, WorkspaceRole::Viewer, "r").unwrap_err();
    assert_eq!(e.message, "actor does not have access to this workspace");
    let e = check_membership_role(Some("root"), WorkspaceRole::Viewer, "r").unwrap_err();
    assert_eq!(e.error_code, "internal_error");
    assert_eq!(e.message, "unknown workspace role 'root'");
}

#[test]
fn project_access_dispatch() {
    let a = agent(Some("w"), None, &["documents:read"]);
    assert!(require_project_access(&a, "w", "p", WorkspaceRole::Viewer, Some("documents:read"), None, "r").is_ok());
    let e = require_project_access(&a, "w", "p", WorkspaceRole::Editor, None, None, "r").unwrap_err();
    assert_eq!(e.message, "agent credentials cannot access this endpoint");
    let sys = ActorContext::system();
    let e = require_project_access(&sys, "w", "p", WorkspaceRole::Viewer, Some("x"), None, "r").unwrap_err();
    assert_eq!(e.status_code(), 401);
    let mut h = ActorContext::system();
    h.actor_kind = ActorKind::Human;
    assert!(require_project_access(&h, "w", "p", WorkspaceRole::Editor, None, Some("owner"), "r").is_ok());
    assert!(require_project_access(&h, "w", "p", WorkspaceRole::Editor, None, Some("viewer"), "r").is_err());
}

#[test]
fn cookies_and_bearer_tokens() {
    assert_eq!(session_cookie("a=1; aw_session=tok123; b=2"), Some(s("tok123")));
    assert_eq!(session_cookie("aw_session=; other=1"), None);
    assert_eq!(session_cookie("  aw_session=x=y "), Some(s("x=y")));
    assert_eq!(session_cookie("theme=dark"), None);
    assert_eq!(cookie_value("aw_github_state=gho_1; aw_session=z", "aw_github_state"), Some(s("gho_1")));
    assert_eq!(bearer_token("Bearer abc"), Some(s("abc")));
    assert_eq!(bearer_token("Bearer "), None);
    assert_eq!(bearer_token("bearer abc"), None);
    assert!(matches!(actor_source(Some("aw_session=t"), Some("Bearer b")), ActorSource::Session(t) if t == "t"));
    assert!(matches!(actor_source(Some("x=1"), Some("Bearer b")), ActorSource::Bearer(t) if t == "b"));
    assert!(matches!(actor_source(None, None), ActorSource::Headers));
    assert_eq!(request_id_from_header(None), "missing");
    assert_eq!(request_id_from_header(Some("req-7")), "req-7");
}

#[test]
fn legacy_headers_name_the_actor() {
    let h = LegacyActorHeaders {
        actor_kind: Some(s("agent")),
        actor_id: Some(s("agent-9")),
        workspace_id: Some(s("w1")),
        project_id: Some(s("")),
        role: None,
        scopes: Some(s(" tasks:read , ,documents:write ")),
    };
    let a = actor_from_legacy_headers(&h);
    assert_eq!(a.actor_kind, ActorKind::Agent);
    assert_eq!(a.actor_id, "agent-9");
    assert_eq!(a.workspace_id, Some(s("w1")));
    assert_eq!(a.project_id, None);
    assert_eq!(a.scopes, vec![s("tasks:read"), s("documents:write")]);
    let empty = LegacyActorHeaders {
        actor_kind: Some(s("robot")),
        actor_id: None,
        workspace_id: None,
        project_id: None,
        role: None,
        scopes: None,
    };
    let a = actor_from_legacy_headers(&empty);
    assert_eq!(a.actor_kind, ActorKind::System);
    assert_eq!(a.actor_id, "anonymous");
    assert!(a.scopes.is_empty());
}

#[test]
fn session_and_bearer_rows_become_actors() {
    let a = actor_from_session(
        Some(SessionRow { member_id: s("m1"), workspace_id: s("w1"), role: s("owner") }),
        "r",
    )
    .unwrap();
    assert_eq!(a.actor_kind, ActorKind::Human);
    assert_eq!(a.role, Some(s("owner")));
    assert_eq!(actor_from_session(None, "r").unwrap_err().message, "session is not valid");
    let b = actor_from_bearer(
        Some(CredentialRow {
            agent_id: s("ag"),
            workspace_id: s("w1"),
            project_id: Some(s("p1")),
            scope_policy: s("[\"tasks:read\",\"notes:write\"]"),
        }),
        "r",
    )
    .unwrap();
    assert_eq!(b.actor_kind, ActorKind::Agent);
    assert_eq!(b.scopes, vec![s("tasks:read"), s("notes:write")]);
    assert_eq!(actor_from_bearer(None, "r").unwrap_err().message, "bearer token is not valid");
    assert!(parse_scopes("not json").is_empty());
    assert!(parse_scopes("{\"a\":1}").is_empty());
}

#[test]
fn secrets_are_stored_as_sha256_hex() {
    assert_eq!(hash_secret(""), "e3b0c44298fc1c149afbf4c8996fb92427ae41e4649b934ca495991b7852b855");
    assert_eq!(hash_secret("abc"), "ba7816bf8f01cfea414140de5dae2223b00361a396177a9cb410ff61f20015ad");
    assert_eq!(sha256_hex(b"abc"), hash_secret("abc"));
}

#[test]
fn audit_rows_need_a_workspace() {
    let mut actor = ActorContext::system();
    actor.actor_kind = ActorKind::Human;
    actor.actor_id = s("m1");
    let ev = AuditEvent {
        request_id: s("r"),
        actor: actor.clone(),
        action: s("document.created"),
        resource_kind: s("document"),
        resource_id: s("d1"),
        payload: None,
    };
    assert!(audit_row(&ev).is_none());
    actor.workspace_id = Some(s("w1"));
    let ev = AuditEvent { actor, ..ev };
    let row = audit_row(&ev).unwrap();
    assert_eq!(row.workspace_id, "w1");
    assert_eq!(row.actor_type, "workspace_member");
    assert_eq!(row.actor_id, Some(s("m1")));
    assert_eq!(row.entity_id, Some(s("d1")));
    assert_eq!(row.event_type, "document.created");
}

#[test]
fn system_and_agent_audit_rows() {
    let mut actor = ActorContext::system();
    actor.workspace_id = Some(s("w1"));
    let ev = AuditEvent {
        request_id: s("r"),
        actor: actor.clone(),
        action: s("a"),
        resource_kind: s("k"),
        resource_id: s("i"),
        payload: None,
    };
    assert!(audit_row(&ev).is_none());
    actor.actor_kind = ActorKind::Agent;
    let ev = AuditEvent { actor, ..ev };
    let row = audit_row(&ev).unwrap();
    assert_eq!(row.actor_type, "agent");
    assert_eq!(row.actor_id, None);
}
