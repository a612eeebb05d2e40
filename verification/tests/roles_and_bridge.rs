use agent_workspace_api::access::{check_project_visibility, require_human_workspace_role, WorkspaceRole};
use agent_workspace_api::actor::{ActorContext, ActorKind};
use agent_workspace_api::assets::decode_content;
use agent_workspace_api::ids::new_token;
use agent_workspace_api::mcp::{api_error_message, download_payload};

fn human(id: &str) -> ActorContext {
    ActorContext {
        actor_kind: ActorKind::Human,
        actor_id: id.to_string(),
        workspace_id: None,
        project_id: None,
        role: None,
        scopes: Vec::new(),
    }
}

#[test]
fn human_role_must_reach_the_required_one() {
    let actor = human("m-1");
    assert!(require_human_workspace_role(&actor, Some("owner"), WorkspaceRole::Editor, "r").is_ok());
    assert!(require_human_workspace_role(&actor, Some("editor"), WorkspaceRole::Editor, "r").is_ok());
    let err = require_human_workspace_role(&actor, Some("viewer"), WorkspaceRole::Editor, "r").unwrap_err();
    assert_eq!(err.error_code, "forbidden");
    assert_eq!(err.message, "actor does not have enough permissions for this workspace");
    let err = require_human_workspace_role(&actor, None, WorkspaceRole::Viewer, "r").unwrap_err();
    assert_eq!(err.error_code, "forbidden");
    assert_eq!(err.message, "actor does not have access to this workspace");
    let err = require_human_workspace_role(&actor, Some("root"), WorkspaceRole::Viewer, "r").unwrap_err();
    assert_eq!(err.error_code, "internal_error");
    assert_eq!(err.message, "unknown workspace role 'root'");
}

#[test]
fn only_humans_pass_the_role_check() {
    let err = require_human_workspace_role(&ActorContext::system(), Some("owner"), WorkspaceRole::Viewer, "r")
        .unwrap_err();
    assert_eq!(err.error_code, "unauthorised");
    let mut agent = human("a-1");
    agent.actor_kind = ActorKind::Agent;
    let err = require_human_workspace_role(&agent, Some("owner"), WorkspaceRole::Viewer, "r").unwrap_err();
    assert_eq!(err.error_code, "forbidden");
    assert_eq!(err.message, "agent credentials cannot access this endpoint");
}

#[test]
fn bridge_error_message_prefers_the_json_message() {
    assert_eq!(api_error_message(Some("boom".to_string()), Some("Not Found")), "boom");
    assert_eq!(api_error_message(None, Some("Not Found")), "Not Found");
    assert_eq!(api_error_message(None, None), "Agent Workspace API error");
}

#[test]
fn download_payload_encodes_the_bytes() {
    let p = download_payload(b"hello", Some("text/plain".to_string()), None);
    assert_eq!(p.content_base64, "aGVsbG8=");
    assert_eq!(p.size_bytes, 5);
    assert_eq!(p.media_type.as_deref(), Some("text/plain"));
    assert!(p.content_disposition.is_none());
}

#[test]
fn uploaded_content_round_trips_through_base64() {
    let p = download_payload(&[0u8, 1, 2, 250, 255], None, None);
    assert_eq!(decode_content(&p.content_base64, "r").unwrap(), vec![0u8, 1, 2, 250, 255]);
    assert_eq!(decode_content("aGVsbG8=", "r").unwrap(), b"hello".to_vec());
    let err = decode_content("not base64!", "r").unwrap_err();
    assert_eq!(err.error_code, "validation_error");
    assert_eq!(err.message, "content_base64 must be valid base64");
}

#[test]
fn tokens_carry_their_prefix_and_two_uuids() {
    let t = new_token("awk_");
    assert!(t.starts_with("awk_"));
    let rest = &t["awk_".len()..];
    let (a, b) = rest.split_at(36);
    assert_eq!(a.len(), 36);
    assert!(b.starts_with('_'));
    assert_eq!(b.len(), 37);
    assert_ne!(new_token("awk_"), t);
}

#[test]
fn only_owners_pass_an_owner_requirement() {
    let actor = human("m-1");
    assert!(require_human_workspace_role(&actor, Some("owner"), WorkspaceRole::Owner, "r").is_ok());
    for role in ["editor", "viewer"] {
        let err = require_human_workspace_role(&actor, Some(role), WorkspaceRole::Owner, "r").unwrap_err();
        assert_eq!(err.error_code, "forbidden");
    }
}

#[test]
fn project_grant_decides_project_visibility() {
    let editor = human("e-1");
    let err = check_project_visibility(&editor, Some("editor"), None, "r").unwrap_err();
    assert_eq!(err.error_code, "forbidden");
    assert_eq!(err.message, "actor does not have access to this project");
    assert!(check_project_visibility(&editor, Some("editor"), Some("viewer"), "r").is_ok());
    assert!(check_project_visibility(&editor, Some("owner"), None, "r").is_ok());
    let err = check_project_visibility(&editor, None, Some("viewer"), "r").unwrap_err();
    assert_eq!(err.message, "actor does not have access to this workspace");
    let err = check_project_visibility(&editor, Some("viewer"), Some("admin"), "r").unwrap_err();
    assert_eq!(err.error_code, "internal_error");
    assert_eq!(err.message, "unknown project role 'admin'");
    let err = check_project_visibility(&ActorContext::system(), Some("owner"), None, "r").unwrap_err();
    assert_eq!(err.error_code, "unauthorised");
}
