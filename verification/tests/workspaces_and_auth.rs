use agent_workspace_api::auth::{
    actor_for_member, check_oauth_callback, client_ip, dev_login_values, expired_cookie, github_authorize_url,
    github_profile, github_workspace_name, github_workspace_slug, identity_link, logged_out_response,
    new_session_token, oauth_state_cookie, secure_cookie_attr, session_cookie, session_response, state_cookie,
    validate_dev_input, DevLoginRequest, GithubOAuthConfig, GithubOAuthSettings, IdentityLink,
};
use agent_workspace_api::actor::{ActorContext, ActorKind};
use agent_workspace_api::workspace_admin::{
    decide_member_update, decide_project_grant, invite_url, new_invite_token, normalize_invite_login,
    validate_member_role, validate_member_update, validate_project_access, ProjectAccessRequest,
    UpdateWorkspaceMemberRequest, UpsertProjectMemberRequest, WorkspaceMember,
};
use agent_workspace_api::workspace_core::{
    is_unique_violation, project_cascade_tables, project_not_found, validate_update_project,
    workspace_cascade_tables, workspace_not_found, workspace_slug_taken, UpdateProjectRequest,
};

fn s(x: &str) -> String {
    x.to_string()
}

fn member(role: &str, status: &str) -> WorkspaceMember {
    WorkspaceMember {
        id: s("m1"),
        workspace_id: s("w1"),
        external_subject: s("dev:owner-1"),
        display_name: s("Dev Owner"),
        github_login: None,
        role: s(role),
        status: s(status),
        created_at: s("t"),
        updated_at: s("t"),
    }
}

#[test]
fn last_owner_cannot_be_disabled() {
    let disable = UpdateWorkspaceMemberRequest { role: None, status: Some(s("disabled")) };
    assert!(validate_member_update(&disable, "r").is_ok());
    let e = decide_member_update("owner", &disable, 1, "r").unwrap_err();
    assert_eq!(e.status_code(), 422);
    assert_eq!(e.message, "workspace must keep at least one active owner");
    assert!(decide_member_update("owner", &disable, 2, "r").is_ok());
    assert!(decide_member_update("editor", &disable, 0, "r").is_ok());
    let demote = UpdateWorkspaceMemberRequest { role: Some(s("viewer")), status: None };
    assert!(decide_member_update("owner", &demote, 1, "r").is_err());
    let keep = UpdateWorkspaceMemberRequest { role: Some(s("owner")), status: Some(s("active")) };
    assert!(decide_member_update("owner", &keep, 1, "r").is_ok());
    let bad = UpdateWorkspaceMemberRequest { role: Some(s("admin")), status: None };
    assert_eq!(
        validate_member_update(&bad, "r").unwrap_err().message,
        "role must be one of: owner, editor, viewer"
    );
    let bad_status = UpdateWorkspaceMemberRequest { role: None, status: Some(s("gone")) };
    assert_eq!(
        validate_member_update(&bad_status, "r").unwrap_err().message,
        "status must be one of: active, disabled"
    );
}

#[test]
fn project_grants_and_invites() {
    let grant = UpsertProjectMemberRequest { role: s("editor") };
    assert!(decide_project_grant(&grant, &member("editor", "active"), "r").is_ok());
    assert_eq!(
        decide_project_grant(&grant, &member("viewer", "disabled"), "r").unwrap_err().message,
        "project access can only be granted to active workspace members"
    );
    assert_eq!(
        decide_project_grant(&grant, &member("owner", "active"), "r").unwrap_err().message,
        "workspace owners inherit all project access"
    );
    let owner_grant = UpsertProjectMemberRequest { role: s("owner") };
    assert_eq!(
        decide_project_grant(&owner_grant, &member("editor", "active"), "r").unwrap_err().message,
        "role must be one of: editor, viewer"
    );
    assert!(validate_member_role("owner", true, "r").is_ok());
    let access = vec![
        ProjectAccessRequest { project_id: s("p1"), role: s("viewer") },
        ProjectAccessRequest { project_id: s("p2"), role: s("editor") },
    ];
    assert!(validate_project_access(&access, &vec![true, true], "r").is_ok());
    assert_eq!(
        validate_project_access(&access, &vec![true, false], "r").unwrap_err().message,
        "project_id 'p2' is not in this workspace"
    );
    assert_eq!(normalize_invite_login(&Some(s("  OctoCat "))), Some(s("octocat")));
    assert_eq!(normalize_invite_login(&Some(s("   "))), None);
    assert_eq!(normalize_invite_login(&None), None);
    let token = new_invite_token();
    assert!(token.starts_with("awinv_"));
    assert_eq!(token.len(), 6 + 36 + 1 + 36);
    assert_eq!(invite_url("awinv_x"), "/api/v1/auth/github/start?invite=awinv_x");
}

#[test]
fn workspace_core_messages() {
    assert_eq!(workspace_not_found("r", "dev").message, "workspace 'dev' not found");
    assert_eq!(project_not_found("r", "p", "w").message, "project 'p' not found in workspace 'w'");
    assert_eq!(workspace_slug_taken("r", "dev").message, "workspace slug 'dev' is already taken");
    assert!(is_unique_violation(Some("2067")));
    assert!(is_unique_violation(Some("23505")));
    assert!(!is_unique_violation(Some("23503")));
    assert!(!is_unique_violation(None));
    let p = project_cascade_tables();
    assert_eq!(p.last().unwrap(), "projects");
    assert_eq!(p[0], "agent_session_tasks");
    let w = workspace_cascade_tables();
    assert_eq!(w.len(), 13);
    assert_eq!(w.last().unwrap(), "workspaces");
    let bad = UpdateProjectRequest { slug: None, name: None, status: Some(s("paused")) };
    assert_eq!(
        validate_update_project(&bad, "r").unwrap_err().message,
        "status must be one of: active, on_hold, archived"
    );
}

#[test]
fn dev_login_defaults_and_checks() {
    let v = dev_login_values(DevLoginRequest {
        workspace_slug: None,
        workspace_name: None,
        external_subject: None,
        display_name: None,
    });
    assert_eq!(v.workspace_slug, "dev-workspace");
    assert_eq!(v.workspace_name, "Dev Workspace");
    assert_eq!(v.external_subject, "dev:owner-1");
    assert_eq!(v.display_name, "Dev Owner");
    assert!(validate_dev_input("dev-workspace", "dev:owner-1", "Dev Owner", "r").is_ok());
    assert_eq!(
        validate_dev_input("Dev", "x", "y", "r").unwrap_err().message,
        "workspace_slug must be lowercase kebab-case"
    );
    assert_eq!(
        validate_dev_input("", "x", "y", "r").unwrap_err().message,
        "workspace_slug must be lowercase kebab-case"
    );
    assert_eq!(
        validate_dev_input("dev", " ", "y", "r").unwrap_err().message,
        "external_subject and display_name must not be empty"
    );
}

#[test]
fn session_cookies_and_answers() {
    assert_eq!(secure_cookie_attr(None), "; Secure");
    assert_eq!(secure_cookie_attr(Some("false")), "");
    assert_eq!(secure_cookie_attr(Some("true")), "; Secure");
    assert_eq!(
        session_cookie("tok", "; Secure"),
        "aw_session=tok; Path=/; Max-Age=604800; HttpOnly; SameSite=Lax; Secure"
    );
    assert_eq!(state_cookie("st", ""), "aw_github_state=st; Path=/; Max-Age=600; HttpOnly; SameSite=Lax");
    assert_eq!(expired_cookie("aw_session", ""), "aw_session=; Path=/; Max-Age=0; HttpOnly; SameSite=Lax");
    assert_eq!(oauth_state_cookie("aw_session=a; aw_github_state=gho_1"), Some(s("gho_1")));
    assert!(!logged_out_response().authenticated);
    let r = session_response(ActorContext::system());
    assert!(!r.authenticated && r.actor.is_none());
    let mut h = ActorContext::system();
    h.actor_kind = ActorKind::Human;
    assert!(session_response(h).authenticated);
    let token = new_session_token();
    assert!(token.starts_with("awsess_"));
    assert_eq!(client_ip(Some(" 10.0.0.1 , 10.0.0.2")), Some(s("10.0.0.1")));
    assert_eq!(client_ip(Some(" , 1.2.3.4")), None);
    assert_eq!(client_ip(None), None);
    let a = actor_for_member("m1", Some((s("w1"), s("owner"))), "r").unwrap();
    assert_eq!(a.actor_id, "m1");
    assert_eq!(
        actor_for_member("m1", None, "r").unwrap_err().message,
        "workspace member is not active"
    );
}

#[test]
fn github_sign_in_pieces() {
    assert_eq!(github_workspace_slug("Octo_Cat-", "github:user:42"), "github-octocat-42");
    assert_eq!(github_workspace_slug("---", "github:user:"), "github-user-github");
    assert_eq!(github_workspace_slug("\u{212A}evin", "plain"), "github-kevin-plain");
    assert_eq!(github_workspace_name("Octo"), "Octo Workspace");
    let p = github_profile(42, s("octo"), None);
    assert_eq!(p.provider_subject, "github:user:42");
    assert_eq!(p.display_name, "octo");
    let p = github_profile(7, s("octo"), Some(s("Octo Cat")));
    assert_eq!(p.display_name, "Octo Cat");
    assert_eq!(identity_link(None, "m1", "r").unwrap(), IdentityLink::Insert);
    assert_eq!(identity_link(Some("m1"), "m1", "r").unwrap(), IdentityLink::Refresh);
    assert_eq!(
        identity_link(Some("m2"), "m1", "r").unwrap_err().message,
        "human identity is already linked to another workspace member"
    );
    assert_eq!(check_oauth_callback(Some(s("c")), Some(s("st")), Some(s("st")), "r").unwrap(), "c");
    assert_eq!(
        check_oauth_callback(None, Some(s("st")), Some(s("st")), "r").unwrap_err().message,
        "missing GitHub OAuth code"
    );
    assert_eq!(
        check_oauth_callback(Some(s("c")), Some(s("st")), None, "r").unwrap_err().status_code(),
        401
    );
    assert_eq!(
        check_oauth_callback(Some(s("c")), Some(s("a")), Some(s("b")), "r").unwrap_err().message,
        "GitHub OAuth state did not match"
    );
    let missing = GithubOAuthConfig::from_settings(
        GithubOAuthSettings {
            client_id: Some(s("id")),
            client_secret: None,
            redirect_uri: None,
            success_redirect_path: None,
            authorize_url: None,
            token_url: None,
            user_url: None,
        },
        "r",
    )
    .unwrap_err();
    assert_eq!(missing.message, "missing required env var GITHUB_CLIENT_SECRET");
    let cfg = GithubOAuthConfig::from_settings(
        GithubOAuthSettings {
            client_id: Some(s("id")),
            client_secret: Some(s("secret")),
            redirect_uri: Some(s("https://app.test/cb")),
            success_redirect_path: None,
            authorize_url: None,
            token_url: None,
            user_url: None,
        },
        "r",
    )
    .unwrap();
    assert_eq!(cfg.success_redirect_path, "/");
    assert_eq!(cfg.user_url, "https://api.github.com/user");
    let url = github_authorize_url(&cfg, "gho_s", "r").unwrap();
    assert_eq!(
        url,
        "https://github.com/login/oauth/authorize?client_id=id&redirect_uri=https%3A%2F%2Fapp.test%2Fcb&state=gho_s&scope=read%3Auser"
    );
    let bad = GithubOAuthConfig { authorize_url: s("not a url"), ..cfg };
    assert_eq!(github_authorize_url(&bad, "gho_s", "r").unwrap_err().error_code, "internal_error");
}
