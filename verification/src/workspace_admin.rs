//! Running a workspace: its members and their roles, invitations, and
//! per-project access grants.  A workspace always keeps an active owner.
use vstd::prelude::*;

use crate::documents::validated;
use crate::error::{fails_with, ApiError};
use crate::ids::{is_token_with, lowercase, new_token, to_lowercase};
use crate::text::{is_blank, opt_view, owned, str_eq, trim, trim_str};

verus! {

/// A member of a workspace.
#[derive(Debug)]
pub struct WorkspaceMember {
    pub id: String,
    pub workspace_id: String,
    pub external_subject: String,
    pub display_name: String,
    pub github_login: Option<String>,
    pub role: String,
    pub status: String,
    pub created_at: String,
    pub updated_at: String,
}

/// An invitation to join a workspace.
#[derive(Debug)]
pub struct WorkspaceInvite {
    pub id: String,
    pub workspace_id: String,
    pub github_login: Option<String>,
    pub role: String,
    pub project_access_json: String,
    pub status: String,
    pub expires_at: Option<String>,
    pub created_by_member_id: String,
    pub accepted_by_member_id: Option<String>,
    pub accepted_at: Option<String>,
    pub created_at: String,
    pub updated_at: String,
    pub invite_url: Option<String>,
}

/// A member's access to one project.
#[derive(Debug)]
pub struct ProjectMember {
    pub id: String,
    pub workspace_id: String,
    pub project_id: String,
    pub workspace_member_id: String,
    pub external_subject: String,
    pub display_name: String,
    pub github_login: Option<String>,
    pub role: String,
    pub status: String,
    pub created_at: String,
    pub updated_at: String,
}

/// A project an invitation grants access to, and with which role.
#[derive(Debug)]
pub struct ProjectAccessRequest {
    pub project_id: String,
    pub role: String,
}

/// Body for inviting someone to a workspace.
#[derive(Debug)]
pub struct CreateWorkspaceInviteRequest {
    pub github_login: Option<String>,
    pub role: String,
    pub project_access: Vec<ProjectAccessRequest>,
    pub expires_at: Option<String>,
}

/// Body for changing a member's role or status; absent fields stay as they are.
#[derive(Debug)]
pub struct UpdateWorkspaceMemberRequest {
    pub role: Option<String>,
    pub status: Option<String>,
}

/// Body for granting a member access to a project.
#[derive(Debug)]
pub struct UpsertProjectMemberRequest {
    pub role: String,
}

/// What is wrong with a member role, if anything; `owner` only where it may be given.
pub open spec fn member_role_problem(role: Seq<char>, allow_owner: bool) -> Option<Seq<char>> {
    if allow_owner {
        if role == "owner"@ || role == "editor"@ || role == "viewer"@ {
            None
        } else {
            Some("role must be one of: owner, editor, viewer"@)
        }
    } else {
        if role == "editor"@ || role == "viewer"@ {
            None
        } else {
            Some("role must be one of: editor, viewer"@)
        }
    }
}

pub fn validate_member_role(role: &str, allow_owner: bool, request_id: &str) -> (r: Result<(), ApiError>)
    ensures
        validated(r, member_role_problem(role@, allow_owner), request_id@),
{
    let valid = if allow_owner {
        str_eq(role, "owner") || str_eq(role, "editor") || str_eq(role, "viewer")
    } else {
        str_eq(role, "editor") || str_eq(role, "viewer")
    };
    if !valid {
        if allow_owner {
            return Err(ApiError::validation_error(request_id, "role must be one of: owner, editor, viewer"));
        } else {
            return Err(ApiError::validation_error(request_id, "role must be one of: editor, viewer"));
        }
    }
    Ok(())
}

/// What is wrong with a member-update request, if anything.
pub open spec fn member_update_problem(body: UpdateWorkspaceMemberRequest) -> Option<Seq<char>> {
    if body.role is Some && member_role_problem(body.role->0@, true) is Some {
        member_role_problem(body.role->0@, true)
    } else if body.status is Some && !(body.status->0@ == "active"@ || body.status->0@ == "disabled"@) {
        Some("status must be one of: active, disabled"@)
    } else {
        None
    }
}

/// Checks a member-update request before the member is looked up.
pub fn validate_member_update(body: &UpdateWorkspaceMemberRequest, request_id: &str) -> (r: Result<(), ApiError>)
    ensures
        validated(r, member_update_problem(*body), request_id@),
{
    if let Some(role) = &body.role {
        validate_member_role(role.as_str(), true, request_id)?;
    }
    if let Some(status) = &body.status {
        if !(str_eq(status.as_str(), "active") || str_eq(status.as_str(), "disabled")) {
            return Err(ApiError::validation_error(request_id, "status must be one of: active, disabled"));
        }
    }
    Ok(())
}

/// The update takes the owner role away from a member who has it, or disables them.
pub open spec fn removes_owner_spec(current_role: Seq<char>, body: UpdateWorkspaceMemberRequest) -> bool {
    current_role == "owner"@ && ((body.role is Some && body.role->0@ != "owner"@) || (body.status is Some
        && body.status->0@ == "disabled"@))
}

pub fn removes_owner(current_role: &str, body: &UpdateWorkspaceMemberRequest) -> (r: bool)
    ensures
        r == removes_owner_spec(current_role@, *body),
{
    if !str_eq(current_role, "owner") {
        return false;
    }
    let demoted = match &body.role {
        Some(role) => !str_eq(role.as_str(), "owner"),
        None => false,
    };
    let disabled = match &body.status {
        Some(s) => str_eq(s.as_str(), "disabled"),
        None => false,
    };
    demoted || disabled
}

/// An owner may be removed only while another active owner remains:
/// `active_owners` is the number of the workspace's active owners.
pub fn ensure_not_last_owner(active_owners: i64, request_id: &str) -> (r: Result<(), ApiError>)
    ensures
        active_owners <= 1 ==> fails_with(r, "validation_error"@, request_id@, "workspace must keep at least one active owner"@),
        active_owners > 1 ==> r is Ok,
{
    if active_owners <= 1 {
        return Err(ApiError::validation_error(request_id, "workspace must keep at least one active owner"));
    }
    Ok(())
}

/// Decides a member update once the member is known: removing an owner
/// needs another active owner (`active_owners` counts them; it is only
/// consulted when an owner is being removed).
pub fn decide_member_update(
    current_role: &str,
    body: &UpdateWorkspaceMemberRequest,
    active_owners: i64,
    request_id: &str,
) -> (r: Result<(), ApiError>)
    ensures
        removes_owner_spec(current_role@, *body) && active_owners <= 1 ==> fails_with(
            r,
            "validation_error"@,
            request_id@,
            "workspace must keep at least one active owner"@,
        ),
        !(removes_owner_spec(current_role@, *body) && active_owners <= 1) ==> r is Ok,
{
    if removes_owner(current_role, body) {
        ensure_not_last_owner(active_owners, request_id)
    } else {
        Ok(())
    }
}

// ---------------------------------------------------------------------------
// The owner invariant
// ---------------------------------------------------------------------------

/// A member as far as ownership goes: its role and status.
pub struct MemberState {
    pub role: Seq<char>,
    pub status: Seq<char>,
}

pub open spec fn is_active_owner(m: MemberState) -> bool {
    m.role == "owner"@ && m.status == "active"@
}

/// The number of active owners among `ms`.
pub open spec fn active_owner_count(ms: Seq<MemberState>) -> nat
    decreases ms.len(),
{
    if ms.len() == 0 {
        0
    } else {
        active_owner_count(ms.drop_last()) + if is_active_owner(ms.last()) { 1nat } else { 0nat }
    }
}

/// A member after an update is applied to it.
pub open spec fn apply_member_update(m: MemberState, body: UpdateWorkspaceMemberRequest) -> MemberState {
    MemberState {
        role: match body.role {
            Some(r) => r@,
            None => m.role,
        },
        status: match body.status {
            Some(s) => s@,
            None => m.status,
        },
    }
}

proof fn lemma_count_update(ms: Seq<MemberState>, i: int, m: MemberState)
    requires
        0 <= i < ms.len(),
    ensures
        active_owner_count(ms.update(i, m)) + (if is_active_owner(ms[i]) { 1int } else { 0int })
            == active_owner_count(ms) + (if is_active_owner(m) { 1int } else { 0int }),
    decreases ms.len(),
{
    if i < ms.len() - 1 {
        lemma_count_update(ms.drop_last(), i, m);
        assert(ms.update(i, m).drop_last() == ms.drop_last().update(i, m));
    } else {
        assert(ms.update(i, m).drop_last() == ms.drop_last());
    }
}

/// A workspace that has an active owner keeps one through any member update
/// that `decide_member_update` lets through, when it is given the number of
/// active owners.
pub proof fn law_member_update_keeps_an_owner(ms: Seq<MemberState>, i: int, body: UpdateWorkspaceMemberRequest)
    requires
        0 <= i < ms.len(),
        active_owner_count(ms) >= 1,
        member_update_problem(body) is None,
        !(removes_owner_spec(ms[i].role, body) && active_owner_count(ms) <= 1),
    ensures
        active_owner_count(ms.update(i, apply_member_update(ms[i], body))) >= 1,
{
    let m2 = apply_member_update(ms[i], body);
    lemma_count_update(ms, i, m2);
    if is_active_owner(ms[i]) && !is_active_owner(m2) {
        assert(removes_owner_spec(ms[i].role, body));
    }
}

// ---------------------------------------------------------------------------
// Project access grants
// ---------------------------------------------------------------------------

/// Decides a grant of project access to a workspace member: the role must be
/// `editor` or `viewer`, the member active, and not an owner (owners see every project).
pub fn decide_project_grant(
    body: &UpsertProjectMemberRequest,
    member: &WorkspaceMember,
    request_id: &str,
) -> (r: Result<(), ApiError>)
    ensures
        member_role_problem(body.role@, false) is Some ==> fails_with(
            r,
            "validation_error"@,
            request_id@,
            member_role_problem(body.role@, false)->0,
        ),
        member_role_problem(body.role@, false) is None && member.status@ != "active"@ ==> fails_with(
            r,
            "validation_error"@,
            request_id@,
            "project access can only be granted to active workspace members"@,
        ),
        member_role_problem(body.role@, false) is None && member.status@ == "active"@ && member.role@ == "owner"@
            ==> fails_with(r, "validation_error"@, request_id@, "workspace owners inherit all project access"@),
        member_role_problem(body.role@, false) is None && member.status@ == "active"@ && member.role@ != "owner"@
            ==> r is Ok,
{
    validate_member_role(body.role.as_str(), false, request_id)?;
    if !str_eq(member.status.as_str(), "active") {
        return Err(ApiError::validation_error(request_id, "project access can only be granted to active workspace members"));
    }
    if str_eq(member.role.as_str(), "owner") {
        return Err(ApiError::validation_error(request_id, "workspace owners inherit all project access"));
    }
    Ok(())
}

/// The first problem among an invitation's project grants, given for each
/// whether its project belongs to the workspace.
pub open spec fn project_access_problem(access: Seq<ProjectAccessRequest>, in_workspace: Seq<bool>) -> Option<Seq<char>>
    decreases access.len(),
{
    if access.len() == 0 {
        None
    } else if member_role_problem(access[0].role@, false) is Some {
        member_role_problem(access[0].role@, false)
    } else if !in_workspace[0] {
        Some("project_id '"@ + access[0].project_id@ + "' is not in this workspace"@)
    } else {
        project_access_problem(access.drop_first(), in_workspace.drop_first())
    }
}

/// Checks an invitation's project grants in order: each role must be
/// `editor` or `viewer`, and each project must be in the workspace
/// (`in_workspace[i]` tells for grant `i`).
pub fn validate_project_access(
    access: &Vec<ProjectAccessRequest>,
    in_workspace: &Vec<bool>,
    request_id: &str,
) -> (r: Result<(), ApiError>)
    requires
        in_workspace.len() == access.len(),
    ensures
        validated(r, project_access_problem(access@, in_workspace@), request_id@),
{
    let mut i: usize = 0;
    assert(access@.skip(0) == access@);
    assert(in_workspace@.skip(0) == in_workspace@);
    while i < access.len()
        invariant
            i <= access.len(),
            in_workspace.len() == access.len(),
            project_access_problem(access@, in_workspace@) == project_access_problem(access@.skip(i as int), in_workspace@.skip(i as int)),
        decreases access.len() - i,
    {
        assert(access@.skip(i as int)[0] == access@[i as int]);
        assert(in_workspace@.skip(i as int)[0] == in_workspace@[i as int]);
        assert(access@.skip(i as int).drop_first() == access@.skip(i + 1));
        assert(in_workspace@.skip(i as int).drop_first() == in_workspace@.skip(i + 1));
        validate_member_role(access[i].role.as_str(), false, request_id)?;
        if !in_workspace[i] {
            let mut m = owned("project_id '");
            m.append(access[i].project_id.as_str());
            m.append("' is not in this workspace");
            return Err(ApiError::validation_error(request_id, m.as_str()));
        }
        i = i + 1;
    }
    Ok(())
}

/// The GitHub login an invitation is for: trimmed and lowercased; a blank login counts as none.
pub open spec fn invite_login_spec(login: Option<Seq<char>>) -> Option<Seq<char>> {
    match login {
        Some(l) => if trim(l).len() == 0 {
            None
        } else {
            Some(lowercase(trim(l)))
        },
        None => None,
    }
}

pub fn normalize_invite_login(login: &Option<String>) -> (r: Option<String>)
    ensures
        opt_view(r) == invite_login_spec(opt_view(*login)),
{
    match login {
        Some(l) => {
            let t = trim_str(l.as_str());
            if t.unicode_len() == 0 {
                None
            } else {
                Some(to_lowercase(t))
            }
        },
        None => None,
    }
}

/// A fresh invitation token.
pub fn new_invite_token() -> (r: String)
    ensures
        is_token_with("awinv_"@, r@),
{
    new_token("awinv_")
}

/// Where an invitee follows the invitation: the GitHub sign-in with the token.
pub fn invite_url(token: &str) -> (r: String)
    ensures
        r@ == "/api/v1/auth/github/start?invite="@ + token@,
{
    let mut u = owned("/api/v1/auth/github/start?invite=");
    u.append(token);
    u
}

} // verus!
