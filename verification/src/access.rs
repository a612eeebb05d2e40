//! Who may do what: workspace roles for humans, scopes for agents.
use vstd::prelude::*;

use crate::actor::{ActorContext, ActorKind};
use crate::error::{fails_with, ApiError};
use crate::text::{contains_str, opt_view, owned, str_eq, views};

verus! {

/// A member's role in a workspace; each role may do everything the ones
/// before it may.
#[derive(Clone, Copy, Debug, PartialEq, Eq, Structural, PartialOrd, Ord)]
pub enum WorkspaceRole {
    Viewer,
    Editor,
    Owner,
}

impl WorkspaceRole {
    /// Position in the order `Viewer < Editor < Owner`.
    pub open spec fn rank(self) -> int {
        match self {
            WorkspaceRole::Viewer => 0,
            WorkspaceRole::Editor => 1,
            WorkspaceRole::Owner => 2,
        }
    }

    pub fn rank_exec(self) -> (r: u8)
        ensures
            r == self.rank(),
    {
        match self {
            WorkspaceRole::Viewer => 0,
            WorkspaceRole::Editor => 1,
            WorkspaceRole::Owner => 2,
        }
    }

    /// The role a stored role name stands for.
    pub fn from_db(value: &str) -> (r: Option<WorkspaceRole>)
        ensures
            r == role_from_text(value@),
    {
        if str_eq(value, "viewer") {
            Some(WorkspaceRole::Viewer)
        } else if str_eq(value, "editor") {
            Some(WorkspaceRole::Editor)
        } else if str_eq(value, "owner") {
            Some(WorkspaceRole::Owner)
        } else {
            None
        }
    }
}

/// The role a stored role name stands for.
pub open spec fn role_from_text(s: Seq<char>) -> Option<WorkspaceRole> {
    if s == "viewer"@ {
        Some(WorkspaceRole::Viewer)
    } else if s == "editor"@ {
        Some(WorkspaceRole::Editor)
    } else if s == "owner"@ {
        Some(WorkspaceRole::Owner)
    } else {
        None
    }
}

/// Only a human may go on: the system actor is `unauthorised` and an agent `forbidden`.
pub fn require_authenticated_human(actor: &ActorContext, request_id: &str) -> (r: Result<(), ApiError>)
    ensures
        match actor.actor_kind {
            ActorKind::Human => r is Ok,
            ActorKind::System => fails_with(r, "unauthorised"@, request_id@, "authentication is required"@),
            ActorKind::Agent => fails_with(r, "forbidden"@,
                request_id@,
                "agent credentials cannot access this endpoint"@,
            ),
        },
{
    match actor.actor_kind {
        ActorKind::Human => Ok(()),
        ActorKind::System => Err(ApiError::unauthorised(request_id, "authentication is required")),
        ActorKind::Agent => Err(ApiError::forbidden(request_id, "agent credentials cannot access this endpoint")),
    }
}

/// The outcome of a human's membership check, given the role the membership
/// lookup found for them in the workspace (`None`: no active membership).
pub open spec fn membership_outcome_ok(found_role: Option<Seq<char>>, required: WorkspaceRole) -> bool {
    match found_role {
        Some(r) => match role_from_text(r) {
            Some(actual) => actual.rank() >= required.rank(),
            None => false,
        },
        None => false,
    }
}

/// The text of an optional borrowed string.
pub open spec fn str_opt(o: Option<&str>) -> Option<Seq<char>> {
    match o {
        Some(x) => Some(x@),
        None => None,
    }
}

/// The answer to a human whose membership lookup found `found_role`, where
/// `required` is needed: no membership or too low a role is `forbidden`, a
/// stored role the code does not know is `internal_error`, and otherwise the
/// request goes on.
pub open spec fn membership_decision(
    r: Result<(), ApiError>,
    found_role: Option<Seq<char>>,
    required: WorkspaceRole,
    request_id: Seq<char>,
) -> bool {
    match found_role {
        None => fails_with(r, "forbidden"@, request_id, "actor does not have access to this workspace"@),
        Some(role) => match role_from_text(role) {
            None => fails_with(r, "internal_error"@, request_id, "unknown workspace role '"@ + role + "'"@),
            Some(actual) => if actual.rank() < required.rank() {
                fails_with(
                    r,
                    "forbidden"@,
                    request_id,
                    "actor does not have enough permissions for this workspace"@,
                )
            } else {
                r is Ok
            },
        },
    }
}

/// Decides a human's access to a workspace from the role the membership lookup found.
pub fn check_membership_role(found_role: Option<&str>, required: WorkspaceRole, request_id: &str) -> (r: Result<(), ApiError>)
    ensures
        membership_decision(r, str_opt(found_role), required, request_id@),
{
    match found_role {
        None => Err(ApiError::forbidden(request_id, "actor does not have access to this workspace")),
        Some(role) => match WorkspaceRole::from_db(role) {
            None => {
                let mut message = owned("unknown workspace role '");
                message.append(role);
                message.append("'");
                Err(ApiError::internal(request_id, message.as_str()))
            },
            Some(actual) => {
                if actual.rank_exec() < required.rank_exec() {
                    Err(ApiError::forbidden(request_id, "actor does not have enough permissions for this workspace"))
                } else {
                    Ok(())
                }
            },
        },
    }
}

/// A human with at least `required` in the workspace: `found_role` is the
/// role the membership lookup found for the actor there (`None`: no active
/// membership).  Anyone but a human is turned away first.
pub fn require_human_workspace_role(
    actor: &ActorContext,
    found_role: Option<&str>,
    required: WorkspaceRole,
    request_id: &str,
) -> (r: Result<(), ApiError>)
    ensures
        actor.actor_kind == ActorKind::System ==> fails_with(r, "unauthorised"@, request_id@, "authentication is required"@),
        actor.actor_kind == ActorKind::Agent ==> fails_with(
            r,
            "forbidden"@,
            request_id@,
            "agent credentials cannot access this endpoint"@,
        ),
        actor.actor_kind == ActorKind::Human ==> (r is Ok <==> membership_outcome_ok(
            match found_role {
                Some(x) => Some(x@),
                None => None,
            },
            required,
        )),
        actor.actor_kind == ActorKind::Human ==> membership_decision(r, str_opt(found_role), required, request_id@),
{
    require_authenticated_human(actor, request_id)?;
    check_membership_role(found_role, required, request_id)
}

/// The answer to an agent acting on a project with `scope` needed: outside
/// the credential's workspace, outside its bound project, or without the
/// scope is `forbidden` (checked in that order); otherwise the request goes on.
pub open spec fn agent_scope_decision(
    r: Result<(), ApiError>,
    actor: ActorContext,
    workspace_id: Seq<char>,
    project_id: Seq<char>,
    scope: Seq<char>,
    request_id: Seq<char>,
) -> bool {
    if opt_view(actor.workspace_id) != Some(workspace_id) {
        fails_with(r, "forbidden"@, request_id, "agent credential is outside the target workspace"@)
    } else if actor.project_id is Some && opt_view(actor.project_id) != Some(project_id) {
        fails_with(r, "forbidden"@, request_id, "agent credential is outside the target project"@)
    } else if !views(actor.scopes@).contains(scope) {
        fails_with(r, "forbidden"@, request_id, "missing required scope '"@ + scope + "'"@)
    } else {
        r is Ok
    }
}

/// What an agent needs to act on a project: to be bound to its workspace,
/// to its project if bound to one, and to hold `required_scope`.
pub fn require_agent_scope_for_project(
    actor: &ActorContext,
    workspace_id: &str,
    project_id: &str,
    required_scope: &str,
    request_id: &str,
) -> (r: Result<(), ApiError>)
    ensures
        r is Ok <==> agent_scope_ok(*actor, workspace_id@, project_id@, required_scope@),
        actor.actor_kind == ActorKind::System ==> fails_with(r, "unauthorised"@,
            request_id@,
            "authentication is required"@,
        ),
        actor.actor_kind == ActorKind::Human ==> fails_with(r, "forbidden"@,
            request_id@,
            "human session cannot use agent-only permissions"@,
        ),
        actor.actor_kind == ActorKind::Agent ==> agent_scope_decision(
            r,
            *actor,
            workspace_id@,
            project_id@,
            required_scope@,
            request_id@,
        ),
{
    match actor.actor_kind {
        ActorKind::Agent => {},
        ActorKind::System => {
            return Err(ApiError::unauthorised(request_id, "authentication is required"));
        },
        ActorKind::Human => {
            return Err(ApiError::forbidden(request_id, "human session cannot use agent-only permissions"));
        },
    }
    let in_workspace = match &actor.workspace_id {
        Some(w) => str_eq(w.as_str(), workspace_id),
        None => false,
    };
    if !in_workspace {
        return Err(ApiError::forbidden(request_id, "agent credential is outside the target workspace"));
    }
    if let Some(bound) = &actor.project_id {
        if !str_eq(bound.as_str(), project_id) {
            return Err(ApiError::forbidden(request_id, "agent credential is outside the target project"));
        }
    }
    if !contains_str(&actor.scopes, required_scope) {
        let mut message = owned("missing required scope '");
        message.append(required_scope);
        message.append("'");
        return Err(ApiError::forbidden(request_id, message.as_str()));
    }
    Ok(())
}

/// An agent bound to the workspace (and to the project, if to any) that holds the scope.
pub open spec fn agent_scope_ok(actor: ActorContext, workspace_id: Seq<char>, project_id: Seq<char>, scope: Seq<char>) -> bool {
    &&& actor.actor_kind == ActorKind::Agent
    &&& opt_view(actor.workspace_id) == Some(workspace_id)
    &&& (actor.project_id is Some ==> opt_view(actor.project_id) == Some(project_id))
    &&& views(actor.scopes@).contains(scope)
}

/// Access to a project: a human needs `human_role` in the workspace (decided
/// from `member_role`, the role the membership lookup found for them), an
/// agent needs `agent_scope` on the project (and the endpoint must admit
/// agents at all), and the system actor is turned away.
pub fn require_project_access(
    actor: &ActorContext,
    workspace_id: &str,
    project_id: &str,
    human_role: WorkspaceRole,
    agent_scope: Option<&str>,
    member_role: Option<&str>,
    request_id: &str,
) -> (r: Result<(), ApiError>)
    ensures
        r is Ok <==> project_access_ok(*actor, workspace_id@, project_id@, human_role, agent_scope, member_role),
        actor.actor_kind == ActorKind::System ==> fails_with(r, "unauthorised"@,
            request_id@,
            "authentication is required"@,
        ),
        actor.actor_kind == ActorKind::Agent && agent_scope is None ==> fails_with(r, "forbidden"@,
            request_id@,
            "agent credentials cannot access this endpoint"@,
        ),
        actor.actor_kind == ActorKind::Agent && agent_scope is Some ==> agent_scope_decision(
            r,
            *actor,
            workspace_id@,
            project_id@,
            agent_scope->0@,
            request_id@,
        ),
        actor.actor_kind == ActorKind::Human ==> membership_decision(r, str_opt(member_role), human_role, request_id@),
{
    match actor.actor_kind {
        ActorKind::Human => check_membership_role(member_role, human_role, request_id),
        ActorKind::Agent => match agent_scope {
            Some(scope) => require_agent_scope_for_project(actor, workspace_id, project_id, scope, request_id),
            None => Err(ApiError::forbidden(request_id, "agent credentials cannot access this endpoint")),
        },
        ActorKind::System => Err(ApiError::unauthorised(request_id, "authentication is required")),
    }
}

/// When `require_project_access` lets a request through.
pub open spec fn project_access_ok(
    actor: ActorContext,
    workspace_id: Seq<char>,
    project_id: Seq<char>,
    human_role: WorkspaceRole,
    agent_scope: Option<&str>,
    member_role: Option<&str>,
) -> bool {
    match actor.actor_kind {
        ActorKind::Human => membership_outcome_ok(
            match member_role {
                Some(r) => Some(r@),
                None => None,
            },
            human_role,
        ),
        ActorKind::Agent => match agent_scope {
            Some(s) => agent_scope_ok(actor, workspace_id, project_id, s@),
            None => false,
        },
        ActorKind::System => false,
    }
}

/// The answer to a human asking to see a project, given the role their
/// workspace membership lookup found and the role of their active grant on
/// the project (if any): workspace owners see every project; any other member
/// sees only the projects they were granted (`editor` or `viewer`).
pub open spec fn project_visibility_decision(
    r: Result<(), ApiError>,
    workspace_role: Option<Seq<char>>,
    project_role: Option<Seq<char>>,
    request_id: Seq<char>,
) -> bool {
    match workspace_role {
        None => fails_with(r, "forbidden"@, request_id, "actor does not have access to this workspace"@),
        Some(w) => match role_from_text(w) {
            None => fails_with(r, "internal_error"@, request_id, "unknown workspace role '"@ + w + "'"@),
            Some(WorkspaceRole::Owner) => r is Ok,
            Some(_) => match project_role {
                None => fails_with(r, "forbidden"@, request_id, "actor does not have access to this project"@),
                Some(p) => if p == "editor"@ || p == "viewer"@ {
                    r is Ok
                } else {
                    fails_with(r, "internal_error"@, request_id, "unknown project role '"@ + p + "'"@)
                },
            },
        },
    }
}

/// Decides whether a human may see a project: `workspace_role` is the role the
/// workspace membership lookup found for them, `project_role` the role of
/// their active grant on the project.  Anyone but a human is turned away first.
pub fn check_project_visibility(
    actor: &ActorContext,
    workspace_role: Option<&str>,
    project_role: Option<&str>,
    request_id: &str,
) -> (r: Result<(), ApiError>)
    ensures
        actor.actor_kind == ActorKind::System ==> fails_with(r, "unauthorised"@, request_id@, "authentication is required"@),
        actor.actor_kind == ActorKind::Agent ==> fails_with(
            r,
            "forbidden"@,
            request_id@,
            "agent credentials cannot access this endpoint"@,
        ),
        actor.actor_kind == ActorKind::Human ==> project_visibility_decision(
            r,
            str_opt(workspace_role),
            str_opt(project_role),
            request_id@,
        ),
{
    proof {
        reveal_strlit("viewer");
        reveal_strlit("editor");
        reveal_strlit("owner");
        assert("owner"@ != "viewer"@ && "owner"@ != "editor"@) by {
            assert("owner"@.len() != "viewer"@.len());
            assert("owner"@.len() != "editor"@.len());
        }
    }
    require_authenticated_human(actor, request_id)?;
    check_membership_role(workspace_role, WorkspaceRole::Viewer, request_id)?;
    let w = match workspace_role {
        Some(w) => w,
        None => {
            return Err(ApiError::forbidden(request_id, "actor does not have access to this workspace"));
        },
    };
    if str_eq(w, "owner") {
        return Ok(());
    }
    match project_role {
        None => Err(ApiError::forbidden(request_id, "actor does not have access to this project")),
        Some(p) => {
            if str_eq(p, "editor") || str_eq(p, "viewer") {
                Ok(())
            } else {
                let mut message = owned("unknown project role '");
                message.append(p);
                message.append("'");
                Err(ApiError::internal(request_id, message.as_str()))
            }
        },
    }
}

/// A project grant controls who sees a project: a member who is not an owner
/// sees it exactly when they hold a grant on it, and an owner always does.
pub proof fn law_project_grant_controls_visibility(
    r: Result<(), ApiError>,
    workspace_role: Seq<char>,
    project_role: Option<Seq<char>>,
    request_id: Seq<char>,
)
    requires
        role_from_text(workspace_role) is Some,
        project_role matches Some(p) ==> (p == "editor"@ || p == "viewer"@),
        project_visibility_decision(r, Some(workspace_role), project_role, request_id),
    ensures
        r is Ok <==> (workspace_role == "owner"@ || project_role is Some),
{
    reveal_strlit("viewer");
    reveal_strlit("editor");
    reveal_strlit("owner");
    assert("owner"@ != "viewer"@ && "owner"@ != "editor"@) by {
        assert("owner"@.len() != "viewer"@.len());
        assert("owner"@.len() != "editor"@.len());
    }
}

/// Roles are ordered: a member admitted where a role is required is admitted
/// wherever a lesser role is required.
pub proof fn law_role_admits_lesser_requirements(found_role: Option<Seq<char>>, required: WorkspaceRole, lesser: WorkspaceRole)
    requires
        lesser.rank() <= required.rank(),
        membership_outcome_ok(found_role, required),
    ensures
        membership_outcome_ok(found_role, lesser),
{
}

/// The owner role is the only one admitted where the owner role is required
/// (workspace administration): a membership passes exactly when its stored role is `owner`.
pub proof fn law_only_owners_pass_owner_checks(found_role: Option<Seq<char>>)
    ensures
        membership_outcome_ok(found_role, WorkspaceRole::Owner) <==> found_role == Some("owner"@),
{
    reveal_strlit("viewer");
    reveal_strlit("editor");
    reveal_strlit("owner");
    assert("owner"@ != "viewer"@ && "owner"@ != "editor"@) by {
        assert("owner"@.len() != "viewer"@.len());
        assert("owner"@.len() != "editor"@.len());
    }
}

} // verus!
