//! Workspaces and projects: their records, the rules for their slugs, and
//! what deleting one of them removes.
use vstd::prelude::*;

use crate::documents::{slug_problem, validate_slug, validated};
use crate::error::{fails_with, ApiError};
use crate::text::{opt_view, owned, str_eq, views};

verus! {

/// Workspace summary returned by list and detail endpoints.
#[derive(Debug)]
pub struct Workspace {
    pub id: String,
    pub slug: String,
    pub name: String,
    pub created_at: String,
    pub updated_at: String,
}

/// Project summary returned by list and detail endpoints.
#[derive(Debug)]
pub struct Project {
    pub id: String,
    pub workspace_id: String,
    pub slug: String,
    pub name: String,
    pub status: String,
    pub created_at: String,
    pub updated_at: String,
}

/// Body for creating a workspace.
#[derive(Debug)]
pub struct CreateWorkspaceRequest {
    pub slug: String,
    pub name: String,
}

/// Body for creating a project in a workspace.
#[derive(Debug)]
pub struct CreateProjectRequest {
    pub slug: String,
    pub name: String,
}

/// Body for changing a workspace; absent fields stay as they are.
#[derive(Debug)]
pub struct UpdateWorkspaceRequest {
    pub slug: Option<String>,
    pub name: Option<String>,
}

/// Body for changing a project; absent fields stay as they are.
#[derive(Debug)]
pub struct UpdateProjectRequest {
    pub slug: Option<String>,
    pub name: Option<String>,
    pub status: Option<String>,
}

/// The answer for a workspace slug that names no workspace.
pub fn workspace_not_found(request_id: &str, slug: &str) -> (e: ApiError)
    ensures
        fails_with(Err::<(), ApiError>(e), "not_found"@, request_id@, "workspace '"@ + slug@ + "' not found"@),
{
    let mut m = owned("workspace '");
    m.append(slug);
    m.append("' not found");
    ApiError::not_found(request_id, m.as_str())
}

/// The answer for a project slug that names no project of the workspace.
pub fn project_not_found(request_id: &str, project_slug: &str, workspace_slug: &str) -> (e: ApiError)
    ensures
        fails_with(
            Err::<(), ApiError>(e),
            "not_found"@,
            request_id@,
            "project '"@ + project_slug@ + "' not found in workspace '"@ + workspace_slug@ + "'"@,
        ),
{
    let mut m = owned("project '");
    m.append(project_slug);
    m.append("' not found in workspace '");
    m.append(workspace_slug);
    m.append("'");
    ApiError::not_found(request_id, m.as_str())
}

/// The answer when a new workspace slug is already in use.
pub fn workspace_slug_taken(request_id: &str, slug: &str) -> (e: ApiError)
    ensures
        fails_with(
            Err::<(), ApiError>(e),
            "validation_error"@,
            request_id@,
            "workspace slug '"@ + slug@ + "' is already taken"@,
        ),
{
    let mut m = owned("workspace slug '");
    m.append(slug);
    m.append("' is already taken");
    ApiError::validation_error(request_id, m.as_str())
}

/// The answer when a project slug is already in use in the workspace.
pub fn project_slug_taken(request_id: &str, slug: &str, workspace_slug: &str) -> (e: ApiError)
    ensures
        fails_with(
            Err::<(), ApiError>(e),
            "validation_error"@,
            request_id@,
            "project slug '"@ + slug@ + "' already exists in workspace '"@ + workspace_slug@ + "'"@,
        ),
{
    let mut m = owned("project slug '");
    m.append(slug);
    m.append("' already exists in workspace '");
    m.append(workspace_slug);
    m.append("'");
    ApiError::validation_error(request_id, m.as_str())
}

/// Whether a database error code reports a unique-constraint violation
/// (`2067` from SQLite, `23505` from PostgreSQL).
pub fn is_unique_violation(code: Option<&str>) -> (r: bool)
    ensures
        r == (code matches Some(c) && (c@ == "2067"@ || c@ == "23505"@)),
{
    match code {
        Some(c) => str_eq(c, "2067") || str_eq(c, "23505"),
        None => false,
    }
}

/// Checks a new workspace: only its slug has rules.
pub fn validate_create_workspace(body: &CreateWorkspaceRequest, request_id: &str) -> (r: Result<(), ApiError>)
    ensures
        validated(r, slug_problem(body.slug@), request_id@),
{
    validate_slug(body.slug.as_str(), request_id)
}

/// Checks a new project: only its slug has rules.
pub fn validate_create_project(body: &CreateProjectRequest, request_id: &str) -> (r: Result<(), ApiError>)
    ensures
        validated(r, slug_problem(body.slug@), request_id@),
{
    validate_slug(body.slug.as_str(), request_id)
}

/// What is wrong with a project status, if anything.
pub open spec fn project_status_problem(s: Seq<char>) -> Option<Seq<char>> {
    if s == "active"@ || s == "on_hold"@ || s == "archived"@ {
        None
    } else {
        Some("status must be one of: active, on_hold, archived"@)
    }
}

/// Checks a workspace change: a new slug must follow the slug rule.
pub fn validate_update_workspace(body: &UpdateWorkspaceRequest, request_id: &str) -> (r: Result<(), ApiError>)
    ensures
        validated(
            r,
            match body.slug {
                Some(s) => slug_problem(s@),
                None => None,
            },
            request_id@,
        ),
{
    match &body.slug {
        Some(s) => validate_slug(s.as_str(), request_id),
        None => Ok(()),
    }
}

/// Checks a project change: the slug rule first, then the status values.
pub fn validate_update_project(body: &UpdateProjectRequest, request_id: &str) -> (r: Result<(), ApiError>)
    ensures
        validated(
            r,
            if body.slug is Some && slug_problem(body.slug->0@) is Some {
                slug_problem(body.slug->0@)
            } else if body.status is Some {
                project_status_problem(body.status->0@)
            } else {
                None
            },
            request_id@,
        ),
{
    if let Some(s) = &body.slug {
        validate_slug(s.as_str(), request_id)?;
    }
    if let Some(status) = &body.status {
        let st = status.as_str();
        if !(str_eq(st, "active") || str_eq(st, "on_hold") || str_eq(st, "archived")) {
            return Err(ApiError::validation_error(request_id, "status must be one of: active, on_hold, archived"));
        }
    }
    Ok(())
}

/// The slug named in a "slug taken" answer to an update: the new one, or the current one.
pub fn slug_in_conflict(new_slug: &Option<String>, current_slug: &String) -> (r: String)
    ensures
        r@ == match new_slug {
            Some(s) => s@,
            None => current_slug@,
        },
{
    match new_slug {
        Some(s) => s.clone(),
        None => current_slug.clone(),
    }
}

/// The tables a project's rows are deleted from, in order, once the parent
/// links between its tasks and between its documents are cleared; the
/// project row itself goes last.
pub open spec fn project_cascade_spec() -> Seq<Seq<char>> {
    seq![
        "agent_session_tasks"@,
        "task_dependencies"@,
        "notes"@,
        "assets"@,
        "documents"@,
        "tasks"@,
        "task_groups"@,
        "agent_credentials"@,
        "agent_sessions"@,
        "projects"@,
    ]
}

/// The tables a workspace's rows are deleted from, in order, once the parent
/// links between its tasks and between its documents are cleared; the
/// workspace row itself goes last.
pub open spec fn workspace_cascade_spec() -> Seq<Seq<char>> {
    seq![
        "agent_session_tasks"@,
        "task_dependencies"@,
        "notes"@,
        "assets"@,
        "documents"@,
        "tasks"@,
        "task_groups"@,
        "agent_credentials"@,
        "agent_sessions"@,
        "agents"@,
        "projects"@,
        "workspace_members"@,
        "workspaces"@,
    ]
}

/// The deletion order for a project (the last table is keyed by `id`, the others by `project_id`).
pub fn project_cascade_tables() -> (r: Vec<String>)
    ensures
        views(r@) == project_cascade_spec(),
{
    let v = vec![
        owned("agent_session_tasks"),
        owned("task_dependencies"),
        owned("notes"),
        owned("assets"),
        owned("documents"),
        owned("tasks"),
        owned("task_groups"),
        owned("agent_credentials"),
        owned("agent_sessions"),
        owned("projects"),
    ];
    assert(views(v@) =~= project_cascade_spec());
    v
}

/// The deletion order for a workspace (the last table is keyed by `id`, the others by `workspace_id`).
pub fn workspace_cascade_tables() -> (r: Vec<String>)
    ensures
        views(r@) == workspace_cascade_spec(),
{
    let v = vec![
        owned("agent_session_tasks"),
        owned("task_dependencies"),
        owned("notes"),
        owned("assets"),
        owned("documents"),
        owned("tasks"),
        owned("task_groups"),
        owned("agent_credentials"),
        owned("agent_sessions"),
        owned("agents"),
        owned("projects"),
        owned("workspace_members"),
        owned("workspaces"),
    ];
    assert(views(v@) =~= workspace_cascade_spec());
    v
}

/// The tables whose rows belong to a project through its `project_id`.
pub open spec fn project_keyed_tables() -> Set<Seq<char>> {
    set![
        "agent_session_tasks"@,
        "task_dependencies"@,
        "notes"@,
        "assets"@,
        "documents"@,
        "tasks"@,
        "task_groups"@,
        "agent_credentials"@,
        "agent_sessions"@,
    ]
}

/// Deleting a project clears every table that holds its rows before the
/// project row itself: the project row goes last, each table keyed by
/// `project_id` is cleared before it, no other table is touched and none is
/// cleared twice; and the whole workspace's deletion clears the same tables
/// first, in the same order.
pub proof fn law_project_deletion_covers_its_tables()
    ensures
        project_cascade_spec().len() >= 1,
        project_cascade_spec().last() == "projects"@,
        forall|t: Seq<char>|
            #[trigger] project_keyed_tables().contains(t) ==> exists|i: int|
                0 <= i < project_cascade_spec().len() - 1 && project_cascade_spec()[i] == t,
        forall|i: int|
            0 <= i < project_cascade_spec().len() - 1 ==> project_keyed_tables().contains(
                #[trigger] project_cascade_spec()[i],
            ),
        forall|i: int, j: int|
            0 <= i < j < project_cascade_spec().len() ==> #[trigger] project_cascade_spec()[i]
                != #[trigger] project_cascade_spec()[j],
        forall|i: int|
            0 <= i < project_cascade_spec().len() ==> workspace_cascade_spec().contains(
                #[trigger] project_cascade_spec()[i],
            ),
        project_cascade_spec().drop_last() == workspace_cascade_spec().take(project_cascade_spec().len() - 1),
{
    reveal_strlit("agent_session_tasks");
    reveal_strlit("task_dependencies");
    reveal_strlit("notes");
    reveal_strlit("assets");
    reveal_strlit("documents");
    reveal_strlit("tasks");
    reveal_strlit("task_groups");
    reveal_strlit("agent_credentials");
    reveal_strlit("agent_sessions");
    reveal_strlit("agents");
    reveal_strlit("projects");
    reveal_strlit("workspace_members");
    reveal_strlit("workspaces");
    let p = project_cascade_spec();
    let w = workspace_cascade_spec();
    assert(p.drop_last() =~= w.take(p.len() - 1));
    assert forall|t: Seq<char>| #[trigger] project_keyed_tables().contains(t) implies exists|i: int|
        0 <= i < p.len() - 1 && p[i] == t by {
        if t == "agent_session_tasks"@ {
            assert(p[0] == t);
        } else if t == "task_dependencies"@ {
            assert(p[1] == t);
        } else if t == "notes"@ {
            assert(p[2] == t);
        } else if t == "assets"@ {
            assert(p[3] == t);
        } else if t == "documents"@ {
            assert(p[4] == t);
        } else if t == "tasks"@ {
            assert(p[5] == t);
        } else if t == "task_groups"@ {
            assert(p[6] == t);
        } else if t == "agent_credentials"@ {
            assert(p[7] == t);
        } else {
            assert(p[8] == t);
        }
    }
    assert forall|i: int, j: int| 0 <= i < j < p.len() implies #[trigger] p[i] != #[trigger] p[j] by {
        if i == 0 {
            if j == 1 {
                assert(p[0].len() != p[1].len());
            } else if j == 2 {
                assert(p[0].len() != p[2].len());
            } else if j == 3 {
                assert(p[0].len() != p[3].len());
            } else if j == 4 {
                assert(p[0].len() != p[4].len());
            } else if j == 5 {
                assert(p[0].len() != p[5].len());
            } else if j == 6 {
                assert(p[0].len() != p[6].len());
            } else if j == 7 {
                assert(p[0].len() != p[7].len());
            } else if j == 8 {
                assert(p[0].len() != p[8].len());
            } else if j == 9 {
                assert(p[0].len() != p[9].len());
            }
        } else if i == 1 {
            if j == 2 {
                assert(p[1].len() != p[2].len());
            } else if j == 3 {
                assert(p[1].len() != p[3].len());
            } else if j == 4 {
                assert(p[1].len() != p[4].len());
            } else if j == 5 {
                assert(p[1].len() != p[5].len());
            } else if j == 6 {
                assert(p[1].len() != p[6].len());
            } else if j == 7 {
                assert(p[1][0] != p[7][0]);
            } else if j == 8 {
                assert(p[1].len() != p[8].len());
            } else if j == 9 {
                assert(p[1].len() != p[9].len());
            }
        } else if i == 2 {
            if j == 3 {
                assert(p[2].len() != p[3].len());
            } else if j == 4 {
                assert(p[2].len() != p[4].len());
            } else if j == 5 {
                assert(p[2][0] != p[5][0]);
            } else if j == 6 {
                assert(p[2].len() != p[6].len());
            } else if j == 7 {
                assert(p[2].len() != p[7].len());
            } else if j == 8 {
                assert(p[2].len() != p[8].len());
            } else if j == 9 {
                assert(p[2].len() != p[9].len());
            }
        } else if i == 3 {
            if j == 4 {
                assert(p[3].len() != p[4].len());
            } else if j == 5 {
                assert(p[3].len() != p[5].len());
            } else if j == 6 {
                assert(p[3].len() != p[6].len());
            } else if j == 7 {
                assert(p[3].len() != p[7].len());
            } else if j == 8 {
                assert(p[3].len() != p[8].len());
            } else if j == 9 {
                assert(p[3].len() != p[9].len());
            }
        } else if i == 4 {
            if j == 5 {
                assert(p[4].len() != p[5].len());
            } else if j == 6 {
                assert(p[4].len() != p[6].len());
            } else if j == 7 {
                assert(p[4].len() != p[7].len());
            } else if j == 8 {
                assert(p[4].len() != p[8].len());
            } else if j == 9 {
                assert(p[4].len() != p[9].len());
            }
        } else if i == 5 {
            if j == 6 {
                assert(p[5].len() != p[6].len());
            } else if j == 7 {
                assert(p[5].len() != p[7].len());
            } else if j == 8 {
                assert(p[5].len() != p[8].len());
            } else if j == 9 {
                assert(p[5].len() != p[9].len());
            }
        } else if i == 6 {
            if j == 7 {
                assert(p[6].len() != p[7].len());
            } else if j == 8 {
                assert(p[6].len() != p[8].len());
            } else if j == 9 {
                assert(p[6].len() != p[9].len());
            }
        } else if i == 7 {
            if j == 8 {
                assert(p[7].len() != p[8].len());
            } else if j == 9 {
                assert(p[7].len() != p[9].len());
            }
        } else if i == 8 {
            if j == 9 {
                assert(p[8].len() != p[9].len());
            }
        }
    }
    assert forall|i: int| 0 <= i < p.len() implies w.contains(#[trigger] p[i]) by {
        if i <= 8 {
            assert(w[i] == p[i]);
        } else {
            assert(w[10] == p[i]);
        }
    }
}

} // verus!
