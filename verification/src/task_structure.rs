//! Task groups (initiatives and epics) that organise a project's tasks.
use vstd::prelude::*;

use crate::documents::validated;
use crate::error::{fails_with, ApiError};
use crate::text::{is_blank, is_blank_str, opt_view, owned, str_eq, trim, trim_str};

verus! {

/// A task group as stored for a project.
#[derive(Debug)]
pub struct TaskGroupResponse {
    pub id: String,
    pub workspace_id: String,
    pub project_id: String,
    pub kind: String,
    pub title: String,
    pub description_md: Option<String>,
    pub status: String,
    pub priority: i32,
    pub created_at: String,
    pub updated_at: String,
}

/// Body for creating a task group.
#[derive(Debug)]
pub struct CreateTaskGroupRequest {
    pub kind: String,
    pub title: String,
    pub description_md: Option<String>,
    pub status: String,
    pub priority: i32,
}

/// Body for changing a task group; absent fields stay as they are.
#[derive(Debug)]
pub struct UpdateTaskGroupRequest {
    pub kind: Option<String>,
    pub title: Option<String>,
    pub description_md: Option<String>,
    pub status: Option<String>,
    pub priority: Option<i32>,
}

/// The status a new task group gets when the request names none.
pub fn default_status() -> (r: String)
    ensures
        r@ == "active"@,
{
    owned("active")
}

pub open spec fn kind_problem(k: Seq<char>) -> Option<Seq<char>> {
    if k == "initiative"@ || k == "epic"@ {
        None
    } else {
        Some("kind must be one of: initiative, epic"@)
    }
}

pub open spec fn group_status_problem(s: Seq<char>) -> Option<Seq<char>> {
    if s == "draft"@ || s == "active"@ || s == "done"@ || s == "archived"@ {
        None
    } else {
        Some("status must be one of: draft, active, done, archived"@)
    }
}

pub fn validate_kind(kind: &str, request_id: &str) -> (r: Result<(), ApiError>)
    ensures
        validated(r, kind_problem(kind@), request_id@),
{
    if str_eq(kind, "initiative") || str_eq(kind, "epic") {
        Ok(())
    } else {
        Err(ApiError::validation_error(request_id, "kind must be one of: initiative, epic"))
    }
}

pub fn validate_status(status: &str, request_id: &str) -> (r: Result<(), ApiError>)
    ensures
        validated(r, group_status_problem(status@), request_id@),
{
    if str_eq(status, "draft") || str_eq(status, "active") || str_eq(status, "done") || str_eq(status, "archived") {
        Ok(())
    } else {
        Err(ApiError::validation_error(request_id, "status must be one of: draft, active, done, archived"))
    }
}

/// The first problem with a new task group: title, kind, then status.
pub open spec fn create_group_problem(body: CreateTaskGroupRequest) -> Option<Seq<char>> {
    if is_blank(body.title@) {
        Some("title must not be empty"@)
    } else if kind_problem(body.kind@) is Some {
        kind_problem(body.kind@)
    } else {
        group_status_problem(body.status@)
    }
}

/// Checks a new task group and gives its title as stored (trimmed).
pub fn prepare_task_group(body: &CreateTaskGroupRequest, request_id: &str) -> (r: Result<String, ApiError>)
    ensures
        match create_group_problem(*body) {
            Some(m) => fails_with(r, "validation_error"@, request_id@, m),
            None => r matches Ok(t) && t@ == trim(body.title@),
        },
{
    if is_blank_str(body.title.as_str()) {
        return Err(ApiError::validation_error(request_id, "title must not be empty"));
    }
    validate_kind(body.kind.as_str(), request_id)?;
    validate_status(body.status.as_str(), request_id)?;
    Ok(owned(trim_str(body.title.as_str())))
}

/// The first problem with a task group change: kind, status, then title.
pub open spec fn update_group_problem(body: UpdateTaskGroupRequest) -> Option<Seq<char>> {
    if body.kind is Some && kind_problem(body.kind->0@) is Some {
        kind_problem(body.kind->0@)
    } else if body.status is Some && group_status_problem(body.status->0@) is Some {
        group_status_problem(body.status->0@)
    } else if body.title is Some && is_blank(body.title->0@) {
        Some("title must not be empty"@)
    } else {
        None
    }
}

/// Checks a task group change and gives its new title as stored (trimmed), if any.
pub fn prepare_task_group_change(body: &UpdateTaskGroupRequest, request_id: &str) -> (r: Result<Option<String>, ApiError>)
    ensures
        match update_group_problem(*body) {
            Some(m) => fails_with(r, "validation_error"@, request_id@, m),
            None => r matches Ok(t) && opt_view(t) == (match body.title {
                Some(s) => Some(trim(s@)),
                None => None,
            }),
        },
{
    if let Some(k) = &body.kind {
        validate_kind(k.as_str(), request_id)?;
    }
    if let Some(s) = &body.status {
        validate_status(s.as_str(), request_id)?;
    }
    match &body.title {
        Some(t) => {
            if is_blank_str(t.as_str()) {
                return Err(ApiError::validation_error(request_id, "title must not be empty"));
            }
            Ok(Some(owned(trim_str(t.as_str()))))
        },
        None => Ok(None),
    }
}

} // verus!
