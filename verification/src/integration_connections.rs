//! Connections of a workspace to outside services (GitHub): which values
//! they may take and how their scope ties them to a project.
use vstd::prelude::*;

use crate::documents::validated;
use crate::error::{fails_with, ApiError};
use crate::text::{clone_opt, opt_view, owned, str_eq};

verus! {

/// A stored connection.
#[derive(Debug)]
pub struct IntegrationConnectionResponse {
    pub id: String,
    pub workspace_id: String,
    pub project_id: Option<String>,
    pub provider: String,
    pub scope_kind: String,
    pub status: String,
    pub config_json: Option<String>,
    pub secret_ciphertext: Option<String>,
    pub last_synced_at: Option<String>,
    pub created_at: String,
    pub updated_at: String,
}

/// Body for creating a connection.
#[derive(Debug)]
pub struct CreateIntegrationConnectionRequest {
    pub provider: String,
    pub scope_kind: String,
    pub project_id: Option<String>,
    pub status: String,
    pub config_json: Option<serde_json::Value>,
    pub secret_ciphertext: Option<String>,
}

/// Body for changing a connection; absent fields stay as they are, and so do
/// fields given as `null`.
#[derive(Debug)]
pub struct UpdateIntegrationConnectionRequest {
    pub provider: Option<String>,
    pub scope_kind: Option<String>,
    pub project_id: Option<Option<String>>,
    pub status: Option<String>,
    pub config_json: Option<Option<serde_json::Value>>,
    pub secret_ciphertext: Option<Option<String>>,
}

/// The provider a new connection gets when the request names none.
pub fn default_provider() -> (r: String)
    ensures
        r@ == "github"@,
{
    owned("github")
}

/// The status a new connection gets when the request names none.
pub fn default_status() -> (r: String)
    ensures
        r@ == "active"@,
{
    owned("active")
}

pub open spec fn provider_problem(p: Seq<char>) -> Option<Seq<char>> {
    if p == "github"@ {
        None
    } else {
        Some("provider must be github"@)
    }
}

pub open spec fn scope_kind_problem(k: Seq<char>) -> Option<Seq<char>> {
    if k == "workspace"@ || k == "project"@ {
        None
    } else {
        Some("scope_kind must be one of: workspace, project"@)
    }
}

pub open spec fn connection_status_problem(s: Seq<char>) -> Option<Seq<char>> {
    if s == "active"@ || s == "disabled"@ || s == "error"@ {
        None
    } else {
        Some("status must be one of: active, disabled, error"@)
    }
}

pub fn validate_provider(provider: &str, request_id: &str) -> (r: Result<(), ApiError>)
    ensures
        validated(r, provider_problem(provider@), request_id@),
{
    if str_eq(provider, "github") {
        Ok(())
    } else {
        Err(ApiError::validation_error(request_id, "provider must be github"))
    }
}

pub fn validate_scope_kind(scope_kind: &str, request_id: &str) -> (r: Result<(), ApiError>)
    ensures
        validated(r, scope_kind_problem(scope_kind@), request_id@),
{
    if str_eq(scope_kind, "workspace") || str_eq(scope_kind, "project") {
        Ok(())
    } else {
        Err(ApiError::validation_error(request_id, "scope_kind must be one of: workspace, project"))
    }
}

pub fn validate_status(status: &str, request_id: &str) -> (r: Result<(), ApiError>)
    ensures
        validated(r, connection_status_problem(status@), request_id@),
{
    if str_eq(status, "active") || str_eq(status, "disabled") || str_eq(status, "error") {
        Ok(())
    } else {
        Err(ApiError::validation_error(request_id, "status must be one of: active, disabled, error"))
    }
}

/// The first problem with a new connection's values: provider, scope kind, status.
pub open spec fn create_connection_problem(body: CreateIntegrationConnectionRequest) -> Option<Seq<char>> {
    if provider_problem(body.provider@) is Some {
        provider_problem(body.provider@)
    } else if scope_kind_problem(body.scope_kind@) is Some {
        scope_kind_problem(body.scope_kind@)
    } else {
        connection_status_problem(body.status@)
    }
}

/// Checks a new connection's values before anything is looked up.
pub fn validate_create_connection(body: &CreateIntegrationConnectionRequest, request_id: &str) -> (r: Result<(), ApiError>)
    ensures
        validated(r, create_connection_problem(*body), request_id@),
{
    validate_provider(body.provider.as_str(), request_id)?;
    validate_scope_kind(body.scope_kind.as_str(), request_id)?;
    validate_status(body.status.as_str(), request_id)
}

/// A project-scoped connection names a project of the workspace, and only it
/// names one (`project_found` tells whether the named project is in the workspace).
pub fn check_connection_scope(
    body: &CreateIntegrationConnectionRequest,
    project_found: bool,
    request_id: &str,
) -> (r: Result<(), ApiError>)
    ensures
        body.project_id is Some && body.scope_kind@ != "project"@ ==> fails_with(
            r,
            "validation_error"@,
            request_id@,
            "project_id is only allowed when scope_kind = project"@,
        ),
        body.project_id is Some && body.scope_kind@ == "project"@ && !project_found ==> fails_with(
            r,
            "not_found"@,
            request_id@,
            "project not found in this workspace"@,
        ),
        body.project_id is None && body.scope_kind@ == "project"@ ==> fails_with(
            r,
            "validation_error"@,
            request_id@,
            "project_id is required when scope_kind = project"@,
        ),
        (body.project_id is Some && body.scope_kind@ == "project"@ && project_found) || (body.project_id is None
            && body.scope_kind@ != "project"@) ==> r is Ok,
{
    let is_project_scope = str_eq(body.scope_kind.as_str(), "project");
    if body.project_id.is_some() {
        if !is_project_scope {
            return Err(ApiError::validation_error(request_id, "project_id is only allowed when scope_kind = project"));
        }
        if !project_found {
            return Err(ApiError::not_found(request_id, "project not found in this workspace"));
        }
    } else if is_project_scope {
        return Err(ApiError::validation_error(request_id, "project_id is required when scope_kind = project"));
    }
    Ok(())
}

/// The first problem with the values of a connection change.
pub open spec fn update_connection_problem(body: UpdateIntegrationConnectionRequest) -> Option<Seq<char>> {
    if body.provider is Some && provider_problem(body.provider->0@) is Some {
        provider_problem(body.provider->0@)
    } else if body.scope_kind is Some && scope_kind_problem(body.scope_kind->0@) is Some {
        scope_kind_problem(body.scope_kind->0@)
    } else if body.status is Some {
        connection_status_problem(body.status->0@)
    } else {
        None
    }
}

/// Checks a connection change's values.
pub fn validate_update_connection(body: &UpdateIntegrationConnectionRequest, request_id: &str) -> (r: Result<(), ApiError>)
    ensures
        validated(r, update_connection_problem(*body), request_id@),
{
    if let Some(p) = &body.provider {
        validate_provider(p.as_str(), request_id)?;
    }
    if let Some(k) = &body.scope_kind {
        validate_scope_kind(k.as_str(), request_id)?;
    }
    if let Some(s) = &body.status {
        validate_status(s.as_str(), request_id)?;
    }
    Ok(())
}

/// A change that names a project must name one of the workspace.
pub fn check_update_project(
    body: &UpdateIntegrationConnectionRequest,
    project_found: bool,
    request_id: &str,
) -> (r: Result<(), ApiError>)
    ensures
        (body.project_id matches Some(Some(_))) && !project_found ==> fails_with(
            r,
            "not_found"@,
            request_id@,
            "project not found in this workspace"@,
        ),
        !((body.project_id matches Some(Some(_))) && !project_found) ==> r is Ok,
{
    if let Some(Some(_)) = &body.project_id {
        if !project_found {
            return Err(ApiError::not_found(request_id, "project not found in this workspace"));
        }
    }
    Ok(())
}

/// The values a connection change writes; absent ones keep the stored value.
#[derive(Debug)]
pub struct ConnectionChange {
    pub provider: Option<String>,
    pub scope_kind: Option<String>,
    pub project_id: Option<String>,
    pub status: Option<String>,
    pub secret_ciphertext: Option<String>,
}

/// A value given as `null` in a change keeps the stored one, like an absent value.
pub open spec fn set_value(v: Option<Option<String>>) -> Option<Seq<char>> {
    match v {
        Some(Some(s)) => Some(s@),
        _ => None,
    }
}

pub fn connection_change(body: &UpdateIntegrationConnectionRequest) -> (r: ConnectionChange)
    ensures
        opt_view(r.provider) == opt_view(body.provider),
        opt_view(r.scope_kind) == opt_view(body.scope_kind),
        opt_view(r.project_id) == set_value(body.project_id),
        opt_view(r.status) == opt_view(body.status),
        opt_view(r.secret_ciphertext) == set_value(body.secret_ciphertext),
{
    let project_id = match &body.project_id {
        Some(Some(p)) => Some(p.clone()),
        _ => None,
    };
    let secret_ciphertext = match &body.secret_ciphertext {
        Some(Some(s)) => Some(s.clone()),
        _ => None,
    };
    ConnectionChange {
        provider: clone_opt(&body.provider),
        scope_kind: clone_opt(&body.scope_kind),
        project_id,
        status: clone_opt(&body.status),
        secret_ciphertext,
    }
}

} // verus!
