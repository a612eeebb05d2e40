//! Agents registered in a workspace: their keys, names and status.
use vstd::prelude::*;

use crate::documents::validated;
use crate::error::{fails_with, ApiError};
use crate::text::{is_blank, is_blank_str, is_kebab, is_kebab_str, opt_view, owned, str_eq, trim, trim_str};

verus! {

/// An agent as stored for a workspace.
#[derive(Debug)]
pub struct AgentResponse {
    pub id: String,
    pub workspace_id: String,
    pub created_by_member_id: String,
    pub key: String,
    pub display_name: String,
    pub status: String,
    pub created_at: String,
    pub updated_at: String,
}

/// Body for registering an agent.
#[derive(Debug)]
pub struct CreateAgentRequest {
    pub key: String,
    pub display_name: String,
    pub status: String,
}

/// Body for changing an agent; absent fields stay as they are.
#[derive(Debug)]
pub struct UpdateAgentRequest {
    pub key: Option<String>,
    pub display_name: Option<String>,
    pub status: Option<String>,
}

/// The status a new agent gets when the request names none.
pub fn default_status() -> (r: String)
    ensures
        r@ == "active"@,
{
    owned("active")
}

/// What is wrong with an agent key, if anything: it must not be blank and
/// must be lowercase kebab-case.
pub open spec fn key_problem(k: Seq<char>) -> Option<Seq<char>> {
    if is_blank(k) {
        Some("key must not be empty"@)
    } else if !is_kebab(k) {
        Some("key must be lowercase kebab-case (a-z, 0-9, hyphens; no leading/trailing hyphen)"@)
    } else {
        None
    }
}

pub open spec fn agent_status_problem(s: Seq<char>) -> Option<Seq<char>> {
    if s == "active"@ || s == "disabled"@ {
        None
    } else {
        Some("status must be one of: active, disabled"@)
    }
}

pub fn validate_key(value: &str, request_id: &str) -> (r: Result<(), ApiError>)
    ensures
        validated(r, key_problem(value@), request_id@),
{
    if is_blank_str(value) {
        return Err(ApiError::validation_error(request_id, "key must not be empty"));
    }
    if !is_kebab_str(value) {
        return Err(
            ApiError::validation_error(
                request_id,
                "key must be lowercase kebab-case (a-z, 0-9, hyphens; no leading/trailing hyphen)",
            ),
        );
    }
    Ok(())
}

pub fn validate_status(value: &str, request_id: &str) -> (r: Result<(), ApiError>)
    ensures
        validated(r, agent_status_problem(value@), request_id@),
{
    if str_eq(value, "active") || str_eq(value, "disabled") {
        Ok(())
    } else {
        Err(ApiError::validation_error(request_id, "status must be one of: active, disabled"))
    }
}

/// The values of a new agent.
#[derive(Debug)]
pub struct NewAgent {
    pub key: String,
    pub display_name: String,
    pub status: String,
}

/// Checks a registration (key, then status) and gives the values to store;
/// the display name is stored trimmed.
pub fn prepare_new_agent(body: &CreateAgentRequest, request_id: &str) -> (r: Result<NewAgent, ApiError>)
    ensures
        key_problem(body.key@) is Some ==> fails_with(r, "validation_error"@, request_id@, key_problem(body.key@)->0),
        key_problem(body.key@) is None && agent_status_problem(body.status@) is Some ==> fails_with(
            r,
            "validation_error"@,
            request_id@,
            agent_status_problem(body.status@)->0,
        ),
        key_problem(body.key@) is None && agent_status_problem(body.status@) is None ==> (r matches Ok(a) && a.key@
            == body.key@ && a.display_name@ == trim(body.display_name@) && a.status@ == body.status@),
{
    validate_key(body.key.as_str(), request_id)?;
    validate_status(body.status.as_str(), request_id)?;
    Ok(NewAgent {
        key: body.key.clone(),
        display_name: owned(trim_str(body.display_name.as_str())),
        status: body.status.clone(),
    })
}

/// The first problem with an agent change: key, status, then display name.
pub open spec fn agent_change_problem(body: UpdateAgentRequest) -> Option<Seq<char>> {
    if body.key is Some && key_problem(body.key->0@) is Some {
        key_problem(body.key->0@)
    } else if body.status is Some && agent_status_problem(body.status->0@) is Some {
        agent_status_problem(body.status->0@)
    } else if body.display_name is Some && is_blank(body.display_name->0@) {
        Some("display_name must not be empty"@)
    } else {
        None
    }
}

/// The values an agent change writes; absent ones keep the stored value.
#[derive(Debug)]
pub struct AgentChange {
    pub key: Option<String>,
    pub display_name: Option<String>,
    pub status: Option<String>,
}

/// Checks an agent change and gives the values to write; a new display name is stored trimmed.
pub fn prepare_agent_change(body: &UpdateAgentRequest, request_id: &str) -> (r: Result<AgentChange, ApiError>)
    ensures
        match agent_change_problem(*body) {
            Some(m) => fails_with(r, "validation_error"@, request_id@, m),
            None => r matches Ok(c) && {
                &&& opt_view(c.key) == opt_view(body.key)
                &&& opt_view(c.status) == opt_view(body.status)
                &&& opt_view(c.display_name) == (match body.display_name {
                    Some(d) => Some(trim(d@)),
                    None => None,
                })
            },
        },
{
    if let Some(k) = &body.key {
        validate_key(k.as_str(), request_id)?;
    }
    if let Some(s) = &body.status {
        validate_status(s.as_str(), request_id)?;
    }
    if let Some(d) = &body.display_name {
        if is_blank_str(d.as_str()) {
            return Err(ApiError::validation_error(request_id, "display_name must not be empty"));
        }
    }
    let display_name = match &body.display_name {
        Some(d) => Some(owned(trim_str(d.as_str()))),
        None => None,
    };
    Ok(AgentChange {
        key: match &body.key {
            Some(k) => Some(k.clone()),
            None => None,
        },
        display_name,
        status: match &body.status {
            Some(s) => Some(s.clone()),
            None => None,
        },
    })
}

/// The agent statuses: a status is accepted exactly when it is active or
/// disabled, a refused one is answered with a message that names both, and
/// the status a new agent gets by default is accepted.
pub proof fn law_agent_statuses(s: Seq<char>)
    ensures
        agent_status_problem(s) is None <==> (s == "active"@ || s == "disabled"@),
        agent_status_problem(s) is Some ==> agent_status_problem(s)->0 == "status must be one of: active, disabled"@,
        agent_status_problem("active"@) is None,
{
}

} // verus!
