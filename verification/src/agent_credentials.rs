//! Credentials that let an agent act: issuing them (the secret is shown
//! once, only its hash is kept), their scopes, and revocation.
use vstd::prelude::*;

use crate::actor::{json_string_array, scopes_of_policy};
use crate::crypto::{hash_secret, secret_hash};
use crate::documents::validated;
use crate::error::{fails_with, ApiError};
use crate::ids::{is_uuid_simple_text, new_uuid_simple_text};
use crate::text::{is_blank, is_blank_str, opt_view, owned, str_eq, views};

verus! {

/// A stored credential (without its secret).
#[derive(Debug)]
pub struct AgentCredentialResponse {
    pub id: String,
    pub workspace_id: String,
    pub project_id: Option<String>,
    pub agent_id: String,
    pub issued_by_member_id: String,
    pub label: String,
    pub secret_prefix: String,
    pub scope_policy: String,
    pub status: String,
    pub expires_at: Option<String>,
    pub last_used_at: Option<String>,
    pub created_at: String,
    pub revoked_at: Option<String>,
}

/// A newly issued credential together with its secret, shown this once.
#[derive(Debug)]
pub struct CreatedCredentialResponse {
    pub credential: AgentCredentialResponse,
    pub secret: String,
}

/// Body for issuing a credential.
#[derive(Debug)]
pub struct CreateAgentCredentialRequest {
    pub label: String,
    pub project_id: Option<String>,
    pub scope_policy: Vec<String>,
    pub expires_at: Option<String>,
}

/// Body for changing a credential; absent fields, and fields given as `null`,
/// stay as they are.
#[derive(Debug)]
pub struct UpdateAgentCredentialRequest {
    pub label: Option<String>,
    pub project_id: Option<Option<String>>,
    pub scope_policy: Option<Vec<String>>,
    pub status: Option<String>,
    pub expires_at: Option<Option<String>>,
}

pub open spec fn label_problem(l: Seq<char>) -> Option<Seq<char>> {
    if is_blank(l) {
        Some("label must not be empty"@)
    } else {
        None
    }
}

pub open spec fn credential_status_problem(s: Seq<char>) -> Option<Seq<char>> {
    if s == "active"@ || s == "revoked"@ {
        None
    } else {
        Some("status must be one of: active, revoked"@)
    }
}

pub fn validate_label(value: &str, request_id: &str) -> (r: Result<(), ApiError>)
    ensures
        validated(r, label_problem(value@), request_id@),
{
    if is_blank_str(value) {
        Err(ApiError::validation_error(request_id, "label must not be empty"))
    } else {
        Ok(())
    }
}

pub fn validate_status(value: &str, request_id: &str) -> (r: Result<(), ApiError>)
    ensures
        validated(r, credential_status_problem(value@), request_id@),
{
    if str_eq(value, "active") || str_eq(value, "revoked") {
        Ok(())
    } else {
        Err(ApiError::validation_error(request_id, "status must be one of: active, revoked"))
    }
}

/// Calls `serde_json::to_string` on a list of strings.  The contract claims
/// only that reading the text back as a JSON array of strings gives the list.
#[verifier::external_body]
fn strings_to_json(v: &Vec<String>) -> (r: String)
    ensures
        json_string_array(r@) == Some(views(v@)),
{
    serde_json::to_string(v).unwrap_or_default()
}

/// The stored form of a scope list: JSON that reads back as the same list.
pub fn scope_policy_json(scopes: &Vec<String>) -> (r: String)
    ensures
        json_string_array(r@) == Some(views(scopes@)),
        scopes_of_policy(r@) == views(scopes@),
{
    strings_to_json(scopes)
}

/// A credential secret: `awcred_`, the 8-character prefix, `_`, and 32 hexadecimal digits.
pub open spec fn is_credential_secret(prefix: Seq<char>, secret: Seq<char>) -> bool {
    exists|a: Seq<char>, b: Seq<char>|
        is_uuid_simple_text(a) && is_uuid_simple_text(b) && prefix == a.take(8) && secret == "awcred_"@ + prefix
            + seq!['_'] + b
}

/// A freshly issued secret: what the agent presents, the prefix kept to
/// recognise it, and the hash stored to check it.
#[derive(Debug)]
pub struct IssuedSecret {
    pub secret: String,
    pub secret_prefix: String,
    pub secret_hash: String,
}

/// Issues a new random secret.
pub fn issue_secret() -> (r: IssuedSecret)
    ensures
        is_credential_secret(r.secret_prefix@, r.secret@),
        r.secret_hash@ == secret_hash(vstd::utf8::encode_utf8(r.secret@)),
{
    proof {
        reveal_strlit("awcred_");
        reveal_strlit("_");
    }
    let a = new_uuid_simple_text();
    let b = new_uuid_simple_text();
    let prefix = owned(a.as_str().substring_char(0, 8));
    let mut secret = owned("awcred_");
    secret.append(prefix.as_str());
    secret.append("_");
    secret.append(b.as_str());
    assert(secret@ == "awcred_"@ + prefix@ + seq!['_'] + b@);
    let h = hash_secret(secret.as_str());
    IssuedSecret { secret, secret_prefix: prefix, secret_hash: h }
}

/// Checks a credential change's values: the label, then the status.
pub fn validate_credential_change(body: &UpdateAgentCredentialRequest, request_id: &str) -> (r: Result<(), ApiError>)
    ensures
        validated(
            r,
            if body.label is Some && label_problem(body.label->0@) is Some {
                label_problem(body.label->0@)
            } else if body.status is Some {
                credential_status_problem(body.status->0@)
            } else {
                None
            },
            request_id@,
        ),
{
    if let Some(l) = &body.label {
        validate_label(l.as_str(), request_id)?;
    }
    if let Some(s) = &body.status {
        validate_status(s.as_str(), request_id)?;
    }
    Ok(())
}

/// A credential bound to a project must name a project of the workspace
/// (`project_found` tells whether it does).
pub fn check_credential_project(project_id: &Option<String>, project_found: bool, request_id: &str) -> (r: Result<(), ApiError>)
    ensures
        project_id is Some && !project_found ==> fails_with(r, "not_found"@, request_id@, "project not found in this workspace"@),
        !(project_id is Some && !project_found) ==> r is Ok,
{
    if project_id.is_some() && !project_found {
        return Err(ApiError::not_found(request_id, "project not found in this workspace"));
    }
    Ok(())
}

/// A change revokes the credential (and stamps when) exactly when it sets the status `revoked`.
pub fn revokes(body: &UpdateAgentCredentialRequest) -> (r: bool)
    ensures
        r == (opt_view(body.status) == Some("revoked"@)),
{
    match &body.status {
        Some(s) => str_eq(s.as_str(), "revoked"),
        None => false,
    }
}

/// An agent that presents a credential is granted exactly the scopes the
/// credential was issued (or last updated) with.
pub proof fn law_issued_scopes_are_granted(stored: Seq<char>, scopes: Seq<Seq<char>>)
    requires
        json_string_array(stored) == Some(scopes),
    ensures
        scopes_of_policy(stored) == scopes,
{
}

} // verus!
