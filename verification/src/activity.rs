//! The activity feed: the audit trail of a workspace or project, newest first.
use vstd::prelude::*;

verus! {

/// One entry of the activity feed.
#[derive(Debug)]
pub struct ActivityEventResponse {
    pub id: String,
    pub workspace_id: String,
    pub project_id: Option<String>,
    pub actor_type: String,
    pub actor_id: Option<String>,
    pub actor_github_login: Option<String>,
    pub entity_type: String,
    pub entity_id: Option<String>,
    pub event_type: String,
    pub payload_json: Option<String>,
    pub occurred_at: String,
}

} // verus!
