//! The audit trail: what is recorded about each write, and when.
use vstd::prelude::*;

use crate::actor::{ActorContext, ActorKind};
use crate::text::{clone_opt, opt_view, owned, str_eq};

verus! {

/// Something an actor did, to be recorded.
#[derive(Debug)]
pub struct AuditEvent {
    pub request_id: String,
    pub actor: ActorContext,
    pub action: String,
    pub resource_kind: String,
    pub resource_id: String,
    pub payload: Option<serde_json::Value>,
}

/// The stored form of an audit event (its payload is stored as JSON beside it).
#[derive(Debug)]
pub struct AuditRow {
    pub workspace_id: String,
    pub project_id: Option<String>,
    pub actor_type: String,
    pub actor_id: Option<String>,
    pub entity_type: String,
    pub entity_id: Option<String>,
    pub event_type: String,
}

/// The `actor_type` an audit row records for an actor kind: humans act as
/// workspace members, agents as agents.  The system actor has no recorded type
/// (the stored types are `workspace_member`, `agent` and `integration`), so its
/// events are only logged.
pub open spec fn actor_type_spec(k: ActorKind) -> Option<Seq<char>> {
    match k {
        ActorKind::Human => Some("workspace_member"@),
        ActorKind::Agent => Some("agent"@),
        ActorKind::System => None,
    }
}

/// The recorded `actor_type` of an actor kind, if it has one.
pub fn actor_type_name(k: ActorKind) -> (r: Option<String>)
    ensures
        opt_view(r) == actor_type_spec(k),
{
    match k {
        ActorKind::Human => Some(owned("workspace_member")),
        ActorKind::Agent => Some(owned("agent")),
        ActorKind::System => None,
    }
}

/// The row stored for an event: only events of an actor bound to a workspace
/// and of a kind with a recorded type are stored; the actor id `anonymous`
/// is stored as no id.
pub fn audit_row(event: &AuditEvent) -> (r: Option<AuditRow>)
    ensures
        event.actor.workspace_id is None || actor_type_spec(event.actor.actor_kind) is None ==> r is None,
        event.actor.workspace_id is Some && actor_type_spec(event.actor.actor_kind) is Some ==> (r matches Some(row) && {
            &&& Some(row.workspace_id@) == opt_view(event.actor.workspace_id)
            &&& opt_view(row.project_id) == opt_view(event.actor.project_id)
            &&& Some(row.actor_type@) == actor_type_spec(event.actor.actor_kind)
            &&& opt_view(row.actor_id) == (if event.actor.actor_id@ == "anonymous"@ {
                None
            } else {
                Some(event.actor.actor_id@)
            })
            &&& row.entity_type@ == event.resource_kind@
            &&& opt_view(row.entity_id) == Some(event.resource_id@)
            &&& row.event_type@ == event.action@
        }),
{
    let workspace_id = match &event.actor.workspace_id {
        Some(w) => w.clone(),
        None => {
            return None;
        },
    };
    let actor_type = match actor_type_name(event.actor.actor_kind) {
        Some(t) => t,
        None => {
            return None;
        },
    };
    let actor_id = if str_eq(event.actor.actor_id.as_str(), "anonymous") {
        None
    } else {
        Some(event.actor.actor_id.clone())
    };
    Some(AuditRow {
        workspace_id,
        project_id: clone_opt(&event.actor.project_id),
        actor_type,
        actor_id,
        entity_type: event.resource_kind.clone(),
        entity_id: Some(event.resource_id.clone()),
        event_type: event.action.clone(),
    })
}

} // verus!
