//! Notes kept for a project (context, work logs, decisions, results) by
//! members and agents, and how their stored kinds are read back.
use vstd::prelude::*;

use crate::actor::ActorKind;
use crate::error::{fails_with, ApiError};
use crate::text::{is_blank, is_blank_str, owned, str_eq};

verus! {

/// What a note records.
#[derive(Clone, Copy, Debug, PartialEq, Eq, Structural)]
pub enum NoteKind {
    Context,
    Worklog,
    Decision,
    Result,
}

/// Who wrote a note.
#[derive(Clone, Copy, Debug, PartialEq, Eq, Structural)]
pub enum AuthorType {
    WorkspaceMember,
    Agent,
    Integration,
}

/// The stored name of a note kind.
pub open spec fn note_kind_text(k: NoteKind) -> Seq<char> {
    match k {
        NoteKind::Context => "context"@,
        NoteKind::Worklog => "worklog"@,
        NoteKind::Decision => "decision"@,
        NoteKind::Result => "result"@,
    }
}

/// The note kind a stored name stands for.
pub open spec fn note_kind_of(s: Seq<char>) -> Option<NoteKind> {
    if s == "context"@ {
        Some(NoteKind::Context)
    } else if s == "worklog"@ {
        Some(NoteKind::Worklog)
    } else if s == "decision"@ {
        Some(NoteKind::Decision)
    } else if s == "result"@ {
        Some(NoteKind::Result)
    } else {
        None
    }
}

/// The stored name of an author type.
pub open spec fn author_type_text(a: AuthorType) -> Seq<char> {
    match a {
        AuthorType::WorkspaceMember => "workspace_member"@,
        AuthorType::Agent => "agent"@,
        AuthorType::Integration => "integration"@,
    }
}

/// The author type a stored name stands for.
pub open spec fn author_type_of(s: Seq<char>) -> Option<AuthorType> {
    if s == "workspace_member"@ {
        Some(AuthorType::WorkspaceMember)
    } else if s == "agent"@ {
        Some(AuthorType::Agent)
    } else if s == "integration"@ {
        Some(AuthorType::Integration)
    } else {
        None
    }
}

impl NoteKind {
    pub fn as_str(&self) -> (r: &'static str)
        ensures
            r@ == note_kind_text(*self),
    {
        match self {
            NoteKind::Context => "context",
            NoteKind::Worklog => "worklog",
            NoteKind::Decision => "decision",
            NoteKind::Result => "result",
        }
    }

    pub fn from_str(value: &str) -> (r: Option<NoteKind>)
        ensures
            r == note_kind_of(value@),
    {
        if str_eq(value, "context") {
            Some(NoteKind::Context)
        } else if str_eq(value, "worklog") {
            Some(NoteKind::Worklog)
        } else if str_eq(value, "decision") {
            Some(NoteKind::Decision)
        } else if str_eq(value, "result") {
            Some(NoteKind::Result)
        } else {
            None
        }
    }
}

impl AuthorType {
    pub fn as_str(&self) -> (r: &'static str)
        ensures
            r@ == author_type_text(*self),
    {
        match self {
            AuthorType::WorkspaceMember => "workspace_member",
            AuthorType::Agent => "agent",
            AuthorType::Integration => "integration",
        }
    }

    pub fn from_str(value: &str) -> (r: Option<AuthorType>)
        ensures
            r == author_type_of(value@),
    {
        if str_eq(value, "workspace_member") {
            Some(AuthorType::WorkspaceMember)
        } else if str_eq(value, "agent") {
            Some(AuthorType::Agent)
        } else if str_eq(value, "integration") {
            Some(AuthorType::Integration)
        } else {
            None
        }
    }
}

/// Every note kind and author type reads back as what was stored.
pub proof fn law_stored_names_read_back(k: NoteKind, a: AuthorType)
    ensures
        note_kind_of(note_kind_text(k)) == Some(k),
        author_type_of(author_type_text(a)) == Some(a),
{
    reveal_strlit("context");
    reveal_strlit("worklog");
    reveal_strlit("decision");
    reveal_strlit("result");
    reveal_strlit("workspace_member");
    reveal_strlit("agent");
    reveal_strlit("integration");
    assert("worklog"@[0] != "context"@[0]);
    assert("decision"@[0] != "context"@[0]);
    assert("decision"@[0] != "worklog"@[0]);
    assert("result"@[0] != "context"@[0]);
    assert("result"@[0] != "worklog"@[0]);
    assert("result"@[0] != "decision"@[0]);
    assert("agent"@[0] != "workspace_member"@[0]);
    assert("integration"@[0] != "workspace_member"@[0]);
    assert("integration"@[0] != "agent"@[0]);
}

/// A note as read from the database.
#[derive(Debug)]
pub struct NoteRow {
    pub id: String,
    pub project_id: String,
    pub agent_session_id: Option<String>,
    pub kind: String,
    pub author_type: String,
    pub author_id: String,
    pub title: Option<String>,
    pub body_md: String,
    pub created_at: String,
    pub updated_at: String,
}

/// A note as answered.
#[derive(Debug)]
pub struct NoteResponse {
    pub id: String,
    pub project_id: String,
    pub agent_session_id: Option<String>,
    pub kind: NoteKind,
    pub author_type: AuthorType,
    pub author_id: String,
    pub title: Option<String>,
    pub body_md: String,
    pub created_at: String,
    pub updated_at: String,
}

/// Body for writing a note.
#[derive(Debug)]
pub struct CreateNotePayload {
    pub kind: NoteKind,
    pub title: Option<String>,
    pub body_md: String,
    pub agent_session_id: Option<String>,
}

impl NoteRow {
    /// The answered form of a stored note; a kind or author type the code
    /// does not know is reported.
    pub fn into_response(self) -> (r: core::result::Result<NoteResponse, String>)
        ensures
            note_kind_of(self.kind@) is None ==> (r matches Err(m) && m@ == "invalid note kind stored in db: "@
                + self.kind@),
            note_kind_of(self.kind@) is Some && author_type_of(self.author_type@) is None ==> (r matches Err(m) && m@
                == "invalid author_type stored in db: "@ + self.author_type@),
            note_kind_of(self.kind@) is Some && author_type_of(self.author_type@) is Some ==> (r matches Ok(n) && {
                &&& Some(n.kind) == note_kind_of(self.kind@)
                &&& Some(n.author_type) == author_type_of(self.author_type@)
                &&& n.id == self.id
                &&& n.project_id == self.project_id
                &&& n.agent_session_id == self.agent_session_id
                &&& n.author_id == self.author_id
                &&& n.title == self.title
                &&& n.body_md == self.body_md
                &&& n.created_at == self.created_at
                &&& n.updated_at == self.updated_at
            }),
    {
        let kind = match NoteKind::from_str(self.kind.as_str()) {
            Some(k) => k,
            None => {
                let mut m = owned("invalid note kind stored in db: ");
                m.append(self.kind.as_str());
                return Err(m);
            },
        };
        let author_type = match AuthorType::from_str(self.author_type.as_str()) {
            Some(a) => a,
            None => {
                let mut m = owned("invalid author_type stored in db: ");
                m.append(self.author_type.as_str());
                return Err(m);
            },
        };
        Ok(NoteResponse {
            id: self.id,
            project_id: self.project_id,
            agent_session_id: self.agent_session_id,
            kind,
            author_type,
            author_id: self.author_id,
            title: self.title,
            body_md: self.body_md,
            created_at: self.created_at,
            updated_at: self.updated_at,
        })
    }
}

/// The body of a note must not be blank.
pub fn validate_note(payload: &CreateNotePayload, request_id: &str) -> (r: core::result::Result<(), ApiError>)
    ensures
        is_blank(payload.body_md@) ==> fails_with(r, "validation_error"@, request_id@, "body_md must not be empty"@),
        !is_blank(payload.body_md@) ==> r is Ok,
{
    if is_blank_str(payload.body_md.as_str()) {
        return Err(ApiError::validation_error(request_id, "body_md must not be empty"));
    }
    Ok(())
}

/// Who a note is recorded as written by: an agent, or else a workspace member.
pub fn note_author_type(actor_kind: ActorKind) -> (r: AuthorType)
    ensures
        r == (if actor_kind == ActorKind::Agent { AuthorType::Agent } else { AuthorType::WorkspaceMember }),
{
    match actor_kind {
        ActorKind::Agent => AuthorType::Agent,
        _ => AuthorType::WorkspaceMember,
    }
}

} // verus!
