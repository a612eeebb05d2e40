//! Who is making a request: a human with a session, an agent with a bearer
//! credential, or nobody in particular (the system actor).
use vstd::prelude::*;

use crate::error::{fails_with, ApiError};
use crate::split::{first_index_of, split_char, split_once, split_once_str, split_str, split_trimmed_nonempty, trimmed_nonempty};
use crate::text::{opt_view, owned, str_eq, trim, trim_str, views};

verus! {

/// Name of the cookie that carries a human session token.
pub const SESSION_COOKIE_NAME: &'static str = "aw_session";

/// The kind of actor behind a request.
#[derive(Clone, Copy, Debug, PartialEq, Eq, Structural)]
pub enum ActorKind {
    Human,
    Agent,
    System,
}

/// The actor a request is made by, with what it is bound to.
#[derive(Clone, Debug)]
pub struct ActorContext {
    pub actor_kind: ActorKind,
    pub actor_id: String,
    pub workspace_id: Option<String>,
    pub project_id: Option<String>,
    pub role: Option<String>,
    pub scopes: Vec<String>,
}

/// The raw values of the headers that name an actor directly, each `None`
/// where the header is absent or not valid text.
#[derive(Debug)]
pub struct LegacyActorHeaders {
    pub actor_kind: Option<String>,
    pub actor_id: Option<String>,
    pub workspace_id: Option<String>,
    pub project_id: Option<String>,
    pub role: Option<String>,
    pub scopes: Option<String>,
}

/// Where the actor of a request is to be read from.
#[derive(Debug)]
pub enum ActorSource {
    /// A session cookie with this token.
    Session(String),
    /// A bearer credential with this token.
    Bearer(String),
    /// Neither: the actor headers.
    Headers,
}

/// An actor-kind header value, as the headers name them.
pub open spec fn kind_from_text(s: Seq<char>) -> Option<ActorKind> {
    if s == "human"@ {
        Some(ActorKind::Human)
    } else if s == "agent"@ {
        Some(ActorKind::Agent)
    } else if s == "system"@ {
        Some(ActorKind::System)
    } else {
        None
    }
}

/// A header value kept only when it is not empty.
pub open spec fn non_empty(o: Option<Seq<char>>) -> Option<Seq<char>> {
    match o {
        Some(s) => if s.len() > 0 { Some(s) } else { None },
        None => None,
    }
}

/// The value of cookie `name` in one `;`-separated part of a cookie header
/// (`name=value`, trimmed, with a non-empty value).
pub open spec fn cookie_in_part(part: Seq<char>, name: Seq<char>) -> Option<Seq<char>> {
    match split_once(trim(part), '=') {
        Some((n, value)) => if n == name && value.len() > 0 {
            Some(value)
        } else {
            None
        },
        None => None,
    }
}

/// The first part, in order, that carries cookie `name`.
pub open spec fn first_cookie(parts: Seq<Seq<char>>, name: Seq<char>) -> Option<Seq<char>>
    decreases parts.len(),
{
    if parts.len() == 0 {
        None
    } else {
        match cookie_in_part(parts[0], name) {
            Some(v) => Some(v),
            None => first_cookie(parts.drop_first(), name),
        }
    }
}

/// The value of cookie `name` in a cookie header.
pub open spec fn cookie_spec(raw: Seq<char>, name: Seq<char>) -> Option<Seq<char>> {
    first_cookie(split_char(raw, ';'), name)
}

/// The session token of a cookie header.
pub open spec fn session_cookie_spec(raw: Seq<char>) -> Option<Seq<char>> {
    cookie_spec(raw, SESSION_COOKIE_NAME@)
}

/// The token of an `Authorization: Bearer <token>` header value.
pub open spec fn bearer_token_spec(raw: Seq<char>) -> Option<Seq<char>> {
    if raw.len() > 7 && raw.take(7) == "Bearer "@ {
        Some(raw.skip(7))
    } else {
        None
    }
}

/// The scopes a stored JSON scope policy lists: the strings of a JSON array of
/// strings, `None` for any other text.
pub uninterp spec fn json_string_array(raw: Seq<char>) -> Option<Seq<Seq<char>>>;

/// The scopes granted by a stored scope policy; none where it is not an array of strings.
pub open spec fn scopes_of_policy(raw: Seq<char>) -> Seq<Seq<char>> {
    match json_string_array(raw) {
        Some(v) => v,
        None => Seq::empty(),
    }
}

/// Calls `serde_json::from_str::<Vec<String>>`, giving `None` where it fails.
#[verifier::external_body]
fn json_to_strings(raw: &str) -> (r: Option<Vec<String>>)
    ensures
        match r {
            Some(v) => json_string_array(raw@) == Some(views(v@)),
            None => json_string_array(raw@) is None,
        },
{
    match serde_json::from_str::<Vec<String>>(raw) {
        Ok(v) => Some(v),
        Err(_) => None,
    }
}

impl ActorContext {
    /// The anonymous system actor, used when a request names no one.
    pub fn system() -> (a: ActorContext)
        ensures
            a.actor_kind == ActorKind::System,
            a.actor_id@ == "anonymous"@,
            a.workspace_id is None,
            a.project_id is None,
            a.role is None,
            a.scopes@.len() == 0,
    {
        ActorContext {
            actor_kind: ActorKind::System,
            actor_id: owned("anonymous"),
            workspace_id: None,
            project_id: None,
            role: None,
            scopes: Vec::new(),
        }
    }
}

/// The request id a request carries, `missing` where it carries none.
pub fn request_id_from_header(header: Option<&str>) -> (r: String)
    ensures
        match header {
            Some(h) => r@ == h@,
            None => r@ == "missing"@,
        },
{
    match header {
        Some(h) => owned(h),
        None => owned("missing"),
    }
}

fn cookie_in_part_exec(part: &str, cookie_name: &str) -> (r: Option<String>)
    ensures
        opt_view(r) == cookie_in_part(part@, cookie_name@),
{
    let t = trim_str(part);
    match split_once_str(t, '=') {
        Some((name, value)) => {
            if str_eq(name.as_str(), cookie_name) && value.as_str().unicode_len() > 0 {
                Some(value)
            } else {
                None
            }
        },
        None => None,
    }
}

/// The session token carried by a `Cookie` header value, if any.
pub fn session_cookie(raw: &str) -> (r: Option<String>)
    ensures
        opt_view(r) == session_cookie_spec(raw@),
{
    cookie_value(raw, SESSION_COOKIE_NAME)
}

/// The value of cookie `cookie_name` carried by a `Cookie` header value, if any.
pub fn cookie_value(raw: &str, cookie_name: &str) -> (r: Option<String>)
    ensures
        opt_view(r) == cookie_spec(raw@, cookie_name@),
{
    let parts = split_str(raw, ';');
    let ghost pv = views(parts@);
    let mut i: usize = 0;
    assert(pv.skip(0) =~= pv);
    while i < parts.len()
        invariant
            i <= parts.len(),
            pv == views(parts@),
            pv == split_char(raw@, ';'),
            first_cookie(pv, cookie_name@) == first_cookie(pv.skip(i as int), cookie_name@),
        decreases parts.len() - i,
    {
        let found = cookie_in_part_exec(parts[i].as_str(), cookie_name);
        assert(pv.skip(i as int)[0] == pv[i as int]);
        assert(pv.skip(i as int).drop_first() == pv.skip(i + 1));
        if found.is_some() {
            return found;
        }
        i = i + 1;
    }
    assert(pv.skip(i as int).len() == 0);
    None
}

/// The token of an `Authorization` header value of the form `Bearer <token>`.
pub fn bearer_token(raw: &str) -> (r: Option<String>)
    ensures
        opt_view(r) == bearer_token_spec(raw@),
{
    let n = raw.unicode_len();
    if n > 7 && str_eq(raw.substring_char(0, 7), "Bearer ") {
        Some(owned(raw.substring_char(7, n)))
    } else {
        None
    }
}

/// Where to read the actor from: a session cookie wins over a bearer token,
/// and with neither the actor headers are used.
pub fn actor_source(cookie_header: Option<&str>, authorization_header: Option<&str>) -> (r: ActorSource)
    ensures
        match r {
            ActorSource::Session(t) => cookie_header matches Some(c) && session_cookie_spec(c@) == Some(t@),
            ActorSource::Bearer(t) => {
                &&& (cookie_header matches Some(c) ==> session_cookie_spec(c@) is None)
                &&& authorization_header matches Some(a) && bearer_token_spec(a@) == Some(t@)
            },
            ActorSource::Headers => (cookie_header matches Some(c) ==> session_cookie_spec(c@) is None)
                && (authorization_header matches Some(a) ==> bearer_token_spec(a@) is None),
        },
{
    if let Some(c) = cookie_header {
        if let Some(t) = session_cookie(c) {
            return ActorSource::Session(t);
        }
    }
    if let Some(a) = authorization_header {
        if let Some(t) = bearer_token(a) {
            return ActorSource::Bearer(t);
        }
    }
    ActorSource::Headers
}

fn non_empty_exec(o: &Option<String>) -> (r: Option<String>)
    ensures
        opt_view(r) == non_empty(opt_view(*o)),
{
    match o {
        Some(s) => if s.as_str().unicode_len() > 0 {
            Some(s.clone())
        } else {
            None
        },
        None => None,
    }
}

/// The actor named by the actor headers: an unknown or missing kind is the
/// system actor, a missing id is `anonymous`, empty ids and role count as
/// absent, and the scopes are the non-empty trimmed entries of a
/// comma-separated list.
pub fn actor_from_legacy_headers(h: &LegacyActorHeaders) -> (a: ActorContext)
    ensures
        a.actor_kind == (match opt_view(h.actor_kind) {
            Some(k) => match kind_from_text(k) {
                Some(kind) => kind,
                None => ActorKind::System,
            },
            None => ActorKind::System,
        }),
        a.actor_id@ == (match opt_view(h.actor_id) {
            Some(i) => i,
            None => "anonymous"@,
        }),
        opt_view(a.workspace_id) == non_empty(opt_view(h.workspace_id)),
        opt_view(a.project_id) == non_empty(opt_view(h.project_id)),
        opt_view(a.role) == non_empty(opt_view(h.role)),
        views(a.scopes@) == (match opt_view(h.scopes) {
            Some(raw) => trimmed_nonempty(split_char(raw, ',')),
            None => Seq::empty(),
        }),
{
    let actor_kind = match &h.actor_kind {
        Some(k) => {
            if str_eq(k.as_str(), "human") {
                ActorKind::Human
            } else if str_eq(k.as_str(), "agent") {
                ActorKind::Agent
            } else if str_eq(k.as_str(), "system") {
                ActorKind::System
            } else {
                ActorKind::System
            }
        },
        None => ActorKind::System,
    };
    let actor_id = match &h.actor_id {
        Some(i) => i.clone(),
        None => owned("anonymous"),
    };
    let scopes = match &h.scopes {
        Some(raw) => split_trimmed_nonempty(raw.as_str(), ','),
        None => Vec::new(),
    };
    proof {
        if h.scopes is None {
            assert(views(scopes@) =~= Seq::<Seq<char>>::empty());
        }
    }
    ActorContext {
        actor_kind,
        actor_id,
        workspace_id: non_empty_exec(&h.workspace_id),
        project_id: non_empty_exec(&h.project_id),
        role: non_empty_exec(&h.role),
        scopes,
    }
}

/// The scopes a stored scope policy grants (`[]` where it is not a JSON array of strings).
pub fn parse_scopes(raw: &str) -> (r: Vec<String>)
    ensures
        views(r@) == scopes_of_policy(raw@),
{
    match json_to_strings(raw) {
        Some(v) => v,
        None => {
            let v: Vec<String> = Vec::new();
            assert(views(v@) =~= Seq::<Seq<char>>::empty());
            v
        },
    }
}

/// A human session that the session lookup found.
#[derive(Debug)]
pub struct SessionRow {
    pub member_id: String,
    pub workspace_id: String,
    pub role: String,
}

/// An agent credential that the bearer lookup found.
#[derive(Debug)]
pub struct CredentialRow {
    pub agent_id: String,
    pub workspace_id: String,
    pub project_id: Option<String>,
    pub scope_policy: String,
}

/// The actor of a session token, given what the lookup of the token found:
/// no live session is `unauthorised`.
pub fn actor_from_session(row: Option<SessionRow>, request_id: &str) -> (r: Result<ActorContext, ApiError>)
    ensures
        match row {
            Some(s) => r matches Ok(a) && a.actor_kind == ActorKind::Human && a.actor_id@ == s.member_id@
                && opt_view(a.workspace_id) == Some(s.workspace_id@) && a.project_id is None
                && opt_view(a.role) == Some(s.role@) && a.scopes@.len() == 0,
            None => fails_with(r, "unauthorised"@, request_id@, "session is not valid"@),
        },
{
    match row {
        Some(s) => Ok(ActorContext {
            actor_kind: ActorKind::Human,
            actor_id: s.member_id,
            workspace_id: Some(s.workspace_id),
            project_id: None,
            role: Some(s.role),
            scopes: Vec::new(),
        }),
        None => Err(ApiError::unauthorised(request_id, "session is not valid")),
    }
}

/// The actor of a bearer token, given what the lookup of the token found:
/// no live credential is `unauthorised`.
pub fn actor_from_bearer(row: Option<CredentialRow>, request_id: &str) -> (r: Result<ActorContext, ApiError>)
    ensures
        match row {
            Some(c) => r matches Ok(a) && a.actor_kind == ActorKind::Agent && a.actor_id@ == c.agent_id@
                && opt_view(a.workspace_id) == Some(c.workspace_id@) && opt_view(a.project_id) == opt_view(c.project_id)
                && a.role is None && views(a.scopes@) == scopes_of_policy(c.scope_policy@),
            None => fails_with(r, "unauthorised"@, request_id@, "bearer token is not valid"@),
        },
{
    match row {
        Some(c) => {
            let scopes = parse_scopes(c.scope_policy.as_str());
            Ok(ActorContext {
                actor_kind: ActorKind::Agent,
                actor_id: c.agent_id,
                workspace_id: Some(c.workspace_id),
                project_id: c.project_id,
                role: None,
                scopes,
            })
        },
        None => Err(ApiError::unauthorised(request_id, "bearer token is not valid")),
    }
}

proof fn lemma_split_without_separator(s: Seq<char>, c: char)
    requires
        forall|i: int| 0 <= i < s.len() ==> s[i] != c,
    ensures
        split_char(s, c) == seq![s],
    decreases s.len(),
{
    if s.len() > 0 {
        let t = s.drop_last();
        lemma_split_without_separator(t, c);
        assert(t.push(s.last()) =~= s);
        assert(seq![t].update(0, t.push(s.last())) =~= seq![s]);
    } else {
        assert(s =~= Seq::<char>::empty());
    }
}

proof fn lemma_first_index_after_prefix(a: Seq<char>, b: Seq<char>, c: char)
    requires
        forall|i: int| 0 <= i < a.len() ==> a[i] != c,
        b.len() > 0,
        b[0] == c,
    ensures
        first_index_of(a + b, c) == a.len(),
{
    let s = a + b;
    crate::split::lemma_first_index_of(s, c);
    assert(s[a.len() as int] == c);
    let k = first_index_of(s, c);
    if k >= 0 && k < a.len() {
        assert(s[k] == a[k]);
    }
}

/// The session token the server issues reads back from the cookie it sets:
/// a `Cookie` header carrying `aw_session=<token>` yields exactly that token.
pub proof fn law_session_cookie_reads_back(token: Seq<char>)
    requires
        crate::ids::is_token_with("awsess_"@, token),
    ensures
        session_cookie_spec("aw_session="@ + token) == Some(token),
{
    reveal_strlit("awsess_");
    reveal_strlit("aw_session=");
    reveal_strlit("aw_session");
    let (a, b) = choose|a: Seq<char>, b: Seq<char>|
        crate::ids::is_uuid_text(a) && crate::ids::is_uuid_text(b) && token == "awsess_"@ + a + seq!['_'] + b;
    let name = "aw_session"@;
    let raw = "aw_session="@ + token;
    // no character of the token is a separator or whitespace
    assert forall|i: int| 0 <= i < token.len() implies token[i] != ';' && token[i] != '=' && !crate::text::is_ws(
        token[i],
    ) by {
        if i < 7 {
            assert(token[i] == "awsess_"@[i]);
        } else if i < 43 {
            assert(token[i] == a[i - 7]);
        } else if i == 43 {
        } else {
            assert(token[i] == b[i - 44]);
        }
    }
    assert forall|i: int| 0 <= i < raw.len() implies raw[i] != ';' by {
        if i >= 11 {
            assert(raw[i] == token[i - 11]);
        }
    }
    lemma_split_without_separator(raw, ';');
    // trimming leaves it as it is
    assert(!crate::text::is_ws(raw[0]));
    assert(crate::text::trim_start(raw) == raw);
    assert(raw.last() == token.last());
    assert(crate::text::trim_end(raw) == raw);
    // the first `=` ends the name
    assert("aw_session="@ =~= name + seq!['=']);
    assert(raw =~= name + (seq!['='] + token));
    lemma_first_index_after_prefix(name, seq!['='] + token, '=');
    assert(raw.take(10) =~= name);
    assert(raw.skip(11) =~= token);
    assert(first_cookie(seq![raw], name) == cookie_in_part(raw, name));
}

/// The token of `Authorization: Bearer <token>` is read back exactly.
pub proof fn law_bearer_token_reads_back(token: Seq<char>)
    requires
        token.len() > 0,
    ensures
        bearer_token_spec("Bearer "@ + token) == Some(token),
{
    reveal_strlit("Bearer ");
    assert(("Bearer "@ + token).take(7) =~= "Bearer "@);
    assert(("Bearer "@ + token).skip(7) =~= token);
}

} // verus!
