//! Signing humans in: development logins, GitHub OAuth, session cookies and
//! sessions, and the links between outside identities and workspace members.
use vstd::prelude::*;

use crate::actor::{cookie_spec, cookie_value, ActorContext, ActorKind, SESSION_COOKIE_NAME};
use crate::error::{fails_with, ApiError};
use crate::fmt::{decimal, decimal_string};
use crate::ids::{is_token_with, new_token};
use crate::split::{split_char, split_str};
use crate::text::{is_blank, is_blank_str, opt_view, owned, str_eq, trim, trim_str};

verus! {

/// Workspace a development login uses when it names none.
pub const DEFAULT_DEV_WORKSPACE_SLUG: &'static str = "dev-workspace";
/// Its name.
pub const DEFAULT_DEV_WORKSPACE_NAME: &'static str = "Dev Workspace";
/// Subject a development login uses when it names none.
pub const DEFAULT_DEV_SUBJECT: &'static str = "dev:owner-1";
/// Display name a development login uses when it names none.
pub const DEFAULT_DEV_DISPLAY_NAME: &'static str = "Dev Owner";
/// How long a session lasts, in days.
pub const SESSION_TTL_DAYS: u32 = 7;
/// Cookie that carries the OAuth state during a GitHub sign-in.
pub const GITHUB_OAUTH_STATE_COOKIE_NAME: &'static str = "aw_github_state";
/// How long that cookie lasts, in seconds.
pub const GITHUB_OAUTH_STATE_TTL_SECONDS: u64 = 600;
/// GitHub's authorization page.
pub const DEFAULT_GITHUB_AUTHORIZE_URL: &'static str = "https://github.com/login/oauth/authorize";
/// GitHub's token endpoint.
pub const DEFAULT_GITHUB_TOKEN_URL: &'static str = "https://github.com/login/oauth/access_token";
/// GitHub's current-user endpoint.
pub const DEFAULT_GITHUB_USER_URL: &'static str = "https://api.github.com/user";

/// Body of a development login; absent fields take the development defaults.
#[derive(Debug)]
pub struct DevLoginRequest {
    pub workspace_slug: Option<String>,
    pub workspace_name: Option<String>,
    pub external_subject: Option<String>,
    pub display_name: Option<String>,
}

/// Whether the request is signed in, and as whom.
#[derive(Debug)]
pub struct SessionResponse {
    pub authenticated: bool,
    pub actor: Option<ActorContext>,
}

/// The values a development login uses.
#[derive(Debug)]
pub struct DevLogin {
    pub workspace_slug: String,
    pub workspace_name: String,
    pub external_subject: String,
    pub display_name: String,
}

fn or_default(v: Option<String>, d: &str) -> (r: String)
    ensures
        r@ == match v {
            Some(s) => s@,
            None => d@,
        },
{
    match v {
        Some(s) => s,
        None => owned(d),
    }
}

/// The values of a development login, with the defaults for absent ones.
pub fn dev_login_values(body: DevLoginRequest) -> (r: DevLogin)
    ensures
        r.workspace_slug@ == (match body.workspace_slug {
            Some(s) => s@,
            None => DEFAULT_DEV_WORKSPACE_SLUG@,
        }),
        r.workspace_name@ == (match body.workspace_name {
            Some(s) => s@,
            None => DEFAULT_DEV_WORKSPACE_NAME@,
        }),
        r.external_subject@ == (match body.external_subject {
            Some(s) => s@,
            None => DEFAULT_DEV_SUBJECT@,
        }),
        r.display_name@ == (match body.display_name {
            Some(s) => s@,
            None => DEFAULT_DEV_DISPLAY_NAME@,
        }),
{
    DevLogin {
        workspace_slug: or_default(body.workspace_slug, DEFAULT_DEV_WORKSPACE_SLUG),
        workspace_name: or_default(body.workspace_name, DEFAULT_DEV_WORKSPACE_NAME),
        external_subject: or_default(body.external_subject, DEFAULT_DEV_SUBJECT),
        display_name: or_default(body.display_name, DEFAULT_DEV_DISPLAY_NAME),
    }
}

/// Only `a-z`, `0-9` and `-`.
pub open spec fn slug_chars_only(s: Seq<char>) -> bool {
    forall|i: int| 0 <= i < s.len() ==> crate::text::is_slug_char(#[trigger] s[i])
}

/// Checks a development login: a non-empty slug of `a-z`, `0-9` and `-`,
/// and a subject and display name that are not blank.
pub fn validate_dev_input(
    workspace_slug: &str,
    external_subject: &str,
    display_name: &str,
    request_id: &str,
) -> (r: Result<(), ApiError>)
    ensures
        workspace_slug@.len() == 0 || !slug_chars_only(workspace_slug@) ==> fails_with(
            r,
            "validation_error"@,
            request_id@,
            "workspace_slug must be lowercase kebab-case"@,
        ),
        workspace_slug@.len() > 0 && slug_chars_only(workspace_slug@) && (is_blank(external_subject@) || is_blank(
            display_name@,
        )) ==> fails_with(r, "validation_error"@, request_id@, "external_subject and display_name must not be empty"@),
        workspace_slug@.len() > 0 && slug_chars_only(workspace_slug@) && !is_blank(external_subject@) && !is_blank(
            display_name@,
        ) ==> r is Ok,
{
    let n = workspace_slug.unicode_len();
    let mut ok = n > 0;
    let mut i: usize = 0;
    while i < n
        invariant
            n == workspace_slug@.len(),
            i <= n,
            ok == (n > 0 && forall|k: int| 0 <= k < i ==> crate::text::is_slug_char(#[trigger] workspace_slug@[k])),
        decreases n - i,
    {
        let c = workspace_slug.get_char(i);
        if !(('a' <= c && c <= 'z') || ('0' <= c && c <= '9') || c == '-') {
            ok = false;
        }
        i = i + 1;
    }
    if !ok {
        return Err(ApiError::validation_error(request_id, "workspace_slug must be lowercase kebab-case"));
    }
    if is_blank_str(external_subject) || is_blank_str(display_name) {
        return Err(ApiError::validation_error(request_id, "external_subject and display_name must not be empty"));
    }
    Ok(())
}

/// The session answer for an actor: signed in unless it is the system actor.
pub fn session_response(actor: ActorContext) -> (r: SessionResponse)
    ensures
        r.authenticated == (actor.actor_kind != ActorKind::System),
        r.authenticated ==> r.actor == Some(actor),
        !r.authenticated ==> r.actor is None,
{
    let authenticated = actor.actor_kind != ActorKind::System;
    if authenticated {
        SessionResponse { authenticated, actor: Some(actor) }
    } else {
        SessionResponse { authenticated, actor: None }
    }
}

/// The session answer after a logout.
pub fn logged_out_response() -> (r: SessionResponse)
    ensures
        !r.authenticated,
        r.actor is None,
{
    SessionResponse { authenticated: false, actor: None }
}

/// The actor of a newly signed-in member, given what the member lookup
/// found (its workspace and role while it is active).
pub fn actor_for_member(member_id: &str, found: Option<(String, String)>, request_id: &str) -> (r: Result<ActorContext, ApiError>)
    ensures
        found is None ==> fails_with(r, "unauthorised"@, request_id@, "workspace member is not active"@),
        found matches Some((w, role)) ==> (r matches Ok(a) && {
            &&& a.actor_kind == ActorKind::Human
            &&& a.actor_id@ == member_id@
            &&& opt_view(a.workspace_id) == Some(w@)
            &&& a.project_id is None
            &&& opt_view(a.role) == Some(role@)
            &&& a.scopes@.len() == 0
        }),
{
    match found {
        Some((w, role)) => Ok(ActorContext {
            actor_kind: ActorKind::Human,
            actor_id: owned(member_id),
            workspace_id: Some(w),
            project_id: None,
            role: Some(role),
            scopes: Vec::new(),
        }),
        None => Err(ApiError::unauthorised(request_id, "workspace member is not active")),
    }
}

// ---------------------------------------------------------------------------
// Cookies
// ---------------------------------------------------------------------------

/// Whether cookies are marked `Secure`, from the value of `SESSION_COOKIE_SECURE`:
/// always, unless it is set to `false`.
pub fn secure_cookie_attr(setting: Option<&str>) -> (r: &'static str)
    ensures
        r@ == (if setting matches Some(v) && v@ == "false"@ { ""@ } else { "; Secure"@ }),
{
    match setting {
        Some(v) => if str_eq(v, "false") {
            ""
        } else {
            "; Secure"
        },
        None => "; Secure",
    }
}

/// A cookie set for the whole site, readable only over HTTP, with the given lifetime.
pub open spec fn cookie_text(name: Seq<char>, value: Seq<char>, max_age: nat, secure_attr: Seq<char>) -> Seq<char> {
    name + "="@ + value + "; Path=/; Max-Age="@ + decimal(max_age) + "; HttpOnly; SameSite=Lax"@ + secure_attr
}

fn cookie(name: &str, value: &str, max_age: u64, secure_attr: &str) -> (r: String)
    ensures
        r@ == cookie_text(name@, value@, max_age as nat, secure_attr@),
{
    let mut c = owned(name);
    c.append("=");
    c.append(value);
    c.append("; Path=/; Max-Age=");
    c.append(decimal_string(max_age).as_str());
    c.append("; HttpOnly; SameSite=Lax");
    c.append(secure_attr);
    c
}

/// The cookie that carries a session token for the session's lifetime (seven days).
pub fn session_cookie(token: &str, secure_attr: &str) -> (r: String)
    ensures
        r@ == cookie_text(SESSION_COOKIE_NAME@, token@, 604800, secure_attr@),
{
    cookie(SESSION_COOKIE_NAME, token, 604800, secure_attr)
}

/// The cookie that carries the OAuth state for ten minutes.
pub fn state_cookie(state: &str, secure_attr: &str) -> (r: String)
    ensures
        r@ == cookie_text(GITHUB_OAUTH_STATE_COOKIE_NAME@, state@, 600, secure_attr@),
{
    cookie(GITHUB_OAUTH_STATE_COOKIE_NAME, state, GITHUB_OAUTH_STATE_TTL_SECONDS, secure_attr)
}

/// A cookie that clears `name` at once.
pub fn expired_cookie(name: &str, secure_attr: &str) -> (r: String)
    ensures
        r@ == cookie_text(name@, ""@, 0, secure_attr@),
{
    cookie(name, "", 0, secure_attr)
}

/// The OAuth state carried by a `Cookie` header value, if any.
pub fn oauth_state_cookie(raw: &str) -> (r: Option<String>)
    ensures
        opt_view(r) == cookie_spec(raw@, GITHUB_OAUTH_STATE_COOKIE_NAME@),
{
    cookie_value(raw, GITHUB_OAUTH_STATE_COOKIE_NAME)
}

// ---------------------------------------------------------------------------
// Sessions
// ---------------------------------------------------------------------------

/// A fresh session token.
pub fn new_session_token() -> (r: String)
    ensures
        is_token_with("awsess_"@, r@),
{
    new_token("awsess_")
}

/// A fresh OAuth state.
pub fn new_oauth_state() -> (r: String)
    ensures
        is_token_with("gho_"@, r@),
{
    new_token("gho_")
}

/// The client address a session records: the first entry of
/// `X-Forwarded-For`, trimmed, if not empty.
pub open spec fn client_ip_spec(forwarded_for: Option<Seq<char>>) -> Option<Seq<char>> {
    match forwarded_for {
        Some(raw) => {
            let first = trim(split_char(raw, ',')[0]);
            if first.len() > 0 {
                Some(first)
            } else {
                None
            }
        },
        None => None,
    }
}

pub fn client_ip(forwarded_for: Option<&str>) -> (r: Option<String>)
    ensures
        opt_view(r) == client_ip_spec(match forwarded_for {
            Some(f) => Some(f@),
            None => None,
        }),
{
    match forwarded_for {
        Some(raw) => {
            let parts = split_str(raw, ',');
            proof {
                crate::split::lemma_split_char_nonempty(raw@, ',');
                assert(parts@.map_values(|p: String| p@)[0] == parts@[0]@);
            }
            let first = trim_str(parts[0].as_str());
            if first.unicode_len() > 0 {
                Some(owned(first))
            } else {
                None
            }
        },
        None => None,
    }
}

// ---------------------------------------------------------------------------
// Identities
// ---------------------------------------------------------------------------

/// What linking an outside identity to a member does.
#[derive(Clone, Copy, Debug, PartialEq, Eq, Structural)]
pub enum IdentityLink {
    /// The identity is new: record it for the member.
    Insert,
    /// The identity is the member's already: refresh its display name.
    Refresh,
}

/// Links an identity to a member, given the member it is linked to already
/// (if any): an identity belongs to one member only.
pub fn identity_link(existing_member_id: Option<&str>, member_id: &str, request_id: &str) -> (r: Result<IdentityLink, ApiError>)
    ensures
        existing_member_id is None ==> r == Ok::<IdentityLink, ApiError>(IdentityLink::Insert),
        existing_member_id matches Some(m) && m@ == member_id@ ==> r == Ok::<IdentityLink, ApiError>(IdentityLink::Refresh),
        existing_member_id matches Some(m) && m@ != member_id@ ==> fails_with(
            r,
            "forbidden"@,
            request_id@,
            "human identity is already linked to another workspace member"@,
        ),
{
    match existing_member_id {
        None => Ok(IdentityLink::Insert),
        Some(m) => if str_eq(m, member_id) {
            Ok(IdentityLink::Refresh)
        } else {
            Err(ApiError::forbidden(request_id, "human identity is already linked to another workspace member"))
        },
    }
}

/// Who a GitHub user is to this service.
#[derive(Debug)]
pub struct GithubProfile {
    pub provider_subject: String,
    pub login: String,
    pub display_name: String,
}

/// The profile of a GitHub user: the subject is `github:user:<id>`, and the
/// display name is the user's name, else the login.
pub fn github_profile(id: u64, login: String, name: Option<String>) -> (r: GithubProfile)
    ensures
        r.provider_subject@ == "github:user:"@ + decimal(id as nat),
        r.login@ == login@,
        r.display_name@ == (match name {
            Some(n) => n@,
            None => login@,
        }),
{
    let mut subject = owned("github:user:");
    subject.append(decimal_string(id).as_str());
    let display_name = match name {
        Some(n) => n,
        None => login.clone(),
    };
    GithubProfile { provider_subject: subject, login, display_name }
}

/// The lowercase form of a character under Unicode's lowercase mapping.
pub uninterp spec fn char_lowercase(c: char) -> Seq<char>;

/// Calls `char::to_lowercase`, collecting the characters it yields.
#[verifier::external_body]
fn char_to_lowercase(c: char) -> (r: Vec<char>)
    ensures
        r@ == char_lowercase(c),
{
    c.to_lowercase().collect()
}

/// The lowercased characters of `s` that are `a-z`, `0-9` or `-`, in order.
pub open spec fn slug_letters(s: Seq<char>) -> Seq<char>
    decreases s.len(),
{
    if s.len() == 0 {
        Seq::empty()
    } else {
        slug_letters(s.drop_last()) + char_lowercase(s.last()).filter(|c: char| crate::text::is_slug_char(c))
    }
}

/// `s` without leading and trailing `-`.
pub open spec fn trim_dashes(s: Seq<char>) -> Seq<char>
    decreases s.len(),
{
    if s.len() > 0 && s[0] == '-' {
        trim_dashes(s.drop_first())
    } else if s.len() > 0 && s.last() == '-' {
        trim_dashes(s.drop_last())
    } else {
        s
    }
}

/// The text after the last `:` (all of it where there is none).
pub open spec fn last_segment(s: Seq<char>) -> Seq<char> {
    let parts = split_char(s, ':');
    parts[parts.len() - 1]
}

/// The workspace created for a first-time GitHub user:
/// `github-<login>-<id>`, with the login reduced to lowercase slug
/// characters (`user` if nothing is left) and the id the last part of the subject.
pub open spec fn github_workspace_slug_spec(login: Seq<char>, provider_subject: Seq<char>) -> Seq<char> {
    let l = trim_dashes(slug_letters(login));
    let name = if l.len() == 0 { "user"@ } else { l };
    let last = last_segment(provider_subject);
    let suffix = if last.len() == 0 { "github"@ } else { last };
    "github-"@ + name + "-"@ + suffix
}

fn slug_letters_exec(s: &str) -> (r: Vec<char>)
    ensures
        r@ == slug_letters(s@),
{
    let n = s.unicode_len();
    let mut out: Vec<char> = Vec::new();
    let mut i: usize = 0;
    assert(s@.take(0) =~= Seq::<char>::empty());
    while i < n
        invariant
            n == s@.len(),
            i <= n,
            out@ == slug_letters(s@.take(i as int)),
        decreases n - i,
    {
        let lower = char_to_lowercase(s.get_char(i));
        let ghost before = out@;
        let mut j: usize = 0;
        assert(lower@.take(0) =~= Seq::<char>::empty());
        assert(lower@.take(0).filter(|c: char| crate::text::is_slug_char(c)) =~= Seq::<char>::empty());
        while j < lower.len()
            invariant
                j <= lower.len(),
                out@ == before + lower@.take(j as int).filter(|c: char| crate::text::is_slug_char(c)),
            decreases lower.len() - j,
        {
            let c = lower[j];
            assert(lower@.take(j + 1).drop_last() == lower@.take(j as int));
            reveal(Seq::filter);
            if ('a' <= c && c <= 'z') || ('0' <= c && c <= '9') || c == '-' {
                out.push(c);
            }
            j = j + 1;
        }
        assert(lower@.take(lower.len() as int) == lower@);
        assert(s@.take(i + 1).drop_last() == s@.take(i as int));
        i = i + 1;
    }
    assert(s@.take(n as int) == s@);
    out
}

fn trim_dashes_exec(v: &Vec<char>) -> (r: Vec<char>)
    ensures
        r@ == trim_dashes(v@),
{
    let mut a: usize = 0;
    let mut b: usize = v.len();
    assert(v@.subrange(0, v@.len() as int) == v@);
    while a < b && (v[a] == '-' || v[b - 1] == '-')
        invariant
            a <= b <= v.len(),
            trim_dashes(v@) == trim_dashes(v@.subrange(a as int, b as int)),
        decreases b - a,
    {
        let ghost cur = v@.subrange(a as int, b as int);
        if v[a] == '-' {
            assert(cur.drop_first() == v@.subrange(a + 1, b as int));
            a = a + 1;
        } else {
            assert(cur.drop_last() == v@.subrange(a as int, b - 1));
            b = b - 1;
        }
    }
    let mut out: Vec<char> = Vec::new();
    let mut k: usize = a;
    while k < b
        invariant
            a <= k <= b <= v.len(),
            out@ == v@.subrange(a as int, k as int),
        decreases b - k,
    {
        out.push(v[k]);
        k = k + 1;
    }
    out
}

fn chars_to_string(v: &Vec<char>) -> (r: String)
    ensures
        r@ == v@,
{
    let mut s = String::new();
    let mut i: usize = 0;
    while i < v.len()
        invariant
            i <= v.len(),
            s@ == v@.take(i as int),
        decreases v.len() - i,
    {
        let c = v[i];
        let piece = char_text(c);
        s.append(piece.as_str());
        assert(v@.take(i + 1) == v@.take(i as int).push(c));
        i = i + 1;
    }
    assert(v@.take(v.len() as int) == v@);
    s
}

/// Calls `char::to_string`: the one-character text of `c`.
#[verifier::external_body]
fn char_text(c: char) -> (r: String)
    ensures
        r@ == seq![c],
{
    c.to_string()
}

/// The slug of the workspace created for a first-time GitHub user.
pub fn github_workspace_slug(login: &str, provider_subject: &str) -> (r: String)
    ensures
        r@ == github_workspace_slug_spec(login@, provider_subject@),
{
    let letters = slug_letters_exec(login);
    let trimmed = trim_dashes_exec(&letters);
    let name = if trimmed.len() == 0 {
        owned("user")
    } else {
        chars_to_string(&trimmed)
    };
    let parts = split_str(provider_subject, ':');
    proof {
        crate::split::lemma_split_char_nonempty(provider_subject@, ':');
    }
    let ghost pv = parts@.map_values(|p: String| p@);
    let last = &parts[parts.len() - 1];
    assert(pv[pv.len() - 1] == last@);
    let suffix = if last.as_str().unicode_len() == 0 {
        owned("github")
    } else {
        last.clone()
    };
    let mut slug = owned("github-");
    slug.append(name.as_str());
    slug.append("-");
    slug.append(suffix.as_str());
    slug
}

/// The name of the workspace created for a first-time GitHub user.
pub fn github_workspace_name(display_name: &str) -> (r: String)
    ensures
        r@ == display_name@ + " Workspace"@,
{
    let mut n = owned(display_name);
    n.append(" Workspace");
    n
}

// ---------------------------------------------------------------------------
// GitHub OAuth settings
// ---------------------------------------------------------------------------

/// How to reach GitHub for sign-in.
#[derive(Debug)]
pub struct GithubOAuthConfig {
    pub client_id: String,
    pub client_secret: String,
    pub redirect_uri: String,
    pub success_redirect_path: String,
    pub authorize_url: String,
    pub token_url: String,
    pub user_url: String,
}

/// The raw settings, each `None` where unset.
#[derive(Debug)]
pub struct GithubOAuthSettings {
    pub client_id: Option<String>,
    pub client_secret: Option<String>,
    pub redirect_uri: Option<String>,
    pub success_redirect_path: Option<String>,
    pub authorize_url: Option<String>,
    pub token_url: Option<String>,
    pub user_url: Option<String>,
}

fn required(v: Option<String>, name: &str, request_id: &str) -> (r: Result<String, ApiError>)
    ensures
        v matches Some(s) ==> (r matches Ok(t) && t@ == s@),
        v is None ==> fails_with(r, "internal_error"@, request_id@, "missing required env var "@ + name@),
{
    match v {
        Some(s) => Ok(s),
        None => {
            let mut m = owned("missing required env var ");
            m.append(name);
            Err(ApiError::internal(request_id, m.as_str()))
        },
    }
}

impl GithubOAuthConfig {
    /// The sign-in settings: client id, client secret and redirect URI are
    /// required (in that order); the success path defaults to `/` and the
    /// GitHub endpoints to GitHub's own.
    pub fn from_settings(s: GithubOAuthSettings, request_id: &str) -> (r: Result<GithubOAuthConfig, ApiError>)
        ensures
            s.client_id is None ==> fails_with(r, "internal_error"@, request_id@, "missing required env var GITHUB_CLIENT_ID"@),
            s.client_id is Some && s.client_secret is None ==> fails_with(
                r,
                "internal_error"@,
                request_id@,
                "missing required env var GITHUB_CLIENT_SECRET"@,
            ),
            s.client_id is Some && s.client_secret is Some && s.redirect_uri is None ==> fails_with(
                r,
                "internal_error"@,
                request_id@,
                "missing required env var GITHUB_OAUTH_REDIRECT_URI"@,
            ),
            s.client_id is Some && s.client_secret is Some && s.redirect_uri is Some ==> (r matches Ok(c) && {
                &&& c.client_id@ == s.client_id->0@
                &&& c.client_secret@ == s.client_secret->0@
                &&& c.redirect_uri@ == s.redirect_uri->0@
                &&& c.success_redirect_path@ == (match s.success_redirect_path {
                    Some(p) => p@,
                    None => "/"@,
                })
                &&& c.authorize_url@ == (match s.authorize_url {
                    Some(p) => p@,
                    None => DEFAULT_GITHUB_AUTHORIZE_URL@,
                })
                &&& c.token_url@ == (match s.token_url {
                    Some(p) => p@,
                    None => DEFAULT_GITHUB_TOKEN_URL@,
                })
                &&& c.user_url@ == (match s.user_url {
                    Some(p) => p@,
                    None => DEFAULT_GITHUB_USER_URL@,
                })
            }),
    {
        proof {
            reveal_strlit("missing required env var ");
            reveal_strlit("GITHUB_CLIENT_ID");
            reveal_strlit("GITHUB_CLIENT_SECRET");
            reveal_strlit("GITHUB_OAUTH_REDIRECT_URI");
            reveal_strlit("missing required env var GITHUB_CLIENT_ID");
            reveal_strlit("missing required env var GITHUB_CLIENT_SECRET");
            reveal_strlit("missing required env var GITHUB_OAUTH_REDIRECT_URI");
            assert(("missing required env var "@ + "GITHUB_CLIENT_ID"@) =~= "missing required env var GITHUB_CLIENT_ID"@);
            assert(("missing required env var "@ + "GITHUB_CLIENT_SECRET"@)
                =~= "missing required env var GITHUB_CLIENT_SECRET"@);
            assert(("missing required env var "@ + "GITHUB_OAUTH_REDIRECT_URI"@)
                =~= "missing required env var GITHUB_OAUTH_REDIRECT_URI"@);
        }
        let client_id = required(s.client_id, "GITHUB_CLIENT_ID", request_id)?;
        let client_secret = required(s.client_secret, "GITHUB_CLIENT_SECRET", request_id)?;
        let redirect_uri = required(s.redirect_uri, "GITHUB_OAUTH_REDIRECT_URI", request_id)?;
        Ok(GithubOAuthConfig {
            client_id,
            client_secret,
            redirect_uri,
            success_redirect_path: or_default(s.success_redirect_path, "/"),
            authorize_url: or_default(s.authorize_url, DEFAULT_GITHUB_AUTHORIZE_URL),
            token_url: or_default(s.token_url, DEFAULT_GITHUB_TOKEN_URL),
            user_url: or_default(s.user_url, DEFAULT_GITHUB_USER_URL),
        })
    }
}

/// The URL `base` with the query pairs appended, as `url::Url::parse_with_params`
/// builds it, or `None` where `base` is not an absolute URL.
pub uninterp spec fn url_with_query(base: Seq<char>, pairs: Seq<(Seq<char>, Seq<char>)>) -> Option<Seq<char>>;

/// Calls `reqwest::Url::parse_with_params` and writes the URL out; where the
/// base is refused, the parse error's text.  Nothing is claimed of that text.
#[verifier::external_body]
fn parse_with_params(base: &str, pairs: &Vec<(String, String)>) -> (r: Result<String, String>)
    ensures
        match r {
            Ok(u) => url_with_query(base@, pairs@.map_values(|p: (String, String)| (p.0@, p.1@))) == Some(u@),
            Err(_) => url_with_query(base@, pairs@.map_values(|p: (String, String)| (p.0@, p.1@))) is None,
        },
{
    match reqwest::Url::parse_with_params(base, pairs.iter()) {
        Ok(u) => Ok(u.to_string()),
        Err(e) => Err(e.to_string()),
    }
}

/// The query a GitHub sign-in starts with.
pub open spec fn authorize_pairs(cfg: GithubOAuthConfig, state: Seq<char>) -> Seq<(Seq<char>, Seq<char>)> {
    seq![
        ("client_id"@, cfg.client_id@),
        ("redirect_uri"@, cfg.redirect_uri@),
        ("state"@, state),
        ("scope"@, "read:user"@),
    ]
}

/// Where to send a user to sign in with GitHub: the authorize page with the
/// client id, redirect URI, state and the `read:user` scope.
pub fn github_authorize_url(cfg: &GithubOAuthConfig, state: &str, request_id: &str) -> (r: Result<String, ApiError>)
    ensures
        match url_with_query(cfg.authorize_url@, authorize_pairs(*cfg, state@)) {
            Some(u) => r matches Ok(t) && t@ == u,
            None => r matches Err(e) && e.error_code@ == "internal_error"@ && e.request_id@ == request_id@,
        },
{
    let pairs = vec![
        (owned("client_id"), cfg.client_id.clone()),
        (owned("redirect_uri"), cfg.redirect_uri.clone()),
        (owned("state"), owned(state)),
        (owned("scope"), owned("read:user")),
    ];
    assert(pairs@.map_values(|p: (String, String)| (p.0@, p.1@)) =~= authorize_pairs(*cfg, state@));
    match parse_with_params(cfg.authorize_url.as_str(), &pairs) {
        Ok(u) => Ok(u),
        Err(e) => {
            let mut m = owned("failed to build GitHub OAuth URL: ");
            m.append(e.as_str());
            Err(ApiError::internal(request_id, m.as_str()))
        },
    }
}

/// Checks the return from GitHub: a code and a state must be present, and
/// the state must be the one in the state cookie.
pub fn check_oauth_callback(
    code: Option<String>,
    state: Option<String>,
    expected_state: Option<String>,
    request_id: &str,
) -> (r: Result<String, ApiError>)
    ensures
        code is None ==> fails_with(r, "validation_error"@, request_id@, "missing GitHub OAuth code"@),
        code is Some && state is None ==> fails_with(r, "validation_error"@, request_id@, "missing GitHub OAuth state"@),
        code is Some && state is Some && expected_state is None ==> fails_with(
            r,
            "unauthorised"@,
            request_id@,
            "missing GitHub OAuth state cookie"@,
        ),
        code is Some && state is Some && expected_state is Some && state->0@ != expected_state->0@ ==> fails_with(
            r,
            "unauthorised"@,
            request_id@,
            "GitHub OAuth state did not match"@,
        ),
        code is Some && state is Some && expected_state is Some && state->0@ == expected_state->0@ ==> (r matches Ok(c)
            && c@ == code->0@),
{
    let code = match code {
        Some(c) => c,
        None => {
            return Err(ApiError::validation_error(request_id, "missing GitHub OAuth code"));
        },
    };
    let returned = match state {
        Some(s) => s,
        None => {
            return Err(ApiError::validation_error(request_id, "missing GitHub OAuth state"));
        },
    };
    let expected = match expected_state {
        Some(s) => s,
        None => {
            return Err(ApiError::unauthorised(request_id, "missing GitHub OAuth state cookie"));
        },
    };
    if returned != expected {
        return Err(ApiError::unauthorised(request_id, "GitHub OAuth state did not match"));
    }
    Ok(code)
}

} // verus!
