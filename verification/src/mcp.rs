//! The tool bridge that lets IDE and command-line agents use the API: its
//! settings, how a tool call names its workspace and project, and the paths
//! and queries it sends.
use vstd::prelude::*;

use crate::fmt::{decimal, decimal_string, i64_string, signed_padded};
use crate::text::{is_blank, is_blank_str, opt_view, owned, str_eq};

verus! {

/// Where the API is when no address is configured.
pub const DEFAULT_API_BASE_URL: &'static str = "http://localhost:8080";

/// How the bridge reaches the API.
#[derive(Debug)]
pub struct ApiSettings {
    pub base_url: String,
    pub token: String,
}

/// `s` without trailing `/`.
pub open spec fn trim_end_slashes(s: Seq<char>) -> Seq<char>
    decreases s.len(),
{
    if s.len() > 0 && s.last() == '/' {
        trim_end_slashes(s.drop_last())
    } else {
        s
    }
}

fn trim_end_slashes_exec(s: &str) -> (r: String)
    ensures
        r@ == trim_end_slashes(s@),
{
    let n = s.unicode_len();
    let mut j: usize = n;
    assert(s@.subrange(0, n as int) == s@);
    while j > 0 && s.get_char(j - 1) == '/'
        invariant
            n == s@.len(),
            j <= n,
            trim_end_slashes(s@) == trim_end_slashes(s@.subrange(0, j as int)),
        decreases j,
    {
        assert(s@.subrange(0, j as int).drop_last() == s@.subrange(0, j - 1));
        j = j - 1;
    }
    owned(s.substring_char(0, j))
}

impl ApiSettings {
    /// The settings from the values of `AGENT_WORKSPACE_API_URL` and
    /// `AGENT_WORKSPACE_AGENT_TOKEN` (each `None` where unset): the address
    /// defaults to a local API and loses trailing slashes; the token is
    /// required and must not be blank.
    pub fn from_values(base_url: Option<String>, token: Option<String>) -> (r: Result<ApiSettings, String>)
        ensures
            token is None ==> (r matches Err(m) && m@ == "AGENT_WORKSPACE_AGENT_TOKEN is required"@),
            token matches Some(t) && is_blank(t@) ==> (r matches Err(m) && m@
                == "AGENT_WORKSPACE_AGENT_TOKEN must not be empty"@),
            token matches Some(t) && !is_blank(t@) ==> (r matches Ok(s) && {
                &&& s.token@ == token->0@
                &&& s.base_url@ == trim_end_slashes(
                    match base_url {
                        Some(b) => b@,
                        None => DEFAULT_API_BASE_URL@,
                    },
                )
            }),
    {
        let base = match &base_url {
            Some(b) => b.clone(),
            None => owned(DEFAULT_API_BASE_URL),
        };
        let token = match token {
            Some(t) => t,
            None => {
                return Err(owned("AGENT_WORKSPACE_AGENT_TOKEN is required"));
            },
        };
        if is_blank_str(token.as_str()) {
            return Err(owned("AGENT_WORKSPACE_AGENT_TOKEN must not be empty"));
        }
        Ok(ApiSettings { base_url: trim_end_slashes_exec(base.as_str()), token })
    }

    /// The full address of an API path.
    pub fn url(&self, path: &str) -> (r: String)
        ensures
            r@ == self.base_url@ + path@,
    {
        let mut u = self.base_url.clone();
        u.append(path);
        u
    }
}

/// A tool argument that is missing: the message and the argument's name.
#[derive(Debug)]
pub struct ParamError {
    pub message: String,
    pub missing: String,
}

/// The value a tool call uses: the one given, else the configured default;
/// a blank value counts as missing.
pub open spec fn resolved_value(value: Option<Seq<char>>, default: Option<Seq<char>>) -> Option<Seq<char>> {
    let v = match value {
        Some(x) => Some(x),
        None => default,
    };
    match v {
        Some(x) => if is_blank(x) {
            None
        } else {
            Some(x)
        },
        None => None,
    }
}

fn view_of(o: Option<&str>) -> (r: Ghost<Option<Seq<char>>>)
    ensures
        r@ == match o {
            Some(s) => Some(s@),
            None => None::<Seq<char>>,
        },
{
    Ghost(
        match o {
            Some(s) => Some(s@),
            None => None,
        },
    )
}

/// Resolves a tool argument against its configured default.
pub fn resolve_value(value: Option<&str>, default: Option<&str>, name: &str) -> (r: Result<String, ParamError>)
    ensures
        ({
            let v = match value {
                Some(s) => Some(s@),
                None => None::<Seq<char>>,
            };
            let d = match default {
                Some(s) => Some(s@),
                None => None::<Seq<char>>,
            };
            match resolved_value(v, d) {
                Some(x) => r matches Ok(s) && s@ == x,
                None => r matches Err(e) && e.message@ == name@ + " is required when no environment default is configured"@
                    && e.missing@ == name@,
            }
        }),
{
    let chosen = match value {
        Some(v) => Some(v),
        None => default,
    };
    match chosen {
        Some(v) => {
            if !is_blank_str(v) {
                return Ok(owned(v));
            }
        },
        None => {},
    }
    let mut message = owned(name);
    message.append(" is required when no environment default is configured");
    Err(ParamError { message, missing: owned(name) })
}

/// The workspace and project a tool call falls back to.
#[derive(Debug)]
pub struct BridgeDefaults {
    pub workspace_slug: Option<String>,
    pub project_slug: Option<String>,
}

impl BridgeDefaults {
    /// The API path of something in a workspace.
    pub fn workspace_path(&self, workspace_slug: Option<&str>, suffix: &str) -> (r: Result<String, ParamError>)
        ensures
            ({
                let w = resolved_value(
                    match workspace_slug {
                        Some(s) => Some(s@),
                        None => None::<Seq<char>>,
                    },
                    opt_view(self.workspace_slug),
                );
                match w {
                    Some(ws) => r matches Ok(p) && p@ == "/api/v1/workspaces/"@ + ws + suffix@,
                    None => r matches Err(e) && e.missing@ == "workspace_slug"@,
                }
            }),
    {
        let ws = resolve_value(workspace_slug, opt_str(&self.workspace_slug), "workspace_slug")?;
        let mut p = owned("/api/v1/workspaces/");
        p.append(ws.as_str());
        p.append(suffix);
        Ok(p)
    }

    /// The API path of something in a project.
    pub fn project_path(&self, workspace_slug: Option<&str>, project_slug: Option<&str>, suffix: &str) -> (r: Result<
        String,
        ParamError,
    >)
        ensures
            ({
                let w = resolved_value(
                    match workspace_slug {
                        Some(s) => Some(s@),
                        None => None::<Seq<char>>,
                    },
                    opt_view(self.workspace_slug),
                );
                let p = resolved_value(
                    match project_slug {
                        Some(s) => Some(s@),
                        None => None::<Seq<char>>,
                    },
                    opt_view(self.project_slug),
                );
                match (w, p) {
                    (Some(ws), Some(ps)) => r matches Ok(path) && path@ == "/api/v1/workspaces/"@ + ws + "/projects/"@ + ps
                        + suffix@,
                    (None, _) => r matches Err(e) && e.missing@ == "workspace_slug"@,
                    (Some(_), None) => r matches Err(e) && e.missing@ == "project_slug"@,
                }
            }),
    {
        let ws = resolve_value(workspace_slug, opt_str(&self.workspace_slug), "workspace_slug")?;
        let ps = resolve_value(project_slug, opt_str(&self.project_slug), "project_slug")?;
        let mut p = owned("/api/v1/workspaces/");
        p.append(ws.as_str());
        p.append("/projects/");
        p.append(ps.as_str());
        p.append(suffix);
        Ok(p)
    }
}

fn opt_str(o: &Option<String>) -> (r: Option<&str>)
    ensures
        match r {
            Some(s) => o matches Some(t) && s@ == t@,
            None => o is None,
        },
{
    match o {
        Some(s) => Some(s.as_str()),
        None => None,
    }
}

/// One query pair, when its value is given.
pub open spec fn query_part(name: Seq<char>, value: Option<Seq<char>>) -> Seq<(Seq<char>, Seq<char>)> {
    match value {
        Some(v) => seq![(name, v)],
        None => Seq::empty(),
    }
}

/// The query of a task list call: status, group, assignee and limit, each when given.
pub fn task_list_query(
    status: Option<String>,
    group_id: Option<String>,
    assignee_id: Option<String>,
    limit: Option<i64>,
) -> (r: Vec<(String, String)>)
    ensures
        r@.map_values(|p: (String, String)| (p.0@, p.1@)) == query_part("status"@, opt_view(status)) + query_part(
            "group_id"@,
            opt_view(group_id),
        ) + query_part("assignee_id"@, opt_view(assignee_id)) + query_part(
            "limit"@,
            match limit {
                Some(l) => Some(signed_padded(l as int, 0)),
                None => None,
            },
        ),
{
    let ghost gs = query_part("status"@, opt_view(status));
    let ghost gg = query_part("group_id"@, opt_view(group_id));
    let ghost ga = query_part("assignee_id"@, opt_view(assignee_id));
    let ghost gl = query_part(
        "limit"@,
        match limit {
            Some(l) => Some(signed_padded(l as int, 0)),
            None => None,
        },
    );
    let mut q: Vec<(String, String)> = Vec::new();
    assert(q@.map_values(|p: (String, String)| (p.0@, p.1@)) =~= Seq::<(Seq<char>, Seq<char>)>::empty());
    if let Some(s) = status {
        q.push((owned("status"), s));
    }
    assert(q@.map_values(|p: (String, String)| (p.0@, p.1@)) =~= gs);
    if let Some(g) = group_id {
        q.push((owned("group_id"), g));
    }
    assert(q@.map_values(|p: (String, String)| (p.0@, p.1@)) =~= gs + gg);
    if let Some(a) = assignee_id {
        q.push((owned("assignee_id"), a));
    }
    assert(q@.map_values(|p: (String, String)| (p.0@, p.1@)) =~= gs + gg + ga);
    if let Some(l) = limit {
        q.push((owned("limit"), i64_string(l)));
    }
    assert(q@.map_values(|p: (String, String)| (p.0@, p.1@)) =~= gs + gg + ga + gl);
    q
}

/// The query of an activity call: page and page size, each when given.
pub fn activity_query(page: Option<u32>, per_page: Option<u32>) -> (r: Vec<(String, String)>)
    ensures
        r@.map_values(|p: (String, String)| (p.0@, p.1@)) == query_part(
            "page"@,
            match page {
                Some(n) => Some(decimal(n as nat)),
                None => None,
            },
        ) + query_part(
            "per_page"@,
            match per_page {
                Some(n) => Some(decimal(n as nat)),
                None => None,
            },
        ),
{
    let ghost g1 = query_part(
        "page"@,
        match page {
            Some(n) => Some(decimal(n as nat)),
            None => None,
        },
    );
    let ghost g2 = query_part(
        "per_page"@,
        match per_page {
            Some(n) => Some(decimal(n as nat)),
            None => None,
        },
    );
    let mut q: Vec<(String, String)> = Vec::new();
    assert(q@.map_values(|p: (String, String)| (p.0@, p.1@)) =~= Seq::<(Seq<char>, Seq<char>)>::empty());
    if let Some(n) = page {
        q.push((owned("page"), decimal_string(n as u64)));
    }
    assert(q@.map_values(|p: (String, String)| (p.0@, p.1@)) =~= g1);
    if let Some(n) = per_page {
        q.push((owned("per_page"), decimal_string(n as u64)));
    }
    assert(q@.map_values(|p: (String, String)| (p.0@, p.1@)) =~= g1 + g2);
    q
}

/// The bridge runs over standard input and output only: the mode argument
/// (default `stdio`) must be `stdio`.
pub fn check_mode(mode: Option<String>) -> (r: Result<(), String>)
    ensures
        (mode is None || mode->0@ == "stdio"@) ==> r is Ok,
        (mode matches Some(m) && m@ != "stdio"@) ==> (r matches Err(e) && e@ == "unsupported mode '"@ + mode->0@
            + "'; only 'stdio' is implemented"@),
{
    match mode {
        None => Ok(()),
        Some(m) => {
            if str_eq(m.as_str(), "stdio") {
                Ok(())
            } else {
                let mut e = owned("unsupported mode '");
                e.append(m.as_str());
                e.append("'; only 'stdio' is implemented");
                Err(e)
            }
        },
    }
}

/// The message of a failed API call: the error message in the answer's JSON
/// if it has one, else the reason phrase of the status, else a generic one.
pub fn api_error_message(json_message: Option<String>, reason_phrase: Option<&str>) -> (r: String)
    ensures
        r@ == match json_message {
            Some(m) => m@,
            None => match reason_phrase {
                Some(p) => p@,
                None => "Agent Workspace API error"@,
            },
        },
{
    match json_message {
        Some(m) => m,
        None => match reason_phrase {
            Some(p) => owned(p),
            None => owned("Agent Workspace API error"),
        },
    }
}

/// A downloaded file as the bridge hands it to the agent.
#[derive(Debug)]
pub struct DownloadPayload {
    pub content_base64: String,
    pub size_bytes: usize,
    pub media_type: Option<String>,
    pub content_disposition: Option<String>,
}

/// The payload of a download: the bytes in standard base64, their number,
/// and the type and disposition headers of the answer.
pub fn download_payload(bytes: &[u8], media_type: Option<String>, content_disposition: Option<String>) -> (r: DownloadPayload)
    ensures
        crate::assets::base64_decoded(vstd::utf8::encode_utf8(r.content_base64@)) == Some(bytes@),
        r.size_bytes == bytes@.len(),
        r.media_type == media_type,
        r.content_disposition == content_disposition,
{
    DownloadPayload {
        content_base64: crate::assets::base64_encode(bytes),
        size_bytes: bytes.len(),
        media_type,
        content_disposition,
    }
}

} // verus!
