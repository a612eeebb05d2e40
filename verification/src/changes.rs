//! Change notifications: every write to a project's records is published
//! with a new version number, and a client that remembers the last version
//! it saw can ask whether anything it cares about changed since.
use vstd::prelude::*;
use std::collections::VecDeque;

use crate::error::{fails_with, ApiError};
use crate::fmt::{decimal, decimal_string, parse_u64, parse_u64_spec};
use crate::text::{owned, str_eq, trim, trim_str};

verus! {

broadcast use vstd::std_specs::vecdeque::axiom_spec_len;

/// How many recent changes are remembered.
pub const CHANGE_HISTORY_LIMIT: usize = 1024;

/// One published change: which version it got and what it touched.
#[derive(Debug)]
pub struct ProjectChange {
    pub version: u64,
    pub workspace_id: String,
    pub project_id: String,
    pub resource_kind: String,
}

/// The answer to "did anything change after this cursor?".
#[derive(Clone, Copy, Debug, PartialEq, Eq, Structural)]
pub enum ChangeLookup {
    /// A matching change was published; this is its version.
    Changed(u64),
    /// Changes after the cursor have been forgotten; this is the current version.
    HistoryGap(u64),
    /// Nothing matching was published after the cursor.
    Unchanged,
}

/// The recent history of published changes.
#[derive(Debug)]
pub struct ChangeHistory {
    version: u64,
    history: VecDeque<ProjectChange>,
}

/// A history is well formed: at most the limit, versions consecutive, and
/// the newest one is the current version.
pub open spec fn history_wf(h: Seq<ProjectChange>, current: u64) -> bool {
    &&& h.len() <= CHANGE_HISTORY_LIMIT
    &&& forall|i: int| 0 <= i < h.len() ==> 1 <= (#[trigger] h[i]).version <= current
    &&& forall|i: int| 0 < i < h.len() ==> (#[trigger] h[i]).version == h[i - 1].version + 1
    &&& h.len() > 0 ==> h.last().version == current
}

/// The change matches what the client watches.
pub open spec fn matches_change(c: ProjectChange, workspace_id: Seq<char>, project_id: Seq<char>, kind: Seq<char>) -> bool {
    c.workspace_id@ == workspace_id && c.project_id@ == project_id && c.resource_kind@ == kind
}

/// The version of the first remembered change after `cursor` that matches.
pub open spec fn first_match_after(
    h: Seq<ProjectChange>,
    cursor: u64,
    workspace_id: Seq<char>,
    project_id: Seq<char>,
    kind: Seq<char>,
) -> Option<u64>
    decreases h.len(),
{
    if h.len() == 0 {
        None
    } else if h[0].version > cursor && matches_change(h[0], workspace_id, project_id, kind) {
        Some(h[0].version)
    } else {
        first_match_after(h.drop_first(), cursor, workspace_id, project_id, kind)
    }
}

/// What a lookup answers for a history and current version.
pub open spec fn lookup_spec(
    h: Seq<ProjectChange>,
    current: u64,
    cursor: u64,
    workspace_id: Seq<char>,
    project_id: Seq<char>,
    kind: Seq<char>,
) -> ChangeLookup {
    if h.len() > 0 && cursor > 0 && h[0].version > cursor {
        ChangeLookup::HistoryGap(current)
    } else {
        match first_match_after(h, cursor, workspace_id, project_id, kind) {
            Some(v) => ChangeLookup::Changed(v),
            None => ChangeLookup::Unchanged,
        }
    }
}

impl ChangeHistory {
    #[verifier::type_invariant]
    spec fn inv(self) -> bool {
        history_wf(self.history@, self.version)
    }

    /// The remembered changes, oldest first.
    pub closed spec fn changes(self) -> Seq<ProjectChange> {
        self.history@
    }

    /// The version of the latest change (0 before any).
    pub closed spec fn cursor(self) -> u64 {
        self.version
    }

    /// A history with nothing published yet.
    pub fn new() -> (r: ChangeHistory)
        ensures
            r.cursor() == 0,
            r.changes().len() == 0,
            history_wf(r.changes(), r.cursor()),
    {
        ChangeHistory { version: 0, history: VecDeque::new() }
    }

    /// The version of the latest change.
    pub fn current_cursor(&self) -> (r: u64)
        ensures
            r == self.cursor(),
            history_wf(self.changes(), r),
    {
        proof {
            use_type_invariant(self);
        }
        self.version
    }

    /// Records a change to the given project's records of `resource_kind` and
    /// returns its version, one more than the previous one.  The oldest
    /// change is forgotten when the history is full.
    pub fn publish_project_change(&mut self, workspace_id: &str, project_id: &str, resource_kind: &str) -> (v: u64)
        requires
            old(self).cursor() < u64::MAX,
        ensures
            v == old(self).cursor() + 1,
            final(self).cursor() == v,
            final(self).changes() == (if old(self).changes().len() == CHANGE_HISTORY_LIMIT {
                old(self).changes().drop_first()
            } else {
                old(self).changes()
            }).push(final(self).changes().last()),
            final(self).changes().last().version == v,
            history_wf(final(self).changes(), final(self).cursor()),
            matches_change(final(self).changes().last(), workspace_id@, project_id@, resource_kind@),
    {
        proof {
            use_type_invariant(&*self);
        }
        let version = self.version + 1;
        let change = ProjectChange {
            version,
            workspace_id: owned(workspace_id),
            project_id: owned(project_id),
            resource_kind: owned(resource_kind),
        };
        let mut h: VecDeque<ProjectChange> = VecDeque::new();
        std::mem::swap(&mut h, &mut self.history);
        let ghost before = h@;
        if h.len() == CHANGE_HISTORY_LIMIT {
            h.pop_front();
        }
        let ghost kept = h@;
        h.push_back(change);
        proof {
            assert forall|i: int| 0 < i < h@.len() implies (#[trigger] h@[i]).version == h@[i - 1].version + 1 by {
                if i < h@.len() - 1 {
                    if before.len() == CHANGE_HISTORY_LIMIT {
                        assert(h@[i] == before[i + 1]);
                        assert(h@[i - 1] == before[i]);
                    } else {
                        assert(h@[i] == before[i]);
                        assert(h@[i - 1] == before[i - 1]);
                    }
                } else {
                    if kept.len() > 0 {
                        assert(h@[i - 1] == kept.last());
                        assert(kept.last() == before.last());
                    }
                }
            }
            assert forall|i: int| 0 <= i < h@.len() implies 1 <= (#[trigger] h@[i]).version <= version by {
                if i < h@.len() - 1 {
                    if before.len() == CHANGE_HISTORY_LIMIT {
                        assert(h@[i] == before[i + 1]);
                    } else {
                        assert(h@[i] == before[i]);
                    }
                }
            }
        }
        self.version = version;
        self.history = h;
        version
    }

    /// Whether a change to the watched records was published after `cursor`.
    /// When changes after a non-zero cursor have already been forgotten, the
    /// answer is a gap with the current version, so the client reloads.
    pub fn matching_change_after(&self, cursor: u64, workspace_id: &str, project_id: &str, resource_kind: &str) -> (r: ChangeLookup)
        ensures
            r == lookup_spec(self.changes(), self.cursor(), cursor, workspace_id@, project_id@, resource_kind@),
    {
        let n = self.history.len();
        if n > 0 && cursor > 0 && self.history[0].version > cursor {
            return ChangeLookup::HistoryGap(self.version);
        }
        let ghost h = self.history@;
        let mut i: usize = 0;
        assert(h.skip(0) == h);
        while i < n
            invariant
                n == h.len(),
                h == self.history@,
                i <= n,
                !(n > 0 && cursor > 0 && h[0].version > cursor),
                first_match_after(h, cursor, workspace_id@, project_id@, resource_kind@) == first_match_after(
                    h.skip(i as int),
                    cursor,
                    workspace_id@,
                    project_id@,
                    resource_kind@,
                ),
            decreases n - i,
        {
            let c = &self.history[i];
            assert(h.skip(i as int)[0] == h[i as int]);
            assert(h.skip(i as int).drop_first() == h.skip(i + 1));
            if c.version > cursor && str_eq(c.workspace_id.as_str(), workspace_id) && str_eq(
                c.project_id.as_str(),
                project_id,
            ) && str_eq(c.resource_kind.as_str(), resource_kind) {
                return ChangeLookup::Changed(c.version);
            }
            i = i + 1;
        }
        ChangeLookup::Unchanged
    }
}

proof fn lemma_first_match_bounds(h: Seq<ProjectChange>, cursor: u64, w: Seq<char>, p: Seq<char>, k: Seq<char>)
    ensures
        first_match_after(h, cursor, w, p, k) matches Some(v) ==> v > cursor && exists|i: int|
            0 <= i < h.len() && (#[trigger] h[i]).version == v,
        (exists|i: int| 0 <= i < h.len() && (#[trigger] h[i]).version > cursor && matches_change(h[i], w, p, k))
            ==> first_match_after(h, cursor, w, p, k) is Some,
    decreases h.len(),
{
    if h.len() > 0 {
        let t = h.drop_first();
        lemma_first_match_bounds(t, cursor, w, p, k);
        if let Some(v) = first_match_after(h, cursor, w, p, k) {
            if !(h[0].version > cursor && matches_change(h[0], w, p, k)) {
                let i = choose|i: int| 0 <= i < t.len() && (#[trigger] t[i]).version == v;
                assert(h[i + 1] == t[i]);
            }
        }
        if exists|i: int| 0 <= i < h.len() && (#[trigger] h[i]).version > cursor && matches_change(h[i], w, p, k) {
            let i = choose|i: int| 0 <= i < h.len() && (#[trigger] h[i]).version > cursor && matches_change(h[i], w, p, k);
            if i > 0 {
                assert(t[i - 1] == h[i]);
            }
        }
    }
}

/// A client that asks with the current version hears of no change.
pub proof fn law_current_cursor_unchanged(h: Seq<ProjectChange>, current: u64, w: Seq<char>, p: Seq<char>, k: Seq<char>)
    requires
        history_wf(h, current),
    ensures
        lookup_spec(h, current, current, w, p, k) == ChangeLookup::Unchanged,
{
    lemma_first_match_bounds(h, current, w, p, k);
    if let Some(v) = first_match_after(h, current, w, p, k) {
        let i = choose|i: int| 0 <= i < h.len() && (#[trigger] h[i]).version == v;
        assert(h[i].version <= current);
    }
    if h.len() > 0 {
        assert(h[0].version <= current);
    }
}

/// A client holding the version from before a change to what it watches
/// hears of a change after it: the lookup answers a newer matching version
/// no later than the change, or a gap.
pub proof fn law_published_change_is_seen(
    h: Seq<ProjectChange>,
    current: u64,
    c: ProjectChange,
    w: Seq<char>,
    p: Seq<char>,
    k: Seq<char>,
)
    requires
        history_wf(h, current),
        current < u64::MAX,
        c.version == current + 1,
        matches_change(c, w, p, k),
    ensures
        ({
            let h2 = (if h.len() == CHANGE_HISTORY_LIMIT { h.drop_first() } else { h }).push(c);
            match lookup_spec(h2, c.version, current, w, p, k) {
                ChangeLookup::Changed(v) => current < v <= c.version,
                ChangeLookup::HistoryGap(v) => v == c.version,
                ChangeLookup::Unchanged => false,
            }
        }),
{
    let h2 = (if h.len() == CHANGE_HISTORY_LIMIT { h.drop_first() } else { h }).push(c);
    assert(h2[h2.len() - 1] == c);
    lemma_first_match_bounds(h2, current, w, p, k);
    if let Some(v) = first_match_after(h2, current, w, p, k) {
        let i = choose|i: int| 0 <= i < h2.len() && (#[trigger] h2[i]).version == v;
        if i < h2.len() - 1 {
            if h.len() == CHANGE_HISTORY_LIMIT {
                assert(h2[i] == h[i + 1]);
            } else {
                assert(h2[i] == h[i]);
            }
        }
    }
}

// ---------------------------------------------------------------------------
// Long polling
// ---------------------------------------------------------------------------

/// A long-poll request: the last version the client saw, and how long to wait.
#[derive(Debug)]
pub struct ChangePollQuery {
    pub cursor: Option<String>,
    pub timeout_ms: Option<u64>,
}

/// A long-poll answer: whether something changed, and the version to ask with next.
#[derive(Debug)]
pub struct ChangePollResponse {
    pub changed: bool,
    pub cursor: String,
}

/// Waiting time when the client names none.
pub const DEFAULT_TIMEOUT_MS: u64 = 25_000;
/// Shortest wait.
pub const MIN_TIMEOUT_MS: u64 = 1_000;
/// Longest wait.
pub const MAX_TIMEOUT_MS: u64 = 30_000;

/// The cursor of a poll request: `None` where it is absent or blank (then
/// the answer is the current version at once); text that is not an unsigned
/// integer is refused.
pub fn parse_cursor(query: &ChangePollQuery, request_id: &str) -> (r: Result<Option<u64>, ApiError>)
    ensures
        match query.cursor {
            None => r matches Ok(c) && c is None,
            Some(raw) => if trim(raw@).len() == 0 {
                r matches Ok(c) && c is None
            } else {
                match parse_u64_spec(trim(raw@)) {
                    Some(v) => r matches Ok(c) && c == Some(v),
                    None => fails_with(r, "validation_error"@, request_id@, "cursor must be an unsigned integer"@),
                }
            },
        },
{
    match &query.cursor {
        None => Ok(None),
        Some(raw) => {
            let t = trim_str(raw.as_str());
            if t.unicode_len() == 0 {
                return Ok(None);
            }
            match parse_u64(t) {
                Some(v) => Ok(Some(v)),
                None => Err(ApiError::validation_error(request_id, "cursor must be an unsigned integer")),
            }
        },
    }
}

/// How long a poll waits: the requested time (25 s by default) kept within 1 s and 30 s.
pub fn poll_timeout_ms(query: &ChangePollQuery) -> (r: u64)
    ensures
        r == (match query.timeout_ms {
            None => DEFAULT_TIMEOUT_MS,
            Some(t) => if t < MIN_TIMEOUT_MS {
                MIN_TIMEOUT_MS
            } else if t > MAX_TIMEOUT_MS {
                MAX_TIMEOUT_MS
            } else {
                t
            },
        }),
{
    match query.timeout_ms {
        None => DEFAULT_TIMEOUT_MS,
        Some(t) => if t < MIN_TIMEOUT_MS {
            MIN_TIMEOUT_MS
        } else if t > MAX_TIMEOUT_MS {
            MAX_TIMEOUT_MS
        } else {
            t
        },
    }
}

/// The answer "nothing changed", with the version to ask with next.
pub fn unchanged_response(current: u64) -> (r: ChangePollResponse)
    ensures
        !r.changed,
        r.cursor@ == decimal(current as nat),
{
    ChangePollResponse { changed: false, cursor: decimal_string(current) }
}

/// What one look at the history means for a waiting poll: a change or a gap
/// ends it with `changed` and the version found; otherwise it keeps waiting.
pub fn poll_outcome(lookup: ChangeLookup) -> (r: Option<ChangePollResponse>)
    ensures
        match lookup {
            ChangeLookup::Changed(v) => r matches Some(resp) && resp.changed && resp.cursor@ == decimal(v as nat),
            ChangeLookup::HistoryGap(v) => r matches Some(resp) && resp.changed && resp.cursor@ == decimal(v as nat),
            ChangeLookup::Unchanged => r is None,
        },
{
    match lookup {
        ChangeLookup::Changed(v) => Some(ChangePollResponse { changed: true, cursor: decimal_string(v) }),
        ChangeLookup::HistoryGap(v) => Some(ChangePollResponse { changed: true, cursor: decimal_string(v) }),
        ChangeLookup::Unchanged => None,
    }
}

} // verus!
