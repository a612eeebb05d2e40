//! Tasks: creating them, their status, and listing them a page at a time.
use vstd::prelude::*;

use crate::documents::validated;
use crate::error::{fails_with, ApiError};
use crate::fmt::{decimal, decimal_string};
use crate::text::{is_blank, is_blank_str, opt_view, owned, str_eq, trim, trim_str, views};

verus! {

/// A task as read from the database, with the number of open hard blockers
/// folded into `blocked` (non-zero: blocked).
#[derive(Debug)]
pub struct TaskRow {
    pub id: String,
    pub project_id: String,
    pub group_id: Option<String>,
    pub parent_task_id: Option<String>,
    pub title: String,
    pub description_md: Option<String>,
    pub status: String,
    pub priority: String,
    pub rank_key: String,
    pub starts_at: Option<String>,
    pub due_at: Option<String>,
    pub assignee_type: Option<String>,
    pub assignee_id: Option<String>,
    pub blocked: i64,
    pub created_at: String,
    pub updated_at: String,
}

/// A task as answered: `blocked` tells whether an unfinished task blocks it.
#[derive(Debug)]
pub struct TaskDetail {
    pub id: String,
    pub project_id: String,
    pub group_id: Option<String>,
    pub parent_task_id: Option<String>,
    pub title: String,
    pub description_md: Option<String>,
    pub status: String,
    pub priority: String,
    pub rank_key: String,
    pub starts_at: Option<String>,
    pub due_at: Option<String>,
    pub assignee_type: Option<String>,
    pub assignee_id: Option<String>,
    pub blocked: bool,
    pub created_at: String,
    pub updated_at: String,
}

impl TaskDetail {
    /// The answered form of a task row.
    pub fn from_row(r: TaskRow) -> (d: TaskDetail)
        ensures
            d.id == r.id,
            d.project_id == r.project_id,
            d.group_id == r.group_id,
            d.parent_task_id == r.parent_task_id,
            d.title == r.title,
            d.description_md == r.description_md,
            d.status == r.status,
            d.priority == r.priority,
            d.rank_key == r.rank_key,
            d.starts_at == r.starts_at,
            d.due_at == r.due_at,
            d.assignee_type == r.assignee_type,
            d.assignee_id == r.assignee_id,
            d.blocked == (r.blocked != 0),
            d.created_at == r.created_at,
            d.updated_at == r.updated_at,
    {
        TaskDetail {
            id: r.id,
            project_id: r.project_id,
            group_id: r.group_id,
            parent_task_id: r.parent_task_id,
            title: r.title,
            description_md: r.description_md,
            status: r.status,
            priority: r.priority,
            rank_key: r.rank_key,
            starts_at: r.starts_at,
            due_at: r.due_at,
            assignee_type: r.assignee_type,
            assignee_id: r.assignee_id,
            blocked: r.blocked != 0,
            created_at: r.created_at,
            updated_at: r.updated_at,
        }
    }
}

/// Body for creating a task.
#[derive(Debug)]
pub struct CreateTaskRequest {
    pub title: String,
    pub group_id: Option<String>,
    pub parent_task_id: Option<String>,
    pub description_md: Option<String>,
    pub priority: String,
    pub rank_key: String,
    pub assignee_type: Option<String>,
    pub assignee_id: Option<String>,
}

/// Body for setting a task's status.
#[derive(Debug)]
pub struct UpdateTaskStatusRequest {
    pub status: String,
}

/// Filters of the task list, and how many to return at most.
#[derive(Debug)]
pub struct ListTasksQuery {
    pub status: Option<String>,
    pub group_id: Option<String>,
    pub assignee_id: Option<String>,
    pub limit: i64,
}

/// The priority a new task gets when the request names none.
pub fn default_priority() -> (r: String)
    ensures
        r@ == "normal"@,
{
    owned("normal")
}

/// The rank key a new task gets when the request names none.
pub fn default_rank_key() -> (r: String)
    ensures
        r@ == "a0"@,
{
    owned("a0")
}

/// How many tasks a list returns when the request names no limit.
pub fn default_limit() -> (r: i64)
    ensures
        r == 50,
{
    50
}

/// The first problem with a new task: title, priority, then assignee type.
pub open spec fn create_task_problem(body: CreateTaskRequest) -> Option<Seq<char>> {
    if is_blank(body.title@) {
        Some("title must not be empty"@)
    } else if !(body.priority@ == "low"@ || body.priority@ == "normal"@ || body.priority@ == "high"@ || body.priority@
        == "critical"@) {
        Some("priority must be one of: low, normal, high, critical"@)
    } else if body.assignee_type is Some && !(body.assignee_type->0@ == "workspace_member"@ || body.assignee_type->0@
        == "agent"@) {
        Some("assignee_type must be one of: workspace_member, agent"@)
    } else {
        None
    }
}

/// The stored title and starting status of a new task.
#[derive(Debug)]
pub struct NewTask {
    pub title: String,
    pub status: String,
}

/// Checks a new task and gives its title as stored (trimmed) and its
/// starting status, `todo`.
pub fn prepare_task(body: &CreateTaskRequest, request_id: &str) -> (r: Result<NewTask, ApiError>)
    ensures
        match create_task_problem(*body) {
            Some(m) => fails_with(r, "validation_error"@, request_id@, m),
            None => r matches Ok(t) && t.title@ == trim(body.title@) && t.status@ == "todo"@,
        },
{
    if is_blank_str(body.title.as_str()) {
        return Err(ApiError::validation_error(request_id, "title must not be empty"));
    }
    let p = body.priority.as_str();
    if !(str_eq(p, "low") || str_eq(p, "normal") || str_eq(p, "high") || str_eq(p, "critical")) {
        return Err(ApiError::validation_error(request_id, "priority must be one of: low, normal, high, critical"));
    }
    if let Some(at) = &body.assignee_type {
        if !(str_eq(at.as_str(), "workspace_member") || str_eq(at.as_str(), "agent")) {
            return Err(ApiError::validation_error(request_id, "assignee_type must be one of: workspace_member, agent"));
        }
    }
    Ok(NewTask { title: owned(trim_str(body.title.as_str())), status: owned("todo") })
}

pub open spec fn task_status_problem(s: Seq<char>) -> Option<Seq<char>> {
    if s == "todo"@ || s == "in_progress"@ || s == "done"@ || s == "cancelled"@ {
        None
    } else {
        Some("status must be one of: todo, in_progress, done, cancelled"@)
    }
}

/// Checks a task status change.
pub fn validate_task_status(body: &UpdateTaskStatusRequest, request_id: &str) -> (r: Result<(), ApiError>)
    ensures
        validated(r, task_status_problem(body.status@), request_id@),
{
    let s = body.status.as_str();
    if str_eq(s, "todo") || str_eq(s, "in_progress") || str_eq(s, "done") || str_eq(s, "cancelled") {
        Ok(())
    } else {
        Err(ApiError::validation_error(request_id, "status must be one of: todo, in_progress, done, cancelled"))
    }
}

/// How many tasks a list returns: the requested limit kept within 1 and 200.
pub fn list_limit(query: &ListTasksQuery) -> (r: i64)
    ensures
        r == (if query.limit < 1 {
            1
        } else if query.limit > 200 {
            200
        } else {
            query.limit
        }),
{
    if query.limit < 1 {
        1
    } else if query.limit > 200 {
        200
    } else {
        query.limit
    }
}

/// The continuation of a task list: there is more when more tasks match than were returned.
pub fn next_cursor(total: i64, limit: i64) -> (r: Option<String>)
    requires
        1 <= limit <= 200,
    ensures
        total > limit ==> (r matches Some(c) && c@ == decimal(limit as nat)),
        total <= limit ==> r is None,
{
    if total > limit {
        Some(decimal_string(limit as u64))
    } else {
        None
    }
}

/// The filters of a task list, as (column, value) pairs in order: status,
/// group, assignee; each only when asked for.
pub open spec fn task_filters_spec(query: ListTasksQuery) -> Seq<(Seq<char>, Seq<char>)> {
    filter_part("t.status"@, query.status) + filter_part("t.group_id"@, query.group_id) + filter_part(
        "t.assignee_id"@,
        query.assignee_id,
    )
}

/// One filter, when its value is given.
pub open spec fn filter_part(column: Seq<char>, value: Option<String>) -> Seq<(Seq<char>, Seq<char>)> {
    match value {
        Some(v) => seq![(column, v@)],
        None => Seq::empty(),
    }
}

pub fn task_filters(query: &ListTasksQuery) -> (r: Vec<(String, String)>)
    ensures
        r@.map_values(|p: (String, String)| (p.0@, p.1@)) == task_filters_spec(*query),
{
    let mut v: Vec<(String, String)> = Vec::new();
    let ghost empty = v@.map_values(|p: (String, String)| (p.0@, p.1@));
    assert(empty =~= Seq::<(Seq<char>, Seq<char>)>::empty());
    if let Some(s) = &query.status {
        v.push((owned("t.status"), s.clone()));
    }
    let ghost a = v@.map_values(|p: (String, String)| (p.0@, p.1@));
    if let Some(g) = &query.group_id {
        v.push((owned("t.group_id"), g.clone()));
    }
    let ghost ab = v@.map_values(|p: (String, String)| (p.0@, p.1@));
    if let Some(x) = &query.assignee_id {
        v.push((owned("t.assignee_id"), x.clone()));
    }
    proof {
        let sa = filter_part("t.status"@, query.status);
        let sb = filter_part("t.group_id"@, query.group_id);
        let sc = filter_part("t.assignee_id"@, query.assignee_id);
        assert(a =~= sa);
        assert(ab =~= sa + sb);
        assert(v@.map_values(|p: (String, String)| (p.0@, p.1@)) =~= sa + sb + sc);
    }
    v
}

/// A task list is narrowed by exactly the filters the query asks for: the
/// pair (`t.status`, v) is among the filters exactly when the query's status
/// is v, and likewise for the group (`t.group_id`) and the assignee
/// (`t.assignee_id`); no other column is filtered, and each asked-for filter
/// appears once.
pub proof fn law_task_filters_follow_query(query: ListTasksQuery)
    ensures
        forall|v: Seq<char>|
            #[trigger] task_filters_spec(query).contains(("t.status"@, v)) <==> (query.status matches Some(x) && x@
                == v),
        forall|v: Seq<char>|
            #[trigger] task_filters_spec(query).contains(("t.group_id"@, v)) <==> (query.group_id matches Some(x)
                && x@ == v),
        forall|v: Seq<char>|
            #[trigger] task_filters_spec(query).contains(("t.assignee_id"@, v)) <==> (query.assignee_id matches Some(
                x,
            ) && x@ == v),
        forall|i: int|
            0 <= i < task_filters_spec(query).len() ==> {
                let c = (#[trigger] task_filters_spec(query)[i]).0;
                c == "t.status"@ || c == "t.group_id"@ || c == "t.assignee_id"@
            },
        task_filters_spec(query).len() == (if query.status is Some { 1int } else { 0int }) + (if query.group_id is Some {
            1int
        } else {
            0int
        }) + (if query.assignee_id is Some { 1int } else { 0int }),
{
    reveal_strlit("t.status");
    reveal_strlit("t.group_id");
    reveal_strlit("t.assignee_id");
    assert("t.status"@ != "t.group_id"@ && "t.status"@ != "t.assignee_id"@ && "t.group_id"@ != "t.assignee_id"@) by {
        assert("t.status"@.len() != "t.group_id"@.len());
        assert("t.status"@.len() != "t.assignee_id"@.len());
        assert("t.group_id"@.len() != "t.assignee_id"@.len());
    }
    let f = task_filters_spec(query);
    let sa = filter_part("t.status"@, query.status);
    let sb = filter_part("t.group_id"@, query.group_id);
    let sc = filter_part("t.assignee_id"@, query.assignee_id);
    assert forall|pair: (Seq<char>, Seq<char>)| #[trigger] f.contains(pair) <==> (sa.contains(pair) || sb.contains(pair)
        || sc.contains(pair)) by {
        vstd::seq_lib::lemma_seq_concat_contains_all_elements(sa, sb, pair);
        vstd::seq_lib::lemma_seq_concat_contains_all_elements(sa + sb, sc, pair);
        lemma_filter_part_contains("t.status"@, query.status, pair);
        lemma_filter_part_contains("t.group_id"@, query.group_id, pair);
        lemma_filter_part_contains("t.assignee_id"@, query.assignee_id, pair);
    }
    assert forall|pair: (Seq<char>, Seq<char>)| #[trigger] f.contains(pair) implies pair.0 == "t.status"@ || pair.0
        == "t.group_id"@ || pair.0 == "t.assignee_id"@ by {
        lemma_filter_part_contains("t.status"@, query.status, pair);
        lemma_filter_part_contains("t.group_id"@, query.group_id, pair);
        lemma_filter_part_contains("t.assignee_id"@, query.assignee_id, pair);
    }
    assert forall|v: Seq<char>| #[trigger] f.contains(("t.status"@, v)) <==> (query.status matches Some(x) && x@ == v) by {
        lemma_filter_part_contains("t.status"@, query.status, ("t.status"@, v));
        lemma_filter_part_contains("t.group_id"@, query.group_id, ("t.status"@, v));
        lemma_filter_part_contains("t.assignee_id"@, query.assignee_id, ("t.status"@, v));
    }
    assert forall|v: Seq<char>| #[trigger] f.contains(("t.group_id"@, v)) <==> (query.group_id matches Some(x) && x@ == v) by {
        lemma_filter_part_contains("t.status"@, query.status, ("t.group_id"@, v));
        lemma_filter_part_contains("t.group_id"@, query.group_id, ("t.group_id"@, v));
        lemma_filter_part_contains("t.assignee_id"@, query.assignee_id, ("t.group_id"@, v));
    }
    assert forall|v: Seq<char>| #[trigger] f.contains(("t.assignee_id"@, v)) <==> (query.assignee_id matches Some(x) && x@ == v) by {
        lemma_filter_part_contains("t.status"@, query.status, ("t.assignee_id"@, v));
        lemma_filter_part_contains("t.group_id"@, query.group_id, ("t.assignee_id"@, v));
        lemma_filter_part_contains("t.assignee_id"@, query.assignee_id, ("t.assignee_id"@, v));
    }
    assert forall|i: int| 0 <= i < f.len() implies {
        let c = (#[trigger] f[i]).0;
        c == "t.status"@ || c == "t.group_id"@ || c == "t.assignee_id"@
    } by {
        assert(f.contains(f[i]));
    }
}

/// One filter holds a pair exactly when its value is given and the pair is
/// that column with that value.
proof fn lemma_filter_part_contains(column: Seq<char>, value: Option<String>, pair: (Seq<char>, Seq<char>))
    ensures
        filter_part(column, value).contains(pair) <==> (value matches Some(x) && pair == (column, x@)),
{
    if let Some(x) = value {
        assert(filter_part(column, value)[0] == (column, x@));
    }
}

/// The task statuses: a status change is accepted exactly when the new status
/// is one of todo, in_progress, done and cancelled, a refused one is answered
/// with a message that names all four, and the status a new task starts with
/// is among the accepted ones.
pub proof fn law_task_statuses(s: Seq<char>)
    ensures
        task_status_problem(s) is None <==> (s == "todo"@ || s == "in_progress"@ || s == "done"@ || s
            == "cancelled"@),
        task_status_problem(s) is Some ==> task_status_problem(s)->0
            == "status must be one of: todo, in_progress, done, cancelled"@,
        task_status_problem("todo"@) is None,
{
}

} // verus!
