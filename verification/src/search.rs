//! Full-text search across a workspace: the query term, the scope, and the
//! order in which the matches from every kind of record are listed.
use vstd::prelude::*;

use crate::error::{fails_with, ApiError};
use crate::text::{compare_text, is_blank, is_blank_str, lemma_text_less_total, lemma_text_less_trans, opt_view, owned, text_less, trim, trim_str};

verus! {

/// One match: what kind of record, which one, where it lives and when it last changed.
#[derive(Debug)]
pub struct SearchResult {
    pub kind: String,
    pub id: String,
    pub workspace_id: Option<String>,
    pub project_id: Option<String>,
    pub title: String,
    pub summary: Option<String>,
    pub updated_at: String,
}

/// A search request: the text to look for and, optionally, where.
#[derive(Debug)]
pub struct SearchQuery {
    pub q: String,
    pub workspace_slug: Option<String>,
    pub project_slug: Option<String>,
}

/// The text searched for: the query trimmed, which must not be empty.
pub fn search_term(query: &SearchQuery, request_id: &str) -> (r: Result<String, ApiError>)
    ensures
        is_blank(query.q@) ==> fails_with(r, "validation_error"@, request_id@, "q must not be empty"@),
        !is_blank(query.q@) ==> (r matches Ok(t) && t@ == trim(query.q@)),
{
    if is_blank_str(query.q.as_str()) {
        return Err(ApiError::validation_error(request_id, "q must not be empty"));
    }
    Ok(owned(trim_str(query.q.as_str())))
}

/// The `LIKE` pattern that matches any text containing `term`.
pub fn like_pattern(term: &str) -> (r: String)
    ensures
        r@ == seq!['%'] + term@ + seq!['%'],
{
    proof {
        reveal_strlit("%");
    }
    let mut s = owned("%");
    s.append(term);
    s.append("%");
    s
}

/// The workspace a search is limited to, given what the lookup of the named
/// workspace found: naming a workspace that does not exist is `not_found`.
pub fn search_workspace_id(query: &SearchQuery, found: Option<String>, request_id: &str) -> (r: Result<Option<String>, ApiError>)
    ensures
        query.workspace_slug is None ==> (r matches Ok(w) && w is None),
        query.workspace_slug is Some && found is None ==> fails_with(r, "not_found"@, request_id@, "workspace not found"@),
        query.workspace_slug is Some && found is Some ==> (r matches Ok(w) && opt_view(w) == opt_view(found)),
{
    if query.workspace_slug.is_none() {
        return Ok(None);
    }
    match found {
        Some(w) => Ok(Some(w)),
        None => Err(ApiError::not_found(request_id, "workspace not found")),
    }
}

/// A named project narrows the search only inside a named workspace; the
/// project is looked up only then.
pub fn needs_project_lookup(query: &SearchQuery, workspace_id: &Option<String>) -> (r: bool)
    ensures
        r == (query.project_slug is Some && workspace_id is Some),
{
    query.project_slug.is_some() && workspace_id.is_some()
}

/// `a` is listed before `b` only if it changed no earlier.
pub open spec fn not_older(a: SearchResult, b: SearchResult) -> bool {
    !text_less(a.updated_at@, b.updated_at@)
}

/// `out` lists `items` newest first, each `out[k]` being `items[perm[k]]`,
/// and matches that changed at the same time keep their order.
pub open spec fn is_newest_first(items: Seq<SearchResult>, out: Seq<SearchResult>, perm: Seq<int>) -> bool {
    &&& out.len() == items.len()
    &&& perm.len() == out.len()
    &&& forall|k: int| 0 <= k < perm.len() ==> 0 <= #[trigger] perm[k] < items.len() && out[k] == items[perm[k]]
    &&& forall|a: int, b: int| 0 <= a < b < perm.len() ==> #[trigger] perm[a] != #[trigger] perm[b]
    &&& forall|a: int, b: int| 0 <= a < b < out.len() ==> not_older(#[trigger] out[a], #[trigger] out[b])
    &&& forall|a: int, b: int|
        0 <= a < b < out.len() && (#[trigger] out[a]).updated_at@ == (#[trigger] out[b]).updated_at@ ==> perm[a] < perm[b]
}

/// Orders the matches newest first; matches that changed at the same time
/// keep the order they came in.
pub fn sort_search_results(items: Vec<SearchResult>) -> (out: Vec<SearchResult>)
    ensures
        exists|perm: Seq<int>| is_newest_first(items@, out@, perm),
{
    let ghost orig = items@;
    let mut rest = items;
    let mut out: Vec<SearchResult> = Vec::new();
    let ghost mut perm: Seq<int> = Seq::empty();
    while rest.len() > 0
        invariant
            rest@ == orig.take(rest@.len() as int),
            rest@.len() <= orig.len(),
            out@.len() + rest@.len() == orig.len(),
            perm.len() == out@.len(),
            forall|k: int| 0 <= k < perm.len() ==> rest@.len() <= #[trigger] perm[k] < orig.len() && out@[k] == orig[perm[k]],
            forall|a: int, b: int| 0 <= a < b < perm.len() ==> #[trigger] perm[a] != #[trigger] perm[b],
            forall|a: int, b: int| 0 <= a < b < out@.len() ==> not_older(#[trigger] out@[a], #[trigger] out@[b]),
            forall|a: int, b: int|
                0 <= a < b < out@.len() && (#[trigger] out@[a]).updated_at@ == (#[trigger] out@[b]).updated_at@ ==> perm[a] < perm[b],
        decreases rest@.len(),
    {
        let ghost i = rest@.len() - 1;
        let x = rest.pop().unwrap();
        assert(x == orig[i]);
        assert(rest@ == orig.take(i));
        // the first position whose entry changed no later than x
        let mut k: usize = 0;
        while k < out.len() && compare_text(x.updated_at.as_str(), out[k].updated_at.as_str()) == -1
            invariant
                k <= out@.len(),
                forall|j: int| 0 <= j < k ==> text_less(x.updated_at@, (#[trigger] out@[j]).updated_at@),
            decreases out@.len() - k,
        {
            k = k + 1;
        }
        proof {
            lemma_text_less_total(x.updated_at@, x.updated_at@);
            if k < out@.len() {
                lemma_text_less_total(x.updated_at@, out@[k as int].updated_at@);
            }
            // entries from k on changed no later than x
            assert forall|j: int| k <= j < out@.len() implies !text_less(x.updated_at@, (#[trigger] out@[j]).updated_at@) by {
                if j > k {
                    assert(not_older(out@[k as int], out@[j]));
                    lemma_text_less_total(out@[k as int].updated_at@, out@[j].updated_at@);
                    lemma_text_less_total(x.updated_at@, out@[j].updated_at@);
                    if text_less(x.updated_at@, out@[j].updated_at@) {
                        if text_less(out@[j].updated_at@, out@[k as int].updated_at@) {
                            lemma_text_less_trans(x.updated_at@, out@[j].updated_at@, out@[k as int].updated_at@);
                        }
                    }
                }
            }
        }
        let ghost old_out = out@;
        let ghost old_perm = perm;
        out.insert(k, x);
        proof {
            perm = old_perm.insert(k as int, i);
            assert forall|a: int, b: int| 0 <= a < b < out@.len() implies not_older(#[trigger] out@[a], #[trigger] out@[b]) by {
                if a == k {
                    assert(out@[b] == old_out[b - 1]);
                } else if b == k {
                    assert(out@[a] == old_out[a]);
                    lemma_text_less_total(x.updated_at@, out@[a].updated_at@);
                } else {
                    let a0 = if a < k { a } else { a - 1 };
                    let b0 = if b < k { b } else { b - 1 };
                    assert(out@[a] == old_out[a0]);
                    assert(out@[b] == old_out[b0]);
                    assert(not_older(old_out[a0], old_out[b0]));
                }
            }
            assert forall|a: int, b: int|
                0 <= a < b < out@.len() && (#[trigger] out@[a]).updated_at@ == (#[trigger] out@[b]).updated_at@ implies perm[a]
                < perm[b] by {
                if a == k {
                    assert(perm[b] == old_perm[b - 1]);
                } else if b == k {
                    assert(out@[a] == old_out[a]);
                    assert(text_less(x.updated_at@, out@[a].updated_at@));
                    lemma_text_less_total(x.updated_at@, x.updated_at@);
                } else {
                    let a0 = if a < k { a } else { a - 1 };
                    let b0 = if b < k { b } else { b - 1 };
                    assert(out@[a] == old_out[a0]);
                    assert(out@[b] == old_out[b0]);
                    assert(perm[a] == old_perm[a0]);
                    assert(perm[b] == old_perm[b0]);
                }
            }
            assert forall|j: int| 0 <= j < perm.len() implies rest@.len() <= #[trigger] perm[j] < orig.len() && out@[j] == orig[perm[j]] by {
                if j < k {
                    assert(perm[j] == old_perm[j]);
                } else if j > k {
                    assert(perm[j] == old_perm[j - 1]);
                }
            }
            assert forall|a: int, b: int| 0 <= a < b < perm.len() implies #[trigger] perm[a] != #[trigger] perm[b] by {
                let a0 = if a < k { a } else { a - 1 };
                let b0 = if b < k { b } else { b - 1 };
                if a != k && b != k {
                    assert(perm[a] == old_perm[a0]);
                    assert(perm[b] == old_perm[b0]);
                } else if a == k {
                    assert(perm[b] == old_perm[b0]);
                } else {
                    assert(perm[a] == old_perm[a0]);
                }
            }
        }
    }
    assert(is_newest_first(orig, out@, perm));
    out
}

} // verus!
