//! The parent/child structure of a project's documents.
//!
//! Each document names at most one parent by id, so the documents form a
//! functional graph: following `parent_document_id` from any document gives a
//! single chain.  A well-formed tree has no chain that comes back to where it
//! started; the functions here detect, prevent and describe such cycles.
use vstd::prelude::*;

use crate::documents::DocumentResponse;

verus! {

// ---------------------------------------------------------------------------
// Model
// ---------------------------------------------------------------------------

/// Position of the last document in `docs` whose id is `id`, or -1.
/// (A lookup table built by inserting the documents in order keeps the last one.)
pub open spec fn last_index_of(docs: Seq<DocumentResponse>, id: Seq<char>) -> int
    decreases docs.len(),
{
    if docs.len() == 0 {
        -1
    } else if docs.last().id@ == id {
        docs.len() - 1
    } else {
        last_index_of(docs.drop_last(), id)
    }
}

/// The id of a document's parent, for the document that `id` resolves to.
pub open spec fn parent_of(docs: Seq<DocumentResponse>, id: Seq<char>) -> Option<Seq<char>> {
    let i = last_index_of(docs, id);
    if i < 0 {
        None
    } else {
        match docs[i].parent_document_id {
            Some(p) => Some(p@),
            None => None,
        }
    }
}

/// Following parents `m` times from `start`; `None` once the chain has ended.
pub open spec fn ancestor_at(docs: Seq<DocumentResponse>, start: Seq<char>, m: nat) -> Option<Seq<char>>
    decreases m,
{
    if m == 0 {
        Some(start)
    } else {
        match ancestor_at(docs, start, (m - 1) as nat) {
            Some(x) => parent_of(docs, x),
            None => None,
        }
    }
}

/// `target` is reached from `start` by following parents zero or more times.
pub open spec fn reaches(docs: Seq<DocumentResponse>, start: Seq<char>, target: Seq<char>) -> bool {
    exists|m: nat| #[trigger] ancestor_at(docs, start, m) == Some(target)
}

/// `ancestor` is a strict ancestor of `descendant`: it is reached in one or more steps.
pub open spec fn is_strict_ancestor(
    docs: Seq<DocumentResponse>,
    ancestor: Seq<char>,
    descendant: Seq<char>,
) -> bool {
    exists|m: nat| m >= 1 && #[trigger] ancestor_at(docs, descendant, m) == Some(ancestor)
}

/// The document `id` lies on a cycle: its parent chain comes back to it.
pub open spec fn on_cycle(docs: Seq<DocumentResponse>, id: Seq<char>) -> bool {
    is_strict_ancestor(docs, id, id)
}

/// No document lies on a cycle.
pub open spec fn acyclic(docs: Seq<DocumentResponse>) -> bool {
    forall|i: int| 0 <= i < docs.len() ==> !on_cycle(docs, #[trigger] docs[i].id@)
}

// Node level: positions instead of ids.
/// Position of the parent of the document at position `q` (the parent must be a document).
pub open spec fn succ_of(docs: Seq<DocumentResponse>, q: int) -> Option<int> {
    match docs[q].parent_document_id {
        Some(p) => {
            let l = last_index_of(docs, p@);
            if l >= 0 {
                Some(l)
            } else {
                None
            }
        },
        None => None,
    }
}

pub open spec fn node_at(docs: Seq<DocumentResponse>, q: int, m: nat) -> Option<int>
    decreases m,
{
    if m == 0 {
        Some(q)
    } else {
        match node_at(docs, q, (m - 1) as nat) {
            Some(x) => succ_of(docs, x),
            None => None,
        }
    }
}

pub open spec fn canonical(docs: Seq<DocumentResponse>, q: int) -> bool {
    0 <= q < docs.len() && last_index_of(docs, docs[q].id@) == q
}

// ---------------------------------------------------------------------------
// Lemmas
// ---------------------------------------------------------------------------

pub proof fn lemma_last_index_of(docs: Seq<DocumentResponse>, id: Seq<char>)
    ensures
        -1 <= last_index_of(docs, id) < docs.len(),
        last_index_of(docs, id) >= 0 ==> docs[last_index_of(docs, id)].id@ == id,
        last_index_of(docs, id) >= 0 ==> forall|j: int|
            last_index_of(docs, id) < j < docs.len() ==> docs[j].id@ != id,
        last_index_of(docs, id) < 0 ==> forall|j: int| 0 <= j < docs.len() ==> docs[j].id@ != id,
    decreases docs.len(),
{
    if docs.len() > 0 && docs.last().id@ != id {
        lemma_last_index_of(docs.drop_last(), id);
        assert forall|j: int| 0 <= j < docs.len() - 1 implies docs[j] == docs.drop_last()[j] by {}
    }
}

pub proof fn lemma_canonical_of_last(docs: Seq<DocumentResponse>, id: Seq<char>)
    requires
        last_index_of(docs, id) >= 0,
    ensures
        canonical(docs, last_index_of(docs, id)),
{
    lemma_last_index_of(docs, id);
}

pub proof fn lemma_succ_canonical(docs: Seq<DocumentResponse>, q: int)
    requires
        0 <= q < docs.len(),
        succ_of(docs, q) is Some,
    ensures
        canonical(docs, succ_of(docs, q)->0),
{
    let p = docs[q].parent_document_id->0;
    lemma_canonical_of_last(docs, p@);
}

pub proof fn lemma_node_at_step(docs: Seq<DocumentResponse>, q: int, m: nat)
    ensures
        node_at(docs, q, m + 1) == (match node_at(docs, q, m) {
            Some(x) => succ_of(docs, x),
            None => None,
        }),
{
}

pub proof fn lemma_node_at_range(docs: Seq<DocumentResponse>, q: int, m: nat)
    requires
        canonical(docs, q),
    ensures
        node_at(docs, q, m) is Some ==> canonical(docs, node_at(docs, q, m)->0),
    decreases m,
{
    if m > 0 {
        lemma_node_at_range(docs, q, (m - 1) as nat);
        if let Some(x) = node_at(docs, q, (m - 1) as nat) {
            if succ_of(docs, x) is Some {
                lemma_succ_canonical(docs, x);
            }
        }
    }
}

/// Chains that meet continue together.
pub proof fn lemma_node_at_shift(docs: Seq<DocumentResponse>, q: int, i: nat, j: nat, t: nat)
    requires
        node_at(docs, q, i) == node_at(docs, q, j),
    ensures
        node_at(docs, q, i + t) == node_at(docs, q, j + t),
    decreases t,
{
    if t > 0 {
        lemma_node_at_shift(docs, q, i, j, (t - 1) as nat);
        assert(node_at(docs, q, i + t) == (match node_at(docs, q, (i + t - 1) as nat) {
            Some(x) => succ_of(docs, x),
            None => None,
        }));
        assert(node_at(docs, q, j + t) == (match node_at(docs, q, (j + t - 1) as nat) {
            Some(x) => succ_of(docs, x),
            None => None,
        }));
    }
}

/// The chain from `q + m` steps is the chain from the node reached after `m` steps.
pub proof fn lemma_node_at_compose(docs: Seq<DocumentResponse>, q: int, m: nat, t: nat)
    requires
        node_at(docs, q, m) is Some,
    ensures
        node_at(docs, q, m + t) == node_at(docs, node_at(docs, q, m)->0, t),
    decreases t,
{
    if t > 0 {
        lemma_node_at_compose(docs, q, m, (t - 1) as nat);
        assert(node_at(docs, q, m + t) == (match node_at(docs, q, (m + t - 1) as nat) {
            Some(x) => succ_of(docs, x),
            None => None,
        }));
    }
}

/// Once a chain repeats, every later node is one already seen before the repeat.
pub proof fn lemma_node_at_covered(docs: Seq<DocumentResponse>, q: int, j: nat, k: nat, m: nat)
    requires
        j < k,
        j <= m,
        node_at(docs, q, j) == node_at(docs, q, k),
    ensures
        exists|m2: nat| j <= m2 < k && node_at(docs, q, m2) == node_at(docs, q, m),
    decreases m,
{
    if m < k {
        assert(node_at(docs, q, m) == node_at(docs, q, m));
    } else {
        let t = (m - k) as nat;
        lemma_node_at_shift(docs, q, j, k, t);
        assert(k + t == m);
        lemma_node_at_covered(docs, q, j, k, (j + t) as nat);
    }
}

/// Once a chain has ended it stays ended.
pub proof fn lemma_node_at_none(docs: Seq<DocumentResponse>, q: int, i: nat, m: nat)
    requires
        node_at(docs, q, i) is None,
        i <= m,
    ensures
        node_at(docs, q, m) is None,
    decreases m,
{
    if m > i {
        lemma_node_at_none(docs, q, i, (m - 1) as nat);
    }
}

/// The id chain from the id of a canonical position follows the node chain.
pub proof fn lemma_ancestor_node(docs: Seq<DocumentResponse>, q: int, m: nat)
    requires
        canonical(docs, q),
    ensures
        node_at(docs, q, m) is Some ==> ancestor_at(docs, docs[q].id@, m) == Some(
            docs[node_at(docs, q, m)->0].id@,
        ),
        node_at(docs, q, m) is None ==> (ancestor_at(docs, docs[q].id@, m) is None || (
        ancestor_at(docs, docs[q].id@, m) is Some && last_index_of(
            docs,
            ancestor_at(docs, docs[q].id@, m)->0,
        ) < 0)),
    decreases m,
{
    if m > 0 {
        let pm = (m - 1) as nat;
        lemma_ancestor_node(docs, q, pm);
        lemma_node_at_range(docs, q, pm);
        match node_at(docs, q, pm) {
            Some(x) => {
                lemma_last_index_of(docs, docs[x].id@);
                let p = docs[x].parent_document_id;
                if let Some(pid) = p {
                    lemma_last_index_of(docs, pid@);
                    let l = last_index_of(docs, pid@);
                    if l >= 0 {
                        lemma_last_index_of(docs, docs[l].id@);
                    }
                }
            },
            None => {
                let a = ancestor_at(docs, docs[q].id@, pm);
                if let Some(y) = a {
                    lemma_last_index_of(docs, y);
                }
            },
        }
    }
}

/// Once the id chain has ended it stays ended.
pub proof fn lemma_ancestor_none_after(docs: Seq<DocumentResponse>, x: Seq<char>, i: nat, m: nat)
    requires
        ancestor_at(docs, x, i) is None,
        i <= m,
    ensures
        ancestor_at(docs, x, m) is None,
    decreases m,
{
    if m > i {
        lemma_ancestor_none_after(docs, x, i, (m - 1) as nat);
    }
}

/// Following `i + t` steps is following `t` steps from where `i` steps lead.
pub proof fn lemma_ancestor_compose(docs: Seq<DocumentResponse>, x: Seq<char>, i: nat, t: nat)
    requires
        ancestor_at(docs, x, i) is Some,
    ensures
        ancestor_at(docs, x, i + t) == ancestor_at(docs, ancestor_at(docs, x, i)->0, t),
    decreases t,
{
    if t > 0 {
        lemma_ancestor_compose(docs, x, i, (t - 1) as nat);
        assert(ancestor_at(docs, x, i + t) == (match ancestor_at(docs, x, (i + t - 1) as nat) {
            Some(y) => parent_of(docs, y),
            None => None,
        }));
    }
}

/// Ids that are not documents have no parent.
pub proof fn lemma_ancestor_outside(docs: Seq<DocumentResponse>, x: Seq<char>, m: nat)
    requires
        last_index_of(docs, x) < 0,
        m >= 1,
    ensures
        ancestor_at(docs, x, m) is None,
    decreases m,
{
    assert(ancestor_at(docs, x, 0) == Some(x));
    if m > 1 {
        lemma_ancestor_outside(docs, x, (m - 1) as nat);
    }
}

/// The id chain after the first step from an id that resolves to position `q`.
pub proof fn lemma_ancestor_shift(docs: Seq<DocumentResponse>, x: Seq<char>, m: nat)
    requires
        last_index_of(docs, x) >= 0,
    ensures
        ancestor_at(docs, x, m) == ancestor_at(docs, docs[last_index_of(docs, x)].id@, m),
    decreases m,
{
    lemma_last_index_of(docs, x);
    if m > 0 {
        lemma_ancestor_shift(docs, x, (m - 1) as nat);
    }
}


pub open spec fn node_on_cycle(docs: Seq<DocumentResponse>, q: int) -> bool {
    exists|m: nat| m >= 1 && #[trigger] node_at(docs, q, m) == Some(q)
}

/// Going round a cycle any number of times comes back to the start.
pub proof fn lemma_node_period_multiple(docs: Seq<DocumentResponse>, x: int, p: nat, k: nat)
    requires
        node_at(docs, x, p) == Some(x),
    ensures
        node_at(docs, x, k * p) == Some(x),
    decreases k,
{
    if k > 0 {
        let k1: nat = (k - 1) as nat;
        lemma_node_period_multiple(docs, x, p, k1);
        let a: nat = k1 * p;
        assert(a + p == k * p) by (nonlinear_arith) requires a == k1 * p, k1 + 1 == k;
        lemma_node_at_compose(docs, x, a, p);
    } else {
        assert(k * p == 0) by (nonlinear_arith) requires k == 0;
        assert(node_at(docs, x, 0) == Some(x));
    }
}

/// Every node met from a node on a cycle leads back to it.
pub proof fn lemma_cycle_returns(docs: Seq<DocumentResponse>, x: int, m1: nat, w: int)
    requires
        node_on_cycle(docs, x),
        node_at(docs, x, m1) == Some(w),
    ensures
        exists|c: nat| #[trigger] node_at(docs, w, c) == Some(x),
{
    let p = choose|m: nat| m >= 1 && #[trigger] node_at(docs, x, m) == Some(x);
    let k: nat = m1 + 1;
    lemma_node_period_multiple(docs, x, p, k);
    assert(k * p >= k) by (nonlinear_arith) requires p >= 1;
    let c: nat = (k * p - m1) as nat;
    lemma_node_at_compose(docs, x, m1, c);
    assert(m1 + c == k * p);
    assert(node_at(docs, w, c) == Some(x));
}

/// A node on a cycle has an unending chain.
pub proof fn lemma_cycle_never_ends(docs: Seq<DocumentResponse>, x: int, m: nat)
    requires
        node_on_cycle(docs, x),
    ensures
        node_at(docs, x, m) is Some,
{
    let p = choose|m: nat| m >= 1 && #[trigger] node_at(docs, x, m) == Some(x);
    assert(node_at(docs, x, 0) == Some(x));
    lemma_node_at_covered(docs, x, 0, p, m);
    let m2 = choose|m2: nat| 0 <= m2 < p && node_at(docs, x, m2) == node_at(docs, x, m);
    if node_at(docs, x, m2) is None {
        lemma_node_at_none(docs, x, m2, p);
    }
}

/// A sequence of distinct positions below `n` has at most `n` entries.
pub proof fn lemma_distinct_positions_bounded(path: Seq<int>, n: int)
    requires
        0 <= n,
        path.no_duplicates(),
        forall|i: int| 0 <= i < path.len() ==> 0 <= #[trigger] path[i] < n,
    ensures
        path.len() <= n,
{
    path.unique_seq_to_set();
    vstd::set_lib::lemma_int_range(0, n);
    assert(path.to_set().subset_of(vstd::set_lib::set_int_range(0, n)));
    vstd::set_lib::lemma_len_subset(path.to_set(), vstd::set_lib::set_int_range(0, n));
}

// ---------------------------------------------------------------------------
// Executable lookups
// ---------------------------------------------------------------------------

/// Finds the position of the last document with id `id`.
pub fn find_last_index(docs: &Vec<DocumentResponse>, id: &String) -> (r: Option<usize>)
    ensures
        match r {
            Some(i) => i as int == last_index_of(docs@, id@),
            None => last_index_of(docs@, id@) < 0,
        },
{
    let mut i = docs.len();
    proof {
        lemma_last_index_of(docs@, id@);
    }
    while i > 0
        invariant
            i <= docs.len(),
            last_index_of(docs@, id@) < i,
        decreases i,
    {
        proof {
            lemma_last_index_of(docs@, id@);
        }
        if docs[i - 1].id == *id {
            proof {
                lemma_last_index_of(docs@, id@);
                if last_index_of(docs@, id@) != i - 1 {
                    assert(last_index_of(docs@, id@) < i - 1);
                }
            }
            return Some(i - 1);
        }
        proof {
            lemma_last_index_of(docs@, id@);
        }
        i = i - 1;
    }
    proof {
        lemma_last_index_of(docs@, id@);
    }
    None
}

/// For every position, the position of its parent document.
pub fn parent_positions(docs: &Vec<DocumentResponse>) -> (s: Vec<Option<usize>>)
    ensures
        s.len() == docs.len(),
        forall|q: int|
            0 <= q < docs.len() ==> match #[trigger] s@[q] {
                Some(v) => succ_of(docs@, q) == Some(v as int),
                None => succ_of(docs@, q) is None,
            },
{
    let mut s: Vec<Option<usize>> = Vec::new();
    let mut q: usize = 0;
    while q < docs.len()
        invariant
            q <= docs.len(),
            s.len() == q,
            forall|r: int|
                0 <= r < q ==> match #[trigger] s@[r] {
                    Some(v) => succ_of(docs@, r) == Some(v as int),
                    None => succ_of(docs@, r) is None,
                },
        decreases docs.len() - q,
    {
        let entry = match &docs[q].parent_document_id {
            Some(p) => find_last_index(docs, p),
            None => None,
        };
        proof {
            if let Some(p) = docs@[q as int].parent_document_id {
                lemma_last_index_of(docs@, p@);
            }
        }
        s.push(entry);
        q = q + 1;
    }
    s
}


// ---------------------------------------------------------------------------
// Cycle groups
// ---------------------------------------------------------------------------

/// `g` lists the positions of one whole cycle, each entry being the parent of
/// the next and the last entry the parent of the first.
pub open spec fn is_cycle_listing(docs: Seq<DocumentResponse>, g: Seq<usize>) -> bool {
    &&& g.len() >= 1
    &&& g.no_duplicates()
    &&& forall|a: int| 0 <= a < g.len() ==> canonical(docs, #[trigger] g[a] as int)
    &&& forall|a: int| 1 <= a < g.len() ==> succ_of(docs, #[trigger] g[a] as int) == Some(g[a - 1] as int)
    &&& succ_of(docs, g[0] as int) == Some(g[g.len() - 1] as int)
}

pub open spec fn stamps_closed(docs: Seq<DocumentResponse>, st: Seq<usize>) -> bool {
    forall|x: int|
        0 <= x < st.len() && #[trigger] st[x] != 0 ==> match succ_of(docs, x) {
            Some(w) => 0 <= w < st.len() && st[w] != 0,
            None => true,
        }
}

pub proof fn lemma_stamps_closed_chain(docs: Seq<DocumentResponse>, st: Seq<usize>, w: int, m: nat)
    requires
        st.len() == docs.len(),
        stamps_closed(docs, st),
        canonical(docs, w),
        st[w] != 0,
    ensures
        node_at(docs, w, m) is Some ==> st[node_at(docs, w, m)->0] != 0,
    decreases m,
{
    if m > 0 {
        lemma_stamps_closed_chain(docs, st, w, (m - 1) as nat);
        lemma_node_at_range(docs, w, (m - 1) as nat);
    }
}

/// Position of the document that the id of the document at position `r` resolves to.
pub open spec fn root_pos(docs: Seq<DocumentResponse>, r: int) -> int {
    last_index_of(docs, docs[r].id@)
}

/// The chain from position `c` meets one of the positions in `g`.
pub open spec fn node_meets(docs: Seq<DocumentResponse>, c: int, g: Seq<usize>) -> bool {
    exists|m: nat, a: int|
        #![trigger node_at(docs, c, m), g[a]]
        0 <= a < g.len() && node_at(docs, c, m) == Some(g[a] as int)
}

/// The chain from position `c` meets `g` first at its last entry.
pub open spec fn node_enters_at_last(docs: Seq<DocumentResponse>, c: int, g: Seq<usize>) -> bool {
    exists|m0: nat|
        #[trigger] node_at(docs, c, m0) == Some(g[g.len() - 1] as int) && forall|m: nat, a: int|
            #![trigger node_at(docs, c, m), g[a]]
            m < m0 && 0 <= a < g.len() ==> node_at(docs, c, m) != Some(g[a] as int)
}

/// Document `r` is the first, in list order, whose chain meets `g`, and meets it at its last entry.
pub open spec fn first_meeting_root(docs: Seq<DocumentResponse>, g: Seq<usize>, r: int) -> bool {
    &&& 0 <= r < docs.len()
    &&& node_meets(docs, root_pos(docs, r), g)
    &&& node_enters_at_last(docs, root_pos(docs, r), g)
    &&& forall|r2: int| 0 <= r2 < r ==> !node_meets(docs, #[trigger] root_pos(docs, r2), g)
}


/// The positions of every cycle, each listed once.
fn cycle_position_groups(docs: &Vec<DocumentResponse>, s: &Vec<Option<usize>>) -> (res: (Vec<Vec<usize>>, Ghost<Seq<int>>))
    requires
        s.len() == docs.len(),
        forall|x: int|
            0 <= x < docs.len() ==> match #[trigger] s@[x] {
                Some(v) => succ_of(docs@, x) == Some(v as int),
                None => succ_of(docs@, x) is None,
            },
    ensures
        forall|gi: int| 0 <= gi < res.0.len() ==> is_cycle_listing(docs@, #[trigger] res.0@[gi]@),
        forall|g1: int, g2: int, a: int, b: int|
            0 <= g1 < res.0.len() && 0 <= g2 < res.0.len() && g1 != g2 && 0 <= a < res.0@[g1]@.len()
                && 0 <= b < res.0@[g2]@.len() ==> #[trigger] res.0@[g1]@[a] != #[trigger] res.0@[g2]@[b],
        forall|x: int|
            canonical(docs@, x) && node_on_cycle(docs@, x) ==> exists|gi: int, a: int|
                0 <= gi < res.0.len() && 0 <= a < res.0@[gi]@.len() && #[trigger] res.0@[gi]@[a] == x,
        res.1@.len() == res.0.len(),
        forall|gi: int| 0 <= gi < res.0.len() ==> first_meeting_root(docs@, #[trigger] res.0@[gi]@, res.1@[gi]),
        forall|g1: int, g2: int| 0 <= g1 < g2 < res.0.len() ==> #[trigger] res.1@[g1] < #[trigger] res.1@[g2],
{
    let n = docs.len();
    let ghost d = docs@;
    let mut stamp: Vec<usize> = vec![0usize; n];
    let mut groups: Vec<Vec<usize>> = Vec::new();
    let ghost mut roots: Seq<int> = Seq::empty();
    let mut i: usize = 0;
    while i < n
        invariant
            roots.len() == groups.len(),
            forall|gi: int| 0 <= gi < groups.len() ==> #[trigger] roots[gi] < i,
            forall|gi: int| 0 <= gi < groups.len() ==> first_meeting_root(d, #[trigger] groups@[gi]@, roots[gi]),
            forall|g1: int, g2: int| 0 <= g1 < g2 < groups.len() ==> #[trigger] roots[g1] < #[trigger] roots[g2],
            n == docs.len(),
            d == docs@,
            s.len() == n,
            forall|x: int|
                0 <= x < n ==> match #[trigger] s@[x] {
                    Some(v) => succ_of(d, x) == Some(v as int),
                    None => succ_of(d, x) is None,
                },
            i <= n,
            stamp.len() == n,
            forall|x: int| 0 <= x < n ==> #[trigger] stamp@[x] <= i,
            stamps_closed(d, stamp@),
            forall|r: int| 0 <= r < i ==> stamp@[last_index_of(d, #[trigger] d[r].id@)] != 0,
            forall|gi: int| 0 <= gi < groups.len() ==> is_cycle_listing(d, #[trigger] groups@[gi]@),
            forall|gi: int, a: int|
                0 <= gi < groups.len() && 0 <= a < groups@[gi]@.len() ==> stamp@[#[trigger] groups@[gi]@[a] as int] != 0,
            forall|g1: int, g2: int, a: int, b: int|
                0 <= g1 < groups.len() && 0 <= g2 < groups.len() && g1 != g2 && 0 <= a < groups@[g1]@.len()
                    && 0 <= b < groups@[g2]@.len() ==> #[trigger] groups@[g1]@[a] != #[trigger] groups@[g2]@[b],
            forall|x: int|
                0 <= x < n && #[trigger] stamp@[x] != 0 && node_on_cycle(d, x) ==> exists|gi: int, a: int|
                    0 <= gi < groups.len() && 0 <= a < groups@[gi]@.len() && #[trigger] groups@[gi]@[a] == x,
        decreases n - i,
    {
        let root = find_last_index(docs, &docs[i].id);
        proof {
            lemma_last_index_of(d, d[i as int].id@);
        }
        let c: usize = match root {
            Some(c) => c,
            None => { i = i + 1; continue; }
        };
        if stamp[c] != 0 {
            i = i + 1;
            continue;
        }
        let t: usize = i + 1;
        let ghost st0 = stamp@;
        let ghost groups0 = groups@;
        proof {
            lemma_canonical_of_last(d, d[i as int].id@);
        }
        let mut path: Vec<usize> = Vec::new();
        path.push(c);
        stamp.set(c, t);
        let mut cur: usize = c;
        proof {
            assert(node_at(d, c as int, 0) == Some(c as int));
            assert forall|x: int| 0 <= x < n implies #[trigger] stamp@[x] == (if path@.contains(x as usize) { t } else { st0[x] }) by {
                if x == c as int {
                    assert(path@[0] == x as usize);
                }
            }
        }
        // walk up from the root until the chain ends or meets a stamped position
        let mut found: Option<usize> = None;
        loop
            invariant_except_break
                found is None,
            invariant
                n == docs.len(),
                d == docs@,
                s.len() == n,
                forall|x: int|
                    0 <= x < n ==> match #[trigger] s@[x] {
                        Some(v) => succ_of(d, x) == Some(v as int),
                        None => succ_of(d, x) is None,
                    },
                i < n,
                t == i + 1,
                canonical(d, c as int),
                stamp.len() == n,
                st0.len() == n,
                st0[c as int] == 0,
                forall|x: int| 0 <= x < n ==> #[trigger] st0[x] <= i,
                stamps_closed(d, st0),
                1 <= path.len() <= n,
                path@[0] == c,
                cur == path@[path.len() - 1],
                path@.no_duplicates(),
                forall|a: int| 0 <= a < path.len() ==> node_at(d, c as int, a as nat) == Some(#[trigger] path@[a] as int),
                forall|a: int| 0 <= a < path.len() ==> #[trigger] path@[a] < n,
                forall|a: int| 0 <= a < path.len() ==> st0[#[trigger] path@[a] as int] == 0,
                forall|x: int| 0 <= x < n ==> #[trigger] stamp@[x] == (if path@.contains(x as usize) { t } else { st0[x] }),
                groups@ == groups0,
                roots.len() == groups0.len(),
            ensures
                match found {
                    Some(j) => j < path.len() && match s@[cur as int] {
                        Some(w) => w == path@[j as int],
                        None => false,
                    },
                    None => match s@[cur as int] {
                        Some(w) => st0[w as int] != 0,
                        None => true,
                    },
                },
            decreases n - path.len(),
        {
            let ghost k: nat = (path.len() - 1) as nat;
            proof {
                lemma_node_at_range(d, c as int, k);
            }
            match s[cur] {
                None => { break; },
                Some(w) => {
                    proof {
                        lemma_succ_canonical(d, cur as int);
                    }
                    if stamp[w] == 0 {
                        proof {
                            if path@.contains(w) {
                                assert(stamp@[w as int] == t);
                            }
                        }
                        let ghost old_path = path@;
                        path.push(w);
                        stamp.set(w, t);
                        cur = w;
                        proof {
                            lemma_node_at_step(d, c as int, k);
                            assert(node_at(d, c as int, k + 1) == Some(w as int));
                            assert forall|x: int| 0 <= x < n implies #[trigger] stamp@[x] == (if path@.contains(x as usize) { t } else { st0[x] }) by {
                                if x == w as int {
                                    assert(path@[path.len() - 1] == x as usize);
                                } else {
                                    if old_path.contains(x as usize) {
                                        let a = choose|a: int| 0 <= a < old_path.len() && old_path[a] == x as usize;
                                        assert(path@[a] == x as usize);
                                    }
                                    if path@.contains(x as usize) {
                                        let a = choose|a: int| 0 <= a < path.len() && path@[a] == x as usize;
                                        assert(a < old_path.len());
                                        assert(old_path[a] == x as usize);
                                    }
                                }
                            }
                            let gp = path@.map(|_i: int, v: usize| v as int);
                            assert forall|a: int| 0 <= a < gp.len() implies 0 <= #[trigger] gp[a] < n by {
                                assert(path@[a] < n);
                            }
                            assert(gp.no_duplicates()) by {
                                assert forall|a: int, b: int| 0 <= a < gp.len() && 0 <= b < gp.len() && a != b implies gp[a] != gp[b] by {
                                    assert(path@[a] != path@[b]);
                                }
                            }
                            lemma_distinct_positions_bounded(gp, n as int);
                        }
                    } else if stamp[w] == t {
                        // the chain has come back onto the current walk
                        let mut j: usize = 0;
                        proof {
                            assert(path@.contains(w));
                        }
                        while path[j] != w
                            invariant
                                j < path.len(),
                                path@.contains(w),
                                forall|b: int| 0 <= b < j ==> #[trigger] path@[b] != w,
                            decreases path.len() - j,
                        {
                            j = j + 1;
                            proof {
                                if j == path.len() {
                                    let b = choose|b: int| 0 <= b < path.len() && path@[b] == w;
                                    assert(path@[b] != w);
                                }
                            }
                        }
                        found = Some(j);
                        break;
                    } else {
                        proof {
                            if path@.contains(w) {
                                assert(stamp@[w as int] == t);
                            }
                        }
                        break;
                    }
                },
            }
        }
        let ghost k: nat = (path.len() - 1) as nat;
        proof {
            lemma_node_at_range(d, c as int, k);
            lemma_node_at_step(d, c as int, k);
        }
        // every position newly stamped by this walk that lies on a cycle is on the one just found
        if let Some(j) = found {
            let mut group: Vec<usize> = Vec::new();
            let mut b: usize = path.len();
            while b > j
                invariant
                    j <= b <= path.len(),
                    group.len() == path.len() - b,
                    forall|e: int| 0 <= e < group.len() ==> #[trigger] group@[e] == path@[path.len() - 1 - e],
                decreases b,
            {
                group.push(path[b - 1]);
                b = b - 1;
            }
            proof {
                let g = group@;
                let pl = path.len() as int;
                assert(g.len() == pl - j);
                assert forall|e: int| 0 <= e < g.len() implies canonical(d, #[trigger] g[e] as int) by {
                    let a = pl - 1 - e;
                    lemma_node_at_range(d, c as int, a as nat);
                    assert(node_at(d, c as int, a as nat) == Some(path@[a] as int));
                }
                assert forall|e: int| 1 <= e < g.len() implies succ_of(d, #[trigger] g[e] as int) == Some(g[e - 1] as int) by {
                    let a = pl - 1 - e;
                    lemma_node_at_step(d, c as int, a as nat);
                    assert(node_at(d, c as int, a as nat) == Some(path@[a] as int));
                    assert(node_at(d, c as int, (a + 1) as nat) == Some(path@[a + 1] as int));
                }
                assert(g.no_duplicates()) by {
                    assert forall|e1: int, e2: int| 0 <= e1 < g.len() && 0 <= e2 < g.len() && e1 != e2 implies g[e1] != g[e2] by {
                        assert(path@[pl - 1 - e1] != path@[pl - 1 - e2]);
                    }
                }
                assert(g[0] == path@[pl - 1]);
                assert(g[g.len() - 1] == path@[j as int]);
                assert(is_cycle_listing(d, g));
            }
            groups.push(group);
            proof {
                let g = group@;
                let pl = path.len() as int;
                let ghost_roots0 = roots;
                roots = roots.push(i as int);
                // the walk from this root is the first to meet the new cycle, and meets it at p_j
                assert(last_index_of(d, d[i as int].id@) == c as int);
                assert(node_at(d, c as int, j as nat) == Some(g[g.len() - 1] as int));
                assert forall|m: nat, a: int| #![trigger node_at(d, c as int, m), g[a]] m < j && 0 <= a < g.len() implies node_at(d, c as int, m) != Some(g[a] as int) by {
                    assert(node_at(d, c as int, m) == Some(path@[m as int] as int));
                    assert(g[a] == path@[pl - 1 - a]);
                    assert(path@[m as int] != path@[pl - 1 - a]);
                }
                assert(node_enters_at_last(d, c as int, g));
                assert(node_meets(d, c as int, g)) by {
                    assert(node_at(d, c as int, j as nat) == Some(g[g.len() - 1] as int));
                }
                assert forall|r2: int| 0 <= r2 < i implies !node_meets(d, #[trigger] root_pos(d, r2), g) by {
                    let c2 = root_pos(d, r2);
                    lemma_last_index_of(d, d[r2].id@);
                    lemma_canonical_of_last(d, d[r2].id@);
                    assert(st0[c2] != 0);
                    if node_meets(d, c2, g) {
                        let (m, a) = choose|m: nat, a: int| #![trigger node_at(d, c2, m), g[a]] 0 <= a < g.len() && node_at(d, c2, m) == Some(g[a] as int);
                        lemma_stamps_closed_chain(d, st0, c2, m);
                        assert(g[a] == path@[pl - 1 - a]);
                        assert(st0[path@[pl - 1 - a] as int] == 0);
                    }
                }
                assert(first_meeting_root(d, g, i as int));
                assert forall|gi: int| 0 <= gi < groups.len() implies first_meeting_root(d, #[trigger] groups@[gi]@, roots[gi]) by {
                    if gi < groups0.len() {
                        assert(groups@[gi] == groups0[gi]);
                    }
                }
                // disjointness: the new group holds only freshly stamped positions
                assert forall|g1: int, g2: int, a: int, b2: int|
                    0 <= g1 < groups.len() && 0 <= g2 < groups.len() && g1 != g2 && 0 <= a < groups@[g1]@.len()
                        && 0 <= b2 < groups@[g2]@.len() implies #[trigger] groups@[g1]@[a] != #[trigger] groups@[g2]@[b2] by {
                    if g1 == groups.len() - 1 {
                        assert(groups@[g1]@ == g);
                        assert(st0[g[a] as int] == 0) by {
                            assert(g[a] == path@[pl - 1 - a]);
                        }
                        assert(groups@[g2] == groups0[g2]);
                        assert(st0[groups0[g2]@[b2] as int] != 0);
                    } else if g2 == groups.len() - 1 {
                        assert(groups@[g2]@ == g);
                        assert(st0[g[b2] as int] == 0) by {
                            assert(g[b2] == path@[pl - 1 - b2]);
                        }
                        assert(groups@[g1] == groups0[g1]);
                        assert(st0[groups0[g1]@[a] as int] != 0);
                    } else {
                        assert(groups@[g1] == groups0[g1]);
                        assert(groups@[g2] == groups0[g2]);
                    }
                }
            }
        }
        proof {
            let pl = path.len() as int;
            // closure is kept: the walk ends where the chain ends or is already stamped
            assert forall|x: int| 0 <= x < n && #[trigger] stamp@[x] != 0 implies match succ_of(d, x) {
                Some(w) => 0 <= w < n && stamp@[w] != 0,
                None => true,
            } by {
                if let Some(w) = succ_of(d, x) {
                    lemma_succ_canonical(d, x);
                    if path@.contains(x as usize) {
                        let a = choose|a: int| 0 <= a < pl && path@[a] == x as usize;
                        if a + 1 < pl {
                            lemma_node_at_step(d, c as int, a as nat);
                            assert(node_at(d, c as int, a as nat) == Some(x));
                            assert(node_at(d, c as int, (a + 1) as nat) == Some(path@[a + 1] as int));
                            assert(path@.contains(path@[a + 1]));
                        } else {
                            assert(x == cur as int);
                            if let Some(j) = found {
                                assert(path@.contains(path@[j as int]));
                            }
                        }
                    } else {
                        assert(st0[x] != 0);
                    }
                }
            }
            assert forall|x: int| 0 <= x < n implies #[trigger] stamp@[x] <= i + 1 by {}
            assert forall|r: int| 0 <= r < i + 1 implies stamp@[last_index_of(d, #[trigger] d[r].id@)] != 0 by {
                if r == i {
                    assert(path@.contains(c));
                } else {
                    lemma_last_index_of(d, d[r].id@);
                }
            }
            assert forall|gi: int, a: int|
                0 <= gi < groups.len() && 0 <= a < groups@[gi]@.len() implies stamp@[#[trigger] groups@[gi]@[a] as int] != 0 by {
                if gi < groups0.len() {
                    assert(groups@[gi] == groups0[gi]);
                    assert(st0[groups0[gi]@[a] as int] != 0);
                } else {
                    let j = found->0;
                    assert(groups@[gi]@[a] == path@[pl - 1 - a]);
                    assert(path@.contains(path@[pl - 1 - a]));
                }
            }
            // cyclic positions stamped by this walk belong to the group just found
            assert forall|x: int|
                0 <= x < n && #[trigger] stamp@[x] != 0 && node_on_cycle(d, x) implies exists|gi: int, a: int|
                    0 <= gi < groups.len() && 0 <= a < groups@[gi]@.len() && #[trigger] groups@[gi]@[a] == x by {
                if path@.contains(x as usize) {
                    let a = choose|a: int| 0 <= a < pl && path@[a] == x as usize;
                    assert(node_at(d, c as int, a as nat) == Some(x));
                    let rest: nat = (pl - a) as nat;
                    lemma_node_at_compose(d, c as int, a as nat, rest);
                    assert(a + rest == k + 1);
                    match s@[cur as int] {
                        None => {
                            lemma_cycle_never_ends(d, x, rest);
                            assert(false);
                        },
                        Some(w) => {
                            assert(node_at(d, c as int, k + 1) == Some(w as int));
                            match found {
                                None => {
                                    lemma_cycle_returns(d, x, rest, w as int);
                                    let cc = choose|cc: nat| #[trigger] node_at(d, w as int, cc) == Some(x);
                                    lemma_succ_canonical(d, cur as int);
                                    lemma_stamps_closed_chain(d, st0, w as int, cc);
                                    assert(false);
                                },
                                Some(j) => {
                                    if a < j {
                                        let m = choose|m: nat| m >= 1 && #[trigger] node_at(d, x, m) == Some(x);
                                        lemma_node_at_compose(d, c as int, a as nat, m);
                                        assert(node_at(d, c as int, (a + m) as nat) == Some(x));
                                        assert(node_at(d, c as int, j as nat) == Some(path@[j as int] as int));
                                        if a + m >= j {
                                            lemma_node_at_covered(d, c as int, j as nat, k + 1, (a + m) as nat);
                                            let m2 = choose|m2: nat| j <= m2 < k + 1 && #[trigger] node_at(d, c as int, m2) == node_at(d, c as int, (a + m) as nat);
                                            assert(node_at(d, c as int, m2) == Some(path@[m2 as int] as int));
                                            assert(path@[m2 as int] == path@[a]);
                                            assert(false);
                                        } else {
                                            assert(node_at(d, c as int, (a + m) as nat) == Some(path@[a + m] as int));
                                            assert(path@[a + m] == path@[a]);
                                            assert(false);
                                        }
                                    } else {
                                        let gi = groups.len() - 1;
                                        let e = pl - 1 - a;
                                        assert(groups@[gi]@[e] == path@[pl - 1 - e]);
                                        assert(groups@[gi]@[e] == x);
                                    }
                                },
                            }
                        },
                    }
                } else {
                    assert(st0[x] != 0);
                    let gi0 = choose|gi: int, a: int|
                        0 <= gi < groups0.len() && 0 <= a < groups0[gi]@.len() && #[trigger] groups0[gi]@[a] == x;
                    let (gi, a) = gi0;
                    assert(groups@[gi] == groups0[gi]);
                }
            }
        }
        i = i + 1;
    }
    proof {
        assert forall|x: int|
            canonical(d, x) && node_on_cycle(d, x) implies exists|gi: int, a: int|
                0 <= gi < groups.len() && 0 <= a < groups@[gi]@.len() && #[trigger] groups@[gi]@[a] == x by {
            assert(last_index_of(d, d[x].id@) == x);
            assert(stamp@[last_index_of(d, d[x].id@)] != 0);
        }
    }
    let res = (groups, Ghost(roots));
    assert(res.0@ == groups@);
    res
}


/// `g` lists the ids of one whole cycle of documents: each listed id is the
/// parent of the next one, and the last listed id is the parent of the first.
pub open spec fn is_cycle_group(docs: Seq<DocumentResponse>, g: Seq<String>) -> bool {
    &&& g.len() >= 1
    &&& forall|a: int| 0 <= a < g.len() ==> last_index_of(docs, (#[trigger] g[a])@) >= 0
    &&& forall|a: int, b: int| 0 <= a < g.len() && 0 <= b < g.len() && a != b ==> (#[trigger] g[a])@ != (#[trigger] g[b])@
    &&& forall|a: int| 1 <= a < g.len() ==> parent_of(docs, (#[trigger] g[a])@) == Some(g[a - 1]@)
    &&& parent_of(docs, g[0]@) == Some(g[g.len() - 1]@)
}

proof fn lemma_node_from_ancestor(docs: Seq<DocumentResponse>, q: int, m: nat, y: Seq<char>)
    requires
        canonical(docs, q),
        ancestor_at(docs, docs[q].id@, m) == Some(y),
        last_index_of(docs, y) >= 0,
    ensures
        node_at(docs, q, m) == Some(last_index_of(docs, y)),
{
    lemma_ancestor_node(docs, q, m);
    lemma_node_at_range(docs, q, m);
    if let Some(z) = node_at(docs, q, m) {
        lemma_last_index_of(docs, y);
    }
}


/// The parent chain of the document at position `r` meets one of the ids in `g`.
pub open spec fn chain_meets(docs: Seq<DocumentResponse>, r: int, g: Seq<String>) -> bool {
    exists|m: nat, a: int|
        #![trigger ancestor_at(docs, docs[r].id@, m), g[a]]
        0 <= a < g.len() && ancestor_at(docs, docs[r].id@, m) == Some(g[a]@)
}

/// The parent chain of the document at position `r` meets `g` first at its last id.
pub open spec fn chain_enters_at_last(docs: Seq<DocumentResponse>, r: int, g: Seq<String>) -> bool {
    exists|m0: nat|
        #[trigger] ancestor_at(docs, docs[r].id@, m0) == Some(g[g.len() - 1]@) && forall|m: nat, a: int|
            #![trigger ancestor_at(docs, docs[r].id@, m), g[a]]
            m < m0 && 0 <= a < g.len() ==> ancestor_at(docs, docs[r].id@, m) != Some(g[a]@)
}

/// Document `r` is the first in the list whose parent chain meets the cycle `g`,
/// and its chain enters the cycle at the last id of `g`.
pub open spec fn is_first_meeting(docs: Seq<DocumentResponse>, g: Seq<String>, r: int) -> bool {
    &&& 0 <= r < docs.len()
    &&& chain_meets(docs, r, g)
    &&& chain_enters_at_last(docs, r, g)
    &&& forall|r2: int| 0 <= r2 < r ==> !chain_meets(docs, r2, g)
}

/// The document through which the cycle `g` is first reached.
pub open spec fn first_meeting_doc(docs: Seq<DocumentResponse>, g: Seq<String>) -> int {
    choose|r: int| is_first_meeting(docs, g, r)
}

proof fn lemma_first_meeting_unique(docs: Seq<DocumentResponse>, g: Seq<String>, r: int)
    requires
        is_first_meeting(docs, g, r),
    ensures
        first_meeting_doc(docs, g) == r,
{
    let r2 = first_meeting_doc(docs, g);
    assert(is_first_meeting(docs, g, r2));
    if r2 < r {
        assert(!chain_meets(docs, r2, g));
    } else if r < r2 {
        assert(!chain_meets(docs, r, g));
    }
}

proof fn lemma_step_match(
    docs: Seq<DocumentResponse>,
    r: int,
    pg: Seq<usize>,
    g: Seq<String>,
    m: nat,
    a: int,
)
    requires
        0 <= r < docs.len(),
        g.len() == pg.len(),
        0 <= a < g.len(),
        forall|e: int| 0 <= e < pg.len() ==> canonical(docs, #[trigger] pg[e] as int),
        forall|e: int| 0 <= e < g.len() ==> (#[trigger] g[e])@ == docs[pg[e] as int].id@,
    ensures
        (ancestor_at(docs, docs[r].id@, m) == Some(g[a]@)) == (node_at(docs, root_pos(docs, r), m) == Some(
            pg[a] as int,
        )),
{
    let c = root_pos(docs, r);
    lemma_last_index_of(docs, docs[r].id@);
    lemma_canonical_of_last(docs, docs[r].id@);
    lemma_ancestor_shift(docs, docs[r].id@, m);
    assert(canonical(docs, pg[a] as int));
    if ancestor_at(docs, docs[r].id@, m) == Some(g[a]@) {
        lemma_node_from_ancestor(docs, c, m, g[a]@);
    }
    if node_at(docs, c, m) == Some(pg[a] as int) {
        lemma_ancestor_node(docs, c, m);
    }
}

proof fn lemma_meets_translate(docs: Seq<DocumentResponse>, r: int, pg: Seq<usize>, g: Seq<String>)
    requires
        0 <= r < docs.len(),
        g.len() == pg.len(),
        g.len() >= 1,
        forall|e: int| 0 <= e < pg.len() ==> canonical(docs, #[trigger] pg[e] as int),
        forall|e: int| 0 <= e < g.len() ==> (#[trigger] g[e])@ == docs[pg[e] as int].id@,
    ensures
        chain_meets(docs, r, g) == node_meets(docs, root_pos(docs, r), pg),
        chain_enters_at_last(docs, r, g) == node_enters_at_last(docs, root_pos(docs, r), pg),
{
    let c = root_pos(docs, r);
    if chain_meets(docs, r, g) {
        let (m, a) = choose|m: nat, a: int|
            #![trigger ancestor_at(docs, docs[r].id@, m), g[a]]
            0 <= a < g.len() && ancestor_at(docs, docs[r].id@, m) == Some(g[a]@);
        lemma_step_match(docs, r, pg, g, m, a);
        assert(node_at(docs, c, m) == Some(pg[a] as int));
    }
    if node_meets(docs, c, pg) {
        let (m, a) = choose|m: nat, a: int|
            #![trigger node_at(docs, c, m), pg[a]]
            0 <= a < pg.len() && node_at(docs, c, m) == Some(pg[a] as int);
        lemma_step_match(docs, r, pg, g, m, a);
        assert(ancestor_at(docs, docs[r].id@, m) == Some(g[a]@));
    }
    let last = g.len() - 1;
    if chain_enters_at_last(docs, r, g) {
        let m0 = choose|m0: nat|
            #[trigger] ancestor_at(docs, docs[r].id@, m0) == Some(g[g.len() - 1]@) && forall|m: nat, a: int|
                #![trigger ancestor_at(docs, docs[r].id@, m), g[a]]
                m < m0 && 0 <= a < g.len() ==> ancestor_at(docs, docs[r].id@, m) != Some(g[a]@);
        lemma_step_match(docs, r, pg, g, m0, last);
        assert forall|m: nat, a: int| #![trigger node_at(docs, c, m), pg[a]] m < m0 && 0 <= a < pg.len() implies node_at(docs, c, m) != Some(pg[a] as int) by {
            lemma_step_match(docs, r, pg, g, m, a);
            assert(ancestor_at(docs, docs[r].id@, m) != Some(g[a]@));
        }
        assert(node_at(docs, c, m0) == Some(pg[pg.len() - 1] as int));
    }
    if node_enters_at_last(docs, c, pg) {
        let m0 = choose|m0: nat|
            #[trigger] node_at(docs, c, m0) == Some(pg[pg.len() - 1] as int) && forall|m: nat, a: int|
                #![trigger node_at(docs, c, m), pg[a]]
                m < m0 && 0 <= a < pg.len() ==> node_at(docs, c, m) != Some(pg[a] as int);
        lemma_step_match(docs, r, pg, g, m0, last);
        assert forall|m: nat, a: int| #![trigger ancestor_at(docs, docs[r].id@, m), g[a]] m < m0 && 0 <= a < g.len() implies ancestor_at(docs, docs[r].id@, m) != Some(g[a]@) by {
            lemma_step_match(docs, r, pg, g, m, a);
            assert(node_at(docs, c, m) != Some(pg[a] as int));
        }
        assert(ancestor_at(docs, docs[r].id@, m0) == Some(g[g.len() - 1]@));
    }
}

/// The groups of a detection as lists of ids.
pub open spec fn group_lists(groups: Seq<Vec<String>>) -> Seq<Seq<String>> {
    groups.map_values(|g: Vec<String>| g@)
}

/// `groups` lists the cycles among the documents' parent links the way
/// detection does: each group is one whole cycle, no id is in two groups,
/// every document on a cycle is listed, the groups come in the order of the
/// first document whose parent chain reaches each of them, and each group ends
/// with the id at which that chain enters the cycle.
#[verifier::opaque]
pub open spec fn is_cycle_detection(docs: Seq<DocumentResponse>, groups: Seq<Seq<String>>) -> bool {
    &&& forall|gi: int| 0 <= gi < groups.len() ==> is_cycle_group(docs, #[trigger] groups[gi])
    &&& forall|g1: int, g2: int, a: int, b: int|
        0 <= g1 < groups.len() && 0 <= g2 < groups.len() && g1 != g2 && 0 <= a < groups[g1].len() && 0 <= b
            < groups[g2].len() ==> (#[trigger] groups[g1][a])@ != (#[trigger] groups[g2][b])@
    &&& forall|i: int|
        0 <= i < docs.len() && on_cycle(docs, #[trigger] docs[i].id@) ==> exists|gi: int, a: int|
            0 <= gi < groups.len() && 0 <= a < groups[gi].len() && (#[trigger] groups[gi][a])@ == docs[i].id@
    &&& forall|gi: int|
        0 <= gi < groups.len() ==> is_first_meeting(docs, #[trigger] groups[gi], first_meeting_doc(docs, groups[gi]))
    &&& forall|g1: int, g2: int|
        0 <= g1 < g2 < groups.len() ==> #[trigger] first_meeting_doc(docs, groups[g1]) < #[trigger] first_meeting_doc(
            docs,
            groups[g2],
        )
}

/// Lists every cycle among the documents' parent links, as `is_cycle_detection`
/// describes: whole cycles, none listed twice, all of them, ordered by the
/// first document (in list order) whose parent chain reaches each, and each
/// ending with the id at which that chain enters it.
pub fn detect_document_cycle_groups(documents: &Vec<DocumentResponse>) -> (groups: Vec<Vec<String>>)
    ensures
        is_cycle_detection(documents@, group_lists(groups@)),
{
    let ghost d = documents@;
    let s = parent_positions(documents);
    let (positions, Ghost(roots)) = cycle_position_groups(documents, &s);
    let mut groups: Vec<Vec<String>> = Vec::new();
    let mut gi: usize = 0;
    while gi < positions.len()
        invariant
            d == documents@,
            gi <= positions.len(),
            groups.len() == gi,
            forall|x: int| 0 <= x < positions.len() ==> is_cycle_listing(d, #[trigger] positions@[x]@),
            forall|x: int|
                0 <= x < gi ==> (#[trigger] groups@[x])@.len() == positions@[x]@.len() && forall|a: int|
                    0 <= a < groups@[x]@.len() ==> (#[trigger] groups@[x]@[a])@ == d[positions@[x]@[a] as int].id@,
        decreases positions.len() - gi,
    {
        let pg = &positions[gi];
        let mut g: Vec<String> = Vec::new();
        let mut a: usize = 0;
        while a < pg.len()
            invariant
                d == documents@,
                pg@ == positions@[gi as int]@,
                is_cycle_listing(d, pg@),
                a <= pg.len(),
                g.len() == a,
                forall|e: int| 0 <= e < a ==> (#[trigger] g@[e])@ == d[pg@[e] as int].id@,
            decreases pg.len() - a,
        {
            assert(canonical(d, pg@[a as int] as int));
            g.push(documents[pg[a]].id.clone());
            a = a + 1;
        }
        groups.push(g);
        gi = gi + 1;
    }
    proof {
        assert forall|x: int| 0 <= x < groups.len() implies is_cycle_group(d, #[trigger] groups@[x]@) by {
            let g = groups@[x]@;
            let pg = positions@[x]@;
            assert(is_cycle_listing(d, pg));
            assert forall|a: int| 0 <= a < g.len() implies last_index_of(d, (#[trigger] g[a])@) >= 0 by {
                assert(canonical(d, pg[a] as int));
            }
            assert forall|a: int, b: int| 0 <= a < g.len() && 0 <= b < g.len() && a != b implies (#[trigger] g[a])@ != (#[trigger] g[b])@ by {
                assert(canonical(d, pg[a] as int));
                assert(canonical(d, pg[b] as int));
                assert(pg[a] != pg[b]);
            }
            assert forall|a: int| 1 <= a < g.len() implies parent_of(d, (#[trigger] g[a])@) == Some(g[a - 1]@) by {
                assert(canonical(d, pg[a] as int));
                assert(succ_of(d, pg[a] as int) == Some(pg[a - 1] as int));
                let pid = d[pg[a] as int].parent_document_id->0;
                lemma_last_index_of(d, pid@);
            }
            assert(canonical(d, pg[0] as int));
            let pid = d[pg[0] as int].parent_document_id->0;
            lemma_last_index_of(d, pid@);
        }
        assert forall|g1: int, g2: int, a: int, b: int|
            0 <= g1 < groups.len() && 0 <= g2 < groups.len() && g1 != g2 && 0 <= a < groups@[g1]@.len()
                && 0 <= b < groups@[g2]@.len() implies (#[trigger] groups@[g1]@[a])@ != (#[trigger] groups@[g2]@[b])@ by {
            let p1 = positions@[g1]@[a];
            let p2 = positions@[g2]@[b];
            assert(is_cycle_listing(d, positions@[g1]@));
            assert(is_cycle_listing(d, positions@[g2]@));
            assert(canonical(d, p1 as int));
            assert(canonical(d, p2 as int));
            assert(p1 != p2);
        }
        assert forall|i: int|
            0 <= i < documents.len() && on_cycle(d, #[trigger] d[i].id@) implies exists|gi: int, a: int|
                0 <= gi < groups.len() && 0 <= a < groups@[gi]@.len() && (#[trigger] groups@[gi]@[a])@
                    == d[i].id@ by {
            let x = d[i].id@;
            lemma_last_index_of(d, x);
            let l = last_index_of(d, x);
            lemma_canonical_of_last(d, x);
            let m = choose|m: nat| m >= 1 && #[trigger] ancestor_at(d, x, m) == Some(x);
            lemma_ancestor_shift(d, x, m);
            lemma_node_from_ancestor(d, l, m, x);
            assert(node_on_cycle(d, l));
            let (gi, a) = choose|gi: int, a: int|
                0 <= gi < positions.len() && 0 <= a < positions@[gi]@.len() && #[trigger] positions@[gi]@[a] == l;
            assert(groups@[gi]@[a]@ == d[l].id@);
        }
        assert forall|x: int| 0 <= x < groups.len() implies first_meeting_doc(d, #[trigger] groups@[x]@) == roots[x]
            && is_first_meeting(d, groups@[x]@, roots[x]) by {
            let g = groups@[x]@;
            let pg = positions@[x]@;
            assert(is_cycle_listing(d, pg));
            assert(first_meeting_root(d, pg, roots[x]));
            lemma_meets_translate(d, roots[x], pg, g);
            assert forall|r2: int| 0 <= r2 < roots[x] implies !chain_meets(d, r2, g) by {
                lemma_meets_translate(d, r2, pg, g);
                assert(!node_meets(d, root_pos(d, r2), pg));
            }
            assert(is_first_meeting(d, g, roots[x]));
            lemma_first_meeting_unique(d, g, roots[x]);
        }
        assert forall|x: int| 0 <= x < groups.len() implies is_first_meeting(d, #[trigger] groups@[x]@, first_meeting_doc(d, groups@[x]@)) by {
            assert(first_meeting_doc(d, groups@[x]@) == roots[x]);
        }
        assert forall|g1: int, g2: int|
            0 <= g1 < g2 < groups.len() implies #[trigger] first_meeting_doc(d, groups@[g1]@) < #[trigger] first_meeting_doc(d, groups@[g2]@) by {
            assert(first_meeting_doc(d, groups@[g1]@) == roots[g1]);
            assert(first_meeting_doc(d, groups@[g2]@) == roots[g2]);
        }
        let gl = group_lists(groups@);
        assert forall|x: int| 0 <= x < gl.len() implies #[trigger] gl[x] == groups@[x]@ by {}
        assert forall|g1: int, g2: int| 0 <= g1 < g2 < gl.len() implies #[trigger] first_meeting_doc(d, gl[g1])
            < #[trigger] first_meeting_doc(d, gl[g2]) by {
            assert(gl[g1] == groups@[g1]@);
            assert(gl[g2] == groups@[g2]@);
        }
        assert forall|i: int|
            0 <= i < d.len() && on_cycle(d, #[trigger] d[i].id@) implies exists|gi: int, a: int|
                0 <= gi < gl.len() && 0 <= a < gl[gi].len() && (#[trigger] gl[gi][a])@ == d[i].id@ by {
            let (gi, a) = choose|gi: int, a: int|
                0 <= gi < groups.len() && 0 <= a < groups@[gi]@.len() && (#[trigger] groups@[gi]@[a])@ == d[i].id@;
            assert(gl[gi] == groups@[gi]@);
            assert(gl[gi][a]@ == d[i].id@);
        }
        assert forall|g1: int, g2: int, a: int, b: int|
            0 <= g1 < gl.len() && 0 <= g2 < gl.len() && g1 != g2 && 0 <= a < gl[g1].len() && 0 <= b < gl[g2].len()
                implies (#[trigger] gl[g1][a])@ != (#[trigger] gl[g2][b])@ by {
            assert(gl[g1] == groups@[g1]@);
            assert(gl[g2] == groups@[g2]@);
            assert(groups@[g1]@[a]@ != groups@[g2]@[b]@);
        }
        reveal(is_cycle_detection);
    }
    groups
}

/// Walks up from the document at canonical position `q` and reports whether a
/// parent id equal to `target` is met after one or more steps.
fn strict_chain_meets(
    docs: &Vec<DocumentResponse>,
    s: &Vec<Option<usize>>,
    q: usize,
    target: &String,
) -> (r: bool)
    requires
        canonical(docs@, q as int),
        s.len() == docs.len(),
        forall|x: int|
            0 <= x < docs.len() ==> match #[trigger] s@[x] {
                Some(v) => succ_of(docs@, x) == Some(v as int),
                None => succ_of(docs@, x) is None,
            },
    ensures
        r == is_strict_ancestor(docs@, target@, docs@[q as int].id@),
{
    let n = docs.len();
    let ghost d = docs@;
    let ghost start = docs@[q as int].id@;
    let mut visited: Vec<bool> = vec![false; n];
    visited.set(q, true);
    let mut cur: usize = q;
    let ghost mut path: Seq<int> = seq![q as int];
    proof {
        lemma_ancestor_node(d, q as int, 0);
        assert forall|x: int| 0 <= x < n implies (#[trigger] visited@[x] <==> path.contains(x)) by {
            if x == q as int {
                assert(path[0] == x);
            }
        }
    }
    loop
        invariant
            n == docs.len(),
            s.len() == n,
            visited.len() == n,
            forall|x: int|
                0 <= x < n ==> match #[trigger] s@[x] {
                    Some(v) => succ_of(d, x) == Some(v as int),
                    None => succ_of(d, x) is None,
                },
            d == docs@,
            start == d[q as int].id@,
            canonical(d, q as int),
            1 <= path.len() <= n,
            path.no_duplicates(),
            path.last() == cur as int,
            forall|j: int|
                0 <= j < path.len() ==> node_at(d, q as int, j as nat) == Some(#[trigger] path[j]),
            forall|j: int| 0 <= j < path.len() ==> 0 <= #[trigger] path[j] < n,
            forall|x: int| 0 <= x < n ==> (#[trigger] visited@[x] <==> path.contains(x)),
            forall|m: nat|
                1 <= m < path.len() ==> #[trigger] ancestor_at(d, start, m) != Some(target@),
        decreases n - path.len(),
    {
        let ghost k: nat = (path.len() - 1) as nat;
        proof {
            lemma_node_at_range(d, q as int, k);
            lemma_ancestor_node(d, q as int, k);
            lemma_ancestor_node(d, q as int, k + 1);
            lemma_node_at_step(d, q as int, k);
        }
        match &docs[cur].parent_document_id {
            None => {
                proof {
                    assert(ancestor_at(d, start, k + 1) is None);
                    assert forall|m: nat| m >= 1 implies #[trigger] ancestor_at(d, start, m) != Some(target@) by {
                        if m > k {
                            lemma_ancestor_none_after(d, start, k + 1, m);
                        }
                    }
                }
                return false;
            },
            Some(p) => {
                if *p == *target {
                    proof {
                        assert(ancestor_at(d, start, k + 1) == Some(target@));
                    }
                    return true;
                }
                match s[cur] {
                    None => {
                        proof {
                            lemma_last_index_of(d, p@);
                            assert(ancestor_at(d, start, k + 1) == Some(p@));
                            assert forall|m: nat| m >= 1 implies #[trigger] ancestor_at(d, start, m) != Some(target@) by {
                                if m > k + 1 {
                                    lemma_ancestor_outside(d, p@, (m - k - 1) as nat);
                                    lemma_ancestor_compose(d, start, k + 1, (m - k - 1) as nat);
                                }
                            }
                        }
                        return false;
                    },
                    Some(l) => {
                        proof {
                            lemma_last_index_of(d, p@);
                            assert(node_at(d, q as int, k + 1) == Some(l as int));
                        }
                        if visited[l] {
                            proof {
                                let j = choose|j: int| 0 <= j < path.len() && path[j] == l as int;
                                assert(node_at(d, q as int, j as nat) == node_at(d, q as int, k + 1));
                                assert forall|m: nat| m >= 1 implies #[trigger] ancestor_at(d, start, m) != Some(target@) by {
                                    if m > k {
                                        lemma_node_at_covered(d, q as int, j as nat, k + 1, m);
                                        let m2 = choose|m2: nat| j <= m2 < k + 1 && node_at(d, q as int, m2) == node_at(d, q as int, m);
                                        assert(node_at(d, q as int, m2 as nat) == Some(path[m2 as int]));
                                        lemma_ancestor_node(d, q as int, m);
                                        lemma_ancestor_node(d, q as int, m2);
                                        if m2 >= 1 {
                                            assert(ancestor_at(d, start, m2) != Some(target@));
                                        }
                                        if m2 == 0 {
                                            assert(path[0] == q as int);
                                            assert(d[l as int].id@ == p@);
                                        }
                                    }
                                }
                            }
                            return false;
                        }
                        visited.set(l, true);
                        cur = l;
                        proof {
                            let old_path = path;
                            path = path.push(l as int);
                            assert forall|x: int| 0 <= x < n implies (#[trigger] visited@[x] <==> path.contains(x)) by {
                                if x == l as int {
                                    assert(path[path.len() - 1] == x);
                                } else {
                                    if old_path.contains(x) {
                                        let i = choose|i: int| 0 <= i < old_path.len() && old_path[i] == x;
                                        assert(path[i] == x);
                                    }
                                    if path.contains(x) {
                                        let i = choose|i: int| 0 <= i < path.len() && path[i] == x;
                                        assert(i < old_path.len());
                                        assert(old_path[i] == x);
                                    }
                                }
                            }
                            lemma_distinct_positions_bounded(path, n as int);
                        }
                    },
                }
            },
        }
    }
}

/// Whether making `candidate_parent_id` the parent of `document_id` would put
/// `document_id` among its own ancestors: true exactly when `document_id` is
/// reached from `candidate_parent_id` by following parents zero or more times.
pub fn would_create_document_cycle(
    documents: &Vec<DocumentResponse>,
    document_id: &String,
    candidate_parent_id: &String,
) -> (r: bool)
    ensures
        r == reaches(documents@, candidate_parent_id@, document_id@),
{
    let ghost d = documents@;
    if *candidate_parent_id == *document_id {
        proof {
            assert(ancestor_at(d, candidate_parent_id@, 0) == Some(document_id@));
        }
        return true;
    }
    let s = parent_positions(documents);
    match find_last_index(documents, candidate_parent_id) {
        None => {
            proof {
                assert forall|m: nat| #[trigger] ancestor_at(d, candidate_parent_id@, m) != Some(document_id@) by {
                    if m >= 1 {
                        lemma_ancestor_outside(d, candidate_parent_id@, m);
                    }
                }
            }
            false
        },
        Some(l) => {
            proof {
                lemma_canonical_of_last(d, candidate_parent_id@);
            }
            let r = strict_chain_meets(documents, &s, l, document_id);
            proof {
                lemma_last_index_of(d, candidate_parent_id@);
                assert forall|m: nat| #[trigger] ancestor_at(d, candidate_parent_id@, m) == ancestor_at(d, d[l as int].id@, m) by {
                    lemma_ancestor_shift(d, candidate_parent_id@, m);
                }
                if r {
                    let m = choose|m: nat| m >= 1 && #[trigger] ancestor_at(d, d[l as int].id@, m) == Some(document_id@);
                    assert(ancestor_at(d, candidate_parent_id@, m) == Some(document_id@));
                } else {
                    assert forall|m: nat| #[trigger] ancestor_at(d, candidate_parent_id@, m) != Some(document_id@) by {
                        if m >= 1 {
                            assert(ancestor_at(d, d[l as int].id@, m) != Some(document_id@));
                        }
                    }
                }
            }
            r
        },
    }
}

/// Whether `ancestor_document_id` is a strict ancestor of `candidate_descendant_id`.
pub fn is_descendant_of(
    documents: &Vec<DocumentResponse>,
    ancestor_document_id: &String,
    candidate_descendant_id: &String,
) -> (r: bool)
    ensures
        r == is_strict_ancestor(documents@, ancestor_document_id@, candidate_descendant_id@),
{
    let ghost d = documents@;
    let s = parent_positions(documents);
    match find_last_index(documents, candidate_descendant_id) {
        None => {
            proof {
                assert forall|m: nat| m >= 1 implies #[trigger] ancestor_at(d, candidate_descendant_id@, m) != Some(ancestor_document_id@) by {
                    lemma_ancestor_outside(d, candidate_descendant_id@, m);
                }
            }
            false
        },
        Some(l) => {
            proof {
                lemma_canonical_of_last(d, candidate_descendant_id@);
            }
            let r = strict_chain_meets(documents, &s, l, ancestor_document_id);
            proof {
                assert forall|m: nat| #[trigger] ancestor_at(d, candidate_descendant_id@, m) == ancestor_at(d, d[l as int].id@, m) by {
                    lemma_ancestor_shift(d, candidate_descendant_id@, m);
                }
                if r {
                    let m = choose|m: nat| m >= 1 && #[trigger] ancestor_at(d, d[l as int].id@, m) == Some(ancestor_document_id@);
                    assert(ancestor_at(d, candidate_descendant_id@, m) == Some(ancestor_document_id@));
                } else {
                    assert forall|m: nat| m >= 1 implies #[trigger] ancestor_at(d, candidate_descendant_id@, m) != Some(ancestor_document_id@) by {
                        assert(ancestor_at(d, d[l as int].id@, m) != Some(ancestor_document_id@));
                    }
                }
            }
            r
        },
    }
}

} // verus!
