//! What detection's description of the cycles pins down: there is only one
//! listing that fits it, and the cycles it lists, read as sets of ids, do not
//! depend on the order in which the documents come.
use vstd::prelude::*;

use crate::doc_tree::{
    ancestor_at, chain_enters_at_last, chain_meets, first_meeting_doc, is_cycle_detection, is_cycle_group,
    is_first_meeting, last_index_of, lemma_ancestor_compose, lemma_last_index_of, on_cycle, parent_of,
};
use crate::documents::DocumentResponse;

verus! {

/// Every id of `g` is an id of `h`.
pub open spec fn members_within(g: Seq<String>, h: Seq<String>) -> bool {
    forall|a: int| 0 <= a < g.len() ==> exists|b: int| 0 <= b < h.len() && (#[trigger] h[b])@ == (#[trigger] g[a])@
}

/// `g` and `h` list the same ids.
pub open spec fn same_members(g: Seq<String>, h: Seq<String>) -> bool {
    members_within(g, h) && members_within(h, g)
}

/// No two documents share an id.
pub open spec fn distinct_ids(docs: Seq<DocumentResponse>) -> bool {
    forall|i: int, j: int| 0 <= i < docs.len() && 0 <= j < docs.len() && i != j ==> (#[trigger] docs[i]).id@ != (#[trigger] docs[j]).id@
}

/// Every document of `docs` is also in `other`.
pub open spec fn documents_within(docs: Seq<DocumentResponse>, other: Seq<DocumentResponse>) -> bool {
    forall|i: int| 0 <= i < docs.len() ==> other.contains(#[trigger] docs[i])
}

/// `other` holds the same documents as `docs`, possibly in another order.
pub open spec fn same_documents(docs: Seq<DocumentResponse>, other: Seq<DocumentResponse>) -> bool {
    &&& docs.len() == other.len()
    &&& documents_within(docs, other)
    &&& documents_within(other, docs)
}

// ---------------------------------------------------------------------------
// Walking round one cycle
// ---------------------------------------------------------------------------

/// Walking `k` parent steps from a member of a cycle listing goes `k` places back.
proof fn lemma_cycle_back(docs: Seq<DocumentResponse>, g: Seq<String>, a: int, k: nat)
    requires
        is_cycle_group(docs, g),
        0 <= k <= a < g.len(),
    ensures
        ancestor_at(docs, g[a]@, k) == Some(g[a - k]@),
    decreases k,
{
    if k > 0 {
        lemma_cycle_back(docs, g, a, (k - 1) as nat);
        assert(parent_of(docs, g[a - k + 1]@) == Some(g[a - k]@));
    }
}

/// After as many steps as the cycle is long, the walk is back at its last id.
proof fn lemma_cycle_round(docs: Seq<DocumentResponse>, g: Seq<String>)
    requires
        is_cycle_group(docs, g),
    ensures
        ancestor_at(docs, g[g.len() - 1]@, g.len()) == Some(g[g.len() - 1]@),
        on_cycle(docs, g[g.len() - 1]@),
{
    let n = g.len();
    lemma_cycle_back(docs, g, n - 1, (n - 1) as nat);
    assert(ancestor_at(docs, g[n - 1]@, n) == Some(g[n - 1]@));
}

/// Each member of a cycle is reached from every other by following parents.
proof fn lemma_cycle_reaches(docs: Seq<DocumentResponse>, g: Seq<String>, a: int, a2: int) -> (j: nat)
    requires
        is_cycle_group(docs, g),
        0 <= a < g.len(),
        0 <= a2 < g.len(),
    ensures
        ancestor_at(docs, g[a]@, j) == Some(g[a2]@),
{
    let n = g.len();
    if a2 <= a {
        lemma_cycle_back(docs, g, a, (a - a2) as nat);
        (a - a2) as nat
    } else {
        lemma_cycle_back(docs, g, a, a as nat);
        assert(ancestor_at(docs, g[a]@, (a + 1) as nat) == Some(g[n - 1]@));
        lemma_cycle_back(docs, g, n - 1, (n - 1 - a2) as nat);
        lemma_ancestor_compose(docs, g[a]@, (a + 1) as nat, (n - 1 - a2) as nat);
        (a + 1 + (n - 1 - a2)) as nat
    }
}

/// Following parents from a member of a cycle never leaves it.
proof fn lemma_cycle_closed(docs: Seq<DocumentResponse>, g: Seq<String>, b: int, j: nat)
    requires
        is_cycle_group(docs, g),
        0 <= b < g.len(),
    ensures
        exists|c: int| 0 <= c < g.len() && ancestor_at(docs, g[b]@, j) == Some(#[trigger] g[c]@),
    decreases j,
{
    if j > 0 {
        lemma_cycle_closed(docs, g, b, (j - 1) as nat);
        let c = choose|c: int| 0 <= c < g.len() && ancestor_at(docs, g[b]@, (j - 1) as nat) == Some(#[trigger] g[c]@);
        if c >= 1 {
            assert(parent_of(docs, g[c]@) == Some(g[c - 1]@));
            assert(ancestor_at(docs, g[b]@, j) == Some(g[c - 1]@));
        } else {
            assert(ancestor_at(docs, g[b]@, j) == Some(g[g.len() - 1]@));
        }
    }
}

/// Two cycle listings that share one id list the same ids.
proof fn lemma_shared_member(docs: Seq<DocumentResponse>, g: Seq<String>, h: Seq<String>, a: int, b: int)
    requires
        is_cycle_group(docs, g),
        is_cycle_group(docs, h),
        0 <= a < g.len(),
        0 <= b < h.len(),
        g[a]@ == h[b]@,
    ensures
        same_members(g, h),
{
    assert forall|a2: int| 0 <= a2 < g.len() implies exists|b2: int| 0 <= b2 < h.len() && (#[trigger] h[b2])@ == (#[trigger] g[a2])@ by {
        let j = lemma_cycle_reaches(docs, g, a, a2);
        lemma_cycle_closed(docs, h, b, j);
    }
    assert forall|b2: int| 0 <= b2 < h.len() implies exists|a2: int| 0 <= a2 < g.len() && (#[trigger] g[a2])@ == (#[trigger] h[b2])@ by {
        let j = lemma_cycle_reaches(docs, h, b, b2);
        lemma_cycle_closed(docs, g, a, j);
    }
}

/// A cycle listing is fixed by its last id.
proof fn lemma_listing_from_last(docs: Seq<DocumentResponse>, g: Seq<String>, h: Seq<String>)
    requires
        is_cycle_group(docs, g),
        is_cycle_group(docs, h),
        g[g.len() - 1]@ == h[h.len() - 1]@,
    ensures
        g.len() == h.len(),
        forall|a: int| 0 <= a < g.len() ==> (#[trigger] g[a])@ == h[a]@,
{
    let n = g.len();
    let m = h.len();
    let x = g[n - 1]@;
    if n < m {
        lemma_cycle_round(docs, g);
        lemma_cycle_back(docs, h, m - 1, n as nat);
        assert(h[m - 1 - n]@ == h[m - 1]@);
        assert(false);
    }
    if m < n {
        lemma_cycle_round(docs, h);
        lemma_cycle_back(docs, g, n - 1, m as nat);
        assert(g[n - 1 - m]@ == g[n - 1]@);
        assert(false);
    }
    assert forall|a: int| 0 <= a < g.len() implies (#[trigger] g[a])@ == h[a]@ by {
        lemma_cycle_back(docs, g, n - 1, (n - 1 - a) as nat);
        lemma_cycle_back(docs, h, n - 1, (n - 1 - a) as nat);
    }
}

// ---------------------------------------------------------------------------
// Chains that reach a cycle
// ---------------------------------------------------------------------------

/// Whether a chain meets a cycle depends only on the cycle's ids.
proof fn lemma_meets_same(docs: Seq<DocumentResponse>, r: int, g: Seq<String>, h: Seq<String>)
    requires
        same_members(g, h),
    ensures
        chain_meets(docs, r, g) == chain_meets(docs, r, h),
{
    if chain_meets(docs, r, g) {
        let (m, a) = choose|m: nat, a: int|
            #![trigger ancestor_at(docs, docs[r].id@, m), g[a]]
            0 <= a < g.len() && ancestor_at(docs, docs[r].id@, m) == Some(g[a]@);
        let b = choose|b: int| 0 <= b < h.len() && (#[trigger] h[b])@ == g[a]@;
        assert(ancestor_at(docs, docs[r].id@, m) == Some(h[b]@));
    }
    if chain_meets(docs, r, h) {
        let (m, b) = choose|m: nat, b: int|
            #![trigger ancestor_at(docs, docs[r].id@, m), h[b]]
            0 <= b < h.len() && ancestor_at(docs, docs[r].id@, m) == Some(h[b]@);
        let a = choose|a: int| 0 <= a < g.len() && (#[trigger] g[a])@ == h[b]@;
        assert(ancestor_at(docs, docs[r].id@, m) == Some(g[a]@));
    }
}

/// A chain enters a cycle at one id, whichever listing of the cycle is used.
proof fn lemma_entry_same(docs: Seq<DocumentResponse>, r: int, g: Seq<String>, h: Seq<String>)
    requires
        g.len() >= 1,
        h.len() >= 1,
        same_members(g, h),
        chain_enters_at_last(docs, r, g),
        chain_enters_at_last(docs, r, h),
    ensures
        g[g.len() - 1]@ == h[h.len() - 1]@,
{
    let x = docs[r].id@;
    let mg = choose|m0: nat|
        #[trigger] ancestor_at(docs, x, m0) == Some(g[g.len() - 1]@) && forall|m: nat, a: int|
            #![trigger ancestor_at(docs, x, m), g[a]]
            m < m0 && 0 <= a < g.len() ==> ancestor_at(docs, x, m) != Some(g[a]@);
    let mh = choose|m0: nat|
        #[trigger] ancestor_at(docs, x, m0) == Some(h[h.len() - 1]@) && forall|m: nat, b: int|
            #![trigger ancestor_at(docs, x, m), h[b]]
            m < m0 && 0 <= b < h.len() ==> ancestor_at(docs, x, m) != Some(h[b]@);
    if mg < mh {
        let b = choose|b: int| 0 <= b < h.len() && (#[trigger] h[b])@ == g[g.len() - 1]@;
        assert(ancestor_at(docs, x, mg) != Some(h[b]@));
    }
    if mh < mg {
        let a = choose|a: int| 0 <= a < g.len() && (#[trigger] g[a])@ == h[h.len() - 1]@;
        assert(ancestor_at(docs, x, mh) != Some(g[a]@));
    }
}

/// Two listings with the same ids are reached first through the same document.
proof fn lemma_first_meeting_same(docs: Seq<DocumentResponse>, g: Seq<String>, h: Seq<String>)
    requires
        same_members(g, h),
        is_first_meeting(docs, g, first_meeting_doc(docs, g)),
        is_first_meeting(docs, h, first_meeting_doc(docs, h)),
    ensures
        first_meeting_doc(docs, g) == first_meeting_doc(docs, h),
{
    let rg = first_meeting_doc(docs, g);
    let rh = first_meeting_doc(docs, h);
    lemma_meets_same(docs, rg, g, h);
    lemma_meets_same(docs, rh, g, h);
    if rg < rh {
        assert(!chain_meets(docs, rg, h));
    }
    if rh < rg {
        assert(!chain_meets(docs, rh, g));
    }
}

// ---------------------------------------------------------------------------
// Matching two listings
// ---------------------------------------------------------------------------

/// `g` and `h` are the same list of ids.
pub open spec fn same_listing(g: Seq<String>, h: Seq<String>) -> bool {
    g.len() == h.len() && forall|a: int| 0 <= a < g.len() ==> (#[trigger] g[a])@ == h[a]@
}

/// Each group of one fitting listing is, id for id, a group of any other.
proof fn lemma_group_match(docs: Seq<DocumentResponse>, gs: Seq<Seq<String>>, hs: Seq<Seq<String>>, i: int) -> (j: int)
    requires
        is_cycle_detection(docs, gs),
        is_cycle_detection(docs, hs),
        0 <= i < gs.len(),
    ensures
        0 <= j < hs.len(),
        same_listing(gs[i], hs[j]),
        first_meeting_doc(docs, gs[i]) == first_meeting_doc(docs, hs[j]),
{
    reveal(is_cycle_detection);
    let g = gs[i];
    assert(is_cycle_group(docs, g));
    let n = g.len();
    let x = g[n - 1]@;
    lemma_cycle_round(docs, g);
    lemma_last_index_of(docs, x);
    let l = last_index_of(docs, x);
    assert(on_cycle(docs, docs[l].id@));
    let (j, b) = choose|j: int, b: int| 0 <= j < hs.len() && 0 <= b < hs[j].len() && (#[trigger] hs[j][b])@ == docs[l].id@;
    let h = hs[j];
    assert(is_cycle_group(docs, h));
    lemma_shared_member(docs, g, h, n - 1, b);
    assert(is_first_meeting(docs, g, first_meeting_doc(docs, g)));
    assert(is_first_meeting(docs, h, first_meeting_doc(docs, h)));
    lemma_first_meeting_same(docs, g, h);
    lemma_entry_same(docs, first_meeting_doc(docs, g), g, h);
    lemma_listing_from_last(docs, g, h);
    j
}

/// A strictly increasing list of integers grows by at least one per place.
proof fn lemma_increasing_gaps(f: Seq<int>, i: int, j: int)
    requires
        forall|x: int, y: int| 0 <= x < y < f.len() ==> #[trigger] f[x] < #[trigger] f[y],
        0 <= i <= j < f.len(),
    ensures
        f[j] - f[i] >= j - i,
    decreases j - i,
{
    if i < j {
        lemma_increasing_gaps(f, i, j - 1);
        assert(f[j - 1] < f[j]);
    }
}

/// A strictly increasing list of positions below `m` is no longer than `m`,
/// and if it is as long it lists every position in order.
proof fn lemma_increasing_onto(f: Seq<int>, m: int)
    requires
        0 <= m,
        forall|x: int, y: int| 0 <= x < y < f.len() ==> #[trigger] f[x] < #[trigger] f[y],
        forall|i: int| 0 <= i < f.len() ==> 0 <= #[trigger] f[i] < m,
    ensures
        f.len() <= m,
        f.len() == m ==> forall|i: int| 0 <= i < f.len() ==> #[trigger] f[i] == i,
{
    let n = f.len() as int;
    if n > 0 {
        lemma_increasing_gaps(f, 0, n - 1);
        assert(0 <= f[0]);
        assert(f[n - 1] < m);
    }
    if n == m {
        assert forall|i: int| 0 <= i < n implies #[trigger] f[i] == i by {
            lemma_increasing_gaps(f, 0, i);
            lemma_increasing_gaps(f, i, n - 1);
            assert(0 <= f[0]);
            assert(f[n - 1] < m);
        }
    }
}

/// The positions of `gs`'s groups in `hs`.
spec fn match_positions(docs: Seq<DocumentResponse>, gs: Seq<Seq<String>>, hs: Seq<Seq<String>>) -> Seq<int> {
    Seq::new(
        gs.len(),
        |i: int|
            choose|j: int|
                0 <= j < hs.len() && same_listing(gs[i], hs[j]) && first_meeting_doc(docs, gs[i]) == first_meeting_doc(
                    docs,
                    hs[j],
                ),
    )
}

/// The positions of `gs`'s groups in `hs` strictly increase.
proof fn lemma_match_positions(docs: Seq<DocumentResponse>, gs: Seq<Seq<String>>, hs: Seq<Seq<String>>)
    requires
        is_cycle_detection(docs, gs),
        is_cycle_detection(docs, hs),
    ensures
        match_positions(docs, gs, hs).len() == gs.len(),
        forall|i: int|
            0 <= i < gs.len() ==> 0 <= #[trigger] match_positions(docs, gs, hs)[i] < hs.len() && same_listing(
                gs[i],
                hs[match_positions(docs, gs, hs)[i]],
            ),
        forall|x: int, y: int|
            0 <= x < y < gs.len() ==> #[trigger] match_positions(docs, gs, hs)[x] < #[trigger] match_positions(
                docs,
                gs,
                hs,
            )[y],
{
    reveal(is_cycle_detection);
    let f = match_positions(docs, gs, hs);
    assert forall|i: int| 0 <= i < gs.len() implies 0 <= #[trigger] f[i] < hs.len() && same_listing(gs[i], hs[f[i]])
        && first_meeting_doc(docs, gs[i]) == first_meeting_doc(docs, hs[f[i]]) by {
        let j = lemma_group_match(docs, gs, hs, i);
    }
    assert forall|x: int, y: int| 0 <= x < y < gs.len() implies #[trigger] f[x] < #[trigger] f[y] by {
        assert(0 <= f[x] < hs.len() && first_meeting_doc(docs, gs[x]) == first_meeting_doc(docs, hs[f[x]]));
        assert(0 <= f[y] < hs.len() && first_meeting_doc(docs, gs[y]) == first_meeting_doc(docs, hs[f[y]]));
        assert(first_meeting_doc(docs, gs[x]) < first_meeting_doc(docs, gs[y]));
        if f[y] < f[x] {
            assert(first_meeting_doc(docs, hs[f[y]]) < first_meeting_doc(docs, hs[f[x]]));
        }
    }
}

// ---------------------------------------------------------------------------
// Laws
// ---------------------------------------------------------------------------

/// Only one listing fits detection's description of the documents' cycles:
/// two listings that both fit it have the same groups in the same order, each
/// with the same ids in the same order.  So the groups that a repair reports
/// are exactly those that detection gives for the same documents.
pub proof fn law_cycle_detection_unique(docs: Seq<DocumentResponse>, gs: Seq<Seq<String>>, hs: Seq<Seq<String>>)
    requires
        is_cycle_detection(docs, gs),
        is_cycle_detection(docs, hs),
    ensures
        gs.len() == hs.len(),
        forall|i: int| 0 <= i < gs.len() ==> (#[trigger] gs[i]).len() == hs[i].len(),
        forall|i: int, a: int| 0 <= i < gs.len() && 0 <= a < gs[i].len() ==> (#[trigger] gs[i][a])@ == hs[i][a]@,
{
    lemma_match_positions(docs, gs, hs);
    lemma_match_positions(docs, hs, gs);
    let f = match_positions(docs, gs, hs);
    let g = match_positions(docs, hs, gs);
    lemma_increasing_onto(g, gs.len() as int);
    lemma_increasing_onto(f, hs.len() as int);
    assert forall|i: int| 0 <= i < gs.len() implies (#[trigger] gs[i]).len() == hs[i].len() by {
        assert(f[i] == i);
        assert(same_listing(gs[i], hs[f[i]]));
    }
    assert forall|i: int, a: int| 0 <= i < gs.len() && 0 <= a < gs[i].len() implies (#[trigger] gs[i][a])@ == hs[i][a]@ by {
        assert(f[i] == i);
        assert(same_listing(gs[i], hs[f[i]]));
    }
}

/// With distinct ids, a document's parent does not depend on where it stands in the list.
proof fn lemma_same_parent(docs: Seq<DocumentResponse>, other: Seq<DocumentResponse>, x: Seq<char>)
    requires
        distinct_ids(docs),
        distinct_ids(other),
        same_documents(docs, other),
    ensures
        parent_of(docs, x) == parent_of(other, x),
        (last_index_of(docs, x) >= 0) == (last_index_of(other, x) >= 0),
{
    lemma_last_index_of(docs, x);
    lemma_last_index_of(other, x);
    let l = last_index_of(docs, x);
    let l2 = last_index_of(other, x);
    if l >= 0 {
        assert(other.contains(docs[l]));
        let j = choose|j: int| 0 <= j < other.len() && other[j] == docs[l];
        assert(other[j].id@ == x);
        assert(l2 >= 0);
        if l2 != j {
            assert(other[l2].id@ != other[j].id@);
        }
    } else if l2 >= 0 {
        assert(docs.contains(other[l2]));
        let i = choose|i: int| 0 <= i < docs.len() && docs[i] == other[l2];
        assert(docs[i].id@ == x);
    }
}

/// A cycle of `docs` is a cycle of the same documents in another order.
proof fn lemma_cycle_group_moves(docs: Seq<DocumentResponse>, other: Seq<DocumentResponse>, g: Seq<String>)
    requires
        distinct_ids(docs),
        distinct_ids(other),
        same_documents(docs, other),
        is_cycle_group(docs, g),
    ensures
        is_cycle_group(other, g),
{
    assert forall|a: int| 0 <= a < g.len() implies last_index_of(other, (#[trigger] g[a])@) >= 0 by {
        lemma_same_parent(docs, other, g[a]@);
    }
    assert forall|a: int| 1 <= a < g.len() implies parent_of(other, (#[trigger] g[a])@) == Some(g[a - 1]@) by {
        lemma_same_parent(docs, other, g[a]@);
    }
    lemma_same_parent(docs, other, g[0]@);
}

/// Two orderings of one list of documents hold the same documents.
proof fn lemma_permutation_same_documents(docs: Seq<DocumentResponse>, other: Seq<DocumentResponse>)
    requires
        docs.to_multiset() == other.to_multiset(),
    ensures
        same_documents(docs, other),
{
    docs.to_multiset_ensures();
    other.to_multiset_ensures();
    assert forall|i: int| 0 <= i < docs.len() implies other.contains(#[trigger] docs[i]) by {
        assert(docs.contains(docs[i]));
        assert(other.to_multiset().count(docs[i]) > 0);
    }
    assert forall|j: int| 0 <= j < other.len() implies docs.contains(#[trigger] other[j]) by {
        assert(other.contains(other[j]));
        assert(docs.to_multiset().count(other[j]) > 0);
    }
}

/// A group of one listing has a group with the same ids in a listing of the
/// same documents in another order.
proof fn lemma_group_in_other_order(
    docs: Seq<DocumentResponse>,
    other: Seq<DocumentResponse>,
    gs: Seq<Seq<String>>,
    hs: Seq<Seq<String>>,
    i: int,
) -> (j: int)
    requires
        distinct_ids(docs),
        distinct_ids(other),
        same_documents(docs, other),
        is_cycle_detection(docs, gs),
        is_cycle_detection(other, hs),
        0 <= i < gs.len(),
    ensures
        0 <= j < hs.len(),
        same_members(gs[i], hs[j]),
{
    reveal(is_cycle_detection);
    let g = gs[i];
    assert(is_cycle_group(docs, g));
    lemma_cycle_group_moves(docs, other, g);
    let n = g.len();
    let x = g[n - 1]@;
    lemma_cycle_round(other, g);
    lemma_last_index_of(other, x);
    let l = last_index_of(other, x);
    assert(on_cycle(other, other[l].id@));
    let (j, b) = choose|j: int, b: int| 0 <= j < hs.len() && 0 <= b < hs[j].len() && (#[trigger] hs[j][b])@ == other[l].id@;
    assert(is_cycle_group(other, hs[j]));
    lemma_shared_member(other, g, hs[j], n - 1, b);
    j
}

/// Some group of `hs` lists the same ids as `g`.
pub open spec fn has_same_group(g: Seq<String>, hs: Seq<Seq<String>>) -> bool {
    exists|j: int| 0 <= j < hs.len() && same_members(g, #[trigger] hs[j])
}

/// Every group of `gs` lists the same ids as some group of `hs`.
pub open spec fn groups_within(gs: Seq<Seq<String>>, hs: Seq<Seq<String>>) -> bool {
    forall|i: int| 0 <= i < gs.len() ==> has_same_group(#[trigger] gs[i], hs)
}

/// With distinct ids, the cycles found do not depend on the order of the
/// documents: for two orderings of the same documents, every group of the one
/// listing has a group with the same ids in the other, and the other way round
/// (only the order of the groups and of the ids in them may differ).
pub proof fn law_cycle_detection_ignores_order(
    docs: Seq<DocumentResponse>,
    other: Seq<DocumentResponse>,
    gs: Seq<Seq<String>>,
    hs: Seq<Seq<String>>,
)
    requires
        distinct_ids(docs),
        distinct_ids(other),
        docs.to_multiset() == other.to_multiset(),
        is_cycle_detection(docs, gs),
        is_cycle_detection(other, hs),
    ensures
        groups_within(gs, hs),
        groups_within(hs, gs),
{
    lemma_permutation_same_documents(docs, other);
    assert forall|i: int| 0 <= i < gs.len() implies has_same_group(#[trigger] gs[i], hs) by {
        let j = lemma_group_in_other_order(docs, other, gs, hs, i);
        assert(same_members(gs[i], hs[j]));
    }
    assert forall|j: int| 0 <= j < hs.len() implies has_same_group(#[trigger] hs[j], gs) by {
        let i = lemma_group_in_other_order(other, docs, hs, gs, j);
        assert(same_members(hs[j], gs[i]));
    }
}

} // verus!
