//! Properties of document parent links that hold across operations: a move or
//! update that passes the cycle check keeps the tree free of cycles, and a
//! repair that clears one parent link per detected cycle leaves none behind.
use vstd::prelude::*;

use crate::doc_tree::{
    acyclic, ancestor_at, is_cycle_detection, is_cycle_group, is_strict_ancestor, last_index_of, lemma_ancestor_outside,
    lemma_last_index_of, on_cycle, parent_of, reaches,
};
use crate::documents::{
    child_ids, document_of, has_document, is_repair_choice, is_repair_plan, is_repair_target, move_error,
    moves_into_descendant, update_error, update_field_problem, updated_parent, DocumentResponse,
    UpdateDocumentRequest,
};
use crate::text::{opt_view, views};

verus! {

/// A parent relation on ids.
pub type ParentFn = spec_fn(Seq<char>) -> Option<Seq<char>>;

/// The parent relation recorded by the documents.
pub open spec fn parent_fn(docs: Seq<DocumentResponse>) -> ParentFn {
    |x: Seq<char>| parent_of(docs, x)
}

/// Following `f` from `x` for `m` steps.
pub open spec fn follow(f: ParentFn, x: Seq<char>, m: nat) -> Option<Seq<char>>
    decreases m,
{
    if m == 0 {
        Some(x)
    } else {
        match follow(f, x, (m - 1) as nat) {
            Some(y) => f(y),
            None => None,
        }
    }
}

/// No id comes back to itself by following `f`.
pub open spec fn fn_acyclic(f: ParentFn) -> bool {
    forall|x: Seq<char>, m: nat| m >= 1 ==> #[trigger] follow(f, x, m) != Some(x)
}

/// `f` with the parent of `d` replaced by `p`.
pub open spec fn with_parent(f: ParentFn, d: Seq<char>, p: Option<Seq<char>>) -> ParentFn {
    |x: Seq<char>| if x == d { p } else { f(x) }
}

/// `f` with the parents of every id in `ts` removed.
pub open spec fn without_parents(f: ParentFn, ts: Seq<Seq<char>>) -> ParentFn {
    |x: Seq<char>| if ts.contains(x) { None } else { f(x) }
}

pub proof fn lemma_follow_is_ancestor_at(docs: Seq<DocumentResponse>, x: Seq<char>, m: nat)
    ensures
        follow(parent_fn(docs), x, m) == ancestor_at(docs, x, m),
    decreases m,
{
    if m > 0 {
        lemma_follow_is_ancestor_at(docs, x, (m - 1) as nat);
    }
}

pub proof fn lemma_follow_compose(f: ParentFn, x: Seq<char>, i: nat, t: nat)
    requires
        follow(f, x, i) is Some,
    ensures
        follow(f, x, i + t) == follow(f, follow(f, x, i)->0, t),
    decreases t,
{
    if t > 0 {
        lemma_follow_compose(f, x, i, (t - 1) as nat);
        assert(follow(f, x, i + t) == (match follow(f, x, (i + t - 1) as nat) {
            Some(y) => f(y),
            None => None,
        }));
    }
}

pub proof fn lemma_follow_none_after(f: ParentFn, x: Seq<char>, i: nat, m: nat)
    requires
        follow(f, x, i) is None,
        i <= m,
    ensures
        follow(f, x, m) is None,
    decreases m,
{
    if m > i {
        lemma_follow_none_after(f, x, i, (m - 1) as nat);
    }
}

/// Two relations that agree on every id met before step `k` give the same chain up to `k`.
pub proof fn lemma_follow_agree(f: ParentFn, g: ParentFn, x: Seq<char>, k: nat)
    requires
        forall|j: nat|
            j < k ==> match #[trigger] follow(g, x, j) {
                Some(y) => g(y) == f(y),
                None => true,
            },
    ensures
        follow(g, x, k) == follow(f, x, k),
    decreases k,
{
    if k > 0 {
        lemma_follow_agree(f, g, x, (k - 1) as nat);
        assert(follow(g, x, (k - 1) as nat) == follow(g, x, (k - 1) as nat));
    }
}

/// A chain of `g` whose first `k` ids avoid `d` is a chain of `f` when `g` differs from `f` only at `d`.
proof fn lemma_follow_avoiding(f: ParentFn, d: Seq<char>, p: Option<Seq<char>>, x: Seq<char>, k: nat)
    requires
        forall|j: nat| j < k ==> #[trigger] follow(with_parent(f, d, p), x, j) != Some(d),
    ensures
        follow(with_parent(f, d, p), x, k) == follow(f, x, k),
{
    let g = with_parent(f, d, p);
    assert forall|j: nat|
        j < k implies match #[trigger] follow(g, x, j) {
            Some(y) => g(y) == f(y),
            None => true,
        } by {
        assert(follow(g, x, j) != Some(d));
    }
    lemma_follow_agree(f, g, x, k);
}

/// First position at which a chain meets `d`, if it does before `k`.
proof fn lemma_first_hit(f: ParentFn, x: Seq<char>, d: Seq<char>, k: nat) -> (i: nat)
    requires
        exists|j: nat| j < k && #[trigger] follow(f, x, j) == Some(d),
    ensures
        i < k,
        follow(f, x, i) == Some(d),
        forall|j: nat| j < i ==> #[trigger] follow(f, x, j) != Some(d),
    decreases k,
{
    if exists|j: nat| j < (k - 1) as nat && #[trigger] follow(f, x, j) == Some(d) {
        lemma_first_hit(f, x, d, (k - 1) as nat)
    } else {
        let i = (k - 1) as nat;
        assert forall|j: nat| j < i implies #[trigger] follow(f, x, j) != Some(d) by {}
        i
    }
}

/// The documents are free of cycles exactly when their parent relation is.
pub proof fn law_acyclic_iff(docs: Seq<DocumentResponse>)
    ensures
        acyclic(docs) <==> fn_acyclic(parent_fn(docs)),
{
    let f = parent_fn(docs);
    if acyclic(docs) {
        assert forall|x: Seq<char>, m: nat| m >= 1 implies #[trigger] follow(f, x, m) != Some(x) by {
            lemma_follow_is_ancestor_at(docs, x, m);
            lemma_last_index_of(docs, x);
            if last_index_of(docs, x) >= 0 {
                let i = last_index_of(docs, x);
                assert(!on_cycle(docs, docs[i].id@));
            } else {
                lemma_ancestor_outside(docs, x, m);
            }
        }
    }
    if fn_acyclic(f) {
        assert forall|i: int| 0 <= i < docs.len() implies !on_cycle(docs, #[trigger] docs[i].id@) by {
            if on_cycle(docs, docs[i].id@) {
                let m = choose|m: nat| m >= 1 && #[trigger] ancestor_at(docs, docs[i].id@, m) == Some(docs[i].id@);
                lemma_follow_is_ancestor_at(docs, docs[i].id@, m);
                assert(follow(f, docs[i].id@, m) != Some(docs[i].id@));
            }
        }
    }
}

/// Giving `d` the parent `p` keeps an acyclic parent relation acyclic whenever
/// `d` is not reached from `p` (the condition `would_create_document_cycle`
/// tests): no move or update that passes that check creates a cycle.
pub proof fn law_reparent_keeps_acyclic(f: ParentFn, d: Seq<char>, p: Seq<char>)
    requires
        fn_acyclic(f),
        forall|m: nat| #[trigger] follow(f, p, m) != Some(d),
    ensures
        fn_acyclic(with_parent(f, d, Some(p))),
{
    let g = with_parent(f, d, Some(p));
    assert forall|x: Seq<char>, m: nat| m >= 1 implies #[trigger] follow(g, x, m) != Some(x) by {
        if follow(g, x, m) == Some(x) {
            if exists|j: nat| j < m && #[trigger] follow(g, x, j) == Some(d) {
                let i = lemma_first_hit(g, x, d, m);
                lemma_follow_avoiding(f, d, Some(p), x, i);
                // after d the chain continues at p
                assert(follow(g, x, i + 1) == Some(p));
                let rest: nat = (m - i - 1) as nat;
                lemma_follow_compose(g, x, i + 1, rest);
                assert(i + 1 + rest == m);
                assert(follow(g, p, rest) == Some(x));
                if exists|j: nat| j < rest && #[trigger] follow(g, p, j) == Some(d) {
                    let i2 = lemma_first_hit(g, p, d, rest);
                    lemma_follow_avoiding(f, d, Some(p), p, i2);
                    assert(follow(f, p, i2) == Some(d));
                } else {
                    assert forall|j: nat| j < rest implies #[trigger] follow(g, p, j) != Some(d) by {}
                    lemma_follow_avoiding(f, d, Some(p), p, rest);
                    assert(follow(f, p, rest) == Some(x));
                    // from p the old chain reaches x and then d
                    lemma_follow_compose(f, p, rest, i);
                    assert(follow(f, p, rest + i) == Some(d));
                }
            } else {
                assert forall|j: nat| j < m implies #[trigger] follow(g, x, j) != Some(d) by {}
                lemma_follow_avoiding(f, d, Some(p), x, m);
                assert(follow(f, x, m) != Some(x));
            }
        }
    }
}

/// A document reaches `d` through its parents exactly when it is `d` or `d`
/// is one of its ancestors; so for a target other than the document itself,
/// the cycle check of a move and the "moves into a descendant" test agree.
pub proof fn law_reaches_iff(docs: Seq<DocumentResponse>, p: Seq<char>, d: Seq<char>)
    ensures
        reaches(docs, p, d) <==> (p == d || is_strict_ancestor(docs, d, p)),
{
    if reaches(docs, p, d) {
        let m = choose|m: nat| #[trigger] ancestor_at(docs, p, m) == Some(d);
        if m == 0 {
            assert(p == d);
        }
    }
    if p == d {
        assert(ancestor_at(docs, p, 0) == Some(d));
    }
}

/// Removing the parent of `d` keeps an acyclic parent relation acyclic.
pub proof fn law_clear_parent_keeps_acyclic(f: ParentFn, d: Seq<char>)
    requires
        fn_acyclic(f),
    ensures
        fn_acyclic(with_parent(f, d, None)),
{
    let g = with_parent(f, d, None);
    assert forall|x: Seq<char>, m: nat| m >= 1 implies #[trigger] follow(g, x, m) != Some(x) by {
        if follow(g, x, m) == Some(x) {
            if exists|j: nat| j < m && #[trigger] follow(g, x, j) == Some(d) {
                let i = lemma_first_hit(g, x, d, m);
                assert(follow(g, x, i + 1) is None);
                lemma_follow_none_after(g, x, i + 1, m);
            } else {
                assert forall|j: nat| j < m implies #[trigger] follow(g, x, j) != Some(d) by {}
                lemma_follow_avoiding(f, d, None, x, m);
            }
        }
    }
}

/// Giving a node the parent it already has changes nothing.
proof fn lemma_with_same_parent(f: ParentFn, d: Seq<char>)
    ensures
        with_parent(f, d, f(d)) == f,
{
    assert(with_parent(f, d, f(d)) =~= f);
}

/// Optimistic locking of documents: an update goes ahead only when the
/// document exists and the client names the version that is stored, and a
/// valid update naming any other version is refused as `conflict`.
pub proof fn law_update_needs_current_version(docs: Seq<DocumentResponse>, d: Seq<char>, body: UpdateDocumentRequest)
    ensures
        update_error(docs, d, body) is None ==> has_document(docs, d) && document_of(docs, d).version == body.version,
        update_field_problem(body) is None && has_document(docs, d) && document_of(docs, d).version != body.version
            ==> update_error(docs, d, body) == Some(("conflict"@, "document version is stale; reload before updating"@)),
{
}

/// An update that passes its checks leaves the project's documents free of
/// cycles if they were: whatever parent it gives the document (a new one, none,
/// or the one it had), no document becomes its own ancestor.
pub proof fn law_update_keeps_acyclic(docs: Seq<DocumentResponse>, d: Seq<char>, body: UpdateDocumentRequest)
    requires
        acyclic(docs),
        update_error(docs, d, body) is None,
    ensures
        acyclic_after(docs, d, updated_parent(docs, d, body)),
{
    let f = parent_fn(docs);
    law_acyclic_iff(docs);
    match body.parent_document_id {
        Some(Some(p)) => {
            assert forall|m: nat| #[trigger] follow(f, p@, m) != Some(d) by {
                lemma_follow_is_ancestor_at(docs, p@, m);
            }
            law_reparent_keeps_acyclic(f, d, p@);
        },
        Some(None) => {
            law_clear_parent_keeps_acyclic(f, d);
        },
        None => {
            lemma_last_index_of(docs, d);
            assert(f(d) == opt_view(document_of(docs, d).parent_document_id));
            lemma_with_same_parent(f, d);
        },
    }
}

/// The parent relation after `d` is given the parent `p` has no cycle.
pub open spec fn acyclic_after(docs: Seq<DocumentResponse>, d: Seq<char>, p: Option<Seq<char>>) -> bool {
    fn_acyclic(with_parent(parent_fn(docs), d, p))
}

/// Position of the cycle member reached from `g[a]` after `j` parent steps.
spec fn cycle_pos(a: int, j: int, n: int) -> int {
    if j <= a {
        a - j
    } else {
        a - j + n
    }
}

/// Following parents around a whole cycle walks its listing backwards.
proof fn lemma_cycle_walk(docs: Seq<DocumentResponse>, g: Seq<String>, a: int, j: nat)
    requires
        is_cycle_group(docs, g),
        0 <= a < g.len(),
        j < g.len(),
    ensures
        follow(parent_fn(docs), g[a]@, j) == Some(g[cycle_pos(a, j as int, g.len() as int)]@),
    decreases j,
{
    if j > 0 {
        lemma_cycle_walk(docs, g, a, (j - 1) as nat);
        let c = cycle_pos(a, j - 1, g.len() as int);
        if c >= 1 {
            assert(parent_of(docs, g[c]@) == Some(g[c - 1]@));
        }
    }
}

/// A repair that detaches the picked document of every detected cycle leaves
/// no cycle at all: after the parents of `targets` are cleared, no document
/// is its own ancestor.
pub proof fn law_repair_removes_cycles(docs: Seq<DocumentResponse>, groups: Seq<Seq<String>>, targets: Seq<Seq<char>>)
    requires
        is_repair_plan(docs, groups, targets),
    ensures
        fn_acyclic(without_parents(parent_fn(docs), targets)),
{
    reveal(is_cycle_detection);
    let f = parent_fn(docs);
    let g = without_parents(f, targets);
    assert forall|x: Seq<char>, m: nat| m >= 1 implies #[trigger] follow(g, x, m) != Some(x) by {
        if follow(g, x, m) == Some(x) {
            // the chain never meets a cleared document before step m
            assert forall|j: nat| j < m implies match #[trigger] follow(g, x, j) {
                Some(y) => !targets.contains(y),
                None => false,
            } by {
                match follow(g, x, j) {
                    Some(y) => {
                        if targets.contains(y) {
                            assert(follow(g, x, j + 1) is None);
                            lemma_follow_none_after(g, x, j + 1, m);
                        }
                    },
                    None => {
                        lemma_follow_none_after(g, x, j, m);
                    },
                }
            }
            assert forall|j: nat| j <= m implies #[trigger] follow(g, x, j) == follow(f, x, j) by {
                assert forall|k: nat| k < j implies match #[trigger] follow(g, x, k) {
                    Some(y) => g(y) == f(y),
                    None => true,
                } by {
                    assert(match follow(g, x, k) {
                        Some(y) => !targets.contains(y),
                        None => false,
                    });
                }
                lemma_follow_agree(f, g, x, j);
            }
            // so x lies on a cycle of the documents, which the plan lists
            lemma_follow_is_ancestor_at(docs, x, m);
            assert(f(x) is Some) by {
                assert(follow(f, x, m) is Some);
                if f(x) is None {
                    assert(follow(f, x, 0) == Some(x));
                    assert(follow(f, x, 1) is None);
                    lemma_follow_none_after(f, x, 1, m);
                }
            }
            lemma_last_index_of(docs, x);
            let i = last_index_of(docs, x);
            assert(docs[i].id@ == x);
            assert(on_cycle(docs, docs[i].id@));
            let (gi, a) = choose|gi: int, a: int|
                0 <= gi < groups.len() && 0 <= a < groups[gi].len() && (#[trigger] groups[gi][a])@ == docs[i].id@;
            let grp = groups[gi];
            assert(is_cycle_group(docs, grp));
            assert(is_repair_target(docs, grp, targets[gi]));
            let b = choose|k: int| is_repair_choice(docs, views(grp), k) && targets[gi] == grp[k]@;
            let n = grp.len() as int;
            // the cycle through x is the whole group, so it takes at least n steps
            if m < n {
                lemma_cycle_walk(docs, grp, a, m);
                assert(cycle_pos(a, m as int, n) != a);
                assert(grp[cycle_pos(a, m as int, n)]@ != grp[a]@);
            }
            // and within fewer steps it passes the cleared document
            let jt: int = if b <= a { a - b } else { a - b + n };
            lemma_cycle_walk(docs, grp, a, jt as nat);
            assert(cycle_pos(a, jt, n) == b);
            assert(follow(f, x, jt as nat) == Some(targets[gi]));
            assert(targets.contains(targets[gi]));
            assert(match follow(g, x, jt as nat) {
                Some(y) => !targets.contains(y),
                None => false,
            });
        }
    }
}

/// No two documents share an id (ids are primary keys).
pub open spec fn unique_ids(docs: Seq<DocumentResponse>) -> bool {
    forall|i: int, j: int| 0 <= i < docs.len() && 0 <= j < docs.len() && i != j ==> (#[trigger] docs[i]).id@ != (#[trigger] docs[j]).id@
}

/// The parent relation after the writes of a move of `d`: each id in
/// `children` gets the parent `children_parent`, then `d` gets `target`.
pub open spec fn after_move(
    f: ParentFn,
    d: Seq<char>,
    target: Option<Seq<char>>,
    children: Seq<Seq<char>>,
    children_parent: Option<Seq<char>>,
) -> ParentFn {
    |x: Seq<char>| if x == d { target } else if children.contains(x) { children_parent } else { f(x) }
}

/// The children a move hands over: those of `d` when it moves under its own descendant.
pub open spec fn moved_children(docs: Seq<DocumentResponse>, d: Seq<char>, target: Option<Seq<char>>) -> Seq<Seq<char>> {
    if moves_into_descendant(docs, d, target) {
        child_ids(docs, d)
    } else {
        Seq::empty()
    }
}

proof fn lemma_child_ids(docs: Seq<DocumentResponse>, d: Seq<char>, x: Seq<char>)
    ensures
        child_ids(docs, d).contains(x) <==> exists|i: int|
            0 <= i < docs.len() && (#[trigger] docs[i]).id@ == x && opt_view(docs[i].parent_document_id) == Some(d),
    decreases docs.len(),
{
    if docs.len() > 0 {
        let init = docs.drop_last();
        lemma_child_ids(init, d, x);
        let c = child_ids(init, d);
        let last_is_child = opt_view(docs.last().parent_document_id) == Some(d);
        let c2 = child_ids(docs, d);
        assert(c2 == if last_is_child { c.push(docs.last().id@) } else { c });
        if c2.contains(x) {
            let k = choose|k: int| 0 <= k < c2.len() && c2[k] == x;
            if last_is_child && k == c.len() {
                assert(docs[docs.len() - 1].id@ == x);
            } else {
                assert(c[k] == x);
                assert(c.contains(x));
                let i = choose|i: int|
                    0 <= i < init.len() && (#[trigger] init[i]).id@ == x && opt_view(init[i].parent_document_id) == Some(d);
                assert(docs[i] == init[i]);
            }
        }
        if exists|i: int| 0 <= i < docs.len() && (#[trigger] docs[i]).id@ == x && opt_view(docs[i].parent_document_id) == Some(d) {
            let i = choose|i: int|
                0 <= i < docs.len() && (#[trigger] docs[i]).id@ == x && opt_view(docs[i].parent_document_id) == Some(d);
            if i == docs.len() - 1 {
                assert(last_is_child);
                assert(c2[c.len() as int] == x);
            } else {
                assert(init[i] == docs[i]);
                assert(c.contains(x));
                let k = choose|k: int| 0 <= k < c.len() && c[k] == x;
                if last_is_child {
                    assert(c2[k] == x);
                }
            }
        }
    }
}

/// `f` with the node `d` bypassed: `d`'s children point at `d`'s parent.
spec fn bypass(f: ParentFn, d: Seq<char>) -> ParentFn {
    |x: Seq<char>| if x != d && f(x) == Some(d) { f(d) } else { f(x) }
}

/// Every node a bypassing chain visits, the chain it bypasses visits no sooner.
proof fn lemma_bypass_follow(f: ParentFn, d: Seq<char>, x: Seq<char>, m: nat) -> (m2: nat)
    requires
        follow(bypass(f, d), x, m) is Some,
    ensures
        m2 >= m,
        follow(f, x, m2) == follow(bypass(f, d), x, m),
    decreases m,
{
    let h = bypass(f, d);
    if m == 0 {
        0
    } else {
        let prev = (m - 1) as nat;
        let m1 = lemma_bypass_follow(f, d, x, prev);
        let y = follow(h, x, prev)->0;
        assert(follow(f, x, m1 + 1) == f(y));
        if y != d && f(y) == Some(d) {
            assert(follow(f, x, m1 + 2) == f(d));
            m1 + 2
        } else {
            m1 + 1
        }
    }
}

/// A move that passes its checks leaves the project's documents free of
/// cycles if they were.  A move under one of the document's own descendants
/// stays acyclic because the document's children are first handed to its
/// parent; any other move is refused if it would close a cycle.
pub proof fn law_move_keeps_acyclic(docs: Seq<DocumentResponse>, d: Seq<char>, target: Option<Seq<char>>)
    requires
        acyclic(docs),
        unique_ids(docs),
        move_error(docs, d, target) is None,
    ensures
        fn_acyclic(
            after_move(
                parent_fn(docs),
                d,
                target,
                moved_children(docs, d, target),
                opt_view(document_of(docs, d).parent_document_id),
            ),
        ),
{
    let f = parent_fn(docs);
    law_acyclic_iff(docs);
    lemma_last_index_of(docs, d);
    let cp = opt_view(document_of(docs, d).parent_document_id);
    assert(cp == f(d));
    let g = after_move(f, d, target, moved_children(docs, d, target), cp);
    // d is not its own parent
    assert(f(d) != Some(d)) by {
        assert(follow(f, d, 0) == Some(d));
        assert(follow(f, d, 1) == f(d));
    }
    if moves_into_descendant(docs, d, target) {
        let p = target->0;
        let h = bypass(f, d);
        // the children listed are exactly the documents whose parent is d
        assert forall|x: Seq<char>| #[trigger] child_ids(docs, d).contains(x) <==> (x != d && f(x) == Some(d)) by {
            lemma_child_ids(docs, d, x);
            lemma_last_index_of(docs, x);
            if child_ids(docs, d).contains(x) {
                let i = choose|i: int|
                    0 <= i < docs.len() && (#[trigger] docs[i]).id@ == x && opt_view(docs[i].parent_document_id) == Some(d);
                let l = last_index_of(docs, x);
                if l != i {
                    assert(docs[l].id@ == docs[i].id@);
                }
                assert(parent_of(docs, x) == Some(d));
            }
            if x != d && f(x) == Some(d) {
                let l = last_index_of(docs, x);
                assert(docs[l].id@ == x);
            }
        }
        assert(g =~= with_parent(h, d, Some(p)));
        // bypassing d keeps the relation acyclic
        assert forall|x: Seq<char>, m: nat| m >= 1 implies #[trigger] follow(h, x, m) != Some(x) by {
            if follow(h, x, m) == Some(x) {
                let m2 = lemma_bypass_follow(f, d, x, m);
                assert(follow(f, x, m2) == Some(x));
            }
        }
        // and nothing has d as its parent any more, so p does not reach d
        assert forall|y: Seq<char>| #[trigger] h(y) != Some(d) by {}
        assert forall|m: nat| #[trigger] follow(h, p, m) != Some(d) by {
            if m > 0 {
                let prev = (m - 1) as nat;
                match follow(h, p, prev) {
                    Some(y) => {
                        assert(h(y) != Some(d));
                    },
                    None => {},
                }
            }
        }
        law_reparent_keeps_acyclic(h, d, p);
    } else {
        assert(g =~= with_parent(f, d, target));
        match target {
            Some(p) => {
                if cp == target {
                    lemma_with_same_parent(f, d);
                    assert(with_parent(f, d, target) == f);
                } else {
                    law_reaches_iff(docs, p, d);
                    assert forall|m: nat| #[trigger] follow(f, p, m) != Some(d) by {
                        lemma_follow_is_ancestor_at(docs, p, m);
                    }
                    law_reparent_keeps_acyclic(f, d, p);
                }
            },
            None => {
                law_clear_parent_keeps_acyclic(f, d);
            },
        }
    }
}

} // verus!
