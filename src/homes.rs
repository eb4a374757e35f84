//! Every node of a navigation tree is listed in one place only.

use vstd::prelude::*;
use crate::navigation::NavigationTree;

verus! {

/// The top level holds no node twice, no top-level node is also a child,
/// and no node is a child in two places.
#[verifier::opaque]
pub open spec fn single_home(t: NavigationTree) -> bool {
    &&& forall|x: int, y: int|
        0 <= x < y < t.items@.len() ==> #[trigger] t.items@[x] != #[trigger] t.items@[y]
    &&& forall|x: int, p: int, j: int|
        0 <= x < t.items@.len() && 0 <= p < t.len() && 0 <= j < t.n_children(p) ==> #[trigger] t.items@[x] as int
            != #[trigger] t.child(p, j)
    &&& forall|p: int, j: int, q: int, l: int|
        0 <= p < t.len() && 0 <= j < t.n_children(p) && 0 <= q < t.len() && 0 <= l < t.n_children(q)
            && #[trigger] t.child(p, j) == #[trigger] t.child(q, l) ==> p == q && j == l
}

/// Where child `j` of node `p` of `b` comes from, when `b` grew from `a` along `w`.
proof fn lemma_entry(a: NavigationTree, b: NavigationTree, w: Seq<int>, m: int, dirs: Seq<Seq<char>>, p: int, j: int)
    requires
        a.wf(),
        b.len() <= usize::MAX,
        NavigationTree::keeps(a, b),
        NavigationTree::placed(a, b, w, m, dirs),
        NavigationTree::grown(a, b, w, m),
        0 <= p < b.len(),
        0 <= j < b.n_children(p),
    ensures
        b.child(p, j) < a.len() ==> p < a.len() && j < a.n_children(p) && b.child(p, j) == a.child(p, j),
        b.child(p, j) >= a.len() ==> m <= m + (b.child(p, j) - a.len()) < w.len() && w[m + (b.child(p, j)
            - a.len())] == b.child(p, j) && (b.child(p, j) == a.len() ==> m > 0 && p == w[m - 1] && j
            == a.n_children(p)) && (b.child(p, j) > a.len() ==> p == w[m + (b.child(p, j) - a.len()) - 1]
            && j == 0),
{
    reveal(NavigationTree::placed);
    reveal(NavigationTree::grown);
    if p < a.len() {
        if j < a.n_children(p) {
            assert(b.child(p, j) == a.child(p, j));
            assert(a.child(p, j) < a.len());
        } else {
            assert(0 < m < w.len() && p == w[m - 1]);
            assert(w[m] == a.len());
            assert(b.nodes@[p].children@[j] == w[m] as usize);
        }
    } else {
        let s = m + (p - a.len());
        assert(w[s] == p);
        assert(s + 1 < w.len());
        assert(j == 0);
        assert(w[s + 1] == a.len() + (s + 1 - m));
        assert(b.nodes@[w[s]].children@[0] == w[s + 1] as usize);
    }
}

/// Growing a tree along a walk lists each new node once.
#[verifier::rlimit(60)]
pub proof fn lemma_grown_home(a: NavigationTree, b: NavigationTree, w: Seq<int>, m: int, dirs: Seq<Seq<char>>)
    requires
        a.wf(),
        b.wf(),
        b.len() <= usize::MAX,
        single_home(a),
        NavigationTree::keeps(a, b),
        NavigationTree::placed(a, b, w, m, dirs),
        NavigationTree::grown(a, b, w, m),
    ensures
        single_home(b),
{
    reveal(single_home);
    reveal(NavigationTree::placed);
    reveal(NavigationTree::grown);
    assert forall|x: int| 0 <= x < a.items@.len() implies #[trigger] a.items@[x] < a.len() by {}
    assert forall|x: int, y: int| 0 <= x < y < b.items@.len() implies #[trigger] b.items@[x]
        != #[trigger] b.items@[y] by {
        if y >= a.items@.len() {
            assert(b.items@[y] == w[0] as usize);
            assert(w[0] == a.len());
            assert(b.items@[x] == a.items@[x]);
        } else {
            assert(b.items@[x] == a.items@[x] && b.items@[y] == a.items@[y]);
        }
    }
    assert forall|x: int, p: int, j: int|
        0 <= x < b.items@.len() && 0 <= p < b.len() && 0 <= j < b.n_children(p) implies #[trigger] b.items@[x] as int
        != #[trigger] b.child(p, j) by {
        lemma_entry(a, b, w, m, dirs, p, j);
        if x < a.items@.len() {
            assert(b.items@[x] == a.items@[x]);
        } else {
            assert(m == 0 && b.items@[x] == w[0] as usize && w[0] == a.len());
        }
    }
    assert forall|p: int, j: int, q: int, l: int|
        0 <= p < b.len() && 0 <= j < b.n_children(p) && 0 <= q < b.len() && 0 <= l < b.n_children(q)
            && #[trigger] b.child(p, j) == #[trigger] b.child(q, l) implies p == q && j == l by {
        lemma_entry(a, b, w, m, dirs, p, j);
        lemma_entry(a, b, w, m, dirs, q, l);
    }
}

} // verus!
