//! The navigation tree: an arena of nodes addressed by index. Directory
//! nodes have an empty path; each document becomes a leaf.

use vstd::prelude::*;
use crate::content::{opt_view, Document};
use crate::homes::{lemma_grown_home, single_home};
use crate::paths::{components, file_stem, file_stem_exec, lemma_empty_path, split_components, views};
use crate::text::{chars_eq, chars_of, string_of};

verus! {

broadcast use vstd::string::group_string_axioms;

/// One node of the navigation tree.
pub struct NavigationItem {
    pub title: String,
    /// The document's relative path; empty for a directory node.
    pub path: String,
    /// Indices of the children, in order of insertion.
    pub children: Vec<usize>,
    pub version: Option<String>,
}

/// The navigation tree. `nodes` holds every node; `items` the indices of
/// the top-level ones. A child always comes after its parent in `nodes`.
pub struct NavigationTree {
    pub nodes: Vec<NavigationItem>,
    pub items: Vec<usize>,
}

impl NavigationTree {
    pub open spec fn len(self) -> int {
        self.nodes@.len() as int
    }

    pub open spec fn child(self, i: int, k: int) -> int {
        self.nodes@[i].children@[k] as int
    }

    pub open spec fn n_children(self, i: int) -> int {
        self.nodes@[i].children@.len() as int
    }

    pub open spec fn is_root(self, i: int) -> bool {
        exists|k: int| 0 <= k < self.items@.len() && self.items@[k] as int == i
    }

    /// Node `i` is a top-level node or a child of an earlier node.
    pub open spec fn has_parent(self, i: int) -> bool {
        ||| self.is_root(i)
        ||| exists|p: int, k: int|
            0 <= p < i && 0 <= k < self.n_children(p) && #[trigger] self.child(p, k) == i
    }

    /// Indices are in bounds, children come after their parent, and every
    /// node hangs below the top level.
    pub open spec fn wf(self) -> bool {
        &&& forall|k: int| 0 <= k < self.items@.len() ==> self.items@[k] < self.len()
        &&& forall|i: int, k: int|
            0 <= i < self.len() && 0 <= k < self.n_children(i) ==> i < #[trigger] self.child(i, k)
                < self.len()
        &&& forall|i: int| 0 <= i < self.len() ==> #[trigger] self.has_parent(i)
    }

    /// `w` is a walk down the tree: it starts at a top-level node and each
    /// next node is a child of the one before.
    pub open spec fn is_walk(self, w: Seq<int>) -> bool {
        &&& w.len() > 0
        &&& self.is_root(w[0])
        &&& forall|j: int| 0 <= j < w.len() ==> 0 <= #[trigger] w[j] < self.len()
        &&& forall|j: int| 0 <= j < w.len() - 1 ==> self.step(#[trigger] w[j], w[j + 1])
    }

    /// `c` is a child of `p`.
    pub open spec fn step(self, p: int, c: int) -> bool {
        exists|k: int| 0 <= k < self.n_children(p) && #[trigger] self.child(p, k) == c
    }

    /// `w` walks down through directory nodes named as `dirs`, one step
    /// further than `dirs` reaches.
    pub open spec fn walk_through(self, w: Seq<int>, dirs: Seq<Seq<char>>) -> bool {
        &&& self.is_walk(w)
        &&& w.len() == dirs.len() + 1
        &&& forall|j: int|
            0 <= j < dirs.len() ==> (#[trigger] self.nodes@[w[j]]).path@.len() == 0
                && self.nodes@[w[j]].title@ == dirs[j]
    }

    /// Node `i` is met by a walk down from the top level.
    pub open spec fn reachable(self, i: int) -> bool {
        exists|w: Seq<int>| #[trigger] self.is_walk(w) && w.last() == i
    }

    /// The paths of the leaves that a walk down from the top level meets.
    pub open spec fn leaf_paths(self) -> Set<Seq<char>> {
        Set::new(
            |p: Seq<char>|
                exists|i: int|
                    0 <= i < self.len() && self.reachable(i) && p.len() > 0
                        && #[trigger] self.nodes@[i].path@ == p,
        )
    }

    pub fn new() -> (r: NavigationTree)
        ensures
            r.wf(),
            r.dirs_unique(),
            single_home(r),
            r.nodes@.len() == 0,
            r.items@.len() == 0,
    {
        let t = NavigationTree { nodes: Vec::new(), items: Vec::new() };
        proof {
            reveal(NavigationTree::dirs_unique);
            reveal(single_home);
        }
        t
    }

    /// The children of `parent`, or the top-level nodes.
    pub open spec fn level(self, parent: Option<usize>) -> Seq<usize> {
        match parent {
            Some(p) => self.nodes@[p as int].children@,
            None => self.items@,
        }
    }

    /// Node `c` is a directory node named `name`.
    pub open spec fn is_dir_named(self, c: int, name: Seq<char>) -> bool {
        0 <= c < self.len() && self.nodes@[c].path@.len() == 0 && self.nodes@[c].title@ == name
    }

    /// A directory node named `name` stands among the children of `parent`.
    pub open spec fn has_dir(self, parent: Option<usize>, name: Seq<char>) -> bool {
        exists|k: int|
            0 <= k < self.level(parent).len() && self.is_dir_named(
                #[trigger] self.level(parent)[k] as int,
                name,
            )
    }

    /// The list `l` of siblings holds no two directory nodes of one name.
    pub open spec fn unique_list(self, l: Seq<usize>) -> bool {
        forall|x: int, y: int|
            0 <= x < y < l.len() && self.nodes@[l[x] as int].path@.len() == 0
                && self.nodes@[l[y] as int].path@.len() == 0 ==> #[trigger] self.nodes@[l[x] as int].title@
                != #[trigger] self.nodes@[l[y] as int].title@
    }

    /// At no level do two directory nodes share a name.
    #[verifier::opaque]
    pub open spec fn dirs_unique(self) -> bool {
        &&& self.unique_list(self.items@)
        &&& forall|i: int| 0 <= i < self.len() ==> self.unique_list(#[trigger] self.nodes@[i].children@)
    }

    /// The directory node named `name` among the children of `parent`, or
    /// among the top-level nodes.
    fn find_dir(&self, parent: Option<usize>, name: &Vec<char>) -> (r: Option<usize>)
        requires
            self.wf(),
            parent matches Some(p) ==> p < self.len(),
        ensures
            r matches Some(c) ==> c < self.len() && self.nodes@[c as int].path@.len() == 0
                && self.nodes@[c as int].title@ == name@ && match parent {
                Some(p) => exists|k: int|
                    0 <= k < self.n_children(p as int) && self.child(p as int, k) == c,
                None => self.is_root(c as int),
            },
            r is None ==> !self.has_dir(parent, name@),
    {
        let list = match parent {
            Some(p) => &self.nodes[p].children,
            None => &self.items,
        };
        let mut k: usize = 0;
        while k < list.len()
            invariant
                self.wf(),
                parent matches Some(p) ==> p < self.len(),
                *list == match parent {
                    Some(p) => self.nodes@[p as int].children,
                    None => self.items,
                },
                list@ == self.level(parent),
                forall|j: int| 0 <= j < k ==> !self.is_dir_named(#[trigger] list@[j] as int, name@),
            decreases list.len() - k,
        {
            let c = list[k];
            proof {
                match parent {
                    Some(p) => {
                        assert(self.child(p as int, k as int) == c);
                    },
                    None => {},
                }
            }
            let node = &self.nodes[c];
            if node.path.as_str().unicode_len() == 0 && chars_eq(&chars_of(node.title.as_str()), name) {
                return Some(c);
            }
            assert(!self.is_dir_named(list@[k as int] as int, name@));
            k = k + 1;
        }
        None
    }

    /// `b` grew from `a`: the nodes of `a` keep their fields, their children
    /// lists and the top level only grow at the end.
    pub open spec fn keeps(a: NavigationTree, b: NavigationTree) -> bool {
        &&& b.len() >= a.len()
        &&& b.items@.len() >= a.items@.len()
        &&& forall|k: int| 0 <= k < a.items@.len() ==> b.items@[k] == a.items@[k]
        &&& forall|i: int|
            0 <= i < a.len() ==> {
                &&& (#[trigger] b.nodes@[i]).title == a.nodes@[i].title
                &&& b.nodes@[i].path == a.nodes@[i].path
                &&& b.nodes@[i].version == a.nodes@[i].version
                &&& b.n_children(i) >= a.n_children(i)
            }
        &&& forall|i: int, k: int|
            0 <= i < a.len() && 0 <= k < a.n_children(i) ==> #[trigger] b.child(i, k) == a.child(
                i,
                k,
            )
    }

    proof fn lemma_keeps_trans(a: NavigationTree, b: NavigationTree, c: NavigationTree)
        requires
            Self::keeps(a, b),
            Self::keeps(b, c),
        ensures
            Self::keeps(a, c),
    {
        assert forall|i: int, k: int|
            0 <= i < a.len() && 0 <= k < a.n_children(i) implies #[trigger] c.child(i, k)
            == a.child(i, k) by {
            assert(b.nodes@[i].title == a.nodes@[i].title);
            assert(b.child(i, k) == a.child(i, k));
        }
        assert forall|i: int| 0 <= i < a.len() implies #[trigger] c.nodes@[i].title
            == a.nodes@[i].title by {
            assert(b.nodes@[i].title == a.nodes@[i].title);
        }
    }

    /// A walk to `c`'s parent, or none when `c` is at the top level, extends to `c`.
    proof fn lemma_extend_walk(self, w: Seq<int>, c: int, parent: Option<usize>)
        requires
            0 <= c < self.len(),
            w.len() == 0 ==> parent is None,
            w.len() > 0 ==> (parent matches Some(p) && w.last() == p && self.is_walk(w)),
            parent matches Some(p) ==> self.step(p as int, c),
            parent is None ==> self.is_root(c),
        ensures
            self.is_walk(w.push(c)),
    {
        let v = w.push(c);
        assert forall|j: int| 0 <= j < v.len() - 1 implies self.step(#[trigger] v[j], v[j + 1]) by {
            if j < w.len() - 1 {
                assert(v[j] == w[j] && v[j + 1] == w[j + 1]);
            }
        }
        assert forall|j: int| 0 <= j < v.len() implies 0 <= #[trigger] v[j] < self.len() by {
            if j < w.len() {
                assert(v[j] == w[j]);
            }
        }
    }

    proof fn lemma_keeps_walk(a: NavigationTree, b: NavigationTree, w: Seq<int>)
        requires
            Self::keeps(a, b),
            a.is_walk(w),
        ensures
            b.is_walk(w),
            forall|j: int| 0 <= j < w.len() ==> #[trigger] b.nodes@[w[j]].title == a.nodes@[w[j]].title
                && b.nodes@[w[j]].path == a.nodes@[w[j]].path,
    {
        let k0 = choose|k: int| 0 <= k < a.items@.len() && a.items@[k] as int == w[0];
        assert(b.items@[k0] == a.items@[k0]);
        assert forall|j: int| 0 <= j < w.len() - 1 implies b.step(#[trigger] w[j], w[j + 1]) by {
            assert(a.step(w[j], w[j + 1]));
            let k = choose|k: int| 0 <= k < a.n_children(w[j]) && #[trigger] a.child(w[j], k) == w[j + 1];
            assert(0 <= w[j] < a.len());
            assert(b.nodes@[w[j]].title == a.nodes@[w[j]].title);
            assert(b.child(w[j], k) == a.child(w[j], k));
        }
        assert forall|j: int| 0 <= j < w.len() implies 0 <= #[trigger] w[j] < b.len() by {
            assert(0 <= w[j] < a.len());
        }
        assert forall|j: int| 0 <= j < w.len() implies #[trigger] b.nodes@[w[j]].title
            == a.nodes@[w[j]].title && b.nodes@[w[j]].path == a.nodes@[w[j]].path by {
            assert(0 <= w[j] < a.len());
        }
    }

    /// Appends `item` as the last child of `parent`, or at the top level.
    fn push_node(&mut self, parent: Option<usize>, item: NavigationItem) -> (n: usize)
        requires
            old(self).wf(),
            parent matches Some(p) ==> p < old(self).len(),
            item.children@.len() == 0,
        ensures
            final(self).wf(),
            n == old(self).len(),
            final(self).len() == old(self).len() + 1,
            final(self).nodes@[n as int] == item,
            Self::keeps(*old(self), *final(self)),
            parent matches Some(p) ==> final(self).step(p as int, n as int),
            parent is None ==> final(self).is_root(n as int),
            parent matches Some(p) ==> final(self).nodes@[p as int].children@
                == old(self).nodes@[p as int].children@.push(n),
            parent is Some ==> final(self).items@ == old(self).items@,
            parent is None ==> final(self).items@ == old(self).items@.push(n),
            forall|i: int|
                0 <= i < old(self).len() && parent != Some(i as usize)
                    ==> (#[trigger] final(self).nodes@[i]).children@ == old(self).nodes@[i].children@,
    {
        let ghost a = *self;
        let n = self.nodes.len();
        self.nodes.push(item);
        match parent {
            Some(p) => {
                self.nodes[p].children.push(n);
                assert(self.child(p as int, a.n_children(p as int)) == n);
            },
            None => {
                self.items.push(n);
                assert(self.items@[a.items@.len() as int] == n);
            },
        }
        assert forall|i: int, k: int|
            0 <= i < self.len() && 0 <= k < self.n_children(i) implies i < #[trigger] self.child(
            i,
            k,
        ) < self.len() by {
            if i < n {
                if k < a.n_children(i) {
                    assert(self.child(i, k) == a.child(i, k));
                }
            }
        }
        assert forall|i: int| 0 <= i < a.len() implies #[trigger] self.nodes@[i].title
            == a.nodes@[i].title by {}
        assert forall|i: int, k: int|
            0 <= i < a.len() && 0 <= k < a.n_children(i) implies #[trigger] self.child(i, k)
            == a.child(i, k) by {}
        assert forall|i: int| 0 <= i < self.len() implies #[trigger] self.has_parent(i) by {
            if i < n {
                assert(a.has_parent(i));
                if a.is_root(i) {
                    let k = choose|k: int| 0 <= k < a.items@.len() && a.items@[k] as int == i;
                    assert(self.items@[k] as int == i);
                } else {
                    let (p, k) = choose|p: int, k: int|
                        0 <= p < i && 0 <= k < a.n_children(p) && #[trigger] a.child(p, k) == i;
                    assert(self.child(p, k) == i);
                }
            }
        }
        n
    }

    /// The list that the `m`-th node of walk `w` is looked up in.
    pub open spec fn level_parent(w: Seq<int>, m: int) -> Option<usize> {
        if m == 0 {
            None
        } else {
            Some(w[m - 1] as usize)
        }
    }

    /// Walk `w` in `b` reuses nodes of `a` for its first `m` steps and then
    /// runs through nodes appended in order; `b` has no other new nodes. When
    /// a directory had to be created, `a` had none of that name at that level.
    #[verifier::opaque]
    pub open spec fn placed(
        a: NavigationTree,
        b: NavigationTree,
        w: Seq<int>,
        m: int,
        dirs: Seq<Seq<char>>,
    ) -> bool {
        &&& 0 <= m < w.len()
        &&& forall|j: int| 0 <= j < m ==> #[trigger] w[j] < a.len()
        &&& forall|j: int| m <= j < w.len() ==> #[trigger] w[j] == a.len() + (j - m)
        &&& b.len() == a.len() + (w.len() - m)
        &&& m < dirs.len() ==> !a.has_dir(Self::level_parent(w, m), dirs[m])
    }

    /// `b` is `a` with the nodes of walk `w` from the `m`-th on appended, each
    /// listed once, at the end of its parent's children: the node before it
    /// on the walk, or the top level for the first. No other list changes.
    #[verifier::opaque]
    pub open spec fn grown(a: NavigationTree, b: NavigationTree, w: Seq<int>, m: int) -> bool {
        &&& (m == 0 && m < w.len()) ==> b.items@ == a.items@.push(w[0] as usize)
        &&& !(m == 0 && m < w.len()) ==> b.items@ == a.items@
        &&& forall|i: int|
            0 <= i < a.len() ==> (#[trigger] b.nodes@[i]).children@ == if 0 < m < w.len() && i
                == w[m - 1] {
                a.nodes@[i].children@.push(w[m] as usize)
            } else {
                a.nodes@[i].children@
            }
        &&& forall|j: int|
            m <= j < w.len() ==> (#[trigger] b.nodes@[w[j]]).children@ == if j + 1 < w.len() {
                seq![w[j + 1] as usize]
            } else {
                Seq::<usize>::empty()
            }
    }

    proof fn lemma_grown_start(a: NavigationTree)
        ensures
            Self::grown(a, a, Seq::empty(), 0),
    {
        reveal(NavigationTree::grown);
    }

    proof fn lemma_grown_reuse(a: NavigationTree, b: NavigationTree, w: Seq<int>, m: int, c: int)
        requires
            Self::grown(a, b, w, m),
            m == w.len(),
        ensures
            Self::grown(a, b, w.push(c), m + 1),
    {
        reveal(NavigationTree::grown);
    }

    proof fn lemma_grown_push(
        a: NavigationTree,
        b: NavigationTree,
        b2: NavigationTree,
        w: Seq<int>,
        m: int,
        n: int,
        parent: Option<usize>,
    )
        requires
            Self::grown(a, b, w, m),
            0 <= m <= w.len(),
            forall|j: int| 0 <= j < m ==> 0 <= #[trigger] w[j] < a.len(),
            forall|j: int| m <= j < w.len() ==> #[trigger] w[j] == a.len() + (j - m),
            b.len() == a.len() + (w.len() - m),
            n == b.len(),
            n <= usize::MAX,
            b2.len() == b.len() + 1,
            parent == Self::level_parent(w, w.len() as int),
            parent matches Some(p) ==> b2.nodes@[p as int].children@ == b.nodes@[p as int].children@.push(
                n as usize,
            ) && b2.items@ == b.items@,
            parent is None ==> b2.items@ == b.items@.push(n as usize),
            forall|i: int|
                0 <= i < b.len() && parent != Some(i as usize) ==> (#[trigger] b2.nodes@[i]).children@
                    == b.nodes@[i].children@,
            b2.nodes@[n].children@.len() == 0,
        ensures
            Self::grown(a, b2, w.push(n), m),
    {
        reveal(NavigationTree::grown);
        let v = w.push(n);
        assert forall|i: int| 0 <= i < a.len() implies (#[trigger] b2.nodes@[i]).children@ == if 0 < m
            < v.len() && i == v[m - 1] {
            a.nodes@[i].children@.push(v[m] as usize)
        } else {
            a.nodes@[i].children@
        } by {
            if m < w.len() {
                assert(w[w.len() - 1] >= a.len());
                assert(parent != Some(i as usize));
                assert(b2.nodes@[i].children@ == b.nodes@[i].children@);
                if m > 0 {
                    assert(v[m - 1] == w[m - 1] && v[m] == w[m]);
                }
            } else if m > 0 && i == w[m - 1] {
                assert(v[m] == n);
            } else {
                if m > 0 {
                    assert(w[m - 1] < a.len());
                    assert(0 <= w[m - 1]);
                }
                assert(parent != Some(i as usize));
                assert(b2.nodes@[i].children@ == b.nodes@[i].children@);
            }
        }
        assert forall|j: int| m <= j < v.len() implies (#[trigger] b2.nodes@[v[j]]).children@ == if j
            + 1 < v.len() {
            seq![v[j + 1] as usize]
        } else {
            Seq::<usize>::empty()
        } by {
            if j < w.len() {
                assert(v[j] == w[j]);
                if j + 1 < w.len() {
                    assert(b2.nodes@[w[j]].children@ == b.nodes@[w[j]].children@);
                    assert(v[j + 1] == w[j + 1]);
                } else {
                    assert(b.nodes@[w[j]].children@.len() == 0);
                    assert(v[j + 1] == n);
                    assert(b2.nodes@[v[j]].children@ =~= seq![v[j + 1] as usize]);
                }
            }
        }
        if m == 0 && m < w.len() {
            assert(v[0] == w[0]);
        }
        if m == 0 && m == w.len() {
            assert(v[0] == n);
        }
    }

    proof fn lemma_unique_same(a: NavigationTree, b: NavigationTree, l: Seq<usize>)
        requires
            Self::keeps(a, b),
            a.unique_list(l),
            forall|x: int| 0 <= x < l.len() ==> #[trigger] l[x] < a.len(),
        ensures
            b.unique_list(l),
    {
        assert forall|x: int, y: int|
            0 <= x < y < l.len() && b.nodes@[l[x] as int].path@.len() == 0 && b.nodes@[l[y] as int].path@.len()
                == 0 implies #[trigger] b.nodes@[l[x] as int].title@ != #[trigger] b.nodes@[l[y] as int].title@ by {
            assert(l[x] < a.len() && l[y] < a.len());
            assert(b.nodes@[l[x] as int].title == a.nodes@[l[x] as int].title);
            assert(b.nodes@[l[y] as int].title == a.nodes@[l[y] as int].title);
        }
    }

    proof fn lemma_unique_extend(a: NavigationTree, b: NavigationTree, l: Seq<usize>, c: usize, name: Seq<char>)
        requires
            Self::keeps(a, b),
            a.unique_list(l),
            forall|x: int| 0 <= x < l.len() ==> #[trigger] l[x] < a.len(),
            b.nodes@[c as int].path@.len() > 0 || (b.nodes@[c as int].title@ == name && forall|x: int|
                0 <= x < l.len() ==> !a.is_dir_named(#[trigger] l[x] as int, name)),
        ensures
            b.unique_list(l.push(c)),
    {
        let v = l.push(c);
        assert forall|x: int, y: int|
            0 <= x < y < v.len() && b.nodes@[v[x] as int].path@.len() == 0 && b.nodes@[v[y] as int].path@.len()
                == 0 implies #[trigger] b.nodes@[v[x] as int].title@ != #[trigger] b.nodes@[v[y] as int].title@ by {
            assert(v[x] == l[x]);
            assert(l[x] < a.len());
            assert(b.nodes@[l[x] as int].title == a.nodes@[l[x] as int].title);
            if y < l.len() {
                assert(v[y] == l[y]);
                assert(l[y] < a.len());
                assert(b.nodes@[l[y] as int].title == a.nodes@[l[y] as int].title);
            } else {
                assert(v[y] == c);
                assert(!a.is_dir_named(l[x] as int, name));
            }
        }
    }

    /// Adding a path keeps directory names unique at every level.
    #[verifier::rlimit(60)]
    proof fn lemma_grown_unique(a: NavigationTree, b: NavigationTree, w: Seq<int>, m: int, dirs: Seq<Seq<char>>)
        requires
            a.wf(),
            b.wf(),
            a.dirs_unique(),
            Self::keeps(a, b),
            Self::placed(a, b, w, m, dirs),
            Self::grown(a, b, w, m),
            b.walk_through(w, dirs),
            b.nodes@[w.last()].path@.len() > 0,
        ensures
            b.dirs_unique(),
    {
        reveal(NavigationTree::placed);
        reveal(NavigationTree::grown);
        reveal(NavigationTree::dirs_unique);
        assert(w[w.len() - 1] == w.last());
        let c = w[m] as usize;
        let name = if m < dirs.len() { dirs[m] } else { Seq::<char>::empty() };
        if m < dirs.len() {
            assert(b.nodes@[w[m]].title@ == dirs[m]);
        } else {
            assert(m == w.len() - 1);
        }
        assert(c as int == w[m]);
        // the top level
        assert forall|x: int| 0 <= x < a.items@.len() implies #[trigger] a.items@[x] < a.len() by {}
        if m == 0 {
            if m < dirs.len() {
                assert forall|x: int| 0 <= x < a.items@.len() implies !a.is_dir_named(
                    #[trigger] a.items@[x] as int,
                    name,
                ) by {
                    assert(a.level(None) == a.items@);
                    if a.is_dir_named(a.items@[x] as int, name) {
                        assert(a.has_dir(None, name));
                    }
                }
            }
            Self::lemma_unique_extend(a, b, a.items@, c, name);
        } else {
            Self::lemma_unique_same(a, b, a.items@);
        }
        assert forall|i: int| 0 <= i < b.len() implies b.unique_list(#[trigger] b.nodes@[i].children@) by {
            Self::lemma_child_list_unique(a, b, w, m, dirs, i);
        }
    }

    #[verifier::rlimit(60)]
    proof fn lemma_child_list_unique(
        a: NavigationTree,
        b: NavigationTree,
        w: Seq<int>,
        m: int,
        dirs: Seq<Seq<char>>,
        i: int,
    )
        requires
            a.wf(),
            b.wf(),
            forall|q: int| 0 <= q < a.len() ==> a.unique_list(#[trigger] a.nodes@[q].children@),
            Self::keeps(a, b),
            Self::placed(a, b, w, m, dirs),
            Self::grown(a, b, w, m),
            b.walk_through(w, dirs),
            b.nodes@[w.last()].path@.len() > 0,
            0 <= i < b.len(),
        ensures
            b.unique_list(b.nodes@[i].children@),
    {
        reveal(NavigationTree::placed);
        reveal(NavigationTree::grown);
        assert(w[w.len() - 1] == w.last());
        let c = w[m] as usize;
        let name = if m < dirs.len() { dirs[m] } else { Seq::<char>::empty() };
        if m < dirs.len() {
            assert(b.nodes@[w[m]].title@ == dirs[m]);
        } else {
            assert(m == w.len() - 1);
        }
        if i < a.len() {
            let l = a.nodes@[i].children@;
            assert(a.unique_list(a.nodes@[i].children@));
            assert forall|x: int| 0 <= x < l.len() implies #[trigger] l[x] < a.len() by {
                assert(a.child(i, x) == l[x]);
            }
            if 0 < m && i == w[m - 1] {
                if m < dirs.len() {
                    assert(Self::level_parent(w, m) == Some(w[m - 1] as usize));
                    assert(a.level(Some(w[m - 1] as usize)) == l);
                    assert forall|x: int| 0 <= x < l.len() implies !a.is_dir_named(
                        #[trigger] l[x] as int,
                        name,
                    ) by {
                        if a.is_dir_named(l[x] as int, name) {
                            assert(a.level(Some(w[m - 1] as usize))[x] == l[x]);
                            assert(a.has_dir(Some(w[m - 1] as usize), name));
                        }
                    }
                }
                Self::lemma_unique_extend(a, b, l, c, name);
            } else {
                Self::lemma_unique_same(a, b, l);
            }
        } else {
            let j = m + (i - a.len());
            assert(w[j] == i);
            assert(b.nodes@[i].children@.len() <= 1);
        }
    }

    proof fn lemma_placed_leaf(
        a: NavigationTree,
        c: NavigationTree,
        w: Seq<int>,
        m: int,
        csv: Seq<Seq<char>>,
        n: int,
    )
        requires
            csv.len() > 0,
            w.len() == csv.len() - 1,
            0 <= m <= w.len(),
            forall|j: int| 0 <= j < m ==> 0 <= #[trigger] w[j] < a.len(),
            forall|j: int| m <= j < w.len() ==> #[trigger] w[j] == a.len() + (j - m),
            n == a.len() + (w.len() - m),
            c.len() == n + 1,
            m < w.len() ==> !a.has_dir(Self::level_parent(w, m), csv[m]),
        ensures
            Self::placed(a, c, w.push(n), m, csv.drop_last()),
    {
        reveal(NavigationTree::placed);
        let wf = w.push(n);
        if m > 0 {
            assert(wf[m - 1] == w[m - 1]);
        }
        assert(Self::level_parent(wf, m) == Self::level_parent(w, m));
        assert forall|j: int| 0 <= j < m implies #[trigger] wf[j] < a.len() by {
            assert(wf[j] == w[j]);
        }
        assert forall|j: int| m <= j < wf.len() implies #[trigger] wf[j] == a.len() + (j - m) by {
            if j < w.len() {
                assert(wf[j] == w[j]);
            }
        }
    }

    /// The invariant of the descent in `add_path`, once `w` has reached the
    /// parent of the leaf.
    pub open spec fn descended(
        a: NavigationTree,
        s: NavigationTree,
        csv: Seq<Seq<char>>,
        parent: Option<usize>,
        w: Seq<int>,
        m: int,
    ) -> bool {
        let idx = csv.len() - 1;
        &&& Self::grown(a, s, w, m)
        &&& 0 <= m <= idx
        &&& (forall|j: int| 0 <= j < m ==> 0 <= #[trigger] w[j] < a.len())
        &&& (forall|j: int| m <= j < idx ==> #[trigger] w[j] == a.len() + (j - m))
        &&& s.len() == a.len() + (idx - m)
        &&& (m == idx ==> s == a)
        &&& (m < idx ==> !a.has_dir(Self::level_parent(w, m), csv[m]))
        &&& (m < idx ==> s.n_children(w[idx - 1]) == 0)
        &&& s.wf()
        &&& w.len() == idx
        &&& (idx == 0 ==> parent is None)
        &&& (idx > 0 ==> (parent matches Some(p) && w.last() == p && s.is_walk(w)))
        &&& (forall|j: int|
            0 <= j < idx ==> (#[trigger] s.nodes@[w[j]]).path@.len() == 0 && s.nodes@[w[j]].title@
                == csv[j])
        &&& Self::keeps(a, s)
        &&& (parent matches Some(p) ==> p < s.len())
        &&& (forall|i: int|
            a.len() <= i < s.len() ==> {
                &&& (#[trigger] s.nodes@[i]).path@.len() == 0
                &&& s.nodes@[i].version is None
            })
    }

    /// Walks down from the top level through a directory node per
    /// component but the last, reusing one of that name or creating it.
    fn descend(&mut self, cs: &Vec<Vec<char>>) -> (r: (Option<usize>, Ghost<Seq<int>>, Ghost<int>))
        requires
            old(self).wf(),
            cs.len() > 0,
        ensures
            Self::descended(*old(self), *final(self), views(cs@), r.0, r.1@, r.2@),
    {
        let ghost a = *self;
        let ghost csv = views(cs@);
        let ghost mut w: Seq<int> = Seq::empty();
        let ghost mut m: int = 0;
        let mut parent: Option<usize> = None;
        let mut idx: usize = 0;
        proof {
            Self::lemma_grown_start(a);
        }
        while idx + 1 < cs.len()
            invariant
                Self::grown(a, *self, w, m),
                0 <= m <= idx,
                forall|j: int| 0 <= j < m ==> 0 <= #[trigger] w[j] < a.len(),
                forall|j: int| m <= j < idx ==> #[trigger] w[j] == a.len() + (j - m),
                self.len() == a.len() + (idx - m),
                m == idx ==> *self == a,
                m < idx ==> !a.has_dir(Self::level_parent(w, m), csv[m]),
                m < idx ==> self.n_children(w[idx - 1]) == 0,
                self.wf(),
                a == *old(self),
                csv == views(cs@),
                cs.len() > 0,
                w.len() == idx,
                idx == 0 ==> parent is None,
                idx > 0 ==> (parent matches Some(p) && w.last() == p && self.is_walk(w)),
                forall|j: int|
                    0 <= j < idx ==> (#[trigger] self.nodes@[w[j]]).path@.len() == 0
                        && self.nodes@[w[j]].title@ == csv[j],
                Self::keeps(a, *self),
                idx < cs.len(),
                parent matches Some(p) ==> p < self.len(),
                forall|i: int|
                    a.len() <= i < self.len() ==> {
                        &&& (#[trigger] self.nodes@[i]).path@.len() == 0
                        &&& self.nodes@[i].version is None
                    },
            decreases cs.len() - idx,
        {
            match self.find_dir(parent, &cs[idx]) {
                Some(c) => {
                    proof {
                        if m < idx {
                            assert(parent == Some(w[idx - 1] as usize));
                        }
                        assert(m == idx);
                        self.lemma_extend_walk(w, c as int, parent);
                        assert(self.nodes@[w.push(c as int)[idx as int]] == self.nodes@[c as int]);
                        Self::lemma_grown_reuse(a, *self, w, m, c as int);
                        w = w.push(c as int);
                        m = idx + 1;
                    }
                    parent = Some(c);
                },
                None => {
                    let item = NavigationItem {
                        title: string_of(&cs[idx]),
                        path: String::new(),
                        children: Vec::new(),
                        version: None,
                    };
                    let ghost b = *self;
                    proof {
                        if idx > 0 {
                            assert(parent == Self::level_parent(w, idx as int));
                        }
                    }
                    let n = self.push_node(parent, item);
                    proof {
                        Self::lemma_grown_push(a, b, *self, w, m, n as int, parent);
                        let ghost w0 = w;
                        if idx > 0 {
                            Self::lemma_keeps_walk(b, *self, w);
                        }
                        assert forall|j: int| 0 <= j < idx implies (#[trigger] self.nodes@[w[j]]).path@.len()
                            == 0 && self.nodes@[w[j]].title@ == csv[j] by {
                            assert(b.nodes@[w[j]].path@.len() == 0);
                            if idx > 0 {
                                assert(self.nodes@[w[j]].title == b.nodes@[w[j]].title);
                            }
                        }
                        self.lemma_extend_walk(w, n as int, parent);
                        assert(self.nodes@[w.push(n as int)[idx as int]] == self.nodes@[n as int]);
                        w = w.push(n as int);
                        if m > 0 {
                            assert(w[m - 1] == w0[m - 1]);
                        }
                        assert(Self::level_parent(w, m) == Self::level_parent(w0, m));
                        assert forall|j: int| 0 <= j < m implies 0 <= #[trigger] w[j] < a.len() by {
                            assert(w[j] == w0[j]);
                        }
                        assert forall|j: int| m <= j < idx + 1 implies #[trigger] w[j] == a.len() + (
                        j - m) by {
                            if j < idx {
                                assert(w[j] == w0[j]);
                            }
                        }
                        Self::lemma_keeps_trans(a, b, *self);
                        assert forall|i: int| a.len() <= i < self.len() implies {
                            &&& (#[trigger] self.nodes@[i]).path@.len() == 0
                            &&& self.nodes@[i].version is None
                        } by {
                            if i < b.len() {
                                assert(b.nodes@[i].path == self.nodes@[i].path);
                            }
                        }
                    }
                    parent = Some(n);
                },
            }
            idx = idx + 1;
        }
        (parent, Ghost(w), Ghost(m))
    }

    /// Inserts a leaf for the document at `path`, below one directory node
    /// per earlier component. A directory node of the same name at the same
    /// level is reused; a missing one is created. The leaf is always new.
    #[verifier::rlimit(100)]
    pub fn add_path(&mut self, path: &str, title: String, version: Option<String>)
        requires
            old(self).wf(),
        ensures
            final(self).wf(),
            Self::keeps(*old(self), *final(self)),
            components(path@).len() == 0 ==> *final(self) == *old(self),
            old(self).dirs_unique() ==> final(self).dirs_unique(),
            single_home(*old(self)) ==> single_home(*final(self)),
            components(path@).len() > 0 ==> {
                let leaf = final(self).nodes@[final(self).len() - 1];
                &&& final(self).len() > old(self).len()
                &&& leaf.path@ == path@
                &&& leaf.title == title
                &&& leaf.version == version
                &&& leaf.children@.len() == 0
                &&& exists|w: Seq<int>, m: int|
                    #[trigger] Self::placed(
                        *old(self),
                        *final(self),
                        w,
                        m,
                        components(path@).drop_last(),
                    ) && Self::grown(*old(self), *final(self), w, m) && final(self).walk_through(w, components(path@).drop_last()) && w.last()
                        == final(self).len() - 1
            },
            forall|i: int|
                old(self).len() <= i < final(self).len() - 1 ==> {
                    &&& (#[trigger] final(self).nodes@[i]).path@.len() == 0
                    &&& final(self).nodes@[i].version is None
                },
    {
        let cs = split_components(&chars_of(path));
        if cs.len() == 0 {
            return;
        }
        let ghost a = *self;
        let ghost csv = views(cs@);
        let (parent, gw, gm) = self.descend(&cs);
        let ghost w = gw@;
        let ghost m = gm@;
        let idx: usize = cs.len() - 1;
        let leaf = NavigationItem {
            title,
            path: String::from_str(path),
            children: Vec::new(),
            version,
        };
        let ghost b = *self;
        proof {
            if idx > 0 {
                assert(parent == Self::level_parent(w, idx as int));
            }
        }
        let n = self.push_node(parent, leaf);
        let total = self.nodes.len();
        proof {
            Self::lemma_grown_push(a, b, *self, w, m, n as int, parent);
            if idx > 0 {
                Self::lemma_keeps_walk(b, *self, w);
            }
            assert forall|j: int| 0 <= j < idx implies (#[trigger] self.nodes@[w[j]]).path@.len() == 0
                && self.nodes@[w[j]].title@ == csv[j] by {
                assert(b.nodes@[w[j]].path@.len() == 0);
                if idx > 0 {
                    assert(self.nodes@[w[j]].title == b.nodes@[w[j]].title);
                }
            }
            self.lemma_extend_walk(w, n as int, parent);
            let wf = w.push(n as int);
            let dirs = csv.drop_last();
            assert forall|j: int| 0 <= j < dirs.len() implies (#[trigger] self.nodes@[wf[j]]).path@.len()
                == 0 && self.nodes@[wf[j]].title@ == dirs[j] by {
                assert(wf[j] == w[j]);
            }
            assert(self.walk_through(wf, dirs));
            Self::lemma_placed_leaf(a, *self, w, m, csv, n as int);
            if single_home(a) {
                lemma_grown_home(a, *self, w.push(n as int), m, csv.drop_last());
            }
            if a.dirs_unique() {
                if path@.len() == 0 {
                    lemma_empty_path(path@);
                }
                assert(wf.last() == n);
                Self::lemma_grown_unique(a, *self, wf, m, dirs);
            }
            Self::lemma_keeps_trans(a, b, *self);
            assert forall|i: int| a.len() <= i < self.len() - 1 implies {
                &&& (#[trigger] self.nodes@[i]).path@.len() == 0
                &&& self.nodes@[i].version is None
            } by {
                assert(b.nodes@[i].path == self.nodes@[i].path);
            }
        }
    }

    /// In a well-formed tree every node is met by a walk from the top level.
    pub proof fn lemma_all_reachable(self, i: int)
        requires
            self.wf(),
            0 <= i < self.len(),
        ensures
            self.reachable(i),
        decreases i,
    {
        assert(self.has_parent(i));
        if self.is_root(i) {
            let w = seq![i];
            assert(self.is_walk(w));
        } else {
            let (p, k) = choose|p: int, k: int|
                0 <= p < i && 0 <= k < self.n_children(p) && #[trigger] self.child(p, k) == i;
            self.lemma_all_reachable(p);
            let wp = choose|w: Seq<int>| #[trigger] self.is_walk(w) && w.last() == p;
            let w = wp.push(i);
            assert forall|j: int| 0 <= j < w.len() - 1 implies self.step(#[trigger] w[j], w[j + 1]) by {
                if j < w.len() - 2 {
                    assert(w[j] == wp[j] && w[j + 1] == wp[j + 1]);
                } else {
                    assert(w[j] == p && w[j + 1] == i);
                    assert(self.child(w[j], k) == w[j + 1]);
                }
            }
            assert forall|j: int| 0 <= j < w.len() implies 0 <= #[trigger] w[j] < self.len() by {
                if j < w.len() - 1 {
                    assert(w[j] == wp[j]);
                }
            }
            assert(self.is_walk(w));
        }
    }
}

/// The relative paths of the documents that have at least one component.
pub open spec fn document_paths(docs: Seq<Document>) -> Set<Seq<char>> {
    Set::new(
        |p: Seq<char>|
            exists|k: int|
                0 <= k < docs.len() && #[trigger] docs[k].relative_path@ == p
                    && components(p).len() > 0,
    )
}

/// The title a document shows in navigation: its header title, else its
/// file stem, else `Untitled`.
pub open spec fn nav_title(doc: Document) -> Seq<char> {
    match doc.frontmatter.title {
        Some(t) => t@,
        None => match file_stem(doc.relative_path@) {
            Some(s) => s,
            None => "Untitled"@,
        },
    }
}

/// The title a document shows in navigation.
pub fn navigation_title(doc: &Document) -> (r: String)
    ensures
        r@ == nav_title(*doc),
{
    match &doc.frontmatter.title {
        Some(t) => t.clone(),
        None => match file_stem_exec(doc.relative_path.as_str()) {
            Some(s) => string_of(&s),
            None => String::from_str("Untitled"),
        },
    }
}

impl Default for NavigationTree {
    fn default() -> (r: NavigationTree)
        ensures
            r.wf(),
            r.nodes@.len() == 0,
            r.items@.len() == 0,
    {
        NavigationTree::new()
    }
}

/// Each of the first `d` documents that has a component has a node with its path.
#[verifier::opaque]
pub open spec fn covers(tree: NavigationTree, docs: Seq<Document>, d: int) -> bool {
    forall|k: int|
        0 <= k < d && components(docs[k].relative_path@).len() > 0 ==> exists|i: int|
            0 <= i < tree.len() && #[trigger] tree.nodes@[i].path@ == docs[k].relative_path@
}

/// Each node with a non-empty path has the path of one of the first `d` documents.
#[verifier::opaque]
pub open spec fn sourced(tree: NavigationTree, docs: Seq<Document>, d: int) -> bool {
    forall|i: int|
        0 <= i < tree.len() && (#[trigger] tree.nodes@[i]).path@.len() > 0 ==> exists|k: int|
            0 <= k < d && #[trigger] docs[k].relative_path@ == tree.nodes@[i].path@
                && components(tree.nodes@[i].path@).len() > 0
}

/// What a leaf shows: its path, title and version.
pub type LeafView = (Seq<char>, Seq<char>, Option<Seq<char>>);

/// The leaves among the first `n` nodes, in node order.
pub open spec fn leaves_upto(t: NavigationTree, n: int) -> Seq<LeafView>
    decreases n,
{
    if n <= 0 {
        Seq::empty()
    } else {
        leaves_upto(t, n - 1) + if t.nodes@[n - 1].path@.len() > 0 {
            seq![(t.nodes@[n - 1].path@, t.nodes@[n - 1].title@, opt_view(t.nodes@[n - 1].version))]
        } else {
            Seq::<LeafView>::empty()
        }
    }
}

/// The leaves of a tree, in node order.
#[verifier::opaque]
pub open spec fn leaves(t: NavigationTree) -> Seq<LeafView> {
    leaves_upto(t, t.len())
}

/// The leaf each of the first `n` documents that has a component gets, in
/// document order.
#[verifier::opaque]
pub open spec fn document_leaves(docs: Seq<Document>, n: int) -> Seq<LeafView>
    decreases n,
{
    if n <= 0 {
        Seq::empty()
    } else {
        document_leaves(docs, n - 1) + if components(docs[n - 1].relative_path@).len() > 0 {
            seq![
                (docs[n - 1].relative_path@, nav_title(docs[n - 1]), opt_view(docs[n - 1].version)),
            ]
        } else {
            Seq::<LeafView>::empty()
        }
    }
}

proof fn lemma_leaves_start(t: NavigationTree, docs: Seq<Document>)
    requires
        t.len() == 0,
    ensures
        leaves(t) == document_leaves(docs, 0),
{
    reveal(leaves);
    reveal(document_leaves);
}

proof fn lemma_leaves_kept(a: NavigationTree, b: NavigationTree, n: int)
    requires
        NavigationTree::keeps(a, b),
        0 <= n <= a.len(),
    ensures
        leaves_upto(b, n) == leaves_upto(a, n),
    decreases n,
{
    if n > 0 {
        lemma_leaves_kept(a, b, n - 1);
        assert(b.nodes@[n - 1].title == a.nodes@[n - 1].title);
    }
}

proof fn lemma_leaves_skip_dirs(b: NavigationTree, lo: int, n: int)
    requires
        0 <= lo <= n <= b.len(),
        forall|i: int| lo <= i < n ==> (#[trigger] b.nodes@[i]).path@.len() == 0,
    ensures
        leaves_upto(b, n) == leaves_upto(b, lo),
    decreases n,
{
    if n > lo {
        assert(b.nodes@[n - 1].path@.len() == 0);
        lemma_leaves_skip_dirs(b, lo, n - 1);
        assert(leaves_upto(b, n) =~= leaves_upto(b, n - 1));
    }
}

proof fn lemma_leaves_step(a: NavigationTree, b: NavigationTree, docs: Seq<Document>, d: int)
    requires
        0 <= d < docs.len(),
        leaves(a) == document_leaves(docs, d),
        NavigationTree::keeps(a, b),
        components(docs[d].relative_path@).len() == 0 ==> b == a,
        components(docs[d].relative_path@).len() > 0 ==> b.len() > a.len() && b.nodes@[b.len()
            - 1].path@ == docs[d].relative_path@ && b.nodes@[b.len() - 1].title@ == nav_title(docs[d])
            && opt_view(b.nodes@[b.len() - 1].version) == opt_view(docs[d].version),
        forall|i: int| a.len() <= i < b.len() - 1 ==> (#[trigger] b.nodes@[i]).path@.len() == 0,
    ensures
        leaves(b) == document_leaves(docs, d + 1),
{
    reveal(leaves);
    reveal(document_leaves);
    let p = docs[d].relative_path@;
    if components(p).len() == 0 {
        assert(document_leaves(docs, d + 1) =~= document_leaves(docs, d));
    } else {
        lemma_leaves_kept(a, b, a.len());
        lemma_leaves_skip_dirs(b, a.len(), b.len() - 1);
        if p.len() == 0 {
            lemma_empty_path(p);
        }
        assert(leaves(b) =~= document_leaves(docs, d + 1));
    }
}

proof fn lemma_build_step(a: NavigationTree, b: NavigationTree, docs: Seq<Document>, d: int)
    requires
        0 <= d < docs.len(),
        covers(a, docs, d),
        sourced(a, docs, d),
        NavigationTree::keeps(a, b),
        components(docs[d].relative_path@).len() == 0 ==> b == a,
        components(docs[d].relative_path@).len() > 0 ==> b.len() > a.len() && b.nodes@[b.len()
            - 1].path@ == docs[d].relative_path@,
        forall|i: int| a.len() <= i < b.len() - 1 ==> (#[trigger] b.nodes@[i]).path@.len() == 0,
    ensures
        covers(b, docs, d + 1),
        sourced(b, docs, d + 1),
{
    reveal(covers);
    reveal(sourced);
    assert forall|k: int|
        0 <= k < d + 1 && components(docs[k].relative_path@).len() > 0 implies exists|i: int|
        0 <= i < b.len() && #[trigger] b.nodes@[i].path@ == docs[k].relative_path@ by {
        if k < d {
            let i = choose|i: int|
                0 <= i < a.len() && #[trigger] a.nodes@[i].path@ == docs[k].relative_path@;
            assert(b.nodes@[i].path == a.nodes@[i].path);
        } else {
            assert(b.nodes@[b.len() - 1].path@ == docs[k].relative_path@);
        }
    }
    assert forall|i: int|
        0 <= i < b.len() && (#[trigger] b.nodes@[i]).path@.len() > 0 implies exists|k: int|
        0 <= k < d + 1 && #[trigger] docs[k].relative_path@ == b.nodes@[i].path@ && components(
            b.nodes@[i].path@,
        ).len() > 0 by {
        if i < a.len() {
            assert(b.nodes@[i].path == a.nodes@[i].path);
            assert(a.nodes@[i].path@.len() > 0);
        } else if i < b.len() - 1 {
        } else {
            assert(docs[d].relative_path@ == b.nodes@[i].path@);
        }
    }
}

proof fn lemma_build_done(tree: NavigationTree, docs: Seq<Document>)
    requires
        tree.wf(),
        covers(tree, docs, docs.len() as int),
        sourced(tree, docs, docs.len() as int),
    ensures
        tree.leaf_paths() == document_paths(docs),
{
    reveal(covers);
    reveal(sourced);
    assert forall|p: Seq<char>| tree.leaf_paths().contains(p) implies document_paths(
        docs,
    ).contains(p) by {
        let i = choose|i: int|
            0 <= i < tree.len() && tree.reachable(i) && p.len() > 0 && #[trigger] tree.nodes@[i].path@
                == p;
        assert(tree.nodes@[i].path@.len() > 0);
    }
    assert forall|p: Seq<char>| document_paths(docs).contains(p) implies tree.leaf_paths().contains(
        p,
    ) by {
        let k = choose|k: int|
            0 <= k < docs.len() && #[trigger] docs[k].relative_path@ == p && components(p).len() > 0;
        let i = choose|i: int|
            0 <= i < tree.len() && #[trigger] tree.nodes@[i].path@ == docs[k].relative_path@;
        tree.lemma_all_reachable(i);
        if p.len() == 0 {
            lemma_empty_path(p);
        }
    }
    assert(tree.leaf_paths() =~= document_paths(docs));
}

/// Adds the leaf of one document, under its directories.
fn add_document(tree: &mut NavigationTree, doc: &Document)
    requires
        old(tree).wf(),
    ensures
        final(tree).wf(),
        NavigationTree::keeps(*old(tree), *final(tree)),
        components(doc.relative_path@).len() == 0 ==> *final(tree) == *old(tree),
        components(doc.relative_path@).len() > 0 ==> final(tree).len() > old(tree).len(),
        components(doc.relative_path@).len() > 0 ==> final(tree).nodes@[final(tree).len()
            - 1].path@ == doc.relative_path@,
        components(doc.relative_path@).len() > 0 ==> final(tree).nodes@[final(tree).len()
            - 1].title@ == nav_title(*doc),
        components(doc.relative_path@).len() > 0 ==> opt_view(final(tree).nodes@[final(tree).len()
            - 1].version) == opt_view(doc.version),
        forall|i: int|
            old(tree).len() <= i < final(tree).len() - 1 ==> (#[trigger] final(tree).nodes@[i]).path@.len()
                == 0,
        old(tree).dirs_unique() ==> final(tree).dirs_unique(),
        single_home(*old(tree)) ==> single_home(*final(tree)),
        components(doc.relative_path@).len() > 0 ==> exists|w: Seq<int>|
            #[trigger] final(tree).walk_through(w, components(doc.relative_path@).drop_last())
                && w.last() == final(tree).len() - 1,
{
    let title = navigation_title(doc);
    let version = match &doc.version {
        Some(v) => Some(v.clone()),
        None => None,
    };
    assert(opt_view(version) == opt_view(doc.version));
    tree.add_path(doc.relative_path.as_str(), title, version);
    proof {
        let dirs = components(doc.relative_path@).drop_last();
        if components(doc.relative_path@).len() > 0 {
            let (w, m) = choose|w: Seq<int>, m: int|
                #[trigger] NavigationTree::placed(*old(tree), *tree, w, m, dirs) && NavigationTree::grown(
                    *old(tree),
                    *tree,
                    w,
                    m,
                ) && tree.walk_through(w, dirs) && w.last() == tree.len() - 1;
            assert(tree.walk_through(w, dirs));
        }
    }
}

/// Each of the first `d` documents that has a component is reached by a walk
/// through directory nodes named by its parent components, ending at a leaf
/// with its path.
#[verifier::opaque]
pub open spec fn placed_under_dirs(tree: NavigationTree, docs: Seq<Document>, d: int) -> bool {
    forall|k: int|
        0 <= k < d && components(docs[k].relative_path@).len() > 0 ==> exists|w: Seq<int>|
            #[trigger] tree.walk_through(w, components(docs[k].relative_path@).drop_last())
                && tree.nodes@[w.last()].path@ == docs[k].relative_path@
}

proof fn lemma_placed_step(a: NavigationTree, b: NavigationTree, docs: Seq<Document>, d: int)
    requires
        0 <= d < docs.len(),
        placed_under_dirs(a, docs, d),
        NavigationTree::keeps(a, b),
        components(docs[d].relative_path@).len() == 0 ==> b == a,
        components(docs[d].relative_path@).len() > 0 ==> b.nodes@[b.len() - 1].path@
            == docs[d].relative_path@,
        components(docs[d].relative_path@).len() > 0 ==> exists|w: Seq<int>|
            #[trigger] b.walk_through(w, components(docs[d].relative_path@).drop_last()) && w.last()
                == b.len() - 1,
    ensures
        placed_under_dirs(b, docs, d + 1),
{
    reveal(placed_under_dirs);
    assert forall|k: int|
        0 <= k < d + 1 && components(docs[k].relative_path@).len() > 0 implies exists|w: Seq<int>|
        #[trigger] b.walk_through(w, components(docs[k].relative_path@).drop_last())
            && b.nodes@[w.last()].path@ == docs[k].relative_path@ by {
        let dirs = components(docs[k].relative_path@).drop_last();
        if k < d {
            let w = choose|w: Seq<int>|
                #[trigger] a.walk_through(w, dirs) && a.nodes@[w.last()].path@ == docs[k].relative_path@;
            NavigationTree::lemma_keeps_walk(a, b, w);
            assert(w[w.len() - 1] == w.last());
            assert forall|j: int| 0 <= j < dirs.len() implies (#[trigger] b.nodes@[w[j]]).path@.len() == 0
                && b.nodes@[w[j]].title@ == dirs[j] by {
                assert(b.nodes@[w[j]].title == a.nodes@[w[j]].title);
            }
            assert(b.walk_through(w, dirs));
        } else {
            let w = choose|w: Seq<int>| #[trigger] b.walk_through(w, dirs) && w.last() == b.len() - 1;
            assert(b.walk_through(w, dirs));
        }
    }
}

/// The navigation tree of the documents, in their order. Walking it from
/// the top level meets exactly one leaf path per document path.
pub fn build_navigation(documents: &Vec<Document>) -> (tree: NavigationTree)
    ensures
        tree.wf(),
        tree.dirs_unique(),
        single_home(tree),
        tree.leaf_paths() == document_paths(documents@),
        leaves(tree) == document_leaves(documents@, documents.len() as int),
        placed_under_dirs(tree, documents@, documents.len() as int),
{
    let mut tree = NavigationTree::new();
    let mut d: usize = 0;
    proof {
        reveal(covers);
        reveal(sourced);
        lemma_leaves_start(tree, documents@);
        reveal(placed_under_dirs);
    }
    while d < documents.len()
        invariant
            d <= documents.len(),
            tree.wf(),
            covers(tree, documents@, d as int),
            sourced(tree, documents@, d as int),
            leaves(tree) == document_leaves(documents@, d as int),
            tree.dirs_unique(),
            single_home(tree),
            placed_under_dirs(tree, documents@, d as int),
        decreases documents.len() - d,
    {
        let ghost a = tree;
        add_document(&mut tree, &documents[d]);
        proof {
            lemma_build_step(a, tree, documents@, d as int);
            lemma_leaves_step(a, tree, documents@, d as int);
            lemma_placed_step(a, tree, documents@, d as int);
        }
        d = d + 1;
    }
    proof {
        lemma_build_done(tree, documents@);
    }
    tree
}

} // verus!
