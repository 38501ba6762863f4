//! Scene hierarchies and the material patcher that rebinds matching nodes.

use vstd::prelude::*;
use vstd::string::StrSliceExecFns;
use crate::handle::Handle;

verus! {

/// Case-insensitive character match: equal code points, or the same Latin
/// letter in the two cases.
pub open spec fn ci_eq(a: char, b: char) -> bool {
    let x = a as u32;
    let y = b as u32;
    x == y || (65 <= x <= 90 && y == x + 32) || (65 <= y <= 90 && x == y + 32)
}

/// `pat` is a case-insensitive suffix of `name`.
pub open spec fn ci_suffix(pat: Seq<char>, name: Seq<char>) -> bool {
    pat.len() <= name.len() && forall|i: int|
        0 <= i < pat.len() ==> ci_eq(name[name.len() - pat.len() + i], #[trigger] pat[i])
}

/// Case-insensitive character match.
fn char_ci_eq(a: char, b: char) -> (r: bool)
    ensures
        r == ci_eq(a, b),
{
    let x = a as u32;
    let y = b as u32;
    x == y || (65 <= x && x <= 90 && y == x + 32) || (65 <= y && y <= 90 && x == y + 32)
}

/// Whether `pat` ends `name`, ignoring letter case.
fn str_ci_suffix(pat: &str, name: &str) -> (r: bool)
    ensures
        r == ci_suffix(pat@, name@),
{
    let m = pat.unicode_len();
    let n = name.unicode_len();
    if m > n {
        return false;
    }
    let mut i: usize = 0;
    while i < m
        invariant
            m == pat@.len(),
            n == name@.len(),
            m <= n,
            i <= m,
            forall|j: int| 0 <= j < i ==> ci_eq(name@[n - m + j], #[trigger] pat@[j]),
        decreases m - i,
    {
        let a = name.get_char(n - m + i);
        let b = pat.get_char(i);
        if !char_ci_eq(a, b) {
            return false;
        }
        i = i + 1;
    }
    true
}

/// The naming convention that selects the nodes to patch. It is an explicit
/// parameter of the patcher, so that another tagging scheme can replace the
/// suffix convention without touching the traversal.
pub enum NamePredicate {
    /// The node name ends with this text, ignoring letter case.
    SuffixIgnoreCase(String),
    /// The node name equals this text, ignoring letter case.
    ExactIgnoreCase(String),
}

impl NamePredicate {
    /// Whether a node name satisfies the predicate.
    pub open spec fn spec_matches(&self, name: Seq<char>) -> bool {
        match self {
            NamePredicate::SuffixIgnoreCase(s) => ci_suffix(s@, name),
            NamePredicate::ExactIgnoreCase(s) => s@.len() == name.len() && ci_suffix(s@, name),
        }
    }

    /// Whether a node name satisfies the predicate.
    pub fn matches(&self, name: &str) -> (r: bool)
        ensures
            r == self.spec_matches(name@),
    {
        match self {
            NamePredicate::SuffixIgnoreCase(s) => str_ci_suffix(s.as_str(), name),
            NamePredicate::ExactIgnoreCase(s) => {
                if s.unicode_len() != name.unicode_len() {
                    false
                } else {
                    str_ci_suffix(s.as_str(), name)
                }
            },
        }
    }
}

struct SceneNode {
    name: String,
    material: Handle,
    parent: Option<usize>,
}

/// A materialized scene hierarchy: nodes in spawn order, each holding its
/// human-readable name, its current material binding and its parent. A
/// parent always precedes its children, as a scene-instantiation service
/// spawns them.
pub struct SceneGraph {
    nodes: Vec<SceneNode>,
}

impl SceneGraph {
    /// Number of nodes.
    pub closed spec fn spec_len(&self) -> nat {
        self.nodes@.len()
    }

    /// The name of node `i`.
    pub closed spec fn name_at(&self, i: int) -> Seq<char> {
        self.nodes@[i].name@
    }

    /// The material binding of node `i`.
    pub closed spec fn material_at(&self, i: int) -> Handle {
        self.nodes@[i].material
    }

    /// The parent of node `i`, if any.
    pub closed spec fn parent_at(&self, i: int) -> Option<usize> {
        self.nodes@[i].parent
    }

    /// Parents precede their children.
    pub open spec fn wf(&self) -> bool {
        forall|i: int|
            0 <= i < self.spec_len() ==> ((#[trigger] self.parent_at(i)) matches Some(p) ==> p < i)
    }

    /// Node `i` lies in the subtree rooted at `root` (including the root
    /// itself), following parent links.
    pub open spec fn in_subtree(&self, root: int, i: int) -> bool
        decreases i,
        when i >= 0
    {
        if i == root {
            true
        } else {
            match self.parent_at(i) {
                Some(p) => if p < i {
                    self.in_subtree(root, p as int)
                } else {
                    false
                },
                None => false,
            }
        }
    }

    /// Node `i` is a strict descendant of `root`.
    pub open spec fn is_descendant(&self, root: int, i: int) -> bool {
        i != root && self.in_subtree(root, i)
    }

    /// How many of the first `n` nodes are strict descendants of `root`
    /// with a matching name.
    pub open spec fn match_count(&self, root: int, p: NamePredicate, n: nat) -> int
        decreases n,
    {
        if n == 0 {
            0
        } else {
            self.match_count(root, p, (n - 1) as nat) + (if self.is_descendant(root, n - 1)
                && p.spec_matches(self.name_at(n - 1)) {
                1int
            } else {
                0int
            })
        }
    }

    /// Each node contributes at most one patch: over the first `n` nodes
    /// the match count lies between `0` and `n`, whatever the hierarchy's
    /// depth or branching.
    pub proof fn lemma_match_count_bounds(&self, root: int, p: NamePredicate, n: nat)
        ensures
            0 <= self.match_count(root, p, n) <= n,
        decreases n,
    {
        if n > 0 {
            self.lemma_match_count_bounds(root, p, (n - 1) as nat);
        }
    }

    /// An empty hierarchy.
    pub fn new() -> (g: SceneGraph)
        ensures
            g.wf(),
            g.spec_len() == 0,
    {
        SceneGraph { nodes: Vec::new() }
    }

    /// Number of nodes.
    pub fn len(&self) -> (n: usize)
        ensures
            n == self.spec_len(),
    {
        self.nodes.len()
    }

    /// Appends a node under an already-spawned parent (or as a root) and
    /// returns its index.
    pub fn add_node(&mut self, name: String, material: Handle, parent: Option<usize>) -> (idx:
        usize)
        requires
            old(self).wf(),
            parent matches Some(p) ==> p < old(self).spec_len(),
        ensures
            final(self).wf(),
            final(self).spec_len() == old(self).spec_len() + 1,
            idx == old(self).spec_len(),
            final(self).name_at(idx as int) == name@,
            final(self).material_at(idx as int) == material,
            final(self).parent_at(idx as int) == parent,
            forall|j: int|
                #![trigger final(self).name_at(j)]
                #![trigger final(self).material_at(j)]
                #![trigger final(self).parent_at(j)]
                0 <= j < old(self).spec_len() ==> final(self).name_at(j) == old(self).name_at(j)
                    && final(self).material_at(j) == old(self).material_at(j)
                    && final(self).parent_at(j) == old(self).parent_at(j),
    {
        let idx = self.nodes.len();
        self.nodes.push(SceneNode { name, material, parent });
        proof {
            assert forall|i: int| 0 <= i < self.spec_len() implies ((#[trigger] self.parent_at(
                i,
            )) matches Some(p) ==> p < i) by {
                if i < old(self).spec_len() {
                    assert(self.parent_at(i) == old(self).parent_at(i));
                }
            }
        }
        idx
    }

    /// The name of node `i`.
    pub fn name_of(&self, i: usize) -> (r: &str)
        requires
            i < self.spec_len(),
        ensures
            r@ == self.name_at(i as int),
    {
        self.nodes[i].name.as_str()
    }

    /// The material binding of node `i`.
    pub fn material_of(&self, i: usize) -> (r: Handle)
        requires
            i < self.spec_len(),
        ensures
            r == self.material_at(i as int),
    {
        self.nodes[i].material
    }

    /// Whether node `i` is a strict descendant of `root`.
    pub fn descendant_of(&self, root: usize, i: usize) -> (r: bool)
        requires
            self.wf(),
            i < self.spec_len(),
        ensures
            r == self.is_descendant(root as int, i as int),
    {
        if i == root {
            return false;
        }
        let mut cur = i;
        while cur != root
            invariant
                cur < self.spec_len(),
                self.wf(),
                self.in_subtree(root as int, i as int) == self.in_subtree(root as int, cur as int),
            decreases cur,
        {
            match self.nodes[cur].parent {
                None => {
                    return false;
                },
                Some(p) => {
                    cur = p;
                },
            }
        }
        true
    }

    /// Subtree membership depends only on the parent links, which both
    /// graphs share.
    proof fn lemma_same_parents_same_subtree(g1: &SceneGraph, g2: &SceneGraph, root: int, i: int)
        requires
            g1.spec_len() == g2.spec_len(),
            forall|j: int|
                0 <= j < g1.spec_len() ==> (#[trigger] g1.parent_at(j)) == g2.parent_at(j),
            0 <= i < g1.spec_len(),
        ensures
            g1.in_subtree(root, i) == g2.in_subtree(root, i),
        decreases i,
    {
        if i != root {
            match g1.parent_at(i) {
                Some(p) => {
                    if p < i {
                        Self::lemma_same_parents_same_subtree(g1, g2, root, p as int);
                    }
                },
                None => {},
            }
        }
    }
}

/// Walks the full node set of a hierarchy and, for every strict descendant
/// of a chosen root whose name satisfies the predicate, replaces the node's
/// material binding with one shared, pre-built material. Every node is
/// visited exactly once, whatever the depth or branching of the hierarchy.
pub struct SceneNodePatcher {
    predicate: NamePredicate,
    material: Handle,
}

impl SceneNodePatcher {
    /// The naming predicate that selects nodes.
    pub closed spec fn spec_predicate(&self) -> NamePredicate {
        self.predicate
    }

    /// The material every matched node receives. One shared instance: the
    /// matched nodes are patched identically, not given clones.
    pub closed spec fn spec_material(&self) -> Handle {
        self.material
    }

    /// A patcher for one predicate and one pre-built material.
    pub fn new(predicate: NamePredicate, material: Handle) -> (p: SceneNodePatcher)
        ensures
            p.spec_predicate() == predicate,
            p.spec_material() == material,
    {
        SceneNodePatcher { predicate, material }
    }

    /// Patches every matching strict descendant of `root` and returns how
    /// many nodes were patched. Zero matches is a valid outcome, not an
    /// error. Names, parent links and the materials of all other nodes are
    /// untouched; each matched node is rebound to the same shared material.
    #[verifier::loop_isolation(false)]
    pub fn patch(&self, g: &mut SceneGraph, root: usize) -> (count: usize)
        requires
            old(g).wf(),
            root < old(g).spec_len(),
        ensures
            final(g).wf(),
            final(g).spec_len() == old(g).spec_len(),
            forall|j: int|
                #![trigger final(g).name_at(j)]
                #![trigger final(g).parent_at(j)]
                0 <= j < old(g).spec_len() ==> final(g).name_at(j) == old(g).name_at(j)
                    && final(g).parent_at(j) == old(g).parent_at(j),
            forall|j: int|
                0 <= j < old(g).spec_len() ==> (#[trigger] final(g).material_at(j)) == (if old(
                    g,
                ).is_descendant(root as int, j) && self.spec_predicate().spec_matches(
                    old(g).name_at(j),
                ) {
                    self.spec_material()
                } else {
                    old(g).material_at(j)
                }),
            count == old(g).match_count(root as int, self.spec_predicate(), old(g).spec_len()),
    {
        let n = g.len();
        let mut count: usize = 0;
        let mut i: usize = 0;
        while i < n
            invariant
                i <= n,
                count <= i,
                g.spec_len() == n,
                g.wf(),
                forall|j: int|
                    0 <= j < n ==> g.name_at(j) == old(g).name_at(j) && (#[trigger] g.parent_at(j))
                        == old(g).parent_at(j),
                forall|j: int|
                    i <= j < n ==> (#[trigger] g.material_at(j)) == old(g).material_at(j),
                forall|j: int|
                    0 <= j < i ==> (#[trigger] g.material_at(j)) == (if old(g).is_descendant(
                        root as int,
                        j,
                    ) && self.spec_predicate().spec_matches(old(g).name_at(j)) {
                        self.spec_material()
                    } else {
                        old(g).material_at(j)
                    }),
                count == old(g).match_count(root as int, self.spec_predicate(), i as nat),
            decreases n - i,
        {
            let desc = g.descendant_of(root, i);
            proof {
                SceneGraph::lemma_same_parents_same_subtree(g, old(g), root as int, i as int);
                assert(g.parent_at(i as int) == old(g).parent_at(i as int));
                assert(g.name_at(i as int) == old(g).name_at(i as int));
                assert(g.material_at(i as int) == old(g).material_at(i as int));
            }
            let matched = if desc {
                self.predicate.matches(g.name_of(i))
            } else {
                false
            };
            if matched {
                let ghost prev = *g;
                g.nodes[i].material = self.material;
                proof {
                    assert(g.nodes@.len() == prev.nodes@.len());
                    assert forall|j: int| 0 <= j < n && j != i as int implies g.nodes@[j]
                        == prev.nodes@[j] by {}
                    assert(g.name_at(i as int) == prev.name_at(i as int));
                    assert(g.parent_at(i as int) == prev.parent_at(i as int));
                    assert(g.material_at(i as int) == self.spec_material());
                    assert forall|j: int| 0 <= j < n implies g.name_at(j) == prev.name_at(j) && (
                    #[trigger] g.parent_at(j)) == prev.parent_at(j) by {
                        if j != i as int {
                            assert(g.nodes@[j] == prev.nodes@[j]);
                        }
                    }
                    assert forall|j: int| 0 <= j < n && j != i as int implies (
                    #[trigger] g.material_at(j)) == prev.material_at(j) by {
                        assert(g.nodes@[j] == prev.nodes@[j]);
                    }
                }
                count = count + 1;
            }
            i = i + 1;
        }
        count
    }
}

} // verus!
