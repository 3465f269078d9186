//! A snapshot of an entity hierarchy: for each entity, its parent and its children.
//!
//! Entities are identified by their 64-bit identifiers. A node that is listed twice is
//! found by its first listing; an entity without a node has no parent and no children.
use vstd::prelude::*;

verus! {

/// One entity of the hierarchy, with its parent (if any) and its children in order.
pub struct TreeNode {
    pub entity: u64,
    pub parent: Option<u64>,
    pub children: Vec<u64>,
}

/// The hierarchy snapshot.
pub struct EntityTree {
    pub nodes: Vec<TreeNode>,
}

/// The first node of `nodes` that describes `e`.
pub open spec fn lookup(nodes: Seq<TreeNode>, e: u64) -> Option<TreeNode>
    decreases nodes.len(),
{
    if nodes.len() == 0 {
        None
    } else if nodes[0].entity == e {
        Some(nodes[0])
    } else {
        lookup(nodes.drop_first(), e)
    }
}

/// The parent of `e` in the hierarchy.
pub open spec fn parent_of(nodes: Seq<TreeNode>, e: u64) -> Option<u64> {
    match lookup(nodes, e) {
        Some(n) => n.parent,
        None => None,
    }
}

/// The children of `e` in the hierarchy, in order.
pub open spec fn children_of(nodes: Seq<TreeNode>, e: u64) -> Seq<u64> {
    match lookup(nodes, e) {
        Some(n) => n.children@,
        None => Seq::empty(),
    }
}

/// The `k`-th ancestor of `e`: `e` itself for `k == 0`, then its parent, its grandparent, ...
pub open spec fn ancestor(nodes: Seq<TreeNode>, e: u64, k: nat) -> Option<u64>
    decreases k,
{
    if k == 0 {
        Some(e)
    } else {
        match parent_of(nodes, e) {
            Some(p) => ancestor(nodes, p, (k - 1) as nat),
            None => None,
        }
    }
}

/// No entity meets itself again when walking up its chain of parents.
pub open spec fn acyclic(nodes: Seq<TreeNode>) -> bool {
    forall|e: u64, i: nat, j: nat|
        #![trigger ancestor(nodes, e, i), ancestor(nodes, e, j)]
        i < j && ancestor(nodes, e, i) is Some && ancestor(nodes, e, j) is Some ==> ancestor(
            nodes,
            e,
            i,
        ) != ancestor(nodes, e, j)
}

/// Walking up from `e` (itself included), the first entity found in `targets`, looking at
/// most `fuel` levels above `e`.
pub open spec fn nearest_in(nodes: Seq<TreeNode>, targets: Seq<u64>, e: u64, fuel: nat) -> Option<
    u64,
>
    decreases fuel,
{
    if targets.contains(e) {
        Some(e)
    } else if fuel == 0 {
        None
    } else {
        match parent_of(nodes, e) {
            Some(p) => nearest_in(nodes, targets, p, (fuel - 1) as nat),
            None => None,
        }
    }
}

impl View for EntityTree {
    type V = Seq<TreeNode>;

    open spec fn view(&self) -> Seq<TreeNode> {
        self.nodes@
    }
}

/// Whether `v` holds `x`.
pub fn vec_contains(v: &Vec<u64>, x: u64) -> (res: bool)
    ensures
        res == v@.contains(x),
{
    let mut i: usize = 0;
    while i < v.len()
        invariant
            i <= v.len(),
            forall|j: int| 0 <= j < i ==> v@[j] != x,
        decreases v.len() - i,
    {
        if v[i] == x {
            return true;
        }
        i = i + 1;
    }
    false
}

proof fn lemma_lookup_skip(nodes: Seq<TreeNode>, i: int, e: u64)
    requires
        0 <= i < nodes.len(),
        nodes[i].entity != e,
    ensures
        lookup(nodes.skip(i), e) == lookup(nodes.skip(i + 1), e),
{
    assert(nodes.skip(i).drop_first() =~= nodes.skip(i + 1));
}

proof fn lemma_lookup_hit(nodes: Seq<TreeNode>, i: int, e: u64)
    requires
        0 <= i < nodes.len(),
        nodes[i].entity == e,
    ensures
        lookup(nodes.skip(i), e) == Some(nodes[i]),
{
    assert(nodes.skip(i)[0] == nodes[i]);
}

/// The node found for `e` is the first node listed for `e`; none is found exactly when no
/// node is listed for `e`.
pub proof fn lemma_lookup_law(nodes: Seq<TreeNode>, e: u64)
    ensures
        lookup(nodes, e) is None <==> forall|j: int| 0 <= j < nodes.len() ==> (#[trigger] nodes[j]).entity != e,
        lookup(nodes, e) matches Some(n) ==> exists|i: int|
            0 <= i < nodes.len() && (#[trigger] nodes[i]) == n && n.entity == e && forall|j: int|
                0 <= j < i ==> (#[trigger] nodes[j]).entity != e,
    decreases nodes.len(),
{
    if nodes.len() > 0 {
        let rest = nodes.drop_first();
        lemma_lookup_law(rest, e);
        if nodes[0].entity == e {
            assert(nodes[0] == lookup(nodes, e)->0);
        } else {
            assert forall|j: int| 0 <= j < rest.len() implies rest[j] == nodes[j + 1] by {}
            if lookup(nodes, e) is None {
                assert forall|j: int| 0 <= j < nodes.len() implies (#[trigger] nodes[j]).entity != e by {
                    if j > 0 {
                        assert(rest[j - 1] == nodes[j]);
                    }
                }
            } else {
                let n = lookup(nodes, e)->0;
                let i = choose|i: int|
                    0 <= i < rest.len() && (#[trigger] rest[i]) == n && n.entity == e && forall|j: int|
                        0 <= j < i ==> (#[trigger] rest[j]).entity != e;
                assert(nodes[i + 1] == n);
                assert forall|j: int| 0 <= j < i + 1 implies (#[trigger] nodes[j]).entity != e by {
                    if j > 0 {
                        assert(rest[j - 1] == nodes[j]);
                    }
                }
            }
            if forall|j: int| 0 <= j < nodes.len() ==> (#[trigger] nodes[j]).entity != e {
                assert forall|j: int| 0 <= j < rest.len() implies (#[trigger] rest[j]).entity != e by {
                    assert(nodes[j + 1] == rest[j]);
                }
            }
        }
    }
}

impl EntityTree {
    /// The node describing `e`, if any (the first one listed).
    pub fn node(&self, e: u64) -> (res: Option<&TreeNode>)
        ensures
            match res {
                Some(n) => lookup(self@, e) == Some(*n),
                None => lookup(self@, e) is None,
            },
    {
        let mut i: usize = 0;
        assert(self.nodes@.skip(0) =~= self.nodes@);
        while i < self.nodes.len()
            invariant
                i <= self.nodes.len(),
                lookup(self@, e) == lookup(self.nodes@.skip(i as int), e),
            decreases self.nodes.len() - i,
        {
            if self.nodes[i].entity == e {
                proof {
                    lemma_lookup_hit(self.nodes@, i as int, e);
                }
                return Some(&self.nodes[i]);
            }
            proof {
                lemma_lookup_skip(self.nodes@, i as int, e);
            }
            i = i + 1;
        }
        None
    }

    /// The parent of `e`, if it has one.
    pub fn parent(&self, e: u64) -> (res: Option<u64>)
        ensures
            res == parent_of(self@, e),
            (forall|j: int| 0 <= j < self@.len() ==> (#[trigger] self@[j]).entity != e) ==> res is None,
            forall|i: int|
                0 <= i < self@.len() && (#[trigger] self@[i]).entity == e && (forall|j: int|
                    0 <= j < i ==> (#[trigger] self@[j]).entity != e) ==> res == self@[i].parent,
    {
        proof {
            lemma_lookup_law(self@, e);
            if lookup(self@, e) is Some {
                let n = lookup(self@, e)->0;
                let k = choose|k: int|
                    0 <= k < self@.len() && (#[trigger] self@[k]) == n && n.entity == e && forall|j: int|
                        0 <= j < k ==> (#[trigger] self@[j]).entity != e;
                assert forall|i: int|
                    0 <= i < self@.len() && (#[trigger] self@[i]).entity == e && (forall|j: int|
                        0 <= j < i ==> (#[trigger] self@[j]).entity != e) implies i == k by {
                    if i < k {
                        assert(self@[i].entity != e);
                    } else if i > k {
                        assert(self@[k].entity != e);
                    }
                }
            }
        }
        match self.node(e) {
            Some(n) => n.parent,
            None => None,
        }
    }

    /// Walks up from `start` (itself included) and returns the first entity that is one of
    /// `targets`. The walk looks at most as many levels up as the snapshot has nodes, which
    /// an acyclic hierarchy never exceeds (see `lemma_nearest_in_complete`).
    pub fn nearest_ancestor_in(&self, targets: &Vec<u64>, start: u64) -> (res: Option<u64>)
        ensures
            res == nearest_in(self@, targets@, start, self.nodes.len() as nat),
    {
        let mut current: u64 = start;
        let mut fuel: usize = self.nodes.len();
        loop
            invariant
                nearest_in(self@, targets@, start, self.nodes.len() as nat) == nearest_in(
                    self@,
                    targets@,
                    current,
                    fuel as nat,
                ),
            decreases fuel,
        {
            if vec_contains(targets, current) {
                return Some(current);
            }
            if fuel == 0 {
                return None;
            }
            match self.parent(current) {
                Some(p) => {
                    current = p;
                    fuel = fuel - 1;
                },
                None => {
                    return None;
                },
            }
        }
    }
}

/// Soundness of the walk: what it returns is an ancestor-or-self of `e` that is one of
/// `targets`, and no nearer ancestor-or-self is one of `targets`.
pub proof fn lemma_nearest_in_sound(
    nodes: Seq<TreeNode>,
    targets: Seq<u64>,
    e: u64,
    fuel: nat,
    d: u64,
)
    requires
        nearest_in(nodes, targets, e, fuel) == Some(d),
    ensures
        exists|k: nat|
            #![trigger ancestor(nodes, e, k)]
            k <= fuel && ancestor(nodes, e, k) == Some(d) && targets.contains(d) && (forall|j: nat|
                j < k && (#[trigger] ancestor(nodes, e, j)) is Some ==> !targets.contains(
                    ancestor(nodes, e, j)->0,
                )),
    decreases fuel,
{
    if targets.contains(e) {
        assert(ancestor(nodes, e, 0) == Some(e));
    } else {
        let p = parent_of(nodes, e)->0;
        lemma_nearest_in_sound(nodes, targets, p, (fuel - 1) as nat, d);
        let k = choose|k: nat|
            #![trigger ancestor(nodes, p, k)]
            k <= fuel - 1 && ancestor(nodes, p, k) == Some(d) && targets.contains(d) && (forall|
                j: nat,
            |
                j < k && (#[trigger] ancestor(nodes, p, j)) is Some ==> !targets.contains(
                    ancestor(nodes, p, j)->0,
                ));
        assert(ancestor(nodes, e, k + 1) == ancestor(nodes, p, k));
        assert forall|j: nat|
            j < k + 1 && (#[trigger] ancestor(nodes, e, j)) is Some implies !targets.contains(
            ancestor(nodes, e, j)->0,
        ) by {
            if j > 0 {
                assert(ancestor(nodes, e, j) == ancestor(nodes, p, (j - 1) as nat));
            }
        }
    }
}

/// The walk with enough fuel reaches the first ancestor-or-self that is one of `targets`.
proof fn lemma_nearest_in_reaches(
    nodes: Seq<TreeNode>,
    targets: Seq<u64>,
    e: u64,
    k: nat,
    fuel: nat,
    d: u64,
)
    requires
        k <= fuel,
        ancestor(nodes, e, k) == Some(d),
        targets.contains(d),
        forall|j: nat|
            j < k && (#[trigger] ancestor(nodes, e, j)) is Some ==> !targets.contains(
                ancestor(nodes, e, j)->0,
            ),
    ensures
        nearest_in(nodes, targets, e, fuel) == Some(d),
    decreases k,
{
    if k > 0 {
        assert(ancestor(nodes, e, 0) == Some(e));
        let p = parent_of(nodes, e)->0;
        assert forall|j: nat|
            j < k - 1 && (#[trigger] ancestor(nodes, p, j)) is Some implies !targets.contains(
            ancestor(nodes, p, j)->0,
        ) by {
            assert(ancestor(nodes, e, j + 1) == ancestor(nodes, p, j));
        }
        lemma_nearest_in_reaches(nodes, targets, p, (k - 1) as nat, (fuel - 1) as nat, d);
    }
}

/// An entity with a parent is described by some node.
proof fn lemma_parent_means_node(nodes: Seq<TreeNode>, e: u64)
    requires
        parent_of(nodes, e) is Some,
    ensures
        nodes.map_values(|n: TreeNode| n.entity).contains(e),
    decreases nodes.len(),
{
    let ents = nodes.map_values(|n: TreeNode| n.entity);
    if nodes[0].entity == e {
        assert(ents[0] == e);
    } else {
        lemma_parent_means_node(nodes.drop_first(), e);
        let rest = nodes.drop_first().map_values(|n: TreeNode| n.entity);
        let i = choose|i: int| 0 <= i < rest.len() && rest[i] == e;
        assert(ents[i + 1] == e);
    }
}

/// In an acyclic hierarchy a chain of ancestors is no longer than the number of nodes.
pub proof fn lemma_chain_bounded(nodes: Seq<TreeNode>, e: u64, k: nat)
    requires
        acyclic(nodes),
        ancestor(nodes, e, k) is Some,
    ensures
        k <= nodes.len(),
{
    let ents = nodes.map_values(|n: TreeNode| n.entity);
    let chain = Seq::new(k, |j: int| ancestor(nodes, e, j as nat)->0);
    assert forall|j: int| 0 <= j < k implies (#[trigger] chain[j] == ancestor(nodes, e, j as nat)->0)
        && ancestor(nodes, e, j as nat) is Some && parent_of(nodes, chain[j]) is Some by {
        lemma_ancestor_prefix(nodes, e, j as nat, k);
        lemma_ancestor_prefix(nodes, e, (j + 1) as nat, k);
        lemma_ancestor_step(nodes, e, j as nat);
    }
    assert(chain.no_duplicates()) by {
        assert forall|a: int, b: int| 0 <= a < k && 0 <= b < k && a != b implies chain[a]
            != chain[b] by {
            assert(chain[a] == ancestor(nodes, e, a as nat)->0);
            assert(chain[b] == ancestor(nodes, e, b as nat)->0);
            if a < b {
                assert(ancestor(nodes, e, a as nat) != ancestor(nodes, e, b as nat));
            } else {
                assert(ancestor(nodes, e, b as nat) != ancestor(nodes, e, a as nat));
            }
        }
    }
    chain.unique_seq_to_set();
    assert(chain.to_set().subset_of(ents.to_set())) by {
        assert forall|x: u64| chain.to_set().contains(x) implies ents.to_set().contains(x) by {
            let j = choose|j: int| 0 <= j < chain.len() && chain[j] == x;
            lemma_parent_means_node(nodes, chain[j]);
        }
    }
    ents.lemma_cardinality_of_set();
    vstd::set_lib::lemma_len_subset(chain.to_set(), ents.to_set());
}

/// Every shorter walk up a defined chain is defined too.
proof fn lemma_ancestor_prefix(nodes: Seq<TreeNode>, e: u64, j: nat, k: nat)
    requires
        j <= k,
        ancestor(nodes, e, k) is Some,
    ensures
        ancestor(nodes, e, j) is Some,
    decreases k,
{
    if j > 0 {
        let p = parent_of(nodes, e)->0;
        lemma_ancestor_prefix(nodes, p, (j - 1) as nat, (k - 1) as nat);
    }
}

/// The `(j+1)`-th ancestor is the parent of the `j`-th.
pub proof fn lemma_ancestor_step(nodes: Seq<TreeNode>, e: u64, j: nat)
    requires
        ancestor(nodes, e, j) is Some,
    ensures
        ancestor(nodes, e, j + 1) == parent_of(nodes, ancestor(nodes, e, j)->0),
    decreases j,
{
    let p = parent_of(nodes, e);
    if j > 0 {
        let p = p->0;
        assert(ancestor(nodes, e, j) == ancestor(nodes, p, (j - 1) as nat));
        lemma_ancestor_step(nodes, p, (j - 1) as nat);
        assert(ancestor(nodes, e, j + 1) == ancestor(nodes, p, j));
    } else {
        assert(ancestor(nodes, e, 0) == Some(e));
        match p {
            Some(q) => {
                assert(ancestor(nodes, q, 0) == Some(q));
            },
            None => {},
        }
    }
}

/// Completeness of the walk in an acyclic hierarchy: when some ancestor-or-self of `e` is
/// one of `targets`, the walk of `EntityTree::nearest_ancestor_in` returns the nearest one.
pub proof fn lemma_nearest_in_complete(
    nodes: Seq<TreeNode>,
    targets: Seq<u64>,
    e: u64,
    k: nat,
    d: u64,
)
    requires
        acyclic(nodes),
        ancestor(nodes, e, k) == Some(d),
        targets.contains(d),
        forall|j: nat|
            j < k && (#[trigger] ancestor(nodes, e, j)) is Some ==> !targets.contains(
                ancestor(nodes, e, j)->0,
            ),
    ensures
        nearest_in(nodes, targets, e, nodes.len()) == Some(d),
{
    lemma_chain_bounded(nodes, e, k);
    lemma_nearest_in_reaches(nodes, targets, e, k, nodes.len(), d);
}

} // verus!
