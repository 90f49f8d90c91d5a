//! The evaluation tree: every attempted variant of one testcase, parented by
//! the fragment it was derived from, held in an arena indexed by position.
use crate::result::{EvalResult, EvalResults};
use crate::text::{decimal, decimal_text};
use vstd::prelude::*;
use vstd::string::*;

verus! {

/// One attempted variant.
pub struct EvalNode {
    pub name: String,
    pub res: EvalResults,
    /// Arena positions of the nodes derived from this one, in order.
    pub children: Vec<usize>,
    /// Arena position of the node this one was derived from.
    pub parent: Option<usize>,
}

/// The fill colour of a node with outcome `res`.
pub open spec fn color(res: EvalResults) -> Seq<char> {
    if res.0 == EvalResult::Error || res.1 == EvalResult::Error {
        "red"@
    } else if res.0 == EvalResult::TP && res.1 == EvalResult::TN {
        "green"@
    } else if res.0 == EvalResult::TP {
        "blue"@
    } else if res.1 == EvalResult::FP {
        "gray"@
    } else {
        "orange"@
    }
}

/// The DOT lines of a node numbered `id`: its own line, then the edge from
/// the node numbered `parent`, if any.
pub open spec fn node_dot(name: Seq<char>, res: EvalResults, id: nat, parent: Option<nat>) -> Seq<char> {
    let own = "node"@ + decimal(id) + " [label=\""@ + name + "\" style=filled fillcolor="@ + color(res)
        + "];\n"@;
    match parent {
        Some(p) => own + "node"@ + decimal(p) + " -> node"@ + decimal(id) + ";\n"@,
        None => own,
    }
}

pub open spec fn opt_nat(o: Option<usize>) -> Option<nat> {
    match o {
        Some(p) => Some(p as nat),
        None => None,
    }
}

/// The number of nodes in the subtree at position `i`, following children.
pub open spec fn subtree_size(nodes: Seq<EvalNode>, i: int) -> nat
    decreases nodes.len() - i, nodes[i].children@.len() + 1,
{
    if 0 <= i < nodes.len() {
        1 + children_size(nodes, i, 0)
    } else {
        0
    }
}

/// The number of nodes in the subtrees of the children of `i` from the
/// `k`-th on.
pub open spec fn children_size(nodes: Seq<EvalNode>, i: int, k: int) -> nat
    decreases nodes.len() - i, nodes[i].children@.len() - k,
{
    if 0 <= i < nodes.len() && 0 <= k < nodes[i].children@.len() {
        let c = nodes[i].children@[k] as int;
        (if i < c < nodes.len() {
            subtree_size(nodes, c)
        } else {
            0
        }) + children_size(nodes, i, k + 1)
    } else {
        0
    }
}

/// The DOT lines of the subtree at position `i` in pre-order, its nodes
/// numbered from `id` on, its root linked to the node numbered `parent`.
pub open spec fn subtree_dot(nodes: Seq<EvalNode>, i: int, parent: Option<nat>, id: nat) -> Seq<char>
    decreases nodes.len() - i, nodes[i].children@.len() + 1,
{
    if 0 <= i < nodes.len() {
        node_dot(nodes[i].name@, nodes[i].res, id, parent) + children_dot(nodes, i, 0, id, id + 1)
    } else {
        Seq::empty()
    }
}

/// The DOT lines of the subtrees of the children of `i` from the `k`-th
/// on, in order, numbered from `next` on; `i` is numbered `id`.
pub open spec fn children_dot(nodes: Seq<EvalNode>, i: int, k: int, id: nat, next: nat) -> Seq<char>
    decreases nodes.len() - i, nodes[i].children@.len() - k,
{
    if 0 <= i < nodes.len() && 0 <= k < nodes[i].children@.len() {
        let c = nodes[i].children@[k] as int;
        if i < c < nodes.len() {
            subtree_dot(nodes, c, Some(id), next) + children_dot(
                nodes,
                i,
                k + 1,
                id,
                next + subtree_size(nodes, c),
            )
        } else {
            children_dot(nodes, i, k + 1, id, next)
        }
    } else {
        Seq::empty()
    }
}

/// The DOT text of a tree of `nodes`, rooted at the first: every node
/// reached from the root in pre-order, numbered in that order.
pub open spec fn tree_dot(nodes: Seq<EvalNode>) -> Seq<char> {
    "digraph EvalTree {\n"@ + "node [shape=ellipse];\n"@ + subtree_dot(nodes, 0, None, 0) + "}"@
}

/// The first position at or after `i` of a node named `name`; the length if
/// there is none.
pub open spec fn first_named_from(nodes: Seq<EvalNode>, name: Seq<char>, i: int) -> int
    decreases nodes.len() - i,
{
    if i >= nodes.len() {
        nodes.len() as int
    } else if nodes[i].name@ == name {
        i
    } else {
        first_named_from(nodes, name, i + 1)
    }
}

pub open spec fn first_named(nodes: Seq<EvalNode>, name: Seq<char>) -> int {
    first_named_from(nodes, name, 0)
}

pub proof fn lemma_first_named_from(nodes: Seq<EvalNode>, name: Seq<char>, i: int)
    requires
        0 <= i <= nodes.len(),
    ensures
        i <= first_named_from(nodes, name, i) <= nodes.len(),
        first_named_from(nodes, name, i) < nodes.len() ==> nodes[first_named_from(nodes, name, i)].name@
            == name,
        forall|j: int| i <= j < first_named_from(nodes, name, i) ==> nodes[j].name@ != name,
    decreases nodes.len() - i,
{
    if i < nodes.len() {
        lemma_first_named_from(nodes, name, i + 1);
    }
}

/// Names of existing nodes never change, so a name that was found is still
/// found at the same place once more nodes are added.
pub proof fn lemma_first_named_stable(old_nodes: Seq<EvalNode>, new_nodes: Seq<EvalNode>, name: Seq<char>)
    requires
        old_nodes.len() <= new_nodes.len(),
        forall|j: int| 0 <= j < old_nodes.len() ==> #[trigger] new_nodes[j].name@ == old_nodes[j].name@,
        first_named(old_nodes, name) < old_nodes.len(),
    ensures
        first_named(new_nodes, name) == first_named(old_nodes, name),
{
    lemma_first_named_from(old_nodes, name, 0);
    let f = first_named(old_nodes, name);
    assert forall|i: int| 0 <= i <= f implies first_named_from(new_nodes, name, i) == f by {
        lemma_stable_from(old_nodes, new_nodes, name, i, f);
    }
}

proof fn lemma_stable_from(old_nodes: Seq<EvalNode>, new_nodes: Seq<EvalNode>, name: Seq<char>, i: int, f: int)
    requires
        old_nodes.len() <= new_nodes.len(),
        forall|j: int| 0 <= j < old_nodes.len() ==> #[trigger] new_nodes[j].name@ == old_nodes[j].name@,
        0 <= i <= f < old_nodes.len(),
        old_nodes[f].name@ == name,
        forall|j: int| 0 <= j < f ==> old_nodes[j].name@ != name,
    ensures
        first_named_from(new_nodes, name, i) == f,
    decreases f - i,
{
    assert(new_nodes[i].name@ == old_nodes[i].name@);
    if i < f {
        lemma_stable_from(old_nodes, new_nodes, name, i + 1, f);
    }
}

/// Node `j` lies in the subtree at `a`: following parents from `j` reaches
/// `a`.
pub open spec fn desc(nodes: Seq<EvalNode>, j: int, a: int) -> bool
    decreases j,
{
    if j < 0 || j >= nodes.len() {
        false
    } else if j == a {
        true
    } else {
        match nodes[j].parent {
            Some(p) => p < j && desc(nodes, p as int, a),
            None => false,
        }
    }
}

/// The positions of the nodes of the subtree at `i`, following children.
pub open spec fn subtree_set(nodes: Seq<EvalNode>, i: int) -> Set<int>
    decreases nodes.len() - i, nodes[i].children@.len() + 1,
{
    if 0 <= i < nodes.len() {
        Set::empty().insert(i) + children_set(nodes, i, 0)
    } else {
        Set::empty()
    }
}

pub open spec fn children_set(nodes: Seq<EvalNode>, i: int, k: int) -> Set<int>
    decreases nodes.len() - i, nodes[i].children@.len() - k,
{
    if 0 <= i < nodes.len() && 0 <= k < nodes[i].children@.len() {
        let c = nodes[i].children@[k] as int;
        (if i < c < nodes.len() {
            subtree_set(nodes, c)
        } else {
            Set::empty()
        }) + children_set(nodes, i, k + 1)
    } else {
        Set::empty()
    }
}

proof fn lemma_desc_bounds(nodes: Seq<EvalNode>, j: int, a: int)
    requires
        desc(nodes, j, a),
    ensures
        0 <= a <= j < nodes.len(),
    decreases j,
{
    if j != a {
        lemma_desc_bounds(nodes, nodes[j].parent->0 as int, a);
    }
}

/// The ancestors of a node form a chain.
proof fn lemma_desc_chain(nodes: Seq<EvalNode>, j: int, a: int, b: int)
    requires
        desc(nodes, j, a),
        desc(nodes, j, b),
        a <= b,
    ensures
        desc(nodes, b, a),
    decreases j,
{
    if j != b {
        lemma_desc_bounds(nodes, j, b);
        if j == a {
            lemma_desc_bounds(nodes, nodes[j].parent->0 as int, b);
        } else {
            lemma_desc_chain(nodes, nodes[j].parent->0 as int, a, b);
        }
    }
}

proof fn lemma_subtree_set(t: EvalTree, i: int)
    requires
        t.wf(),
        0 <= i < t.nodes@.len(),
    ensures
        subtree_set(t.nodes@, i).finite(),
        subtree_set(t.nodes@, i).len() == subtree_size(t.nodes@, i),
        forall|j: int| #[trigger] subtree_set(t.nodes@, i).contains(j) ==> desc(t.nodes@, j, i),
    decreases t.nodes@.len() - i, t.nodes@[i].children@.len() + 1,
{
    let nodes = t.nodes@;
    lemma_children_set(t, i, 0);
    let one = Set::empty().insert(i);
    let rest = children_set(nodes, i, 0);
    assert(one.disjoint(rest)) by {
        if rest.contains(i) {
            let m = choose|m: int|
                0 <= m < nodes[i].children@.len() && desc(nodes, i, #[trigger] nodes[i].children@[m] as int);
            lemma_desc_bounds(nodes, i, nodes[i].children@[m] as int);
        }
    }
    vstd::set_lib::lemma_set_disjoint_lens(one, rest);
    assert forall|j: int| #[trigger] subtree_set(nodes, i).contains(j) implies desc(nodes, j, i) by {
        if j != i {
            let m = choose|m: int|
                0 <= m < nodes[i].children@.len() && desc(nodes, j, #[trigger] nodes[i].children@[m] as int);
            lemma_desc_up(t, j, nodes[i].children@[m] as int, i);
        }
    }
}

/// A node in the subtree of a child of `i` is in the subtree of `i`.
proof fn lemma_desc_up(t: EvalTree, j: int, c: int, i: int)
    requires
        t.wf(),
        desc(t.nodes@, j, c),
        0 <= i < c < t.nodes@.len(),
        c <= usize::MAX,
        t.nodes@[c].parent == Some(i as usize),
    ensures
        desc(t.nodes@, j, i),
    decreases j,
{
    lemma_desc_bounds(t.nodes@, j, c);
    if j != c {
        lemma_desc_up(t, t.nodes@[j].parent->0 as int, c, i);
    } else {
        assert(desc(t.nodes@, i, i));
    }
}

proof fn lemma_children_set(t: EvalTree, i: int, k: int)
    requires
        t.wf(),
        0 <= i < t.nodes@.len(),
        0 <= k <= t.nodes@[i].children@.len(),
    ensures
        children_set(t.nodes@, i, k).finite(),
        children_set(t.nodes@, i, k).len() == children_size(t.nodes@, i, k),
        forall|j: int|
            #[trigger] children_set(t.nodes@, i, k).contains(j) ==> exists|m: int|
                k <= m < t.nodes@[i].children@.len() && desc(
                    t.nodes@,
                    j,
                    #[trigger] t.nodes@[i].children@[m] as int,
                ),
    decreases t.nodes@.len() - i, t.nodes@[i].children@.len() - k,
{
    let nodes = t.nodes@;
    if k < nodes[i].children@.len() {
        let c = nodes[i].children@[k] as int;
        assert(i < c < nodes.len() && nodes[c].parent == Some(i as usize));
        lemma_subtree_set(t, c);
        lemma_children_set(t, i, k + 1);
        let a = subtree_set(nodes, c);
        let b = children_set(nodes, i, k + 1);
        assert(a.disjoint(b)) by {
            if exists|j: int| a.contains(j) && b.contains(j) {
                let j = choose|j: int| a.contains(j) && b.contains(j);
                let m = choose|m: int|
                    k + 1 <= m < nodes[i].children@.len() && desc(nodes, j, #[trigger] nodes[i].children@[m] as int);
                let d = nodes[i].children@[m] as int;
                assert(c < d);
                assert(i < d < nodes.len() && nodes[d].parent == Some(i as usize));
                lemma_desc_chain(nodes, j, c, d);
                lemma_desc_bounds(nodes, i, c);
            }
        }
        vstd::set_lib::lemma_set_disjoint_lens(a, b);
        assert forall|j: int| #[trigger] children_set(nodes, i, k).contains(j) implies exists|m: int|
            k <= m < nodes[i].children@.len() && desc(nodes, j, #[trigger] nodes[i].children@[m] as int) by {
            if a.contains(j) {
                assert(desc(nodes, j, nodes[i].children@[k] as int));
            }
        }
    }
}

/// The subtree at the root holds no more nodes than the tree.
proof fn lemma_tree_size_bound(t: EvalTree)
    requires
        t.wf(),
        t.nodes@.len() > 0,
    ensures
        subtree_size(t.nodes@, 0) <= t.nodes@.len(),
{
    lemma_subtree_set(t, 0);
    let all = vstd::set_lib::set_int_range(0, t.nodes@.len() as int);
    vstd::set_lib::lemma_int_range(0, t.nodes@.len() as int);
    assert forall|j: int| subtree_set(t.nodes@, 0).contains(j) implies all.contains(j) by {
        lemma_desc_bounds(t.nodes@, j, 0);
    }
    vstd::set_lib::lemma_len_subset(subtree_set(t.nodes@, 0), all);
}

impl EvalNode {
    pub fn new(name: &str, res: EvalResults) -> (r: Self)
        ensures
            r.name@ == name@,
            r.res == res,
            r.children@.len() == 0,
            r.parent is None,
    {
        EvalNode { name: String::from_str(name), res, children: Vec::new(), parent: None }
    }

    /// This node's DOT lines, as the node numbered `id`, linked to the node
    /// numbered `parent_id`.
    pub fn to_dot(&self, id: usize, parent_id: Option<usize>) -> (r: String)
        ensures
            r@ == node_dot(self.name@, self.res, id as nat, opt_nat(parent_id)),
    {
        let color = match (self.res.0, self.res.1) {
            (EvalResult::Error, _) | (_, EvalResult::Error) => "red",
            (EvalResult::TP, EvalResult::TN) => "green",
            (EvalResult::TP, _) => "blue",
            (_, EvalResult::FP) => "gray",
            _ => "orange",
        };
        let num = decimal_text(id);
        let own = String::from_str("node").concat(num.as_str()).concat(" [label=\"").concat(
            self.name.as_str(),
        ).concat("\" style=filled fillcolor=").concat(color).concat("];\n");
        match parent_id {
            Some(p) => {
                let pid = decimal_text(p);
                own.concat("node").concat(pid.as_str()).concat(" -> node").concat(num.as_str()).concat(
                    ";\n",
                )
            },
            None => own,
        }
    }
}

/// The nodes of one testcase's exploration; the root, if any, stands first.
pub struct EvalTree {
    pub nodes: Vec<EvalNode>,
}

impl EvalTree {
    /// Only the root lacks a parent; every other node's parent stands before
    /// it and lists it among its children; every child lists its parent.
    pub open spec fn wf(&self) -> bool {
        &&& forall|i: int|
            0 <= i < self.nodes@.len() ==> (#[trigger] self.nodes@[i].parent is None <==> i == 0)
        &&& forall|i: int|
            0 <= i < self.nodes@.len() && #[trigger] self.nodes@[i].parent is Some ==> {
                let p = self.nodes@[i].parent->0 as int;
                &&& p < i
                &&& self.nodes@[p].children@.contains(i as usize)
            }
        &&& forall|i: int, k: int|
            0 <= i < self.nodes@.len() && 0 <= k < self.nodes@[i].children@.len() ==> {
                let c = #[trigger] self.nodes@[i].children@[k] as int;
                &&& i < c < self.nodes@.len()
                &&& self.nodes@[c].parent == Some(i as usize)
            }
        &&& forall|i: int, k1: int, k2: int|
            0 <= i < self.nodes@.len() && 0 <= k1 < k2 < self.nodes@[i].children@.len()
                ==> #[trigger] self.nodes@[i].children@[k1] < #[trigger] self.nodes@[i].children@[k2]
    }

    /// An empty tree.
    pub fn new() -> (r: Self)
        ensures
            r.nodes@.len() == 0,
            r.wf(),
    {
        EvalTree { nodes: Vec::new() }
    }

    /// The number of nodes.
    pub fn count_nodes(&self) -> (r: usize)
        ensures
            r == self.nodes@.len(),
    {
        self.nodes.len()
    }

    /// Makes `root` the only node.
    pub fn set_root(&mut self, root: EvalNode)
        ensures
            final(self).nodes@.len() == 1,
            final(self).nodes@[0].name@ == root.name@,
            final(self).nodes@[0].res == root.res,
            final(self).wf(),
    {
        let node = EvalNode { name: root.name, res: root.res, children: Vec::new(), parent: None };
        self.nodes = Vec::new();
        self.nodes.push(node);
    }

    /// The position of the first node named `name`.
    pub fn get_node(&self, name: &str) -> (r: Option<usize>)
        ensures
            first_named(self.nodes@, name@) < self.nodes@.len() ==> r == Some(
                first_named(self.nodes@, name@) as usize,
            ),
            first_named(self.nodes@, name@) >= self.nodes@.len() ==> r is None,
    {
        let key = String::from_str(name);
        let mut i: usize = 0;
        while i < self.nodes.len()
            invariant
                i <= self.nodes@.len(),
                key@ == name@,
                first_named_from(self.nodes@, name@, i as int) == first_named(self.nodes@, name@),
            decreases self.nodes@.len() - i,
        {
            if self.nodes[i].name.eq(&key) {
                return Some(i);
            }
            i = i + 1;
        }
        None
    }

    /// Attaches a new node `child_name` with outcome `child_res` under the
    /// first node named `parent_name`; fails, leaving the tree as it was,
    /// when there is none.
    pub fn add_child(&mut self, parent_name: &str, child_name: &str, child_res: EvalResults) -> (r:
        Result<(), String>)
        requires
            old(self).wf(),
        ensures
            final(self).wf(),
            r is Ok <==> first_named(old(self).nodes@, parent_name@) < old(self).nodes@.len(),
            r is Err ==> final(self).nodes@ == old(self).nodes@,
            r is Err ==> r->Err_0@ == "Parent node '"@ + parent_name@ + "' not found"@,
            r is Ok ==> {
                let p = first_named(old(self).nodes@, parent_name@);
                let n = old(self).nodes@.len();
                &&& final(self).nodes@.len() == n + 1
                &&& final(self).nodes@[n as int].name@ == child_name@
                &&& final(self).nodes@[n as int].res == child_res
                &&& final(self).nodes@[n as int].parent == Some(p as usize)
                &&& final(self).nodes@[n as int].children@.len() == 0
                &&& final(self).nodes@[p].children@ == old(self).nodes@[p].children@.push(n as usize)
                &&& final(self).nodes@[p].name@ == old(self).nodes@[p].name@
                &&& final(self).nodes@[p].res == old(self).nodes@[p].res
                &&& final(self).nodes@[p].parent == old(self).nodes@[p].parent
                &&& forall|j: int| 0 <= j < n && j != p ==> #[trigger] final(self).nodes@[j] == old(self).nodes@[j]
            },
    {
        match self.get_node(parent_name) {
            Some(p) => {
                let n = self.nodes.len();
                let ghost old_nodes = self.nodes@;
                proof {
                    lemma_first_named_from(old_nodes, parent_name@, 0);
                }
                let mut child = EvalNode::new(child_name, child_res);
                child.parent = Some(p);
                let mut parent = self.nodes.remove(p);
                parent.children.push(n);
                self.nodes.insert(p, parent);
                self.nodes.push(child);
                proof {
                    assert forall|j: int| 0 <= j < n && j != p implies #[trigger] self.nodes@[j] == old_nodes[j] by {
                        if j < p {
                        } else {
                        }
                    }
                    assert(self.wf()) by {
                        assert forall|i: int, k: int|
                            0 <= i < self.nodes@.len() && 0 <= k < self.nodes@[i].children@.len() implies {
                                let c = #[trigger] self.nodes@[i].children@[k] as int;
                                &&& i < c < self.nodes@.len()
                                &&& self.nodes@[c].parent == Some(i as usize)
                            } by {
                            if i == p && k == self.nodes@[i].children@.len() - 1 {
                            } else if i == p {
                                assert(self.nodes@[i].children@[k] == old_nodes[i].children@[k]);
                            } else {
                                assert(self.nodes@[i] == old_nodes[i]);
                            }
                        }
                        assert forall|i: int, k1: int, k2: int|
                            0 <= i < self.nodes@.len() && 0 <= k1 < k2 < self.nodes@[i].children@.len()
                                implies #[trigger] self.nodes@[i].children@[k1]
                                < #[trigger] self.nodes@[i].children@[k2] by {
                            if i == p {
                                assert(self.nodes@[i].children@[k1] == old_nodes[i].children@[k1]);
                                if k2 < old_nodes[i].children@.len() {
                                    assert(self.nodes@[i].children@[k2] == old_nodes[i].children@[k2]);
                                }
                            } else if i < n {
                                assert(self.nodes@[i] == old_nodes[i]);
                            }
                        }
                        assert forall|i: int|
                            0 <= i < self.nodes@.len() && #[trigger] self.nodes@[i].parent is Some implies {
                                let q = self.nodes@[i].parent->0 as int;
                                &&& q < i
                                &&& self.nodes@[q].children@.contains(i as usize)
                            } by {
                            if i < n {
                                let q = old_nodes[i].parent->0 as int;
                                assert(old_nodes[q].children@.contains(i as usize));
                                if q == p {
                                    let kk = choose|kk: int| 0 <= kk < old_nodes[q].children@.len() && old_nodes[q].children@[kk] == i as usize;
                                    assert(self.nodes@[q].children@[kk] == i as usize);
                                }
                            } else {
                                assert(self.nodes@[p as int].children@[self.nodes@[p as int].children@.len() - 1] == n);
                            }
                        }
                    }
                }
                Ok(())
            },
            None => {
                let msg = String::from_str("Parent node '").concat(parent_name).concat("' not found");
                Err(msg)
            },
        }
    }

    /// Appends the DOT lines of the subtree at position `i` in pre-order,
    /// numbering its nodes from `*counter` on.
    pub fn subtree_to_dot(&self, i: usize, parent_id: Option<usize>, counter: &mut usize, dot: &mut String)
        requires
            self.wf(),
            i < self.nodes@.len(),
            *old(counter) + subtree_size(self.nodes@, i as int) <= usize::MAX,
        ensures
            final(dot)@ == old(dot)@ + subtree_dot(self.nodes@, i as int, opt_nat(parent_id), *old(counter) as nat),
            *final(counter) == *old(counter) + subtree_size(self.nodes@, i as int),
        decreases self.nodes@.len() - i,
    {
        let id = *counter;
        let line = self.nodes[i].to_dot(id, parent_id);
        dot.append(line.as_str());
        *counter = id + 1;
        let ghost start = dot@;
        let n = self.nodes[i].children.len();
        let mut k: usize = 0;
        while k < n
            invariant
                self.wf(),
                i < self.nodes@.len(),
                n == self.nodes@[i as int].children@.len(),
                k <= n,
                id + subtree_size(self.nodes@, i as int) <= usize::MAX,
                *counter + children_size(self.nodes@, i as int, k as int) == id + 1 + children_size(
                    self.nodes@,
                    i as int,
                    0,
                ),
                dot@ + children_dot(self.nodes@, i as int, k as int, id as nat, *counter as nat) == start
                    + children_dot(self.nodes@, i as int, 0, id as nat, (id + 1) as nat),
            decreases n - k,
        {
            let c = self.nodes[i].children[k];
            assert(i < c < self.nodes@.len());
            let ghost before = dot@;
            self.subtree_to_dot(c, Some(id), counter, dot);
            assert(dot@ + children_dot(self.nodes@, i as int, k + 1, id as nat, *counter as nat) =~= before
                + children_dot(self.nodes@, i as int, k as int, id as nat, (*counter - subtree_size(self.nodes@, c as int)) as nat));
            k = k + 1;
        }
        assert(dot@ =~= old(dot)@ + subtree_dot(self.nodes@, i as int, opt_nat(parent_id), id as nat));
    }

    /// The tree in the DOT language: the nodes reached from the root in
    /// pre-order, numbered in that order, each line followed by the edge from
    /// its parent.
    pub fn to_dot(&self) -> (r: String)
        requires
            self.wf(),
        ensures
            self.nodes@.len() == 0 ==> r@ == "digraph EvalTree {\n"@ + "node [shape=ellipse];\n"@ + "}"@,
            self.nodes@.len() > 0 ==> r@ == tree_dot(self.nodes@),
    {
        let mut body = String::new();
        if self.nodes.len() > 0 {
            proof {
                lemma_tree_size_bound(*self);
            }
            let mut counter: usize = 0;
            self.subtree_to_dot(0, None, &mut counter, &mut body);
        }
        let r = String::from_str("digraph EvalTree {\n").concat("node [shape=ellipse];\n").concat(body.as_str()).concat(
            "}",
        );
        proof {
            if self.nodes@.len() == 0 {
                assert(body@ =~= Seq::<char>::empty());
                assert(r@ =~= "digraph EvalTree {\n"@ + "node [shape=ellipse];\n"@ + "}"@);
            }
        }
        r
    }
}

} // verus!
