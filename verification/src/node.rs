//! The nodes of a progress tree, and how a node is found in a tree.

use vstd::prelude::*;
use crate::generation::Generation;
use crate::id::ProgressId;
use crate::priority::PriorityLevel;
use crate::task::Task;

verus! {

/// A node of a progress tree, together with the subtree below it.
///
/// A node owns its children. There are no references from a child back to its
/// parent, so a tree cannot hold a cycle.
#[derive(Debug)]
pub struct Node {
    /// The node's unique identifier.
    pub id: ProgressId,
    /// The task that the node tracks.
    pub task: Task,
    /// The node's own minimum priority level for messages, if it has one.
    pub min_priority_level: Option<PriorityLevel>,
    /// The generation at which the node itself was last changed.
    pub last_change: Generation,
    /// The node's children, in the order in which they were added.
    pub children: Vec<Node>,
}

/// The mathematical model of a [`Node`]: the same tree, with a sequence of
/// children.
pub struct NodeView {
    /// The node's unique identifier.
    pub id: ProgressId,
    /// The task that the node tracks.
    pub task: Task,
    /// The node's own minimum priority level for messages, if it has one.
    pub min_priority_level: Option<PriorityLevel>,
    /// The generation at which the node itself was last changed.
    pub last_change: Generation,
    /// The models of the node's children.
    pub children: Seq<NodeView>,
}

impl View for Node {
    type V = NodeView;

    open spec fn view(&self) -> NodeView {
        self.model()
    }
}

/// A path as a sequence of integers.
pub open spec fn steps(path: Seq<usize>) -> Seq<int> {
    path.map_values(|step: usize| step as int)
}

impl NodeView {
    /// Tells whether `path` leads to a node of this tree.
    ///
    /// A path names a node by the child indices on the way to it, the last
    /// step first: the empty path names the root, and `path.push(i)` names in
    /// this tree what `path` names in its `i`-th child.
    pub open spec fn valid_path(self, path: Seq<int>) -> bool
        decreases path.len(),
    {
        path.len() == 0 || {
            &&& 0 <= path.last() < self.children.len()
            &&& self.children[path.last()].valid_path(path.drop_last())
        }
    }

    /// The node that `path` leads to.
    pub open spec fn at(self, path: Seq<int>) -> NodeView
        recommends
            self.valid_path(path),
        decreases path.len(),
    {
        if path.len() == 0 {
            self
        } else {
            self.children[path.last()].at(path.drop_last())
        }
    }

    /// This tree with the subtree that `path` leads to replaced by `node`.
    pub open spec fn replaced(self, path: Seq<int>, node: NodeView) -> NodeView
        recommends
            self.valid_path(path),
        decreases path.len(),
    {
        if path.len() == 0 {
            node
        } else {
            NodeView {
                children: self.children.update(
                    path.last(),
                    self.children[path.last()].replaced(path.drop_last(), node),
                ),
                ..self
            }
        }
    }

    /// The path to the first node with identifier `id`, in the order of a
    /// depth-first descent that visits a node before its children.
    pub open spec fn path_to(self, id: ProgressId) -> Option<Seq<int>>
        decreases self,
    {
        if self.id == id {
            Some(Seq::empty())
        } else {
            Self::path_among(self.children, self.children.len(), id)
        }
    }

    /// The path, from the parent of `nodes`, to the first node with
    /// identifier `id` in the first `n` trees of `nodes`.
    pub open spec fn path_among(nodes: Seq<NodeView>, n: nat, id: ProgressId) -> Option<Seq<int>>
        decreases nodes, n,
    {
        if n == 0 || n > nodes.len() {
            None
        } else {
            match Self::path_among(nodes, (n - 1) as nat, id) {
                Some(path) => Some(path),
                None => match nodes[n - 1].path_to(id) {
                    Some(path) => Some(path.push(n - 1)),
                    None => None,
                },
            }
        }
    }

    /// Tells whether the tree holds a node with identifier `id`.
    pub open spec fn contains(self, id: ProgressId) -> bool {
        self.path_to(id) is Some
    }

    /// The first node with identifier `id`, if there is one.
    pub open spec fn find(self, id: ProgressId) -> Option<NodeView> {
        match self.path_to(id) {
            Some(path) => Some(self.at(path)),
            None => None,
        }
    }

    /// The identifier of the parent of the first node with identifier `id`,
    /// if that node exists and is not the root.
    pub open spec fn parent_of(self, id: ProgressId) -> Option<ProgressId> {
        match self.path_to(id) {
            Some(path) => if path.len() == 0 {
                None
            } else {
                Some(self.at(path.drop_first()).id)
            },
            None => None,
        }
    }

    /// This tree with the first node with identifier `id`, and the subtree
    /// below it, replaced by `node`. Without such a node the tree is as it was.
    pub open spec fn edited(self, id: ProgressId, node: NodeView) -> NodeView {
        match self.path_to(id) {
            Some(path) => self.replaced(path, node),
            None => self,
        }
    }

    /// The identifiers of the node's children, in order.
    pub open spec fn child_ids(self) -> Seq<ProgressId> {
        Seq::new(self.children.len(), |i: int| self.children[i].id)
    }

    /// The index of the first child with identifier `id` among the first `n`
    /// children, if there is one.
    pub open spec fn child_index(self, n: nat, id: ProgressId) -> Option<int>
        decreases n,
    {
        if n == 0 || n > self.children.len() {
            None
        } else {
            match self.child_index((n - 1) as nat, id) {
                Some(index) => Some(index),
                None => if self.children[n - 1].id == id {
                    Some(n - 1)
                } else {
                    None
                },
            }
        }
    }

    /// Once a child was found among the first `n` children, looking at more
    /// children finds the same child.
    pub proof fn lemma_child_index_stable(self, n: nat, m: nat, id: ProgressId)
        requires
            n <= m <= self.children.len(),
            self.child_index(n, id) is Some,
        ensures
            self.child_index(m, id) == self.child_index(n, id),
        decreases m - n,
    {
        if n < m {
            self.lemma_child_index_stable(n, (m - 1) as nat, id);
        }
    }

    /// A path that leads to a node stays valid when that node is replaced,
    /// and then leads to the replacement.
    pub proof fn lemma_replaced(self, path: Seq<int>, node: NodeView)
        requires
            self.valid_path(path),
        ensures
            self.replaced(path, node).valid_path(path),
            self.replaced(path, node).at(path) == node,
            self.replaced(path, node).id == if path.len() == 0 {
                node.id
            } else {
                self.id
            },
        decreases path.len(),
    {
        if path.len() > 0 {
            self.children[path.last()].lemma_replaced(path.drop_last(), node);
        }
    }

    /// Tells whether the path `below` leads through the node that the path
    /// `above` leads to: whether `above` is where `below` ends up after its
    /// last steps were taken.
    pub open spec fn leads_through(below: Seq<int>, above: Seq<int>) -> bool {
        above.len() <= below.len() && below.skip(below.len() - above.len()) == above
    }

    /// A replacement leaves every node as it was that is neither in the
    /// replaced subtree nor on the way from the root to it.
    pub proof fn lemma_replaced_elsewhere(self, path: Seq<int>, node: NodeView, other: Seq<int>)
        requires
            self.valid_path(path),
            self.valid_path(other),
            !Self::leads_through(other, path),
            !Self::leads_through(path, other),
        ensures
            self.replaced(path, node).valid_path(other),
            self.replaced(path, node).at(other) == self.at(other),
        decreases path.len(),
    {
        if path.len() == 0 {
            assert(other.skip(other.len() as int) =~= path);
        } else if other.len() == 0 {
            assert(path.skip(path.len() as int) =~= other);
        } else if path.last() == other.last() {
            let rest = path.drop_last();
            let other_rest = other.drop_last();
            if Self::leads_through(other_rest, rest) {
                assert(other.skip(other.len() - path.len()) =~= other_rest.skip(
                    other_rest.len() - rest.len(),
                ).push(other.last()));
                assert(path =~= rest.push(path.last()));
            }
            if Self::leads_through(rest, other_rest) {
                assert(path.skip(path.len() - other.len()) =~= rest.skip(
                    rest.len() - other_rest.len(),
                ).push(path.last()));
                assert(other =~= other_rest.push(other.last()));
            }
            self.children[path.last()].lemma_replaced_elsewhere(rest, node, other_rest);
        }
    }

    /// A replacement leaves the nodes on the way from the root to the
    /// replaced subtree as they were, but for what is below them: they keep
    /// their identifier, task, priority override and stamp, and the number
    /// of their children.
    pub proof fn lemma_replaced_above(self, path: Seq<int>, node: NodeView, k: int)
        requires
            self.valid_path(path),
            0 < k <= path.len(),
        ensures
            self.valid_path(path.skip(k)),
            self.replaced(path, node).valid_path(path.skip(k)),
            self.replaced(path, node).at(path.skip(k)).id == self.at(path.skip(k)).id,
            self.replaced(path, node).at(path.skip(k)).task == self.at(path.skip(k)).task,
            self.replaced(path, node).at(path.skip(k)).min_priority_level == self.at(
                path.skip(k),
            ).min_priority_level,
            self.replaced(path, node).at(path.skip(k)).last_change == self.at(
                path.skip(k),
            ).last_change,
            self.replaced(path, node).at(path.skip(k)).children.len() == self.at(
                path.skip(k),
            ).children.len(),
        decreases path.len(),
    {
        if k == path.len() {
            assert(path.skip(k) =~= Seq::empty());
        } else {
            let rest = path.drop_last();
            self.children[path.last()].lemma_replaced_above(rest, node, k);
            assert(path.skip(k).drop_last() =~= rest.skip(k));
            assert(path.skip(k).last() == path.last());
        }
    }

    /// Replacing a node twice is replacing it by the second replacement.
    pub proof fn lemma_replaced_twice(self, path: Seq<int>, first: NodeView, second: NodeView)
        requires
            self.valid_path(path),
        ensures
            self.replaced(path, first).replaced(path, second) == self.replaced(path, second),
        decreases path.len(),
    {
        if path.len() > 0 {
            let i = path.last();
            self.children[i].lemma_replaced_twice(path.drop_last(), first, second);
            assert(self.replaced(path, first).children.update(
                i,
                self.replaced(path, first).children[i].replaced(path.drop_last(), second),
            ) =~= self.children.update(i, self.children[i].replaced(path.drop_last(), second)));
        }
    }

    /// Replacing a node by itself changes nothing.
    pub proof fn lemma_replaced_same(self, path: Seq<int>)
        requires
            self.valid_path(path),
        ensures
            self.replaced(path, self.at(path)) == self,
        decreases path.len(),
    {
        if path.len() > 0 {
            let i = path.last();
            self.children[i].lemma_replaced_same(path.drop_last());
            assert(self.children.update(i, self.children[i]) =~= self.children);
        }
    }

    /// A path to a node below the root goes through the node's parent: the
    /// path without its first entry leads to the parent, and the first entry
    /// is the node's place among the parent's children.
    pub proof fn lemma_parent_path(self, path: Seq<int>)
        requires
            self.valid_path(path),
            path.len() > 0,
        ensures
            self.valid_path(path.drop_first()),
            0 <= path[0] < self.at(path.drop_first()).children.len(),
            self.at(path) == self.at(path.drop_first()).children[path[0]],
        decreases path.len(),
    {
        let child = self.children[path.last()];
        let rest = path.drop_last();
        if path.len() == 1 {
            assert(path.drop_first() =~= Seq::empty());
            assert(rest =~= Seq::empty());
            assert(child.at(rest) == child);
            assert(self.at(path.drop_first()) == self);
        } else {
            child.lemma_parent_path(rest);
            assert(path.drop_first().drop_last() =~= rest.drop_first());
            assert(path.drop_first().last() == path.last());
            assert(rest[0] == path[0]);
            assert(self.at(path.drop_first()) == child.at(rest.drop_first()));
        }
    }

    /// The path to a node with a given identifier is valid and leads to a
    /// node with that identifier.
    pub proof fn lemma_path_to(self, id: ProgressId)
        ensures
            match self.path_to(id) {
                Some(path) => self.valid_path(path) && self.at(path).id == id,
                None => true,
            },
        decreases self,
    {
        if self.id != id {
            Self::lemma_path_among(self.children, self.children.len(), id);
            match self.path_to(id) {
                Some(path) => {
                    let i = path.last();
                    assert(path.drop_last() == self.children[i].path_to(id)->0);
                },
                None => {},
            }
        }
    }

    /// What the path found among the first `n` trees of `nodes` looks like: it
    /// enters the first of them that holds the identifier.
    pub proof fn lemma_path_among(nodes: Seq<NodeView>, n: nat, id: ProgressId)
        requires
            n <= nodes.len(),
        ensures
            match Self::path_among(nodes, n, id) {
                Some(path) => {
                    &&& path.len() > 0
                    &&& 0 <= path.last() < n
                    &&& nodes[path.last()].path_to(id) == Some(path.drop_last())
                    &&& nodes[path.last()].valid_path(path.drop_last())
                    &&& nodes[path.last()].at(path.drop_last()).id == id
                    &&& forall|j: int| 0 <= j < path.last() ==> !(#[trigger] nodes[j]).contains(id)
                },
                None => forall|j: int| 0 <= j < n ==> !(#[trigger] nodes[j]).contains(id),
            },
        decreases nodes, n,
    {
        if n > 0 {
            Self::lemma_path_among(nodes, (n - 1) as nat, id);
            match Self::path_among(nodes, (n - 1) as nat, id) {
                Some(path) => {},
                None => {
                    nodes[n - 1].lemma_path_to(id);
                    match nodes[n - 1].path_to(id) {
                        Some(path) => {
                            assert(path.push(n - 1).drop_last() =~= path);
                        },
                        None => {},
                    }
                },
            }
        }
    }

    /// Once a node was found among the first `n` trees, looking at more trees
    /// finds the same node.
    pub proof fn lemma_path_among_stable(nodes: Seq<NodeView>, n: nat, m: nat, id: ProgressId)
        requires
            n <= m <= nodes.len(),
            Self::path_among(nodes, n, id) is Some,
        ensures
            Self::path_among(nodes, m, id) == Self::path_among(nodes, n, id),
        decreases m - n,
    {
        if n < m {
            Self::lemma_path_among_stable(nodes, n, (m - 1) as nat, id);
        }
    }
}

impl Node {
    /// The model of the node: the node and its subtree as a mathematical tree.
    pub open spec fn model(self) -> NodeView
        decreases self,
    {
        NodeView {
            id: self.id,
            task: self.task,
            min_priority_level: self.min_priority_level,
            last_change: self.last_change,
            children: Seq::new(
                self.children.len() as nat,
                |i: int|
                    if 0 <= i < self.children.len() {
                        self.children[i].model()
                    } else {
                        arbitrary()
                    },
            ),
        }
    }

    /// Creates a node without children for `task`, not yet changed.
    pub fn leaf(id: ProgressId, task: Task) -> (node: Node)
        ensures
            node@ == (NodeView {
                id,
                task,
                min_priority_level: None,
                last_change: Generation(0),
                children: Seq::empty(),
            }),
    {
        let node = Node {
            id,
            task,
            min_priority_level: None,
            last_change: Generation(0),
            children: Vec::new(),
        };
        assert(node@.children =~= Seq::empty());
        node
    }

    /// Searches the subtree, the node itself first and then its children's
    /// subtrees in order, for the first node with identifier `id`, and
    /// returns the path to it.
    pub fn path_to(&self, id: ProgressId) -> (found: Option<Vec<usize>>)
        ensures
            match found {
                Some(path) => self@.path_to(id) == Some(steps(path@)),
                None => self@.path_to(id) is None,
            },
        decreases self,
    {
        if self.id == id {
            let path: Vec<usize> = Vec::new();
            assert(steps(path@) =~= Seq::empty());
            return Some(path);
        }
        let mut i: usize = 0;
        while i < self.children.len()
            invariant
                0 <= i <= self.children.len(),
                self.id != id,
                NodeView::path_among(self@.children, i as nat, id) is None,
            decreases self.children.len() - i,
        {
            match self.children[i].path_to(id) {
                Some(mut path) => {
                    proof {
                        assert(self@.children[i as int] == self.children[i as int]@);
                        NodeView::lemma_path_among_stable(
                            self@.children,
                            (i + 1) as nat,
                            self@.children.len(),
                            id,
                        );
                        assert(steps(path@.push(i)) =~= steps(path@).push(i as int));
                    }
                    path.push(i);
                    return Some(path);
                },
                None => {
                    assert(self@.children[i as int] == self.children[i as int]@);
                },
            }
            i += 1;
        }
        None
    }

    /// Returns the node that the first `len` steps of `path` lead to.
    pub fn node_at(&self, path: &Vec<usize>, len: usize) -> (node: &Node)
        requires
            len <= path.len(),
            self@.valid_path(steps(path@.take(len as int))),
        ensures
            node@ == self@.at(steps(path@.take(len as int))),
        decreases len,
    {
        if len == 0 {
            self
        } else {
            let i = path[len - 1];
            proof {
                let here = steps(path@.take(len as int));
                assert(here.last() == i);
                assert(here.drop_last() =~= steps(path@.take(len - 1)));
                assert(self@.children[i as int] == self.children[i as int]@);
            }
            self.children[i].node_at(path, len - 1)
        }
    }

    /// Exchanges `node` with the subtree that the first `len` steps of `path`
    /// lead to.
    pub fn swap_at(&mut self, path: &Vec<usize>, len: usize, node: &mut Node)
        requires
            len <= path.len(),
            old(self)@.valid_path(steps(path@.take(len as int))),
        ensures
            final(self)@ == old(self)@.replaced(steps(path@.take(len as int)), old(node)@),
            final(node)@ == old(self)@.at(steps(path@.take(len as int))),
        decreases len,
    {
        if len == 0 {
            core::mem::swap(self, node);
        } else {
            let i = path[len - 1];
            proof {
                let here = steps(path@.take(len as int));
                assert(here.last() == i);
                assert(here.drop_last() =~= steps(path@.take(len - 1)));
                assert(self@.children[i as int] == self.children[i as int]@);
            }
            self.children[i].swap_at(path, len - 1, node);
            proof {
                assert(self@.children =~= old(self)@.children.update(
                    i as int,
                    self.children[i as int]@,
                ));
            }
        }
    }

    /// Returns the first node with identifier `id` in the subtree, the node
    /// itself included.
    pub fn get(&self, id: ProgressId) -> (found: Option<&Node>)
        ensures
            match found {
                Some(node) => self@.find(id) == Some(node@) && node.id == id,
                None => self@.find(id) is None,
            },
    {
        match self.path_to(id) {
            Some(path) => {
                proof {
                    self@.lemma_path_to(id);
                    assert(path@.take(path@.len() as int) =~= path@);
                }
                Some(self.node_at(&path, path.len()))
            },
            None => None,
        }
    }

    /// Returns the identifiers of the node's children, in order.
    pub fn child_ids(&self) -> (ids: Vec<ProgressId>)
        ensures
            ids@ == self@.child_ids(),
    {
        let mut ids: Vec<ProgressId> = Vec::new();
        let mut i: usize = 0;
        while i < self.children.len()
            invariant
                0 <= i <= self.children.len(),
                ids.len() == i,
                forall|j: int| 0 <= j < i ==> ids[j] == self.children[j].id,
            decreases self.children.len() - i,
        {
            ids.push(self.children[i].id);
            i += 1;
        }
        assert forall|j: int| 0 <= j < ids.len() implies ids[j] == self@.children[j].id by {
            assert(self@.children[j] == self.children[j]@);
        }
        assert(ids@ =~= self@.child_ids());
        ids
    }

    /// Returns the first child with identifier `id`, or `None` if the node
    /// has no such child.
    pub fn child(&self, id: ProgressId) -> (child: Option<&Node>)
        ensures
            match self@.child_index(self@.children.len(), id) {
                Some(index) => child is Some && child->0@ == self@.children[index] && child->0.id
                    == id,
                None => child is None,
            },
    {
        let mut i: usize = 0;
        while i < self.children.len()
            invariant
                0 <= i <= self.children.len(),
                self@.child_index(i as nat, id) is None,
            decreases self.children.len() - i,
        {
            assert(self@.children[i as int] == self.children[i as int]@);
            if self.children[i].id == id {
                proof {
                    self@.lemma_child_index_stable((i + 1) as nat, self@.children.len(), id);
                }
                return Some(&self.children[i]);
            }
            i += 1;
        }
        None
    }
}

} // verus!
