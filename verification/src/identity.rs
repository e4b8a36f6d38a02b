//! The identifiers in a progress tree: which ones a tree holds, and what
//! keeps them from occurring twice.

use vstd::prelude::*;
use crate::control::ControlOp;
use crate::generation::Generation;
use crate::id::ProgressId;
use crate::node::NodeView;

verus! {

impl NodeView {
    /// The identifiers of all nodes of the tree.
    pub open spec fn ids(self) -> Set<ProgressId>
        decreases self,
    {
        Self::ids_among(self.children, self.children.len()).insert(self.id)
    }

    /// The identifiers of all nodes of the first `n` trees of `nodes`.
    pub open spec fn ids_among(nodes: Seq<NodeView>, n: nat) -> Set<ProgressId>
        decreases nodes, n,
    {
        if n == 0 || n > nodes.len() {
            Set::empty()
        } else {
            Self::ids_among(nodes, (n - 1) as nat).union(nodes[n - 1].ids())
        }
    }

    /// Tells whether the tree is well formed: no identifier occurs twice in
    /// it. That is, below every node the node's own identifier does not
    /// occur again, and the subtrees of two children share no identifier.
    pub open spec fn distinct_ids(self) -> bool
        decreases self,
    {
        &&& !Self::ids_among(self.children, self.children.len()).contains(self.id)
        &&& forall|i: int, j: int|
            #![trigger self.children[i], self.children[j]]
            0 <= i < j < self.children.len() ==> self.children[i].ids().disjoint(
                self.children[j].ids(),
            )
        &&& forall|i: int|
            0 <= i < self.children.len() ==> (#[trigger] self.children[i]).distinct_ids()
    }

    /// An identifier is among those of the first `n` trees exactly if one of
    /// these trees holds it.
    pub proof fn lemma_ids_among_has(nodes: Seq<NodeView>, n: nat, x: ProgressId)
        requires
            n <= nodes.len(),
        ensures
            Self::ids_among(nodes, n).contains(x) <==> exists|j: int|
                0 <= j < n && (#[trigger] nodes[j]).ids().contains(x),
        decreases n,
    {
        if n > 0 {
            Self::lemma_ids_among_has(nodes, (n - 1) as nat, x);
            if Self::ids_among(nodes, n).contains(x) {
                if nodes[n - 1].ids().contains(x) {
                } else {
                    let j = choose|j: int|
                        0 <= j < n - 1 && (#[trigger] nodes[j]).ids().contains(x);
                    assert(nodes[j].ids().contains(x));
                }
            }
        }
    }

    /// The identifiers below a node of the tree are identifiers of the tree.
    pub proof fn lemma_ids_at(self, path: Seq<int>, x: ProgressId)
        requires
            self.valid_path(path),
            self.at(path).ids().contains(x),
        ensures
            self.ids().contains(x),
        decreases path.len(),
    {
        if path.len() > 0 {
            self.children[path.last()].lemma_ids_at(path.drop_last(), x);
            Self::lemma_ids_among_has(self.children, self.children.len(), x);
        }
    }

    /// A node with a given identifier is found in the tree exactly if the
    /// identifier is one of the tree's.
    pub proof fn lemma_contains_ids(self, id: ProgressId)
        ensures
            self.contains(id) <==> self.ids().contains(id),
        decreases self,
    {
        if self.contains(id) {
            let path = self.path_to(id)->0;
            self.lemma_path_to(id);
            self.lemma_ids_at(path, id);
        }
        if self.ids().contains(id) && self.id != id {
            Self::lemma_ids_among_has(self.children, self.children.len(), id);
            let j = choose|j: int|
                0 <= j < self.children.len() && (#[trigger] self.children[j]).ids().contains(id);
            self.children[j].lemma_contains_ids(id);
            Self::lemma_path_among(self.children, self.children.len(), id);
        }
    }

    /// In a well-formed tree, two paths to nodes with the same identifier
    /// are the same path.
    pub proof fn lemma_distinct_paths(self, p: Seq<int>, q: Seq<int>)
        requires
            self.distinct_ids(),
            self.valid_path(p),
            self.valid_path(q),
            self.at(p).id == self.at(q).id,
        ensures
            p == q,
        decreases p.len(),
    {
        let x = self.at(p).id;
        if p.len() == 0 && q.len() == 0 {
            assert(p =~= q);
        } else if p.len() == 0 {
            self.children[q.last()].lemma_ids_at(q.drop_last(), x);
            Self::lemma_ids_among_has(self.children, self.children.len(), x);
        } else if q.len() == 0 {
            self.children[p.last()].lemma_ids_at(p.drop_last(), x);
            Self::lemma_ids_among_has(self.children, self.children.len(), x);
        } else {
            let i = p.last();
            let j = q.last();
            self.children[i].lemma_ids_at(p.drop_last(), x);
            self.children[j].lemma_ids_at(q.drop_last(), x);
            if i < j {
                assert(self.children[i].ids().disjoint(self.children[j].ids()));
            } else if j < i {
                assert(self.children[j].ids().disjoint(self.children[i].ids()));
            } else {
                self.children[i].lemma_distinct_paths(p.drop_last(), q.drop_last());
                assert(p =~= p.drop_last().push(i));
                assert(q =~= q.drop_last().push(j));
            }
        }
    }

    /// A well-formed tree holds no identifier twice.
    pub proof fn lemma_distinct_unique(self)
        requires
            self.distinct_ids(),
        ensures
            self.unique_ids(),
    {
        assert forall|p: Seq<int>, q: Seq<int>|
            self.valid_path(p) && self.valid_path(q) && self.at(p).id == self.at(q).id implies p
            == q by {
            self.lemma_distinct_paths(p, q);
        }
    }

    /// Every subtree of a well-formed tree is well formed.
    pub proof fn lemma_distinct_at(self, path: Seq<int>)
        requires
            self.distinct_ids(),
            self.valid_path(path),
        ensures
            self.at(path).distinct_ids(),
            self.at(path).ids().subset_of(self.ids()),
        decreases path.len(),
    {
        if path.len() > 0 {
            self.children[path.last()].lemma_distinct_at(path.drop_last());
        }
        assert forall|x: ProgressId| self.at(path).ids().contains(x) implies self.ids().contains(
            x,
        ) by {
            self.lemma_ids_at(path, x);
        }
    }

    /// The identifiers of the first `n` trees depend on the identifiers of
    /// these trees only.
    pub proof fn lemma_ids_among_same(a: Seq<NodeView>, b: Seq<NodeView>, n: nat)
        requires
            n <= a.len(),
            n <= b.len(),
            forall|j: int| 0 <= j < n ==> (#[trigger] a[j]).ids() == b[j].ids(),
        ensures
            Self::ids_among(a, n) == Self::ids_among(b, n),
        decreases n,
    {
        if n > 0 {
            Self::lemma_ids_among_same(a, b, (n - 1) as nat);
            assert(a[n - 1].ids() == b[n - 1].ids());
        }
    }

    /// A node with other contents but the same identifier and children holds
    /// the same identifiers, and is as well formed as it was.
    pub proof fn lemma_same_children(self, other: NodeView)
        requires
            other.id == self.id,
            other.children == self.children,
        ensures
            other.ids() == self.ids(),
            other.distinct_ids() == self.distinct_ids(),
    {
    }

    /// A well-formed node that gets one more child, a well-formed tree that
    /// shares no identifier with it, is well formed and holds the identifiers
    /// of both.
    pub proof fn lemma_child_added(self, child: NodeView)
        requires
            self.distinct_ids(),
            child.distinct_ids(),
            self.ids().disjoint(child.ids()),
        ensures
            (NodeView { children: self.children.push(child), ..self }).distinct_ids(),
            (NodeView { children: self.children.push(child), ..self }).ids() == self.ids().union(
                child.ids(),
            ),
    {
        let after = NodeView { children: self.children.push(child), ..self };
        let n = self.children.len();
        Self::lemma_ids_among_same(after.children, self.children, n);
        assert(after.children[n as int] == child);
        assert(Self::ids_among(after.children, n + 1) == Self::ids_among(self.children, n).union(
            child.ids(),
        ));
        assert(after.ids() =~= self.ids().union(child.ids()));
        assert forall|i: int, j: int| 0 <= i < j < after.children.len() implies (
        #[trigger] after.children[i]).ids().disjoint((#[trigger] after.children[j]).ids()) by {
            if j < n {
                assert(self.children[i].ids().disjoint(self.children[j].ids()));
            } else {
                assert forall|x: ProgressId|
                    after.children[i].ids().contains(x) implies !child.ids().contains(x) by {
                    Self::lemma_ids_among_has(self.children, n, x);
                    assert(self.children[i].ids().contains(x));
                    assert(self.ids().contains(x));
                }
            }
        }
        assert forall|i: int| 0 <= i < after.children.len() implies (
        #[trigger] after.children[i]).distinct_ids() by {
            if i < n {
                assert(self.children[i].distinct_ids());
            }
        }
        assert(!Self::ids_among(after.children, after.children.len()).contains(after.id)) by {
            assert(self.ids().contains(self.id));
        }
    }

    /// A well-formed node that loses a child is well formed, and so is the
    /// child. The node keeps all identifiers but those of the child.
    pub proof fn lemma_child_removed(self, index: int)
        requires
            self.distinct_ids(),
            0 <= index < self.children.len(),
        ensures
            (NodeView { children: self.children.remove(index), ..self }).distinct_ids(),
            (NodeView { children: self.children.remove(index), ..self }).ids()
                == self.ids().difference(self.children[index].ids()),
            self.children[index].distinct_ids(),
            self.children[index].ids().subset_of(self.ids()),
    {
        let after = NodeView { children: self.children.remove(index), ..self };
        let gone = self.children[index];
        let n = self.children.len();
        assert forall|x: ProgressId|
            Self::ids_among(after.children, after.children.len()).contains(x) <==> (Self::ids_among(
                self.children,
                n,
            ).contains(x) && !gone.ids().contains(x)) by {
            Self::lemma_ids_among_has(after.children, after.children.len(), x);
            Self::lemma_ids_among_has(self.children, n, x);
            if Self::ids_among(after.children, after.children.len()).contains(x) {
                let j = choose|j: int|
                    0 <= j < after.children.len() && (#[trigger] after.children[j]).ids().contains(
                        x,
                    );
                let k = if j < index {
                    j
                } else {
                    j + 1
                };
                assert(after.children[j] == self.children[k]);
                assert(self.children[k].ids().contains(x));
                if k < index {
                    assert(self.children[k].ids().disjoint(self.children[index].ids()));
                } else {
                    assert(self.children[index].ids().disjoint(self.children[k].ids()));
                }
            }
            if Self::ids_among(self.children, n).contains(x) && !gone.ids().contains(x) {
                let k = choose|k: int|
                    0 <= k < n && (#[trigger] self.children[k]).ids().contains(x);
                let j = if k < index {
                    k
                } else {
                    k - 1
                };
                assert(after.children[j] == self.children[k]);
                assert(after.children[j].ids().contains(x));
            }
        }
        assert forall|x: ProgressId| gone.ids().contains(x) implies self.ids().contains(x) by {
            Self::lemma_ids_among_has(self.children, n, x);
        }
        assert(!gone.ids().contains(self.id)) by {
            Self::lemma_ids_among_has(self.children, n, self.id);
            assert(self.children[index] == gone);
        }
        assert(after.ids() =~= self.ids().difference(gone.ids()));
        assert forall|i: int, j: int| 0 <= i < j < after.children.len() implies (
        #[trigger] after.children[i]).ids().disjoint((#[trigger] after.children[j]).ids()) by {
            let a = if i < index {
                i
            } else {
                i + 1
            };
            let b = if j < index {
                j
            } else {
                j + 1
            };
            assert(self.children[a].ids().disjoint(self.children[b].ids()));
        }
        assert forall|i: int| 0 <= i < after.children.len() implies (
        #[trigger] after.children[i]).distinct_ids() by {
            let a = if i < index {
                i
            } else {
                i + 1
            };
            assert(self.children[a].distinct_ids());
        }
    }

    /// Replacing a subtree of a well-formed tree by a well-formed tree whose
    /// identifiers, but for those of the subtree, are new to the tree leaves
    /// the tree well formed. It then holds the new subtree's identifiers in
    /// place of the old subtree's.
    pub proof fn lemma_replaced_distinct(self, path: Seq<int>, node: NodeView)
        requires
            self.distinct_ids(),
            self.valid_path(path),
            node.distinct_ids(),
            forall|x: ProgressId|
                node.ids().contains(x) && !self.at(path).ids().contains(x)
                    ==> !self.ids().contains(x),
        ensures
            self.replaced(path, node).distinct_ids(),
            self.replaced(path, node).ids() == self.ids().difference(self.at(path).ids()).union(
                node.ids(),
            ),
        decreases path.len(),
    {
        let after = self.replaced(path, node);
        let old_ids = self.at(path).ids();
        if path.len() == 0 {
            assert(after.ids() =~= self.ids().difference(old_ids).union(node.ids()));
        } else {
            let i = path.last();
            let n = self.children.len();
            let child = self.children[i];
            let rest = path.drop_last();
            let new_child = child.replaced(rest, node);
            assert forall|x: ProgressId| child.ids().contains(x) implies self.ids().contains(x) by {
                Self::lemma_ids_among_has(self.children, n, x);
            }
            assert forall|x: ProgressId| old_ids.contains(x) implies child.ids().contains(x) by {
                child.lemma_ids_at(rest, x);
            }
            child.lemma_replaced_distinct(rest, node);
            assert(after.children == self.children.update(i, new_child));
            assert(after.children.len() == n);
            assert(after.children[i] == new_child);
            assert(self.ids().contains(self.id));
            assert(!child.ids().contains(self.id)) by {
                Self::lemma_ids_among_has(self.children, n, self.id);
                assert(self.children[i] == child);
            }
            assert forall|j: int, x: ProgressId|
                0 <= j < n && j != i && #[trigger] self.children[j].ids().contains(x) implies {
                    &&& self.ids().contains(x)
                    &&& !child.ids().contains(x)
                    &&& !new_child.ids().contains(x)
                } by {
                Self::lemma_ids_among_has(self.children, n, x);
                if j < i {
                    assert(self.children[j].ids().disjoint(self.children[i].ids()));
                } else {
                    assert(self.children[i].ids().disjoint(self.children[j].ids()));
                }
            }
            assert(!old_ids.contains(self.id));
            assert(!node.ids().contains(self.id));
            assert forall|x: ProgressId|
                after.ids().contains(x) <==> self.ids().difference(old_ids).union(
                    node.ids(),
                ).contains(x) by {
                assert(after.id == self.id);
                assert(after.ids() == Self::ids_among(after.children, n).insert(self.id));
                assert(self.ids() == Self::ids_among(self.children, n).insert(self.id));
                let rhs = self.ids().difference(old_ids).union(node.ids());
                assert(rhs.contains(x) <==> (self.ids().contains(x) && !old_ids.contains(x))
                    || node.ids().contains(x));
                assert(Self::ids_among(after.children, n).contains(x) <==> (Self::ids_among(
                    self.children,
                    n,
                ).contains(x) && !old_ids.contains(x)) || node.ids().contains(x)) by {
                        Self::lemma_ids_among_has(after.children, n, x);
                        Self::lemma_ids_among_has(self.children, n, x);
                        if Self::ids_among(after.children, n).contains(x) {
                            let j = choose|j: int|
                                0 <= j < n && (#[trigger] after.children[j]).ids().contains(x);
                            if j != i {
                                assert(after.children[j] == self.children[j]);
                                assert(self.children[j].ids().contains(x));
                            }
                        }
                        if Self::ids_among(self.children, n).contains(x) && !old_ids.contains(x) {
                            let j = choose|j: int|
                                0 <= j < n && (#[trigger] self.children[j]).ids().contains(x);
                            if j != i {
                                assert(after.children[j] == self.children[j]);
                                assert(after.children[j].ids().contains(x));
                            } else {
                                assert(after.children[i].ids().contains(x));
                            }
                        }
                        if node.ids().contains(x) {
                            assert(after.children[i].ids().contains(x));
                        }
                }
                if x == self.id {
                    assert(after.ids().contains(x));
                    assert(self.ids().difference(old_ids).contains(x));
                } else {
                    assert(after.ids().contains(x) <==> Self::ids_among(
                        after.children,
                        n,
                    ).contains(x));
                    assert(self.ids().contains(x) <==> Self::ids_among(self.children, n).contains(
                        x,
                    ));
                }
            }
            assert(after.ids() =~= self.ids().difference(old_ids).union(node.ids()));
            assert(!Self::ids_among(after.children, after.children.len()).contains(after.id)) by {
                Self::lemma_ids_among_has(after.children, n, self.id);
                Self::lemma_ids_among_has(self.children, n, self.id);
                if Self::ids_among(after.children, n).contains(self.id) {
                    let j = choose|j: int|
                        0 <= j < n && (#[trigger] after.children[j]).ids().contains(self.id);
                    if j != i {
                        assert(after.children[j] == self.children[j]);
                        assert(self.children[j].ids().contains(self.id));
                    }
                }
            }
            assert forall|a: int, b: int| 0 <= a < b < after.children.len() implies (
            #[trigger] after.children[a]).ids().disjoint((#[trigger] after.children[b]).ids()) by {
                assert(self.children[a].ids().disjoint(self.children[b].ids()));
                if a == i {
                    assert forall|x: ProgressId|
                        after.children[b].ids().contains(x) implies !new_child.ids().contains(
                        x,
                    ) by {
                        assert(self.children[b].ids().contains(x));
                    }
                } else if b == i {
                    assert forall|x: ProgressId|
                        after.children[a].ids().contains(x) implies !new_child.ids().contains(
                        x,
                    ) by {
                        assert(self.children[a].ids().contains(x));
                    }
                }
            }
            assert forall|a: int| 0 <= a < after.children.len() implies (
            #[trigger] after.children[a]).distinct_ids() by {
                if a != i {
                    assert(self.children[a].distinct_ids());
                }
            }
        }
    }

    /// A control operation leaves the identifiers of a tree as they are, and
    /// a well-formed tree well formed, whether it ends early or not.
    pub proof fn lemma_controlled_ids(self, op: ControlOp, clock: Generation)
        ensures
            self.controlled(op, clock).node.ids() == self.ids(),
            self.distinct_ids() ==> self.controlled(op, clock).node.distinct_ids(),
        decreases self,
    {
        if op.permitted(self.task) {
            let start = if op.target(self.task.state) != self.task.state {
                clock.successor()
            } else {
                clock
            };
            let n = self.children.len();
            Self::lemma_controlled_among_ids(self.children, n, op, start);
            let after = self.controlled(op, clock).node;
            Self::lemma_ids_among_same(after.children, self.children, n);
            if self.distinct_ids() {
                assert forall|i: int, j: int| 0 <= i < j < after.children.len() implies (
                #[trigger] after.children[i]).ids().disjoint(
                    (#[trigger] after.children[j]).ids(),
                ) by {
                    assert(self.children[i].ids().disjoint(self.children[j].ids()));
                }
                assert forall|i: int| 0 <= i < after.children.len() implies (
                #[trigger] after.children[i]).distinct_ids() by {
                    assert(self.children[i].distinct_ids());
                }
            }
        }
    }

    /// A control operation on the first `n` trees of a sequence leaves the
    /// identifiers of every tree as they are, and a well-formed tree well
    /// formed.
    pub proof fn lemma_controlled_among_ids(
        nodes: Seq<NodeView>,
        n: nat,
        op: ControlOp,
        clock: Generation,
    )
        requires
            n <= nodes.len(),
        ensures
            Self::controlled_among(nodes, n, op, clock).nodes.len() == nodes.len(),
            forall|j: int|
                0 <= j < nodes.len() ==> (#[trigger] Self::controlled_among(
                    nodes,
                    n,
                    op,
                    clock,
                ).nodes[j]).ids() == nodes[j].ids(),
            forall|j: int|
                0 <= j < nodes.len() && nodes[j].distinct_ids() ==> (
                #[trigger] Self::controlled_among(nodes, n, op, clock).nodes[j]).distinct_ids(),
        decreases nodes, n,
    {
        if n > 0 {
            let before = Self::controlled_among(nodes, (n - 1) as nat, op, clock);
            Self::lemma_controlled_among_ids(nodes, (n - 1) as nat, op, clock);
            if before.error is None {
                nodes[n - 1].lemma_controlled_ids(op, before.clock);
                let after = Self::controlled_among(nodes, n, op, clock);
                assert forall|j: int| 0 <= j < nodes.len() implies (#[trigger] after.nodes[j]).ids()
                    == nodes[j].ids() by {
                    if j != n - 1 {
                        assert(after.nodes[j] == before.nodes[j]);
                    }
                }
                assert forall|j: int| 0 <= j < nodes.len() && nodes[j].distinct_ids() implies (
                #[trigger] after.nodes[j]).distinct_ids() by {
                    if j != n - 1 {
                        assert(after.nodes[j] == before.nodes[j]);
                    }
                }
            }
        }
    }
}

} // verus!
