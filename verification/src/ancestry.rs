//! Ancestors in a progress tree: why following parents always ends at the
//! root.

use vstd::prelude::*;
use crate::id::ProgressId;
use crate::node::NodeView;

verus! {

impl NodeView {
    /// Tells whether no identifier occurs twice in the tree.
    pub open spec fn unique_ids(self) -> bool {
        forall|p: Seq<int>, q: Seq<int>|
            self.valid_path(p) && self.valid_path(q) && self.at(p).id == self.at(q).id ==> p == q
    }

    /// The height of the tree: the number of steps from the root to a
    /// deepest node.
    pub open spec fn height(self) -> nat
        decreases self,
    {
        Self::height_among(self.children, self.children.len())
    }

    /// One more than the height of a highest tree among the first `n` of
    /// `nodes`, or zero if `n` is zero.
    pub open spec fn height_among(nodes: Seq<NodeView>, n: nat) -> nat
        decreases nodes, n,
    {
        if n == 0 || n > nodes.len() {
            0
        } else {
            let before = Self::height_among(nodes, (n - 1) as nat);
            let here = nodes[n - 1].height() + 1;
            if before >= here {
                before
            } else {
                here
            }
        }
    }

    /// The identifier reached from the node `id` by `k` steps from a node to
    /// its parent, if there are that many ancestors.
    pub open spec fn ancestor(self, id: ProgressId, k: nat) -> Option<ProgressId>
        decreases k,
    {
        if k == 0 {
            if self.contains(id) {
                Some(id)
            } else {
                None
            }
        } else {
            match self.parent_of(id) {
                Some(parent) => self.ancestor(parent, (k - 1) as nat),
                None => None,
            }
        }
    }

    /// No path is longer than the tree is high.
    pub proof fn lemma_path_height(self, path: Seq<int>)
        requires
            self.valid_path(path),
        ensures
            path.len() <= self.height(),
        decreases path.len(),
    {
        if path.len() > 0 {
            self.children[path.last()].lemma_path_height(path.drop_last());
            Self::lemma_height_among(self.children, self.children.len(), path.last());
        }
    }

    /// Each of the first `n` trees is lower than their common height.
    pub proof fn lemma_height_among(nodes: Seq<NodeView>, n: nat, i: int)
        requires
            0 <= i < n <= nodes.len(),
        ensures
            nodes[i].height() < Self::height_among(nodes, n),
        decreases n,
    {
        if i < n - 1 {
            Self::lemma_height_among(nodes, (n - 1) as nat, i);
        }
    }

    /// The identifier of every node of the tree is found in the tree.
    pub proof fn lemma_contains(self, path: Seq<int>)
        requires
            self.valid_path(path),
        ensures
            self.contains(self.at(path).id),
        decreases path.len(),
    {
        let id = self.at(path).id;
        if self.id != id {
            let child = self.children[path.last()];
            child.lemma_contains(path.drop_last());
            Self::lemma_path_among(self.children, self.children.len(), id);
        }
    }

    /// Where no identifier occurs twice, the path found for the identifier
    /// of a node is the path of that node.
    pub proof fn lemma_unique_path(self, path: Seq<int>)
        requires
            self.unique_ids(),
            self.valid_path(path),
        ensures
            self.path_to(self.at(path).id) == Some(path),
            path.len() > 0 ==> self.parent_of(self.at(path).id) == Some(
                self.at(path.drop_first()).id,
            ),
            path.len() == 0 ==> self.parent_of(self.at(path).id) is None,
    {
        self.lemma_contains(path);
        self.lemma_path_to(self.at(path).id);
    }

    /// Where no identifier occurs twice, `k` steps from a node to its parent
    /// lead to the node named by the node's path without its first `k`
    /// entries.
    pub proof fn lemma_ancestor(self, path: Seq<int>, k: nat)
        requires
            self.unique_ids(),
            self.valid_path(path),
            k <= path.len(),
        ensures
            self.valid_path(path.skip(k as int)),
            self.ancestor(self.at(path).id, k) == Some(self.at(path.skip(k as int)).id),
        decreases k,
    {
        self.lemma_unique_path(path);
        if k == 0 {
            assert(path.skip(0) =~= path);
        } else {
            self.lemma_parent_path(path);
            self.lemma_ancestor(path.drop_first(), (k - 1) as nat);
            assert(path.drop_first().skip(k - 1) =~= path.skip(k as int));
        }
    }

    /// No cycles: in a tree in which no identifier occurs twice, following
    /// the parents from any node reaches the root, which has no parent, in
    /// as many steps as the node is deep, which is no more than the tree is
    /// high; and no node appears twice on the way.
    pub proof fn lemma_no_cycles(self, id: ProgressId)
        requires
            self.unique_ids(),
            self.contains(id),
        ensures
            self.path_to(id)->0.len() <= self.height(),
            self.ancestor(id, self.path_to(id)->0.len()) == Some(self.id),
            self.parent_of(self.id) is None,
            forall|j: nat, k: nat|
                j < k <= self.path_to(id)->0.len() ==> self.ancestor(id, j) != self.ancestor(
                    id,
                    k,
                ),
    {
        let path = self.path_to(id)->0;
        self.lemma_path_to(id);
        self.lemma_path_height(path);
        self.lemma_ancestor(path, path.len());
        assert(path.skip(path.len() as int) =~= Seq::<int>::empty());
        assert forall|j: nat, k: nat| j < k <= path.len() implies self.ancestor(id, j)
            != self.ancestor(id, k) by {
            self.lemma_ancestor(path, j);
            self.lemma_ancestor(path, k);
            if self.ancestor(id, j) == self.ancestor(id, k) {
                assert(path.skip(j as int) == path.skip(k as int));
                assert(path.skip(j as int).len() == path.len() - j);
                assert(path.skip(k as int).len() == path.len() - k);
            }
        }
    }
}

} // verus!
