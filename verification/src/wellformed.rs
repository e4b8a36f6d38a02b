//! Well-formedness of a progress tree, and how the operations keep it.

use vstd::prelude::*;
use crate::control::ControlOp;
use crate::id::ProgressId;
use crate::node::NodeView;
use crate::progress::ProgressView;
use crate::task::Task;

verus! {

impl<O> ProgressView<O> {
    /// Tells whether the tree is well formed: no identifier occurs twice in
    /// it.
    pub open spec fn well_formed(self) -> bool {
        self.root.distinct_ids()
    }

    /// The identifiers of all nodes of the tree.
    pub open spec fn ids(self) -> Set<ProgressId> {
        self.root.ids()
    }

    /// Tells whether every identifier of the tree is below `bound`. The
    /// identifiers that an allocator has handed out are below the next one
    /// that it hands out, until its counter starts over.
    pub open spec fn ids_below(self, bound: int) -> bool {
        forall|id: ProgressId| self.ids().contains(id) ==> id.0 < bound
    }

    /// An identifier that is not below a bound on the tree's identifiers is
    /// new to the tree.
    pub proof fn lemma_ids_below_fresh(self, bound: int, id: ProgressId)
        requires
            self.ids_below(bound),
            id.0 >= bound,
        ensures
            !self.root.contains(id),
    {
        self.root.lemma_contains_ids(id);
        if self.root.contains(id) {
            assert(self.ids().contains(id));
        }
    }

    /// No cycles: in a well-formed tree, following the parents from any node
    /// reaches the root, which has no parent, in as many steps as the node
    /// is deep, which is no more than the tree is high; and no node appears
    /// twice on the way.
    pub proof fn lemma_no_cycles(self, id: ProgressId)
        requires
            self.well_formed(),
            self.root.contains(id),
        ensures
            self.root.path_to(id)->0.len() <= self.root.height(),
            self.root.ancestor(id, self.root.path_to(id)->0.len()) == Some(self.root.id),
            self.root.parent_of(self.root.id) is None,
            forall|j: nat, k: nat|
                j < k <= self.root.path_to(id)->0.len() ==> self.root.ancestor(id, j)
                    != self.root.ancestor(id, k),
    {
        self.root.lemma_distinct_unique();
        self.root.lemma_no_cycles(id);
    }

    /// A change to a node that leaves the node's identifier and children as
    /// they are leaves the tree well formed, with the same identifiers.
    pub proof fn lemma_changed_well_formed(self, id: ProgressId, node: NodeView)
        requires
            self.well_formed(),
            self.root.find(id) is Some,
            node.id == self.root.find(id)->0.id,
            node.children == self.root.find(id)->0.children,
        ensures
            self.changed(id, node).well_formed(),
            self.changed(id, node).ids() == self.ids(),
            (ProgressView { root: self.root.edited(id, node), ..self }).well_formed(),
            (ProgressView { root: self.root.edited(id, node), ..self }).ids() == self.ids(),
    {
        let path = self.root.path_to(id)->0;
        let found = self.root.at(path);
        let stamped = NodeView { last_change: self.last_tree_change.successor(), ..node };
        self.root.lemma_path_to(id);
        self.root.lemma_distinct_at(path);
        found.lemma_same_children(node);
        found.lemma_same_children(stamped);
        self.root.lemma_replaced_distinct(path, node);
        self.root.lemma_replaced_distinct(path, stamped);
        assert(self.root.replaced(path, node).ids() =~= self.root.ids());
        assert(self.root.replaced(path, stamped).ids() =~= self.root.ids());
    }

    /// An update leaves the tree well formed, with the same identifiers.
    pub proof fn lemma_updated_well_formed(self, id: ProgressId, task_after: spec_fn(Task) -> Task)
        requires
            self.well_formed(),
        ensures
            self.updated(id, task_after).well_formed(),
            self.updated(id, task_after).ids() == self.ids(),
    {
        if self.root.find(id) is Some {
            let node = self.root.find(id)->0;
            self.lemma_changed_well_formed(id, NodeView { task: task_after(node.task), ..node });
        }
    }

    /// A new node with an identifier that is new to the tree leaves the tree
    /// well formed. The tree holds one identifier more.
    pub proof fn lemma_spawned_well_formed(self, parent: ProgressId, id: ProgressId, task: Task)
        requires
            self.well_formed(),
            !self.root.contains(id),
        ensures
            self.spawned(parent, id, task).well_formed(),
            self.root.contains(parent) ==> self.spawned(parent, id, task).ids()
                == self.ids().insert(id),
    {
        if self.root.find(parent) is Some {
            let path = self.root.path_to(parent)->0;
            let found = self.root.at(path);
            let leaf = NodeView {
                id,
                task,
                min_priority_level: None,
                last_change: crate::generation::Generation(0),
                children: Seq::empty(),
            };
            let grown = NodeView { children: found.children.push(leaf), ..found };
            let stamped = NodeView { last_change: self.last_tree_change.successor(), ..grown };
            self.root.lemma_path_to(parent);
            self.root.lemma_distinct_at(path);
            self.root.lemma_contains_ids(id);
            assert(leaf.ids() =~= Set::empty().insert(id));
            assert(leaf.distinct_ids());
            found.lemma_child_added(leaf);
            grown.lemma_same_children(stamped);
            self.root.lemma_replaced_distinct(path, stamped);
            assert(self.root.replaced(path, stamped).ids() =~= self.root.ids().insert(id));
        }
    }

    /// Attaching a well-formed tree that shares no identifier with this
    /// well-formed tree leaves this tree well formed. It then holds the
    /// identifiers of both.
    pub proof fn lemma_attached_well_formed(self, parent: ProgressId, child: ProgressView<O>)
        requires
            self.well_formed(),
            child.well_formed(),
            self.ids().disjoint(child.ids()),
        ensures
            self.attached(parent, child).well_formed(),
            self.root.contains(parent) ==> self.attached(parent, child).ids() == self.ids().union(
                child.ids(),
            ),
    {
        if self.root.find(parent) is Some {
            let path = self.root.path_to(parent)->0;
            let found = self.root.at(path);
            let clock = self.last_tree_change.later(child.last_tree_change);
            let grown = NodeView { children: found.children.push(child.root), ..found };
            let stamped = NodeView { last_change: clock.successor(), ..grown };
            self.root.lemma_path_to(parent);
            self.root.lemma_distinct_at(path);
            found.lemma_child_added(child.root);
            grown.lemma_same_children(stamped);
            self.root.lemma_replaced_distinct(path, stamped);
            assert(self.root.replaced(path, stamped).ids() =~= self.root.ids().union(
                child.root.ids(),
            ));
        }
    }

    /// Detaching a node from a well-formed tree leaves two well-formed
    /// trees, which share no identifier: the detached subtree with its
    /// identifiers, and the tree with the others.
    pub proof fn lemma_detached_well_formed(self, id: ProgressId)
        requires
            self.well_formed(),
            self.root.parent_of(id) is Some,
        ensures
            self.detached(id).well_formed(),
            self.root.find(id)->0.distinct_ids(),
            self.detached(id).ids() == self.ids().difference(self.root.find(id)->0.ids()),
            self.root.find(id)->0.ids().subset_of(self.ids()),
    {
        let path = self.root.path_to(id)->0;
        let above = path.drop_first();
        let parent = self.root.at(above);
        let gone = self.root.at(path);
        let shrunk = NodeView { children: parent.children.remove(path[0]), ..parent };
        let stamped = NodeView { last_change: self.last_tree_change.successor(), ..shrunk };
        self.root.lemma_path_to(id);
        self.root.lemma_parent_path(path);
        self.root.lemma_distinct_at(above);
        self.root.lemma_distinct_at(path);
        parent.lemma_child_removed(path[0]);
        shrunk.lemma_same_children(stamped);
        self.root.lemma_replaced_distinct(above, stamped);
        assert(self.root.replaced(above, stamped).ids() =~= self.root.ids().difference(gone.ids()));
    }

    /// A control operation leaves the tree well formed, with the same
    /// identifiers, whether it ends early or not.
    pub proof fn lemma_controlled_well_formed(self, id: ProgressId, op: ControlOp)
        requires
            self.well_formed(),
        ensures
            self.controlled(id, op).well_formed(),
            self.controlled(id, op).ids() == self.ids(),
    {
        if self.root.find(id) is Some {
            let path = self.root.path_to(id)->0;
            let found = self.root.at(path);
            let after = found.controlled(op, self.last_tree_change).node;
            self.root.lemma_path_to(id);
            self.root.lemma_distinct_at(path);
            found.lemma_controlled_ids(op, self.last_tree_change);
            self.root.lemma_replaced_distinct(path, after);
            assert(self.root.replaced(path, after).ids() =~= self.root.ids());
        }
    }
}

} // verus!
