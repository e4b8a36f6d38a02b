//! What a delta report shows, told by the nodes of the tree.

use vstd::prelude::*;
use crate::generation::Generation;
use crate::id::ProgressId;
use crate::node::NodeView;

verus! {

impl NodeView {
    /// A tree with a node that was changed after `baseline` was changed
    /// after `baseline`, and so was every subtree that holds the node.
    pub proof fn lemma_changed_by(self, baseline: Generation, path: Seq<int>)
        requires
            self.valid_path(path),
            self.at(path).changed_after(baseline),
        ensures
            self.changed_after(baseline),
        decreases path.len(),
    {
        if path.len() > 0 {
            let child = self.children[path.last()];
            child.lemma_changed_by(baseline, path.drop_last());
        }
    }

    /// A tree that was changed after `baseline` holds a node that was itself
    /// changed after `baseline`.
    pub proof fn lemma_changed_witness(self, baseline: Generation) -> (path: Seq<int>)
        requires
            self.changed_after(baseline),
        ensures
            self.valid_path(path),
            self.at(path).last_change.0 > baseline.0,
        decreases self,
    {
        if self.last_change.0 > baseline.0 {
            Seq::empty()
        } else {
            let i = choose|i: int|
                0 <= i < self.children.len() && (#[trigger] self.children[i]).changed_after(
                    baseline,
                );
            let below = self.children[i].lemma_changed_witness(baseline);
            let path = below.push(i);
            assert(path.drop_last() =~= below);
            path
        }
    }

    /// Delta monotonicity: there is no delta report against `baseline`
    /// exactly if no node of the tree was changed after `baseline`.
    pub proof fn lemma_partial_report_absent(self, baseline: Generation)
        ensures
            self.partial_report(baseline) is None <==> forall|path: Seq<int>|
                self.valid_path(path) ==> (#[trigger] self.at(path)).last_change.0 <= baseline.0,
    {
        if self.changed_after(baseline) {
            let path = self.lemma_changed_witness(baseline);
            assert(self.at(path).last_change.0 > baseline.0);
        } else {
            assert forall|path: Seq<int>| self.valid_path(path) implies (#[trigger] self.at(
                path,
            )).last_change.0 <= baseline.0 by {
                if self.at(path).last_change.0 > baseline.0 {
                    self.lemma_changed_by(baseline, path);
                }
            }
        }
    }

    /// An identifier is among the changed nodes and their ancestors in the
    /// first `n` trees exactly if it is so in one of these trees.
    pub proof fn lemma_changed_ids_among_has(
        nodes: Seq<NodeView>,
        n: nat,
        baseline: Generation,
        x: ProgressId,
    )
        requires
            n <= nodes.len(),
        ensures
            Self::changed_ids_among(nodes, n, baseline).contains(x) <==> exists|j: int|
                0 <= j < n && (#[trigger] nodes[j]).changed_ids(baseline).contains(x),
        decreases n,
    {
        if n > 0 {
            Self::lemma_changed_ids_among_has(nodes, (n - 1) as nat, baseline, x);
            if Self::changed_ids_among(nodes, n, baseline).contains(x) {
                if nodes[n - 1].changed_ids(baseline).contains(x) {
                } else {
                    let j = choose|j: int|
                        0 <= j < n - 1 && (#[trigger] nodes[j]).changed_ids(baseline).contains(x);
                    assert(nodes[j].changed_ids(baseline).contains(x));
                }
            }
        }
    }

    /// The identifier of a node below which, the node included, something
    /// was changed after `baseline` is among the identifiers that a delta
    /// report against `baseline` is about.
    pub proof fn lemma_changed_ids_has(self, baseline: Generation, path: Seq<int>)
        requires
            self.valid_path(path),
            self.at(path).changed_after(baseline),
        ensures
            self.changed_ids(baseline).contains(self.at(path).id),
        decreases path.len(),
    {
        self.lemma_changed_by(baseline, path);
        if path.len() > 0 {
            let child = self.children[path.last()];
            child.lemma_changed_ids_has(baseline, path.drop_last());
            Self::lemma_changed_ids_among_has(
                self.children,
                self.children.len(),
                baseline,
                self.at(path).id,
            );
        }
    }

    /// An identifier that a delta report against `baseline` is about is the
    /// identifier of a node below which, the node included, something was
    /// changed after `baseline`.
    pub proof fn lemma_changed_ids_witness(self, baseline: Generation, x: ProgressId) -> (path:
        Seq<int>)
        requires
            self.changed_ids(baseline).contains(x),
        ensures
            self.valid_path(path),
            self.at(path).id == x,
            self.at(path).changed_after(baseline),
        decreases self,
    {
        if x == self.id {
            Seq::empty()
        } else {
            Self::lemma_changed_ids_among_has(self.children, self.children.len(), baseline, x);
            let j = choose|j: int|
                0 <= j < self.children.len() && (#[trigger] self.children[j]).changed_ids(
                    baseline,
                ).contains(x);
            let below = self.children[j].lemma_changed_ids_witness(baseline, x);
            let path = below.push(j);
            assert(path.drop_last() =~= below);
            path
        }
    }

    /// Delta subset: a delta report against `baseline` is about a progress
    /// exactly if it is a node of the tree that was changed after `baseline`
    /// or that has such a node below it.
    pub proof fn lemma_partial_report_about(self, baseline: Generation, x: ProgressId)
        requires
            self.partial_report(baseline) is Some,
        ensures
            self.partial_report(baseline)->0.ids().contains(x) <==> exists|path: Seq<int>|
                self.valid_path(path) && (#[trigger] self.at(path)).id == x && self.at(
                    path,
                ).changed_after(baseline),
    {
        self.lemma_partial_report_ids(baseline);
        if self.changed_ids(baseline).contains(x) {
            let path = self.lemma_changed_ids_witness(baseline, x);
            assert(self.at(path).id == x);
        }
        if exists|path: Seq<int>|
            self.valid_path(path) && (#[trigger] self.at(path)).id == x && self.at(
                path,
            ).changed_after(baseline) {
            let path = choose|path: Seq<int>|
                self.valid_path(path) && (#[trigger] self.at(path)).id == x && self.at(
                    path,
                ).changed_after(baseline);
            self.lemma_changed_ids_has(baseline, path);
        }
    }
}

} // verus!
