//! Synthesis of full and delta reports from a progress tree.

use vstd::prelude::*;
use crate::generation::Generation;
use crate::id::ProgressId;
use crate::node::{Node, NodeView};
use crate::report::{Report, ReportView};
use crate::task::clone_label;

verus! {

/// A count of units as a report holds it: the count itself, or `usize::MAX`
/// if it is larger. This is what saturating addition of the parts gives.
pub open spec fn saturated(units: nat) -> usize {
    if units > usize::MAX {
        usize::MAX
    } else {
        units as usize
    }
}

/// Saturating addition of two saturated counts gives the saturated sum.
pub proof fn lemma_saturated_sum(a: nat, b: nat)
    ensures
        (if saturated(a) + saturated(b) > usize::MAX {
            usize::MAX as int
        } else {
            saturated(a) + saturated(b)
        }) == saturated(a + b),
        a <= b ==> saturated(a) <= saturated(b),
{
}

impl NodeView {
    /// The sum of the effective completed units of all nodes of the tree.
    pub open spec fn completed_units(self) -> nat
        decreases self,
    {
        self.task.spec_effective_completed() as nat + Self::completed_units_among(
            self.children,
            self.children.len(),
        )
    }

    /// The sum of the effective completed units of all nodes of the first `n`
    /// trees of `nodes`.
    pub open spec fn completed_units_among(nodes: Seq<NodeView>, n: nat) -> nat
        decreases nodes, n,
    {
        if n == 0 || n > nodes.len() {
            0
        } else {
            Self::completed_units_among(nodes, (n - 1) as nat) + nodes[n - 1].completed_units()
        }
    }

    /// The sum of the effective total units of all nodes of the tree.
    pub open spec fn total_units(self) -> nat
        decreases self,
    {
        self.task.spec_effective_total() as nat + Self::total_units_among(
            self.children,
            self.children.len(),
        )
    }

    /// The sum of the effective total units of all nodes of the first `n`
    /// trees of `nodes`.
    pub open spec fn total_units_among(nodes: Seq<NodeView>, n: nat) -> nat
        decreases nodes, n,
    {
        if n == 0 || n > nodes.len() {
            0
        } else {
            Self::total_units_among(nodes, (n - 1) as nat) + nodes[n - 1].total_units()
        }
    }

    /// The latest generation at which any node of the tree was changed.
    pub open spec fn latest_change(self) -> Generation
        decreases self,
    {
        self.last_change.later(Self::latest_change_among(self.children, self.children.len()))
    }

    /// The latest generation at which any node of the first `n` trees of
    /// `nodes` was changed, or the smallest generation if `n` is zero.
    pub open spec fn latest_change_among(nodes: Seq<NodeView>, n: nat) -> Generation
        decreases nodes, n,
    {
        if n == 0 || n > nodes.len() {
            Generation(0)
        } else {
            Self::latest_change_among(nodes, (n - 1) as nat).later(nodes[n - 1].latest_change())
        }
    }

    /// The full report of the tree: one report per node, in the shape of the
    /// tree, each with the saturated sums over its subtree.
    pub open spec fn report(self) -> ReportView
        decreases self,
    {
        ReportView {
            progress_id: self.id,
            label: self.task.label,
            completed: saturated(self.completed_units()),
            total: saturated(self.total_units()),
            is_indeterminate: self.completed_units() == 0 && self.total_units() == 0,
            state: self.task.state,
            subreports: Seq::new(
                self.children.len(),
                |i: int|
                    if 0 <= i < self.children.len() {
                        self.children[i].report()
                    } else {
                        arbitrary()
                    },
            ),
            last_change: self.latest_change(),
        }
    }

    /// Tells whether some node of the tree was changed after `baseline`.
    pub open spec fn changed_after(self, baseline: Generation) -> bool
        decreases self,
    {
        self.last_change.0 > baseline.0 || exists|i: int|
            0 <= i < self.children.len() && (#[trigger] self.children[i]).changed_after(baseline)
    }

    /// The completed units that a delta report against `baseline` shows for
    /// the tree: the node's own effective count, and for each child what its
    /// delta report shows if it has one, else the child's own effective count.
    pub open spec fn delta_completed_units(self, baseline: Generation) -> nat
        decreases self,
    {
        self.task.spec_effective_completed() as nat + Self::delta_completed_units_among(
            self.children,
            self.children.len(),
            baseline,
        )
    }

    /// What the first `n` trees of `nodes` contribute to the completed units
    /// of their parent's delta report.
    pub open spec fn delta_completed_units_among(
        nodes: Seq<NodeView>,
        n: nat,
        baseline: Generation,
    ) -> nat
        decreases nodes, n,
    {
        if n == 0 || n > nodes.len() {
            0
        } else {
            Self::delta_completed_units_among(nodes, (n - 1) as nat, baseline) + (if nodes[n
                - 1].changed_after(baseline) {
                nodes[n - 1].delta_completed_units(baseline)
            } else {
                nodes[n - 1].task.spec_effective_completed() as nat
            })
        }
    }

    /// The total units that a delta report against `baseline` shows for the
    /// tree: the node's own effective count, and for each child what its
    /// delta report shows if it has one, else the child's own effective count.
    pub open spec fn delta_total_units(self, baseline: Generation) -> nat
        decreases self,
    {
        self.task.spec_effective_total() as nat + Self::delta_total_units_among(
            self.children,
            self.children.len(),
            baseline,
        )
    }

    /// What the first `n` trees of `nodes` contribute to the total units of
    /// their parent's delta report.
    pub open spec fn delta_total_units_among(
        nodes: Seq<NodeView>,
        n: nat,
        baseline: Generation,
    ) -> nat
        decreases nodes, n,
    {
        if n == 0 || n > nodes.len() {
            0
        } else {
            Self::delta_total_units_among(nodes, (n - 1) as nat, baseline) + (if nodes[n
                - 1].changed_after(baseline) {
                nodes[n - 1].delta_total_units(baseline)
            } else {
                nodes[n - 1].task.spec_effective_total() as nat
            })
        }
    }

    /// The delta report of the tree against `baseline`: nothing if no node of
    /// the tree was changed after `baseline`; else the report of the root
    /// with the delta reports of those children that have one.
    pub open spec fn partial_report(self, baseline: Generation) -> Option<ReportView>
        decreases self,
    {
        if !self.changed_after(baseline) {
            None
        } else {
            Some(
                ReportView {
                    progress_id: self.id,
                    label: self.task.label,
                    completed: saturated(self.delta_completed_units(baseline)),
                    total: saturated(self.delta_total_units(baseline)),
                    is_indeterminate: self.delta_completed_units(baseline) == 0
                        && self.delta_total_units(baseline) == 0,
                    state: self.task.state,
                    subreports: Self::partial_reports_among(
                        self.children,
                        self.children.len(),
                        baseline,
                    ),
                    last_change: self.latest_change(),
                },
            )
        }
    }

    /// The delta reports against `baseline` of those of the first `n` trees
    /// of `nodes` that have one, in their order.
    pub open spec fn partial_reports_among(
        nodes: Seq<NodeView>,
        n: nat,
        baseline: Generation,
    ) -> Seq<ReportView>
        decreases nodes, n,
    {
        if n == 0 || n > nodes.len() {
            Seq::empty()
        } else {
            let before = Self::partial_reports_among(nodes, (n - 1) as nat, baseline);
            match nodes[n - 1].partial_report(baseline) {
                Some(report) => before.push(report),
                None => before,
            }
        }
    }

    /// The identifiers of the nodes of the tree below which, the node itself
    /// included, something was changed after `baseline`: the changed nodes
    /// and their ancestors.
    pub open spec fn changed_ids(self, baseline: Generation) -> Set<ProgressId>
        decreases self,
    {
        if self.changed_after(baseline) {
            Self::changed_ids_among(self.children, self.children.len(), baseline).insert(self.id)
        } else {
            Set::empty()
        }
    }

    /// The changed nodes and their ancestors in the first `n` trees of
    /// `nodes`.
    pub open spec fn changed_ids_among(
        nodes: Seq<NodeView>,
        n: nat,
        baseline: Generation,
    ) -> Set<ProgressId>
        decreases nodes, n,
    {
        if n == 0 || n > nodes.len() {
            Set::empty()
        } else {
            Self::changed_ids_among(nodes, (n - 1) as nat, baseline).union(
                nodes[n - 1].changed_ids(baseline),
            )
        }
    }

    /// Clamping: over any tree the completed units do not exceed the total
    /// units, in a full report and in a delta report.
    pub proof fn lemma_completed_at_most_total(self, baseline: Generation)
        ensures
            self.completed_units() <= self.total_units(),
            self.delta_completed_units(baseline) <= self.delta_total_units(baseline),
            self.report().completed <= self.report().total,
            self.partial_report(baseline) is Some ==> self.partial_report(baseline)->0.completed
                <= self.partial_report(baseline)->0.total,
        decreases self,
    {
        Self::lemma_completed_at_most_total_among(self.children, self.children.len(), baseline);
    }

    /// Clamping, for the first `n` trees of a sequence.
    pub proof fn lemma_completed_at_most_total_among(
        nodes: Seq<NodeView>,
        n: nat,
        baseline: Generation,
    )
        requires
            n <= nodes.len(),
        ensures
            Self::completed_units_among(nodes, n) <= Self::total_units_among(nodes, n),
            Self::delta_completed_units_among(nodes, n, baseline) <= Self::delta_total_units_among(
                nodes,
                n,
                baseline,
            ),
        decreases nodes, n,
    {
        if n > 0 {
            Self::lemma_completed_at_most_total_among(nodes, (n - 1) as nat, baseline);
            nodes[n - 1].lemma_completed_at_most_total(baseline);
        }
    }

    /// A tree was changed after `baseline` exactly if its latest change is
    /// after `baseline`.
    pub proof fn lemma_changed_after(self, baseline: Generation)
        ensures
            self.changed_after(baseline) <==> self.latest_change().0 > baseline.0,
            self.latest_change().0 >= self.last_change.0,
        decreases self,
    {
        Self::lemma_changed_after_among(self.children, self.children.len(), baseline);
    }

    /// One of the first `n` trees was changed after `baseline` exactly if
    /// their latest change is after `baseline`.
    pub proof fn lemma_changed_after_among(nodes: Seq<NodeView>, n: nat, baseline: Generation)
        requires
            n <= nodes.len(),
        ensures
            (exists|i: int| 0 <= i < n && (#[trigger] nodes[i]).changed_after(baseline))
                <==> Self::latest_change_among(nodes, n).0 > baseline.0,
        decreases nodes, n,
    {
        if n > 0 {
            Self::lemma_changed_after_among(nodes, (n - 1) as nat, baseline);
            nodes[n - 1].lemma_changed_after(baseline);
            if Self::latest_change_among(nodes, n).0 > baseline.0 {
                if nodes[n - 1].changed_after(baseline) {
                } else {
                    let i = choose|i: int|
                        0 <= i < n - 1 && (#[trigger] nodes[i]).changed_after(baseline);
                    assert(nodes[i].changed_after(baseline));
                }
            }
        }
    }
}

impl ReportView {
    /// Tells whether every report in the tree shows a change after
    /// `baseline`.
    pub open spec fn all_after(self, baseline: Generation) -> bool
        decreases self,
    {
        &&& self.last_change.0 > baseline.0
        &&& forall|i: int|
            0 <= i < self.subreports.len() ==> (#[trigger] self.subreports[i]).all_after(baseline)
    }
}

impl NodeView {
    /// Delta subset: the progresses that a delta report is about are the
    /// nodes changed after the baseline and their ancestors in the tree. And
    /// every report in it shows a change after the baseline.
    pub proof fn lemma_partial_report_ids(self, baseline: Generation)
        requires
            self.partial_report(baseline) is Some,
        ensures
            self.partial_report(baseline)->0.ids() == self.changed_ids(baseline),
            self.partial_report(baseline)->0.all_after(baseline),
        decreases self,
    {
        self.lemma_changed_after(baseline);
        Self::lemma_partial_reports_among(self.children, self.children.len(), baseline);
    }

    /// Delta subset, for the delta reports of the first `n` trees of a
    /// sequence.
    pub proof fn lemma_partial_reports_among(nodes: Seq<NodeView>, n: nat, baseline: Generation)
        requires
            n <= nodes.len(),
        ensures
            ReportView::ids_among(
                Self::partial_reports_among(nodes, n, baseline),
                Self::partial_reports_among(nodes, n, baseline).len(),
            ) == Self::changed_ids_among(nodes, n, baseline),
            forall|i: int|
                0 <= i < Self::partial_reports_among(nodes, n, baseline).len() ==> (
                #[trigger] Self::partial_reports_among(nodes, n, baseline)[i]).all_after(baseline),
        decreases nodes, n,
    {
        let reports = Self::partial_reports_among(nodes, n, baseline);
        if n > 0 {
            let before = Self::partial_reports_among(nodes, (n - 1) as nat, baseline);
            Self::lemma_partial_reports_among(nodes, (n - 1) as nat, baseline);
            match nodes[n - 1].partial_report(baseline) {
                Some(report) => {
                    nodes[n - 1].lemma_partial_report_ids(baseline);
                    assert(reports == before.push(report));
                    assert(reports.len() == before.len() + 1);
                    assert(reports[reports.len() - 1] == report);
                    ReportView::lemma_ids_among_prefix(reports, before, before.len());
                },
                None => {
                    assert(nodes[n - 1].changed_ids(baseline) =~= Set::empty());
                    assert(Self::changed_ids_among(nodes, n, baseline) =~= Self::changed_ids_among(
                        nodes,
                        (n - 1) as nat,
                        baseline,
                    ));
                },
            }
            assert forall|i: int| 0 <= i < reports.len() implies (#[trigger] reports[i]).all_after(
                baseline,
            ) by {
                if i < before.len() {
                    assert(reports[i] == before[i]);
                }
            }
        }
    }
}

impl ReportView {
    /// The identifiers of the first `n` reports depend on those reports only.
    pub proof fn lemma_ids_among_prefix(longer: Seq<ReportView>, shorter: Seq<ReportView>, n: nat)
        requires
            n <= shorter.len() <= longer.len(),
            forall|i: int| 0 <= i < n ==> longer[i] == shorter[i],
        ensures
            Self::ids_among(longer, n) == Self::ids_among(shorter, n),
        decreases n,
    {
        if n > 0 {
            Self::lemma_ids_among_prefix(longer, shorter, (n - 1) as nat);
        }
    }
}

impl Node {
    /// Generates the full report of the node and its subtree.
    ///
    /// The report has the shape of the subtree. Each report in it holds the
    /// sums of the effective completed and total units of all nodes below
    /// it, itself included, added with saturation, and the latest change
    /// among them.
    pub fn report(&self) -> (report: Report)
        ensures
            report@ == self@.report(),
            report.completed == saturated(self@.completed_units()),
            report.total == saturated(self@.total_units()),
            report.completed <= report.total,
        decreases self,
    {
        let mut subreports: Vec<Report> = Vec::new();
        let (own_completed, own_total) = self.task.effective_discrete();
        let mut completed: usize = own_completed;
        let mut total: usize = own_total;
        let mut last_change: Generation = self.last_change;
        let mut i: usize = 0;
        while i < self.children.len()
            invariant
                0 <= i <= self.children.len(),
                subreports.len() == i,
                forall|j: int|
                    0 <= j < i ==> (#[trigger] subreports[j])@ == self@.children[j].report(),
                completed == saturated(
                    self.task.spec_effective_completed() as nat + NodeView::completed_units_among(
                        self@.children,
                        i as nat,
                    ),
                ),
                total == saturated(
                    self.task.spec_effective_total() as nat + NodeView::total_units_among(
                        self@.children,
                        i as nat,
                    ),
                ),
                last_change == self.last_change.later(
                    NodeView::latest_change_among(self@.children, i as nat),
                ),
            decreases self.children.len() - i,
        {
            let subreport = self.children[i].report();
            proof {
                assert(self@.children[i as int] == self.children[i as int]@);
                lemma_saturated_sum(
                    self.task.spec_effective_completed() as nat + NodeView::completed_units_among(
                        self@.children,
                        i as nat,
                    ),
                    self@.children[i as int].completed_units(),
                );
                lemma_saturated_sum(
                    self.task.spec_effective_total() as nat + NodeView::total_units_among(
                        self@.children,
                        i as nat,
                    ),
                    self@.children[i as int].total_units(),
                );
            }
            completed = completed.saturating_add(subreport.completed);
            total = total.saturating_add(subreport.total);
            last_change = last_change.max(subreport.last_change);
            subreports.push(subreport);
            i += 1;
        }
        proof {
            self@.lemma_completed_at_most_total(Generation(0));
            lemma_saturated_sum(self@.completed_units(), self@.total_units());
            assert(Report::models(subreports@) =~= self@.report().subreports);
        }
        Report::new(
            self.id,
            clone_label(&self.task.label),
            completed,
            total,
            self.task.state,
            subreports,
            last_change,
        )
    }

    /// Generates the delta report of the node and its subtree against
    /// `baseline`.
    ///
    /// Returns `None` exactly if no node of the subtree was changed after
    /// `baseline`. Else the report holds the delta reports of those children
    /// that have one, in their order. A child without one contributes the
    /// effective units of its own task to the sums, and no sub-report.
    pub fn partial_report(&self, baseline: Generation) -> (report: Option<Report>)
        ensures
            match report {
                Some(report) => self@.partial_report(baseline) == Some(report@),
                None => self@.partial_report(baseline) is None,
            },
            report is None <==> !self@.changed_after(baseline),
            report is Some ==> report->0.completed <= report->0.total,
        decreases self,
    {
        let mut subreports: Vec<Report> = Vec::new();
        let (own_completed, own_total) = self.task.effective_discrete();
        let mut completed: usize = own_completed;
        let mut total: usize = own_total;
        let mut last_change: Generation = self.last_change;
        let mut i: usize = 0;
        while i < self.children.len()
            invariant
                0 <= i <= self.children.len(),
                Report::models(subreports@) == NodeView::partial_reports_among(
                    self@.children,
                    i as nat,
                    baseline,
                ),
                completed == saturated(
                    self.task.spec_effective_completed() as nat
                        + NodeView::delta_completed_units_among(
                        self@.children,
                        i as nat,
                        baseline,
                    ),
                ),
                total == saturated(
                    self.task.spec_effective_total() as nat + NodeView::delta_total_units_among(
                        self@.children,
                        i as nat,
                        baseline,
                    ),
                ),
                subreports.len() > 0 <==> exists|j: int|
                    0 <= j < i && (#[trigger] self@.children[j]).changed_after(baseline),
                subreports.len() > 0 ==> last_change == self.last_change.later(
                    NodeView::latest_change_among(self@.children, i as nat),
                ),
                subreports.len() == 0 ==> last_change == self.last_change,
            decreases self.children.len() - i,
        {
            let ghost before = subreports@;
            proof {
                assert(self@.children[i as int] == self.children[i as int]@);
                let child = self@.children[i as int];
                child.lemma_changed_after(baseline);
                NodeView::lemma_changed_after_among(self@.children, i as nat, baseline);
                lemma_saturated_sum(
                    self.task.spec_effective_completed() as nat
                        + NodeView::delta_completed_units_among(
                        self@.children,
                        i as nat,
                        baseline,
                    ),
                    if child.changed_after(baseline) {
                        child.delta_completed_units(baseline)
                    } else {
                        child.task.spec_effective_completed() as nat
                    },
                );
                lemma_saturated_sum(
                    self.task.spec_effective_total() as nat + NodeView::delta_total_units_among(
                        self@.children,
                        i as nat,
                        baseline,
                    ),
                    if child.changed_after(baseline) {
                        child.delta_total_units(baseline)
                    } else {
                        child.task.spec_effective_total() as nat
                    },
                );
            }
            match self.children[i].partial_report(baseline) {
                Some(subreport) => {
                    completed = completed.saturating_add(subreport.completed);
                    total = total.saturating_add(subreport.total);
                    last_change = last_change.max(subreport.last_change);
                    subreports.push(subreport);
                    assert(Report::models(subreports@) =~= Report::models(before).push(
                        subreport@,
                    ));
                },
                None => {
                    let (child_completed, child_total) = self.children[i].task.effective_discrete();
                    completed = completed.saturating_add(child_completed);
                    total = total.saturating_add(child_total);
                },
            }
            i += 1;
        }
        proof {
            self@.lemma_changed_after(baseline);
            NodeView::lemma_changed_after_among(
                self@.children,
                self@.children.len(),
                baseline,
            );
            self@.lemma_completed_at_most_total(baseline);
            lemma_saturated_sum(
                self@.delta_completed_units(baseline),
                self@.delta_total_units(baseline),
            );
        }
        if subreports.len() == 0 && !last_change.is_after(baseline) {
            return None;
        }
        let report = Report::new(
            self.id,
            clone_label(&self.task.label),
            completed,
            total,
            self.task.state,
            subreports,
            last_change,
        );
        Some(report)
    }
}

} // verus!
