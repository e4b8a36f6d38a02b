//! Reports: immutable snapshots of a progress tree.

use vstd::prelude::*;
use crate::generation::Generation;
use crate::id::ProgressId;
use crate::task::{clone_label, State};

verus! {

/// A progress' report.
#[derive(PartialEq, Eq, Debug)]
pub struct Report {
    /// The associated progress' identifier.
    pub progress_id: ProgressId,
    /// The associated progress' label.
    pub label: Option<String>,
    /// The number of accumulative completed units of work
    /// (i.e. including sub-reports' completed units).
    pub completed: usize,
    /// The number of accumulative total units of work
    /// (i.e. including sub-reports' total units).
    pub total: usize,
    /// Whether the tracked progress is indeterminate: neither completed nor
    /// total units are known.
    pub is_indeterminate: bool,
    /// The state of the associated progress' task.
    pub state: State,
    /// The reports of the associated progress' children.
    pub subreports: Vec<Report>,
    /// The generation at which the associated task, or any of the tasks in
    /// the sub-reports, was most recently changed.
    pub last_change: Generation,
}

/// The mathematical model of a [`Report`]: the same tree, with a sequence of
/// sub-reports.
pub struct ReportView {
    /// The associated progress' identifier.
    pub progress_id: ProgressId,
    /// The associated progress' label.
    pub label: Option<String>,
    /// The number of accumulative completed units of work.
    pub completed: usize,
    /// The number of accumulative total units of work.
    pub total: usize,
    /// Whether the tracked progress is indeterminate.
    pub is_indeterminate: bool,
    /// The state of the associated progress' task.
    pub state: State,
    /// The models of the sub-reports.
    pub subreports: Seq<ReportView>,
    /// The generation of the most recent change.
    pub last_change: Generation,
}

impl View for Report {
    type V = ReportView;

    open spec fn view(&self) -> ReportView {
        self.model()
    }
}

impl ReportView {
    /// The report of an unlabeled, unchanged, running progress without units
    /// and without children, for the identifier zero.
    pub open spec fn blank() -> ReportView {
        ReportView {
            progress_id: ProgressId(0),
            label: None,
            completed: 0,
            total: 0,
            is_indeterminate: true,
            state: State::Running,
            subreports: Seq::empty(),
            last_change: Generation(0),
        }
    }

    /// The report that is assembled from the given parts: the completed count
    /// is clamped to the total, and the report is indeterminate if both are
    /// zero then.
    pub open spec fn assembled(
        progress_id: ProgressId,
        label: Option<String>,
        completed: usize,
        total: usize,
        state: State,
        subreports: Seq<ReportView>,
        last_change: Generation,
    ) -> ReportView {
        let completed = if completed <= total {
            completed
        } else {
            total
        };
        ReportView {
            progress_id,
            label,
            completed,
            total,
            is_indeterminate: completed == 0 && total == 0,
            state,
            subreports,
            last_change,
        }
    }

    /// The report without the sub-reports that are older than
    /// `min_last_change`, at every level.
    pub open spec fn pruned(self, min_last_change: Generation) -> ReportView
        decreases self,
    {
        ReportView {
            subreports: Self::pruned_among(
                self.subreports,
                self.subreports.len(),
                min_last_change,
            ),
            ..self
        }
    }

    /// Of the first `n` of `reports`, those that are not older than
    /// `min_last_change`, each pruned, in their order.
    pub open spec fn pruned_among(
        reports: Seq<ReportView>,
        n: nat,
        min_last_change: Generation,
    ) -> Seq<ReportView>
        decreases reports, n,
    {
        if n == 0 || n > reports.len() {
            Seq::empty()
        } else {
            let before = Self::pruned_among(reports, (n - 1) as nat, min_last_change);
            if reports[n - 1].last_change.0 >= min_last_change.0 {
                before.push(reports[n - 1].pruned(min_last_change))
            } else {
                before
            }
        }
    }

    /// The report pruned, or nothing if the report itself is older than
    /// `min_last_change`.
    pub open spec fn pruned_or_dropped(self, min_last_change: Generation) -> Option<ReportView> {
        if self.last_change.0 >= min_last_change.0 {
            Some(self.pruned(min_last_change))
        } else {
            None
        }
    }

    /// Tells whether no report in the tree is older than `min_last_change`.
    pub open spec fn all_recent(self, min_last_change: Generation) -> bool
        decreases self,
    {
        &&& self.last_change.0 >= min_last_change.0
        &&& forall|i: int|
            0 <= i < self.subreports.len() ==> (#[trigger] self.subreports[i]).all_recent(
                min_last_change,
            )
    }

    /// The identifiers of the progresses that the report and its sub-reports,
    /// at every level, are about.
    pub open spec fn ids(self) -> Set<ProgressId>
        decreases self,
    {
        Self::ids_among(self.subreports, self.subreports.len()).insert(self.progress_id)
    }

    /// The identifiers that the first `n` of `reports` are about.
    pub open spec fn ids_among(reports: Seq<ReportView>, n: nat) -> Set<ProgressId>
        decreases reports, n,
    {
        if n == 0 || n > reports.len() {
            Set::empty()
        } else {
            Self::ids_among(reports, (n - 1) as nat).union(reports[n - 1].ids())
        }
    }

    /// The numerator and the denominator of the report's fraction: `0/1` for
    /// an indeterminate report, `1/1` where only the total is zero, and
    /// `completed/total` else.
    pub open spec fn fraction_terms(self) -> (usize, usize) {
        if self.completed == 0 && self.total == 0 {
            (0, 1)
        } else if self.total == 0 {
            (1, 1)
        } else {
            (self.completed, self.total)
        }
    }

    /// What is left after pruning holds nothing older than the bound, below
    /// the top.
    pub proof fn lemma_pruned_all_recent(self, min_last_change: Generation)
        ensures
            forall|i: int|
                0 <= i < self.pruned(min_last_change).subreports.len() ==> (
                #[trigger] self.pruned(min_last_change).subreports[i]).all_recent(min_last_change),
            self.last_change.0 >= min_last_change.0 ==> self.pruned(min_last_change).all_recent(
                min_last_change,
            ),
        decreases self,
    {
        Self::lemma_pruned_among_all_recent(
            self.subreports,
            self.subreports.len(),
            min_last_change,
        );
        let kept = Self::pruned_among(self.subreports, self.subreports.len(), min_last_change);
        assert(self.pruned(min_last_change).subreports == kept);
        assert forall|i: int| 0 <= i < kept.len() implies (#[trigger] kept[i]).all_recent(
            min_last_change,
        ) by {}
    }

    /// The survivors of pruning a sequence of reports hold nothing older than
    /// the bound.
    pub proof fn lemma_pruned_among_all_recent(
        reports: Seq<ReportView>,
        n: nat,
        min_last_change: Generation,
    )
        requires
            n <= reports.len(),
        ensures
            forall|i: int|
                0 <= i < Self::pruned_among(reports, n, min_last_change).len() ==> (
                #[trigger] Self::pruned_among(reports, n, min_last_change)[i]).all_recent(
                    min_last_change,
                ),
        decreases reports, n,
    {
        if n > 0 {
            let before = Self::pruned_among(reports, (n - 1) as nat, min_last_change);
            let kept = Self::pruned_among(reports, n, min_last_change);
            Self::lemma_pruned_among_all_recent(reports, (n - 1) as nat, min_last_change);
            if reports[n - 1].last_change.0 >= min_last_change.0 {
                reports[n - 1].lemma_pruned_all_recent(min_last_change);
                assert(kept == before.push(reports[n - 1].pruned(min_last_change)));
            }
            assert forall|i: int| 0 <= i < kept.len() implies (#[trigger] kept[i]).all_recent(
                min_last_change,
            ) by {
                if i < before.len() {
                    assert(kept[i] == before[i]);
                }
            }
        }
    }
}

impl Default for Report {
    /// The report of an unlabeled, unchanged, running progress without units
    /// and without children, for the identifier zero.
    fn default() -> (report: Report)
        ensures
            report@ == ReportView::blank(),
    {
        let report = Report {
            progress_id: ProgressId(0),
            label: None,
            completed: 0,
            total: 0,
            is_indeterminate: true,
            state: State::Running,
            subreports: Vec::new(),
            last_change: Generation(0),
        };
        assert(report@.subreports =~= Seq::empty());
        report
    }
}

impl Clone for Report {
    fn clone(&self) -> (copy: Report)
        ensures
            copy@ == self@,
        decreases self,
    {
        let mut subreports: Vec<Report> = Vec::new();
        let mut i: usize = 0;
        while i < self.subreports.len()
            invariant
                0 <= i <= self.subreports.len(),
                subreports.len() == i,
                forall|j: int| 0 <= j < i ==> (#[trigger] subreports[j])@ == self.subreports[j]@,
            decreases self.subreports.len() - i,
        {
            subreports.push(self.subreports[i].clone());
            i += 1;
        }
        let copy = Report {
            progress_id: self.progress_id,
            label: clone_label(&self.label),
            completed: self.completed,
            total: self.total,
            is_indeterminate: self.is_indeterminate,
            state: self.state,
            subreports,
            last_change: self.last_change,
        };
        assert(copy@.subreports =~= self@.subreports);
        copy
    }
}

impl Report {
    /// The model of the report: the report and its sub-reports as a
    /// mathematical tree.
    pub open spec fn model(self) -> ReportView
        decreases self,
    {
        ReportView {
            progress_id: self.progress_id,
            label: self.label,
            completed: self.completed,
            total: self.total,
            is_indeterminate: self.is_indeterminate,
            state: self.state,
            subreports: Seq::new(
                self.subreports.len() as nat,
                |i: int|
                    if 0 <= i < self.subreports.len() {
                        self.subreports[i].model()
                    } else {
                        arbitrary()
                    },
            ),
            last_change: self.last_change,
        }
    }

    /// The models of a sequence of reports.
    pub open spec fn models(reports: Seq<Report>) -> Seq<ReportView> {
        Seq::new(reports.len(), |i: int| reports[i]@)
    }

    /// Assembles a report from its parts. The completed count is clamped to
    /// the total.
    pub fn new(
        progress_id: ProgressId,
        label: Option<String>,
        completed: usize,
        total: usize,
        state: State,
        subreports: Vec<Report>,
        last_change: Generation,
    ) -> (report: Report)
        ensures
            report@ == ReportView::assembled(
                progress_id,
                label,
                completed,
                total,
                state,
                Self::models(subreports@),
                last_change,
            ),
            report@.completed <= report@.total,
    {
        let completed = if completed <= total {
            completed
        } else {
            total
        };
        let report = Report {
            progress_id,
            label,
            completed,
            total,
            is_indeterminate: completed == 0 && total == 0,
            state,
            subreports,
            last_change,
        };
        assert(report@.subreports =~= Self::models(subreports@));
        report
    }

    /// Returns a pruned version with all subreports older than
    /// `min_last_change` removed, or `None` if `self` itself is older.
    pub fn to_pruned(&self, min_last_change: Generation) -> (pruned: Option<Report>)
        ensures
            match pruned {
                Some(report) => self@.pruned_or_dropped(min_last_change) == Some(report@),
                None => self@.pruned_or_dropped(min_last_change) is None,
            },
    {
        self.clone().into_pruned(min_last_change)
    }

    /// Consumes the `Report` and returns a pruned version with all subreports
    /// older than `min_last_change` removed, or `None` if `self` itself is
    /// older.
    pub fn into_pruned(self, min_last_change: Generation) -> (pruned: Option<Report>)
        ensures
            match pruned {
                Some(report) => self@.pruned_or_dropped(min_last_change) == Some(report@),
                None => self@.pruned_or_dropped(min_last_change) is None,
            },
    {
        let mut report = self;
        if report.prune(min_last_change) {
            Some(report)
        } else {
            None
        }
    }

    /// Removes all subreports older than `min_last_change`, at every level,
    /// and tells whether `self` itself is not older.
    pub fn prune(&mut self, min_last_change: Generation) -> (recent: bool)
        ensures
            final(self)@ == old(self)@.pruned(min_last_change),
            recent == (old(self).last_change.0 >= min_last_change.0),
        decreases *old(self),
    {
        let mut kept: Vec<Report> = Vec::new();
        let count = self.subreports.len();
        let mut i: usize = 0;
        while i < count
            invariant
                0 <= i <= count,
                self.subreports.len() == count,
                old(self).subreports.len() == count,
                forall|j: int| i <= j < count ==> self.subreports[j] == old(self).subreports[j],
                Self::models(kept@) == ReportView::pruned_among(
                    old(self)@.subreports,
                    i as nat,
                    min_last_change,
                ),
                self.progress_id == old(self).progress_id,
                self.label == old(self).label,
                self.completed == old(self).completed,
                self.total == old(self).total,
                self.is_indeterminate == old(self).is_indeterminate,
                self.state == old(self).state,
                self.last_change == old(self).last_change,
            decreases count - i,
        {
            let mut report = Report::default();
            core::mem::swap(&mut self.subreports[i], &mut report);
            proof {
                assert(report == old(self).subreports[i as int]);
                assert(old(self)@.subreports[i as int] == report@);
            }
            let ghost before = kept@;
            let ghost taken = report@;
            if report.prune(min_last_change) {
                kept.push(report);
                assert(Self::models(kept@) =~= Self::models(before).push(
                    taken.pruned(min_last_change),
                ));
            }
            i += 1;
        }
        self.subreports = kept;
        assert(self@.subreports =~= Self::models(kept@));
        self.last_change.0 >= min_last_change.0
    }

    /// Returns the accumulative completed and total units.
    pub fn discrete(&self) -> (discrete: (usize, usize))
        ensures
            discrete == (self.completed, self.total),
    {
        (self.completed, self.total)
    }

    /// Returns the numerator and the denominator of the fraction of the work
    /// that is completed: `0/1` for an indeterminate report, `1/1` where only
    /// the total is zero, and `completed/total` else. The denominator is
    /// never zero.
    pub fn fraction_terms(&self) -> (terms: (usize, usize))
        ensures
            terms == self@.fraction_terms(),
            terms.1 > 0,
    {
        if self.completed == 0 && self.total == 0 {
            (0, 1)
        } else if self.total == 0 {
            (1, 1)
        } else {
            (self.completed, self.total)
        }
    }
}

} // verus!
