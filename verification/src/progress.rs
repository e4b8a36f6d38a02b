//! The progress tree and its operations.

use vstd::prelude::*;
use crate::control::{ControlOp, ControlRun};
use crate::error::ControlError;
use crate::event::{DetachmentEvent, Event, MessageEvent, UpdateEvent};
use crate::generation::Generation;
use crate::id::{IdAllocator, ProgressId};
use crate::node::{steps, Node, NodeView};
use crate::priority::PriorityLevel;
use crate::report::Report;
use crate::reporting::saturated;
use crate::task::{clone_label, State, Task};

verus! {

/// A tree of progress nodes with its generation clock and its observer.
///
/// A tree has one root, which owns its children, and so on down the tree.
/// The operations name a node by its identifier: they act on the first node
/// with that identifier in a depth-first descent (identifiers from one
/// [`IdAllocator`] occur once, so that there is one such node at most).
///
/// An operation that changes a node advances the tree's clock by one, stamps
/// the node with the new generation, and returns the events that the tree's
/// observer is to receive, in the order in which it is to receive them.
#[derive(Debug)]
pub struct Progress<O> {
    /// The tree's observer. All nodes of a tree share the same observer.
    observer: O,
    /// The tree's clock: the generation of the last change in the tree.
    last_tree_change: Generation,
    /// The root node, with the whole tree below it.
    root: Node,
}

/// The mathematical model of a [`Progress`].
pub struct ProgressView<O> {
    /// The tree's observer.
    pub observer: O,
    /// The generation of the last change in the tree.
    pub last_tree_change: Generation,
    /// The model of the root node, with the whole tree below it.
    pub root: NodeView,
}

impl<O> View for Progress<O> {
    type V = ProgressView<O>;

    closed spec fn view(&self) -> ProgressView<O> {
        ProgressView {
            observer: self.observer,
            last_tree_change: self.last_tree_change,
            root: self.root@,
        }
    }
}

impl<O> ProgressView<O> {
    /// The tree after a change that puts `node` in the place that `path`
    /// leads to: the clock has advanced by one, and the node that was put
    /// there is stamped with the new generation.
    pub open spec fn changed_at(self, path: Seq<int>, node: NodeView) -> ProgressView<O> {
        ProgressView {
            last_tree_change: self.last_tree_change.successor(),
            root: self.root.replaced(
                path,
                NodeView { last_change: self.last_tree_change.successor(), ..node },
            ),
            ..self
        }
    }

    /// The tree after a change that puts `node` in the place of the first
    /// node with identifier `id`. Without such a node only the clock
    /// advances.
    pub open spec fn changed(self, id: ProgressId, node: NodeView) -> ProgressView<O> {
        match self.root.path_to(id) {
            Some(path) => self.changed_at(path, node),
            None => self,
        }
    }

    /// The events of a change to the progress `id` in this tree.
    pub open spec fn change_events(self, id: ProgressId) -> Seq<Event> {
        Event::on_change(self.last_tree_change, id)
    }

    /// The tree after an update that turns the task of the node `id` into
    /// `task_after` of it. Without such a node the tree is as it was.
    pub open spec fn updated(self, id: ProgressId, task_after: spec_fn(Task) -> Task)
        -> ProgressView<O> {
        match self.root.find(id) {
            Some(node) => self.changed(id, NodeView { task: task_after(node.task), ..node }),
            None => self,
        }
    }

    /// The tree after a new node for `task`, with identifier `id`, became
    /// the last child of the node `parent`. Without a node `parent` the tree
    /// is as it was.
    pub open spec fn spawned(self, parent: ProgressId, id: ProgressId, task: Task) -> ProgressView<
        O,
    > {
        match self.root.find(parent) {
            Some(node) => self.changed(
                parent,
                NodeView {
                    children: node.children.push(
                        NodeView {
                            id,
                            task,
                            min_priority_level: None,
                            last_change: Generation(0),
                            children: Seq::empty(),
                        },
                    ),
                    ..node
                },
            ),
            None => self,
        }
    }

    /// The tree after the tree `child` became the last child of the node
    /// `parent`: the clocks of the two trees are reconciled to the later of
    /// them, and the attachment is a change to the node `parent`. Without a
    /// node `parent` the tree is as it was.
    pub open spec fn attached(self, parent: ProgressId, child: ProgressView<O>) -> ProgressView<O> {
        match self.root.find(parent) {
            Some(node) => (ProgressView {
                last_tree_change: self.last_tree_change.later(child.last_tree_change),
                ..self
            }).changed(
                parent,
                NodeView { children: node.children.push(child.root), ..node },
            ),
            None => self,
        }
    }

    /// The tree after the first node with identifier `id`, which is not the
    /// root, left it with its subtree: the removal is a change to the node's
    /// parent.
    pub open spec fn detached(self, id: ProgressId) -> ProgressView<O>
        recommends
            self.root.parent_of(id) is Some,
    {
        let path = self.root.path_to(id)->0;
        let parent = self.root.at(path.drop_first());
        self.changed_at(
            path.drop_first(),
            NodeView { children: parent.children.remove(path[0]), ..parent },
        )
    }

    /// The events of the detachment of the node `id` from its parent: the
    /// clock's events, the detachment event of the node, and the update
    /// event of the parent.
    pub open spec fn detach_events(self, id: ProgressId) -> Seq<Event>
        recommends
            self.root.parent_of(id) is Some,
    {
        Event::on_detach(self.last_tree_change, id, self.root.parent_of(id)->0)
    }

    /// Tells whether a message at `level` from the node `id` passes the
    /// filter: there is such a node, and `level` is not below the minimum
    /// level in force at it, where `global_min` is the process-wide default.
    pub open spec fn lets_through(
        self,
        id: ProgressId,
        level: PriorityLevel,
        global_min: PriorityLevel,
    ) -> bool {
        match self.root.find(id) {
            Some(node) => level.rank() >= PriorityLevel::effective_min(
                node.min_priority_level,
                global_min,
            ).rank(),
            None => false,
        }
    }

    /// What the control operation `op` on the node `id` and its subtree comes
    /// to, if there is such a node.
    pub open spec fn control_run(self, id: ProgressId, op: ControlOp) -> Option<ControlRun> {
        match self.root.find(id) {
            Some(node) => Some(node.controlled(op, self.last_tree_change)),
            None => None,
        }
    }

    /// The tree after the control operation `op` on the node `id` and its
    /// subtree. Without such a node the tree is as it was.
    pub open spec fn controlled(self, id: ProgressId, op: ControlOp) -> ProgressView<O> {
        match self.control_run(id, op) {
            Some(run) => ProgressView {
                last_tree_change: run.clock,
                root: self.root.edited(id, run.node),
                ..self
            },
            None => self,
        }
    }

    /// The events of an update of the node `id`: those of a change, if there
    /// is such a node, else none.
    pub open spec fn update_events(self, id: ProgressId) -> Seq<Event> {
        if self.root.contains(id) {
            self.change_events(id)
        } else {
            Seq::empty()
        }
    }
}

/// What [`Progress::new_with_parent`] returns.
#[derive(Debug)]
pub struct Created {
    /// The identifier of the new node.
    pub id: ProgressId,
    /// The events of the change to the parent.
    pub events: Vec<Event>,
}

/// What [`Progress::attach_child`] returns.
#[derive(Debug)]
pub struct Attached<O> {
    /// The observer that the attached tree had, which is no longer used.
    pub observer: O,
    /// The events of the change to the parent.
    pub events: Vec<Event>,
}

/// What [`Progress::detach_from_parent`] returns.
#[derive(Debug)]
pub struct Detached<O> {
    /// The detached subtree as a tree of its own.
    pub progress: Progress<O>,
    /// The events of the removal, which are meant for the observer of the
    /// tree that the subtree was removed from.
    pub events: Vec<Event>,
}

/// What a control operation on a tree returns.
#[derive(Debug)]
pub struct Controlled {
    /// The events of the operation, in their order.
    pub events: Vec<Event>,
    /// Whether the operation got through the whole subtree, or the error of
    /// the first node whose task did not permit it.
    pub result: Result<(), ControlError>,
}

/// Types for generating progress reports.
pub trait Reporter {
    /// The tree that the reports are about.
    spec fn reported(&self) -> NodeView;

    /// Generates the full report.
    ///
    /// The report has the shape of the tree. Each report in it holds the sums
    /// of the effective completed and total units of all nodes below it,
    /// itself included, added with saturation, and the latest change among
    /// them.
    fn report(&self) -> (report: Report)
        ensures
            report@ == self.reported().report(),
            report.completed == saturated(self.reported().completed_units()),
            report.total == saturated(self.reported().total_units()),
            report.completed <= report.total,
    ;

    /// Generates the delta report against `baseline`.
    ///
    /// Returns `None` exactly if no node of the tree was changed after
    /// `baseline`. Else the report holds the delta reports of those children
    /// that have one, in their order. A child without one contributes the
    /// effective units of its own task to the sums, and no sub-report.
    fn partial_report(&self, baseline: Generation) -> (report: Option<Report>)
        ensures
            match report {
                Some(report) => self.reported().partial_report(baseline) == Some(report@),
                None => self.reported().partial_report(baseline) is None,
            },
            report is None <==> !self.reported().changed_after(baseline),
            report is Some ==> report->0.completed <= report->0.total,
    ;
}

/// Tells whether `after` and `outcome` are what the control operation `op`
/// on the node `id` of the tree `before`, with its subtree, comes to, where
/// the first parts of `before` and `after` are the tree and the second parts
/// its clock. Without a node `id` nothing happens.
pub open spec fn control_outcome(
    before: (NodeView, Generation),
    id: ProgressId,
    op: ControlOp,
    after: (NodeView, Generation),
    outcome: Controlled,
) -> bool {
    match before.0.find(id) {
        Some(node) => {
            let run = node.controlled(op, before.1);
            &&& after.0 == before.0.edited(id, run.node)
            &&& after.1 == run.clock
            &&& outcome.events@ == run.events
            &&& outcome.result == match run.error {
                Some(error) => Err::<(), ControlError>(error),
                None => Ok(()),
            }
            &&& outcome.result is Ok <==> node.permits(op)
        },
        None => {
            &&& after == before
            &&& outcome.events@ == Seq::<Event>::empty()
            &&& outcome.result is Ok
        },
    }
}

/// Types for controlling progress-tracked tasks.
///
/// A control operation visits a node and then the subtrees of its children
/// in order. At each node it first asks whether the task permits it. If not,
/// it ends with the error, and what it did before stays: nothing is rolled
/// back. Else it moves the task's state to the target state. Where that is a
/// new state, the node is stamped and gets one update event.
pub trait Controller {
    /// The tree whose tasks are controlled.
    spec fn tree(&self) -> NodeView;

    /// The clock of the tree.
    spec fn clock(&self) -> Generation;

    /// Returns the first node with identifier `id` in a depth-first descent
    /// from the root, the root included, or `None` if there is none.
    fn get(&self, id: ProgressId) -> (found: Option<&Node>)
        ensures
            match found {
                Some(node) => self.tree().find(id) == Some(node@) && node.id == id,
                None => self.tree().find(id) is None,
            },
    ;

    /// Returns `true` if there is a node `id` and its task is cancelable,
    /// otherwise `false`.
    fn is_cancelable(&self, id: ProgressId) -> (cancelable: bool)
        ensures
            cancelable == (self.tree().find(id) is Some && self.tree().find(
                id,
            )->0.task.is_cancelable),
    ;

    /// Returns `true` if there is a node `id` and its task is pausable,
    /// otherwise `false`.
    fn is_pausable(&self, id: ProgressId) -> (pausable: bool)
        ensures
            pausable == (self.tree().find(id) is Some && self.tree().find(id)->0.task.is_pausable),
    ;

    /// Returns `true` if there is a node `id` and its task is canceled,
    /// otherwise `false`.
    fn is_canceled(&self, id: ProgressId) -> (canceled: bool)
        ensures
            canceled == (self.tree().find(id) is Some && self.tree().find(id)->0.task.state
                == State::Canceled),
    ;

    /// Returns `true` if there is a node `id` and its task is paused,
    /// otherwise `false`.
    fn is_paused(&self, id: ProgressId) -> (paused: bool)
        ensures
            paused == (self.tree().find(id) is Some && self.tree().find(id)->0.task.state
                == State::Paused),
    ;

    /// Sets the state of the task of the node `id`, and of all running tasks
    /// below it, to `Paused`.
    ///
    /// Fails with `NotPausable` at the first node whose task is not pausable.
    fn pause(&mut self, id: ProgressId) -> (outcome: Controlled)
        ensures
            control_outcome(
                (old(self).tree(), old(self).clock()),
                id,
                ControlOp::Pause,
                (final(self).tree(), final(self).clock()),
                outcome,
            ),
    ;

    /// Sets the state of the task of the node `id`, and of all paused tasks
    /// below it, to `Running`.
    ///
    /// Fails with `NotPausable` at the first node whose task is not pausable.
    fn resume(&mut self, id: ProgressId) -> (outcome: Controlled)
        ensures
            control_outcome(
                (old(self).tree(), old(self).clock()),
                id,
                ControlOp::Resume,
                (final(self).tree(), final(self).clock()),
                outcome,
            ),
    ;

    /// Sets the state of the task of the node `id`, and of all running and
    /// paused tasks below it, to `Canceled`.
    ///
    /// Fails with `NotCancelable` at the first node whose task is not
    /// cancelable.
    fn cancel(&mut self, id: ProgressId) -> (outcome: Controlled)
        ensures
            control_outcome(
                (old(self).tree(), old(self).clock()),
                id,
                ControlOp::Cancel,
                (final(self).tree(), final(self).clock()),
                outcome,
            ),
    ;
}

/// The model of the node that stands in for a subtree while the subtree is
/// being worked on.
pub open spec fn placeholder() -> NodeView {
    NodeView {
        id: ProgressId(0),
        task: Task::initial(),
        min_priority_level: None,
        last_change: Generation(0),
        children: Seq::empty(),
    }
}

impl<O> Progress<O> {
    /// Takes the subtree that `path` leads to out of the tree, leaving a
    /// placeholder behind.
    fn take(&mut self, path: &Vec<usize>) -> (node: Node)
        requires
            old(self).root@.valid_path(steps(path@)),
        ensures
            node@ == old(self).root@.at(steps(path@)),
            final(self).root@ == old(self).root@.replaced(steps(path@), placeholder()),
            final(self).root@.valid_path(steps(path@)),
            final(self).observer == old(self).observer,
            final(self).last_tree_change == old(self).last_tree_change,
    {
        let mut node = Node::leaf(ProgressId(0), Task::default());
        proof {
            assert(path@.take(path@.len() as int) =~= path@);
            old(self).root@.lemma_replaced(steps(path@), placeholder());
        }
        self.root.swap_at(path, path.len(), &mut node);
        node
    }

    /// Puts `node` in the place that `path` leads to.
    fn put(&mut self, path: &Vec<usize>, node: Node)
        requires
            old(self).root@.valid_path(steps(path@)),
        ensures
            final(self).root@ == old(self).root@.replaced(steps(path@), node@),
            final(self).observer == old(self).observer,
            final(self).last_tree_change == old(self).last_tree_change,
    {
        let mut node = node;
        proof {
            assert(path@.take(path@.len() as int) =~= path@);
        }
        self.root.swap_at(path, path.len(), &mut node);
    }

    /// Advances the tree's clock by one and returns the clock's events.
    fn tick(&mut self) -> (events: Vec<Event>)
        ensures
            final(self).last_tree_change == old(self).last_tree_change.successor(),
            final(self).root == old(self).root,
            final(self).observer == old(self).observer,
            events@ == Event::on_tick(old(self).last_tree_change),
    {
        let (next, overflow) = self.last_tree_change.add(1);
        self.last_tree_change = next;
        let mut events: Vec<Event> = Vec::new();
        if overflow {
            events.push(Event::GenerationOverflow);
        }
        assert(events@ =~= Event::on_tick(old(self).last_tree_change));
        events
    }

    /// Completes a change to the subtree `node`, which was taken from the
    /// place that `path` leads to: advances the clock, stamps the node, puts
    /// it back, and returns the events of the change.
    fn commit(&mut self, path: &Vec<usize>, node: Node) -> (events: Vec<Event>)
        requires
            old(self).root@.valid_path(steps(path@)),
        ensures
            final(self).root@ == old(self).root@.replaced(
                steps(path@),
                NodeView { last_change: old(self).last_tree_change.successor(), ..node@ },
            ),
            final(self).last_tree_change == old(self).last_tree_change.successor(),
            final(self).observer == old(self).observer,
            events@ == Event::on_change(old(self).last_tree_change, node.id),
    {
        let ghost before = node@;
        let mut node = node;
        let mut events = self.tick();
        node.last_change = self.last_tree_change;
        assert(node@ =~= (NodeView {
            last_change: old(self).last_tree_change.successor(),
            ..before
        })) by {
            assert(node@.children =~= before.children);
        }
        events.push(Event::Update(UpdateEvent { id: node.id }));
        self.put(path, node);
        events
    }

    /// Creates a progress tree with a root for the given `task`, whose events
    /// are meant for `observer`.
    ///
    /// The root gets a fresh identifier from `ids` and has no children. The
    /// tree's clock and the root's last change are at the smallest
    /// generation.
    pub fn new(task: Task, observer: O, ids: &mut IdAllocator) -> (progress: Progress<O>)
        ensures
            progress@ == (ProgressView {
                observer,
                last_tree_change: Generation(0),
                root: NodeView {
                    id: ProgressId(old(ids)@),
                    task,
                    min_priority_level: None,
                    last_change: Generation(0),
                    children: Seq::empty(),
                },
            }),
            final(ids)@ == IdAllocator::following(old(ids)@),
            progress@.well_formed(),
            progress@.ids() == Set::<ProgressId>::empty().insert(ProgressId(old(ids)@)),
            progress@.ids_below(old(ids)@ + 1),
    {
        let id = ids.new_unique();
        let progress = Progress {
            observer,
            last_tree_change: Generation::min_value(),
            root: Node::leaf(id, task),
        };
        assert(progress@.ids() =~= Set::<ProgressId>::empty().insert(id));
        progress
    }

    /// Returns the identifier of the tree's root.
    pub fn id(&self) -> (id: ProgressId)
        ensures
            id == self@.root.id,
    {
        self.root.id
    }

    /// Returns the tree's observer.
    pub fn observer(&self) -> (observer: &O)
        ensures
            *observer == self@.observer,
    {
        &self.observer
    }

    /// Returns the generation of the last change in the tree. A delta report
    /// against it shows what has changed since.
    pub fn last_tree_change(&self) -> (generation: Generation)
        ensures
            generation == self@.last_tree_change,
    {
        self.last_tree_change
    }

    /// Returns the tree's root node.
    pub fn root(&self) -> (root: &Node)
        ensures
            root@ == self@.root,
    {
        &self.root
    }

    /// Updates the task of the node `id` by `update_task`, and returns the
    /// events of the change: exactly one update event, however many fields
    /// `update_task` changes, after the clock's overflow event if the clock
    /// wrapped around.
    ///
    /// Without a node `id` nothing happens: `update_task` is not called, and
    /// no event is returned.
    pub fn update<F: FnOnce(Task) -> Task>(
        &mut self,
        id: ProgressId,
        update_task: F,
    ) -> (events: Vec<Event>)
        requires
            old(self)@.root.find(id) is Some ==> update_task.requires(
                (old(self)@.root.find(id)->0.task,),
            ),
        ensures
            match old(self)@.root.find(id) {
                Some(node) => {
                    &&& exists|task: Task|
                        {
                            &&& update_task.ensures((node.task,), task)
                            &&& final(self)@ == old(self)@.changed(
                                id,
                                NodeView { task, ..node },
                            )
                        }
                    &&& events@ == old(self)@.change_events(id)
                    &&& Event::count_updates(events@) == 1
                    &&& Event::count_overflows(events@) == (if old(self)@.last_tree_change.0
                        == usize::MAX {
                        1nat
                    } else {
                        0nat
                    })
                },
                None => final(self)@ == old(self)@ && events@ == Seq::<Event>::empty(),
            },
            old(self)@.well_formed() ==> final(self)@.well_formed() && final(self)@.ids() == old(
                self,
            )@.ids(),
    {
        let path = match self.root.path_to(id) {
            Some(path) => path,
            None => {
                return Vec::new();
            },
        };
        proof {
            self.root@.lemma_path_to(id);
        }
        let node = self.take(&path);
        let ghost before = node@;
        let Node { id: node_id, task, min_priority_level, last_change, children } = node;
        let task = update_task(task);
        let ghost updated = task;
        let node = Node { id: node_id, task, min_priority_level, last_change, children };
        proof {
            assert(node@ =~= (NodeView { task: updated, ..before })) by {
                assert(node@.children =~= before.children);
            }
            old(self).root@.lemma_replaced_twice(
                steps(path@),
                placeholder(),
                NodeView { last_change: old(self).last_tree_change.successor(), ..node@ },
            );
        }
        let events = self.commit(&path, node);
        proof {
            Event::lemma_on_change(old(self).last_tree_change, id);
            assert(update_task.ensures((before.task,), updated));
            assert(self@ == old(self)@.changed(id, NodeView { task: updated, ..before }));
            if old(self)@.well_formed() {
                old(self)@.lemma_changed_well_formed(id, NodeView { task: updated, ..before });
            }
        }
        events
    }

    /// Sets the label of the task of the node `id`, as one update.
    pub fn set_label(&mut self, id: ProgressId, label: Option<String>) -> (events: Vec<Event>)
        ensures
            final(self)@ == old(self)@.updated(id, |task: Task| Task { label, ..task }),
            events@ == old(self)@.update_events(id),
            old(self)@.well_formed() ==> final(self)@.well_formed() && final(self)@.ids() == old(
                self,
            )@.ids(),
    {
        let update_task = |task: Task| -> (updated: Task)
            ensures
                updated == (Task { label, ..task }),
        {
            Task { label, ..task }
        };
        self.update(id, update_task)
    }

    /// Increments the completed unit count of the task of the node `id` by
    /// one, as one update. The count stops at `usize::MAX`.
    pub fn increment_completed(&mut self, id: ProgressId) -> (events: Vec<Event>)
        ensures
            final(self)@ == old(self)@.updated(
                id,
                |task: Task| Task { completed: saturated((task.completed + 1) as nat), ..task },
            ),
            events@ == old(self)@.update_events(id),
            old(self)@.well_formed() ==> final(self)@.well_formed() && final(self)@.ids() == old(
                self,
            )@.ids(),
    {
        self.increment_completed_by(id, 1)
    }

    /// Increments the completed unit count of the task of the node `id` by
    /// `increment`, as one update. The count stops at `usize::MAX`.
    pub fn increment_completed_by(&mut self, id: ProgressId, increment: usize) -> (events: Vec<
        Event,
    >)
        ensures
            final(self)@ == old(self)@.updated(
                id,
                |task: Task|
                    Task { completed: saturated((task.completed + increment) as nat), ..task },
            ),
            events@ == old(self)@.update_events(id),
            old(self)@.well_formed() ==> final(self)@.well_formed() && final(self)@.ids() == old(
                self,
            )@.ids(),
    {
        let update_task = |task: Task| -> (updated: Task)
            ensures
                updated == (Task {
                    completed: saturated((task.completed + increment) as nat),
                    ..task
                }),
        {
            let completed = task.completed.saturating_add(increment);
            Task { completed, ..task }
        };
        self.update(id, update_task)
    }

    /// Sets the completed unit count of the task of the node `id`, as one
    /// update.
    pub fn set_completed(&mut self, id: ProgressId, completed: usize) -> (events: Vec<Event>)
        ensures
            final(self)@ == old(self)@.updated(id, |task: Task| Task { completed, ..task }),
            events@ == old(self)@.update_events(id),
            old(self)@.well_formed() ==> final(self)@.well_formed() && final(self)@.ids() == old(
                self,
            )@.ids(),
    {
        let update_task = |task: Task| -> (updated: Task)
            ensures
                updated == (Task { completed, ..task }),
        {
            Task { completed, ..task }
        };
        self.update(id, update_task)
    }

    /// Sets the total unit count of the task of the node `id`, as one update.
    ///
    /// A total of `0` makes the task's progress indeterminate.
    pub fn set_total(&mut self, id: ProgressId, total: usize) -> (events: Vec<Event>)
        ensures
            final(self)@ == old(self)@.updated(id, |task: Task| Task { total, ..task }),
            events@ == old(self)@.update_events(id),
            old(self)@.well_formed() ==> final(self)@.well_formed() && final(self)@.ids() == old(
                self,
            )@.ids(),
    {
        let update_task = |task: Task| -> (updated: Task)
            ensures
                updated == (Task { total, ..task }),
        {
            Task { total, ..task }
        };
        self.update(id, update_task)
    }

    /// Sets the state of the task of the node `id`, as one update.
    pub fn set_state(&mut self, id: ProgressId, state: State) -> (events: Vec<Event>)
        ensures
            final(self)@ == old(self)@.updated(id, |task: Task| Task { state, ..task }),
            events@ == old(self)@.update_events(id),
            old(self)@.well_formed() ==> final(self)@.well_formed() && final(self)@.ids() == old(
                self,
            )@.ids(),
    {
        let update_task = |task: Task| -> (updated: Task)
            ensures
                updated == (Task { state, ..task }),
        {
            Task { state, ..task }
        };
        self.update(id, update_task)
    }

    /// Sets whether the task of the node `id` can be canceled, as one update.
    pub fn set_cancelable(&mut self, id: ProgressId, cancelable: bool) -> (events: Vec<Event>)
        ensures
            final(self)@ == old(self)@.updated(
                id,
                |task: Task| Task { is_cancelable: cancelable, ..task },
            ),
            events@ == old(self)@.update_events(id),
            old(self)@.well_formed() ==> final(self)@.well_formed() && final(self)@.ids() == old(
                self,
            )@.ids(),
    {
        let update_task = |task: Task| -> (updated: Task)
            ensures
                updated == (Task { is_cancelable: cancelable, ..task }),
        {
            Task { is_cancelable: cancelable, ..task }
        };
        self.update(id, update_task)
    }

    /// Sets whether the task of the node `id` can be paused, as one update.
    pub fn set_pausable(&mut self, id: ProgressId, pausable: bool) -> (events: Vec<Event>)
        ensures
            final(self)@ == old(self)@.updated(
                id,
                |task: Task| Task { is_pausable: pausable, ..task },
            ),
            events@ == old(self)@.update_events(id),
            old(self)@.well_formed() ==> final(self)@.well_formed() && final(self)@.ids() == old(
                self,
            )@.ids(),
    {
        let update_task = |task: Task| -> (updated: Task)
            ensures
                updated == (Task { is_pausable: pausable, ..task }),
        {
            Task { is_pausable: pausable, ..task }
        };
        self.update(id, update_task)
    }

    /// Returns a copy of the label of the task of the node `id`, or `None`
    /// if there is no such node.
    pub fn label(&self, id: ProgressId) -> (label: Option<Option<String>>)
        ensures
            label == match self@.root.find(id) {
                Some(node) => Some(node.task.label),
                None => None,
            },
    {
        match self.root.get(id) {
            Some(node) => Some(clone_label(&node.task.label)),
            None => None,
        }
    }

    /// Returns the completed unit count of the task of the node `id`, or
    /// `None` if there is no such node.
    pub fn completed(&self, id: ProgressId) -> (completed: Option<usize>)
        ensures
            completed == match self@.root.find(id) {
                Some(node) => Some(node.task.completed),
                None => None,
            },
    {
        match self.root.get(id) {
            Some(node) => Some(node.task.completed),
            None => None,
        }
    }

    /// Returns the total unit count of the task of the node `id`, or `None`
    /// if there is no such node.
    pub fn total(&self, id: ProgressId) -> (total: Option<usize>)
        ensures
            total == match self@.root.find(id) {
                Some(node) => Some(node.task.total),
                None => None,
            },
    {
        match self.root.get(id) {
            Some(node) => Some(node.task.total),
            None => None,
        }
    }

    /// Returns the state of the task of the node `id`, or `None` if there is
    /// no such node.
    pub fn state(&self, id: ProgressId) -> (state: Option<State>)
        ensures
            state == match self@.root.find(id) {
                Some(node) => Some(node.task.state),
                None => None,
            },
    {
        match self.root.get(id) {
            Some(node) => Some(node.task.state),
            None => None,
        }
    }

    /// Creates a node for `task` as the last child of the node `parent`, and
    /// returns its identifier with the events of the change to the parent.
    ///
    /// The child gets a fresh identifier from `ids` and has no children; its
    /// last change is at the smallest generation until it is first changed.
    /// The parent is stamped and gets the update event.
    ///
    /// Without a node `parent` nothing happens, and no identifier is used.
    pub fn new_with_parent(
        &mut self,
        task: Task,
        parent: ProgressId,
        ids: &mut IdAllocator,
    ) -> (created: Option<Created>)
        ensures
            created is Some <==> old(self)@.root.contains(parent),
            created is Some ==> {
                &&& created->0.id == ProgressId(old(ids)@)
                &&& created->0.events@ == old(self)@.change_events(parent)
                &&& final(ids)@ == IdAllocator::following(old(ids)@)
                &&& final(self)@ == old(self)@.spawned(parent, created->0.id, task)
            },
            created is None ==> final(self)@ == old(self)@ && *final(ids) == *old(ids),
            old(self)@.well_formed() && !old(self)@.root.contains(ProgressId(old(ids)@))
                ==> final(self)@.well_formed(),
            old(self)@.well_formed() && !old(self)@.root.contains(ProgressId(old(ids)@))
                && created is Some ==> final(self)@.ids() == old(self)@.ids().insert(
                created->0.id,
            ),
            old(self)@.well_formed() && old(self)@.ids_below(old(ids)@ as int) ==> {
                &&& final(self)@.well_formed()
                &&& final(self)@.ids_below(old(ids)@ + 1)
            },
    {
        let path = match self.root.path_to(parent) {
            Some(path) => path,
            None => {
                return None;
            },
        };
        proof {
            self.root@.lemma_path_to(parent);
        }
        let id = ids.new_unique();
        let child = Node::leaf(id, task);
        let mut node = self.take(&path);
        let ghost before = node@;
        node.children.push(child);
        proof {
            assert(node@ =~= (NodeView { children: before.children.push(child@), ..before })) by {
                assert(node@.children =~= before.children.push(child@));
            }
            old(self).root@.lemma_replaced_twice(
                steps(path@),
                placeholder(),
                NodeView { last_change: old(self).last_tree_change.successor(), ..node@ },
            );
        }
        let events = self.commit(&path, node);
        proof {
            if old(self)@.well_formed() && old(self)@.ids_below(id.0 as int) {
                old(self)@.lemma_ids_below_fresh(id.0 as int, id);
            }
            if old(self)@.well_formed() && !old(self)@.root.contains(id) {
                old(self)@.lemma_spawned_well_formed(parent, id, task);
            }
        }
        Some(Created { id, events })
    }

    /// Attaches the tree `child` to the node `parent` as its last child, and
    /// returns the observer that `child` had, which is no longer used, with
    /// the events of the change to the parent.
    ///
    /// The attached nodes are observed by this tree's observer from now on,
    /// and stamped by this tree's clock, which first moves to the later of
    /// the two trees' clocks. The parent is stamped and gets the update
    /// event.
    ///
    /// Without a node `parent` nothing happens, and `child` is handed back.
    pub fn attach_child(&mut self, parent: ProgressId, child: Progress<O>) -> (attached: Result<
        Attached<O>,
        Progress<O>,
    >)
        ensures
            attached is Ok <==> old(self)@.root.contains(parent),
            attached is Ok ==> {
                &&& attached->Ok_0.observer == child@.observer
                &&& attached->Ok_0.events@ == Event::on_change(
                    old(self)@.last_tree_change.later(child@.last_tree_change),
                    parent,
                )
                &&& final(self)@ == old(self)@.attached(parent, child@)
            },
            attached is Err ==> attached->Err_0 == child && final(self)@ == old(self)@,
            old(self)@.well_formed() && child@.well_formed() && old(self)@.ids().disjoint(
                child@.ids(),
            ) ==> final(self)@.well_formed(),
            old(self)@.well_formed() && child@.well_formed() && old(self)@.ids().disjoint(
                child@.ids(),
            ) && attached is Ok ==> final(self)@.ids() == old(self)@.ids().union(child@.ids()),
    {
        let path = match self.root.path_to(parent) {
            Some(path) => path,
            None => {
                return Err(child);
            },
        };
        proof {
            self.root@.lemma_path_to(parent);
        }
        let Progress { observer, last_tree_change, root } = child;
        self.last_tree_change = self.last_tree_change.max(last_tree_change);
        let ghost clock = self.last_tree_change;
        let mut node = self.take(&path);
        let ghost before = node@;
        node.children.push(root);
        proof {
            assert(node@ =~= (NodeView { children: before.children.push(root@), ..before })) by {
                assert(node@.children =~= before.children.push(root@));
            }
            old(self).root@.lemma_replaced_twice(
                steps(path@),
                placeholder(),
                NodeView { last_change: clock.successor(), ..node@ },
            );
        }
        let events = self.commit(&path, node);
        proof {
            if old(self)@.well_formed() && child@.well_formed() && old(self)@.ids().disjoint(
                child@.ids(),
            ) {
                old(self)@.lemma_attached_well_formed(parent, child@);
            }
        }
        Ok(Attached { observer, events })
    }

    /// Detaches the node `id` with its subtree from its parent, and returns
    /// the subtree as a tree of its own, observed by `observer`, with the
    /// events of the removal, which are meant for this tree's observer: the
    /// detachment event of the node, then the update event of the parent.
    ///
    /// The parent is stamped. The new tree's clock starts at this tree's
    /// clock after the removal.
    ///
    /// Where the node `id` is the root, or is missing, nothing happens, and
    /// `observer` is handed back.
    pub fn detach_from_parent(&mut self, id: ProgressId, observer: O) -> (detached: Result<
        Detached<O>,
        O,
    >)
        ensures
            detached is Ok <==> old(self)@.root.parent_of(id) is Some,
            detached is Ok ==> {
                &&& detached->Ok_0.progress@ == (ProgressView {
                    observer,
                    last_tree_change: old(self)@.last_tree_change.successor(),
                    root: old(self)@.root.find(id)->0,
                })
                &&& detached->Ok_0.progress@.root.id == id
                &&& detached->Ok_0.events@ == old(self)@.detach_events(id)
                &&& final(self)@ == old(self)@.detached(id)
            },
            detached is Err ==> detached->Err_0 == observer && final(self)@ == old(self)@,
            old(self)@.well_formed() ==> final(self)@.well_formed(),
            old(self)@.well_formed() && detached is Ok ==> {
                &&& detached->Ok_0.progress@.well_formed()
                &&& final(self)@.ids() == old(self)@.ids().difference(
                    detached->Ok_0.progress@.ids(),
                )
                &&& detached->Ok_0.progress@.ids().subset_of(old(self)@.ids())
            },
    {
        let mut path = match self.root.path_to(id) {
            Some(path) => path,
            None => {
                return Err(observer);
            },
        };
        if path.len() == 0 {
            return Err(observer);
        }
        let ghost full = steps(path@);
        proof {
            self.root@.lemma_path_to(id);
            self.root@.lemma_parent_path(full);
        }
        let index = path.remove(0);
        proof {
            assert(steps(path@) =~= full.drop_first());
            assert(index == full[0]);
        }
        let mut parent = self.take(&path);
        let ghost before = parent@;
        proof {
            assert(before.children.len() == parent.children.len());
            assert(before.children[index as int] == parent.children[index as int]@);
        }
        let node = parent.children.remove(index);
        let mut events = self.tick();
        parent.last_change = self.last_tree_change;
        proof {
            assert(parent@ =~= (NodeView {
                children: before.children.remove(index as int),
                last_change: old(self).last_tree_change.successor(),
                ..before
            })) by {
                assert(parent@.children =~= before.children.remove(index as int));
            }
            old(self).root@.lemma_replaced_twice(steps(path@), placeholder(), parent@);
        }
        events.push(Event::Detachment(DetachmentEvent { id }));
        events.push(Event::Update(UpdateEvent { id: parent.id }));
        self.put(&path, parent);
        let progress = Progress { observer, last_tree_change: self.last_tree_change, root: node };
        proof {
            if old(self)@.well_formed() {
                old(self)@.lemma_detached_well_formed(id);
            }
        }
        Ok(Detached { progress, events })
    }

    /// Detaches the node `child` from the node `parent`, as
    /// [`Progress::detach_from_parent`] does.
    ///
    /// The node `child` must be a child of the node `parent`.
    pub fn detach_child(
        &mut self,
        parent: ProgressId,
        child: ProgressId,
        observer: O,
    ) -> (detached: Detached<O>)
        requires
            old(self)@.root.parent_of(child) == Some(parent),
        ensures
            detached.progress@ == (ProgressView {
                observer,
                last_tree_change: old(self)@.last_tree_change.successor(),
                root: old(self)@.root.find(child)->0,
            }),
            detached.progress@.root.id == child,
            detached.events@ == old(self)@.detach_events(child),
            final(self)@ == old(self)@.detached(child),
            old(self)@.well_formed() ==> {
                &&& final(self)@.well_formed()
                &&& detached.progress@.well_formed()
                &&& final(self)@.ids() == old(self)@.ids().difference(detached.progress@.ids())
                &&& detached.progress@.ids().subset_of(old(self)@.ids())
            },
    {
        match self.detach_from_parent(child, observer) {
            Ok(detached) => detached,
            Err(observer) => {
                proof {
                    assert(false);
                }
                let root = Node::leaf(child, Task::default());
                let progress = Progress { observer, last_tree_change: self.last_tree_change, root };
                Detached { progress, events: Vec::new() }
            },
        }
    }

    /// Returns the identifier of the parent of the node `id`, or `None` if
    /// the node is the root or is missing.
    pub fn parent(&self, id: ProgressId) -> (parent: Option<ProgressId>)
        ensures
            parent == self@.root.parent_of(id),
    {
        let mut path = match self.root.path_to(id) {
            Some(path) => path,
            None => {
                return None;
            },
        };
        if path.len() == 0 {
            return None;
        }
        let ghost full = steps(path@);
        proof {
            self.root@.lemma_path_to(id);
            self.root@.lemma_parent_path(full);
        }
        path.remove(0);
        proof {
            assert(steps(path@) =~= full.drop_first());
            assert(path@.take(path@.len() as int) =~= path@);
        }
        Some(self.root.node_at(&path, path.len()).id)
    }

    /// Returns the identifiers of the children of the node `id`, in the
    /// order in which the children were added, or `None` if there is no such
    /// node.
    pub fn children(&self, id: ProgressId) -> (children: Option<Vec<ProgressId>>)
        ensures
            match self@.root.find(id) {
                Some(node) => children is Some && children->0@ == node.child_ids(),
                None => children is None,
            },
    {
        match self.root.get(id) {
            Some(node) => Some(node.child_ids()),
            None => None,
        }
    }

    /// Returns the child with identifier `id` of the node `parent`, or `None`
    /// if there is no such node or no such child of it.
    pub fn child(&self, parent: ProgressId, id: ProgressId) -> (child: Option<&Node>)
        ensures
            match self@.root.find(parent) {
                Some(node) => match node.child_index(node.children.len(), id) {
                    Some(index) => child is Some && child->0@ == node.children[index]
                        && child->0.id == id,
                    None => child is None,
                },
                None => child is None,
            },
    {
        match self.root.get(parent) {
            Some(node) => node.child(id),
            None => None,
        }
    }

    /// Overrides, for the node `id`, the process-wide minimum priority level
    /// of messages, or with `None` removes the override. Tells whether there
    /// is such a node. This is no change to the node's task: the clock
    /// stands still, and there is no event.
    pub fn set_min_priority_level(
        &mut self,
        id: ProgressId,
        level: Option<PriorityLevel>,
    ) -> (found: bool)
        ensures
            found == old(self)@.root.contains(id),
            final(self)@ == match old(self)@.root.find(id) {
                Some(node) => ProgressView {
                    root: old(self)@.root.edited(
                        id,
                        NodeView { min_priority_level: level, ..node },
                    ),
                    ..old(self)@
                },
                None => old(self)@,
            },
            old(self)@.well_formed() ==> final(self)@.well_formed() && final(self)@.ids() == old(
                self,
            )@.ids(),
    {
        let path = match self.root.path_to(id) {
            Some(path) => path,
            None => {
                return false;
            },
        };
        proof {
            self.root@.lemma_path_to(id);
        }
        let mut node = self.take(&path);
        let ghost before = node@;
        node.min_priority_level = level;
        proof {
            assert(node@ =~= (NodeView { min_priority_level: level, ..before })) by {
                assert(node@.children =~= before.children);
            }
            old(self).root@.lemma_replaced_twice(steps(path@), placeholder(), node@);
            if old(self)@.well_formed() {
                old(self)@.lemma_changed_well_formed(id, node@);
            }
        }
        self.put(&path, node);
        true
    }

    /// Returns the minimum priority level in force at the node `id`: the
    /// node's override if it has one, else `global_min`, the process-wide
    /// default. Returns `None` if there is no such node.
    pub fn min_priority_level(&self, id: ProgressId, global_min: PriorityLevel) -> (level: Option<
        PriorityLevel,
    >)
        ensures
            level == match self@.root.find(id) {
                Some(node) => Some(
                    PriorityLevel::effective_min(node.min_priority_level, global_min),
                ),
                None => None,
            },
    {
        match self.root.get(id) {
            Some(node) => Some(
                PriorityLevel::effective_min_level(node.min_priority_level, global_min),
            ),
            None => None,
        }
    }

    /// Posts a message at `level` from the node `id`, and returns the message
    /// event, or `None` if the message is filtered out.
    ///
    /// The message is filtered out if `level` is below the minimum level in
    /// force at the node, where `global_min` is the process-wide default, or
    /// if there is no such node. Then `message` is not called. Else it is
    /// called once, and what it returns is the event's message.
    pub fn message<F: FnOnce() -> String>(
        &self,
        id: ProgressId,
        message: F,
        level: PriorityLevel,
        global_min: PriorityLevel,
    ) -> (event: Option<Event>)
        requires
            self@.lets_through(id, level, global_min) ==> message.requires(()),
        ensures
            !self@.lets_through(id, level, global_min) ==> event is None,
            self@.lets_through(id, level, global_min) ==> event is Some && exists|text: String|
                message.ensures((), text) && event->0 == Event::message(id, text, level),
    {
        let min = match self.min_priority_level(id, global_min) {
            Some(min) => min,
            None => {
                return None;
            },
        };
        if !level.passes(min) {
            return None;
        }
        let text = message();
        let event = Event::Message(MessageEvent { id, message: text, priority: level });
        assert(message.ensures((), text) && event == Event::message(id, text, level));
        Some(event)
    }

    /// Posts a message with a priority level of `PriorityLevel::Error`.
    ///
    /// See [`Progress::message`] for the filtering.
    pub fn error<F: FnOnce() -> String>(
        &self,
        id: ProgressId,
        message: F,
        global_min: PriorityLevel,
    ) -> (event: Option<Event>)
        requires
            self@.lets_through(id, PriorityLevel::Error, global_min) ==> message.requires(()),
        ensures
            !self@.lets_through(id, PriorityLevel::Error, global_min) ==> event is None,
            self@.lets_through(id, PriorityLevel::Error, global_min) ==> event is Some && exists|
                text: String,
            |
                message.ensures((), text) && event->0 == Event::message(
                    id,
                    text,
                    PriorityLevel::Error,
                ),
    {
        self.message(id, message, PriorityLevel::Error, global_min)
    }

    /// Posts a message with a priority level of `PriorityLevel::Warn`.
    ///
    /// See [`Progress::message`] for the filtering.
    pub fn warn<F: FnOnce() -> String>(
        &self,
        id: ProgressId,
        message: F,
        global_min: PriorityLevel,
    ) -> (event: Option<Event>)
        requires
            self@.lets_through(id, PriorityLevel::Warn, global_min) ==> message.requires(()),
        ensures
            !self@.lets_through(id, PriorityLevel::Warn, global_min) ==> event is None,
            self@.lets_through(id, PriorityLevel::Warn, global_min) ==> event is Some && exists|
                text: String,
            |
                message.ensures((), text) && event->0 == Event::message(
                    id,
                    text,
                    PriorityLevel::Warn,
                ),
    {
        self.message(id, message, PriorityLevel::Warn, global_min)
    }

    /// Posts a message with a priority level of `PriorityLevel::Debug`.
    ///
    /// See [`Progress::message`] for the filtering.
    pub fn debug<F: FnOnce() -> String>(
        &self,
        id: ProgressId,
        message: F,
        global_min: PriorityLevel,
    ) -> (event: Option<Event>)
        requires
            self@.lets_through(id, PriorityLevel::Debug, global_min) ==> message.requires(()),
        ensures
            !self@.lets_through(id, PriorityLevel::Debug, global_min) ==> event is None,
            self@.lets_through(id, PriorityLevel::Debug, global_min) ==> event is Some && exists|
                text: String,
            |
                message.ensures((), text) && event->0 == Event::message(
                    id,
                    text,
                    PriorityLevel::Debug,
                ),
    {
        self.message(id, message, PriorityLevel::Debug, global_min)
    }

    /// Posts a message with a priority level of `PriorityLevel::Info`.
    ///
    /// See [`Progress::message`] for the filtering.
    pub fn info<F: FnOnce() -> String>(
        &self,
        id: ProgressId,
        message: F,
        global_min: PriorityLevel,
    ) -> (event: Option<Event>)
        requires
            self@.lets_through(id, PriorityLevel::Info, global_min) ==> message.requires(()),
        ensures
            !self@.lets_through(id, PriorityLevel::Info, global_min) ==> event is None,
            self@.lets_through(id, PriorityLevel::Info, global_min) ==> event is Some && exists|
                text: String,
            |
                message.ensures((), text) && event->0 == Event::message(
                    id,
                    text,
                    PriorityLevel::Info,
                ),
    {
        self.message(id, message, PriorityLevel::Info, global_min)
    }

    /// Posts a message with a priority level of `PriorityLevel::Trace`.
    ///
    /// See [`Progress::message`] for the filtering.
    pub fn trace<F: FnOnce() -> String>(
        &self,
        id: ProgressId,
        message: F,
        global_min: PriorityLevel,
    ) -> (event: Option<Event>)
        requires
            self@.lets_through(id, PriorityLevel::Trace, global_min) ==> message.requires(()),
        ensures
            !self@.lets_through(id, PriorityLevel::Trace, global_min) ==> event is None,
            self@.lets_through(id, PriorityLevel::Trace, global_min) ==> event is Some && exists|
                text: String,
            |
                message.ensures((), text) && event->0 == Event::message(
                    id,
                    text,
                    PriorityLevel::Trace,
                ),
    {
        self.message(id, message, PriorityLevel::Trace, global_min)
    }

    /// Performs the control operation `op` on the node `id` and its subtree.
    ///
    /// The operation visits the node and then the subtrees of its children
    /// in order. At each node it first asks whether the task permits it. If
    /// not, it ends with the error, and what it did before stays: nothing is
    /// rolled back. Else it moves the task's state to the target state. Where
    /// that is a new state, the node is stamped and gets one update event.
    ///
    /// Without a node `id` nothing happens.
    pub fn control(&mut self, id: ProgressId, op: ControlOp) -> (outcome: Controlled)
        ensures
            final(self)@ == old(self)@.controlled(id, op),
            control_outcome(
                (old(self)@.root, old(self)@.last_tree_change),
                id,
                op,
                (final(self)@.root, final(self)@.last_tree_change),
                outcome,
            ),
            old(self)@.well_formed() ==> final(self)@.well_formed() && final(self)@.ids() == old(
                self,
            )@.ids(),
    {
        let path = match self.root.path_to(id) {
            Some(path) => path,
            None => {
                return Controlled { events: Vec::new(), result: Ok(()) };
            },
        };
        proof {
            self.root@.lemma_path_to(id);
            self.root@.at(steps(path@)).lemma_controlled_error(op, self.last_tree_change);
        }
        let mut node = self.take(&path);
        let ghost before = node@;
        let mut events: Vec<Event> = Vec::new();
        let result = node.control(op, &mut self.last_tree_change, &mut events);
        proof {
            let run = before.controlled(op, old(self).last_tree_change);
            assert(events@ =~= run.events);
            old(self).root@.lemma_replaced_twice(steps(path@), placeholder(), run.node);
            if old(self)@.well_formed() {
                old(self)@.lemma_controlled_well_formed(id, op);
            }
        }
        self.put(&path, node);
        Controlled { events, result }
    }

}

impl<O> Reporter for Progress<O> {
    open spec fn reported(&self) -> NodeView {
        self@.root
    }

    fn report(&self) -> (report: Report) {
        self.root.report()
    }

    fn partial_report(&self, baseline: Generation) -> (report: Option<Report>) {
        self.root.partial_report(baseline)
    }
}

impl Reporter for Node {
    open spec fn reported(&self) -> NodeView {
        self@
    }

    fn report(&self) -> (report: Report) {
        Node::report(self)
    }

    fn partial_report(&self, baseline: Generation) -> (report: Option<Report>) {
        Node::partial_report(self, baseline)
    }
}

impl<O> Controller for Progress<O> {
    open spec fn tree(&self) -> NodeView {
        self@.root
    }

    open spec fn clock(&self) -> Generation {
        self@.last_tree_change
    }

    fn get(&self, id: ProgressId) -> (found: Option<&Node>) {
        self.root.get(id)
    }

    fn is_cancelable(&self, id: ProgressId) -> (cancelable: bool) {
        match self.root.get(id) {
            Some(node) => node.task.is_cancelable,
            None => false,
        }
    }

    fn is_pausable(&self, id: ProgressId) -> (pausable: bool) {
        match self.root.get(id) {
            Some(node) => node.task.is_pausable,
            None => false,
        }
    }

    fn is_canceled(&self, id: ProgressId) -> (canceled: bool) {
        match self.root.get(id) {
            Some(node) => node.task.state == State::Canceled,
            None => false,
        }
    }

    fn is_paused(&self, id: ProgressId) -> (paused: bool) {
        match self.root.get(id) {
            Some(node) => node.task.state == State::Paused,
            None => false,
        }
    }

    fn pause(&mut self, id: ProgressId) -> (outcome: Controlled)
        ensures
            final(self)@ == old(self)@.controlled(id, ControlOp::Pause),
            old(self)@.well_formed() ==> final(self)@.well_formed() && final(self)@.ids() == old(
                self,
            )@.ids(),
    {
        self.control(id, ControlOp::Pause)
    }

    fn resume(&mut self, id: ProgressId) -> (outcome: Controlled)
        ensures
            final(self)@ == old(self)@.controlled(id, ControlOp::Resume),
            old(self)@.well_formed() ==> final(self)@.well_formed() && final(self)@.ids() == old(
                self,
            )@.ids(),
    {
        self.control(id, ControlOp::Resume)
    }

    fn cancel(&mut self, id: ProgressId) -> (outcome: Controlled)
        ensures
            final(self)@ == old(self)@.controlled(id, ControlOp::Cancel),
            old(self)@.well_formed() ==> final(self)@.well_formed() && final(self)@.ids() == old(
                self,
            )@.ids(),
    {
        self.control(id, ControlOp::Cancel)
    }
}

} // verus!
