//! Control of the tasks of a progress tree: pause, resume and cancel.

use vstd::prelude::*;
use crate::error::ControlError;
use crate::event::{Event, UpdateEvent};
use crate::generation::Generation;
use crate::node::{Node, NodeView};
use crate::task::{State, Task};

verus! {

/// A control operation on the tasks of a subtree.
#[derive(Copy, Clone, PartialEq, Eq, Structural, Debug)]
pub enum ControlOp {
    /// Pause the running tasks.
    Pause,
    /// Resume the paused tasks.
    Resume,
    /// Cancel the running and the paused tasks.
    Cancel,
}

impl ControlOp {
    /// Tells whether a task permits the operation: pausing and resuming need
    /// a pausable task, canceling needs a cancelable one.
    pub open spec fn permitted(self, task: Task) -> bool {
        match self {
            ControlOp::Pause => task.is_pausable,
            ControlOp::Resume => task.is_pausable,
            ControlOp::Cancel => task.is_cancelable,
        }
    }

    /// The error for a task that does not permit the operation.
    pub open spec fn refusal(self) -> ControlError {
        match self {
            ControlOp::Pause => ControlError::NotPausable,
            ControlOp::Resume => ControlError::NotPausable,
            ControlOp::Cancel => ControlError::NotCancelable,
        }
    }

    /// The state that the operation leaves a task in that was in `state`:
    /// pausing takes `Running` to `Paused`, resuming takes `Paused` to
    /// `Running`, canceling takes `Running` and `Paused` to `Canceled`, and
    /// every other state stays.
    pub open spec fn target(self, state: State) -> State {
        match (self, state) {
            (ControlOp::Pause, State::Running) => State::Paused,
            (ControlOp::Resume, State::Paused) => State::Running,
            (ControlOp::Cancel, State::Running) => State::Canceled,
            (ControlOp::Cancel, State::Paused) => State::Canceled,
            _ => state,
        }
    }

    /// Tells whether `task` permits the operation.
    pub fn is_permitted(self, task: &Task) -> (permitted: bool)
        ensures
            permitted == self.permitted(*task),
    {
        match self {
            ControlOp::Pause => task.is_pausable,
            ControlOp::Resume => task.is_pausable,
            ControlOp::Cancel => task.is_cancelable,
        }
    }

    /// Returns the error for a task that does not permit the operation.
    pub fn error(self) -> (error: ControlError)
        ensures
            error == self.refusal(),
    {
        match self {
            ControlOp::Pause => ControlError::NotPausable,
            ControlOp::Resume => ControlError::NotPausable,
            ControlOp::Cancel => ControlError::NotCancelable,
        }
    }

    /// Returns the state that the operation leaves a task in that was in
    /// `state`.
    pub fn apply(self, state: State) -> (after: State)
        ensures
            after == self.target(state),
    {
        match self {
            ControlOp::Pause => match state {
                State::Running => State::Paused,
                _ => state,
            },
            ControlOp::Resume => match state {
                State::Paused => State::Running,
                _ => state,
            },
            ControlOp::Cancel => match state {
                State::Running => State::Canceled,
                State::Paused => State::Canceled,
                _ => state,
            },
        }
    }
}

/// What a control operation on a subtree comes to.
pub struct ControlRun {
    /// The subtree after the operation.
    pub node: NodeView,
    /// The tree's clock after the operation.
    pub clock: Generation,
    /// The events of the operation, in their order.
    pub events: Seq<Event>,
    /// The error that ended the operation early, if one did.
    pub error: Option<ControlError>,
}

/// What a control operation on a sequence of subtrees comes to.
pub struct ControlRuns {
    /// The subtrees after the operation.
    pub nodes: Seq<NodeView>,
    /// The tree's clock after the operation.
    pub clock: Generation,
    /// The events of the operation, in their order.
    pub events: Seq<Event>,
    /// The error that ended the operation early, if one did.
    pub error: Option<ControlError>,
}

impl NodeView {
    /// What the control operation `op` on the tree comes to, where `clock`
    /// is the tree's clock before it.
    ///
    /// The operation visits the root and then the subtrees of the children
    /// in order, and ends at the first node whose task does not permit it,
    /// with that node's error. What it did before stays. At a node whose
    /// task permits it, it moves the task's state to the target state. If
    /// that is a new state, this is a change to the node: the clock advances,
    /// the node is stamped, and the change's events are emitted.
    pub open spec fn controlled(self, op: ControlOp, clock: Generation) -> ControlRun
        decreases self,
    {
        if !op.permitted(self.task) {
            ControlRun { node: self, clock, events: Seq::empty(), error: Some(op.refusal()) }
        } else {
            let moved = op.target(self.task.state) != self.task.state;
            let below = Self::controlled_among(
                self.children,
                self.children.len(),
                op,
                if moved {
                    clock.successor()
                } else {
                    clock
                },
            );
            ControlRun {
                node: NodeView {
                    task: Task { state: op.target(self.task.state), ..self.task },
                    last_change: if moved {
                        clock.successor()
                    } else {
                        self.last_change
                    },
                    children: below.nodes,
                    ..self
                },
                clock: below.clock,
                events: if moved {
                    Event::on_change(clock, self.id) + below.events
                } else {
                    below.events
                },
                error: below.error,
            }
        }
    }

    /// What the control operation `op` on the first `n` trees of `nodes`, one
    /// after the other, comes to.
    pub open spec fn controlled_among(
        nodes: Seq<NodeView>,
        n: nat,
        op: ControlOp,
        clock: Generation,
    ) -> ControlRuns
        decreases nodes, n,
    {
        if n == 0 || n > nodes.len() {
            ControlRuns { nodes, clock, events: Seq::empty(), error: None }
        } else {
            let before = Self::controlled_among(nodes, (n - 1) as nat, op, clock);
            if before.error is Some {
                before
            } else {
                let run = nodes[n - 1].controlled(op, before.clock);
                ControlRuns {
                    nodes: before.nodes.update(n - 1, run.node),
                    clock: run.clock,
                    events: before.events + run.events,
                    error: run.error,
                }
            }
        }
    }

    /// Tells whether the task of every node of the tree permits `op`.
    pub open spec fn permits(self, op: ControlOp) -> bool
        decreases self,
    {
        &&& op.permitted(self.task)
        &&& forall|i: int|
            0 <= i < self.children.len() ==> (#[trigger] self.children[i]).permits(op)
    }

    /// The tree with the state of every task moved to the target state of
    /// `op`, whatever else may have changed.
    pub open spec fn moved_by(self, op: ControlOp, after: NodeView) -> bool
        decreases self,
    {
        &&& after.id == self.id
        &&& after.task == (Task { state: op.target(self.task.state), ..self.task })
        &&& after.min_priority_level == self.min_priority_level
        &&& after.children.len() == self.children.len()
        &&& forall|i: int|
            0 <= i < self.children.len() ==> (#[trigger] self.children[i]).moved_by(
                op,
                after.children[i],
            )
    }

    /// The number of nodes of the tree whose task's state `op` changes.
    pub open spec fn count_moved(self, op: ControlOp) -> nat
        decreases self,
    {
        (if op.target(self.task.state) != self.task.state {
            1nat
        } else {
            0nat
        }) + Self::count_moved_among(self.children, self.children.len(), op)
    }

    /// The number of nodes of the first `n` trees of `nodes` whose task's
    /// state `op` changes.
    pub open spec fn count_moved_among(nodes: Seq<NodeView>, n: nat, op: ControlOp) -> nat
        decreases nodes, n,
    {
        if n == 0 || n > nodes.len() {
            0
        } else {
            Self::count_moved_among(nodes, (n - 1) as nat, op) + nodes[n - 1].count_moved(op)
        }
    }

    /// Control recurses: on a tree all of whose tasks permit the operation,
    /// it ends without an error, has moved the state of every task to the
    /// target state, and has changed nothing else but the stamps.
    pub proof fn lemma_controlled_permitted(self, op: ControlOp, clock: Generation)
        requires
            self.permits(op),
        ensures
            self.controlled(op, clock).error is None,
            self.moved_by(op, self.controlled(op, clock).node),
        decreases self,
    {
        Self::lemma_controlled_among_permitted(
            self.children,
            self.children.len(),
            op,
            if op.target(self.task.state) != self.task.state {
                clock.successor()
            } else {
                clock
            },
        );
    }

    /// Control recurses, for the first `n` trees of a sequence.
    pub proof fn lemma_controlled_among_permitted(
        nodes: Seq<NodeView>,
        n: nat,
        op: ControlOp,
        clock: Generation,
    )
        requires
            n <= nodes.len(),
            forall|i: int| 0 <= i < n ==> (#[trigger] nodes[i]).permits(op),
        ensures
            Self::controlled_among(nodes, n, op, clock).error is None,
            Self::controlled_among(nodes, n, op, clock).nodes.len() == nodes.len(),
            forall|i: int|
                0 <= i < n ==> (#[trigger] nodes[i]).moved_by(
                    op,
                    Self::controlled_among(nodes, n, op, clock).nodes[i],
                ),
            forall|i: int|
                n <= i < nodes.len() ==> Self::controlled_among(nodes, n, op, clock).nodes[i]
                    == nodes[i],
        decreases nodes, n,
    {
        if n > 0 {
            let before = Self::controlled_among(nodes, (n - 1) as nat, op, clock);
            Self::lemma_controlled_among_permitted(nodes, (n - 1) as nat, op, clock);
            nodes[n - 1].lemma_controlled_permitted(op, before.clock);
        }
    }
}

impl NodeView {
    /// A control operation fails exactly if the task of some node of the
    /// tree does not permit it, and then with the error of the operation.
    pub proof fn lemma_controlled_error(self, op: ControlOp, clock: Generation)
        ensures
            self.controlled(op, clock).error == if self.permits(op) {
                None
            } else {
                Some(op.refusal())
            },
        decreases self,
    {
        if op.permitted(self.task) {
            let start = if op.target(self.task.state) != self.task.state {
                clock.successor()
            } else {
                clock
            };
            Self::lemma_controlled_among_error(self.children, self.children.len(), op, start);
        }
    }

    /// A control operation on the first `n` trees of a sequence fails exactly
    /// if the task of some node of these trees does not permit it.
    pub proof fn lemma_controlled_among_error(
        nodes: Seq<NodeView>,
        n: nat,
        op: ControlOp,
        clock: Generation,
    )
        requires
            n <= nodes.len(),
        ensures
            Self::controlled_among(nodes, n, op, clock).error == if forall|i: int|
                0 <= i < n ==> (#[trigger] nodes[i]).permits(op) {
                None
            } else {
                Some(op.refusal())
            },
        decreases nodes, n,
    {
        if n > 0 {
            let before = Self::controlled_among(nodes, (n - 1) as nat, op, clock);
            Self::lemma_controlled_among_error(nodes, (n - 1) as nat, op, clock);
            nodes[n - 1].lemma_controlled_error(op, before.clock);
            if forall|i: int| 0 <= i < n - 1 ==> (#[trigger] nodes[i]).permits(op) {
                if nodes[n - 1].permits(op) {
                    assert forall|i: int| 0 <= i < n implies (#[trigger] nodes[i]).permits(op) by {}
                } else {
                    assert(!nodes[n - 1].permits(op));
                }
            } else {
                let i = choose|i: int| 0 <= i < n - 1 && !(#[trigger] nodes[i]).permits(op);
                assert(!nodes[i].permits(op));
            }
        }
    }

    /// One update event per changed node: on a tree all of whose tasks permit
    /// the operation, there are as many update events as there are tasks
    /// whose state the operation changes.
    pub proof fn lemma_controlled_events(self, op: ControlOp, clock: Generation)
        requires
            self.permits(op),
        ensures
            Event::count_updates(self.controlled(op, clock).events) == self.count_moved(op),
        decreases self,
    {
        let moved = op.target(self.task.state) != self.task.state;
        let start = if moved {
            clock.successor()
        } else {
            clock
        };
        let below = Self::controlled_among(self.children, self.children.len(), op, start);
        Self::lemma_controlled_among_events(self.children, self.children.len(), op, start);
        if moved {
            Event::lemma_on_change(clock, self.id);
            Event::lemma_count_updates_concat(Event::on_change(clock, self.id), below.events);
        }
    }

    /// One update event per changed node, for the first `n` trees of a
    /// sequence.
    pub proof fn lemma_controlled_among_events(
        nodes: Seq<NodeView>,
        n: nat,
        op: ControlOp,
        clock: Generation,
    )
        requires
            n <= nodes.len(),
            forall|i: int| 0 <= i < n ==> (#[trigger] nodes[i]).permits(op),
        ensures
            Event::count_updates(Self::controlled_among(nodes, n, op, clock).events)
                == Self::count_moved_among(nodes, n, op),
        decreases nodes, n,
    {
        if n > 0 {
            let before = Self::controlled_among(nodes, (n - 1) as nat, op, clock);
            Self::lemma_controlled_among_events(nodes, (n - 1) as nat, op, clock);
            Self::lemma_controlled_among_permitted(nodes, (n - 1) as nat, op, clock);
            let run = nodes[n - 1].controlled(op, before.clock);
            nodes[n - 1].lemma_controlled_events(op, before.clock);
            Event::lemma_count_updates_concat(before.events, run.events);
        }
    }
}

impl Node {
    /// Performs the control operation `op` on the node and its subtree.
    ///
    /// `clock` is the clock of the node's tree. The events of the operation
    /// are appended to `events`. Returns the error of the first node whose
    /// task does not permit the operation; what was done before it stays.
    pub fn control(
        &mut self,
        op: ControlOp,
        clock: &mut Generation,
        events: &mut Vec<Event>,
    ) -> (result: Result<(), ControlError>)
        ensures
            final(self)@ == old(self)@.controlled(op, *old(clock)).node,
            *final(clock) == old(self)@.controlled(op, *old(clock)).clock,
            final(events)@ == old(events)@ + old(self)@.controlled(op, *old(clock)).events,
            result == match old(self)@.controlled(op, *old(clock)).error {
                Some(error) => Err::<(), ControlError>(error),
                None => Ok(()),
            },
        decreases *old(self),
    {
        if !op.is_permitted(&self.task) {
            assert(events@ + Seq::<Event>::empty() =~= events@);
            return Err(op.error());
        }
        let after = op.apply(self.task.state);
        let ghost start = *clock;
        let ghost moved = after != self.task.state;
        if after != self.task.state {
            let (next, overflow) = clock.add(1);
            *clock = next;
            if overflow {
                events.push(Event::GenerationOverflow);
            }
            events.push(Event::Update(UpdateEvent { id: self.id }));
            self.task.state = after;
            self.last_change = next;
            assert(events@ =~= old(events)@ + Event::on_change(start, self.id));
        }
        let ghost clock_here = *clock;
        let ghost events_here = events@;
        let mut result: Result<(), ControlError> = Ok(());
        let mut i: usize = 0;
        while i < self.children.len() && result.is_ok()
            invariant
                0 <= i <= self.children.len(),
                self.children.len() == old(self).children.len(),
                self.id == old(self).id,
                self.min_priority_level == old(self).min_priority_level,
                self.task == (Task { state: after, ..old(self).task }),
                self.last_change == if moved {
                    clock_here
                } else {
                    old(self).last_change
                },
                NodeView::controlled_among(
                    old(self)@.children,
                    i as nat,
                    op,
                    clock_here,
                ).nodes.len() == self.children.len(),
                forall|j: int|
                    0 <= j < self.children.len() ==> (#[trigger] self.children[j])@
                        == NodeView::controlled_among(
                        old(self)@.children,
                        i as nat,
                        op,
                        clock_here,
                    ).nodes[j],
                forall|j: int|
                    i <= j < self.children.len() ==> self.children[j] == old(self).children[j],
                *clock == NodeView::controlled_among(
                    old(self)@.children,
                    i as nat,
                    op,
                    clock_here,
                ).clock,
                events@ == events_here + NodeView::controlled_among(
                    old(self)@.children,
                    i as nat,
                    op,
                    clock_here,
                ).events,
                result == match NodeView::controlled_among(
                    old(self)@.children,
                    i as nat,
                    op,
                    clock_here,
                ).error {
                    Some(error) => Err::<(), ControlError>(error),
                    None => Ok(()),
                },
            decreases self.children.len() - i,
        {
            let ghost before = NodeView::controlled_among(
                old(self)@.children,
                i as nat,
                op,
                clock_here,
            );
            proof {
                assert(old(self)@.children[i as int] == old(self).children[i as int]@);
            }
            result = self.children[i].control(op, clock, events);
            proof {
                let run = old(self)@.children[i as int].controlled(op, before.clock);
                assert(events@ =~= events_here + (before.events + run.events));
            }
            i += 1;
        }
        proof {
            NodeView::lemma_controlled_among_stable(
                old(self)@.children,
                i as nat,
                old(self)@.children.len(),
                op,
                clock_here,
            );
            let below = NodeView::controlled_among(
                old(self)@.children,
                old(self)@.children.len(),
                op,
                clock_here,
            );
            assert(self@.children =~= below.nodes);
            if moved {
                assert(events@ =~= old(events)@ + (Event::on_change(start, self.id)
                    + below.events));
            }
        }
        result
    }
}

impl NodeView {
    /// Once an error has ended the operation among the first `n` trees, more
    /// trees make no difference.
    pub proof fn lemma_controlled_among_stable(
        nodes: Seq<NodeView>,
        n: nat,
        m: nat,
        op: ControlOp,
        clock: Generation,
    )
        requires
            n <= m <= nodes.len(),
            n == m || Self::controlled_among(nodes, n, op, clock).error is Some,
        ensures
            Self::controlled_among(nodes, m, op, clock) == Self::controlled_among(
                nodes,
                n,
                op,
                clock,
            ),
        decreases m - n,
    {
        if n < m {
            Self::lemma_controlled_among_stable(nodes, n, (m - 1) as nat, op, clock);
        }
    }
}

} // verus!
