//! The task that a progress node tracks.

use vstd::prelude::*;

verus! {

/// The lifecycle state of a task.
#[derive(Copy, Clone, PartialEq, Eq, Structural, Hash, Default, Debug)]
pub enum State {
    /// The task is running. This is the initial state.
    #[default]
    Running,
    /// The task is paused.
    Paused,
    /// The task has finished.
    Finished,
    /// The task has been canceled.
    Canceled,
}

/// The task associated with a progress node.
///
/// The fields are raw: producers may write any values. Reports clamp them on
/// projection, see [`Task::effective_discrete`].
#[derive(PartialEq, Eq, Debug)]
pub struct Task {
    /// The task's label.
    pub label: Option<String>,
    /// The task's completed unit count.
    pub completed: usize,
    /// The task's total unit count. Zero means that the total is not known.
    pub total: usize,
    /// The task's lifecycle state.
    pub state: State,
    /// Whether the task can be canceled.
    pub is_cancelable: bool,
    /// Whether the task can be paused and resumed.
    pub is_pausable: bool,
}

/// Returns a copy of an optional label.
pub fn clone_label(label: &Option<String>) -> (copy: Option<String>)
    ensures
        copy == *label,
{
    match label {
        Some(text) => Some(text.clone()),
        None => None,
    }
}

impl Default for Task {
    /// The default task: unlabeled, no units, running, neither cancelable
    /// nor pausable.
    fn default() -> (task: Task)
        ensures
            task == Task::initial(),
    {
        Task {
            label: None,
            completed: 0,
            total: 0,
            state: State::Running,
            is_cancelable: false,
            is_pausable: false,
        }
    }
}

impl Clone for Task {
    fn clone(&self) -> (copy: Task)
        ensures
            copy == *self,
    {
        Task {
            label: clone_label(&self.label),
            completed: self.completed,
            total: self.total,
            state: self.state,
            is_cancelable: self.is_cancelable,
            is_pausable: self.is_pausable,
        }
    }
}

impl Task {
    /// The default task.
    pub open spec fn initial() -> Task {
        Task {
            label: None,
            completed: 0,
            total: 0,
            state: State::Running,
            is_cancelable: false,
            is_pausable: false,
        }
    }

    /// The completed unit count as reports see it: never more than the total.
    pub open spec fn spec_effective_completed(self) -> usize {
        if self.completed <= self.total {
            self.completed
        } else {
            self.total
        }
    }

    /// The total unit count as reports see it: never less than the completed
    /// count.
    pub open spec fn spec_effective_total(self) -> usize {
        if self.completed <= self.total {
            self.total
        } else {
            self.completed
        }
    }

    /// Builder-style method for setting the task's initial label.
    ///
    /// The default label is `None`.
    pub fn label(self, label: String) -> (task: Task)
        ensures
            task == (Task { label: Some(label), ..self }),
    {
        let mut task = self;
        task.label = Some(label);
        task
    }

    /// Builder-style method for setting the task's initial completed unit
    /// count.
    ///
    /// The default completed unit count is `0`.
    pub fn completed(self, completed: usize) -> (task: Task)
        ensures
            task == (Task { completed, ..self }),
    {
        let mut task = self;
        task.completed = completed;
        task
    }

    /// Builder-style method for setting the task's initial total unit count.
    ///
    /// The default total unit count is `0`, which makes the task's progress
    /// indeterminate.
    pub fn total(self, total: usize) -> (task: Task)
        ensures
            task == (Task { total, ..self }),
    {
        let mut task = self;
        task.total = total;
        task
    }

    /// Builder-style method for setting the task's initial state.
    pub fn state(self, state: State) -> (task: Task)
        ensures
            task == (Task { state, ..self }),
    {
        let mut task = self;
        task.state = state;
        task
    }

    /// Builder-style method for setting whether the task can be canceled.
    pub fn cancelable(self, cancelable: bool) -> (task: Task)
        ensures
            task == (Task { is_cancelable: cancelable, ..self }),
    {
        let mut task = self;
        task.is_cancelable = cancelable;
        task
    }

    /// Builder-style method for setting whether the task can be paused.
    pub fn pausable(self, pausable: bool) -> (task: Task)
        ensures
            task == (Task { is_pausable: pausable, ..self }),
    {
        let mut task = self;
        task.is_pausable = pausable;
        task
    }

    /// Returns the completed unit count, clamped to the total.
    pub fn effective_completed(&self) -> (completed: usize)
        ensures
            completed == self.spec_effective_completed(),
            completed <= self.completed,
            completed <= self.total,
            completed == self.completed || completed == self.total,
    {
        if self.completed <= self.total {
            self.completed
        } else {
            self.total
        }
    }

    /// Returns the total unit count, raised to the completed count.
    pub fn effective_total(&self) -> (total: usize)
        ensures
            total == self.spec_effective_total(),
            total >= self.completed,
            total >= self.total,
            total == self.completed || total == self.total,
    {
        if self.completed <= self.total {
            self.total
        } else {
            self.completed
        }
    }

    /// Returns the clamped pair `(min(completed, total), max(completed, total))`.
    pub fn effective_discrete(&self) -> (discrete: (usize, usize))
        ensures
            discrete.0 == self.spec_effective_completed(),
            discrete.1 == self.spec_effective_total(),
            discrete.0 <= discrete.1,
    {
        (self.effective_completed(), self.effective_total())
    }

    /// Tells whether the task's progress is indeterminate: its total is zero.
    pub fn is_indeterminate(&self) -> (indeterminate: bool)
        ensures
            indeterminate == (self.total == 0),
    {
        self.total == 0
    }
}

} // verus!
