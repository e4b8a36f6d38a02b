//! Frontend-agnostic progress reporting.
//!
//! Long-running work is modeled as a tree of progress nodes. Producers change
//! the tasks of the nodes; consumers receive the events of these changes and
//! ask for reports. This crate is the core of such a system, without any
//! rendering, input or output: the tree with its operations, the reports,
//! and the proofs of what they guarantee.
//!
//! # The model
//!
//! A [`Progress`] is a tree that owns its nodes. Each [`Node`] has a
//! [`ProgressId`] from an [`IdAllocator`], a [`Task`], an optional minimum
//! priority level for messages, and the [`Generation`] of its last change.
//! The tree has one clock, which advances by one with every change, and one
//! observer.
//!
//! The operations name nodes by their identifiers. An operation that changes
//! a node stamps it with the clock's new generation and returns the
//! [`Event`]s of the change. They are meant for the tree's observer, in their
//! order; [`notify`] hands them to an [`Observer`]. Nothing in this crate
//! calls an observer on its own, so that a caller who guards a tree by a lock
//! can release the lock first.
//!
//! # Reports
//!
//! A [`Reporter`] gives the full [`Report`] of a tree, with the saturated
//! sums of the effective units of all nodes, and the delta report against a
//! baseline generation, which holds the nodes that were changed after the
//! baseline and their ancestors.
//!
//! # Control
//!
//! A [`Controller`] pauses, resumes and cancels the tasks of a subtree, node
//! by node, and stops at the first task that does not permit the operation.
//!
//! # What is proved
//!
//! The functions have contracts over the mathematical models of their
//! arguments ([`NodeView`], [`ProgressView`], [`ReportView`]), which are
//! proved of their bodies. The few that call into the standard library where
//! it has no specification say so in their documentation. The laws that
//! relate several functions are proof functions next to the definitions that
//! they are about.

mod ancestry;
mod control;
mod delta;
mod error;
mod event;
mod generation;
mod id;
mod identity;
mod node;
mod observer;
mod priority;
mod progress;
mod report;
mod reporting;
mod task;
mod wellformed;

pub use control::{ControlOp, ControlRun, ControlRuns};
pub use error::ControlError;
pub use event::{DetachmentEvent, Event, MessageEvent, UpdateEvent};
pub use generation::Generation;
pub use id::{IdAllocator, ProgressId};
pub use node::{steps, Node, NodeView};
pub use observer::{notify, NopObserver, Observer, StdMpscObserver};
pub use priority::{
    global_min_priority_level, lowercase_of, EnvPriorityLevel, EnvPriorityLevelError,
    PriorityLevel,
};
pub use progress::{
    control_outcome, placeholder, Attached, Controlled, Controller, Created, Detached, Progress,
    ProgressView, Reporter,
};
pub use report::{Report, ReportView};
pub use reporting::{lemma_saturated_sum, saturated};
pub use task::{clone_label, State, Task};
