use std::cell::{Cell, RefCell};

use sitrep::{
    notify, ControlError, Controller, DetachmentEvent, Event, Generation, IdAllocator,
    MessageEvent, Observer, PriorityLevel, Progress, ProgressId, Report, Reporter, State, Task,
    UpdateEvent,
};

#[derive(Default)]
struct Recorder {
    events: RefCell<Vec<Event>>,
}

impl Observer for Recorder {
    fn observe(&self, event: Event) {
        self.events.borrow_mut().push(event);
    }
}

fn tree(ids: &mut IdAllocator) -> Progress<Recorder> {
    Progress::new(Task::default(), Recorder::default(), ids)
}

fn child_of(
    progress: &mut Progress<Recorder>,
    parent: ProgressId,
    ids: &mut IdAllocator,
) -> ProgressId {
    progress
        .new_with_parent(Task::default(), parent, ids)
        .unwrap()
        .id
}

fn update_of(id: ProgressId) -> Event {
    Event::Update(UpdateEvent { id })
}

fn ids_of(report: &Report) -> Vec<ProgressId> {
    let mut ids = vec![report.progress_id];
    for subreport in &report.subreports {
        ids.extend(ids_of(subreport));
    }
    ids
}

#[test]
fn ids_are_unique_and_increasing() {
    let mut ids = IdAllocator::new();
    let first = ids.new_unique();
    let second = ids.new_unique();
    let third = ids.new_unique();

    assert_eq!(first, ProgressId(0));
    assert_eq!(second, ProgressId(1));
    assert_eq!(third, ProgressId(2));
    assert!(first.as_raw() < second.as_raw() && second.as_raw() < third.as_raw());
}

#[test]
fn parents_lead_to_the_root() {
    let mut ids = IdAllocator::new();
    let mut progress = tree(&mut ids);
    let root = progress.id();
    let child = child_of(&mut progress, root, &mut ids);
    let grandchild = child_of(&mut progress, child, &mut ids);

    assert_eq!(progress.parent(grandchild), Some(child));
    assert_eq!(progress.parent(child), Some(root));
    assert_eq!(progress.parent(root), None);
    assert_eq!(progress.parent(ProgressId(42)), None);
}

#[test]
fn update_emits_a_single_event() {
    let mut ids = IdAllocator::new();
    let mut progress = tree(&mut ids);
    let id = progress.id();

    let events = progress.update(id, |task| {
        task.label("L".to_string())
            .completed(5)
            .total(10)
            .state(State::Paused)
            .cancelable(true)
            .pausable(true)
    });

    assert_eq!(events, vec![update_of(id)]);
    assert_eq!(progress.label(id), Some(Some("L".to_string())));
    assert_eq!(progress.completed(id), Some(5));
    assert_eq!(progress.total(id), Some(10));
    assert_eq!(progress.state(id), Some(State::Paused));
    assert!(progress.is_cancelable(id));
    assert!(progress.is_pausable(id));
}

#[test]
fn update_of_a_missing_node_does_nothing() {
    let mut ids = IdAllocator::new();
    let mut progress = tree(&mut ids);
    let called = Cell::new(false);

    let events = progress.update(ProgressId(42), |task| {
        called.set(true);
        task
    });

    assert!(events.is_empty());
    assert!(!called.get());
    assert_eq!(progress.last_tree_change(), Generation(0));
}

#[test]
fn update_stamps_the_node_and_not_its_ancestors() {
    let mut ids = IdAllocator::new();
    let mut progress = tree(&mut ids);
    let root = progress.id();
    let child = child_of(&mut progress, root, &mut ids);
    assert_eq!(progress.last_tree_change(), Generation(1));
    assert_eq!(progress.get(root).unwrap().last_change, Generation(1));
    assert_eq!(progress.get(child).unwrap().last_change, Generation(0));

    progress.set_completed(child, 1);

    assert_eq!(progress.last_tree_change(), Generation(2));
    assert_eq!(progress.get(root).unwrap().last_change, Generation(1));
    assert_eq!(progress.get(child).unwrap().last_change, Generation(2));
}

#[test]
fn filtered_message_is_not_evaluated() {
    let mut ids = IdAllocator::new();
    let mut progress = tree(&mut ids);
    let id = progress.id();
    progress.set_min_priority_level(id, Some(PriorityLevel::Warn));

    let called = Cell::new(0);
    let make = || {
        called.set(called.get() + 1);
        "text".to_string()
    };

    assert_eq!(progress.info(id, make, PriorityLevel::Trace), None);
    assert_eq!(called.get(), 0);

    let event = progress.warn(id, make, PriorityLevel::Trace);
    assert_eq!(called.get(), 1);
    assert_eq!(
        event,
        Some(Event::Message(MessageEvent {
            id,
            message: "text".to_string(),
            priority: PriorityLevel::Warn,
        }))
    );
}

#[test]
fn priority_filter_lets_warn_and_error_pass() {
    let mut ids = IdAllocator::new();
    let mut progress = tree(&mut ids);
    let id = progress.id();
    progress.set_min_priority_level(id, Some(PriorityLevel::Warn));

    let mut priorities = vec![];
    for level in PriorityLevel::all() {
        if let Some(Event::Message(event)) =
            progress.message(id, || "test".to_string(), level, PriorityLevel::Trace)
        {
            priorities.push(event.priority);
        }
    }

    assert_eq!(priorities, vec![PriorityLevel::Warn, PriorityLevel::Error]);
}

#[test]
fn message_falls_back_to_the_global_minimum() {
    let mut ids = IdAllocator::new();
    let mut progress = tree(&mut ids);
    let id = progress.id();

    assert_eq!(
        progress.min_priority_level(id, PriorityLevel::Info),
        Some(PriorityLevel::Info)
    );
    assert_eq!(progress.debug(id, || "x".to_string(), PriorityLevel::Info), None);
    assert!(progress
        .error(id, || "x".to_string(), PriorityLevel::Info)
        .is_some());

    progress.set_min_priority_level(id, Some(PriorityLevel::Trace));
    assert_eq!(
        progress.min_priority_level(id, PriorityLevel::Info),
        Some(PriorityLevel::Trace)
    );
    assert!(progress
        .trace(id, || "x".to_string(), PriorityLevel::Info)
        .is_some());

    progress.set_min_priority_level(id, None);
    assert_eq!(
        progress.min_priority_level(id, PriorityLevel::Error),
        Some(PriorityLevel::Error)
    );
    assert_eq!(progress.min_priority_level(ProgressId(42), PriorityLevel::Error), None);
    assert_eq!(
        progress.message(
            ProgressId(42),
            || "x".to_string(),
            PriorityLevel::Error,
            PriorityLevel::Trace
        ),
        None
    );
}

#[test]
fn report_sums_the_effective_units_of_all_nodes() {
    let mut ids = IdAllocator::new();
    let mut progress = tree(&mut ids);
    let root = progress.id();
    let a = child_of(&mut progress, root, &mut ids);
    let b = child_of(&mut progress, root, &mut ids);
    let c = child_of(&mut progress, a, &mut ids);

    progress.update(root, |task| task.completed(1).total(10));
    progress.update(a, |task| task.completed(7).total(5));
    progress.update(b, |task| task.completed(0).total(0));
    progress.update(c, |task| task.completed(2).total(3));

    let report = progress.report();

    // root: (1, 10), a: (5, 7), b: (0, 0), c: (2, 3)
    assert_eq!((report.completed, report.total), (8, 20));
    assert_eq!(report.discrete(), (8, 20));
    assert_eq!(report.subreports.len(), 2);
    assert_eq!(report.subreports[0].discrete(), (7, 10));
    assert_eq!(report.subreports[0].subreports[0].discrete(), (2, 3));
    assert_eq!(report.subreports[1].discrete(), (0, 0));
    assert!(report.subreports[1].is_indeterminate);
    assert!(!report.is_indeterminate);
    assert_eq!(report.last_change, progress.last_tree_change());
}

#[test]
fn report_sums_saturate() {
    let mut ids = IdAllocator::new();
    let mut progress = tree(&mut ids);
    let root = progress.id();
    let child = child_of(&mut progress, root, &mut ids);

    progress.update(root, |task| task.completed(usize::MAX - 1).total(usize::MAX));
    progress.update(child, |task| task.completed(5).total(7));

    let report = progress.report();

    assert_eq!(report.completed, usize::MAX);
    assert_eq!(report.total, usize::MAX);
    assert!(report.completed <= report.total);
    assert_eq!(report.fraction_terms(), (usize::MAX, usize::MAX));
}

#[test]
fn report_clamps_completed_to_total() {
    let mut ids = IdAllocator::new();
    let mut progress = tree(&mut ids);
    let root = progress.id();

    progress.update(root, |task| task.completed(10).total(4));
    let report = progress.report();

    assert_eq!((report.completed, report.total), (4, 10));
    assert!(report.completed <= report.total);
}

#[test]
fn partial_report_is_absent_without_changes() {
    let mut ids = IdAllocator::new();
    let mut progress = tree(&mut ids);
    let root = progress.id();
    let child = child_of(&mut progress, root, &mut ids);
    progress.set_total(child, 3);

    let baseline = progress.last_tree_change();

    assert_eq!(progress.partial_report(baseline), None);
    assert!(progress.partial_report(Generation(0)).is_some());
    assert_eq!(progress.partial_report(Generation::max_value()), None);
}

#[test]
fn partial_report_skips_clean_subtrees() {
    let mut ids = IdAllocator::new();
    let mut progress = tree(&mut ids);
    let root = progress.id();
    let a = child_of(&mut progress, root, &mut ids);
    let b = child_of(&mut progress, root, &mut ids);
    let c = child_of(&mut progress, root, &mut ids);
    progress.update(a, |task| task.completed(1).total(2));
    progress.update(b, |task| task.completed(1).total(2));
    progress.update(c, |task| task.completed(1).total(2));

    let baseline = progress.last_tree_change();
    progress.set_completed(b, 2);
    let stamp = progress.last_tree_change();

    let report = progress.partial_report(baseline).unwrap();

    assert_eq!(ids_of(&report), vec![root, b]);
    assert_eq!(report.subreports.len(), 1);
    assert_eq!(report.subreports[0].progress_id, b);
    assert_eq!(report.subreports[0].discrete(), (2, 2));
    assert_eq!(report.subreports[0].last_change, stamp);
    // The clean siblings still count: 1/2 + 2/2 + 1/2.
    assert_eq!(report.discrete(), (4, 6));
    assert_eq!(report.last_change, stamp);
    assert!(report.completed <= report.total);
}

#[test]
fn partial_report_holds_the_ancestors_of_a_change() {
    let mut ids = IdAllocator::new();
    let mut progress = tree(&mut ids);
    let root = progress.id();
    let a = child_of(&mut progress, root, &mut ids);
    let b = child_of(&mut progress, root, &mut ids);
    let deep = child_of(&mut progress, a, &mut ids);
    let deeper = child_of(&mut progress, deep, &mut ids);
    progress.update(b, |task| task.completed(3).total(4));

    let baseline = progress.last_tree_change();
    progress.update(deeper, |task| task.completed(1).total(1));

    let report = progress.partial_report(baseline).unwrap();

    assert_eq!(ids_of(&report), vec![root, a, deep, deeper]);
    assert_eq!(report.discrete(), (4, 5));
    for stamp in [&report, &report.subreports[0], &report.subreports[0].subreports[0]] {
        assert!(stamp.last_change > baseline);
    }
}

#[test]
fn partial_report_counts_only_the_task_of_a_clean_child() {
    let mut ids = IdAllocator::new();
    let mut progress = tree(&mut ids);
    let root = progress.id();
    let clean = child_of(&mut progress, root, &mut ids);
    let below = child_of(&mut progress, clean, &mut ids);
    progress.update(clean, |task| task.completed(1).total(2));
    progress.update(below, |task| task.completed(10).total(20));

    let baseline = progress.last_tree_change();
    progress.update(root, |task| task.completed(100).total(200));

    let report = progress.partial_report(baseline).unwrap();

    assert_eq!(report.subreports.len(), 0);
    assert_eq!(report.discrete(), (101, 202));
    assert_eq!(progress.report().discrete(), (111, 222));
}

#[test]
fn generation_overflow_is_flagged_once() {
    assert_eq!(Generation::max_value().add(1), (Generation(0), true));
    assert_eq!(Generation(7).add(1), (Generation(8), false));
    assert_eq!(Generation(usize::MAX - 1).add(1), (Generation::max_value(), false));
    assert_eq!(Generation(usize::MAX - 1).add(3), (Generation(1), true));
}

#[test]
fn stand_alone_update_is_reported() {
    let mut ids = IdAllocator::new();
    let mut progress = tree(&mut ids);
    let root = progress.id();

    let events = progress.update(root, |task| task.label("L".to_string()).completed(5).total(10));
    notify(progress.observer(), events);

    assert_eq!(*progress.observer().events.borrow(), vec![update_of(root)]);

    let report = progress.report();
    assert_eq!(report.progress_id, root);
    assert_eq!(report.label, Some("L".to_string()));
    assert_eq!(report.completed, 5);
    assert_eq!(report.total, 10);
    assert_eq!(report.fraction_terms(), (5, 10));
    assert!(!report.is_indeterminate);
    assert_eq!(report.state, State::Running);
    assert!(report.subreports.is_empty());
}

#[test]
fn detach_emits_detachment_then_update() {
    let mut ids = IdAllocator::new();
    let mut progress = tree(&mut ids);
    let root = progress.id();
    let child = child_of(&mut progress, root, &mut ids);
    let grandchild = child_of(&mut progress, child, &mut ids);
    let clock = progress.last_tree_change();

    let detached = progress
        .detach_from_parent(child, Recorder::default())
        .ok()
        .unwrap();

    assert_eq!(
        detached.events,
        vec![
            Event::Detachment(DetachmentEvent { id: child }),
            update_of(root)
        ]
    );
    notify(progress.observer(), detached.events);
    assert_eq!(progress.observer().events.borrow().len(), 2);
    assert!(detached.progress.observer().events.borrow().is_empty());

    assert_eq!(detached.progress.id(), child);
    assert_eq!(detached.progress.parent(child), None);
    assert_eq!(detached.progress.parent(grandchild), Some(child));
    assert_eq!(detached.progress.last_tree_change(), Generation(clock.as_raw() + 1));
    assert!(progress.get(child).is_none());
    assert!(progress.get(grandchild).is_none());
    assert_eq!(progress.children(root), Some(vec![]));
    assert_eq!(progress.get(root).unwrap().last_change, progress.last_tree_change());
}

#[test]
fn detaching_the_root_or_a_missing_node_does_nothing() {
    let mut ids = IdAllocator::new();
    let mut progress = Progress::new(Task::default(), 1u8, &mut ids);
    let root = progress.id();

    assert_eq!(progress.detach_from_parent(root, 2u8).err(), Some(2u8));
    assert_eq!(progress.detach_from_parent(ProgressId(42), 3u8).err(), Some(3u8));
    assert_eq!(progress.last_tree_change(), Generation(0));
}

#[test]
fn attach_returns_the_observer_and_reconciles_the_clocks() {
    let mut ids = IdAllocator::new();
    let mut parent = Progress::new(Task::default(), "parent", &mut ids);
    let mut child = Progress::new(Task::default(), "child", &mut ids);
    let parent_id = parent.id();
    let child_id = child.id();
    for _ in 0..5 {
        child.increment_completed(child_id);
    }
    parent.set_total(parent_id, 9);
    assert_eq!(parent.last_tree_change(), Generation(1));
    assert_eq!(child.last_tree_change(), Generation(5));

    let attached = parent.attach_child(parent_id, child).ok().unwrap();

    assert_eq!(attached.observer, "child");
    assert_eq!(attached.events, vec![update_of(parent_id)]);
    assert_eq!(*parent.observer(), "parent");
    assert_eq!(parent.last_tree_change(), Generation(6));
    assert_eq!(parent.get(parent_id).unwrap().last_change, Generation(6));
    assert_eq!(parent.get(child_id).unwrap().last_change, Generation(5));
    assert_eq!(parent.parent(child_id), Some(parent_id));
    assert_eq!(parent.children(parent_id), Some(vec![child_id]));
    assert_eq!(parent.completed(child_id), Some(5));
}

#[test]
fn attach_to_a_missing_parent_hands_the_child_back() {
    let mut ids = IdAllocator::new();
    let mut parent = Progress::new(Task::default(), "parent", &mut ids);
    let child = Progress::new(Task::default(), "child", &mut ids);
    let child_id = child.id();

    let back = parent.attach_child(ProgressId(42), child).err().unwrap();

    assert_eq!(back.id(), child_id);
    assert_eq!(*back.observer(), "child");
    assert_eq!(parent.last_tree_change(), Generation(0));
    assert_eq!(parent.children(parent.id()), Some(vec![]));
}

#[test]
fn new_with_parent_needs_the_parent() {
    let mut ids = IdAllocator::new();
    let mut progress = tree(&mut ids);
    let root = progress.id();

    assert!(progress
        .new_with_parent(Task::default(), ProgressId(42), &mut ids)
        .is_none());
    let created = progress
        .new_with_parent(Task::default().total(3), root, &mut ids)
        .unwrap();

    assert_eq!(created.id, ProgressId(root.as_raw() + 1));
    assert_eq!(created.events, vec![update_of(root)]);
    assert_eq!(progress.total(created.id), Some(3));
    assert_eq!(progress.get(created.id).unwrap().last_change, Generation(0));
    assert_eq!(progress.get(root).unwrap().last_change, Generation(1));
    assert_eq!(progress.child(root, created.id).unwrap().id, created.id);
    assert!(progress.child(root, root).is_none());
    assert!(progress.child(ProgressId(42), created.id).is_none());
    assert_eq!(progress.children(ProgressId(42)), None);
}

fn chain(ids: &mut IdAllocator, task: Task) -> (Progress<Recorder>, [ProgressId; 3]) {
    let mut progress = Progress::new(task.clone(), Recorder::default(), ids);
    let root = progress.id();
    let child = progress.new_with_parent(task.clone(), root, ids).unwrap().id;
    let grandchild = progress.new_with_parent(task, child, ids).unwrap().id;
    (progress, [root, child, grandchild])
}

#[test]
fn cancel_recurses() {
    let mut ids = IdAllocator::new();
    let (mut progress, nodes) = chain(&mut ids, Task::default().cancelable(true));

    let outcome = progress.cancel(nodes[0]);

    assert_eq!(outcome.result, Ok(()));
    assert_eq!(
        outcome.events,
        vec![update_of(nodes[0]), update_of(nodes[1]), update_of(nodes[2])]
    );
    for id in nodes {
        assert_eq!(progress.state(id), Some(State::Canceled));
        assert!(progress.is_canceled(id));
    }
    let delta = progress.partial_report(Generation(2)).unwrap();
    assert_eq!(ids_of(&delta), nodes.to_vec());
}

#[test]
fn pause_and_resume_recurse() {
    let mut ids = IdAllocator::new();
    let (mut progress, nodes) = chain(&mut ids, Task::default().pausable(true));
    progress.set_state(nodes[1], State::Finished);

    let outcome = progress.pause(nodes[0]);

    assert_eq!(outcome.result, Ok(()));
    assert_eq!(outcome.events, vec![update_of(nodes[0]), update_of(nodes[2])]);
    assert!(progress.is_paused(nodes[0]));
    assert!(!progress.is_paused(nodes[1]));
    assert_eq!(progress.state(nodes[1]), Some(State::Finished));
    assert!(progress.is_paused(nodes[2]));

    let again = progress.pause(nodes[0]);
    assert_eq!(again.result, Ok(()));
    assert!(again.events.is_empty());

    let outcome = progress.resume(nodes[1]);

    assert_eq!(outcome.result, Ok(()));
    assert_eq!(outcome.events, vec![update_of(nodes[2])]);
    assert!(progress.is_paused(nodes[0]));
    assert_eq!(progress.state(nodes[2]), Some(State::Running));
}

#[test]
fn cancel_takes_paused_tasks_too() {
    let mut ids = IdAllocator::new();
    let (mut progress, nodes) =
        chain(&mut ids, Task::default().pausable(true).cancelable(true));
    progress.pause(nodes[1]);
    progress.set_state(nodes[2], State::Finished);

    let outcome = progress.cancel(nodes[0]);

    assert_eq!(outcome.result, Ok(()));
    assert_eq!(outcome.events, vec![update_of(nodes[0]), update_of(nodes[1])]);
    assert_eq!(progress.state(nodes[0]), Some(State::Canceled));
    assert_eq!(progress.state(nodes[1]), Some(State::Canceled));
    assert_eq!(progress.state(nodes[2]), Some(State::Finished));
}

#[test]
fn control_stops_at_the_first_refusal_without_rollback() {
    let mut ids = IdAllocator::new();
    let (mut progress, nodes) = chain(&mut ids, Task::default().pausable(true));
    progress.set_pausable(nodes[1], false);

    let outcome = progress.pause(nodes[0]);

    assert_eq!(outcome.result, Err(ControlError::NotPausable));
    assert_eq!(outcome.events, vec![update_of(nodes[0])]);
    assert!(progress.is_paused(nodes[0]));
    assert_eq!(progress.state(nodes[1]), Some(State::Running));
    assert_eq!(progress.state(nodes[2]), Some(State::Running));

    assert_eq!(progress.resume(nodes[1]).result, Err(ControlError::NotPausable));
    assert_eq!(progress.cancel(nodes[2]).result, Err(ControlError::NotCancelable));
    assert!(!progress.is_cancelable(nodes[2]));
    assert!(progress.is_pausable(nodes[2]));
    assert!(!progress.is_pausable(nodes[1]));
}

#[test]
fn control_of_a_missing_node_does_nothing() {
    let mut ids = IdAllocator::new();
    let mut progress = tree(&mut ids);

    let outcome = progress.cancel(ProgressId(42));

    assert_eq!(outcome.result, Ok(()));
    assert!(outcome.events.is_empty());
    assert!(!progress.is_canceled(ProgressId(42)));
    assert!(!progress.is_paused(ProgressId(42)));
    assert!(!progress.is_cancelable(ProgressId(42)));
    assert!(!progress.is_pausable(ProgressId(42)));
}
