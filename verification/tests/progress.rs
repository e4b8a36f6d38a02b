use std::cell::RefCell;
use std::sync::{Arc, Weak};

use sitrep::{
    notify, Controller, DetachmentEvent, Event, Generation, IdAllocator, MessageEvent,
    NopObserver, Observer, PriorityLevel, Progress, ProgressId, Report, Reporter, State, Task,
    UpdateEvent,
};

#[derive(Default)]
struct SpyObserver {
    events: RefCell<Vec<Event>>,
}

impl SpyObserver {
    fn events(&self) -> Vec<Event> {
        self.events.borrow().clone()
    }

    fn events_len(&self) -> usize {
        self.events.borrow().len()
    }

    fn update_events(&self) -> Vec<UpdateEvent> {
        self.events()
            .into_iter()
            .filter_map(|event| match event {
                Event::Update(event) => Some(event),
                _ => None,
            })
            .collect()
    }

    fn message_events(&self) -> Vec<MessageEvent> {
        self.events()
            .into_iter()
            .filter_map(|event| match event {
                Event::Message(event) => Some(event),
                _ => None,
            })
            .collect()
    }

    fn detachment_events(&self) -> Vec<DetachmentEvent> {
        self.events()
            .into_iter()
            .filter_map(|event| match event {
                Event::Detachment(event) => Some(event),
                _ => None,
            })
            .collect()
    }
}

impl Observer for SpyObserver {
    fn observe(&self, event: Event) {
        self.events.borrow_mut().push(event);
    }
}

fn post(progress: &Progress<SpyObserver>, id: ProgressId, text: &str, level: PriorityLevel) {
    let text = text.to_string();
    if let Some(event) = progress.message(id, move || text, level, PriorityLevel::Trace) {
        notify(progress.observer(), vec![event]);
    }
}

fn spawn(
    progress: &mut Progress<SpyObserver>,
    parent: ProgressId,
    ids: &mut IdAllocator,
) -> ProgressId {
    let created = progress
        .new_with_parent(Task::default(), parent, ids)
        .unwrap();
    notify(progress.observer(), created.events);
    created.id
}

fn labeled(label: &str, completed: usize, total: usize) -> impl FnOnce(Task) -> Task {
    let label = label.to_string();
    move |task: Task| task.label(label).completed(completed).total(total)
}

#[test]
fn id_monotonically_increments() {
    let mut allocator = IdAllocator::new();
    let ids: Vec<_> = (0..1000).map(|_| allocator.new_unique()).collect();

    for window in ids.windows(2) {
        let [prev, next] = window else {
            panic!("expected window of size 2");
        };

        assert!(prev.0 < next.0);
    }
}

#[test]
fn parent_with_children() {
    let observer = Arc::new(NopObserver);
    let mut ids = IdAllocator::new();

    let mut parent = Progress::new(Task::default(), Arc::clone(&observer), &mut ids);
    let parent_id = parent.id();
    let children = [
        parent.new_with_parent(Task::default(), parent_id, &mut ids).unwrap().id,
        parent.new_with_parent(Task::default(), parent_id, &mut ids).unwrap().id,
        parent.new_with_parent(Task::default(), parent_id, &mut ids).unwrap().id,
    ];

    let parent = Arc::new(parent);
    let weak_parent = Arc::downgrade(&parent);

    assert_eq!(Arc::strong_count(&parent), 1);
    assert_eq!(Arc::strong_count(&observer), 2);

    // The parent alone holds its children.
    assert_eq!(parent.children(parent_id), Some(children.to_vec()));
    for child in children {
        assert_eq!(parent.parent(child), Some(parent_id));
    }

    drop(parent);

    assert_eq!(Weak::strong_count(&weak_parent), 0);
    assert_eq!(Arc::strong_count(&observer), 1);
}

#[test]
fn parent_with_grandchildren() {
    let observer = Arc::new(NopObserver);
    let mut ids = IdAllocator::new();

    let mut parent = Progress::new(Task::default(), Arc::clone(&observer), &mut ids);
    let parent_id = parent.id();
    let child = parent.new_with_parent(Task::default(), parent_id, &mut ids).unwrap().id;
    let grandchildren = [
        parent.new_with_parent(Task::default(), child, &mut ids).unwrap().id,
        parent.new_with_parent(Task::default(), child, &mut ids).unwrap().id,
        parent.new_with_parent(Task::default(), child, &mut ids).unwrap().id,
    ];

    let parent = Arc::new(parent);
    let weak_parent = Arc::downgrade(&parent);

    assert_eq!(Arc::strong_count(&parent), 1);
    assert_eq!(Arc::strong_count(&observer), 2);

    // Each node is held by its parent alone.
    assert_eq!(parent.children(parent_id), Some(vec![child]));
    assert_eq!(parent.children(child), Some(grandchildren.to_vec()));
    for grandchild in grandchildren {
        assert_eq!(parent.parent(grandchild), Some(child));
        assert_eq!(parent.children(grandchild), Some(vec![]));
    }

    drop(parent);

    assert_eq!(Weak::strong_count(&weak_parent), 0);
    assert_eq!(Arc::strong_count(&observer), 1);
}

#[test]
fn detach_from_parent() {
    let mut ids = IdAllocator::new();
    let mut parent = Progress::new(Task::default(), SpyObserver::default(), &mut ids);
    let parent_id = parent.id();
    let child = spawn(&mut parent, parent_id, &mut ids);

    let detached = parent.detach_from_parent(child, SpyObserver::default());
    let detached = detached.ok().unwrap();
    notify(parent.observer(), detached.events);

    assert_eq!(parent.observer().detachment_events().len(), 1);
}

#[test]
fn detach_child() {
    let mut ids = IdAllocator::new();
    let mut parent = Progress::new(Task::default(), SpyObserver::default(), &mut ids);
    let parent_id = parent.id();
    let child = spawn(&mut parent, parent_id, &mut ids);

    assert_eq!(parent.parent(child), Some(parent_id));
    let detached = parent.detach_child(parent_id, child, SpyObserver::default());
    notify(parent.observer(), detached.events);

    assert_eq!(parent.observer().detachment_events().len(), 1);
}

#[test]
fn gets_filtered_by_min_priority_level() {
    let mut ids = IdAllocator::new();
    let mut progress = Progress::new(Task::default(), SpyObserver::default(), &mut ids);
    let id = progress.id();

    progress.set_min_priority_level(id, Some(PriorityLevel::Warn));

    for level in PriorityLevel::all() {
        post(&progress, id, "test", level);
    }

    let expected_levels = [PriorityLevel::Warn, PriorityLevel::Error];

    for event in progress.observer().message_events() {
        if !expected_levels.contains(&event.priority) {
            panic!("unexpected priority level: {:?}", event.priority);
        }
    }
}

#[test]
fn gets_delivered() {
    let mut ids = IdAllocator::new();
    let progress = Progress::new(Task::default(), SpyObserver::default(), &mut ids);
    let id = progress.id();

    let message = "test";

    for level in PriorityLevel::all() {
        post(&progress, id, message, level);
    }

    assert_eq!(progress.observer().events_len(), PriorityLevel::all().len());

    let actual = progress.observer().message_events();
    let expected: Vec<_> = PriorityLevel::all()
        .into_iter()
        .map(|priority| MessageEvent {
            id: progress.id(),
            message: message.into(),
            priority,
        })
        .collect();

    assert_eq!(actual, expected);
}

#[test]
fn tests_stand_alone() {
    // A tree of one node, and who holds it.
    let observer = Arc::new(NopObserver);
    let mut ids = IdAllocator::new();
    let stand_alone = Arc::new(Progress::new(Task::default(), Arc::clone(&observer), &mut ids));
    let weak_stand_alone = Arc::downgrade(&stand_alone);

    assert_eq!(Arc::strong_count(&stand_alone), 1);

    drop(stand_alone);

    assert_eq!(Weak::strong_count(&weak_stand_alone), 0);
    assert_eq!(Arc::strong_count(&observer), 1);

    // A message from a tree of one node.
    let mut ids = IdAllocator::new();
    let progress = Progress::new(Task::default(), SpyObserver::default(), &mut ids);
    post(&progress, progress.id(), "test", PriorityLevel::Error);
    assert_eq!(progress.observer().message_events().len(), 1);

    // An update of a tree of one node.
    let mut progress = Progress::new(Task::default(), SpyObserver::default(), &mut ids);
    let id = progress.id();
    let events = progress.update(id, |task| task);
    notify(progress.observer(), events);
    assert_eq!(progress.observer().update_events().len(), 1);

    // The report of a tree of one node.
    let mut progress = Progress::new(Task::default(), SpyObserver::default(), &mut ids);
    let id = progress.id();
    progress.update(id, labeled("label", 5, 10));

    let report = progress.report();

    assert_eq!(report.progress_id, progress.id());
    assert_eq!(report.label.clone().unwrap(), "label");
    assert_eq!(report.completed, 5);
    assert_eq!(report.total, 10);
    assert_eq!(fraction(&report), 0.5);
    assert_eq!(report.subreports, vec![]);
}

#[test]
fn tests_hierarchy() {
    // Messages from every level of a tree.
    let mut ids = IdAllocator::new();
    let mut parent = Progress::new(Task::default(), SpyObserver::default(), &mut ids);
    let parent_id = parent.id();
    let child = spawn(&mut parent, parent_id, &mut ids);
    let grandchild = spawn(&mut parent, child, &mut ids);

    post(&parent, parent_id, "test", PriorityLevel::Error);
    post(&parent, child, "test", PriorityLevel::Error);
    post(&parent, grandchild, "test", PriorityLevel::Error);

    assert_eq!(parent.observer().message_events().len(), 3);

    // Updates at every level of a tree.
    let mut parent = Progress::new(Task::default(), SpyObserver::default(), &mut ids);
    let parent_id = parent.id();
    assert_eq!(parent.observer().update_events().len(), 0);
    let child = spawn(&mut parent, parent_id, &mut ids);
    assert_eq!(parent.observer().update_events().len(), 1);
    let grandchild = spawn(&mut parent, child, &mut ids);
    assert_eq!(parent.observer().update_events().len(), 2);

    for id in [parent_id, child, grandchild] {
        let events = parent.update(id, |task| task);
        notify(parent.observer(), events);
    }

    assert_eq!(parent.observer().update_events().len(), 5);

    // The report of a tree of three levels.
    let mut parent = Progress::new(Task::default(), SpyObserver::default(), &mut ids);
    let parent_id = parent.id();
    let child = spawn(&mut parent, parent_id, &mut ids);
    let grandchild = spawn(&mut parent, child, &mut ids);

    parent.update(parent_id, labeled("parent", 1, 2));
    parent.update(child, labeled("child", 1, 2));
    parent.update(grandchild, labeled("grandchild", 1, 2));

    let parent_report = parent.report();

    assert_eq!(parent_report.progress_id, parent_id);
    assert_eq!(parent_report.label.clone().unwrap(), "parent");
    assert_eq!(parent_report.completed, 3);
    assert_eq!(parent_report.total, 6);
    assert_eq!(fraction(&parent_report), 0.5);
    assert_eq!(parent_report.subreports.len(), 1);

    let child_report = parent_report.subreports[0].clone();

    assert_eq!(child_report.progress_id, child);
    assert_eq!(child_report.label.clone().unwrap(), "child");
    assert_eq!(child_report.completed, 2);
    assert_eq!(child_report.total, 4);
    assert_eq!(fraction(&child_report), 0.5);
    assert_eq!(child_report.subreports.len(), 1);

    let grandchild_report = child_report.subreports[0].clone();

    assert_eq!(grandchild_report.progress_id, grandchild);
    assert_eq!(grandchild_report.label.clone().unwrap(), "grandchild");
    assert_eq!(grandchild_report.completed, 1);
    assert_eq!(grandchild_report.total, 2);
    assert_eq!(fraction(&grandchild_report), 0.5);
    assert_eq!(grandchild_report.subreports.len(), 0);
}

fn fraction(report: &Report) -> f64 {
    let (numerator, denominator) = report.fraction_terms();
    numerator as f64 / denominator as f64
}

#[test]
fn get() {
    let mut ids = IdAllocator::new();
    let mut parent = Progress::new(Task::default(), SpyObserver::default(), &mut ids);
    let parent_id = parent.id();
    let child_id = spawn(&mut parent, parent_id, &mut ids);
    let grandchild_id = spawn(&mut parent, child_id, &mut ids);

    let missing_id = ProgressId(42);

    assert!(parent.get(missing_id).is_none());
    assert_eq!(parent.get(parent_id).unwrap().id, parent_id);
    assert_eq!(parent.get(child_id).unwrap().id, child_id);
    assert_eq!(parent.get(grandchild_id).unwrap().id, grandchild_id);

    let child = parent.get(child_id).unwrap();

    assert!(child.get(missing_id).is_none());
    assert!(child.get(parent_id).is_none());
    assert_eq!(child.get(child_id).unwrap().id, child_id);
    assert_eq!(child.get(grandchild_id).unwrap().id, grandchild_id);

    let grandchild = parent.get(grandchild_id).unwrap();

    assert!(grandchild.get(missing_id).is_none());
    assert!(grandchild.get(parent_id).is_none());
    assert!(grandchild.get(child_id).is_none());
    assert_eq!(grandchild.get(grandchild_id).unwrap().id, grandchild_id);
}

#[test]
fn prunes_self() {
    let mut ids = IdAllocator::new();
    let report = Report {
        progress_id: ids.new_unique(),
        last_change: Generation(0),
        ..Default::default()
    };

    assert_eq!(report.to_pruned(Generation(1)), None);
}

#[test]
fn prunes_subreports() {
    let mut ids = IdAllocator::new();
    let parent_id = ids.new_unique();
    let child_id = ids.new_unique();
    let grand_child_id = ids.new_unique();

    let report = Report {
        progress_id: parent_id,
        subreports: vec![
            Report {
                progress_id: ids.new_unique(),
                last_change: Generation(1),
                ..Default::default()
            },
            Report {
                progress_id: child_id,
                subreports: vec![Report {
                    progress_id: grand_child_id,
                    last_change: Generation(2),
                    ..Default::default()
                }],
                last_change: Generation(2),
                ..Default::default()
            },
        ],
        last_change: Generation(2),
        ..Default::default()
    };

    let parent = report.to_pruned(Generation(2)).unwrap();

    assert_eq!(parent.progress_id, parent_id);
    assert_eq!(parent.subreports.len(), 1);

    let child = &parent.subreports[0];
    assert_eq!(child.progress_id, child_id);
    assert_eq!(child.subreports.len(), 1);

    let grand_child = &child.subreports[0];
    assert_eq!(grand_child.progress_id, grand_child_id);
    assert_eq!(grand_child.subreports.len(), 0);
}

#[test]
fn nop_observer_takes_events() {
    let mut ids = IdAllocator::new();
    let mut progress = Progress::new(Task::default(), NopObserver, &mut ids);
    let id = progress.id();
    let events = progress.set_state(id, State::Finished);
    assert_eq!(events, vec![Event::Update(UpdateEvent { id })]);
    notify(progress.observer(), events);
    assert_eq!(progress.state(id), Some(State::Finished));
}
