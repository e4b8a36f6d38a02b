use std::sync::mpsc;

use sitrep::{
    global_min_priority_level, ControlError, ControlOp, EnvPriorityLevel, Event, Generation,
    IdAllocator, Node, NopObserver, Observer, PriorityLevel, Progress, ProgressId, Report,
    Reporter, State, StdMpscObserver, Task, UpdateEvent,
};

#[test]
fn generation_orders_and_adds() {
    assert_eq!(Generation::min_value(), Generation(0));
    assert_eq!(Generation::max_value(), Generation(usize::MAX));
    assert_eq!(Generation(3).as_raw(), 3);
    assert_eq!(Generation(3).max(Generation(9)), Generation(9));
    assert_eq!(Generation(9).max(Generation(3)), Generation(9));
    assert!(Generation(4).is_after(Generation(3)));
    assert!(!Generation(3).is_after(Generation(3)));
    assert_eq!(Generation(3).add(4), (Generation(7), false));
    assert_eq!(Generation::default(), Generation(0));
    assert!(Generation(1) < Generation(2));
}

#[test]
fn id_allocator_starts_at_zero() {
    let mut ids = IdAllocator::new();
    assert_eq!(ids.new_unique().as_raw(), 0);
    assert_eq!(ids.new_unique().as_raw(), 1);
}

#[test]
fn priority_levels_are_ordered() {
    let all = PriorityLevel::all();
    assert_eq!(
        all,
        [
            PriorityLevel::Trace,
            PriorityLevel::Debug,
            PriorityLevel::Info,
            PriorityLevel::Warn,
            PriorityLevel::Error,
        ]
    );
    for (rank, level) in all.into_iter().enumerate() {
        assert_eq!(level.as_raw() as usize, rank);
    }
    assert!(PriorityLevel::Trace < PriorityLevel::Error);
    assert_eq!(PriorityLevel::min_level(), PriorityLevel::Trace);
    assert_eq!(PriorityLevel::max_level(), PriorityLevel::Error);
    assert_eq!(PriorityLevel::default(), PriorityLevel::Trace);
    assert!(PriorityLevel::Warn.passes(PriorityLevel::Warn));
    assert!(PriorityLevel::Error.passes(PriorityLevel::Warn));
    assert!(!PriorityLevel::Info.passes(PriorityLevel::Warn));
    assert_eq!(
        PriorityLevel::effective_min_level(None, PriorityLevel::Info),
        PriorityLevel::Info
    );
    assert_eq!(
        PriorityLevel::effective_min_level(Some(PriorityLevel::Debug), PriorityLevel::Info),
        PriorityLevel::Debug
    );
}

#[test]
fn priority_level_is_read_ignoring_case() {
    let expected = [
        ("trace", PriorityLevel::Trace),
        ("DEBUG", PriorityLevel::Debug),
        ("Info", PriorityLevel::Info),
        ("wArN", PriorityLevel::Warn),
        ("ERROR", PriorityLevel::Error),
    ];
    for (text, level) in expected {
        assert_eq!(EnvPriorityLevel::from_str(text).unwrap().0, level);
        assert_eq!(PriorityLevel::from_env(Some(text)), Some(level));
        assert_eq!(global_min_priority_level(Some(text)), level);
    }
}

#[test]
fn unknown_priority_level_is_treated_as_absent() {
    let error = EnvPriorityLevel::from_str("Verbose").unwrap_err();
    assert_eq!(error.unknown, "verbose");
    assert!(EnvPriorityLevel::from_str("").is_err());
    assert!(EnvPriorityLevel::from_str(" warn").is_err());
    assert!(EnvPriorityLevel::from_lowercase("WARN".to_string()).is_err());
    assert_eq!(
        EnvPriorityLevel::from_lowercase("warn".to_string()).unwrap().0,
        PriorityLevel::Warn
    );

    assert_eq!(PriorityLevel::from_env(Some("verbose")), None);
    assert_eq!(PriorityLevel::from_env(None), None);
    assert_eq!(global_min_priority_level(Some("verbose")), PriorityLevel::Trace);
    assert_eq!(global_min_priority_level(None), PriorityLevel::Trace);
}

#[test]
fn task_defaults_and_builders() {
    let task = Task::default();
    assert_eq!(task.label, None);
    assert_eq!((task.completed, task.total), (0, 0));
    assert_eq!(task.state, State::Running);
    assert!(!task.is_cancelable);
    assert!(!task.is_pausable);
    assert!(task.is_indeterminate());

    let task = Task::default()
        .label("work".to_string())
        .completed(3)
        .total(4)
        .state(State::Paused)
        .cancelable(true)
        .pausable(true);
    assert_eq!(task.label.as_deref(), Some("work"));
    assert_eq!((task.completed, task.total), (3, 4));
    assert_eq!(task.state, State::Paused);
    assert!(task.is_cancelable && task.is_pausable);
    assert!(!task.is_indeterminate());
    assert_eq!(task.clone(), task);
}

#[test]
fn task_effective_units_are_clamped() {
    let under = Task::default().completed(3).total(4);
    assert_eq!(under.effective_completed(), 3);
    assert_eq!(under.effective_total(), 4);
    assert_eq!(under.effective_discrete(), (3, 4));

    let over = Task::default().completed(9).total(4);
    assert_eq!(over.effective_completed(), 4);
    assert_eq!(over.effective_total(), 9);
    assert_eq!(over.effective_discrete(), (4, 9));

    let unknown = Task::default().completed(2);
    assert_eq!(unknown.effective_discrete(), (0, 2));
    assert!(unknown.is_indeterminate());
}

#[test]
fn control_error_describes_itself() {
    assert_eq!(
        ControlError::NotPausable.description(),
        "progress task is not pausable"
    );
    assert_eq!(
        ControlError::NotCancelable.description(),
        "progress task is not cancelable"
    );
}

#[test]
fn control_op_state_machine() {
    let states = [State::Running, State::Paused, State::Finished, State::Canceled];
    let paused = [State::Paused, State::Paused, State::Finished, State::Canceled];
    let resumed = [State::Running, State::Running, State::Finished, State::Canceled];
    let canceled = [State::Canceled, State::Canceled, State::Finished, State::Canceled];
    for (i, state) in states.into_iter().enumerate() {
        assert_eq!(ControlOp::Pause.apply(state), paused[i]);
        assert_eq!(ControlOp::Resume.apply(state), resumed[i]);
        assert_eq!(ControlOp::Cancel.apply(state), canceled[i]);
    }

    let pausable = Task::default().pausable(true);
    let cancelable = Task::default().cancelable(true);
    assert!(ControlOp::Pause.is_permitted(&pausable));
    assert!(ControlOp::Resume.is_permitted(&pausable));
    assert!(!ControlOp::Cancel.is_permitted(&pausable));
    assert!(ControlOp::Cancel.is_permitted(&cancelable));
    assert!(!ControlOp::Pause.is_permitted(&cancelable));
    assert_eq!(ControlOp::Pause.error(), ControlError::NotPausable);
    assert_eq!(ControlOp::Resume.error(), ControlError::NotPausable);
    assert_eq!(ControlOp::Cancel.error(), ControlError::NotCancelable);
}

#[test]
fn report_is_assembled_with_clamping() {
    let report = Report::new(
        ProgressId(7),
        Some("label".to_string()),
        9,
        4,
        State::Paused,
        vec![Report::default()],
        Generation(3),
    );
    assert_eq!(report.progress_id, ProgressId(7));
    assert_eq!(report.label.as_deref(), Some("label"));
    assert_eq!(report.discrete(), (4, 4));
    assert!(!report.is_indeterminate);
    assert_eq!(report.state, State::Paused);
    assert_eq!(report.subreports.len(), 1);
    assert_eq!(report.last_change, Generation(3));

    let blank = Report::new(ProgressId(0), None, 0, 0, State::Running, vec![], Generation(0));
    assert!(blank.is_indeterminate);
    assert_eq!(blank, Report::default());
}

#[test]
fn report_fraction_terms() {
    let mut report = Report::default();
    assert_eq!(report.fraction_terms(), (0, 1));
    report.completed = 5;
    assert_eq!(report.fraction_terms(), (1, 1));
    report.total = 10;
    assert_eq!(report.fraction_terms(), (5, 10));
    let (numerator, denominator) = report.fraction_terms();
    assert_eq!(numerator as f64 / denominator as f64, 0.5);
}

#[test]
fn pruning_keeps_what_is_not_older() {
    let old = Report {
        progress_id: ProgressId(1),
        last_change: Generation(1),
        ..Default::default()
    };
    let recent = Report {
        progress_id: ProgressId(2),
        last_change: Generation(5),
        subreports: vec![old.clone()],
        ..Default::default()
    };
    let top = Report {
        progress_id: ProgressId(3),
        last_change: Generation(5),
        completed: 1,
        total: 2,
        subreports: vec![old.clone(), recent.clone(), old.clone()],
        ..Default::default()
    };

    let pruned = top.clone().into_pruned(Generation(5)).unwrap();
    assert_eq!(pruned.subreports.len(), 1);
    assert_eq!(pruned.subreports[0].progress_id, ProgressId(2));
    assert!(pruned.subreports[0].subreports.is_empty());
    assert_eq!(pruned.discrete(), (1, 2));

    assert_eq!(top.to_pruned(Generation(1)), Some(top.clone()));
    assert_eq!(top.to_pruned(Generation(6)), None);

    let mut in_place = top.clone();
    assert!(!in_place.prune(Generation(6)));
    assert!(in_place.subreports.is_empty());
}

#[test]
fn node_finds_children_and_descendants() {
    let mut ids = IdAllocator::new();
    let mut progress = Progress::new(Task::default(), NopObserver, &mut ids);
    let root = progress.id();
    let a = progress.new_with_parent(Task::default(), root, &mut ids).unwrap().id;
    let b = progress.new_with_parent(Task::default(), root, &mut ids).unwrap().id;
    let c = progress.new_with_parent(Task::default(), b, &mut ids).unwrap().id;

    let node: &Node = progress.root();
    assert_eq!(node.id, root);
    assert_eq!(node.child_ids(), vec![a, b]);
    assert_eq!(node.child(b).unwrap().id, b);
    assert!(node.child(c).is_none());
    assert_eq!(node.get(c).unwrap().id, c);
    assert_eq!(node.path_to(c), Some(vec![0, 1]));
    assert_eq!(node.path_to(root), Some(vec![]));
    assert_eq!(node.path_to(ProgressId(42)), None);
    assert_eq!(node.node_at(&vec![0, 1], 2).id, c);
    assert_eq!(node.node_at(&vec![0, 1], 0).id, root);
    assert_eq!(node.child(b).unwrap().report().subreports.len(), 1);
    assert_eq!(node.child(a).unwrap().partial_report(Generation(0)), None);
}

#[test]
fn setters_change_one_field_each() {
    let mut ids = IdAllocator::new();
    let mut progress = Progress::new(Task::default(), NopObserver, &mut ids);
    let id = progress.id();
    let update = vec![Event::Update(UpdateEvent { id })];

    assert_eq!(progress.set_label(id, Some("a".to_string())), update);
    assert_eq!(progress.set_completed(id, 2), update);
    assert_eq!(progress.set_total(id, 8), update);
    assert_eq!(progress.increment_completed(id), update);
    assert_eq!(progress.increment_completed_by(id, 4), update);
    assert_eq!(progress.set_state(id, State::Paused), update);
    assert_eq!(progress.set_cancelable(id, true), update);
    assert_eq!(progress.set_pausable(id, true), update);

    let task = &progress.root().task;
    assert_eq!(
        *task,
        Task::default()
            .label("a".to_string())
            .completed(7)
            .total(8)
            .state(State::Paused)
            .cancelable(true)
            .pausable(true)
    );
    assert_eq!(progress.last_tree_change(), Generation(8));

    assert_eq!(progress.set_label(id, None), update);
    assert_eq!(progress.label(id), Some(None));
    assert_eq!(progress.label(ProgressId(42)), None);
    assert!(progress.set_total(ProgressId(42), 1).is_empty());
}

#[test]
fn increments_stop_at_the_maximum() {
    let mut ids = IdAllocator::new();
    let mut progress = Progress::new(Task::default(), NopObserver, &mut ids);
    let id = progress.id();

    progress.set_completed(id, usize::MAX - 1);
    progress.increment_completed_by(id, 5);
    assert_eq!(progress.completed(id), Some(usize::MAX));
    progress.increment_completed(id);
    assert_eq!(progress.completed(id), Some(usize::MAX));
}

#[test]
fn channel_observer_sends_events() {
    let (sender, receiver) = mpsc::channel();
    let observer = StdMpscObserver::from(sender);

    observer.observe(Event::GenerationOverflow);
    observer.clone().observe(Event::Update(UpdateEvent { id: ProgressId(1) }));

    assert_eq!(receiver.recv(), Ok(Event::GenerationOverflow));
    assert_eq!(receiver.recv(), Ok(Event::Update(UpdateEvent { id: ProgressId(1) })));

    let sender = mpsc::Sender::from(observer);
    drop(receiver);
    StdMpscObserver { sender }.observe(Event::GenerationOverflow);
}
