use sidecar_bridge::supervisor::{
    join_path, plan_launch, resolve_child_executable, startup_begin, startup_step,
    store_when_ready, EnvVar, ProcessSlot, ShutdownAction, StartupAction, StartupError,
    StartupEvent, StartupStage, SupervisedProcess, TargetOs,
};

#[test]
fn executable_per_operating_system() {
    assert_eq!(resolve_child_executable("/opt/app/resources", TargetOs::Linux), "/opt/app/resources/node");
    assert_eq!(
        resolve_child_executable("/Applications/App.app/Contents/Resources", TargetOs::MacOs),
        "/Applications/App.app/Contents/Resources/node"
    );
    assert_eq!(
        resolve_child_executable("C:\\Program Files\\App\\resources", TargetOs::Windows),
        "C:\\Program Files\\App\\resources\\node.exe"
    );
}

#[test]
fn joining_paths() {
    assert_eq!(join_path("", TargetOs::Linux, "node"), "node");
    assert_eq!(join_path("/", TargetOs::Linux, "node"), "/node");
    assert_eq!(join_path("/res/", TargetOs::Linux, "node"), "/res/node");
    assert_eq!(join_path("/res\\", TargetOs::Linux, "node"), "/res\\/node");
    assert_eq!(join_path("C:\\res\\", TargetOs::Windows, "node.exe"), "C:\\res\\node.exe");
    assert_eq!(join_path("C:/res/", TargetOs::Windows, "node.exe"), "C:/res/node.exe");
    assert_eq!(join_path("C:/res", TargetOs::Windows, "node.exe"), "C:/res\\node.exe");
    assert_eq!(join_path("/r\u{e9}s", TargetOs::MacOs, "app/index.cjs"), "/r\u{e9}s/app/index.cjs");
}

#[test]
fn joining_agrees_with_the_standard_library_here() {
    for root in ["", "/", "/res", "/res/", "rel/dir", "/a b/c"] {
        let expected = std::path::Path::new(root).join("app/index.cjs");
        assert_eq!(join_path(root, TargetOs::Linux, "app/index.cjs"), expected.to_str().unwrap());
    }
}

#[test]
fn launch_plan() {
    let plan = plan_launch("/res", TargetOs::Linux);
    assert_eq!(plan.executable, "/res/node");
    assert_eq!(plan.arguments, vec!["/res/app/index.cjs".to_string()]);
    assert_eq!(plan.working_dir, "/res");
    assert_eq!(
        plan.environment,
        vec![
            EnvVar { name: "NODE_ENV".to_string(), value: "production".to_string() },
            EnvVar { name: "NPM_PREFIX".to_string(), value: "/res/app/node_modules".to_string() },
        ]
    );
    let plan = plan_launch("D:\\r", TargetOs::Windows);
    assert_eq!(plan.executable, "D:\\r\\node.exe");
    assert_eq!(plan.arguments, vec!["D:\\r\\app/index.cjs".to_string()]);
    assert_eq!(plan.environment[1].value, "D:\\r\\app/node_modules");
}

#[test]
fn startup_in_order() {
    let s = startup_begin();
    assert_eq!(s, StartupStage::Checking);
    let (s, a) = startup_step(s, StartupEvent::ExecutableFound);
    assert_eq!((s, a), (StartupStage::Spawning, StartupAction::Spawn));
    let (s, a) = startup_step(s, StartupEvent::Spawned);
    assert_eq!((s, a), (StartupStage::Probing, StartupAction::Probe));
    let (s, a) = startup_step(s, StartupEvent::Ready);
    assert_eq!((s, a), (StartupStage::Serving, StartupAction::Serve));
    assert_eq!(startup_step(s, StartupEvent::Ready), (StartupStage::Serving, StartupAction::Ignore));
}

#[test]
fn startup_failures_abort() {
    assert_eq!(
        startup_step(StartupStage::Checking, StartupEvent::ExecutableMissing),
        (StartupStage::Aborted, StartupAction::Abort(StartupError::ExecutableMissing))
    );
    assert_eq!(
        startup_step(StartupStage::Spawning, StartupEvent::SpawnRefused),
        (StartupStage::Aborted, StartupAction::Abort(StartupError::SpawnFailed))
    );
    assert_eq!(
        startup_step(StartupStage::Probing, StartupEvent::NotReady),
        (StartupStage::Aborted, StartupAction::Abort(StartupError::ReadinessTimeout))
    );
    for event in [
        StartupEvent::ExecutableFound,
        StartupEvent::ExecutableMissing,
        StartupEvent::Spawned,
        StartupEvent::SpawnRefused,
        StartupEvent::Ready,
        StartupEvent::NotReady,
    ] {
        assert_eq!(
            startup_step(StartupStage::Aborted, event),
            (StartupStage::Aborted, StartupAction::Ignore)
        );
    }
}

#[test]
fn startup_never_probes_before_a_spawn() {
    let stages = [
        StartupStage::Checking,
        StartupStage::Spawning,
        StartupStage::Probing,
        StartupStage::Serving,
        StartupStage::Aborted,
    ];
    let events = [
        StartupEvent::ExecutableFound,
        StartupEvent::ExecutableMissing,
        StartupEvent::Spawned,
        StartupEvent::SpawnRefused,
        StartupEvent::Ready,
        StartupEvent::NotReady,
    ];
    for stage in stages {
        for event in events {
            let (_, action) = startup_step(stage, event);
            if action == StartupAction::Probe {
                assert_eq!((stage, event), (StartupStage::Spawning, StartupEvent::Spawned));
            }
            if action == StartupAction::Serve {
                assert_eq!((stage, event), (StartupStage::Probing, StartupEvent::Ready));
            }
        }
    }
}

#[test]
fn slot_take_empties_the_slot() {
    let mut slot: ProcessSlot<u32> = ProcessSlot::empty();
    assert!(slot.is_empty());
    assert!(slot.take().is_none());
    assert!(slot.set(SupervisedProcess { handle: 41, spawned_at_ms: 5 }).is_none());
    assert!(!slot.is_empty());
    let taken = slot.take().unwrap();
    assert_eq!((taken.handle, taken.spawned_at_ms), (41, 5));
    assert!(slot.is_empty());
    assert!(slot.take().is_none());
    assert!(slot.is_empty());
}

#[test]
fn slot_keeps_the_first_process() {
    let mut slot: ProcessSlot<&str> = ProcessSlot::empty();
    assert!(slot.set(SupervisedProcess { handle: "first", spawned_at_ms: 1 }).is_none());
    let refused = slot.set(SupervisedProcess { handle: "second", spawned_at_ms: 2 }).unwrap();
    assert_eq!(refused.handle, "second");
    assert_eq!(slot.take().unwrap().handle, "first");
}

#[test]
fn exit_terminates_at_most_once() {
    let mut slot: ProcessSlot<u32> = ProcessSlot::empty();
    slot.set(SupervisedProcess { handle: 7, spawned_at_ms: 0 });
    let mut terminated: Vec<u32> = Vec::new();
    for _ in 0..3 {
        match slot.on_exit_requested() {
            ShutdownAction::Terminate(p) => terminated.push(p.handle),
            ShutdownAction::Nothing => {}
        }
    }
    assert_eq!(terminated, vec![7]);
    let mut never_set: ProcessSlot<u32> = ProcessSlot::empty();
    assert!(matches!(never_set.on_exit_requested(), ShutdownAction::Nothing));
}

#[test]
fn process_is_stored_only_when_the_server_is_ready() {
    for stage in [
        StartupStage::Checking,
        StartupStage::Spawning,
        StartupStage::Probing,
        StartupStage::Aborted,
    ] {
        let mut slot: ProcessSlot<u32> = ProcessSlot::empty();
        let refused = store_when_ready(&mut slot, stage, SupervisedProcess { handle: 9, spawned_at_ms: 3 });
        assert_eq!(refused.unwrap().handle, 9);
        assert!(slot.is_empty());
    }
    let mut slot: ProcessSlot<u32> = ProcessSlot::empty();
    let stored = store_when_ready(
        &mut slot,
        StartupStage::Serving,
        SupervisedProcess { handle: 9, spawned_at_ms: 3 },
    );
    assert!(stored.is_none());
    let second = store_when_ready(
        &mut slot,
        StartupStage::Serving,
        SupervisedProcess { handle: 10, spawned_at_ms: 4 },
    );
    assert_eq!(second.unwrap().handle, 10);
    let held = slot.take().unwrap();
    assert_eq!((held.handle, held.spawned_at_ms), (9, 3));
}

#[test]
fn failed_startup_leaves_the_slot_empty() {
    for (events, error) in [
        (vec![StartupEvent::ExecutableMissing], StartupError::ExecutableMissing),
        (vec![StartupEvent::ExecutableFound, StartupEvent::SpawnRefused], StartupError::SpawnFailed),
        (
            vec![StartupEvent::ExecutableFound, StartupEvent::Spawned, StartupEvent::NotReady],
            StartupError::ReadinessTimeout,
        ),
    ] {
        let mut slot: ProcessSlot<u32> = ProcessSlot::empty();
        let mut stage = startup_begin();
        let mut last = StartupAction::Ignore;
        for event in events {
            let (next, action) = startup_step(stage, event);
            stage = next;
            last = action;
        }
        assert_eq!(last, StartupAction::Abort(error));
        assert_eq!(stage, StartupStage::Aborted);
        assert!(store_when_ready(&mut slot, stage, SupervisedProcess { handle: 1, spawned_at_ms: 0 })
            .is_some());
        assert!(slot.is_empty());
    }
}
