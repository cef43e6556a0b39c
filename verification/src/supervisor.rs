//! Supervision of the server process: where its executable lies, how it is
//! launched, the order of the steps at startup, and the single slot that
//! holds the running process until shutdown takes it out.
//!
//! Spawning and terminating are done by the caller. The process handle is
//! whatever the caller uses for it.

use vstd::prelude::*;
use vstd::string::{StrSliceExecFns, StringExecFns};

verus! {

/// The operating system that the launcher runs on.
#[derive(Debug, Clone, Copy, PartialEq, Eq)]
pub enum TargetOs {
    Linux,
    Windows,
    MacOs,
}

/// The separator that is put between the parts of a path.
pub open spec fn separator(os: TargetOs) -> char {
    match os {
        TargetOs::Windows => '\\',
        _ => '/',
    }
}

/// Whether `c` separates the parts of a path.
pub open spec fn is_separator(os: TargetOs, c: char) -> bool {
    c == '/' || (os is Windows && c == '\\')
}

/// The file name of the server's runtime.
pub open spec fn executable_name(os: TargetOs) -> Seq<char> {
    match os {
        TargetOs::Windows => "node.exe"@,
        _ => "node"@,
    }
}

/// The server's entry script, relative to the resource root.
pub open spec fn entry_script() -> Seq<char> {
    "app/index.cjs"@
}

/// The directory of the server's dependencies, relative to the resource root.
pub open spec fn module_directory() -> Seq<char> {
    "app/node_modules"@
}

/// The relative path `rel` below `root`: `rel` itself where `root` is empty,
/// and otherwise `root`, a separator unless `root` ends with one, and `rel`.
pub open spec fn joined(root: Seq<char>, os: TargetOs, rel: Seq<char>) -> Seq<char> {
    if root.len() == 0 {
        rel
    } else if is_separator(os, root.last()) {
        root + rel
    } else {
        root.push(separator(os)) + rel
    }
}

/// The path of `rel` below `root`.
pub fn join_path(root: &str, os: TargetOs, rel: &str) -> (path: String)
    ensures
        path@ == joined(root@, os, rel@),
{
    proof {
        reveal_strlit("/");
        reveal_strlit("\\");
    }
    let mut out = String::from_str(root);
    let n: usize = root.unicode_len();
    if n > 0 {
        let last: char = root.get_char(n - 1);
        let windows: bool = match os {
            TargetOs::Windows => true,
            _ => false,
        };
        if !(last == '/' || (windows && last == '\\')) {
            if windows {
                out.append("\\");
            } else {
                out.append("/");
            }
            assert(out@ == root@.push(separator(os)));
        }
    }
    out.append(rel);
    out
}

/// The path of the server's runtime below the resource root.
pub fn resolve_child_executable(resource_root: &str, os: TargetOs) -> (path: String)
    ensures
        path@ == joined(resource_root@, os, executable_name(os)),
{
    match os {
        TargetOs::Windows => join_path(resource_root, os, "node.exe"),
        _ => join_path(resource_root, os, "node"),
    }
}

/// One variable that is set for the server on top of the environment it
/// inherits.
#[derive(Debug, Clone, PartialEq, Eq)]
pub struct EnvVar {
    pub name: String,
    pub value: String,
}

/// How the server is launched.
#[derive(Debug, Clone, PartialEq, Eq)]
pub struct LaunchPlan {
    pub executable: String,
    pub arguments: Vec<String>,
    pub working_dir: String,
    pub environment: Vec<EnvVar>,
}

/// The launch plan for the resource root `root`: the runtime runs the entry
/// script in the resource root, in production mode and with the prefix of
/// its dependencies.
pub open spec fn is_launch_plan(plan: LaunchPlan, root: Seq<char>, os: TargetOs) -> bool {
    &&& plan.executable@ == joined(root, os, executable_name(os))
    &&& plan.arguments@.len() == 1
    &&& plan.arguments@[0]@ == joined(root, os, entry_script())
    &&& plan.working_dir@ == root
    &&& plan.environment@.len() == 2
    &&& plan.environment@[0].name@ == "NODE_ENV"@
    &&& plan.environment@[0].value@ == "production"@
    &&& plan.environment@[1].name@ == "NPM_PREFIX"@
    &&& plan.environment@[1].value@ == joined(root, os, module_directory())
}

/// The launch plan for the resource root `resource_root`.
pub fn plan_launch(resource_root: &str, os: TargetOs) -> (plan: LaunchPlan)
    ensures
        is_launch_plan(plan, resource_root@, os),
{
    let mut arguments: Vec<String> = Vec::new();
    arguments.push(join_path(resource_root, os, "app/index.cjs"));
    let mut environment: Vec<EnvVar> = Vec::new();
    environment.push(
        EnvVar { name: String::from_str("NODE_ENV"), value: String::from_str("production") },
    );
    environment.push(
        EnvVar {
            name: String::from_str("NPM_PREFIX"),
            value: join_path(resource_root, os, "app/node_modules"),
        },
    );
    LaunchPlan {
        executable: resolve_child_executable(resource_root, os),
        arguments,
        working_dir: String::from_str(resource_root),
        environment,
    }
}

/// Why startup was given up.
#[derive(Debug, Clone, Copy, PartialEq, Eq)]
pub enum StartupError {
    /// The executable is not where the launch plan says.
    ExecutableMissing,
    /// The operating system did not create the process.
    SpawnFailed,
    /// The server did not accept connections in time.
    ReadinessTimeout,
}

/// Where startup stands.
#[derive(Debug, Clone, Copy, PartialEq, Eq)]
pub enum StartupStage {
    /// The executable is being looked for.
    Checking,
    /// The process is being spawned.
    Spawning,
    /// The server is being probed for readiness.
    Probing,
    /// The server is ready.
    Serving,
    /// Startup was given up.
    Aborted,
}

/// What the caller found at startup.
#[derive(Debug, Clone, Copy, PartialEq, Eq)]
pub enum StartupEvent {
    ExecutableFound,
    ExecutableMissing,
    Spawned,
    SpawnRefused,
    Ready,
    NotReady,
}

/// What the caller has to do next at startup.
#[derive(Debug, Clone, Copy, PartialEq, Eq)]
pub enum StartupAction {
    /// Spawn the process as the launch plan says.
    Spawn,
    /// Probe the server for readiness.
    Probe,
    /// Startup is done: serve requests.
    Serve,
    /// Give startup up with this error. Nothing is tried again.
    Abort(StartupError),
    /// The event does not belong to this stage: nothing to do.
    Ignore,
}

/// The stage and the action that `event` leads to at `stage`. An event that
/// does not belong to the stage changes nothing.
pub open spec fn startup_spec(stage: StartupStage, event: StartupEvent) -> (
    StartupStage,
    StartupAction,
) {
    match (stage, event) {
        (StartupStage::Checking, StartupEvent::ExecutableFound) => (
            StartupStage::Spawning,
            StartupAction::Spawn,
        ),
        (StartupStage::Checking, StartupEvent::ExecutableMissing) => (
            StartupStage::Aborted,
            StartupAction::Abort(StartupError::ExecutableMissing),
        ),
        (StartupStage::Spawning, StartupEvent::Spawned) => (
            StartupStage::Probing,
            StartupAction::Probe,
        ),
        (StartupStage::Spawning, StartupEvent::SpawnRefused) => (
            StartupStage::Aborted,
            StartupAction::Abort(StartupError::SpawnFailed),
        ),
        (StartupStage::Probing, StartupEvent::Ready) => (
            StartupStage::Serving,
            StartupAction::Serve,
        ),
        (StartupStage::Probing, StartupEvent::NotReady) => (
            StartupStage::Aborted,
            StartupAction::Abort(StartupError::ReadinessTimeout),
        ),
        _ => (stage, StartupAction::Ignore),
    }
}

/// The stage at which startup begins.
pub fn startup_begin() -> (stage: StartupStage)
    ensures
        stage == StartupStage::Checking,
{
    StartupStage::Checking
}

/// Takes `event` at `stage` and says where startup stands then and what to
/// do next.
pub fn startup_step(stage: StartupStage, event: StartupEvent) -> (next: (
    StartupStage,
    StartupAction,
))
    ensures
        next == startup_spec(stage, event),
{
    match stage {
        StartupStage::Checking => match event {
            StartupEvent::ExecutableFound => (StartupStage::Spawning, StartupAction::Spawn),
            StartupEvent::ExecutableMissing => (
                StartupStage::Aborted,
                StartupAction::Abort(StartupError::ExecutableMissing),
            ),
            _ => (stage, StartupAction::Ignore),
        },
        StartupStage::Spawning => match event {
            StartupEvent::Spawned => (StartupStage::Probing, StartupAction::Probe),
            StartupEvent::SpawnRefused => (
                StartupStage::Aborted,
                StartupAction::Abort(StartupError::SpawnFailed),
            ),
            _ => (stage, StartupAction::Ignore),
        },
        StartupStage::Probing => match event {
            StartupEvent::Ready => (StartupStage::Serving, StartupAction::Serve),
            StartupEvent::NotReady => (
                StartupStage::Aborted,
                StartupAction::Abort(StartupError::ReadinessTimeout),
            ),
            _ => (stage, StartupAction::Ignore),
        },
        _ => (stage, StartupAction::Ignore),
    }
}

/// Readiness is probed only after a spawn has succeeded, and requests are
/// served only after the probe has found the server ready.
pub proof fn lemma_startup_order(stage: StartupStage, event: StartupEvent)
    ensures
        startup_spec(stage, event).1 is Probe ==> stage is Spawning && event is Spawned,
        startup_spec(stage, event).1 is Serve ==> stage is Probing && event is Ready,
        startup_spec(stage, event).1 is Spawn ==> stage is Checking && event is ExecutableFound,
        (stage is Serving || stage is Aborted) ==> startup_spec(stage, event) == (
            stage,
            StartupAction::Ignore,
        ),
{
}

/// The stage that startup has reached after `events`, taken in turn from
/// the beginning.
pub open spec fn stage_after(events: Seq<StartupEvent>) -> StartupStage
    decreases events.len(),
{
    if events.len() == 0 {
        StartupStage::Checking
    } else {
        startup_spec(stage_after(events.drop_last()), events.last()).0
    }
}

/// Startup reaches each stage only over the ones before it: spawning after
/// the executable was found, probing after the spawn succeeded as well, and
/// serving after the probe found the server ready on top of that. A refused
/// spawn or a server that is not ready never leads to serving.
pub proof fn lemma_serving_needs_ready(events: Seq<StartupEvent>)
    ensures
        stage_after(events) is Spawning ==> exists|i: int|
            0 <= i < events.len() && #[trigger] events[i] is ExecutableFound,
        stage_after(events) is Probing ==> exists|i: int, j: int|
            0 <= i < j < events.len() && #[trigger] events[i] is ExecutableFound
                && #[trigger] events[j] is Spawned,
        stage_after(events) is Serving ==> exists|i: int, j: int, k: int|
            0 <= i < j < k < events.len() && #[trigger] events[i] is ExecutableFound
                && #[trigger] events[j] is Spawned && #[trigger] events[k] is Ready,
    decreases events.len(),
{
    if events.len() > 0 {
        let front = events.drop_last();
        let last = events.len() - 1;
        lemma_serving_needs_ready(front);
        let before = stage_after(front);
        if stage_after(events) is Spawning {
            if before is Spawning {
                let i = choose|i: int| 0 <= i < front.len() && #[trigger] front[i] is ExecutableFound;
                assert(events[i] is ExecutableFound);
            } else {
                assert(events[last] is ExecutableFound);
            }
        }
        if stage_after(events) is Probing {
            if before is Probing {
                let (i, j) = choose|i: int, j: int|
                    0 <= i < j < front.len() && #[trigger] front[i] is ExecutableFound
                        && #[trigger] front[j] is Spawned;
                assert(events[i] is ExecutableFound && events[j] is Spawned);
            } else {
                let i = choose|i: int| 0 <= i < front.len() && #[trigger] front[i] is ExecutableFound;
                assert(events[i] is ExecutableFound && events[last] is Spawned);
            }
        }
        if stage_after(events) is Serving {
            if before is Serving {
                let (i, j, k) = choose|i: int, j: int, k: int|
                    0 <= i < j < k < front.len() && #[trigger] front[i] is ExecutableFound
                        && #[trigger] front[j] is Spawned && #[trigger] front[k] is Ready;
                assert(events[i] is ExecutableFound && events[j] is Spawned && events[k] is Ready);
            } else {
                let (i, j) = choose|i: int, j: int|
                    0 <= i < j < front.len() && #[trigger] front[i] is ExecutableFound
                        && #[trigger] front[j] is Spawned;
                assert(events[i] is ExecutableFound && events[j] is Spawned && events[last]
                    is Ready);
            }
        }
    }
}

/// A running server process: the caller's handle for it and the time at
/// which it was spawned, in milliseconds since a start that the caller picks.
pub struct SupervisedProcess<H> {
    pub handle: H,
    pub spawned_at_ms: u64,
}

/// The slot for the one server process of a launcher run.
pub struct ProcessSlot<H> {
    held: Option<SupervisedProcess<H>>,
}

/// What to do when the host asks to exit.
pub enum ShutdownAction<H> {
    /// Terminate this process, without waiting for it to exit.
    Terminate(SupervisedProcess<H>),
    /// No process is held: nothing to do.
    Nothing,
}

impl<H> ProcessSlot<H> {
    /// The process that the slot holds, if it holds one.
    pub closed spec fn view(&self) -> Option<SupervisedProcess<H>> {
        self.held
    }

    /// A slot that holds nothing.
    pub fn empty() -> (slot: ProcessSlot<H>)
        ensures
            slot@ is None,
    {
        ProcessSlot { held: None }
    }

    /// Whether the slot holds nothing.
    pub fn is_empty(&self) -> (r: bool)
        ensures
            r == (self@ is None),
    {
        self.held.is_none()
    }

    /// Puts `process` into the slot if it is empty. A slot that holds a
    /// process keeps it, and `process` is handed back.
    pub fn set(&mut self, process: SupervisedProcess<H>) -> (refused: Option<SupervisedProcess<H>>)
        ensures
            old(self)@ is None ==> final(self)@ == Some(process) && refused is None,
            old(self)@ is Some ==> final(self)@ == old(self)@ && refused == Some(process),
    {
        if self.held.is_none() {
            self.held = Some(process);
            None
        } else {
            Some(process)
        }
    }

    /// Empties the slot and hands out what it held.
    pub fn take(&mut self) -> (taken: Option<SupervisedProcess<H>>)
        ensures
            (final(self)@, taken) == take_spec(old(self)@),
    {
        let mut taken: Option<SupervisedProcess<H>> = None;
        core::mem::swap(&mut self.held, &mut taken);
        taken
    }

    /// Answers the host's request to exit: the slot is emptied, and the
    /// process that it held is to be terminated.
    pub fn on_exit_requested(&mut self) -> (action: ShutdownAction<H>)
        ensures
            final(self)@ == take_spec(old(self)@).0,
            action == exit_action(take_spec(old(self)@).1),
    {
        match self.take() {
            Some(process) => ShutdownAction::Terminate(process),
            None => ShutdownAction::Nothing,
        }
    }
}

/// Puts `process` into `slot` when startup has reached serving and the slot
/// is empty. At any other stage, and with a slot that holds a process, the
/// slot stays as it is and `process` is handed back: the slot never holds a
/// process whose server was not found ready.
pub fn store_when_ready<H>(
    slot: &mut ProcessSlot<H>,
    stage: StartupStage,
    process: SupervisedProcess<H>,
) -> (refused: Option<SupervisedProcess<H>>)
    ensures
        stage is Serving && old(slot)@ is None ==> final(slot)@ == Some(process) && refused
            is None,
        !(stage is Serving && old(slot)@ is None) ==> final(slot)@ == old(slot)@ && refused
            == Some(process),
{
    match stage {
        StartupStage::Serving => slot.set(process),
        _ => Some(process),
    }
}

/// A take on a slot that holds `held`: what the slot holds afterwards, which
/// is nothing, and what is handed out, which is `held`.
pub open spec fn take_spec<H>(held: Option<SupervisedProcess<H>>) -> (
    Option<SupervisedProcess<H>>,
    Option<SupervisedProcess<H>>,
) {
    (None, held)
}

/// What is to be done with what a request to exit took out of the slot.
pub open spec fn exit_action<H>(taken: Option<SupervisedProcess<H>>) -> ShutdownAction<H> {
    match taken {
        Some(process) => ShutdownAction::Terminate(process),
        None => ShutdownAction::Nothing,
    }
}

/// After a take the slot is empty: a second take hands out nothing and
/// leaves the slot empty, and a second request to exit terminates nothing.
pub proof fn lemma_take_once<H>(held: Option<SupervisedProcess<H>>)
    ensures
        take_spec(held).0 is None,
        take_spec(take_spec(held).0) == (
            None::<SupervisedProcess<H>>,
            None::<SupervisedProcess<H>>,
        ),
        exit_action(take_spec(take_spec(held).0).1) is Nothing,
{
}

} // verus!
