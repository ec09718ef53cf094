//! The supervisor: owner of the single process slot.
//!
//! Launching and killing are the caller's work. The supervisor plans a launch,
//! takes its outcome, and plans a termination; between those calls it keeps
//! track of the one process that counts as current. The slot changes on a
//! spawn, on a stop, and when the watcher of the current process reports its
//! end. The caller guards the supervisor with a lock and makes each call under
//! it, so that every change of the slot is one step.

use vstd::prelude::*;
use vstd::string::*;
use crate::shell::{resolve_shell, shell_command_flag, shell_program, Invocation, Platform};
use crate::streamer::{OutputStreamer, StreamKind, StreamerState};
use crate::text::{decimal, decimal_text};
use crate::watcher::{
    action_on, probe_for, reported_after, CompletionWatcher, Probe, WaitOutcome, WatchAction,
    WatcherState,
};

verus! {

/// A command line to run, and where to run it.
#[derive(Debug)]
pub struct Command {
    pub text: String,
    /// The directory to run in. Without one, the command runs in the directory
    /// of the hosting process.
    pub working_directory: Option<String>,
}

/// How a standard stream of the new process is connected.
#[derive(Clone, Copy, Debug, PartialEq, Eq, Structural)]
pub enum Redirect {
    /// Into a pipe that the caller reads.
    Piped,
    /// To nothing.
    Null,
}

/// The window flag for processes on Windows: no console window.
pub const CREATE_NO_WINDOW: u32 = 0x0800_0000;

/// Everything the caller needs to launch a command.
#[derive(Debug)]
pub struct LaunchPlan {
    pub invocation: Invocation,
    pub working_dir: String,
    pub stdin: Redirect,
    pub stdout: Redirect,
    pub stderr: Redirect,
    /// Process creation flags, where the platform has them.
    pub creation_flags: Option<u32>,
}

/// One launched process: its identifier and the caller's handle for waiting
/// and killing.
pub struct RunningProcess<H> {
    pub pid: u32,
    pub handle: H,
}

/// What a successful launch hands over: the process and its two output pipes.
pub struct Launched<H, P> {
    pub process: RunningProcess<H>,
    pub stdout: P,
    pub stderr: P,
}

/// A streamer together with the pipe it is to read.
pub struct StreamTask<P> {
    pub streamer: OutputStreamer,
    pub pipe: P,
}

/// The three tasks to start for a launched process.
pub struct SpawnedTasks<P> {
    pub stdout: StreamTask<P>,
    pub stderr: StreamTask<P>,
    pub watcher: CompletionWatcher,
}

/// The operating system did not create the process.
#[derive(Debug, PartialEq, Eq)]
pub struct SpawnError {
    /// The operating system's account of the failure.
    pub detail: String,
}

/// Why `stop` did not end in success.
#[derive(Debug, PartialEq, Eq)]
pub enum StopError {
    /// The slot was empty: nothing to stop.
    NoProcess,
    /// The graceful request was refused. The process was killed all the same.
    TerminationFailed { detail: String },
}

/// The request that a process can notice and react to before it is killed.
#[derive(Debug)]
pub enum GracefulStep {
    /// Send the termination signal to the process `target`.
    Signal { target: i32 },
    /// Run a program that ends the process and the processes it started.
    KillTree { invocation: Invocation },
}

/// A process taken out of the slot, with the first step of ending it. After
/// that step, however it went, the caller kills the process through its
/// handle, and hands both results to `conclude_stop`.
pub struct Termination<H> {
    pub process: RunningProcess<H>,
    pub graceful: GracefulStep,
}

/// What one round of a watcher ends in.
pub struct WatchRound<H> {
    /// What the watcher's loop does next.
    pub action: WatchAction,
    /// The process that the round took out of the slot, if it did.
    pub finished: Option<RunningProcess<H>>,
}

/// The state of a supervisor as contracts see it.
pub struct SupervisorState<H> {
    pub platform: Platform,
    /// The process that is current, if there is one.
    pub slot: Option<RunningProcess<H>>,
}

impl<H> SupervisorState<H> {
    /// Whether the slot holds the process `pid`.
    pub open spec fn tracks(self, pid: u32) -> bool {
        self.slot matches Some(process) && process.pid == pid
    }

    /// The state once `process` has been launched: it alone is current.
    pub open spec fn with_current(self, process: RunningProcess<H>) -> Self {
        SupervisorState { slot: Some(process), ..self }
    }

    /// The state once the slot has been emptied.
    pub open spec fn vacated(self) -> Self {
        SupervisorState { slot: None, ..self }
    }

    /// The state once the process `pid` is over: the slot is emptied if it
    /// holds that process, and left alone if it holds another or none.
    pub open spec fn without(self, pid: u32) -> Self {
        if self.tracks(pid) {
            self.vacated()
        } else {
            self
        }
    }

    /// What a look for the process `pid` shows in this state, where the
    /// operating system would say `status` of that process.
    pub open spec fn probe(self, pid: u32, status: WaitOutcome) -> Probe {
        if self.tracks(pid) {
            probe_for(Some(status))
        } else {
            probe_for(None)
        }
    }
}

/// The directory a command runs in: its own if it names one, else the
/// directory of the hosting process, else the empty path.
pub open spec fn working_dir_of(
    working_directory: Option<String>,
    process_dir: Option<String>,
) -> Seq<char> {
    match working_directory {
        Some(dir) => dir@,
        None => match process_dir {
            Some(dir) => dir@,
            None => Seq::empty(),
        },
    }
}

/// The creation flags for processes on `platform`.
pub open spec fn creation_flags_on(platform: Platform) -> Option<u32> {
    match platform {
        Platform::Windows => Some(CREATE_NO_WINDOW),
        _ => None,
    }
}

/// The process identifier as the signed number that signals are sent to: the
/// same 32 bits.
pub open spec fn signal_target(pid: u32) -> int {
    if pid <= i32::MAX {
        pid as int
    } else {
        pid - 0x1_0000_0000
    }
}

/// The arguments that make `taskkill` end the process `pid` and its
/// descendants by force.
pub open spec fn kill_tree_args(pid: u32) -> Seq<Seq<char>> {
    seq!["/PID"@, decimal(pid as nat), "/T"@, "/F"@]
}

impl GracefulStep {
    /// Whether this is the graceful step for the process `pid` on `platform`:
    /// on Windows `taskkill` on the process tree, elsewhere the termination
    /// signal.
    pub open spec fn is_for(&self, platform: Platform, pid: u32) -> bool {
        match platform {
            Platform::Windows => *self matches GracefulStep::KillTree { invocation }
                && invocation.program_text() == "taskkill"@ && invocation.arg_texts()
                == kill_tree_args(pid),
            _ => *self matches GracefulStep::Signal { target } && target == signal_target(pid),
        }
    }
}

impl SpawnError {
    /// The message for the user, as a text.
    pub open spec fn message_text(&self) -> Seq<char> {
        "Failed to spawn process: "@ + self.detail@
    }

    /// The message for the user.
    pub fn message(&self) -> (message: String)
        ensures
            message@ == self.message_text(),
    {
        String::from_str("Failed to spawn process: ").concat(self.detail.as_str())
    }
}

impl StopError {
    /// The message for the user, as a text.
    pub open spec fn message_text(&self) -> Seq<char> {
        match self {
            StopError::NoProcess => "No process running"@,
            StopError::TerminationFailed { detail } => "Failed to kill process: "@ + detail@,
        }
    }

    /// The message for the user.
    pub fn message(&self) -> (message: String)
        ensures
            message@ == self.message_text(),
    {
        match self {
            StopError::NoProcess => String::from_str("No process running"),
            StopError::TerminationFailed { detail } => String::from_str(
                "Failed to kill process: ",
            ).concat(detail.as_str()),
        }
    }
}

/// Owner of the slot for the one process that is currently tracked.
pub struct ProcessSupervisor<H> {
    platform: Platform,
    slot: Option<RunningProcess<H>>,
}

impl<H> View for ProcessSupervisor<H> {
    type V = SupervisorState<H>;

    closed spec fn view(&self) -> SupervisorState<H> {
        SupervisorState { platform: self.platform, slot: self.slot }
    }
}

impl<H> ProcessSupervisor<H> {
    /// A supervisor for `platform` with an empty slot.
    pub fn new(platform: Platform) -> (supervisor: Self)
        ensures
            supervisor@ == (SupervisorState::<H> { platform, slot: None }),
    {
        ProcessSupervisor { platform, slot: None }
    }

    /// The platform this supervisor plans for.
    pub fn platform(&self) -> (platform: Platform)
        ensures
            platform == self@.platform,
    {
        self.platform
    }

    /// The identifier of the current process, if there is one.
    pub fn current_pid(&self) -> (pid: Option<u32>)
        ensures
            match self@.slot {
                Some(process) => pid == Some(process.pid),
                None => pid is None,
            },
    {
        match &self.slot {
            Some(process) => Some(process.pid),
            None => None,
        }
    }

    /// Whether the process `pid` is the current one.
    pub fn is_tracking(&self, pid: u32) -> (tracking: bool)
        ensures
            tracking == self@.tracks(pid),
    {
        match &self.slot {
            Some(process) => process.pid == pid,
            None => false,
        }
    }

    /// First half of a spawn: how to launch `command`. The shell of the
    /// platform runs the command line; its output goes into two pipes and its
    /// input is connected to nothing. `process_dir` is the directory of the
    /// hosting process, or `None` if it cannot be told.
    pub fn plan_launch(&self, command: Command, process_dir: Option<String>) -> (plan: LaunchPlan)
        ensures
            plan.invocation.program_text() == shell_program(self@.platform),
            plan.invocation.arg_texts() == seq![
                shell_command_flag(self@.platform),
                command.text@,
            ],
            plan.working_dir@ == working_dir_of(command.working_directory, process_dir),
            plan.stdin == Redirect::Null,
            plan.stdout == Redirect::Piped,
            plan.stderr == Redirect::Piped,
            plan.creation_flags == creation_flags_on(self@.platform),
    {
        let invocation = resolve_shell(self.platform, command.text.as_str());
        let working_dir = match command.working_directory {
            Some(dir) => dir,
            None => match process_dir {
                Some(dir) => dir,
                None => String::new(),
            },
        };
        let creation_flags = match self.platform {
            Platform::Windows => Some(CREATE_NO_WINDOW),
            _ => None,
        };
        LaunchPlan {
            invocation,
            working_dir,
            stdin: Redirect::Null,
            stdout: Redirect::Piped,
            stderr: Redirect::Piped,
            creation_flags,
        }
    }

    /// Second half of a spawn: takes the outcome of the launch.
    ///
    /// A launched process becomes the current one, whatever the slot held
    /// before: an earlier process is dropped from the slot and not killed. The
    /// result names the three tasks to start, each pipe with the streamer for
    /// its stream. A failed launch leaves the slot as it was and starts
    /// nothing.
    pub fn complete_spawn<P>(&mut self, launch: Result<Launched<H, P>, String>) -> (started: Result<
        SpawnedTasks<P>,
        SpawnError,
    >)
        ensures
            match launch {
                Ok(launched) => {
                    &&& final(self)@ == old(self)@.with_current(launched.process)
                    &&& started matches Ok(tasks)
                    &&& tasks.stdout.pipe == launched.stdout
                    &&& tasks.stdout.streamer@ == (StreamerState {
                        stream: StreamKind::Stdout,
                        pending: Seq::empty(),
                        open: true,
                    })
                    &&& tasks.stderr.pipe == launched.stderr
                    &&& tasks.stderr.streamer@ == (StreamerState {
                        stream: StreamKind::Stderr,
                        pending: Seq::empty(),
                        open: true,
                    })
                    &&& tasks.watcher@ == (WatcherState {
                        pid: launched.process.pid,
                        reported: false,
                    })
                },
                Err(detail) => {
                    &&& final(self)@ == old(self)@
                    &&& started == Err::<SpawnedTasks<P>, SpawnError>(SpawnError { detail })
                },
            },
    {
        match launch {
            Ok(launched) => {
                let watcher = CompletionWatcher::new(launched.process.pid);
                self.slot = Some(launched.process);
                Ok(
                    SpawnedTasks {
                        stdout: StreamTask {
                            streamer: OutputStreamer::new(StreamKind::Stdout),
                            pipe: launched.stdout,
                        },
                        stderr: StreamTask {
                            streamer: OutputStreamer::new(StreamKind::Stderr),
                            pipe: launched.stderr,
                        },
                        watcher,
                    },
                )
            },
            Err(detail) => Err(SpawnError { detail }),
        }
    }

    /// The handle of the process `pid`, for as long as the slot holds that
    /// process; `None` once it was stopped or replaced.
    pub fn handle_of(&mut self, pid: u32) -> (handle: Option<&mut H>)
        ensures
            final(self)@.platform == old(self)@.platform,
            match handle {
                Some(h) => {
                    &&& old(self)@.slot matches Some(process)
                    &&& process.pid == pid
                    &&& *h == process.handle
                    &&& final(self)@.slot == Some(RunningProcess { pid, handle: *final(h) })
                },
                None => !old(self)@.tracks(pid) && final(self)@.slot == old(self)@.slot,
            },
    {
        match &mut self.slot {
            Some(process) => {
                if process.pid == pid {
                    Some(&mut process.handle)
                } else {
                    None
                }
            },
            None => None,
        }
    }

    /// The process `pid` is over: if the slot still holds it, the slot is
    /// emptied and the process handed out. A slot that holds another process,
    /// or none, stays as it is.
    pub fn finish(&mut self, pid: u32) -> (finished: Option<RunningProcess<H>>)
        ensures
            final(self)@ == old(self)@.without(pid),
            match finished {
                Some(process) => old(self)@.slot == Some(process) && process.pid == pid,
                None => !old(self)@.tracks(pid),
            },
    {
        if self.is_tracking(pid) {
            self.slot.take()
        } else {
            None
        }
    }

    /// One round of the watcher `watcher`, made under the lock under which
    /// the caller looked: `probe` is what the look showed. The watcher says
    /// what to do next, and where it reports the end of its process, the
    /// process leaves the slot in the same step, so that a later stop finds
    /// nothing to stop.
    pub fn watch_round(&mut self, watcher: &mut CompletionWatcher, probe: Probe) -> (round:
        WatchRound<H>)
        ensures
            round.action == action_on(old(watcher)@.reported, probe),
            final(watcher)@ == (WatcherState {
                pid: old(watcher)@.pid,
                reported: reported_after(old(watcher)@.reported, probe),
            }),
            final(self)@ == if round.action == WatchAction::Report {
                old(self)@.without(old(watcher)@.pid)
            } else {
                old(self)@
            },
            round.finished == if round.action == WatchAction::Report && old(self)@.tracks(
                old(watcher)@.pid,
            ) {
                old(self)@.slot
            } else {
                None
            },
    {
        let pid = watcher.pid();
        let action = watcher.observe(probe);
        let finished = match action {
            WatchAction::Report => self.finish(pid),
            _ => None,
        };
        WatchRound { action, finished }
    }

    /// First half of a stop: empties the slot and hands out what it held,
    /// with the graceful step for it. An empty slot gives `NoProcess` and
    /// stays as it is.
    pub fn stop(&mut self) -> (taken: Result<Termination<H>, StopError>)
        ensures
            final(self)@ == old(self)@.vacated(),
            match old(self)@.slot {
                Some(process) => {
                    &&& taken matches Ok(termination)
                    &&& termination.process == process
                    &&& termination.graceful.is_for(old(self)@.platform, process.pid)
                },
                None => taken == Err::<Termination<H>, StopError>(StopError::NoProcess),
            },
    {
        match self.slot.take() {
            Some(process) => {
                let graceful = graceful_step(self.platform, process.pid);
                Ok(Termination { process, graceful })
            },
            None => Err(StopError::NoProcess),
        }
    }
}

/// Second half of a stop: the result of the stop, given how the graceful step
/// and the kill that followed it went. A refused graceful step is the only
/// failure that is reported; how the kill went changes nothing.
pub fn conclude_stop(graceful: Result<(), String>, forced: Result<(), String>) -> (stopped: Result<
    (),
    StopError,
>)
    ensures
        match graceful {
            Ok(_) => stopped is Ok,
            Err(detail) => stopped == Err::<(), StopError>(StopError::TerminationFailed { detail }),
        },
{
    match graceful {
        Ok(_) => Ok(()),
        Err(detail) => Err(StopError::TerminationFailed { detail }),
    }
}

/// The graceful step that ends the process `pid` on `platform`.
pub fn graceful_step(platform: Platform, pid: u32) -> (step: GracefulStep)
    ensures
        step.is_for(platform, pid),
{
    match platform {
        Platform::Windows => {
            let mut args: Vec<String> = Vec::new();
            args.push(String::from_str("/PID"));
            args.push(decimal_text(pid));
            args.push(String::from_str("/T"));
            args.push(String::from_str("/F"));
            let invocation = Invocation { program: String::from_str("taskkill"), args };
            assert(invocation.arg_texts() =~= kill_tree_args(pid));
            GracefulStep::KillTree { invocation }
        },
        _ => {
            let target: i32 = if pid <= 0x7fff_ffff {
                pid as i32
            } else {
                (pid as i64 - 0x1_0000_0000) as i32
            };
            GracefulStep::Signal { target }
        },
    }
}

/// A stop is seen by the watcher: once the slot has been emptied, a look for
/// any process finds it vacated, whatever the operating system would say of the
/// process, and a watcher that has not reported yet answers with the
/// completion signal.
pub proof fn lemma_stop_ends_watch<H>(state: SupervisorState<H>, pid: u32, status: WaitOutcome)
    ensures
        state.vacated().probe(pid, status) == Probe::Vacated,
        action_on(false, state.vacated().probe(pid, status)) == WatchAction::Report,
{
}

/// A spawn is seen by the watcher of the process before it: once another
/// process has taken the slot, a look for the earlier one finds the slot
/// vacated.
pub proof fn lemma_takeover_ends_watch<H>(
    state: SupervisorState<H>,
    process: RunningProcess<H>,
    pid: u32,
    status: WaitOutcome,
)
    requires
        process.pid != pid,
    ensures
        state.with_current(process).probe(pid, status) == Probe::Vacated,
        action_on(false, state.with_current(process).probe(pid, status)) == WatchAction::Report,
{
}

/// A process that is over cannot be stopped: once the watcher of the process
/// in the slot has reported, the slot is empty, and a look for that process
/// finds it vacated.
pub proof fn lemma_completion_empties_slot<H>(
    state: SupervisorState<H>,
    pid: u32,
    status: WaitOutcome,
)
    requires
        state.tracks(pid),
    ensures
        state.without(pid).slot is None,
        state.without(pid).probe(pid, status) == Probe::Vacated,
{
}

} // verus!
