//! Detecting that a watched process is over, and saying so once.
//!
//! The watcher polls. Each round the caller looks at the process slot and at
//! the process, under one lock, and hands over what it saw. The watcher answers
//! with what to do next; the supervisor's round around it takes a process that
//! is over out of the slot in the same step.

use vstd::prelude::*;

verus! {

/// Milliseconds to sleep between two rounds while the process runs.
pub const POLL_INTERVAL_MS: u64 = 500;

/// What one look at the slot and the process showed.
#[derive(Clone, Copy, Debug, PartialEq, Eq, Structural)]
pub enum Probe {
    /// The slot no longer holds the watched process: it was stopped, or
    /// another process took its place.
    Vacated,
    /// The process is in the slot and still runs.
    Running,
    /// The process is in the slot and has exited.
    Exited,
    /// The operating system could not say whether the process has exited.
    Failed,
}

/// What the operating system said when asked, without blocking, whether a
/// process has exited.
#[derive(Clone, Copy, Debug, PartialEq, Eq, Structural)]
pub enum WaitOutcome {
    Running,
    Exited,
    Failed,
}

/// The probe for one look: `looked` is `None` where the slot did not hold
/// the watched process, else what the operating system said of the process.
pub open spec fn probe_for(looked: Option<WaitOutcome>) -> Probe {
    match looked {
        None => Probe::Vacated,
        Some(WaitOutcome::Running) => Probe::Running,
        Some(WaitOutcome::Exited) => Probe::Exited,
        Some(WaitOutcome::Failed) => Probe::Failed,
    }
}

/// Makes the probe for one look at the slot and the process.
pub fn probe_of(looked: Option<WaitOutcome>) -> (probe: Probe)
    ensures
        probe == probe_for(looked),
{
    match looked {
        None => Probe::Vacated,
        Some(WaitOutcome::Running) => Probe::Running,
        Some(WaitOutcome::Exited) => Probe::Exited,
        Some(WaitOutcome::Failed) => Probe::Failed,
    }
}

/// What the caller does after one round.
#[derive(Clone, Copy, Debug, PartialEq, Eq, Structural)]
pub enum WatchAction {
    /// Send the completion signal and stop watching.
    Report,
    /// Sleep for `millis` milliseconds, then look again.
    PollAgain { millis: u64 },
    /// The signal has been sent before: stop, and send nothing.
    Nothing,
}

/// The state of a watcher as contracts see it.
pub struct WatcherState {
    /// The process that is watched.
    pub pid: u32,
    /// Whether the completion signal has been handed out.
    pub reported: bool,
}

/// Whether `probe` shows that the watch is over. Only a running process keeps
/// it going; a failed query counts as the end, so that no watch hangs on an
/// error.
pub open spec fn ends_watch(probe: Probe) -> bool {
    probe != Probe::Running
}

/// The action on `probe` for a watcher that has or has not reported yet.
pub open spec fn action_on(reported: bool, probe: Probe) -> WatchAction {
    if reported {
        WatchAction::Nothing
    } else if ends_watch(probe) {
        WatchAction::Report
    } else {
        WatchAction::PollAgain { millis: POLL_INTERVAL_MS }
    }
}

/// Whether the signal has been handed out once `probe` is dealt with.
pub open spec fn reported_after(reported: bool, probe: Probe) -> bool {
    reported || ends_watch(probe)
}

/// The actions of a watcher over a run of probes, one for each probe.
pub open spec fn actions_over(reported: bool, probes: Seq<Probe>) -> Seq<WatchAction>
    decreases probes.len(),
{
    if probes.len() == 0 {
        Seq::empty()
    } else {
        seq![action_on(reported, probes.first())] + actions_over(
            reported_after(reported, probes.first()),
            probes.drop_first(),
        )
    }
}

/// How many of `actions` send the completion signal.
pub open spec fn reports_in(actions: Seq<WatchAction>) -> nat
    decreases actions.len(),
{
    if actions.len() == 0 {
        0
    } else if actions.first() == WatchAction::Report {
        1 + reports_in(actions.drop_first())
    } else {
        reports_in(actions.drop_first())
    }
}

/// Whether every probe of `probes` found the process running.
pub open spec fn all_running(probes: Seq<Probe>) -> bool {
    forall|i: int| 0 <= i < probes.len() ==> probes[i] == Probe::Running
}

/// Watcher of one process.
#[derive(Debug)]
pub struct CompletionWatcher {
    pid: u32,
    reported: bool,
}

impl View for CompletionWatcher {
    type V = WatcherState;

    closed spec fn view(&self) -> WatcherState {
        WatcherState { pid: self.pid, reported: self.reported }
    }
}

impl CompletionWatcher {
    /// A watcher for the process `pid` that has not reported yet.
    pub fn new(pid: u32) -> (watcher: Self)
        ensures
            watcher@ == (WatcherState { pid, reported: false }),
    {
        CompletionWatcher { pid, reported: false }
    }

    /// The process that is watched.
    pub fn pid(&self) -> (pid: u32)
        ensures
            pid == self@.pid,
    {
        self.pid
    }

    /// Whether the completion signal has been handed out.
    pub fn has_reported(&self) -> (reported: bool)
        ensures
            reported == self@.reported,
    {
        self.reported
    }

    /// Takes what one round saw and says what to do next.
    pub fn observe(&mut self, probe: Probe) -> (action: WatchAction)
        ensures
            action == action_on(old(self)@.reported, probe),
            final(self)@.reported == reported_after(old(self)@.reported, probe),
            final(self)@.pid == old(self)@.pid,
    {
        if self.reported {
            WatchAction::Nothing
        } else {
            match probe {
                Probe::Running => WatchAction::PollAgain { millis: POLL_INTERVAL_MS },
                _ => {
                    self.reported = true;
                    WatchAction::Report
                },
            }
        }
    }
}

/// A watcher that has reported never reports again.
pub proof fn lemma_reported_stays_silent(probes: Seq<Probe>)
    ensures
        reports_in(actions_over(true, probes)) == 0,
    decreases probes.len(),
{
    if probes.len() > 0 {
        lemma_reported_stays_silent(probes.drop_first());
        assert(actions_over(true, probes).drop_first() =~= actions_over(
            true,
            probes.drop_first(),
        ));
    }
}

/// One completion signal for each process: over any run of probes a fresh
/// watcher sends the signal exactly once if some probe ends the watch, and
/// never while every probe finds the process running.
pub proof fn lemma_reports_exactly_once(probes: Seq<Probe>)
    ensures
        reports_in(actions_over(false, probes)) == if all_running(probes) {
            0nat
        } else {
            1nat
        },
    decreases probes.len(),
{
    if probes.len() > 0 {
        let rest = probes.drop_first();
        assert(actions_over(false, probes).drop_first() =~= actions_over(
            reported_after(false, probes.first()),
            rest,
        ));
        if ends_watch(probes.first()) {
            lemma_reported_stays_silent(rest);
            assert(probes[0] != Probe::Running);
        } else {
            lemma_reports_exactly_once(rest);
            if all_running(rest) {
                assert forall|i: int| 0 <= i < probes.len() implies probes[i]
                    == Probe::Running by {
                    if i > 0 {
                        assert(rest[i - 1] == probes[i]);
                    }
                }
            } else {
                let i = choose|i: int| 0 <= i < rest.len() && rest[i] != Probe::Running;
                assert(probes[i + 1] == rest[i]);
            }
        }
    }
}

/// No signal before the end: the action on the probe at `index` sends the
/// signal exactly when that probe is the first to end the watch.
pub proof fn lemma_report_marks_first_end(probes: Seq<Probe>, index: int)
    requires
        0 <= index < probes.len(),
    ensures
        actions_over(false, probes).len() == probes.len(),
        actions_over(false, probes)[index] == WatchAction::Report <==> ends_watch(probes[index])
            && all_running(probes.take(index)),
    decreases probes.len(),
{
    lemma_actions_len(false, probes);
    let rest = probes.drop_first();
    if index == 0 {
        assert(probes.take(0).len() == 0);
    } else {
        assert(probes.take(index)[0] == probes[0]);
        if ends_watch(probes.first()) {
            lemma_actions_len(true, rest);
            lemma_silent_everywhere(rest, index - 1);
        } else {
            lemma_report_marks_first_end(rest, index - 1);
            let shorter = rest.take(index - 1);
            let longer = probes.take(index);
            assert(shorter =~= longer.drop_first());
            if all_running(shorter) {
                assert forall|i: int| 0 <= i < longer.len() implies longer[i]
                    == Probe::Running by {
                    if i > 0 {
                        assert(shorter[i - 1] == longer[i]);
                    }
                }
            } else {
                let i = choose|i: int| 0 <= i < shorter.len() && shorter[i] != Probe::Running;
                assert(longer[i + 1] == shorter[i]);
            }
        }
    }
}

proof fn lemma_actions_len(reported: bool, probes: Seq<Probe>)
    ensures
        actions_over(reported, probes).len() == probes.len(),
    decreases probes.len(),
{
    if probes.len() > 0 {
        lemma_actions_len(reported_after(reported, probes.first()), probes.drop_first());
    }
}

proof fn lemma_silent_everywhere(probes: Seq<Probe>, index: int)
    requires
        0 <= index < probes.len(),
    ensures
        actions_over(true, probes)[index] == WatchAction::Nothing,
    decreases probes.len(),
{
    lemma_actions_len(true, probes.drop_first());
    if index > 0 {
        lemma_silent_everywhere(probes.drop_first(), index - 1);
    }
}

} // verus!
