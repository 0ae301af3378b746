//! The decisions of a payload run: after each stretch of user time the kernel
//! learns how a process came back, and this state machine says what to do
//! about it and keeps the tallies that the final report prints.
//!
//! The kernel owns the loop: it picks a process, runs it until it traps back,
//! hands the pid and outcome to [`PayloadRun::step`], performs the action it
//! gets, and once no process is left asks [`PayloadRun::verdict`] how the run
//! ended.

use vstd::prelude::*;
use crate::memory::frame::FrameStats;

verus! {

/// How a process came back to the kernel, as the trap path recorded it.
#[derive(Debug, Clone, Copy, PartialEq, Eq, Structural)]
pub enum RunOutcome {
    /// The timer took the processor back; the process stays runnable.
    Preempted,
    /// The process called `exit` with this code.
    Exited(u32),
    /// A fatal trap, or a failure of the control sink or source, ended it.
    Failed,
    /// The process came back without any recorded outcome.
    Unrecorded,
}

/// What the kernel does next about the process that came back.
#[derive(Debug, Clone, Copy, PartialEq, Eq, Structural)]
pub enum RunAction {
    /// Nothing: pick the next process.
    Resume,
    /// Report the exit of this pid with a `ProcExit` frame, then reclaim it.
    ReportProcExit { pid: usize, code: u32 },
    /// Report the exit code with an `Exit` frame, then reclaim the process.
    ReportExit { code: u32 },
    /// Count the process as failed and reclaim it.
    Reclaim,
    /// The kernel broke its own invariant: stop the whole run.
    Abort,
}

/// How a finished run is reported.
#[derive(Debug, Clone, Copy, PartialEq, Eq, Structural)]
pub enum PayloadVerdict {
    /// The frame allocator did not get every frame back.
    FramesLost { before: FrameStats, after: FrameStats },
    /// This many processes failed.
    Failed(usize),
    /// Every process of a multi-image bundle exited; with the number of
    /// processes and of switches between them.
    Processes { count: usize, switches: usize },
    /// The single process of a version 1 bundle exited with this code.
    Code(u32),
}

/// The tallies of a run: whether exits are reported per process, the
/// switches between processes so far, the failed processes, the pid that
/// ran last and the last exit code.
#[derive(Debug, Clone, Copy, PartialEq, Eq, Structural)]
pub struct PayloadRun {
    pub multi: bool,
    pub switches: usize,
    pub failed: usize,
    pub last_pid: Option<usize>,
    pub last_code: u32,
}

/// The tallies of a run as plain numbers.
pub struct RunView {
    pub multi: bool,
    pub switches: nat,
    pub failed: nat,
    pub last_pid: Option<usize>,
    pub last_code: u32,
}

impl View for PayloadRun {
    type V = RunView;

    open spec fn view(&self) -> RunView {
        RunView {
            multi: self.multi,
            switches: self.switches as nat,
            failed: self.failed as nat,
            last_pid: self.last_pid,
            last_code: self.last_code,
        }
    }
}

/// Whether running `pid` after the last one is a switch between processes.
pub open spec fn is_switch(last_pid: Option<usize>, pid: usize) -> bool {
    last_pid is Some && last_pid->0 != pid
}

/// The tallies after `pid` came back with `outcome`.
pub open spec fn step_view(s: RunView, pid: usize, outcome: RunOutcome) -> RunView {
    RunView {
        multi: s.multi,
        switches: if is_switch(s.last_pid, pid) { s.switches + 1 } else { s.switches },
        failed: if outcome == RunOutcome::Failed { s.failed + 1 } else { s.failed },
        last_pid: Some(pid),
        last_code: match outcome {
            RunOutcome::Exited(code) => code,
            _ => s.last_code,
        },
    }
}

/// What the kernel does after `pid` came back with `outcome`.
pub open spec fn step_action(multi: bool, pid: usize, outcome: RunOutcome) -> RunAction {
    match outcome {
        RunOutcome::Preempted => RunAction::Resume,
        RunOutcome::Exited(code) => if multi {
            RunAction::ReportProcExit { pid, code }
        } else {
            RunAction::ReportExit { code }
        },
        RunOutcome::Failed => RunAction::Reclaim,
        RunOutcome::Unrecorded => RunAction::Abort,
    }
}

/// How a run with these tallies ends, given the number of images and the
/// allocator's statistics before and after it.
pub open spec fn verdict_of(
    s: RunView,
    image_count: usize,
    before: FrameStats,
    after: FrameStats,
) -> PayloadVerdict {
    if after != before {
        PayloadVerdict::FramesLost { before, after }
    } else if s.failed > 0 {
        PayloadVerdict::Failed(s.failed as usize)
    } else if s.multi {
        PayloadVerdict::Processes { count: image_count, switches: s.switches as usize }
    } else {
        PayloadVerdict::Code(s.last_code)
    }
}

/// The tallies after a sequence of returns, each a pid and its outcome.
pub open spec fn run_events(s: RunView, events: Seq<(usize, RunOutcome)>) -> RunView
    decreases events.len(),
{
    if events.len() == 0 {
        s
    } else {
        step_view(run_events(s, events.drop_last()), events.last().0, events.last().1)
    }
}

/// How many of the returns were failures.
pub open spec fn failures(events: Seq<(usize, RunOutcome)>) -> nat
    decreases events.len(),
{
    if events.len() == 0 {
        0
    } else {
        failures(events.drop_last()) + if events.last().1 == RunOutcome::Failed {
            1nat
        } else {
            0nat
        }
    }
}

impl PayloadRun {
    /// A run that has not dispatched anything yet; a bundle whose manifest
    /// has version 2 or later reports each process's exit on its own.
    pub fn new(manifest_version: u8) -> (r: Self)
        ensures
            r@.multi == (manifest_version >= 2),
            r@.switches == 0,
            r@.failed == 0,
            r@.last_pid is None,
            r@.last_code == 0,
    {
        PayloadRun {
            multi: manifest_version >= 2,
            switches: 0,
            failed: 0,
            last_pid: None,
            last_code: 0,
        }
    }

    /// Takes in that `pid` came back with `outcome` and says what to do.
    pub fn step(&mut self, pid: usize, outcome: RunOutcome) -> (action: RunAction)
        requires
            old(self).switches < usize::MAX,
            old(self).failed < usize::MAX,
        ensures
            final(self)@ == step_view(old(self)@, pid, outcome),
            action == step_action(old(self).multi, pid, outcome),
    {
        let switched = match self.last_pid {
            Some(last) => last != pid,
            None => false,
        };
        if switched {
            self.switches = self.switches + 1;
        }
        self.last_pid = Some(pid);
        match outcome {
            RunOutcome::Preempted => RunAction::Resume,
            RunOutcome::Exited(code) => {
                self.last_code = code;
                if self.multi {
                    RunAction::ReportProcExit { pid, code }
                } else {
                    RunAction::ReportExit { code }
                }
            },
            RunOutcome::Failed => {
                self.failed = self.failed + 1;
                RunAction::Reclaim
            },
            RunOutcome::Unrecorded => RunAction::Abort,
        }
    }

    /// How the run ended once no process is left.
    pub fn verdict(&self, image_count: usize, before: FrameStats, after: FrameStats) -> (r:
        PayloadVerdict)
        ensures
            r == verdict_of(self@, image_count, before, after),
    {
        if after != before {
            PayloadVerdict::FramesLost { before, after }
        } else if self.failed > 0 {
            PayloadVerdict::Failed(self.failed)
        } else if self.multi {
            PayloadVerdict::Processes { count: image_count, switches: self.switches }
        } else {
            PayloadVerdict::Code(self.last_code)
        }
    }
}

/// The failed tally grows by exactly the failures among the returns.
pub proof fn lemma_failed_counts_failures(start: RunView, events: Seq<(usize, RunOutcome)>)
    ensures
        run_events(start, events).failed == start.failed + failures(events),
    decreases events.len(),
{
    if events.len() > 0 {
        lemma_failed_counts_failures(start, events.drop_last());
    }
}

/// There are never more switches than returns.
pub proof fn lemma_switches_bounded(start: RunView, events: Seq<(usize, RunOutcome)>)
    ensures
        run_events(start, events).switches <= start.switches + events.len(),
    decreases events.len(),
{
    if events.len() > 0 {
        lemma_switches_bounded(start, events.drop_last());
    }
}

/// A process that runs alone never switches: when every return is of the
/// same pid, and nothing else ran before, the switch tally stays as it was.
pub proof fn lemma_one_process_never_switches(
    start: RunView,
    pid: usize,
    events: Seq<(usize, RunOutcome)>,
)
    requires
        start.last_pid is None || start.last_pid == Some(pid),
        forall|i: int| 0 <= i < events.len() ==> (#[trigger] events[i]).0 == pid,
    ensures
        run_events(start, events).switches == start.switches,
        events.len() > 0 ==> run_events(start, events).last_pid == Some(pid),
    decreases events.len(),
{
    if events.len() > 0 {
        let prefix = events.drop_last();
        assert forall|i: int| 0 <= i < prefix.len() implies (#[trigger] prefix[i]).0 == pid by {
            assert(prefix[i] == events[i]);
        }
        lemma_one_process_never_switches(start, pid, prefix);
        assert(events.last() == events[events.len() - 1]);
    }
}

/// The code that a single-image run reports is the code of its last exit.
pub proof fn lemma_last_exit_code(
    start: RunView,
    events: Seq<(usize, RunOutcome)>,
    pid: usize,
    code: u32,
)
    ensures
        run_events(start, events.push((pid, RunOutcome::Exited(code)))).last_code == code,
{
    assert(events.push((pid, RunOutcome::Exited(code))).drop_last() =~= events);
}

/// A run in which a process failed is reported as failed, with the number of
/// failed processes, whatever the manifest version, once the allocator got
/// its frames back; it is never reported as a clean exit.
pub proof fn lemma_failure_is_reported(
    s: RunView,
    image_count: usize,
    before: FrameStats,
    after: FrameStats,
)
    requires
        s.failed > 0,
        s.failed <= usize::MAX,
        after == before,
    ensures
        verdict_of(s, image_count, before, after) == PayloadVerdict::Failed(s.failed as usize),
        !(verdict_of(s, image_count, before, after) is Code),
        !(verdict_of(s, image_count, before, after) is Processes),
{
}

/// A clean report, a code or a process count, only ever comes from a run in
/// which no process failed and every frame came back.
pub proof fn lemma_clean_report_means_no_failure(
    s: RunView,
    image_count: usize,
    before: FrameStats,
    after: FrameStats,
)
    ensures
        (verdict_of(s, image_count, before, after) is Code || verdict_of(
            s,
            image_count,
            before,
            after,
        ) is Processes) ==> s.failed == 0 && after == before,
        verdict_of(s, image_count, before, after) is Code ==> !s.multi,
        verdict_of(s, image_count, before, after) is Processes ==> s.multi,
{
}

} // verus!
