use minios::memory::frame::FrameStats;
use minios::payload_run::{PayloadRun, PayloadVerdict, RunAction, RunOutcome};

fn stats(allocated: usize) -> FrameStats {
    FrameStats { total: 512, allocated, free: 512 - allocated }
}

#[test]
fn version_two_reports_each_exit_with_its_pid() {
    let mut run = PayloadRun::new(2);
    assert_eq!(run.step(0, RunOutcome::Preempted), RunAction::Resume);
    assert_eq!(run.step(1, RunOutcome::Exited(7)), RunAction::ReportProcExit { pid: 1, code: 7 });
    assert_eq!(run.step(0, RunOutcome::Exited(0)), RunAction::ReportProcExit { pid: 0, code: 0 });
    assert_eq!(run.switches, 2);
    assert_eq!(run.failed, 0);
    assert_eq!(
        run.verdict(2, stats(3), stats(3)),
        PayloadVerdict::Processes { count: 2, switches: 2 }
    );
}

#[test]
fn version_one_reports_the_exit_code() {
    let mut run = PayloadRun::new(1);
    assert_eq!(run.step(0, RunOutcome::Preempted), RunAction::Resume);
    assert_eq!(run.step(0, RunOutcome::Exited(42)), RunAction::ReportExit { code: 42 });
    assert_eq!(run.switches, 0);
    assert_eq!(run.verdict(1, stats(0), stats(0)), PayloadVerdict::Code(42));
}

#[test]
fn failed_processes_are_reclaimed_and_counted() {
    let mut run = PayloadRun::new(2);
    assert_eq!(run.step(0, RunOutcome::Failed), RunAction::Reclaim);
    assert_eq!(run.step(1, RunOutcome::Exited(0)), RunAction::ReportProcExit { pid: 1, code: 0 });
    assert_eq!(run.failed, 1);
    assert_eq!(run.verdict(2, stats(1), stats(1)), PayloadVerdict::Failed(1));
}

#[test]
fn an_unrecorded_return_aborts_the_run() {
    let mut run = PayloadRun::new(2);
    assert_eq!(run.step(0, RunOutcome::Unrecorded), RunAction::Abort);
}

#[test]
fn frames_not_given_back_come_first_in_the_verdict() {
    let mut run = PayloadRun::new(2);
    run.step(0, RunOutcome::Failed);
    assert_eq!(
        run.verdict(1, stats(2), stats(5)),
        PayloadVerdict::FramesLost { before: stats(2), after: stats(5) }
    );
}

#[test]
fn one_process_alone_never_switches() {
    let mut run = PayloadRun::new(2);
    for _ in 0..5 {
        run.step(3, RunOutcome::Preempted);
    }
    run.step(3, RunOutcome::Exited(1));
    assert_eq!(run.switches, 0);
    assert_eq!(run.last_pid, Some(3));
    assert_eq!(run.last_code, 1);
}
