use dashstream::shutdown::ShutdownCoordinator;
use dashstream::supervisor::{
    PollEvent, PollStep, ProcessState, RunOutcome, Supervisor, TeardownAction,
};

#[test]
fn clean_exit_within_one_poll_succeeds() {
    let mut s = Supervisor::new();
    s.on_spawned();
    let step = s.on_poll(PollEvent::Exited {
        success: true,
        code: Some(0),
    });
    assert_eq!(step, PollStep::Finish(RunOutcome::Succeeded));
    assert_eq!(s.state, ProcessState::ExitedOk);
    assert!(!s.handle_owned);
}

#[test]
fn failing_exit_carries_the_status() {
    let mut s = Supervisor::new();
    s.on_spawned();
    let step = s.on_poll(PollEvent::Exited {
        success: false,
        code: Some(1),
    });
    assert_eq!(
        step,
        PollStep::Finish(RunOutcome::ProcessFailed { code: Some(1) })
    );
    assert_eq!(s.state, ProcessState::ExitedErr);
}

#[test]
fn still_running_sleeps_and_stays_running() {
    let mut s = Supervisor::new();
    s.on_spawned();
    let step = s.on_poll(PollEvent::StillRunning);
    assert_eq!(step, PollStep::Sleep);
    assert_eq!(s.state, ProcessState::Running);
    assert!(s.handle_owned);
}

#[test]
fn failed_status_query_is_fatal_without_retry() {
    let mut s = Supervisor::new();
    s.on_spawned();
    let step = s.on_poll(PollEvent::WaitFailed);
    assert_eq!(step, PollStep::Finish(RunOutcome::WaitError));
    assert_eq!(s.state, ProcessState::ExitedErr);
    assert!(s.handle_owned);
}

#[test]
fn drop_kills_and_waits_exactly_once() {
    let mut s = Supervisor::new();
    s.on_spawned();
    assert_eq!(s.teardown_step(), TeardownAction::KillAndWait);
    assert_eq!(s.kills, 1);
    assert_eq!(s.waits, 1);
    assert_eq!(s.state, ProcessState::Killed);
    assert_eq!(s.teardown_step(), TeardownAction::DoNothing);
    assert_eq!(s.kills, 1);
    assert_eq!(s.waits, 1);
}

#[test]
fn teardown_after_observed_exit_does_nothing() {
    let mut s = Supervisor::new();
    s.on_spawned();
    let _ = s.on_poll(PollEvent::Exited {
        success: true,
        code: Some(0),
    });
    assert_eq!(s.teardown_step(), TeardownAction::DoNothing);
    assert_eq!(s.kills, 0);
}

#[test]
fn spawn_failure_is_terminal() {
    let mut s = Supervisor::new();
    s.on_spawn_failed();
    assert_eq!(s.state, ProcessState::ExitedErr);
    assert_eq!(s.teardown_step(), TeardownAction::DoNothing);
}

#[test]
fn one_token_triggers_exactly_one_teardown() {
    let mut c = ShutdownCoordinator::new();
    c.send();
    assert!(c.try_consume());
    assert_eq!(c.teardowns, 1);
}

#[test]
fn many_tokens_from_mixed_producers_one_teardown() {
    let mut c = ShutdownCoordinator::new();
    c.send();
    c.send();
    c.send();
    assert!(c.try_consume());
    assert_eq!(c.teardowns, 1);
}

#[test]
fn no_tokens_leaves_consumer_suspended() {
    let mut c = ShutdownCoordinator::new();
    assert!(!c.try_consume());
    assert_eq!(c.teardowns, 0);
}

#[test]
fn closed_channel_reads_as_signal() {
    let mut c = ShutdownCoordinator::new();
    c.close();
    assert!(c.try_consume());
    assert_eq!(c.teardowns, 1);
}
