//! The process supervisor's decision core: a lifecycle state machine from
//! spawn through polling to a terminal exit, plus the guaranteed-teardown
//! step that requests termination of an owned process handle exactly once.
//! The run loop around it performs the spawning, sleeping and status
//! queries and feeds what it observed back in as events.

use vstd::prelude::*;

verus! {

/// Where a supervised run stands.
#[derive(Debug, Clone, Copy, PartialEq, Eq, Structural)]
pub enum ProcessState {
    /// No process has been spawned yet.
    Idle,
    /// The process is believed to be running.
    Running,
    /// The process was observed to exit successfully.
    ExitedOk,
    /// The process was observed to exit with a failure, or could not be
    /// spawned or queried.
    ExitedErr,
    /// The process was forcibly terminated during teardown.
    Killed,
}

/// What one status poll observed.
#[derive(Debug, Clone, Copy, PartialEq, Eq)]
pub enum PollEvent {
    /// The process exited; `success` is whether its status was clean, and
    /// `code` its exit code when the platform reports one.
    Exited { success: bool, code: Option<i32> },
    /// The process is still running.
    StillRunning,
    /// The status query itself failed.
    WaitFailed,
}

/// How a supervised run ended.
#[derive(Debug, Clone, Copy, PartialEq, Eq)]
pub enum RunOutcome {
    /// The process exited with a clean status.
    Succeeded,
    /// The process exited with a failing status; `code` carries the exit
    /// code when the platform reports one.
    ProcessFailed { code: Option<i32> },
    /// The status query failed; the run is abandoned without retrying.
    WaitError,
}

/// What the run loop must do after a poll.
#[derive(Debug, Clone, Copy, PartialEq, Eq)]
pub enum PollStep {
    /// Stop polling and report the outcome.
    Finish(RunOutcome),
    /// Sleep for one poll interval, then poll again.
    Sleep,
}

/// What teardown must do with the external process.
#[derive(Debug, Clone, Copy, PartialEq, Eq, Structural)]
pub enum TeardownAction {
    /// Forcibly terminate the process, then block until the operating
    /// system confirms termination, then pause briefly so the working
    /// directory is no longer locked by the dying process.
    KillAndWait,
    /// No handle is owned; nothing to do.
    DoNothing,
}

/// The supervisor's model of one external process: its lifecycle state,
/// whether a process handle is currently owned, and how many termination
/// requests and waits teardown has issued.
#[derive(Debug, Clone, Copy, PartialEq, Eq, Structural)]
pub struct Supervisor {
    pub state: ProcessState,
    pub handle_owned: bool,
    pub kills: u64,
    pub waits: u64,
}

/// The decision a poll event forces.
pub open spec fn poll_step_spec(ev: PollEvent) -> PollStep {
    match ev {
        PollEvent::Exited { success, code } => if success {
            PollStep::Finish(RunOutcome::Succeeded)
        } else {
            PollStep::Finish(RunOutcome::ProcessFailed { code })
        },
        PollEvent::StillRunning => PollStep::Sleep,
        PollEvent::WaitFailed => PollStep::Finish(RunOutcome::WaitError),
    }
}

/// The state after a poll event: an observed exit clears the handle and is
/// terminal; a failed query is terminal but leaves the handle for
/// teardown; a still-running process changes nothing.
pub open spec fn poll_next_spec(s: Supervisor, ev: PollEvent) -> Supervisor {
    match ev {
        PollEvent::Exited { success, code: _ } => Supervisor {
            state: if success {
                ProcessState::ExitedOk
            } else {
                ProcessState::ExitedErr
            },
            handle_owned: false,
            ..s
        },
        PollEvent::StillRunning => s,
        PollEvent::WaitFailed => Supervisor { state: ProcessState::ExitedErr, ..s },
    }
}

/// The action teardown must take.
pub open spec fn teardown_action_spec(s: Supervisor) -> TeardownAction {
    if s.handle_owned {
        TeardownAction::KillAndWait
    } else {
        TeardownAction::DoNothing
    }
}

/// The state after one teardown step: an owned handle is consumed, with
/// one termination request and one wait recorded.
pub open spec fn teardown_next_spec(s: Supervisor) -> Supervisor {
    if s.handle_owned {
        Supervisor {
            state: ProcessState::Killed,
            handle_owned: false,
            kills: (s.kills + 1) as u64,
            waits: (s.waits + 1) as u64,
        }
    } else {
        s
    }
}

impl Supervisor {
    /// A handle is owned only before any teardown has touched it, and
    /// teardown touches it at most once.
    pub open spec fn wf(&self) -> bool {
        &&& self.kills <= 1
        &&& self.waits <= 1
        &&& (self.handle_owned ==> self.kills == 0 && self.waits == 0)
    }

    /// A fresh supervisor: idle, owning nothing.
    pub fn new() -> (s: Self)
        ensures
            s.wf(),
            s.state is Idle,
            !s.handle_owned,
            s.kills == 0,
            s.waits == 0,
    {
        Supervisor { state: ProcessState::Idle, handle_owned: false, kills: 0, waits: 0 }
    }

    /// Records a successful spawn: the run is now live and the handle owned.
    pub fn on_spawned(&mut self)
        requires
            old(self).wf(),
            old(self).state is Idle,
            !old(self).handle_owned,
            old(self).kills == 0,
            old(self).waits == 0,
        ensures
            final(self).wf(),
            *final(self) == (Supervisor {
                state: ProcessState::Running,
                handle_owned: true,
                ..*old(self)
            }),
    {
        self.state = ProcessState::Running;
        self.handle_owned = true;
    }

    /// Records a failed spawn: terminal, with nothing owned.
    pub fn on_spawn_failed(&mut self)
        requires
            old(self).wf(),
            old(self).state is Idle,
            !old(self).handle_owned,
        ensures
            final(self).wf(),
            *final(self) == (Supervisor { state: ProcessState::ExitedErr, ..*old(self) }),
    {
        self.state = ProcessState::ExitedErr;
    }

    /// Applies one poll observation: a clean exit finishes the run with
    /// success, a failing exit finishes it with a fatal outcome carrying
    /// the status, a failed query finishes it at once, and a still-running
    /// process sleeps until the next poll.
    pub fn on_poll(&mut self, ev: PollEvent) -> (step: PollStep)
        requires
            old(self).wf(),
            old(self).state is Running,
        ensures
            final(self).wf(),
            step == poll_step_spec(ev),
            *final(self) == poll_next_spec(*old(self), ev),
    {
        match ev {
            PollEvent::Exited { success, code } => {
                self.handle_owned = false;
                if success {
                    self.state = ProcessState::ExitedOk;
                    PollStep::Finish(RunOutcome::Succeeded)
                } else {
                    self.state = ProcessState::ExitedErr;
                    PollStep::Finish(RunOutcome::ProcessFailed { code })
                }
            },
            PollEvent::StillRunning => PollStep::Sleep,
            PollEvent::WaitFailed => {
                self.state = ProcessState::ExitedErr;
                PollStep::Finish(RunOutcome::WaitError)
            },
        }
    }

    /// One teardown step, run whenever the supervisor is dropped: consumes
    /// the handle if one is owned, so the process is killed and waited for
    /// exactly once on every exit path.
    pub fn teardown_step(&mut self) -> (a: TeardownAction)
        requires
            old(self).wf(),
        ensures
            final(self).wf(),
            a == teardown_action_spec(*old(self)),
            *final(self) == teardown_next_spec(*old(self)),
    {
        if self.handle_owned {
            self.handle_owned = false;
            self.state = ProcessState::Killed;
            self.kills = self.kills + 1;
            self.waits = self.waits + 1;
            TeardownAction::KillAndWait
        } else {
            TeardownAction::DoNothing
        }
    }
}

/// Law: dropping a supervisor that still owns its process issues exactly
/// one termination request and one wait, and a repeated teardown issues
/// nothing further.
pub proof fn lemma_teardown_exactly_once(s: Supervisor)
    requires
        s.wf(),
        s.handle_owned,
    ensures
        teardown_action_spec(s) == TeardownAction::KillAndWait,
        teardown_next_spec(s).kills == 1,
        teardown_next_spec(s).waits == 1,
        teardown_action_spec(teardown_next_spec(s)) == TeardownAction::DoNothing,
        teardown_next_spec(teardown_next_spec(s)) == teardown_next_spec(s),
{
}

/// Law: a handle consumed by a poll-observed exit cannot be torn down
/// again — teardown after a terminal observation does nothing.
pub proof fn lemma_observed_exit_consumes_handle(s: Supervisor, success: bool, code: Option<i32>)
    requires
        s.wf(),
    ensures
        teardown_action_spec(poll_next_spec(s, PollEvent::Exited { success, code }))
            == TeardownAction::DoNothing,
{
}

} // verus!
