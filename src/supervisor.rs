//! Events sent by the workers, and the arbitration that turns the first of
//! them into the run's outcome.
use vstd::prelude::*;
use crate::recent_log::joined;
use crate::recent_log::RecentOutputLog;

verus! {

/// What went wrong in a worker.
#[derive(Clone, Copy, Debug, PartialEq, Eq, Structural)]
pub enum ErrorKind {
    SpawnFailure,
    StreamReadFailure,
    StreamWriteFailure,
    TimeArithmeticOverflow,
    SignalTranslationFailure,
    SignalDeliveryFailure,
    ChildWaitFailure,
}

/// A worker's failure, with a human-readable detail.
#[derive(Debug)]
pub struct WorkerError {
    pub kind: ErrorKind,
    pub detail: String,
}

/// How the child exited: whether its status counts as successful, and its
/// exit code where it has one.
#[derive(Clone, Copy, Debug, PartialEq, Eq, Structural)]
pub struct ExitInfo {
    pub success: bool,
    pub code: Option<i32>,
}

/// An event sent by a worker to the arbitration.
#[derive(Debug)]
pub enum SupervisorEvent {
    Error(WorkerError),
    DeadlockDetected,
    ChildExited(ExitInfo),
}

/// Why a run failed.
#[derive(Debug)]
pub enum Failure {
    Worker(WorkerError),
    Deadlock,
    UnexpectedExit(ExitInfo),
}

/// How a run ended.
#[derive(Debug)]
pub enum Outcome {
    Success,
    Failure(Failure),
}

/// The outcome that an event gives, by whether the child was killed by a
/// relayed signal and whether it may exit on its own.
pub open spec fn outcome_of(event: SupervisorEvent, externally_killed: bool, can_exit: bool) -> Outcome {
    match event {
        SupervisorEvent::Error(e) => Outcome::Failure(Failure::Worker(e)),
        SupervisorEvent::DeadlockDetected => Outcome::Failure(Failure::Deadlock),
        SupervisorEvent::ChildExited(status) => {
            if externally_killed || (can_exit && status.success) {
                Outcome::Success
            } else {
                Outcome::Failure(Failure::UnexpectedExit(status))
            }
        },
    }
}

/// Classifies an event into the run's outcome.
pub fn classify(event: SupervisorEvent, externally_killed: bool, can_exit: bool) -> (r: Outcome)
    ensures
        r == outcome_of(event, externally_killed, can_exit),
{
    match event {
        SupervisorEvent::Error(e) => Outcome::Failure(Failure::Worker(e)),
        SupervisorEvent::DeadlockDetected => Outcome::Failure(Failure::Deadlock),
        SupervisorEvent::ChildExited(status) => {
            if externally_killed || (can_exit && status.success) {
                Outcome::Success
            } else {
                Outcome::Failure(Failure::UnexpectedExit(status))
            }
        },
    }
}

/// The classification table: an error or a detected deadlock fails the run
/// whatever the flags; an exit after a relayed signal succeeds; an unprompted
/// exit succeeds only when it is allowed and its status is successful, and
/// fails with that status otherwise.
pub proof fn classification_table(
    e: WorkerError,
    status: ExitInfo,
    externally_killed: bool,
    can_exit: bool,
)
    ensures
        outcome_of(SupervisorEvent::Error(e), externally_killed, can_exit) == Outcome::Failure(
            Failure::Worker(e),
        ),
        outcome_of(SupervisorEvent::DeadlockDetected, externally_killed, can_exit)
            == Outcome::Failure(Failure::Deadlock),
        outcome_of(SupervisorEvent::ChildExited(status), true, can_exit) == Outcome::Success,
        status.success ==> outcome_of(SupervisorEvent::ChildExited(status), false, true)
            == Outcome::Success,
        !status.success ==> outcome_of(SupervisorEvent::ChildExited(status), false, can_exit)
            == Outcome::Failure(Failure::UnexpectedExit(status)),
        outcome_of(SupervisorEvent::ChildExited(status), false, false) == Outcome::Failure(
            Failure::UnexpectedExit(status),
        ),
{
}

impl Outcome {
    pub open spec fn is_success(self) -> bool {
        self matches Outcome::Success
    }

    pub fn success(&self) -> (r: bool)
        ensures
            r == self.is_success(),
    {
        match self {
            Outcome::Success => true,
            Outcome::Failure(_) => false,
        }
    }
}

/// The arbitration point: resolves the run on the first event it receives and
/// drops every later one.
pub struct Arbiter {
    can_exit: bool,
    resolved: bool,
}

impl Arbiter {
    pub closed spec fn allows_exit(&self) -> bool {
        self.can_exit
    }

    pub closed spec fn is_resolved(&self) -> bool {
        self.resolved
    }

    pub fn new(can_exit: bool) -> (r: Arbiter)
        ensures
            r.allows_exit() == can_exit,
            !r.is_resolved(),
    {
        Arbiter { can_exit, resolved: false }
    }

    pub fn resolved(&self) -> (r: bool)
        ensures
            r == self.is_resolved(),
    {
        self.resolved
    }

    /// Takes in an event, with the externally-killed flag as it stands now.
    /// The first event resolves the run and gives its outcome; later ones are
    /// dropped.
    pub fn receive(&mut self, event: SupervisorEvent, externally_killed: bool) -> (r: Option<
        Outcome,
    >)
        ensures
            final(self).allows_exit() == old(self).allows_exit(),
            final(self).is_resolved(),
            old(self).is_resolved() ==> r.is_none(),
            !old(self).is_resolved() ==> r == Some(
                outcome_of(event, externally_killed, old(self).allows_exit()),
            ),
    {
        if self.resolved {
            None
        } else {
            self.resolved = true;
            Some(classify(event, externally_killed, self.can_exit))
        }
    }
}

/// The recent-output text handed to the notifier: none on success, the log's
/// lines joined on failure.
pub fn notification_text(outcome: &Outcome, log: &RecentOutputLog) -> (r: Option<String>)
    requires
        log.wf(),
    ensures
        outcome.is_success() ==> r.is_none(),
        !outcome.is_success() ==> r.is_some() && r.unwrap()@ == joined(log@),
{
    match outcome {
        Outcome::Success => None,
        Outcome::Failure(_) => Some(log.joined_text()),
    }
}

} // verus!
