//! The output-liveness heuristic: the decision taken by the detector each
//! time it wakes. Times are milliseconds since the supervisor started.
use vstd::prelude::*;

verus! {

/// What the detector does next.
#[derive(Clone, Copy, Debug, PartialEq, Eq, Structural)]
pub enum DeadlockStep {
    /// The deadline does not fit in the time representation.
    Overflow,
    /// Sleep this many milliseconds, until the deadline, then check again.
    Sleep(u64),
    /// The deadline has passed with no newer output.
    Detected,
}

/// The step for the latest output time `last_output`, window `timeout` and
/// current time `now`.
pub open spec fn next_step(last_output: u64, timeout: u64, now: u64) -> DeadlockStep {
    let deadline = last_output + timeout;
    if deadline > u64::MAX {
        DeadlockStep::Overflow
    } else if now <= deadline {
        DeadlockStep::Sleep((deadline - now) as u64)
    } else {
        DeadlockStep::Detected
    }
}

/// Decides the detector's next step from the latest output time.
pub fn deadlock_step(last_output: u64, timeout: u64, now: u64) -> (r: DeadlockStep)
    ensures
        r == next_step(last_output, timeout, now),
{
    match last_output.checked_add(timeout) {
        None => DeadlockStep::Overflow,
        Some(deadline) => {
            if now <= deadline {
                DeadlockStep::Sleep(deadline - now)
            } else {
                DeadlockStep::Detected
            }
        },
    }
}

/// With no output after time 0, the detector sleeps exactly until the
/// window has passed, and fires at any check after it.
pub proof fn deadlock_firing_time(timeout: u64, now: u64)
    ensures
        now <= timeout ==> next_step(0, timeout, now) == DeadlockStep::Sleep((timeout - now) as u64),
        now > timeout ==> next_step(0, timeout, now) == DeadlockStep::Detected,
{
}

/// Where every check finds output newer than one window before it, the
/// detector never fires.
pub proof fn deadlock_never_fires_while_refreshed(timeout: u64, checks: Seq<(u64, u64)>)
    requires
        forall|i: int| 0 <= i < checks.len() ==> checks[i].1 <= checks[i].0 + timeout,
    ensures
        forall|i: int|
            0 <= i < checks.len() ==> next_step(checks[i].0, timeout, checks[i].1)
                != DeadlockStep::Detected,
{
}

} // verus!
