//! The decision the signal relay takes for each signal delivered to the
//! supervisor.
use nix::sys::signal::Signal;
use vstd::prelude::*;

verus! {

#[verifier::external_type_specification]
#[verifier::external_body]
pub struct ExSignal(Signal);

/// Whether nix has a `Signal` for the signal number `n` on this platform.
pub uninterp spec fn nix_knows_signal(n: i32) -> bool;

/// Relies on nix's `TryFrom<i32>` for `Signal`: it succeeds exactly on the
/// signal numbers that nix names on this platform.
#[verifier::external_body]
fn signal_from_number(n: i32) -> (r: Option<Signal>)
    ensures
        r.is_some() == nix_knows_signal(n),
{
    Signal::try_from(n).ok()
}

/// What the relay does with a delivered signal.
#[derive(Clone, Copy, Debug)]
pub enum RelayAction {
    /// Mark the child as externally killed, then send it this signal.
    Forward(Signal),
    /// Report the signal number as one that cannot be translated, and keep
    /// listening.
    Untranslatable(i32),
}

impl RelayAction {
    pub open spec fn is_forward(self) -> bool {
        self matches RelayAction::Forward(_)
    }

    /// Whether this action sets the externally-killed flag.
    pub fn marks_killed(&self) -> (r: bool)
        ensures
            r == self.is_forward(),
    {
        match self {
            RelayAction::Forward(_) => true,
            RelayAction::Untranslatable(_) => false,
        }
    }
}

/// Decides what to do with the signal number `signum` delivered to the
/// supervisor: forward it to the child where it translates to a signal,
/// report it otherwise.
pub fn relay_signal(signum: i32) -> (r: RelayAction)
    ensures
        r.is_forward() == nix_knows_signal(signum),
        !nix_knows_signal(signum) ==> r == RelayAction::Untranslatable(signum),
{
    match signal_from_number(signum) {
        Some(signal) => RelayAction::Forward(signal),
        None => RelayAction::Untranslatable(signum),
    }
}

} // verus!
