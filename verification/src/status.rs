//! Lifecycle states of the supervised subprocess and the transitions the
//! daemon allows between them.

use vstd::prelude::*;

verus! {

/// Lifecycle state of the one supervised subprocess.
///
/// `Crashed` is a tag of its own, not an overlay of `Stopped`: it means the
/// process ended without an operator-initiated stop.
#[derive(Clone, Copy, Debug, PartialEq, Eq, Structural)]
pub enum SessionStatus {
    Starting,
    Running,
    Stopping,
    Stopped,
    Crashed,
}

/// The label under which a status travels on the wire.
pub open spec fn spec_label(s: SessionStatus) -> Seq<char> {
    match s {
        SessionStatus::Starting => "Starting"@,
        SessionStatus::Running => "Running"@,
        SessionStatus::Stopping => "Stopping"@,
        SessionStatus::Stopped => "Stopped"@,
        SessionStatus::Crashed => "Crashed"@,
    }
}

impl SessionStatus {
    /// A status is terminal when the session is destroyed and the active
    /// slot is cleared: `Stopped` and `Crashed`.
    pub open spec fn is_terminal(self) -> bool {
        self == SessionStatus::Stopped || self == SessionStatus::Crashed
    }

    /// The textual label of this status, as broadcast to clients.
    pub fn label(&self) -> (r: &'static str)
        ensures
            r@ == spec_label(*self),
    {
        match self {
            SessionStatus::Starting => "Starting",
            SessionStatus::Running => "Running",
            SessionStatus::Stopping => "Stopping",
            SessionStatus::Stopped => "Stopped",
            SessionStatus::Crashed => "Crashed",
        }
    }
}

/// The transitions of the lifecycle state machine:
/// `Starting -> Running` (readiness marker seen),
/// `Starting | Running -> Stopping` (operator stop),
/// `Stopping -> Stopped` (exit confirmed by the stop path),
/// `Starting | Running -> Crashed` (unsolicited exit, bypassing `Stopping`).
pub open spec fn is_transition(from: SessionStatus, to: SessionStatus) -> bool {
    ||| (from == SessionStatus::Starting && to == SessionStatus::Running)
    ||| ((from == SessionStatus::Starting || from == SessionStatus::Running)
        && to == SessionStatus::Stopping)
    ||| (from == SessionStatus::Stopping && to == SessionStatus::Stopped)
    ||| ((from == SessionStatus::Starting || from == SessionStatus::Running)
        && to == SessionStatus::Crashed)
}

/// No transition leaves a terminal status: once `Stopped` or `Crashed`,
/// the session is destroyed and never reused.
pub proof fn lemma_terminal_states_final(from: SessionStatus, to: SessionStatus)
    requires
        from.is_terminal(),
    ensures
        !is_transition(from, to),
{
}

} // verus!
