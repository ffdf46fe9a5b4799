//! The instance guard: the start-time check that refuses to run two
//! servers against one socket path and clears a stale socket file left by
//! an unclean exit. The probe itself (a connect attempt) runs outside the
//! library; what each outcome demands is fixed here.

use vstd::prelude::*;

verus! {

/// What probing the configured socket path found.
#[derive(Debug, PartialEq, Eq, Structural, Clone, Copy)]
pub enum SocketProbe {
    /// A connect attempt succeeded: another instance is live.
    Live,
    /// The path exists but nothing answers: a stale file from an unclean
    /// previous exit.
    StaleFile,
    /// The path does not exist.
    Missing,
}

/// What startup must do about the probe's outcome.
#[derive(Debug, PartialEq, Eq, Structural, Clone, Copy)]
pub enum StartDecision {
    /// Report the fatal already-running condition and exit non-zero,
    /// leaving the live instance's socket file untouched.
    RefuseStart,
    /// Remove the stale file, then bind.
    RemoveStaleThenBind,
    /// Bind directly.
    BindDirectly,
}

/// The guard's decision table.
pub open spec fn guard_decides(p: SocketProbe) -> StartDecision {
    match p {
        SocketProbe::Live => StartDecision::RefuseStart,
        SocketProbe::StaleFile => StartDecision::RemoveStaleThenBind,
        SocketProbe::Missing => StartDecision::BindDirectly,
    }
}

/// Decide what startup does with the socket path.
pub fn guard_decision(p: SocketProbe) -> (d: StartDecision)
    ensures
        d == guard_decides(p),
{
    match p {
        SocketProbe::Live => StartDecision::RefuseStart,
        SocketProbe::StaleFile => StartDecision::RemoveStaleThenBind,
        SocketProbe::Missing => StartDecision::BindDirectly,
    }
}

/// A live instance is never disturbed: the only decision that touches the
/// socket file is taken for a stale file, and a live probe refuses the
/// start instead.
pub proof fn lemma_live_instance_untouched()
    ensures
        guard_decides(SocketProbe::Live) == StartDecision::RefuseStart,
        forall|p: SocketProbe|
            guard_decides(p) == StartDecision::RemoveStaleThenBind ==> p
                == SocketProbe::StaleFile,
{
}

/// The process exit status when another instance already owns the socket.
pub fn refuse_exit_code() -> (c: i32)
    ensures
        c == 1,
{
    1
}

/// The diagnostic printed when the start is refused.
pub fn already_active_message() -> (s: String)
    ensures
        s@ == "[Error] Server is already active!"@,
{
    "[Error] Server is already active!".to_owned()
}

} // verus!
