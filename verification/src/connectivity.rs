//! Deciding whether the network is up: ping the check host up to twice,
//! and report connected as soon as one ping succeeds.

use vstd::prelude::*;

verus! {

/// Pings tried before the network is declared unreachable.
pub const PING_ATTEMPTS: u32 = 2;

/// What to do after a ping result.
#[derive(Clone, Copy, Debug, PartialEq, Eq, Structural)]
pub enum ProbeStep {
    /// The ping failed and attempts remain: ping again.
    PingAgain,
    /// A ping succeeded.
    Connected,
    /// Every attempt failed.
    Unreachable,
}

/// The step after the ping numbered `done + 1` (counting from 1) came back
/// with `success`.
pub open spec fn probe_step(done: nat, success: bool) -> ProbeStep {
    if success {
        ProbeStep::Connected
    } else if done + 1 < PING_ATTEMPTS {
        ProbeStep::PingAgain
    } else {
        ProbeStep::Unreachable
    }
}

/// Counts the pings of one connectivity probe.
pub struct ConnectivityProbe {
    pings: u32,
}

impl ConnectivityProbe {
    /// Pings done so far.
    pub closed spec fn pings(self) -> nat {
        self.pings as nat
    }

    /// A probe that has not pinged yet.
    pub fn new() -> (p: ConnectivityProbe)
        ensures
            p.pings() == 0,
    {
        ConnectivityProbe { pings: 0 }
    }

    /// Accounts for the result of one ping and says what to do next.
    pub fn record_ping(&mut self, success: bool) -> (step: ProbeStep)
        requires
            old(self).pings() < PING_ATTEMPTS,
        ensures
            step == probe_step(old(self).pings(), success),
            final(self).pings() == old(self).pings() + 1,
    {
        self.pings = self.pings + 1;
        if success {
            ProbeStep::Connected
        } else if self.pings < PING_ATTEMPTS {
            ProbeStep::PingAgain
        } else {
            ProbeStep::Unreachable
        }
    }
}

/// The verdict of a probe whose pings come back with `results`, in order:
/// `Some(true)` for connected, `Some(false)` for unreachable, `None` when
/// the results run out while the probe still wants to ping.
pub open spec fn probe_verdict(results: Seq<bool>) -> Option<bool> {
    if results.len() == 0 {
        None
    } else if probe_step(0, results[0]) == ProbeStep::Connected {
        Some(true)
    } else if results.len() == 1 {
        None
    } else if probe_step(1, results[1]) == ProbeStep::Connected {
        Some(true)
    } else {
        Some(false)
    }
}

/// A probe pings at most twice: given two ping results it always reaches a
/// verdict, which is "connected" exactly when one of them succeeded; a
/// first success ends the probe at once.
pub proof fn lemma_probe_verdict(results: Seq<bool>)
    requires
        results.len() >= 2,
    ensures
        probe_verdict(results) == Some(results[0] || results[1]),
        results[0] ==> probe_step(0, results[0]) == ProbeStep::Connected,
        !results[0] ==> probe_step(0, results[0]) == ProbeStep::PingAgain,
        probe_step(1, results[1]) != ProbeStep::PingAgain,
{
}

} // verus!
