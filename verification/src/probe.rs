//! The per-port probe as a state machine. The connection attempt itself —
//! a TCP connect bounded by a timeout — is outside work; this machine
//! makes every decision around it: how many attempts the retry budget
//! allows, when a read of the cancellation flag suppresses further
//! attempts, and what the probe finally reports. The caller alternates
//! `next` (passing the cancellation flag it just read) with `after_attempt`
//! (passing whether the connect succeeded) until `next` says `Finish`.
//! Every failure mode collapses to "not open": a cancelled probe is
//! indistinguishable from a failed one.

use vstd::prelude::*;

verus! {

/// What the probe asks its driver to do next.
#[derive(Debug, Clone, Copy, PartialEq, Eq, Structural)]
pub enum ProbeCommand {
    /// The probe is over; report whether the port is open.
    Finish(bool),
    /// Attempt one TCP connection, bounded by the timeout.
    Connect,
}

/// The state of one port probe: how many attempts remain of the
/// `retries + 1` the budget allows, and how many were made.
#[derive(Debug, Clone, Copy, PartialEq, Eq, Structural)]
pub struct Probe {
    pub remaining: u32,
    pub attempted: u32,
}

pub open spec fn spec_start(retries: u8) -> Probe {
    Probe { remaining: (retries + 1) as u32, attempted: 0 }
}

/// The decision before each attempt: a set cancellation flag or an
/// exhausted budget ends the probe as "not open"; otherwise connect.
pub open spec fn spec_next(p: Probe, cancelled: bool) -> ProbeCommand {
    if cancelled || p.remaining == 0 {
        ProbeCommand::Finish(false)
    } else {
        ProbeCommand::Connect
    }
}

/// The state after one attempt, successful or not.
pub open spec fn spec_after(p: Probe) -> Probe {
    Probe { remaining: (p.remaining - 1) as u32, attempted: (p.attempted + 1) as u32 }
}

impl Probe {
    /// A fresh probe with `maxRetries = retries`: a budget of
    /// `retries + 1` connection attempts.
    pub fn start(retries: u8) -> (p: Probe)
        ensures
            p == spec_start(retries),
    {
        Probe { remaining: retries as u32 + 1, attempted: 0 }
    }

    /// Decide the next step from the cancellation flag as just read.
    pub fn next(&self, cancelled: bool) -> (c: ProbeCommand)
        ensures
            c == spec_next(*self, cancelled),
    {
        if cancelled || self.remaining == 0 {
            ProbeCommand::Finish(false)
        } else {
            ProbeCommand::Connect
        }
    }

    /// Absorb the outcome of the attempt `next` commanded. A successful
    /// connection means the port is open and the probe is over; a failure
    /// of any cause spends one attempt and the probe decides again.
    pub fn after_attempt(self, success: bool) -> (r: (Probe, Option<bool>))
        requires
            self.remaining > 0,
            self.attempted < u32::MAX,
        ensures
            r.0 == spec_after(self),
            r.1 == if success {
                Some(true)
            } else {
                None::<bool>
            },
    {
        let p = Probe { remaining: self.remaining - 1, attempted: self.attempted + 1 };
        if success {
            (p, Some(true))
        } else {
            (p, None)
        }
    }
}

/// One whole probe run, as a function of what its driver observes:
/// `cancels[k]` is the cancellation flag as read before attempt `k`, and
/// `outcomes[k]` whether attempt `k` established a connection. Returns the
/// final probe state and what the probe reports.
pub open spec fn spec_run(p: Probe, cancels: Seq<bool>, outcomes: Seq<bool>) -> (Probe, bool)
    decreases p.remaining,
{
    if p.remaining == 0 || cancels.len() == 0 || outcomes.len() == 0 {
        (p, false)
    } else if spec_next(p, cancels[0]) is Finish {
        (p, false)
    } else if outcomes[0] {
        (spec_after(p), true)
    } else {
        spec_run(spec_after(p), cancels.skip(1), outcomes.skip(1))
    }
}

/// Cancellation law: a probe that reads the cancellation flag as already
/// set before its first attempt makes no connection attempt at all and
/// reports the port not open, whatever its retry budget.
pub proof fn lemma_cancelled_probe_makes_no_attempt(
    retries: u8,
    cancels: Seq<bool>,
    outcomes: Seq<bool>,
)
    requires
        cancels.len() > 0,
        cancels[0],
    ensures
        spec_run(spec_start(retries), cancels, outcomes).0.attempted == 0,
        !spec_run(spec_start(retries), cancels, outcomes).1,
{
}

proof fn lemma_failing_run(p: Probe, cancels: Seq<bool>, outcomes: Seq<bool>)
    requires
        p.attempted + p.remaining <= u32::MAX,
        cancels.len() >= p.remaining,
        outcomes.len() >= p.remaining,
        forall|i: int| 0 <= i < cancels.len() ==> !cancels[i],
        forall|i: int| 0 <= i < outcomes.len() ==> !outcomes[i],
    ensures
        spec_run(p, cancels, outcomes).0.attempted == p.attempted + p.remaining,
        !spec_run(p, cancels, outcomes).1,
    decreases p.remaining,
{
    if p.remaining == 0 {
    } else {
        assert(!cancels[0]);
        assert(!outcomes[0]);
        lemma_failing_run(spec_after(p), cancels.skip(1), outcomes.skip(1));
    }
}

/// Retry law: a probe with `maxRetries = retries` that is never cancelled
/// and whose every connection attempt fails makes exactly `retries + 1`
/// attempts before it gives up and reports the port not open.
pub proof fn lemma_refused_probe_attempt_count(retries: u8, cancels: Seq<bool>, outcomes: Seq<bool>)
    requires
        cancels.len() >= retries as int + 1,
        outcomes.len() >= retries as int + 1,
        forall|i: int| 0 <= i < cancels.len() ==> !cancels[i],
        forall|i: int| 0 <= i < outcomes.len() ==> !outcomes[i],
    ensures
        spec_run(spec_start(retries), cancels, outcomes).0.attempted == retries as int + 1,
        !spec_run(spec_start(retries), cancels, outcomes).1,
{
    lemma_failing_run(spec_start(retries), cancels, outcomes);
}

/// A probe reports the port open exactly when one of its attempts
/// established a connection: an attempt is only commanded while the flag
/// is unread as set, and the first success ends the run as open.
pub proof fn lemma_open_means_a_connect_succeeded(p: Probe, cancels: Seq<bool>, outcomes: Seq<bool>)
    requires
        spec_run(p, cancels, outcomes).1,
    ensures
        exists|i: int| 0 <= i < outcomes.len() && outcomes[i],
    decreases p.remaining,
{
    if p.remaining == 0 || cancels.len() == 0 || outcomes.len() == 0 {
    } else if spec_next(p, cancels[0]) is Finish {
    } else if outcomes[0] {
    } else {
        lemma_open_means_a_connect_succeeded(spec_after(p), cancels.skip(1), outcomes.skip(1));
        let i = choose|i: int|
            0 <= i < outcomes.skip(1).len() && outcomes.skip(1)[i];
        assert(outcomes[i + 1]);
    }
}

} // verus!
