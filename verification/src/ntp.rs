//! The retry policy of the clock synchronisation at start-up: a
//! kiss-of-death answer ends it at once, other protocol errors are retried
//! at once, and any other failure is retried after a pause that starts at
//! half a second and doubles each time, as long as retries remain (a
//! negative retry budget means no limit).

use vstd::arithmetic::power2::*;
use vstd::prelude::*;

verus! {

/// How one synchronisation attempt ended.
#[derive(Clone, Copy, Debug, PartialEq, Eq, Structural)]
pub enum SyncOutcome {
    /// The server answered with the time.
    Synced,
    /// The server sent a kiss-of-death packet.
    KissOfDeath,
    /// Some other protocol error.
    OtherProtocolError,
    /// Any other failure (network, timeout, ...).
    OtherError,
}

/// What to do next.
#[derive(Clone, Copy, Debug, PartialEq, Eq, Structural)]
pub enum SyncAction {
    /// Use the time obtained.
    Done,
    /// Report the failure.
    GiveUp,
    /// Try again at once.
    RetryNow,
    /// Sleep `secs` seconds and `millis` milliseconds, then try again.
    RetryAfter { secs: u64, millis: u32 },
}

/// The pause before retry number `n + 1` after other failures, in
/// milliseconds: 500 ms doubled `n` times.
pub open spec fn backoff_ms(n: nat) -> nat {
    500 * pow2(n)
}

/// Whether a pause `a` is `ms` milliseconds long.
pub open spec fn pause_is(a: SyncAction, ms: nat) -> bool {
    match a {
        SyncAction::RetryAfter { secs, millis } => secs as nat * 1000 + millis as nat == ms
            && millis < 1000,
        _ => false,
    }
}

/// The decision after an attempt ends with `o`, when `attempts` pauses have
/// been taken so far under a retry budget of `retry`; the second component
/// is the new number of pauses.
pub open spec fn sync_decision(attempts: nat, retry: int, o: SyncOutcome) -> (
    SyncAction,
    nat,
) {
    match o {
        SyncOutcome::Synced => (SyncAction::Done, attempts),
        SyncOutcome::KissOfDeath => (SyncAction::GiveUp, attempts),
        SyncOutcome::OtherProtocolError => (SyncAction::RetryNow, attempts),
        SyncOutcome::OtherError => if attempts < retry || retry < 0 {
            (
                SyncAction::RetryAfter {
                    secs: (backoff_ms(attempts) / 1000) as u64,
                    millis: (backoff_ms(attempts) % 1000) as u32,
                },
                attempts + 1,
            )
        } else {
            (SyncAction::GiveUp, attempts)
        },
    }
}

/// Whether the decision for `o` makes the pause grow past what
/// `std::time::Duration` holds: the doubling of the 2^63-second pause
/// taken after 64 retries overflows, and the synchronisation panics there.
pub open spec fn backoff_overflows(attempts: nat, retry: int, o: SyncOutcome) -> bool {
    o == SyncOutcome::OtherError && (attempts < retry || retry < 0) && attempts >= 64
}

/// State of one synchronisation.
pub struct SyncRetry {
    attempts: i32,
    retry: i32,
}

impl SyncRetry {
    /// Pauses taken so far.
    pub closed spec fn attempts(self) -> nat {
        self.attempts as nat
    }

    /// The retry budget for other failures (negative: unlimited).
    pub closed spec fn retry(self) -> int {
        self.retry as int
    }

    /// Well-formedness: the pause count is not negative and stays within
    /// what can be taken before the pause overflows.
    pub closed spec fn wf(self) -> bool {
        0 <= self.attempts <= 64
    }

    /// A synchronisation that has not tried yet.
    pub fn new(retry: i32) -> (s: SyncRetry)
        ensures
            s.wf(),
            s.attempts() == 0,
            s.retry() == retry as int,
    {
        SyncRetry { attempts: 0, retry }
    }

    /// Whether deciding on `o` would overflow the pause (see
    /// `backoff_overflows`).
    pub fn would_overflow(&self, o: SyncOutcome) -> (b: bool)
        requires
            self.wf(),
        ensures
            b == backoff_overflows(self.attempts(), self.retry(), o),
    {
        match o {
            SyncOutcome::OtherError => (self.attempts < self.retry || self.retry < 0)
                && self.attempts >= 64,
            _ => false,
        }
    }

    /// Decides what to do after an attempt ended with `o`.
    pub fn decide(&mut self, o: SyncOutcome) -> (a: SyncAction)
        requires
            old(self).wf(),
            !backoff_overflows(old(self).attempts(), old(self).retry(), o),
        ensures
            final(self).wf(),
            (a, final(self).attempts()) == sync_decision(
                old(self).attempts(),
                old(self).retry(),
                o,
            ),
            final(self).retry() == old(self).retry(),
            a is RetryAfter ==> pause_is(a, backoff_ms(old(self).attempts())),
            a is RetryAfter ==> pause_is(a, 500 * pow2(old(self).attempts())),
            o == SyncOutcome::OtherError && a is RetryAfter ==> final(self).attempts() == old(
                self,
            ).attempts() + 1,
    {
        match o {
            SyncOutcome::Synced => SyncAction::Done,
            SyncOutcome::KissOfDeath => SyncAction::GiveUp,
            SyncOutcome::OtherProtocolError => SyncAction::RetryNow,
            SyncOutcome::OtherError => {
                if self.attempts < self.retry || self.retry < 0 {
                    let n = self.attempts;
                    let action = if n == 0 {
                        proof {
                            lemma2_to64();
                        }
                        SyncAction::RetryAfter { secs: 0, millis: 500 }
                    } else {
                        let shift = (n - 1) as u64;
                        proof {
                            lemma_pow2_unfold(n as nat);
                            lemma_pow2_pos((n - 1) as nat);
                            assert(1u64 << shift == pow2(shift as nat)) by {
                                vstd::bits::lemma_u64_pow2_no_overflow(shift as nat);
                                vstd::bits::lemma_u64_shl_is_mul(1, shift);
                            }
                            assert(backoff_ms(n as nat) == pow2((n - 1) as nat) * 1000);
                        }
                        SyncAction::RetryAfter { secs: 1u64 << shift, millis: 0 }
                    };
                    self.attempts = n + 1;
                    action
                } else {
                    SyncAction::GiveUp
                }
            },
        }
    }
}

/// `m` consecutive failures of the "other" kind.
pub open spec fn other_errors(m: nat) -> Seq<SyncOutcome> {
    Seq::new(m, |i: int| SyncOutcome::OtherError)
}

/// The decisions taken for a run of attempt outcomes, starting with
/// `attempts` pauses already taken.
pub open spec fn decisions(attempts: nat, retry: int, outcomes: Seq<SyncOutcome>) -> Seq<
    SyncAction,
>
    decreases outcomes.len(),
{
    if outcomes.len() == 0 {
        seq![]
    } else {
        let (a, n) = sync_decision(attempts, retry, outcomes[0]);
        seq![a] + decisions(n, retry, outcomes.drop_first())
    }
}

proof fn lemma_pause_of_decision(attempts: nat, retry: int)
    requires
        attempts < 64,
        attempts < retry || retry < 0,
    ensures
        pause_is(sync_decision(attempts, retry, SyncOutcome::OtherError).0, backoff_ms(attempts)),
        sync_decision(attempts, retry, SyncOutcome::OtherError).1 == attempts + 1,
{
    let p = pow2(attempts);
    vstd::bits::lemma_u64_pow2_no_overflow(attempts);
    assert((500 * p) / 1000 <= p) by (nonlinear_arith);
}

proof fn lemma_pause_run(a: nat, retry: int, m: nat)
    requires
        a + m <= 64,
        retry < 0 || a + m <= retry,
    ensures
        decisions(a, retry, other_errors(m)).len() == m,
        forall|j: int|
            0 <= j < m ==> pause_is(
                #[trigger] decisions(a, retry, other_errors(m))[j],
                backoff_ms((a + j) as nat),
            ),
    decreases m,
{
    if m > 0 {
        lemma_pause_of_decision(a, retry);
        assert(other_errors(m).drop_first() =~= other_errors((m - 1) as nat));
        lemma_pause_run(a + 1, retry, (m - 1) as nat);
        let d = decisions(a, retry, other_errors(m));
        let rest = decisions(a + 1, retry, other_errors((m - 1) as nat));
        assert(d == seq![sync_decision(a, retry, SyncOutcome::OtherError).0] + rest);
        assert forall|j: int| 0 <= j < m implies pause_is(
            #[trigger] d[j],
            backoff_ms((a + j) as nat),
        ) by {
            if j > 0 {
                assert(d[j] == rest[j - 1]);
                assert(a + j == (a + 1) + (j - 1));
            }
        }
    }
}

/// With a retry budget `r` between 0 and 64, a run of failures of the
/// "other" kind is retried exactly `r` times, after pauses of 500 ms,
/// 1 s, 2 s, ... (each twice the one before), and the failure after that
/// is given up on.
pub proof fn lemma_retry_budget(retry: int)
    requires
        0 <= retry <= 64,
    ensures
        decisions(0, retry, other_errors((retry + 1) as nat)).len() == retry + 1,
        forall|j: int|
            0 <= j < retry ==> pause_is(
                #[trigger] decisions(0, retry, other_errors((retry + 1) as nat))[j],
                500 * pow2(j as nat),
            ),
        decisions(0, retry, other_errors((retry + 1) as nat))[retry] == SyncAction::GiveUp,
{
    let r = retry as nat;
    let all = other_errors(r + 1);
    assert(all =~= other_errors(r) + seq![SyncOutcome::OtherError]);
    lemma_pause_run(0, retry, r);
    lemma_decisions_concat(0, retry, other_errors(r), seq![SyncOutcome::OtherError]);
    lemma_attempts_after_pauses(0, retry, r);
    reveal_with_fuel(decisions, 2);
    assert(seq![SyncOutcome::OtherError].drop_first() =~= Seq::<SyncOutcome>::empty());
    let d = decisions(0, retry, all);
    assert forall|j: int| 0 <= j < retry implies pause_is(#[trigger] d[j], 500 * pow2(j as nat)) by {
        assert(d[j] == decisions(0, retry, other_errors(r))[j]);
    }
}

/// With an unlimited retry budget (negative), every failure of the "other"
/// kind among the first 64 is retried after a pause twice the one before.
pub proof fn lemma_unlimited_retries(retry: int, m: nat)
    requires
        retry < 0,
        m <= 64,
    ensures
        decisions(0, retry, other_errors(m)).len() == m,
        forall|j: int|
            0 <= j < m ==> pause_is(
                #[trigger] decisions(0, retry, other_errors(m))[j],
                500 * pow2(j as nat),
            ),
{
    lemma_pause_run(0, retry, m);
}

/// The number of pauses taken after a run of outcomes.
pub open spec fn attempts_after(attempts: nat, retry: int, outcomes: Seq<SyncOutcome>) -> nat
    decreases outcomes.len(),
{
    if outcomes.len() == 0 {
        attempts
    } else {
        attempts_after(sync_decision(attempts, retry, outcomes[0]).1, retry, outcomes.drop_first())
    }
}

proof fn lemma_decisions_concat(a: nat, retry: int, x: Seq<SyncOutcome>, y: Seq<SyncOutcome>)
    ensures
        decisions(a, retry, x + y) == decisions(a, retry, x) + decisions(
            attempts_after(a, retry, x),
            retry,
            y,
        ),
    decreases x.len(),
{
    if x.len() == 0 {
        assert(x + y =~= y);
        assert(decisions(a, retry, x) =~= Seq::<SyncAction>::empty());
        assert(decisions(a, retry, x + y) =~= Seq::<SyncAction>::empty() + decisions(a, retry, y));
    } else {
        assert((x + y).drop_first() =~= x.drop_first() + y);
        assert((x + y)[0] == x[0]);
        let (act, n) = sync_decision(a, retry, x[0]);
        lemma_decisions_concat(n, retry, x.drop_first(), y);
        let d1 = decisions(n, retry, x.drop_first());
        let d2 = decisions(attempts_after(n, retry, x.drop_first()), retry, y);
        assert(seq![act] + (d1 + d2) =~= (seq![act] + d1) + d2);
    }
}

proof fn lemma_attempts_after_pauses(a: nat, retry: int, m: nat)
    requires
        retry < 0 || a + m <= retry,
    ensures
        attempts_after(a, retry, other_errors(m)) == a + m,
    decreases m,
{
    if m > 0 {
        assert(other_errors(m).drop_first() =~= other_errors((m - 1) as nat));
        lemma_attempts_after_pauses(a + 1, retry, (m - 1) as nat);
    }
}

/// Whatever state the synchronisation is in, an answer with the time ends
/// it successfully, a kiss-of-death ends it with an error, and any other
/// protocol error is retried at once without using up the retry budget.
pub proof fn lemma_terminal_outcomes(attempts: nat, retry: int)
    ensures
        sync_decision(attempts, retry, SyncOutcome::Synced) == (SyncAction::Done, attempts),
        sync_decision(attempts, retry, SyncOutcome::KissOfDeath) == (SyncAction::GiveUp, attempts),
        sync_decision(attempts, retry, SyncOutcome::OtherProtocolError) == (
            SyncAction::RetryNow,
            attempts,
        ),
{
}

/// The pause limit is where `std::time::Duration` runs out: with retries
/// remaining, deciding on another failure overflows exactly when doubling
/// the pause due (500 ms * 2^n) gives more than `u64::MAX` seconds, that is
/// after 64 pauses.
pub proof fn lemma_overflow_is_duration_limit(attempts: nat, retry: int)
    requires
        attempts < retry || retry < 0,
    ensures
        backoff_overflows(attempts, retry, SyncOutcome::OtherError) <==> 2 * (500 * pow2(attempts))
            > u64::MAX as nat * 1000 + 999,
        forall|o: SyncOutcome| o != SyncOutcome::OtherError ==> !backoff_overflows(attempts, retry, o),
{
    if attempts < 64 {
        vstd::bits::lemma_u64_pow2_no_overflow(attempts);
    } else {
        lemma2_to64_rest();
        if attempts > 64 {
            lemma_pow2_strictly_increases(64, attempts);
        }
    }
}

} // verus!
