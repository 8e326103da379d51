//! Retrying connections with exponential backoff: the decisions taken after
//! a failed connection attempt and after a sync stream ends. The caller
//! performs the attempts and the waits.

use vstd::prelude::*;

verus! {

/// The delay after `delay`: doubled, but never above `max_ms`.
pub open spec fn next_delay(delay: nat, max_ms: nat) -> nat {
    if 2 * delay < max_ms {
        2 * delay
    } else {
        max_ms
    }
}

/// The delay before the attempt that follows `n` failed ones, starting from
/// `base` and doubling up to `max_ms`.
pub open spec fn backoff_delay(base: nat, max_ms: nat, n: nat) -> nat
    decreases n,
{
    if n == 0 {
        base
    } else {
        next_delay(backoff_delay(base, max_ms, (n - 1) as nat), max_ms)
    }
}

/// The doubled delay, capped; computed without overflow.
fn doubled_capped(delay: u32, max_ms: u32) -> (r: u32)
    ensures
        r == next_delay(delay as nat, max_ms as nat),
{
    let d: u64 = delay as u64 * 2;
    if d < max_ms as u64 {
        d as u32
    } else {
        max_ms
    }
}

/// What to do after a failed connection attempt.
#[derive(Debug, PartialEq, Eq)]
pub enum RetryDecision {
    /// Wait this many milliseconds, then try again.
    Retry(u32),
    /// Stop: the attempts allowed are used up.
    GiveUp,
}

/// What a failed attempt leads to, after `failures` earlier ones and with
/// `delay` as the current wait: giving up once the failures reach the grace
/// period, the wait unchanged; else retrying after `delay`, the next wait
/// doubled up to `max_ms`.
pub open spec fn retry_outcome(failures: nat, delay: nat, grace: nat, max_ms: nat) -> (RetryDecision, nat) {
    if failures + 1 >= grace {
        (RetryDecision::GiveUp, delay)
    } else {
        (RetryDecision::Retry(delay as u32), next_delay(delay, max_ms))
    }
}

/// The wait held after `k` failed attempts from a fresh start with the
/// base delay `base`.
pub open spec fn delay_after_failures(base: nat, grace: nat, max_ms: nat, k: nat) -> nat
    decreases k,
{
    if k == 0 {
        base
    } else {
        retry_outcome((k - 1) as nat, delay_after_failures(base, grace, max_ms, (k - 1) as nat), grace, max_ms).1
    }
}

/// A sequence of connection attempts: how many failed so far and how long
/// to wait before the next, with the number of attempts allowed (the grace
/// period) and the longest wait.
pub struct ConnectRetry {
    attempts: u32,
    delay_ms: u32,
    grace_period: u32,
    backoff_max_ms: u32,
}

impl ConnectRetry {
    /// The failed attempts so far.
    pub closed spec fn failures(&self) -> nat {
        self.attempts as nat
    }

    /// The wait before the next attempt.
    pub closed spec fn delay(&self) -> nat {
        self.delay_ms as nat
    }

    /// The number of attempts allowed.
    pub closed spec fn grace(&self) -> nat {
        self.grace_period as nat
    }

    /// The longest wait.
    pub closed spec fn max_delay(&self) -> nat {
        self.backoff_max_ms as nat
    }

    /// No attempt made yet: the first wait is `backoff_ms`.
    pub fn new(backoff_ms: u32, backoff_max_ms: u32, grace_period: u32) -> (r: Self)
        ensures
            r.failures() == 0,
            r.delay() == backoff_ms,
            r.grace() == grace_period,
            r.max_delay() == backoff_max_ms,
    {
        ConnectRetry { attempts: 0, delay_ms: backoff_ms, grace_period, backoff_max_ms }
    }

    /// Records a failed attempt. Once the failures reach the grace period
    /// (at least one attempt is always made) the caller gives up; otherwise
    /// it waits the current delay, and the next delay is doubled up to the
    /// longest wait.
    pub fn on_failure(&mut self) -> (r: RetryDecision)
        requires
            old(self).failures() < u32::MAX,
        ensures
            final(self).failures() == old(self).failures() + 1,
            final(self).grace() == old(self).grace(),
            final(self).max_delay() == old(self).max_delay(),
            (r, final(self).delay()) == retry_outcome(
                old(self).failures(),
                old(self).delay(),
                old(self).grace(),
                old(self).max_delay(),
            ),
    {
        self.attempts = self.attempts + 1;
        if self.attempts >= self.grace_period {
            RetryDecision::GiveUp
        } else {
            let wait = self.delay_ms;
            self.delay_ms = doubled_capped(self.delay_ms, self.backoff_max_ms);
            RetryDecision::Retry(wait)
        }
    }
}

/// The waits between sync streams: a stream that ended without error resets
/// the wait to the base delay; after each stream the wait doubles up to the
/// longest wait.
pub struct StreamRetry {
    delay_ms: u32,
    backoff_ms: u32,
    backoff_max_ms: u32,
}

impl StreamRetry {
    /// The wait after the next stream that fails.
    pub closed spec fn delay(&self) -> nat {
        self.delay_ms as nat
    }

    /// The base delay.
    pub closed spec fn base(&self) -> nat {
        self.backoff_ms as nat
    }

    /// The longest wait.
    pub closed spec fn max_delay(&self) -> nat {
        self.backoff_max_ms as nat
    }

    /// Before the first stream: the wait is the base delay.
    pub fn new(backoff_ms: u32, backoff_max_ms: u32) -> (r: Self)
        ensures
            r.delay() == backoff_ms,
            r.base() == backoff_ms,
            r.max_delay() == backoff_max_ms,
    {
        StreamRetry { delay_ms: backoff_ms, backoff_ms, backoff_max_ms }
    }

    /// How long to wait after a stream ended, gracefully or with an error.
    pub fn on_stream_end(&mut self, graceful: bool) -> (wait_ms: u32)
        ensures
            wait_ms == if graceful {
                old(self).base()
            } else {
                old(self).delay()
            },
            final(self).delay() == next_delay(wait_ms as nat, old(self).max_delay()),
            final(self).base() == old(self).base(),
            final(self).max_delay() == old(self).max_delay(),
    {
        if graceful {
            self.delay_ms = self.backoff_ms;
        }
        let wait = self.delay_ms;
        self.delay_ms = doubled_capped(self.delay_ms, self.backoff_max_ms);
        wait
    }
}

/// The waits grow as `base` times a power of two until they reach the
/// longest wait, and stay there: after `n >= 1` doublings the delay is
/// `min(base * 2^n, max_ms)`.
pub proof fn law_backoff_closed_form(base: nat, max_ms: nat, n: nat)
    requires
        n >= 1,
    ensures
        backoff_delay(base, max_ms, n) == if base * vstd::arithmetic::power2::pow2(n) < max_ms {
            base * vstd::arithmetic::power2::pow2(n)
        } else {
            max_ms
        },
    decreases n,
{
    let p = vstd::arithmetic::power2::pow2(n);
    let q = vstd::arithmetic::power2::pow2((n - 1) as nat);
    vstd::arithmetic::power2::lemma_pow2_unfold(n);
    assert(p == 2 * q);
    assert(base * p == 2 * (base * q)) by (nonlinear_arith)
        requires
            p == 2 * q,
    ;
    vstd::arithmetic::power2::lemma_pow2_pos((n - 1) as nat);
    assert(base * q >= 0) by (nonlinear_arith)
        requires
            q > 0,
    ;
    assert(backoff_delay(base, max_ms, n) == next_delay(backoff_delay(base, max_ms, (n - 1) as nat), max_ms));
    if n > 1 {
        law_backoff_closed_form(base, max_ms, (n - 1) as nat);
        let prev = backoff_delay(base, max_ms, (n - 1) as nat);
        if base * q < max_ms {
            assert(prev == base * q);
        } else {
            assert(prev == max_ms);
            assert(base * p >= max_ms);
        }
    } else {
        assert(backoff_delay(base, max_ms, 0) == base);
        assert(q == 1) by {
            vstd::arithmetic::power2::lemma2_to64();
        }
        assert(base * q == base) by (nonlinear_arith)
            requires
                q == 1,
        ;
    }
}

/// No wait after the first ever exceeds the longest wait.
pub proof fn law_backoff_bounded(base: nat, max_ms: nat, n: nat)
    requires
        n >= 1,
    ensures
        backoff_delay(base, max_ms, n) <= max_ms,
{
}

/// Failing attempt after attempt from a fresh start, the failure that
/// follows `k` earlier ones retries after `backoff_delay(k)` while fewer than
/// the grace period have failed, and gives up when it reaches the grace
/// period: exactly `max(grace, 1)` attempts are made, with the waits
/// doubling from the base delay up to the longest wait.
pub proof fn law_retry_schedule(base: nat, grace: nat, max_ms: nat, k: nat)
    requires
        k == 0 || k < grace,
    ensures
        delay_after_failures(base, grace, max_ms, k) == backoff_delay(base, max_ms, k),
        retry_outcome(k, delay_after_failures(base, grace, max_ms, k), grace, max_ms).0 == if k + 1
            >= grace {
            RetryDecision::GiveUp
        } else {
            RetryDecision::Retry(backoff_delay(base, max_ms, k) as u32)
        },
    decreases k,
{
    if k > 0 {
        law_retry_schedule(base, grace, max_ms, (k - 1) as nat);
    }
}

} // verus!
