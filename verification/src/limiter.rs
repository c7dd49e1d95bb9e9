use vstd::prelude::*;

verus! {

/// A token bucket bounding the rate of new connection attempts.
///
/// The bucket holds at most `rate` tokens and starts full. Every probe
/// takes one token before it may touch the network; a periodic refill
/// tick resets the bucket to full (it does not top it up incrementally).
/// The timers and the waiting live with the caller: a probe that finds
/// the bucket empty simply sees `try_acquire` return false and asks
/// again after the next tick.
pub struct RateLimiter {
    tokens: u32,
    rate: u32,
}

/// One acquisition attempt against a bucket holding `tokens`: a token is
/// taken if and only if one is there.
pub open spec fn step_acquire(tokens: nat) -> (nat, bool) {
    if tokens > 0 {
        ((tokens - 1) as nat, true)
    } else {
        (tokens, false)
    }
}

/// The bucket contents after `n` acquisition attempts starting from
/// `start` tokens, with no refill in between.
pub open spec fn tokens_after(start: nat, n: nat) -> nat
    decreases n,
{
    if n == 0 {
        start
    } else {
        step_acquire(tokens_after(start, (n - 1) as nat)).0
    }
}

/// Whether the first `n` acquisition attempts from `start` tokens all
/// succeed.
pub open spec fn first_n_succeed(start: nat, n: nat) -> bool
    decreases n,
{
    n == 0 || (first_n_succeed(start, (n - 1) as nat) && step_acquire(
        tokens_after(start, (n - 1) as nat),
    ).1)
}

/// A full bucket admits a burst: within one refill interval, the first
/// `n <= rate` acquisitions all succeed immediately, leaving `rate - n`
/// tokens.
pub proof fn lemma_burst_admitted(rate: nat, n: nat)
    requires
        n <= rate,
    ensures
        first_n_succeed(rate, n),
        tokens_after(rate, n) == rate - n,
    decreases n,
{
    if n > 0 {
        lemma_burst_admitted(rate, (n - 1) as nat);
    }
}

/// After a full burst of `rate` acquisitions, the next attempt within
/// the same refill interval fails; once the refill tick has reset the
/// bucket to `rate` tokens, an attempt succeeds again.
pub proof fn lemma_blocked_after_burst(rate: nat)
    ensures
        !step_acquire(tokens_after(rate, rate)).1,
        rate > 0 ==> step_acquire(rate).1,
{
    lemma_burst_admitted(rate, rate);
}

impl RateLimiter {
    pub closed spec fn tokens(&self) -> nat {
        self.tokens as nat
    }

    pub closed spec fn rate(&self) -> nat {
        self.rate as nat
    }

    /// The bucket never holds more than its capacity.
    pub open spec fn wf(&self) -> bool {
        self.tokens() <= self.rate()
    }

    /// A fresh limiter starts with a full bucket.
    pub fn new(rate: u32) -> (r: RateLimiter)
        ensures
            r.rate() == rate as nat,
            r.tokens() == rate as nat,
            r.wf(),
    {
        RateLimiter { tokens: rate, rate }
    }

    /// One acquisition attempt. The caller retries after the next refill
    /// tick when this returns false; the limiter never rejects, it only
    /// delays.
    pub fn try_acquire(&mut self) -> (ok: bool)
        ensures
            final(self).rate() == old(self).rate(),
            (final(self).tokens(), ok) == step_acquire(old(self).tokens()),
            old(self).wf() ==> final(self).wf(),
    {
        if self.tokens > 0 {
            self.tokens = self.tokens - 1;
            true
        } else {
            false
        }
    }

    /// The periodic refill tick: the bucket is reset to full capacity,
    /// not topped up.
    pub fn refill(&mut self)
        ensures
            final(self).rate() == old(self).rate(),
            final(self).tokens() == final(self).rate(),
            final(self).wf(),
    {
        self.tokens = self.rate;
    }
}

} // verus!
