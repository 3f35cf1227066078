//! How long to wait before the next attempt to connect.

use vstd::arithmetic::power2::lemma2_to64;
use vstd::arithmetic::power2::lemma_pow2_unfold;
use vstd::arithmetic::power2::pow2;
use vstd::prelude::*;

verus! {

/// Pause after the first failed attempt, in seconds.
pub const BACKOFF_INITIAL_SECS: u64 = 1;

/// Longest pause between two attempts, in seconds.
pub const BACKOFF_MAX_SECS: u64 = 30;

/// Pause that follows a failed attempt, where the pause before it was `secs` seconds.
pub open spec fn backoff_after(secs: nat) -> nat {
    if 2 * secs <= BACKOFF_MAX_SECS { 2 * secs } else { BACKOFF_MAX_SECS as nat }
}

/// Pause after the failed attempt number `n`, counted from zero since the last success.
pub open spec fn backoff_schedule(n: nat) -> nat
    decreases n,
{
    if n == 0 {
        BACKOFF_INITIAL_SECS as nat
    } else {
        backoff_after(backoff_schedule((n - 1) as nat))
    }
}

/// The pause that the next failed attempt is answered with.
pub struct Backoff {
    delay_secs: u64,
}

impl Backoff {
    /// The length of the pause in seconds.
    pub closed spec fn delay(&self) -> nat {
        self.delay_secs as nat
    }

    #[verifier::type_invariant]
    spec fn bounded(&self) -> bool {
        BACKOFF_INITIAL_SECS <= self.delay_secs <= BACKOFF_MAX_SECS
    }

    /// The state after a success, and before the first attempt.
    pub fn new() -> (r: Self)
        ensures
            r.delay() == backoff_schedule(0),
    {
        Backoff { delay_secs: BACKOFF_INITIAL_SECS }
    }

    /// Forgets the failures so far.
    pub fn succeeded(&mut self)
        ensures
            final(self).delay() == backoff_schedule(0),
    {
        self.delay_secs = BACKOFF_INITIAL_SECS;
    }

    /// Counts a failure. Returns the seconds to wait before the next attempt.
    pub fn failed(&mut self) -> (secs: u64)
        ensures
            secs == old(self).delay(),
            final(self).delay() == backoff_after(old(self).delay()),
    {
        proof {
            use_type_invariant(&*self);
        }
        let secs: u64 = self.delay_secs;
        let doubled: u64 = secs * 2;
        self.delay_secs = if doubled <= BACKOFF_MAX_SECS { doubled } else { BACKOFF_MAX_SECS };
        secs
    }
}

/// Successive failures double the pause, up to the longest one.
pub proof fn law_backoff_doubles(n: nat)
    ensures
        backoff_schedule(n) == if pow2(n) <= BACKOFF_MAX_SECS {
            pow2(n)
        } else {
            BACKOFF_MAX_SECS as nat
        },
    decreases n,
{
    lemma2_to64();
    if n > 0 {
        law_backoff_doubles((n - 1) as nat);
        lemma_pow2_unfold(n);
    }
}

/// No pause is shorter than the first one or longer than the longest one.
pub proof fn law_backoff_is_bounded(n: nat)
    ensures
        BACKOFF_INITIAL_SECS <= backoff_schedule(n) <= BACKOFF_MAX_SECS,
        backoff_schedule(n) <= backoff_schedule(n + 1),
    decreases n,
{
    if n > 0 {
        law_backoff_is_bounded((n - 1) as nat);
    }
}

} // verus!
