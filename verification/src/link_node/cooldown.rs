use vstd::prelude::*;
use vstd::arithmetic::power2::{lemma2_to64, lemma_pow2_pos, lemma_pow2_unfold, pow2};

verus! {

/// Seconds that a neighbour is left alone after a first failure.
pub const COOLDOWN_BASE_SECS: u64 = 1;

/// The longest cooldown: five minutes.
pub const COOLDOWN_CAP_SECS: u64 = 300;

/// The cooldown that follows a failure: the base after none, else twice the
/// last one, up to the cap.
pub open spec fn cooldown_after_failure(secs: nat) -> nat {
    if secs == 0 {
        COOLDOWN_BASE_SECS as nat
    } else if 2 * secs > COOLDOWN_CAP_SECS {
        COOLDOWN_CAP_SECS as nat
    } else {
        2 * secs
    }
}

/// The cooldown that is left after a successful reconnect: half.
pub open spec fn cooldown_after_reconnect(secs: nat) -> nat {
    secs / 2
}

/// The cooldown after `n` failures in a row, counted from no cooldown.
pub open spec fn cooldown_after_failures(n: nat) -> nat
    decreases n,
{
    if n == 0 {
        0
    } else {
        cooldown_after_failure(cooldown_after_failures((n - 1) as nat))
    }
}

/// Failures in a row back off exponentially: the `n`-th failure leaves a
/// cooldown of `2^(n-1)` seconds, or of five minutes where that would be more.
pub proof fn lemma_cooldown_is_exponential(n: nat)
    requires
        n > 0,
    ensures
        cooldown_after_failures(n) == if pow2((n - 1) as nat) > COOLDOWN_CAP_SECS {
            COOLDOWN_CAP_SECS as nat
        } else {
            pow2((n - 1) as nat)
        },
    decreases n,
{
    reveal_with_fuel(cooldown_after_failures, 2);
    lemma2_to64();
    if n > 1 {
        lemma_cooldown_is_exponential((n - 1) as nat);
        lemma_pow2_unfold((n - 1) as nat);
        lemma_pow2_pos((n - 2) as nat);
    }
}

/// How long a neighbour whose link failed is left alone.
#[derive(Clone, Copy, Debug)]
pub struct Cooldown {
    secs: u64,
}

impl Cooldown {
    #[verifier::type_invariant]
    spec fn well_formed(&self) -> bool {
        self.secs <= COOLDOWN_CAP_SECS
    }

    /// The current cooldown in seconds.
    pub closed spec fn secs(&self) -> nat {
        self.secs as nat
    }

    /// No cooldown: the neighbour has not failed.
    pub fn new() -> (cooldown: Cooldown)
        ensures
            cooldown.secs() == 0,
    {
        Cooldown { secs: 0 }
    }

    /// The current cooldown in seconds.
    pub fn current_secs(&self) -> (secs: u64)
        ensures
            secs == self.secs(),
            secs <= COOLDOWN_CAP_SECS,
    {
        proof {
            use_type_invariant(self);
        }
        self.secs
    }

    /// A link to the neighbour failed: the cooldown that now holds.
    pub fn on_failure(&mut self) -> (secs: u64)
        ensures
            secs == cooldown_after_failure(old(self).secs()),
            final(self).secs() == secs,
    {
        proof {
            use_type_invariant(&*self);
        }
        let secs = if self.secs == 0 {
            COOLDOWN_BASE_SECS
        } else if self.secs > COOLDOWN_CAP_SECS / 2 {
            COOLDOWN_CAP_SECS
        } else {
            2 * self.secs
        };
        *self = Cooldown { secs };
        secs
    }

    /// The neighbour was reached again: the cooldown is halved.
    pub fn on_reconnect(&mut self)
        ensures
            final(self).secs() == cooldown_after_reconnect(old(self).secs()),
    {
        proof {
            use_type_invariant(&*self);
        }
        *self = Cooldown { secs: self.secs / 2 };
    }
}

} // verus!
