//! The reconnect policy of the validator link: bounded retries with an
//! exponential backoff capped at a maximum delay.

use vstd::prelude::*;

verus! {

/// How reconnecting is paced and when it gives up.
#[derive(Clone, Copy, Debug, PartialEq, Eq, Structural)]
pub struct ReconnectPolicy {
    /// Attempts made before giving up.
    pub max_attempts: u32,
    /// Delay before the first retry, in milliseconds.
    pub base_delay_ms: u64,
    /// No delay exceeds this, in milliseconds.
    pub max_delay_ms: u64,
}

/// What to do after a failed connect.
#[derive(Clone, Copy, Debug, PartialEq, Eq, Structural)]
pub enum ReconnectDecision {
    /// Wait this long, then connect again.
    Retry { delay_ms: u64 },
    /// Attempts are exhausted: the failure is fatal.
    GiveUp,
}

pub open spec fn pow2(n: nat) -> nat
    decreases n,
{
    if n == 0 {
        1
    } else {
        2 * pow2((n - 1) as nat)
    }
}

/// The delay before retry number `attempt` (counting from zero): the base
/// delay doubled `attempt` times, but never above the maximum.
pub open spec fn delay_spec(p: ReconnectPolicy, attempt: nat) -> nat {
    let d = (p.base_delay_ms * pow2(attempt)) as nat;
    if d > p.max_delay_ms {
        p.max_delay_ms as nat
    } else {
        d
    }
}

pub open spec fn decision_spec(p: ReconnectPolicy, attempts_made: nat) -> ReconnectDecision {
    if attempts_made >= p.max_attempts {
        ReconnectDecision::GiveUp
    } else {
        ReconnectDecision::Retry { delay_ms: delay_spec(p, attempts_made) as u64 }
    }
}

proof fn lemma_pow2_grows(a: nat, b: nat)
    requires
        a <= b,
    ensures
        pow2(a) <= pow2(b),
    decreases b,
{
    if a < b {
        lemma_pow2_grows(a, (b - 1) as nat);
    }
}

proof fn lemma_scaled_grows(base: nat, a: nat, b: nat)
    requires
        a <= b,
    ensures
        base * pow2(a) <= base * pow2(b),
{
    lemma_pow2_grows(a, b);
    assert(base * pow2(a) <= base * pow2(b)) by (nonlinear_arith)
        requires
            pow2(a) <= pow2(b),
    ;
}

impl ReconnectPolicy {
    /// Ten attempts, starting at a tenth of a second and capped at thirty
    /// seconds.
    pub fn standard() -> (r: ReconnectPolicy)
        ensures
            r.max_attempts == 10,
            r.base_delay_ms == 100,
            r.max_delay_ms == 30000,
    {
        ReconnectPolicy { max_attempts: 10, base_delay_ms: 100, max_delay_ms: 30000 }
    }

    /// The delay before retry number `attempt`, counting from zero.
    pub fn backoff_delay(&self, attempt: u32) -> (r: u64)
        ensures
            r as nat == delay_spec(*self, attempt as nat),
    {
        let max = self.max_delay_ms;
        let mut d: u64 = self.base_delay_ms;
        assert(pow2(0) == 1);
        assert(self.base_delay_ms * pow2(0) == self.base_delay_ms);
        if d > max {
            proof {
                lemma_scaled_grows(self.base_delay_ms as nat, 0, attempt as nat);
            }
            return max;
        }
        let mut i: u32 = 0;
        while i < attempt
            invariant
                i <= attempt,
                d == self.base_delay_ms * pow2(i as nat),
                d <= max,
                max == self.max_delay_ms,
            decreases attempt - i,
        {
            if d > max / 2 {
                proof {
                    assert(pow2((i + 1) as nat) == 2 * pow2(i as nat));
                    assert(self.base_delay_ms * pow2((i + 1) as nat) == 2 * d) by (nonlinear_arith)
                        requires
                            pow2((i + 1) as nat) == 2 * pow2(i as nat),
                            d == self.base_delay_ms * pow2(i as nat),
                    ;
                    lemma_scaled_grows(self.base_delay_ms as nat, (i + 1) as nat, attempt as nat);
                }
                return max;
            }
            proof {
                assert(pow2((i + 1) as nat) == 2 * pow2(i as nat));
                assert(self.base_delay_ms * pow2((i + 1) as nat) == 2 * d) by (nonlinear_arith)
                    requires
                        pow2((i + 1) as nat) == 2 * pow2(i as nat),
                        d == self.base_delay_ms * pow2(i as nat),
                ;
            }
            d = d * 2;
            i = i + 1;
        }
        d
    }

    /// After `attempts_made` failed connects: retry after the backoff delay,
    /// or give up once the attempts are exhausted.
    pub fn decide(&self, attempts_made: u32) -> (r: ReconnectDecision)
        ensures
            r == decision_spec(*self, attempts_made as nat),
    {
        if attempts_made >= self.max_attempts {
            ReconnectDecision::GiveUp
        } else {
            ReconnectDecision::Retry { delay_ms: self.backoff_delay(attempts_made) }
        }
    }
}

} // verus!
