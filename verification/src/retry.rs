//! Retry policy: how many attempts a request may make and how long to
//! wait before each retry.
//!
//! The backoff before retry `k` is `factor^k` seconds, deliberately
//! unbounded: no jitter and no cap.  Delays are computed in milliseconds
//! with the factor given in thousandths of a second, flooring at each
//! multiplication.

use vstd::arithmetic::power::pow;
use vstd::prelude::*;

verus! {

/// Retry configuration: retries allowed after the first attempt, and the
/// backoff factor in thousandths of a second (`2000` is a factor of 2.0).
pub struct RetrySettings {
    pub max_retries: u32,
    pub backoff_factor_millis: u64,
}

impl RetrySettings {
    /// The factor must be positive.
    pub open spec fn wf(self) -> bool {
        self.backoff_factor_millis >= 1
    }
}

impl Default for RetrySettings {
    /// Three retries with a doubling backoff.
    fn default() -> (r: Self)
        ensures
            r.max_retries == 3,
            r.backoff_factor_millis == 2000,
    {
        RetrySettings { max_retries: 3, backoff_factor_millis: 2000 }
    }
}

/// The delay before retry `k` (retries are numbered from 1), in
/// milliseconds: the fixed-point evaluation of `factor^k` seconds.
pub open spec fn spec_delay_millis(factor_millis: nat, k: nat) -> nat
    recommends
        k >= 1,
    decreases k,
{
    if k <= 1 {
        factor_millis
    } else {
        spec_delay_millis(factor_millis, (k - 1) as nat) * factor_millis / 1000
    }
}

/// With a factor at or above one second the delays never shrink.
proof fn lemma_delay_monotone(factor: nat, m: nat, n: nat)
    requires
        factor >= 1000,
        1 <= m <= n,
    ensures
        spec_delay_millis(factor, m) <= spec_delay_millis(factor, n),
    decreases n - m,
{
    if m < n {
        lemma_delay_monotone(factor, m, (n - 1) as nat);
        let p = spec_delay_millis(factor, (n - 1) as nat);
        assert(p * factor / 1000 >= p) by (nonlinear_arith)
            requires
                factor >= 1000,
                p >= 0,
        ;
    }
}

/// For a whole-second factor the backoff is exactly `factor^k` seconds:
/// nothing is lost to rounding.
pub proof fn lemma_delay_exact_for_whole_seconds(s: nat, k: nat)
    requires
        s >= 1,
        k >= 1,
    ensures
        spec_delay_millis(s * 1000, k) == pow(s as int, k) * 1000,
    decreases k,
{
    if k == 1 {
        vstd::arithmetic::power::lemma_pow1(s as int);
    } else {
        lemma_delay_exact_for_whole_seconds(s, (k - 1) as nat);
        let p = pow(s as int, (k - 1) as nat);
        vstd::arithmetic::power::lemma_pow_positive(s as int, (k - 1) as nat);
        vstd::arithmetic::power::lemma_pow_adds(s as int, (k - 1) as nat, 1);
        vstd::arithmetic::power::lemma_pow1(s as int);
        assert(pow(s as int, k) == p * s as int);
        assert((p * 1000) * (s * 1000) / 1000 == (p * s) * 1000) by (nonlinear_arith)
            requires
                p >= 1,
                s >= 1,
        ;
        assert(spec_delay_millis(s * 1000, k) == spec_delay_millis(s * 1000, (k - 1) as nat) * (s
            * 1000) / 1000);
    }
}

impl RetrySettings {
    /// The delay before retry `attempt`, or `None` when it does not fit
    /// in a `u64` of milliseconds (the backoff is unbounded by design;
    /// such a delay is astronomically long).
    pub fn next_delay_millis(&self, attempt: u32) -> (r: Option<u64>)
        requires
            attempt >= 1,
            self.wf(),
        ensures
            r matches Some(d) ==> d == spec_delay_millis(
                self.backoff_factor_millis as nat,
                attempt as nat,
            ),
            r is None ==> spec_delay_millis(self.backoff_factor_millis as nat, attempt as nat)
                > u64::MAX as nat / 2000,
    {
        let f = self.backoff_factor_millis;
        let mut d: u64 = f;
        let mut j: u32 = 1;
        while j < attempt
            invariant
                1 <= j <= attempt,
                f == self.backoff_factor_millis,
                f >= 1,
                d == spec_delay_millis(f as nat, j as nat),
                f <= 1000 ==> d <= 1000,
            decreases attempt - j,
        {
            if d > u64::MAX / f {
                proof {
                    if f <= 1000 {
                        assert(u64::MAX / f >= u64::MAX / 1000) by (nonlinear_arith)
                            requires
                                1 <= f <= 1000,
                        ;
                        assert(false);
                    }
                    let next = spec_delay_millis(f as nat, (j + 1) as nat);
                    assert(next == d as nat * f as nat / 1000);
                    assert(d as nat * f as nat > u64::MAX as nat) by (nonlinear_arith)
                        requires
                            d as nat > u64::MAX as nat / f as nat,
                            f >= 1,
                    ;
                    assert(next > u64::MAX as nat / 2000) by (nonlinear_arith)
                        requires
                            next == d as nat * f as nat / 1000,
                            d as nat * f as nat > u64::MAX as nat,
                    ;
                    lemma_delay_monotone(f as nat, (j + 1) as nat, attempt as nat);
                }
                return None;
            }
            proof {
                assert(d * f <= u64::MAX) by (nonlinear_arith)
                    requires
                        d as nat <= u64::MAX as nat / f as nat,
                        f >= 1,
                ;
                if f <= 1000 {
                    assert(d * f / 1000 <= 1000) by (nonlinear_arith)
                        requires
                            d <= 1000,
                            1 <= f <= 1000,
                    ;
                }
            }
            d = d * f / 1000;
            j = j + 1;
        }
        Some(d)
    }
}

} // verus!
