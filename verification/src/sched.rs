//! Pacing for the periodic nodes: how long one period of a sampling rate
//! lasts.  The runtime's ticker thread sleeps this long between wake-ups and
//! sends one tick per wake-up.

use vstd::arithmetic::div_mod::{lemma_fundamental_div_mod, lemma_mod_division_less_than_divisor};
use vstd::prelude::*;

verus! {

/// The period of a sampling rate in nanoseconds: the ceiling of one second
/// over the rate, so that ticking once per period never exceeds the rate.
pub fn period_ns(rate_hz: u32) -> (r: u64)
    requires
        rate_hz >= 1,
    ensures
        r == (1_000_000_000 + rate_hz - 1) as int / rate_hz as int,
        r * rate_hz >= 1_000_000_000,
        (r - 1) * rate_hz < 1_000_000_000,
{
    let rate = rate_hz as u64;
    let r = (1_000_000_000u64 + rate - 1) / rate;
    proof {
        let n: int = 1_000_000_000;
        let d = rate_hz as int;
        let q = (n + d - 1) / d;
        let rem = (n + d - 1) % d;
        lemma_fundamental_div_mod(n + d - 1, d);
        lemma_mod_division_less_than_divisor(n + d - 1, d);
        assert(n + d - 1 == d * q + rem);
        assert(0 <= rem < d);
        assert(d * q >= n);
        assert((q - 1) * d == d * q - d) by (nonlinear_arith);
        assert((q - 1) * d < n);
        assert(q * d == d * q) by (nonlinear_arith);
    }
    r
}

} // verus!
