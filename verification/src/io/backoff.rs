//! Delays between attempts to connect: each failure doubles the delay, up to
//! a limit.

use vstd::arithmetic::power2::pow2;
use vstd::prelude::*;

verus! {

/// The delay after a failure, in milliseconds.
pub open spec fn doubled(delay_ms: int, max_ms: int) -> int {
    if 2 * delay_ms <= max_ms {
        2 * delay_ms
    } else {
        max_ms
    }
}

/// The delay after a number of failures in a row, in milliseconds.
pub open spec fn delay_after(initial_ms: int, max_ms: int, failures: nat) -> int
    decreases failures,
{
    if failures == 0 {
        initial_ms
    } else {
        doubled(delay_after(initial_ms, max_ms, (failures - 1) as nat), max_ms)
    }
}

/// After any number of failures in a row the delay is the initial one doubled
/// as often, or the limit where that is less.
pub proof fn delays_double_up_to_the_limit(initial_ms: int, max_ms: int, failures: nat)
    requires
        0 <= initial_ms,
        0 <= max_ms,
        failures > 0,
    ensures
        delay_after(initial_ms, max_ms, failures) == if pow2(failures) * initial_ms <= max_ms {
            pow2(failures) * initial_ms
        } else {
            max_ms
        },
    decreases failures,
{
    let fewer = (failures - 1) as nat;
    vstd::arithmetic::power2::lemma_pow2_unfold(failures);
    vstd::arithmetic::power2::lemma_pow2_pos(fewer);
    assert(pow2(failures) * initial_ms == 2 * (pow2(fewer) * initial_ms)) by (nonlinear_arith)
        requires
            pow2(failures) == 2 * pow2(fewer),
    ;
    assert(0 <= pow2(fewer) * initial_ms) by (nonlinear_arith)
        requires
            0 <= pow2(fewer),
            0 <= initial_ms,
    ;
    if failures > 1 {
        delays_double_up_to_the_limit(initial_ms, max_ms, fewer);
    } else {
        vstd::arithmetic::power2::lemma2_to64();
        assert(delay_after(initial_ms, max_ms, 0) == initial_ms);
        assert(pow2(fewer) * initial_ms == initial_ms) by (nonlinear_arith)
            requires
                pow2(fewer) == 1,
        ;
    }
}

/// The delay after a failure, in milliseconds.
pub fn next_delay(delay_ms: u64, max_ms: u64) -> (r: u64)
    ensures
        r == doubled(delay_ms as int, max_ms as int),
        r <= max_ms,
{
    if delay_ms <= max_ms / 2 {
        2 * delay_ms
    } else {
        max_ms
    }
}

} // verus!
