//! Frames and moving windows of signals: which samples they are made of.

use crate::exact::Valued;
use crate::io::signal::processor::SignalMath;
use crate::number::{Single, MINUS_ZERO_BITS};
use vstd::prelude::*;

verus! {

/// Frames are as many as fit: the last one ends inside the signal, and one more
/// would not.
pub proof fn frames_fill_the_signal(n: int, size: int, hop: int)
    requires
        0 < hop,
        0 <= size <= n,
    ensures
        ({
            let frames = crate::io::signal::features::frame_count(n, size, hop);
            &&& frames >= 1
            &&& (frames - 1) * hop + size <= n < frames * hop + size
        }),
{
    let q = (n - size) / hop;
    vstd::arithmetic::div_mod::lemma_fundamental_div_mod(n - size, hop);
    vstd::arithmetic::div_mod::lemma_div_pos_is_pos(n - size, hop);
    assert(hop * q == q * hop && (q + 1) * hop == q * hop + hop) by (nonlinear_arith);
}

/// The sum of the samples from one place up to another.
pub open spec fn sum_between(signal: Seq<Single>, from: int, to: int) -> real {
    crate::exact::sum_of(signal, to) - crate::exact::sum_of(signal, from)
}

proof fn sums_of_a_start(signal: Seq<Single>, window: int, n: int)
    requires
        0 <= n <= window <= signal.len(),
    ensures
        crate::exact::sum_of(signal.take(window), n) == crate::exact::sum_of(signal, n),
    decreases n,
{
    if n > 0 {
        sums_of_a_start(signal, window, n - 1);
    }
}

proof fn moving_sums<M: SignalMath>(
    math: &M,
    signal: Seq<Single>,
    window: usize,
    sums: Seq<Single>,
    r: Seq<Single>,
    i: int,
)
    requires
        crate::exact::is_exact::<Single, M>(math),
        0 < window <= signal.len(),
        crate::io::signal::processor::are_means(math, signal, window, sums, r),
        0 <= i < signal.len(),
    ensures
        i < window ==> sums[i].value() == sum_between(signal, 0, window as int),
        i + 1 >= window ==> sums[i].value() == sum_between(signal, i + 1 - window, i + 1),
    decreases i,
{
    if i == 0 {
        let zero = Single { bits: MINUS_ZERO_BITS };
        let plus = Single { bits: 0 };
        crate::exact::singles_stand_for_reals(plus, plus);
        assert(plus.negated() == zero);
        crate::exact::totals_are_sums(math, zero, signal.take(window as int), sums[0]);
        sums_of_a_start(signal, window as int, window as int);
    } else {
        moving_sums(math, signal, window, sums, r, i - 1);
        assert(crate::io::signal::processor::slides(math, signal, window, sums, i));
        if i >= window {
            assert(sums[i].value() == sums[i - 1].value() - signal[i - window].value()
                + signal[i].value());
            assert(crate::exact::sum_of(signal, i + 1) == crate::exact::sum_of(signal, i)
                + signal[i].value());
            assert(crate::exact::sum_of(signal, i + 1 - window) == crate::exact::sum_of(
                signal,
                i - window,
            ) + signal[i - window].value());
        }
    }
}

/// Once the window is full, the moving average at a sample makes up, times the
/// width of the window, the sum of the samples from there back.
pub proof fn moving_averages_make_up_their_windows<M: SignalMath>(
    math: &M,
    signal: Seq<Single>,
    window: usize,
    r: Vec<Single>,
    i: int,
)
    requires
        crate::exact::is_exact::<Single, M>(math),
        0 < window <= signal.len(),
        crate::io::signal::processor::is_moving_average(math, signal, window, Ok(r)),
        window - 1 <= i < signal.len(),
    ensures
        r@.len() == signal.len(),
        r@[i].value() * (window as int as real) == sum_between(signal, i + 1 - window, i + 1),
{
    let sums = choose|sums: Seq<Single>|
        #[trigger] crate::io::signal::processor::are_means(math, signal, window, sums, r@);
    moving_sums(math, signal, window, sums, r@, i);
    assert(crate::io::signal::processor::is_mean_at(math, window, i, sums[i], r@[i]));
    assert(call_ensures(M::over, (math, sums[i], window), r@[i]));
}

} // verus!
