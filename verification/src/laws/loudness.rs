//! Measures of whole signals: energy, peaks and changes of sign.

use crate::exact::Valued;
use crate::io::signal::processor::SignalMath;
use crate::number::{Single, MINUS_ZERO_BITS};
use vstd::prelude::*;

verus! {

proof fn energy_of_a_part(s: Seq<Single>, from: int, to: int, n: int)
    requires
        0 <= from <= to <= s.len(),
        0 <= n <= to - from,
    ensures
        crate::exact::dot_of(s, s, from + n) == crate::exact::dot_of(s, s, from)
            + crate::exact::dot_of(s.subrange(from, to), s.subrange(from, to), n),
    decreases n,
{
    if n > 0 {
        energy_of_a_part(s, from, to, n - 1);
        assert(s.subrange(from, to)[n - 1] == s[from + n - 1]);
    }
}

proof fn chunk_joins<M: SignalMath>(
    math: &M,
    s: Seq<Single>,
    from: int,
    to: int,
    sum: Single,
    r: Single,
)
    requires
        crate::exact::is_exact::<Single, M>(math),
        0 <= from <= to <= s.len(),
        crate::io::signal::measures::joins_chunk(math, s.subrange(from, to), sum, r),
        sum.value() == crate::exact::dot_of(s, s, from),
    ensures
        r.value() == crate::exact::dot_of(s, s, to),
{
    let part = s.subrange(from, to);
    let zero = Single { bits: MINUS_ZERO_BITS };
    let plus = Single { bits: 0 };
    crate::exact::singles_stand_for_reals(plus, plus);
    assert(plus.negated() == zero);
    let energy = choose|energy: Single| #[trigger]
        crate::arith::is_dot(math, zero, part, part, energy) && call_ensures(
            M::sum,
            (math, sum, energy),
            r,
        );
    crate::exact::dots_are_sums_of_products(math, zero, part, part, energy);
    energy_of_a_part(s, from, to, to - from);
}

proof fn chunks_add_up<M: SignalMath>(
    math: &M,
    s: Seq<Single>,
    chunk: int,
    sums: Seq<Single>,
    k: int,
    i: int,
)
    requires
        crate::exact::is_exact::<Single, M>(math),
        0 < chunk,
        0 <= i <= k,
        k * chunk <= s.len(),
        crate::io::signal::measures::adds_chunks(math, s, chunk, sums, k),
    ensures
        0 <= i * chunk <= s.len(),
        sums[i].value() == crate::exact::dot_of(s, s, i * chunk),
    decreases i,
{
    assert(0 <= i * chunk <= k * chunk && 0 * chunk == 0) by (nonlinear_arith)
        requires
            0 <= i <= k,
            0 < chunk,
    ;
    if i > 0 {
        let j = i - 1;
        chunks_add_up(math, s, chunk, sums, k, j);
        assert(i * chunk == j * chunk + chunk) by (nonlinear_arith)
            requires
                i == j + 1,
        ;
        assert(crate::io::signal::measures::joins_chunk(
            math,
            s.subrange(j * chunk, j * chunk + chunk),
            sums[j],
            sums[j + 1],
        ));
        chunk_joins(math, s, j * chunk, j * chunk + chunk, sums[j], sums[i]);
    } else {
        crate::exact::singles_stand_for_reals(sums[0], sums[0]);
    }
}

/// However many squares are added at a time, the square of the root of the mean
/// square, as often as there are samples, is the sum of all the squares.
pub proof fn chunks_make_up_the_energy<M: SignalMath>(
    math: &M,
    s: Seq<Single>,
    chunk: int,
    r: Single,
)
    requires
        crate::exact::is_exact::<Single, M>(math),
        0 < chunk,
        0 < s.len() <= usize::MAX,
        crate::io::signal::measures::is_chunked_rms(math, s, chunk, r),
    ensures
        r.value() >= 0real,
        r.value() * r.value() * (s.len() as int as real) == crate::exact::dot_of(
            s,
            s,
            s.len() as int,
        ),
{
    let n = s.len() as int;
    let k = n / chunk;
    let (sums, energy, level) = choose|sums: Seq<Single>, energy: Single, level: Single|
        {
            &&& #[trigger] crate::io::signal::measures::adds_chunks(math, s, chunk, sums, k)
            &&& crate::io::signal::measures::joins_chunk(
                math,
                s.skip(k * chunk),
                sums.last(),
                energy,
            )
            &&& #[trigger] call_ensures(M::over, (math, energy, n as usize), level)
            &&& call_ensures(M::root, (math, level), r)
        };
    vstd::arithmetic::div_mod::lemma_fundamental_div_mod(n, chunk);
    vstd::arithmetic::div_mod::lemma_div_pos_is_pos(n, chunk);
    assert(chunk * k == k * chunk) by (nonlinear_arith);
    chunks_add_up(math, s, chunk, sums, k, k);
    assert(s.skip(k * chunk) =~= s.subrange(k * chunk, n));
    chunk_joins(math, s, k * chunk, n, sums.last(), energy);
    crate::exact::energies_are_not_negative(s, n);
    let (l, m) = (level.value(), n as real);
    assert(l >= 0real) by (nonlinear_arith)
        requires
            l * m >= 0real,
            m > 0real,
    ;
}

/// No sample is farther from zero than the peak, and where there is any but
/// silence one is as far.
pub proof fn peaks_are_reached(s: Seq<Single>, r: Single, i: int)
    requires
        crate::io::signal::measures::is_peak(s, r),
        0 <= i < s.len(),
        s[i].sound(),
        r.sound(),
    ensures
        crate::exact::distance(s[i].value(), 0real) <= r.value(),
        r.value() >= 0real,
        r.value() > 0real ==> exists|j: int|
            0 <= j < s.len() && r.value() == crate::exact::distance(
                (#[trigger] s[j]).value(),
                0real,
            ),
{
    crate::exact::singles_stand_for_reals(s[i], s[i]);
    crate::exact::singles_stand_for_reals(r, s[i].absolute());
    if r.bits != 0 {
        let j = choose|j: int| 0 <= j < s.len() && r == (#[trigger] s[j]).absolute();
        crate::exact::singles_stand_for_reals(s[j], s[j]);
    }
}

/// Signs change where a negative number stands beside one that is not, and a
/// signal has as many changes as its two parts and one more where they meet
/// with different signs.
pub proof fn sign_changes_add_up(s: Seq<Single>, m: int, n: int)
    requires
        1 <= m < n <= s.len(),
        forall|i: int| 0 <= i < s.len() ==> !(#[trigger] s[i]).nan(),
    ensures
        crate::io::signal::measures::sign_changes(s, n) == crate::io::signal::measures::sign_changes(
            s,
            m,
        ) + crate::io::signal::measures::sign_changes(s.subrange(m, n), n - m) + if s[m
            - 1].negative() == s[m].negative() {
            0int
        } else {
            1
        },
    decreases n,
{
    let part = s.subrange(m, n);
    assert(part[0] == s[m]);
    if n > m + 1 {
        sign_changes_add_up(s, m, n - 1);
        let shorter = s.subrange(m, n - 1);
        same_changes(shorter, part, n - 1 - m);
        assert(part[n - m - 1] == s[n - 1]);
        assert(part[n - m - 2] == s[n - 2]);
    }
}

proof fn same_changes(a: Seq<Single>, b: Seq<Single>, n: int)
    requires
        0 <= n <= a.len(),
        n <= b.len(),
        forall|i: int| 0 <= i < n ==> #[trigger] a[i] == b[i],
    ensures
        crate::io::signal::measures::sign_changes(a, n) == crate::io::signal::measures::sign_changes(
            b,
            n,
        ),
    decreases n,
{
    if n >= 2 {
        same_changes(a, b, n - 1);
        assert(a[n - 1] == b[n - 1] && a[n - 2] == b[n - 2]);
    }
}

} // verus!
