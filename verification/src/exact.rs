//! What bit patterns are worth, and what operations come to where they do not
//! round.

use crate::arith::Arithmetic;
use crate::number::{Double, Single};
use vstd::prelude::*;

verus! {

/// A kind of number whose values are real numbers.
pub trait Valued: Sized {
    /// The real number that the value stands for, if it is finite.
    spec fn value(self) -> real;

    /// Whether the value is a number.
    spec fn sound(self) -> bool;
}

/// The number of smallest steps from zero to a value, from its bit pattern
/// without a sign, of which so many bits are the fraction.
pub open spec fn steps(magnitude: int, fraction: nat) -> int {
    let one = vstd::arithmetic::power2::pow2(fraction) as int;
    if magnitude < one {
        magnitude
    } else {
        (one + magnitude % one) * vstd::arithmetic::power2::pow2((magnitude / one - 1) as nat)
    }
}

/// The real number that a bit pattern stands for: its steps from zero, in parts
/// of a power of two.
#[verifier::opaque]
pub open spec fn single_value(x: Single) -> real {
    (if x.negative() {
        -steps(x.magnitude(), 23)
    } else {
        steps(x.magnitude(), 23)
    }) as real / (vstd::arithmetic::power2::pow2(149) as int as real)
}

impl Valued for Single {
    open spec fn value(self) -> real {
        single_value(self)
    }

    open spec fn sound(self) -> bool {
        !self.nan()
    }
}

/// The real number that a bit pattern stands for: its steps from zero, in parts
/// of a power of two.
#[verifier::opaque]
pub open spec fn double_value(x: Double) -> real {
    (if x.negative() {
        -steps(x.magnitude(), 52)
    } else {
        steps(x.magnitude(), 52)
    }) as real / (vstd::arithmetic::power2::pow2(1074) as int as real)
}

impl Valued for Double {
    open spec fn value(self) -> real {
        double_value(self)
    }

    open spec fn sound(self) -> bool {
        !self.nan()
    }
}

proof fn one_step_up(m: int, fraction: nat)
    requires
        0 <= m,
    ensures
        steps(m, fraction) < steps(m + 1, fraction),
{
    let one = vstd::arithmetic::power2::pow2(fraction) as int;
    vstd::arithmetic::power2::lemma_pow2_pos(fraction);
    if m + 1 < one {
    } else if m < one {
        assert((m + 1) % one == 0 && (m + 1) / one == 1) by (nonlinear_arith)
            requires
                m + 1 == one,
                one > 0,
        ;
        vstd::arithmetic::power2::lemma2_to64();
        assert(steps(m + 1, fraction) == one * 1);
    } else {
        let e = m / one;
        let f = m % one;
        vstd::arithmetic::div_mod::lemma_fundamental_div_mod(m, one);
        assert(e >= 1) by (nonlinear_arith)
            requires
                m == one * e + f,
                0 <= f < one,
                m >= one,
        ;
        vstd::arithmetic::power2::lemma_pow2_pos((e - 1) as nat);
        let p = vstd::arithmetic::power2::pow2((e - 1) as nat) as int;
        if f + 1 < one {
            vstd::arithmetic::div_mod::lemma_fundamental_div_mod_converse(m + 1, one, e, f + 1);
            assert((one + f) * p < (one + (f + 1)) * p) by (nonlinear_arith)
                requires
                    p > 0,
            ;
        } else {
            assert(m + 1 == (e + 1) * one + 0) by (nonlinear_arith)
                requires
                    m == one * e + f,
                    f + 1 == one,
            ;
            assert(m + 1 == one * (e + 1) + 0) by (nonlinear_arith)
                requires
                    m + 1 == (e + 1) * one + 0,
            ;
            vstd::arithmetic::div_mod::lemma_fundamental_div_mod_converse(m + 1, one, e + 1, 0);
            vstd::arithmetic::power2::lemma_pow2_adds(1, (e - 1) as nat);
            vstd::arithmetic::power2::lemma2_to64();
            assert(vstd::arithmetic::power2::pow2(e as nat) == 2 * p);
            assert((one + f) * p < (one + 0) * (2 * p)) by (nonlinear_arith)
                requires
                    p > 0,
                    f + 1 == one,
            ;
        }
    }
}

proof fn steps_go_up(a: int, b: int, fraction: nat)
    requires
        0 <= a < b,
    ensures
        steps(a, fraction) < steps(b, fraction),
    decreases b - a,
{
    one_step_up(b - 1, fraction);
    if a < b - 1 {
        steps_go_up(a, b - 1, fraction);
    }
}

proof fn steps_are_ordered(a: int, b: int, fraction: nat)
    requires
        0 <= a,
        0 <= b,
    ensures
        a < b <==> steps(a, fraction) < steps(b, fraction),
        a == b <==> steps(a, fraction) == steps(b, fraction),
        steps(0, fraction) == 0,
        steps(a, fraction) >= 0,
        a > 0 ==> steps(a, fraction) > 0,
        steps(b, fraction) >= 0,
        b > 0 ==> steps(b, fraction) > 0,
{
    vstd::arithmetic::power2::lemma_pow2_pos(fraction);
    if a < b {
        steps_go_up(a, b, fraction);
    } else if b < a {
        steps_go_up(b, a, fraction);
    }
    if a > 0 {
        steps_go_up(0, a, fraction);
    }
    if b > 0 {
        steps_go_up(0, b, fraction);
    }
}

proof fn parts_are_ordered(a: int, b: int, whole: int)
    requires
        whole > 0,
    ensures
        (a as real / (whole as real)) < (b as real / (whole as real)) <==> a < b,
        a as real / (whole as real) == b as real / (whole as real) <==> a == b,
        (-a) as real / (whole as real) == -(a as real / (whole as real)),
        0int as real / (whole as real) == 0real,
{
    let (x, y, w) = (a as real, b as real, whole as real);
    assert(w > 0real);
    assert(x < y ==> x / w < y / w) by (nonlinear_arith)
        requires
            w > 0real,
    ;
    assert(y < x ==> y / w < x / w) by (nonlinear_arith)
        requires
            w > 0real,
    ;
    assert((-x) / w == -(x / w)) by (nonlinear_arith)
        requires
            w > 0real,
    ;
    assert(0real / w == 0real) by (nonlinear_arith)
        requires
            w > 0real,
    ;
}

/// Bit patterns are compared as the real numbers that they stand for, turning
/// the sign round turns the real number round, and without a sign a number
/// stands for how far it is from zero.
pub proof fn singles_stand_for_reals(a: Single, b: Single)
    ensures
        a.below(b) <==> a.sound() && b.sound() && a.value() < b.value(),
        a.same_value(b) <==> a.sound() && b.sound() && a.value() == b.value(),
        a.negated().value() == -a.value(),
        a.negated().sound() == a.sound(),
        a.absolute().value() == distance(a.value(), 0real),
        a.absolute().sound() == a.sound(),
        a.bits == 0 ==> a.value() == 0real,
{
    reveal(single_value);
    let (m, n) = (a.magnitude(), b.magnitude());
    vstd::arithmetic::power2::lemma_pow2_pos(149);
    steps_are_ordered(m, n, 23);
    let (s, t, w) = (steps(m, 23), steps(n, 23), vstd::arithmetic::power2::pow2(149) as int);
    parts_are_ordered(s, t, w);
    parts_are_ordered(-s, t, w);
    parts_are_ordered(s, -t, w);
    parts_are_ordered(-s, -t, w);
    parts_are_ordered(0, s, w);
}

/// Bit patterns are compared as the real numbers that they stand for, and
/// without a sign a number stands for how far it is from zero.
pub proof fn doubles_stand_for_reals(a: Double, b: Double)
    ensures
        a.below(b) <==> a.sound() && b.sound() && a.value() < b.value(),
        a.same_value(b) <==> a.sound() && b.sound() && a.value() == b.value(),
        a.absolute().value() == distance(a.value(), 0real),
        a.absolute().sound() == a.sound(),
        a.bits == 0 ==> a.value() == 0real,
{
    reveal(double_value);
    let (m, n) = (a.magnitude(), b.magnitude());
    vstd::arithmetic::power2::lemma_pow2_pos(1074);
    steps_are_ordered(m, n, 52);
    let (s, t, w) = (steps(m, 52), steps(n, 52), vstd::arithmetic::power2::pow2(1074) as int);
    parts_are_ordered(s, t, w);
    parts_are_ordered(-s, t, w);
    parts_are_ordered(s, -t, w);
    parts_are_ordered(-s, -t, w);
    parts_are_ordered(0, s, w);
}

/// Whole numbers are multiplied as the real numbers that they are.
pub proof fn whole_products(a: int, b: int)
    requires
        0 <= a,
    ensures
        (a * b) as real == (a as real) * (b as real),
    decreases a,
{
    let (x, y) = (a as real, b as real);
    if a == 0 {
        assert(a * b == 0) by (nonlinear_arith)
            requires
                a == 0,
        ;
        assert(x * y == 0real) by (nonlinear_arith)
            requires
                x == 0real,
        ;
    } else {
        whole_products(a - 1, b);
        assert(a * b == (a - 1) * b + b) by (nonlinear_arith);
        assert(x * y == (x - 1real) * y + y) by (nonlinear_arith);
        assert((a - 1) as real == x - 1real);
    }
}

/// How far two real numbers are from one another.
pub open spec fn distance(a: real, b: real) -> real {
    if a < b {
        b - a
    } else {
        a - b
    }
}

/// What a positive bit pattern stands for: its fraction, with the bit that is
/// not written, in parts of a power of two.
pub proof fn single_of_parts(x: Single, parts: nat, scale: int)
    requires
        parts <= 64,
        vstd::arithmetic::power2::pow2(parts) == scale,
        0x0080_0000 <= x.bits < 0x7f80_0000,
        x.bits / 0x0080_0000 == 150 - parts,
    ensures
        x.sound(),
        x.value() * (scale as real) == (0x0080_0000 + x.bits % 0x0080_0000) as real,
{
    reveal(single_value);
    let e = (150 - parts) as int;
    let n = 0x0080_0000 + x.bits % 0x0080_0000;
    vstd::arithmetic::power2::lemma2_to64();
    assert(vstd::arithmetic::power2::pow2(23) == 0x0080_0000);
    assert(steps(x.magnitude(), 23) == n * vstd::arithmetic::power2::pow2((e - 1) as nat));
    vstd::arithmetic::power2::lemma_pow2_adds((e - 1) as nat, parts);
    vstd::arithmetic::power2::lemma_pow2_pos(149);
    let (p, q, w) = (
        vstd::arithmetic::power2::pow2((e - 1) as nat) as int as real,
        vstd::arithmetic::power2::pow2(parts) as int as real,
        vstd::arithmetic::power2::pow2(149) as int as real,
    );
    let s = (n * vstd::arithmetic::power2::pow2((e - 1) as nat)) as real;
    whole_products(n, vstd::arithmetic::power2::pow2((e - 1) as nat) as int);
    whole_products(vstd::arithmetic::power2::pow2((e - 1) as nat) as int, vstd::arithmetic::power2::pow2(parts) as int);
    assert(s == (n as real) * p);
    assert(p * q == w);
    assert(s / w * q == n as real) by (nonlinear_arith)
        requires
            s == (n as real) * p,
            p * q == w,
            w > 0real,
    ;
}

/// What a positive bit pattern stands for: its fraction, with the bit that is
/// not written, in parts of a power of two.
pub proof fn double_of_parts(x: Double, parts: nat, scale: int)
    requires
        parts <= 128,
        vstd::arithmetic::power2::pow2(parts) == scale,
        0x0010_0000_0000_0000 <= x.bits < 0x7ff0_0000_0000_0000,
        x.bits / 0x0010_0000_0000_0000 == 1075 - parts,
    ensures
        x.sound(),
        x.value() * (scale as real) == (0x0010_0000_0000_0000 + x.bits
            % 0x0010_0000_0000_0000) as real,
{
    reveal(double_value);
    let e = (1075 - parts) as int;
    let n = 0x0010_0000_0000_0000 + x.bits % 0x0010_0000_0000_0000;
    vstd::arithmetic::power2::lemma2_to64();
    assert(vstd::arithmetic::power2::pow2(52) == 0x0010_0000_0000_0000) by {
        vstd::arithmetic::power2::lemma2_to64_rest();
    }
    assert(steps(x.magnitude(), 52) == n * vstd::arithmetic::power2::pow2((e - 1) as nat));
    vstd::arithmetic::power2::lemma_pow2_adds((e - 1) as nat, parts);
    vstd::arithmetic::power2::lemma_pow2_pos(1074);
    let (p, q, w) = (
        vstd::arithmetic::power2::pow2((e - 1) as nat) as int as real,
        vstd::arithmetic::power2::pow2(parts) as int as real,
        vstd::arithmetic::power2::pow2(1074) as int as real,
    );
    let s = (n * vstd::arithmetic::power2::pow2((e - 1) as nat)) as real;
    whole_products(n, vstd::arithmetic::power2::pow2((e - 1) as nat) as int);
    whole_products(vstd::arithmetic::power2::pow2((e - 1) as nat) as int, vstd::arithmetic::power2::pow2(parts) as int);
    assert(s == (n as real) * p);
    assert(p * q == w);
    assert(s / w * q == n as real) by (nonlinear_arith)
        requires
            s == (n as real) * p,
            p * q == w,
            w > 0real,
    ;
}

/// Whether an arithmetic does not round: whatever it returns is a number, and
/// is the true result.
pub open spec fn is_exact<T: Valued, M: Arithmetic<T>>(math: &M) -> bool {
    &&& forall|a: T, b: T, r: T| #[trigger]
        call_ensures(M::sum, (math, a, b), r) ==> r.sound() && r.value() == a.value() + b.value()
    &&& forall|a: T, b: T, r: T| #[trigger]
        call_ensures(M::difference, (math, a, b), r) ==> r.sound() && r.value() == a.value()
            - b.value()
    &&& forall|a: T, b: T, r: T| #[trigger]
        call_ensures(M::product, (math, a, b), r) ==> r.sound() && r.value() == a.value()
            * b.value()
    &&& forall|a: T, b: T, r: T| #[trigger]
        call_ensures(M::quotient, (math, a, b), r) && b.value() != 0real ==> r.sound() && r.value()
            * b.value() == a.value()
    &&& forall|a: T, n: usize, r: T| #[trigger]
        call_ensures(M::over, (math, a, n), r) && n > 0 ==> r.sound() && r.value() * (n as int
            as real) == a.value()
    &&& forall|a: T, r: T| #[trigger]
        call_ensures(M::root, (math, a), r) && a.value() >= 0real ==> r.sound() && r.value()
            >= 0real && r.value() * r.value() == a.value()
}

/// The sum of the first numbers.
pub open spec fn sum_of<T: Valued>(s: Seq<T>, n: int) -> real
    decreases n,
{
    if n <= 0 {
        0real
    } else {
        sum_of(s, n - 1) + s[n - 1].value()
    }
}

/// The sum of the products of the first numbers at the same places.
pub open spec fn dot_of<T: Valued>(a: Seq<T>, b: Seq<T>, n: int) -> real
    decreases n,
{
    if n <= 0 {
        0real
    } else {
        dot_of(a, b, n - 1) + a[n - 1].value() * b[n - 1].value()
    }
}

/// Adding up terms gives their sum.
pub proof fn totals_are_sums<T: Valued, M: Arithmetic<T>>(math: &M, zero: T, terms: Seq<T>, r: T)
    requires
        is_exact(math),
        zero.value() == 0real,
        crate::arith::is_total(math, zero, terms, r),
    ensures
        r.value() == sum_of(terms, terms.len() as int),
        zero.sound() ==> r.sound(),
{
    let sums = choose|sums: Seq<T>|
        #[trigger] crate::arith::adds_up(math, zero, terms, sums) && r == sums.last();
    partial_sums(math, zero, terms, sums, terms.len() as int);
}

proof fn partial_sums<T: Valued, M: Arithmetic<T>>(
    math: &M,
    zero: T,
    terms: Seq<T>,
    sums: Seq<T>,
    n: int,
)
    requires
        is_exact(math),
        zero.value() == 0real,
        crate::arith::adds_up(math, zero, terms, sums),
        0 <= n <= terms.len(),
    ensures
        sums[n].value() == sum_of(terms, n),
        zero.sound() ==> sums[n].sound(),
    decreases n,
{
    if n > 0 {
        partial_sums(math, zero, terms, sums, n - 1);
        assert(terms[n - 1] == terms[n - 1]);
        assert(call_ensures(M::sum, (math, sums[n - 1], terms[n - 1]), sums[n]));
    }
}

/// The sum of the products of numbers is what multiplying and adding them up
/// gives.
pub proof fn dots_are_sums_of_products<T: Valued, M: Arithmetic<T>>(
    math: &M,
    zero: T,
    a: Seq<T>,
    b: Seq<T>,
    r: T,
)
    requires
        is_exact(math),
        zero.value() == 0real,
        crate::arith::is_dot(math, zero, a, b, r),
    ensures
        r.value() == dot_of(
            a,
            b,
            if a.len() <= b.len() {
                a.len() as int
            } else {
                b.len() as int
            },
        ),
        zero.sound() ==> r.sound(),
{
    let terms = choose|terms: Seq<T>| #[trigger]
        crate::arith::are_products(math, a, b, terms) && crate::arith::is_total(
            math,
            zero,
            terms,
            r,
        );
    totals_are_sums(math, zero, terms, r);
    products_add_up(math, a, b, terms, terms.len() as int);
}

proof fn products_add_up<T: Valued, M: Arithmetic<T>>(
    math: &M,
    a: Seq<T>,
    b: Seq<T>,
    terms: Seq<T>,
    n: int,
)
    requires
        is_exact(math),
        crate::arith::are_products(math, a, b, terms),
        0 <= n <= terms.len(),
    ensures
        sum_of(terms, n) == dot_of(a, b, n),
    decreases n,
{
    if n > 0 {
        products_add_up(math, a, b, terms, n - 1);
        assert(call_ensures(M::product, (math, a[n - 1], b[n - 1]), terms[n - 1]));
    }
}

/// The mean of numbers, as many times as there are numbers, is their sum.
pub proof fn means_make_up_the_sum<T: Valued, M: Arithmetic<T>>(
    math: &M,
    zero: T,
    values: Seq<T>,
    r: T,
)
    requires
        is_exact(math),
        zero.value() == 0real,
        0 < values.len() <= usize::MAX,
        crate::arith::is_mean(math, zero, values, r),
    ensures
        r.sound(),
        r.value() * (values.len() as int as real) == sum_of(values, values.len() as int),
{
    let sum = choose|sum: T| #[trigger]
        crate::arith::is_total(math, zero, values, sum) && call_ensures(
            M::over,
            (math, sum, values.len() as usize),
            r,
        );
    totals_are_sums(math, zero, values, sum);
}

/// Numbers times themselves do not add up to less than nothing.
pub proof fn energies_are_not_negative<T: Valued>(a: Seq<T>, n: int)
    ensures
        dot_of(a, a, n) >= 0real,
    decreases n,
{
    if n > 0 {
        energies_are_not_negative(a, n - 1);
        let x = a[n - 1].value();
        assert(x * x >= 0real) by (nonlinear_arith);
    }
}

/// The square of the root of the mean square of numbers, as many times as there
/// are numbers, is the sum of their squares.
pub proof fn root_mean_squares_make_up_the_energy<T: Valued, M: Arithmetic<T>>(
    math: &M,
    zero: T,
    values: Seq<T>,
    r: T,
)
    requires
        is_exact(math),
        zero.value() == 0real,
        0 < values.len() <= usize::MAX,
        crate::arith::is_root_mean_square(math, zero, values, r),
    ensures
        r.sound(),
        r.value() >= 0real,
        r.value() * r.value() * (values.len() as int as real) == dot_of(
            values,
            values,
            values.len() as int,
        ),
{
    let (energy, level) = choose|energy: T, level: T|
        {
            &&& crate::arith::is_dot(math, zero, values, values, energy)
            &&& #[trigger] call_ensures(M::over, (math, energy, values.len() as usize), level)
            &&& call_ensures(M::root, (math, level), r)
        };
    dots_are_sums_of_products(math, zero, values, values, energy);
    energies_are_not_negative(values, values.len() as int);
    let (l, n) = (level.value(), values.len() as int as real);
    assert(l >= 0real) by (nonlinear_arith)
        requires
            l * n >= 0real,
            n > 0real,
    ;
}

/// The operations on two signals of numbers, or on a signal and a number, are
/// done place by place.
pub proof fn signals_are_changed_place_by_place<T: Valued, M: Arithmetic<T>>(
    math: &M,
    a: Seq<T>,
    b: Seq<T>,
    x: T,
    r: Seq<T>,
    i: int,
)
    requires
        is_exact(math),
        0 <= i < a.len(),
        i < b.len(),
    ensures
        crate::arith::are_products(math, a, b, r) ==> i < r.len() && r[i].value() == a[i].value()
            * b[i].value(),
        crate::arith::are_differences(math, a, b, r) ==> r.len() == a.len() && r[i].value()
            == a[i].value() - b[i].value(),
        crate::arith::are_shifted(math, a, x, r) ==> r.len() == a.len() && r[i].value()
            == a[i].value() - x.value(),
        crate::arith::are_scaled(math, a, x, r) ==> r.len() == a.len() && r[i].value()
            == a[i].value() * x.value(),
        crate::arith::are_divided(math, a, x, r) && x.value() != 0real ==> r.len() == a.len()
            && r[i].value() * x.value() == a[i].value(),
{
    assert(r[i] == r[i]);
}

/// Numbers of the same worth have the same sums of products.
pub proof fn same_values_same_dot<T: Valued>(a: Seq<T>, b: Seq<T>, c: Seq<T>, d: Seq<T>, n: int)
    requires
        forall|i: int|
            0 <= i < n ==> #[trigger] a[i].value() * b[i].value() == c[i].value() * d[i].value(),
    ensures
        dot_of(a, b, n) == dot_of(c, d, n),
    decreases n,
{
    if n > 0 {
        same_values_same_dot(a, b, c, d, n - 1);
        assert(a[n - 1].value() * b[n - 1].value() == c[n - 1].value() * d[n - 1].value());
    }
}

} // verus!
