//! Sums, means and products of numbers, made of single operations.

use vstd::prelude::*;

verus! {

/// Operations on numbers. Nothing is required of what they return.
pub trait Arithmetic<T> {
    /// `a + b`.
    fn sum(&self, a: T, b: T) -> T;

    /// `a - b`.
    fn difference(&self, a: T, b: T) -> T;

    /// `a * b`.
    fn product(&self, a: T, b: T) -> T;

    /// `a / b`.
    fn quotient(&self, a: T, b: T) -> T;

    /// A number divided by a count.
    fn over(&self, a: T, count: usize) -> T;

    /// The square root.
    fn root(&self, a: T) -> T;
}

/// Whether `sums` can be what has been added up before each term and in the
/// end, in the order of the terms.
pub open spec fn adds_up<T, M: Arithmetic<T>>(
    math: &M,
    zero: T,
    terms: Seq<T>,
    sums: Seq<T>,
) -> bool {
    &&& sums.len() == terms.len() + 1
    &&& sums[0] == zero
    &&& forall|i: int|
        0 <= i < terms.len() ==> call_ensures(
            M::sum,
            (math, sums[i], #[trigger] terms[i]),
            sums[i + 1],
        )
}

/// Whether `r` can be the sum of terms that are added to zero one after the
/// other.
pub open spec fn is_total<T, M: Arithmetic<T>>(math: &M, zero: T, terms: Seq<T>, r: T) -> bool {
    exists|sums: Seq<T>| #[trigger] adds_up(math, zero, terms, sums) && r == sums.last()
}

/// The sum of terms that are added to zero one after the other.
pub fn total<T: Copy, M: Arithmetic<T>>(math: &M, zero: T, terms: &[T]) -> (r: T)
    ensures
        is_total(math, zero, terms@, r),
{
    let ghost mut sums: Seq<T> = seq![zero];
    let mut acc: T = zero;
    let mut i: usize = 0;
    while i < terms.len()
        invariant
            i <= terms@.len(),
            sums.len() == i + 1,
            sums[0] == zero,
            acc == sums[i as int],
            forall|k: int|
                0 <= k < i ==> call_ensures(
                    M::sum,
                    (math, sums[k], #[trigger] terms@[k]),
                    sums[k + 1],
                ),
        decreases terms@.len() - i,
    {
        acc = math.sum(acc, terms[i]);
        proof {
            sums = sums.push(acc);
        }
        i += 1;
    }
    assert(adds_up(math, zero, terms@, sums));
    acc
}

/// Whether `r` can be a sum that a product has joined.
pub open spec fn is_added_product<T, M: Arithmetic<T>>(
    math: &M,
    sum: T,
    a: T,
    b: T,
    r: T,
) -> bool {
    exists|p: T| #[trigger]
        call_ensures(M::product, (math, a, b), p) && call_ensures(M::sum, (math, sum, p), r)
}

/// A sum that a product has joined.
pub fn add_product<T: Copy, M: Arithmetic<T>>(math: &M, sum: T, a: T, b: T) -> (r: T)
    ensures
        is_added_product(math, sum, a, b, r),
{
    let p: T = math.product(a, b);
    assert(call_ensures(M::product, (math, a, b), p));
    math.sum(sum, p)
}

/// Whether `r` can be the products of the numbers at the same places, as far
/// as both go.
pub open spec fn are_products<T, M: Arithmetic<T>>(
    math: &M,
    a: Seq<T>,
    b: Seq<T>,
    r: Seq<T>,
) -> bool {
    &&& r.len() == if a.len() <= b.len() {
        a.len()
    } else {
        b.len()
    }
    &&& forall|i: int|
        0 <= i < r.len() ==> call_ensures(M::product, (math, a[i], b[i]), #[trigger] r[i])
}

/// The products of the numbers at the same places, as far as both go.
pub fn products<T: Copy, M: Arithmetic<T>>(math: &M, a: &[T], b: &[T]) -> (r: Vec<T>)
    ensures
        are_products(math, a@, b@, r@),
{
    let n: usize = if a.len() <= b.len() {
        a.len()
    } else {
        b.len()
    };
    let mut out: Vec<T> = Vec::new();
    let mut i: usize = 0;
    while i < n
        invariant
            i <= n,
            n <= a@.len(),
            n <= b@.len(),
            out@.len() == i,
            forall|k: int|
                0 <= k < i ==> call_ensures(M::product, (math, a@[k], b@[k]), #[trigger] out@[k]),
        decreases n - i,
    {
        out.push(math.product(a[i], b[i]));
        i += 1;
    }
    out
}

/// Whether `r` can be the numbers of `a`, each less the number of `b` at the
/// same place.
pub open spec fn are_differences<T, M: Arithmetic<T>>(
    math: &M,
    a: Seq<T>,
    b: Seq<T>,
    r: Seq<T>,
) -> bool {
    &&& r.len() == a.len()
    &&& forall|i: int|
        0 <= i < r.len() ==> call_ensures(M::difference, (math, a[i], b[i]), #[trigger] r[i])
}

/// The numbers of `a`, each less the number of `b` at the same place.
pub fn differences<T: Copy, M: Arithmetic<T>>(math: &M, a: &[T], b: &[T]) -> (r: Vec<T>)
    requires
        a@.len() == b@.len(),
    ensures
        are_differences(math, a@, b@, r@),
{
    let mut out: Vec<T> = Vec::new();
    let mut i: usize = 0;
    while i < a.len()
        invariant
            i <= a@.len(),
            a@.len() == b@.len(),
            out@.len() == i,
            forall|k: int|
                0 <= k < i ==> call_ensures(
                    M::difference,
                    (math, a@[k], b@[k]),
                    #[trigger] out@[k],
                ),
        decreases a@.len() - i,
    {
        out.push(math.difference(a[i], b[i]));
        i += 1;
    }
    out
}

/// Whether `r` can be numbers, each less the same number.
pub open spec fn are_shifted<T, M: Arithmetic<T>>(
    math: &M,
    a: Seq<T>,
    by: T,
    r: Seq<T>,
) -> bool {
    &&& r.len() == a.len()
    &&& forall|i: int|
        0 <= i < r.len() ==> call_ensures(M::difference, (math, a[i], by), #[trigger] r[i])
}

/// Numbers, each less the same number.
pub fn shifted<T: Copy, M: Arithmetic<T>>(math: &M, a: &[T], by: T) -> (r: Vec<T>)
    ensures
        are_shifted(math, a@, by, r@),
{
    let mut out: Vec<T> = Vec::new();
    let mut i: usize = 0;
    while i < a.len()
        invariant
            i <= a@.len(),
            out@.len() == i,
            forall|k: int|
                0 <= k < i ==> call_ensures(M::difference, (math, a@[k], by), #[trigger] out@[k]),
        decreases a@.len() - i,
    {
        out.push(math.difference(a[i], by));
        i += 1;
    }
    out
}

/// Whether `r` can be numbers, each times the same number.
pub open spec fn are_scaled<T, M: Arithmetic<T>>(
    math: &M,
    a: Seq<T>,
    by: T,
    r: Seq<T>,
) -> bool {
    &&& r.len() == a.len()
    &&& forall|i: int|
        0 <= i < r.len() ==> call_ensures(M::product, (math, a[i], by), #[trigger] r[i])
}

/// Numbers, each times the same number.
pub fn scaled<T: Copy, M: Arithmetic<T>>(math: &M, a: &[T], by: T) -> (r: Vec<T>)
    ensures
        are_scaled(math, a@, by, r@),
{
    let mut out: Vec<T> = Vec::new();
    let mut i: usize = 0;
    while i < a.len()
        invariant
            i <= a@.len(),
            out@.len() == i,
            forall|k: int|
                0 <= k < i ==> call_ensures(M::product, (math, a@[k], by), #[trigger] out@[k]),
        decreases a@.len() - i,
    {
        out.push(math.product(a[i], by));
        i += 1;
    }
    out
}

/// Whether `r` can be numbers, each divided by the same number.
pub open spec fn are_divided<T, M: Arithmetic<T>>(
    math: &M,
    a: Seq<T>,
    by: T,
    r: Seq<T>,
) -> bool {
    &&& r.len() == a.len()
    &&& forall|i: int|
        0 <= i < r.len() ==> call_ensures(M::quotient, (math, a[i], by), #[trigger] r[i])
}

/// Numbers, each divided by the same number.
pub fn divided<T: Copy, M: Arithmetic<T>>(math: &M, a: &[T], by: T) -> (r: Vec<T>)
    ensures
        are_divided(math, a@, by, r@),
{
    let mut out: Vec<T> = Vec::new();
    let mut i: usize = 0;
    while i < a.len()
        invariant
            i <= a@.len(),
            out@.len() == i,
            forall|k: int|
                0 <= k < i ==> call_ensures(M::quotient, (math, a@[k], by), #[trigger] out@[k]),
        decreases a@.len() - i,
    {
        out.push(math.quotient(a[i], by));
        i += 1;
    }
    out
}

/// Whether `r` can be the sum of the products of the numbers at the same
/// places.
pub open spec fn is_dot<T, M: Arithmetic<T>>(
    math: &M,
    zero: T,
    a: Seq<T>,
    b: Seq<T>,
    r: T,
) -> bool {
    exists|terms: Seq<T>| #[trigger] are_products(math, a, b, terms) && is_total(
        math,
        zero,
        terms,
        r,
    )
}

/// The sum of the products of the numbers at the same places.
pub fn dot<T: Copy, M: Arithmetic<T>>(math: &M, zero: T, a: &[T], b: &[T]) -> (r: T)
    ensures
        is_dot(math, zero, a@, b@, r),
{
    let terms: Vec<T> = products(math, a, b);
    assert(are_products(math, a@, b@, terms@));
    total(math, zero, terms.as_slice())
}

/// Whether `r` can be the mean of numbers.
pub open spec fn is_mean<T, M: Arithmetic<T>>(math: &M, zero: T, values: Seq<T>, r: T) -> bool {
    exists|sum: T| #[trigger] is_total(math, zero, values, sum) && call_ensures(
        M::over,
        (math, sum, values.len() as usize),
        r,
    )
}

/// The mean of numbers.
pub fn mean<T: Copy, M: Arithmetic<T>>(math: &M, zero: T, values: &[T]) -> (r: T)
    ensures
        is_mean(math, zero, values@, r),
{
    let sum: T = total(math, zero, values);
    assert(values@.len() == values.len());
    math.over(sum, values.len())
}

/// Whether `r` can be the root of the mean of the squares of numbers.
pub open spec fn is_root_mean_square<T, M: Arithmetic<T>>(
    math: &M,
    zero: T,
    values: Seq<T>,
    r: T,
) -> bool {
    exists|energy: T, level: T|
        {
            &&& is_dot(math, zero, values, values, energy)
            &&& #[trigger] call_ensures(M::over, (math, energy, values.len() as usize), level)
            &&& call_ensures(M::root, (math, level), r)
        }
}

/// The root of the mean of the squares of numbers.
pub fn root_mean_square<T: Copy, M: Arithmetic<T>>(math: &M, zero: T, values: &[T]) -> (r: T)
    ensures
        is_root_mean_square(math, zero, values@, r),
{
    let energy: T = dot(math, zero, values, values);
    assert(values@.len() == values.len());
    let level: T = math.over(energy, values.len());
    assert(call_ensures(M::over, (math, energy, values@.len() as usize), level));
    math.root(level)
}

} // verus!
