//! Optical flow: what the motions that are found satisfy.

use crate::exact::Valued;
use crate::io::video::flow::{
    FlowMath, Gradient, SlopeSums, FARTHEST_BACK_BITS, FARTHEST_BITS, SMALL_BITS,
};
use crate::number::Single;
use vstd::prelude::*;

verus! {

/// Whether an arithmetic of motion does not round.
pub open spec fn flows_exactly<F: FlowMath>(math: &F) -> bool {
    &&& crate::exact::is_exact::<Single, F>(math)
    &&& forall|x: i32, r: Single| #[trigger]
        call_ensures(F::quarter, (math, x), r) ==> r.sound() && 4real * r.value() == x as int
            as real
    &&& forall|x: i32, r: Single| #[trigger]
        call_ensures(F::whole, (math, x), r) ==> r.sound() && r.value() == x as int as real
    &&& forall|x: isize, r: Single| #[trigger]
        call_ensures(F::offset, (math, x), r) ==> r.sound() && r.value() == x as int as real
}

/// What brightness changes along: a row, a column, or time.
pub enum Axis {
    Row,
    Column,
    Time,
}

/// How much brightness changes from one pixel to the next, or from one frame to
/// the next.
pub open spec fn slope(g: Gradient, axis: Axis) -> real {
    match axis {
        Axis::Row => g.along_row as int as real / 4real,
        Axis::Column => g.along_column as int as real / 4real,
        Axis::Time => g.in_time as int as real,
    }
}

/// The sum of the products of two slopes at the first places.
pub open spec fn slope_sum(g: Seq<Gradient>, a: Axis, b: Axis, n: int) -> real
    decreases n,
{
    if n <= 0 {
        0real
    } else {
        slope_sum(g, a, b, n - 1) + slope(g[n - 1], a) * slope(g[n - 1], b)
    }
}

/// The sum of the products of two slopes.
pub open spec fn all_slopes(g: Seq<Gradient>, a: Axis, b: Axis) -> real {
    slope_sum(g, a, b, g.len() as int)
}

/// What tells two equations with one solution from others.
pub open spec fn determinant(g: Seq<Gradient>) -> real {
    all_slopes(g, Axis::Row, Axis::Row) * all_slopes(g, Axis::Column, Axis::Column) - all_slopes(
        g,
        Axis::Row,
        Axis::Column,
    ) * all_slopes(g, Axis::Row, Axis::Column)
}

/// Whether a motion accounts for the changes of brightness as well as one can:
/// it solves both normal equations.
pub open spec fn solves(g: Seq<Gradient>, u: real, v: real) -> bool {
    &&& all_slopes(g, Axis::Row, Axis::Row) * u + all_slopes(g, Axis::Row, Axis::Column) * v
        == -all_slopes(g, Axis::Row, Axis::Time)
    &&& all_slopes(g, Axis::Row, Axis::Column) * u + all_slopes(g, Axis::Column, Axis::Column) * v
        == -all_slopes(g, Axis::Column, Axis::Time)
}

/// A real number, or 50 pixels to either side where it is beyond.
pub open spec fn bounded(x: real) -> real {
    if x < -50real {
        -50real
    } else if x > 50real {
        50real
    } else {
        x
    }
}

spec fn axis_values(
    axis: Axis,
    along: Seq<Single>,
    across: Seq<Single>,
    time: Seq<Single>,
) -> Seq<Single> {
    match axis {
        Axis::Row => along,
        Axis::Column => across,
        Axis::Time => time,
    }
}

proof fn slopes_add_up<F: FlowMath>(
    math: &F,
    g: Seq<Gradient>,
    along: Seq<Single>,
    across: Seq<Single>,
    time: Seq<Single>,
    a: Axis,
    b: Axis,
    n: int,
)
    requires
        flows_exactly(math),
        crate::io::video::flow::are_all_slopes(math, g, along, across, time),
        0 <= n <= g.len(),
    ensures
        crate::exact::dot_of(
            axis_values(a, along, across, time),
            axis_values(b, along, across, time),
            n,
        ) == slope_sum(g, a, b, n),
    decreases n,
{
    if n > 0 {
        slopes_add_up(math, g, along, across, time, a, b, n - 1);
        assert(crate::io::video::flow::are_slopes(
            math,
            g[n - 1],
            along[n - 1],
            across[n - 1],
            time[n - 1],
        ));
    }
}

proof fn slope_dot<F: FlowMath>(
    math: &F,
    g: Seq<Gradient>,
    along: Seq<Single>,
    across: Seq<Single>,
    time: Seq<Single>,
    a: Axis,
    b: Axis,
    r: Single,
)
    requires
        flows_exactly(math),
        crate::io::video::flow::are_all_slopes(math, g, along, across, time),
        crate::arith::is_dot(
            math,
            Single { bits: 0 },
            axis_values(a, along, across, time),
            axis_values(b, along, across, time),
            r,
        ),
    ensures
        r.sound(),
        r.value() == all_slopes(g, a, b),
{
    let zero = Single { bits: 0 };
    crate::exact::singles_stand_for_reals(zero, zero);
    crate::exact::dots_are_sums_of_products(
        math,
        zero,
        axis_values(a, along, across, time),
        axis_values(b, along, across, time),
        r,
    );
    slopes_add_up(math, g, along, across, time, a, b, g.len() as int);
}

/// The bounds of motions are 50 pixels to either side, and what counts as zero is
/// below a millionth.
pub proof fn fifty_and_a_millionth()
    ensures
        crate::io::video::flow::number(FARTHEST_BITS).sound(),
        crate::io::video::flow::number(FARTHEST_BITS).value() == 50real,
        crate::io::video::flow::number(FARTHEST_BACK_BITS).sound(),
        crate::io::video::flow::number(FARTHEST_BACK_BITS).value() == -50real,
        crate::io::video::flow::number(SMALL_BITS).sound(),
        999999real / 1000000000000real < crate::io::video::flow::number(SMALL_BITS).value() < 1real / 1000000real,
{
    vstd::arithmetic::power2::lemma2_to64();
    vstd::arithmetic::power2::lemma2_to64_rest();
    crate::exact::single_of_parts(crate::io::video::flow::number(FARTHEST_BITS), 18, 262144);
    crate::exact::single_of_parts(crate::io::video::flow::number(SMALL_BITS), 43, 8796093022208);
    crate::exact::singles_stand_for_reals(
        crate::io::video::flow::number(FARTHEST_BITS),
        crate::io::video::flow::number(FARTHEST_BITS),
    );
    assert(crate::io::video::flow::number(FARTHEST_BACK_BITS) == (crate::io::video::flow::number(FARTHEST_BITS)).negated());
}

proof fn parts_are_bounded<F: FlowMath>(math: &F, x: Single, whole: Single, r: Single) -> (p: real)
    requires
        flows_exactly(math),
        whole.value() != 0real,
        crate::io::video::flow::is_bounded_part(math, x, whole, r),
    ensures
        p * whole.value() == x.value(),
        r.value() == bounded(p),
{
    let q = choose|q: Single| #[trigger]
        call_ensures(F::quotient, (math, x, whole), q) && r == q.clamped(
            crate::io::video::flow::number(FARTHEST_BACK_BITS),
            crate::io::video::flow::number(FARTHEST_BITS),
        );
    fifty_and_a_millionth();
    crate::exact::singles_stand_for_reals(
        q,
        crate::io::video::flow::number(FARTHEST_BACK_BITS),
    );
    crate::exact::singles_stand_for_reals(crate::io::video::flow::number(FARTHEST_BITS), q);
    q.value()
}

/// The motion that is found in a window solves both normal equations, as far as
/// 50 pixels to either side, where they have one solution; else nothing moves.
pub proof fn motions_solve_the_normal_equations<F: FlowMath>(
    math: &F,
    g: Seq<Gradient>,
    u: Single,
    v: Single,
)
    requires
        flows_exactly(math),
        crate::io::video::flow::is_solved(math, g, u, v),
    ensures
        crate::exact::distance(determinant(g), 0real) >= 1real / 1000000real ==> exists|
            p: real,
            q: real,
        | #[trigger]
            solves(g, p, q) && u.value() == bounded(p) && v.value() == bounded(q),
        crate::exact::distance(determinant(g), 0real) <= 999999real / 1000000000000real
            ==> u.value() == 0real && v.value() == 0real,
{
    let (along, across, time, s, det) = choose|
        along: Seq<Single>,
        across: Seq<Single>,
        time: Seq<Single>,
        s: SlopeSums,
        det: Single,
    |
        {
            &&& #[trigger] crate::io::video::flow::are_all_slopes(math, g, along, across, time)
            &&& #[trigger] crate::io::video::flow::are_slope_sums(math, along, across, time, s)
            &&& crate::io::video::flow::is_cross(math, s.xx, s.yy, s.xy, s.xy, det)
            &&& #[trigger] crate::io::video::flow::is_solution(math, s, det, u, v)
        };
    slope_dot(math, g, along, across, time, Axis::Row, Axis::Row, s.xx);
    slope_dot(math, g, along, across, time, Axis::Column, Axis::Column, s.yy);
    slope_dot(math, g, along, across, time, Axis::Row, Axis::Column, s.xy);
    slope_dot(math, g, along, across, time, Axis::Row, Axis::Time, s.xt);
    slope_dot(math, g, along, across, time, Axis::Column, Axis::Time, s.yt);
    assert(det.value() == determinant(g));
    fifty_and_a_millionth();
    crate::exact::singles_stand_for_reals(det, det);
    crate::exact::singles_stand_for_reals(crate::io::video::flow::number(SMALL_BITS), det.absolute());
    crate::exact::singles_stand_for_reals(u, v);
    crate::exact::singles_stand_for_reals(v, u);
    crate::exact::singles_stand_for_reals(s.xt, s.xt);
    crate::exact::singles_stand_for_reals(s.yt, s.yt);
    crate::exact::singles_stand_for_reals(s.xy, s.xy);
    if crate::exact::distance(determinant(g), 0real) >= 1real / 1000000real {
        let (a, b) = choose|a: Single, b: Single|
            {
                &&& #[trigger] crate::io::video::flow::is_cross(
                    math,
                    s.yy,
                    s.xt.negated(),
                    s.xy,
                    s.yt.negated(),
                    a,
                )
                &&& #[trigger] crate::io::video::flow::is_sum_of_products(
                    math,
                    s.xy.negated(),
                    s.xt.negated(),
                    s.xx,
                    s.yt.negated(),
                    b,
                )
                &&& crate::io::video::flow::is_bounded_part(math, a, det, u)
                &&& crate::io::video::flow::is_bounded_part(math, b, det, v)
            };
        let p = parts_are_bounded(math, a, det, u);
        let q = parts_are_bounded(math, b, det, v);
        let (xy, xt) = (s.xy.value(), s.xt.value());
        crate::laws::algebra::signs(xy, -xt);
        crate::laws::algebra::cramer(
            s.xx.value(),
            s.yy.value(),
            xy,
            -xt,
            -s.yt.value(),
            p,
            q,
        );
        assert(solves(g, p, q));
    }
}

/// Whether a motion takes the brightness along: at every place, brightness
/// changes in time by as much as it falls along the motion.
pub open spec fn carries(g: Gradient, u: real, v: real) -> bool {
    slope(g, Axis::Time) == -(slope(g, Axis::Row) * u + slope(g, Axis::Column) * v)
}

proof fn carried_slopes_add_up(g: Seq<Gradient>, u: real, v: real, axis: Axis, n: int)
    requires
        0 <= n <= g.len(),
        forall|i: int| 0 <= i < g.len() ==> #[trigger] carries(g[i], u, v),
    ensures
        slope_sum(g, axis, Axis::Time, n) == -(slope_sum(g, axis, Axis::Row, n) * u + slope_sum(
            g,
            axis,
            Axis::Column,
            n,
        ) * v),
    decreases n,
{
    if n > 0 {
        carried_slopes_add_up(g, u, v, axis, n - 1);
        assert(carries(g[n - 1], u, v));
        let s = slope(g[n - 1], axis);
        let (x, y, t) = (
            slope(g[n - 1], Axis::Row),
            slope(g[n - 1], Axis::Column),
            slope(g[n - 1], Axis::Time),
        );
        let (sx, sy) = (
            slope_sum(g, axis, Axis::Row, n - 1),
            slope_sum(g, axis, Axis::Column, n - 1),
        );
        assert(t == -(x * u + y * v));
        crate::laws::algebra::carried(sx, sy, s, x, y, u, v);
    } else {
        crate::laws::algebra::signs(u, v);
        crate::laws::algebra::signs(v, u);
    }
}

proof fn products_commute(g: Seq<Gradient>, a: Axis, b: Axis, n: int)
    ensures
        slope_sum(g, a, b, n) == slope_sum(g, b, a, n),
    decreases n,
{
    if n > 0 {
        products_commute(g, a, b, n - 1);
        let (x, y) = (slope(g[n - 1], a), slope(g[n - 1], b));
        crate::laws::algebra::commutes(x, y);
    }
}

/// Where all that a window shows moves alike, by no more than 50 pixels to
/// either side, that motion is found: by one pixel to the right where brightness
/// falls in time as it rises along the row.
pub proof fn a_common_motion_is_found<F: FlowMath>(
    math: &F,
    g: Seq<Gradient>,
    a: real,
    b: real,
    u: Single,
    v: Single,
)
    requires
        flows_exactly(math),
        crate::io::video::flow::is_solved(math, g, u, v),
        crate::exact::distance(determinant(g), 0real) >= 1real / 1000000real,
        -50real <= a <= 50real,
        -50real <= b <= 50real,
        forall|i: int| 0 <= i < g.len() ==> #[trigger] carries(g[i], a, b),
    ensures
        u.value() == a,
        v.value() == b,
{
    motions_solve_the_normal_equations(math, g, u, v);
    let (p, q) = choose|p: real, q: real| #[trigger]
        solves(g, p, q) && u.value() == bounded(p) && v.value() == bounded(q);
    carried_slopes_add_up(g, a, b, Axis::Row, g.len() as int);
    carried_slopes_add_up(g, a, b, Axis::Column, g.len() as int);
    products_commute(g, Axis::Column, Axis::Row, g.len() as int);
    assert(solves(g, a, b));
    crate::laws::algebra::one_solution(
        all_slopes(g, Axis::Row, Axis::Row),
        all_slopes(g, Axis::Column, Axis::Column),
        all_slopes(g, Axis::Row, Axis::Column),
        a,
        b,
        p,
        q,
    );
}

} // verus!
