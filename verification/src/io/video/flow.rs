//! Motion between frames.

use crate::arith::{dot, mean, Arithmetic};
use crate::error::{IoError, IoResult};
use crate::io::video::{PixelMath, VideoFrame};
use crate::matrix::Matrix;
use crate::number::Single;
use vstd::prelude::*;
use vstd::string::*;

verus! {

/// How brightness changes at a pixel: four times the change along a row, four
/// times the change along a column, and the change in time.
#[derive(Debug, Clone, Copy, PartialEq, Eq, Structural)]
pub struct Gradient {
    pub along_row: i32,
    pub along_column: i32,
    pub in_time: i32,
}

/// The arithmetic of motion. Nothing is required of what it returns.
pub trait FlowMath: Arithmetic<Single> {
    /// The direction of a motion.
    fn direction(&self, u: Single, v: Single) -> Single;

    /// The mean of numbers, in whatever order they are added.
    fn mean(&self, values: &Vec<Single>) -> Single;

    /// A quarter of a whole number.
    fn quarter(&self, x: i32) -> Single;

    /// A whole number as a number.
    fn whole(&self, x: i32) -> Single;

    /// A number of pixels as a number.
    fn offset(&self, pixels: isize) -> Single;
}

/// The bit pattern of 1e-6.
pub const SMALL_BITS: u32 = 0x3586_37bd;

/// The bit pattern of 50.0.
pub const FARTHEST_BITS: u32 = 0x4248_0000;

/// The bit pattern of -50.0.
pub const FARTHEST_BACK_BITS: u32 = 0xc248_0000;

/// The number with a bit pattern.
pub open spec fn number(bits: u32) -> Single {
    Single { bits }
}

/// Whether `r` can be the length of a motion.
pub open spec fn is_length<F: FlowMath>(math: &F, u: Single, v: Single, r: Single) -> bool {
    exists|a: Single, b: Single, square: Single|
        {
            &&& #[trigger] call_ensures(F::product, (math, u, u), a)
            &&& #[trigger] call_ensures(F::product, (math, v, v), b)
            &&& #[trigger] call_ensures(F::sum, (math, a, b), square)
            &&& call_ensures(F::root, (math, square), r)
        }
}

fn length<F: FlowMath>(math: &F, u: Single, v: Single) -> (r: Single)
    ensures
        is_length(math, u, v, r),
{
    let a: Single = math.product(u, u);
    assert(call_ensures(F::product, (math, u, u), a));
    let b: Single = math.product(v, v);
    assert(call_ensures(F::product, (math, v, v), b));
    let square: Single = math.sum(a, b);
    assert(call_ensures(F::sum, (math, a, b), square));
    math.root(square)
}

/// Whether numbers can be how brightness changes along a row, along a column
/// and in time.
pub open spec fn are_slopes<F: FlowMath>(
    math: &F,
    g: Gradient,
    along: Single,
    across: Single,
    time: Single,
) -> bool {
    &&& call_ensures(F::quarter, (math, g.along_row), along)
    &&& call_ensures(F::quarter, (math, g.along_column), across)
    &&& call_ensures(F::whole, (math, g.in_time), time)
}

/// Whether `r` can be the square of the steepness, and a little more.
pub open spec fn is_steepness<F: FlowMath>(
    math: &F,
    along: Single,
    across: Single,
    r: Single,
) -> bool {
    exists|a: Single, b: Single, square: Single|
        {
            &&& #[trigger] call_ensures(F::product, (math, along, along), a)
            &&& #[trigger] call_ensures(F::product, (math, across, across), b)
            &&& #[trigger] call_ensures(F::sum, (math, a, b), square)
            &&& call_ensures(F::sum, (math, square, number(SMALL_BITS)), r)
        }
}

/// Whether `r` can be a motion along a slope: the product of the slope and the
/// change in time, turned round, in parts of the steepness.
pub open spec fn is_slide<F: FlowMath>(
    math: &F,
    slope: Single,
    time: Single,
    steepness: Single,
    r: Single,
) -> bool {
    exists|p: Single| #[trigger]
        call_ensures(F::product, (math, slope, time), p) && call_ensures(
            F::quotient,
            (math, p.negated(), steepness),
            r,
        )
}

fn slide<F: FlowMath>(math: &F, slope: Single, time: Single, steepness: Single) -> (r: Single)
    ensures
        is_slide(math, slope, time, steepness, r),
{
    let p: Single = math.product(slope, time);
    assert(call_ensures(F::product, (math, slope, time), p));
    math.quotient(p.neg(), steepness)
}

/// Whether a motion can be what a change of brightness at one pixel speaks
/// for.
pub open spec fn is_drift<F: FlowMath>(math: &F, g: Gradient, u: Single, v: Single) -> bool {
    exists|along: Single, across: Single, time: Single, steepness: Single|
        {
            &&& #[trigger] are_slopes(math, g, along, across, time)
            &&& #[trigger] is_steepness(math, along, across, steepness)
            &&& is_slide(math, along, time, steepness, u)
            &&& is_slide(math, across, time, steepness, v)
        }
}

fn drift<F: FlowMath>(math: &F, g: Gradient) -> (r: (Single, Single))
    ensures
        is_drift(math, g, r.0, r.1),
{
    let along: Single = math.quarter(g.along_row);
    let across: Single = math.quarter(g.along_column);
    let time: Single = math.whole(g.in_time);
    assert(are_slopes(math, g, along, across, time));
    let a: Single = math.product(along, along);
    assert(call_ensures(F::product, (math, along, along), a));
    let b: Single = math.product(across, across);
    assert(call_ensures(F::product, (math, across, across), b));
    let square: Single = math.sum(a, b);
    assert(call_ensures(F::sum, (math, a, b), square));
    let steepness: Single = math.sum(square, Single::from_bits(SMALL_BITS));
    assert(is_steepness(math, along, across, steepness));
    (slide(math, along, time, steepness), slide(math, across, time, steepness))
}

/// Whether numbers can be how brightness changes at pixels, along rows, along
/// columns and in time.
pub open spec fn are_all_slopes<F: FlowMath>(
    math: &F,
    gradients: Seq<Gradient>,
    along: Seq<Single>,
    across: Seq<Single>,
    time: Seq<Single>,
) -> bool {
    &&& along.len() == gradients.len()
    &&& across.len() == gradients.len()
    &&& time.len() == gradients.len()
    &&& forall|i: int|
        0 <= i < gradients.len() ==> are_slopes(
            math,
            gradients[i],
            #[trigger] along[i],
            across[i],
            time[i],
        )
}

/// The sums of products of slopes.
pub struct SlopeSums {
    pub xx: Single,
    pub yy: Single,
    pub xy: Single,
    pub xt: Single,
    pub yt: Single,
}

/// Whether sums can be those of the products of slopes.
pub open spec fn are_slope_sums<F: FlowMath>(
    math: &F,
    along: Seq<Single>,
    across: Seq<Single>,
    time: Seq<Single>,
    s: SlopeSums,
) -> bool {
    let zero = number(0);
    &&& crate::arith::is_dot(math, zero, along, along, s.xx)
    &&& crate::arith::is_dot(math, zero, across, across, s.yy)
    &&& crate::arith::is_dot(math, zero, along, across, s.xy)
    &&& crate::arith::is_dot(math, zero, along, time, s.xt)
    &&& crate::arith::is_dot(math, zero, across, time, s.yt)
}

/// Whether `r` can be the difference of two products.
pub open spec fn is_cross<F: FlowMath>(
    math: &F,
    a: Single,
    b: Single,
    c: Single,
    d: Single,
    r: Single,
) -> bool {
    exists|p: Single, q: Single|
        {
            &&& #[trigger] call_ensures(F::product, (math, a, b), p)
            &&& #[trigger] call_ensures(F::product, (math, c, d), q)
            &&& call_ensures(F::difference, (math, p, q), r)
        }
}

fn cross<F: FlowMath>(math: &F, a: Single, b: Single, c: Single, d: Single) -> (r: Single)
    ensures
        is_cross(math, a, b, c, d, r),
{
    let p: Single = math.product(a, b);
    assert(call_ensures(F::product, (math, a, b), p));
    let q: Single = math.product(c, d);
    assert(call_ensures(F::product, (math, c, d), q));
    math.difference(p, q)
}

/// Whether `r` can be the sum of two products.
pub open spec fn is_sum_of_products<F: FlowMath>(
    math: &F,
    a: Single,
    b: Single,
    c: Single,
    d: Single,
    r: Single,
) -> bool {
    exists|p: Single, q: Single|
        {
            &&& #[trigger] call_ensures(F::product, (math, a, b), p)
            &&& #[trigger] call_ensures(F::product, (math, c, d), q)
            &&& call_ensures(F::sum, (math, p, q), r)
        }
}

fn sum_of_products<F: FlowMath>(math: &F, a: Single, b: Single, c: Single, d: Single) -> (r: Single)
    ensures
        is_sum_of_products(math, a, b, c, d, r),
{
    let p: Single = math.product(a, b);
    assert(call_ensures(F::product, (math, a, b), p));
    let q: Single = math.product(c, d);
    assert(call_ensures(F::product, (math, c, d), q));
    math.sum(p, q)
}

/// Whether `r` can be a number in parts of another, no farther than 50 pixels.
pub open spec fn is_bounded_part<F: FlowMath>(
    math: &F,
    x: Single,
    whole: Single,
    r: Single,
) -> bool {
    exists|q: Single| #[trigger]
        call_ensures(F::quotient, (math, x, whole), q) && r == q.clamped(
            number(FARTHEST_BACK_BITS),
            number(FARTHEST_BITS),
        )
}

fn bounded_part<F: FlowMath>(math: &F, x: Single, whole: Single) -> (r: Single)
    ensures
        is_bounded_part(math, x, whole, r),
        r.nan() || r.within(number(FARTHEST_BACK_BITS), number(FARTHEST_BITS)),
{
    let q: Single = math.quotient(x, whole);
    assert(call_ensures(F::quotient, (math, x, whole), q));
    proof {
        crate::number::clamped_singles_are_inside(
            q,
            number(FARTHEST_BACK_BITS),
            number(FARTHEST_BITS),
        );
    }
    q.clamp(Single::from_bits(FARTHEST_BACK_BITS), Single::from_bits(FARTHEST_BITS))
}

/// Whether a motion can be what sums of products of slopes speak for: the
/// solution of two equations where they have one, no farther than 50 pixels,
/// and else nothing moves.
pub open spec fn is_solution<F: FlowMath>(
    math: &F,
    s: SlopeSums,
    det: Single,
    u: Single,
    v: Single,
) -> bool {
    if number(SMALL_BITS).below(det.absolute()) {
        exists|a: Single, b: Single|
            {
                &&& #[trigger] is_cross(math, s.yy, s.xt.negated(), s.xy, s.yt.negated(), a)
                &&& #[trigger] is_sum_of_products(
                    math,
                    s.xy.negated(),
                    s.xt.negated(),
                    s.xx,
                    s.yt.negated(),
                    b,
                )
                &&& is_bounded_part(math, a, det, u)
                &&& is_bounded_part(math, b, det, v)
            }
    } else {
        u.bits == 0 && v.bits == 0
    }
}

/// Whether a motion can be what changes of brightness at many pixels speak
/// for.
pub open spec fn is_solved<F: FlowMath>(
    math: &F,
    gradients: Seq<Gradient>,
    u: Single,
    v: Single,
) -> bool {
    exists|
        along: Seq<Single>,
        across: Seq<Single>,
        time: Seq<Single>,
        s: SlopeSums,
        det: Single,
    |
        {
            &&& #[trigger] are_all_slopes(math, gradients, along, across, time)
            &&& #[trigger] are_slope_sums(math, along, across, time, s)
            &&& is_cross(math, s.xx, s.yy, s.xy, s.xy, det)
            &&& #[trigger] is_solution(math, s, det, u, v)
        }
}

fn solve<F: FlowMath>(math: &F, gradients: &Vec<Gradient>) -> (r: (Single, Single))
    ensures
        is_solved(math, gradients@, r.0, r.1),
        r.0.nan() || r.0.within(number(FARTHEST_BACK_BITS), number(FARTHEST_BITS)),
        r.1.nan() || r.1.within(number(FARTHEST_BACK_BITS), number(FARTHEST_BITS)),
{
    let mut along: Vec<Single> = Vec::new();
    let mut across: Vec<Single> = Vec::new();
    let mut time: Vec<Single> = Vec::new();
    let mut i: usize = 0;
    while i < gradients.len()
        invariant
            i <= gradients@.len(),
            along@.len() == i,
            across@.len() == i,
            time@.len() == i,
            forall|k: int|
                0 <= k < i ==> are_slopes(
                    math,
                    gradients@[k],
                    #[trigger] along@[k],
                    across@[k],
                    time@[k],
                ),
        decreases gradients@.len() - i,
    {
        let g: Gradient = gradients[i];
        along.push(math.quarter(g.along_row));
        across.push(math.quarter(g.along_column));
        time.push(math.whole(g.in_time));
        i += 1;
    }
    assert(are_all_slopes(math, gradients@, along@, across@, time@));
    let zero: Single = Single::zero();
    assert(zero == number(0));
    let s: SlopeSums = SlopeSums {
        xx: dot(math, zero, along.as_slice(), along.as_slice()),
        yy: dot(math, zero, across.as_slice(), across.as_slice()),
        xy: dot(math, zero, along.as_slice(), across.as_slice()),
        xt: dot(math, zero, along.as_slice(), time.as_slice()),
        yt: dot(math, zero, across.as_slice(), time.as_slice()),
    };
    assert(are_slope_sums(math, along@, across@, time@, s));
    let det: Single = cross(math, s.xx, s.yy, s.xy, s.xy);
    let r: (Single, Single) = if Single::from_bits(SMALL_BITS).less(det.abs()) {
        let a: Single = cross(math, s.yy, s.xt.neg(), s.xy, s.yt.neg());
        let b: Single = sum_of_products(math, s.xy.neg(), s.xt.neg(), s.xx, s.yt.neg());
        assert(is_cross(math, s.yy, s.xt.negated(), s.xy, s.yt.negated(), a));
        assert(is_sum_of_products(
            math,
            s.xy.negated(),
            s.xt.negated(),
            s.xx,
            s.yt.negated(),
            b,
        ));
        (bounded_part(math, a, det), bounded_part(math, b, det))
    } else {
        (zero, zero)
    };
    assert(is_solution(math, s, det, r.0, r.1));
    r
}

/// The motion of each pixel between two frames.
pub struct OpticalFlow {
    /// The motion along rows.
    pub flow_x: Matrix,
    /// The motion along columns.
    pub flow_y: Matrix,
    /// The lengths of the motions.
    pub magnitude: Matrix,
    /// The directions of the motions.
    pub angle: Matrix,
}

/// Whether tables have the same size.
pub open spec fn same_size(a: Matrix, b: Matrix) -> bool {
    a.height() == b.height() && a.width() == b.width()
}

impl OpticalFlow {
    /// Whether all tables are filled and have the same size.
    pub open spec fn wf(&self) -> bool {
        &&& self.flow_x.wf()
        &&& self.flow_y.wf()
        &&& self.magnitude.wf()
        &&& self.angle.wf()
        &&& same_size(self.flow_x, self.flow_y)
        &&& same_size(self.flow_x, self.magnitude)
        &&& same_size(self.flow_x, self.angle)
    }

    /// Whether the lengths and directions can be those of the motions.
    pub open spec fn is_measured<F: FlowMath>(&self, math: &F) -> bool {
        &&& self.wf()
        &&& forall|k: int|
            0 <= k < self.flow_x.flat().len() ==> is_length(
                math,
                self.flow_x.flat()[k],
                self.flow_y.flat()[k],
                #[trigger] self.magnitude.flat()[k],
            )
        &&& forall|k: int|
            0 <= k < self.flow_x.flat().len() ==> call_ensures(
                F::direction,
                (math, self.flow_x.flat()[k], self.flow_y.flat()[k]),
                #[trigger] self.angle.flat()[k],
            )
    }

    /// The motions with their lengths and directions.
    pub fn new<F: FlowMath>(math: &F, flow_x: Matrix, flow_y: Matrix) -> (r: Self)
        requires
            flow_x.wf(),
            flow_y.wf(),
            same_size(flow_x, flow_y),
        ensures
            r.flow_x == flow_x,
            r.flow_y == flow_y,
            r.is_measured(math),
    {
        let xs: &[Single] = flow_x.values();
        let ys: &[Single] = flow_y.values();
        let mut lengths: Vec<Single> = Vec::new();
        let mut angles: Vec<Single> = Vec::new();
        let mut k: usize = 0;
        while k < xs.len()
            invariant
                k <= xs@.len(),
                xs@.len() == ys@.len(),
                lengths@.len() == k,
                angles@.len() == k,
                forall|i: int|
                    0 <= i < k ==> is_length(math, xs@[i], ys@[i], #[trigger] lengths@[i]),
                forall|i: int|
                    0 <= i < k ==> call_ensures(
                        F::direction,
                        (math, xs@[i], ys@[i]),
                        #[trigger] angles@[i],
                    ),
            decreases xs@.len() - k,
        {
            lengths.push(length(math, xs[k], ys[k]));
            angles.push(math.direction(xs[k], ys[k]));
            k += 1;
        }
        let h: usize = flow_x.nrows();
        let w: usize = flow_x.ncols();
        let magnitude: Matrix = table(h, w, lengths);
        let angle: Matrix = table(h, w, angles);
        OpticalFlow { flow_x, flow_y, magnitude, angle }
    }

    /// The motion at a place, where that is within the frame.
    pub fn get_flow(&self, x: usize, y: usize) -> (r: Option<(Single, Single)>)
        requires
            self.wf(),
        ensures
            r == if y < self.flow_x.height() && x < self.flow_x.width() {
                Some((self.flow_x.line(y as int)[x as int], self.flow_y.line(y as int)[x as int]))
            } else {
                None
            },
    {
        if y < self.flow_x.nrows() && x < self.flow_x.ncols() {
            Some((self.flow_x.get(y, x), self.flow_y.get(y, x)))
        } else {
            None
        }
    }

    /// The length of the longest motion, which is at least zero.
    pub fn max_magnitude(&self) -> (r: Single)
        ensures
            is_longest(self.magnitude.flat(), r),
    {
        let values: &[Single] = self.magnitude.values();
        let mut best: Single = Single::zero();
        let mut k: usize = 0;
        while k < values.len()
            invariant
                k <= values@.len(),
                !best.nan(),
                best.bits == 0 || values@.contains(best),
                !best.below(Single { bits: 0 }),
                forall|i: int| 0 <= i < k ==> !best.below(#[trigger] values@[i]),
            decreases values@.len() - k,
        {
            let v: Single = values[k];
            if best.less(v) {
                assert(values@[k as int] == v);
                best = v;
            }
            k += 1;
        }
        best
    }

    /// The mean length of the motions; zero where there are none.
    pub fn avg_magnitude<F: FlowMath>(&self, math: &F) -> (r: Single)
        ensures
            if self.magnitude.flat().len() == 0 {
                r.bits == 0
            } else {
                exists|held: Vec<Single>|
                    held@ == self.magnitude.flat() && #[trigger] is_mean(math, held, r)
            },
    {
        let values: &[Single] = self.magnitude.values();
        if values.len() == 0 {
            return Single::zero();
        }
        let held: Vec<Single> = crate::samples::copy_samples(values);
        let r: Single = math.mean(&held);
        assert(is_mean(math, held, r));
        r
    }

    /// The height and the width.
    pub fn dimensions(&self) -> (r: (usize, usize))
        ensures
            r.0 == self.flow_x.height(),
            r.1 == self.flow_x.width(),
    {
        (self.flow_x.nrows(), self.flow_x.ncols())
    }
}

/// Whether a number can be the mean of numbers.
pub open spec fn is_mean<F: FlowMath>(math: &F, values: Vec<Single>, r: Single) -> bool {
    call_ensures(F::mean, (math, &values), r)
}

/// Whether `r` is the greatest of numbers and zero.
pub open spec fn is_longest(values: Seq<Single>, r: Single) -> bool {
    &&& r.bits == 0 || values.contains(r)
    &&& !r.below(Single { bits: 0 })
    &&& forall|i: int| 0 <= i < values.len() ==> !r.below(#[trigger] values[i])
}

fn table(h: usize, w: usize, values: Vec<Single>) -> (r: Matrix)
    requires
        values@.len() == h * w,
    ensures
        r.wf(),
        r.height() == h,
        r.width() == w,
        r.flat() == values@,
{
    assert(values@.len() == values.len());
    match Matrix::from_vec(h, w, values) {
        Some(m) => m,
        None => Matrix::zeros(h, w),
    }
}

/// How motion is found.
#[derive(Debug, Clone, Copy, PartialEq, Eq, Structural)]
pub enum OpticalFlowMethod {
    /// From the changes of brightness in a window.
    LucasKanade,
    /// From the change of brightness at each pixel.
    DenseGradient,
    /// From where blocks of the frame are found again.
    BlockMatching,
}

/// How brightness changes at a place that is not at the border.
pub open spec fn gradient_at(prev: VideoFrame, curr: VideoFrame, x: int, y: int) -> Gradient {
    Gradient {
        along_row: ((curr.at(x + 1, y) - curr.at(x - 1, y)) + (prev.at(x + 1, y) - prev.at(
            x - 1,
            y,
        ))) as i32,
        along_column: ((curr.at(x, y + 1) - curr.at(x, y - 1)) + (prev.at(x, y + 1) - prev.at(
            x,
            y - 1,
        ))) as i32,
        in_time: (curr.at(x, y) - prev.at(x, y)) as i32,
    }
}

/// Whether a place is not at the border of a frame.
pub open spec fn is_inner(frame: VideoFrame, x: int, y: int) -> bool {
    1 <= x < frame.width - 1 && 1 <= y < frame.height - 1
}

/// Whether two frames in shades of grey have the same size.
pub open spec fn are_pair(prev: VideoFrame, curr: VideoFrame) -> bool {
    &&& prev.is_gray()
    &&& curr.is_gray()
    &&& prev.width == curr.width
    &&& prev.height == curr.height
}

fn gradient(prev: &VideoFrame, curr: &VideoFrame, x: usize, y: usize) -> (r: Gradient)
    requires
        are_pair(*prev, *curr),
        is_inner(*prev, x as int, y as int),
    ensures
        r == gradient_at(*prev, *curr, x as int, y as int),
{
    let along_row: i32 = (curr.get(x + 1, y) as i32 - curr.get(x - 1, y) as i32) + (prev.get(
        x + 1,
        y,
    ) as i32 - prev.get(x - 1, y) as i32);
    let along_column: i32 = (curr.get(x, y + 1) as i32 - curr.get(x, y - 1) as i32) + (prev.get(
        x,
        y + 1,
    ) as i32 - prev.get(x, y - 1) as i32);
    let in_time: i32 = curr.get(x, y) as i32 - prev.get(x, y) as i32;
    Gradient { along_row, along_column, in_time }
}

/// The changes of brightness at the first `n` places of a window around a
/// place, row by row, without those at the border of the frame.
pub open spec fn gradients_around(
    prev: VideoFrame,
    curr: VideoFrame,
    half: int,
    x: int,
    y: int,
    n: int,
) -> Seq<Gradient>
    decreases n,
{
    if n <= 0 {
        Seq::empty()
    } else {
        let side = 2 * half + 1;
        let fewer = gradients_around(prev, curr, half, x, y, n - 1);
        let wx = x - half + (n - 1) % side;
        let wy = y - half + (n - 1) / side;
        if is_inner(prev, wx, wy) {
            fewer.push(gradient_at(prev, curr, wx, wy))
        } else {
            fewer
        }
    }
}

/// All changes of brightness in a window around a place.
pub open spec fn window_gradients(
    prev: VideoFrame,
    curr: VideoFrame,
    half: int,
    x: int,
    y: int,
) -> Seq<Gradient> {
    gradients_around(prev, curr, half, x, y, (2 * half + 1) * (2 * half + 1))
}

fn gather_gradients(
    prev: &VideoFrame,
    curr: &VideoFrame,
    half: usize,
    x: usize,
    y: usize,
) -> (r: Vec<Gradient>)
    requires
        are_pair(*prev, *curr),
        half <= x < prev.width - half,
        half <= y < prev.height - half,
    ensures
        r@ == window_gradients(*prev, *curr, half as int, x as int, y as int),
{
    let mut out: Vec<Gradient> = Vec::new();
    let ghost side: int = 2 * half + 1;
    let mut row: usize = 0;
    assert(0 * side == 0) by (nonlinear_arith);
    while row <= 2 * half
        invariant
            row <= 2 * half + 1,
            side == 2 * half + 1,
            are_pair(*prev, *curr),
            half <= x < prev.width - half,
            half <= y < prev.height - half,
            out@ == gradients_around(
                *prev,
                *curr,
                half as int,
                x as int,
                y as int,
                row * side,
            ),
        decreases 2 * half + 1 - row,
    {
        let mut column: usize = 0;
        while column <= 2 * half
            invariant
                row <= 2 * half,
                column <= 2 * half + 1,
                side == 2 * half + 1,
                are_pair(*prev, *curr),
                half <= x < prev.width - half,
                half <= y < prev.height - half,
                out@ == gradients_around(
                    *prev,
                    *curr,
                    half as int,
                    x as int,
                    y as int,
                    row * side + column,
                ),
            decreases 2 * half + 1 - column,
        {
            let wx: usize = (x - half) + column;
            let wy: usize = (y - half) + row;
            proof {
                vstd::arithmetic::div_mod::lemma_fundamental_div_mod_converse(
                    row * side + column,
                    side,
                    row as int,
                    column as int,
                );
                assert(0 <= row * side) by (nonlinear_arith)
                    requires
                        0 <= row,
                        0 < side,
                ;
            }
            if wx >= 1 && wx < prev.width - 1 && wy >= 1 && wy < prev.height - 1 {
                out.push(gradient(prev, curr, wx, wy));
            }
            column += 1;
        }
        assert(row * side + side == (row + 1) * side) by (nonlinear_arith);
        row += 1;
    }
    assert(row * side == side * side);
    out
}

/// Whether a motion can be that of the pixel at a place: at the border of the
/// frame nothing moves, and elsewhere the motion is found from the change of
/// brightness there.
pub open spec fn is_drift_at<F: FlowMath>(
    math: &F,
    prev: VideoFrame,
    curr: VideoFrame,
    k: int,
    u: Single,
    v: Single,
) -> bool {
    let x = k % (prev.width as int);
    let y = k / (prev.width as int);
    if is_inner(prev, x, y) {
        is_drift(math, gradient_at(prev, curr, x, y), u, v)
    } else {
        u.bits == 0 && v.bits == 0
    }
}

/// Whether motions can be found from the change of brightness at each pixel.
pub open spec fn is_dense<F: FlowMath>(
    math: &F,
    prev: VideoFrame,
    curr: VideoFrame,
    flow_x: Seq<Single>,
    flow_y: Seq<Single>,
) -> bool {
    &&& flow_x.len() == prev.width * prev.height
    &&& flow_y.len() == prev.width * prev.height
    &&& forall|k: int|
        0 <= k < flow_x.len() ==> is_drift_at(
            math,
            prev,
            curr,
            k,
            #[trigger] flow_x[k],
            flow_y[k],
        )
}

/// Whether a motion can be found from the changes of brightness around a
/// place.
pub open spec fn is_traced<F: FlowMath>(
    math: &F,
    prev: VideoFrame,
    curr: VideoFrame,
    half: int,
    x: int,
    y: int,
    u: Single,
    v: Single,
) -> bool {
    is_solved(math, window_gradients(prev, curr, half, x, y), u, v)
}

/// Whether a window of `half` pixels to each side has room around a place.
pub open spec fn has_room(frame: VideoFrame, half: int, x: int, y: int) -> bool {
    half <= x < frame.width - half && half <= y < frame.height - half
}

/// Whether a motion can be that of the pixel at a place: nothing moves where
/// the window has no room, and elsewhere the motion is found from the changes
/// of brightness around it.
pub open spec fn is_traced_at<F: FlowMath>(
    math: &F,
    prev: VideoFrame,
    curr: VideoFrame,
    half: int,
    k: int,
    u: Single,
    v: Single,
) -> bool {
    let x = k % (prev.width as int);
    let y = k / (prev.width as int);
    if has_room(prev, half, x, y) {
        is_traced(math, prev, curr, half, x, y, u, v)
    } else {
        u.bits == 0 && v.bits == 0
    }
}

/// Whether motions can be found from the changes of brightness around each
/// pixel.
pub open spec fn is_windowed<F: FlowMath>(
    math: &F,
    prev: VideoFrame,
    curr: VideoFrame,
    half: int,
    flow_x: Seq<Single>,
    flow_y: Seq<Single>,
) -> bool {
    &&& flow_x.len() == prev.width * prev.height
    &&& flow_y.len() == prev.width * prev.height
    &&& forall|k: int|
        0 <= k < flow_x.len() ==> is_traced_at(
            math,
            prev,
            curr,
            half,
            k,
            #[trigger] flow_x[k],
            flow_y[k],
        )
}

/// The differences of brightness at the first `n` pixels of a block of width
/// `bw`, row by row, between the block and where it would be after a move,
/// without those that would be outside the frame.
pub open spec fn differences(
    prev: VideoFrame,
    curr: VideoFrame,
    bx: int,
    by: int,
    bw: int,
    dx: int,
    dy: int,
    n: int,
) -> Seq<u8>
    decreases n,
{
    if n <= 0 {
        Seq::empty()
    } else {
        let fewer = differences(prev, curr, bx, by, bw, dx, dy, n - 1);
        let px = bx + (n - 1) % bw;
        let py = by + (n - 1) / bw;
        if 0 <= px + dx < prev.width && 0 <= py + dy < prev.height {
            let d = prev.at(px, py) - curr.at(px + dx, py + dy);
            fewer.push(
                (if d < 0 {
                    -d
                } else {
                    d
                }) as u8,
            )
        } else {
            fewer
        }
    }
}

/// The size of a block that starts at `start`, which ends with the frame.
pub open spec fn block_extent(start: int, size: int, limit: int) -> int {
    if size < limit - start {
        size
    } else {
        limit - start
    }
}

/// The differences of brightness of a whole block after a move.
pub open spec fn block_differences(
    prev: VideoFrame,
    curr: VideoFrame,
    bx: int,
    by: int,
    size: int,
    dx: int,
    dy: int,
) -> Seq<u8> {
    let bw = block_extent(bx, size, prev.width as int);
    let bh = block_extent(by, size, prev.height as int);
    differences(prev, curr, bx, by, bw, dx, dy, bw * bh)
}

/// Whether numbers can be differences of brightness.
pub open spec fn are_wholes<F: FlowMath>(
    math: &F,
    differences: Seq<u8>,
    r: Seq<Single>,
) -> bool {
    &&& r.len() == differences.len()
    &&& forall|i: int|
        0 <= i < r.len() ==> call_ensures(
            F::whole,
            (math, differences[i] as i32),
            #[trigger] r[i],
        )
}

/// Whether a number can be the mean difference of a block after a move;
/// `None` where no pixel of it would be in the frame.
pub open spec fn is_score<F: FlowMath>(
    math: &F,
    differences: Seq<u8>,
    score: Option<Single>,
) -> bool {
    match score {
        Some(v) => {
            &&& differences.len() > 0
            &&& exists|terms: Seq<Single>| #[trigger]
                are_wholes(math, differences, terms) && crate::arith::is_mean(
                    math,
                    number(0),
                    terms,
                    v,
                )
        },
        None => differences.len() == 0,
    }
}

fn score_of<F: FlowMath>(math: &F, differences: &Vec<u8>) -> (r: Option<Single>)
    ensures
        is_score(math, differences@, r),
{
    if differences.len() == 0 {
        return None;
    }
    let mut terms: Vec<Single> = Vec::new();
    let mut i: usize = 0;
    while i < differences.len()
        invariant
            i <= differences@.len(),
            terms@.len() == i,
            forall|k: int|
                0 <= k < i ==> call_ensures(
                    F::whole,
                    (math, differences@[k] as i32),
                    #[trigger] terms@[k],
                ),
        decreases differences@.len() - i,
    {
        terms.push(math.whole(differences[i] as i32));
        i += 1;
    }
    assert(are_wholes(math, differences@, terms@));
    let zero: Single = Single::zero();
    assert(zero == number(0));
    Some(mean(math, zero, terms.as_slice()))
}

/// The bit pattern of the greatest finite number.
pub const LARGEST_BITS: u32 = 0x7f7f_ffff;

/// The least of the first `n` scores and its place; the first of equal ones
/// counts.
pub open spec fn best_of(scores: Seq<Option<Single>>, n: int) -> (Single, Option<int>)
    decreases n,
{
    if n <= 0 {
        (Single { bits: LARGEST_BITS }, None)
    } else {
        let before = best_of(scores, n - 1);
        match scores[n - 1] {
            Some(v) => if v.below(before.0) {
                (v, Some(n - 1))
            } else {
                before
            },
            None => before,
        }
    }
}

/// The move at a place, for moves of up to `range` pixels to each side, row by
/// row; none where there is no place.
pub open spec fn move_at(range: int, place: Option<int>) -> (int, int) {
    match place {
        Some(i) => (i % (2 * range + 1) - range, i / (2 * range + 1) - range),
        None => (0, 0),
    }
}

/// Whether a score can be that of a block for the move at a place.
pub open spec fn scores_move<F: FlowMath>(
    math: &F,
    prev: VideoFrame,
    curr: VideoFrame,
    bx: int,
    by: int,
    size: int,
    place: int,
    score: Option<Single>,
) -> bool {
    let by_move = move_at(size / 2, Some(place));
    is_score(
        math,
        block_differences(prev, curr, bx, by, size, by_move.0, by_move.1),
        score,
    )
}

/// Whether scores can be those of a block, one for each move.
pub open spec fn are_scores<F: FlowMath>(
    math: &F,
    prev: VideoFrame,
    curr: VideoFrame,
    bx: int,
    by: int,
    size: int,
    scores: Seq<Option<Single>>,
) -> bool {
    forall|i: int|
        0 <= i < scores.len() ==> scores_move(
            math,
            prev,
            curr,
            bx,
            by,
            size,
            i,
            #[trigger] scores[i],
        )
}

/// Whether a move can be where a block is found again.
pub open spec fn is_match<F: FlowMath>(
    math: &F,
    prev: VideoFrame,
    curr: VideoFrame,
    bx: int,
    by: int,
    size: int,
    scores: Seq<Option<Single>>,
    found: (isize, isize),
) -> bool {
    let side = 2 * (size / 2) + 1;
    &&& scores.len() == side * side
    &&& are_scores(math, prev, curr, bx, by, size, scores)
    &&& move_at(size / 2, best_of(scores, side * side).1) == (found.0 as int, found.1 as int)
}

/// Where a place goes when it is moved by `d - range`, where that is below a
/// limit.
fn moved(place: usize, d: usize, range: usize, limit: usize) -> (r: Option<usize>)
    requires
        place < limit,
    ensures
        match r {
            Some(p) => p == place + d - range && p < limit,
            None => !(0 <= place + d - range < limit),
        },
{
    if d >= range {
        let up: usize = d - range;
        if up < limit - place {
            Some(place + up)
        } else {
            None
        }
    } else {
        let down: usize = range - d;
        if down <= place {
            Some(place - down)
        } else {
            None
        }
    }
}

fn extent(start: usize, size: usize, limit: usize) -> (r: usize)
    requires
        start <= limit,
    ensures
        r == block_extent(start as int, size as int, limit as int),
{
    if size < limit - start {
        size
    } else {
        limit - start
    }
}

fn collect_differences(
    prev: &VideoFrame,
    curr: &VideoFrame,
    bx: usize,
    by: usize,
    size: usize,
    i: usize,
    j: usize,
) -> (r: Vec<u8>)
    requires
        are_pair(*prev, *curr),
        bx < prev.width,
        by < prev.height,
        size > 0,
    ensures
        r@ == block_differences(
            *prev,
            *curr,
            bx as int,
            by as int,
            size as int,
            j - size / 2,
            i - size / 2,
        ),
{
    let range: usize = size / 2;
    let bw: usize = extent(bx, size, prev.width);
    let bh: usize = extent(by, size, prev.height);
    let ghost dx: int = j - range;
    let ghost dy: int = i - range;
    let mut out: Vec<u8> = Vec::new();
    let mut y: usize = 0;
    assert(0 * bw == 0) by (nonlinear_arith);
    while y < bh
        invariant
            y <= bh,
            are_pair(*prev, *curr),
            0 < bw <= prev.width - bx,
            bh <= prev.height - by,
            dx == j - range,
            dy == i - range,
            out@ == differences(
                *prev,
                *curr,
                bx as int,
                by as int,
                bw as int,
                dx,
                dy,
                y * bw,
            ),
        decreases bh - y,
    {
        let mut x: usize = 0;
        while x < bw
            invariant
                y < bh,
                x <= bw,
                are_pair(*prev, *curr),
                0 < bw <= prev.width - bx,
                bh <= prev.height - by,
                dx == j - range,
                dy == i - range,
                out@ == differences(
                    *prev,
                    *curr,
                    bx as int,
                    by as int,
                    bw as int,
                    dx,
                    dy,
                    y * bw + x,
                ),
            decreases bw - x,
        {
            proof {
                vstd::arithmetic::div_mod::lemma_fundamental_div_mod_converse(
                    y * bw + x,
                    bw as int,
                    y as int,
                    x as int,
                );
                assert(0 <= y * bw) by (nonlinear_arith)
                    requires
                        0 <= y,
                        0 < bw,
                ;
            }
            let px: usize = bx + x;
            let py: usize = by + y;
            if let Some(cy) = moved(py, i, range, prev.height) {
                if let Some(cx) = moved(px, j, range, prev.width) {
                    let a: u8 = prev.get(px, py);
                    let b: u8 = curr.get(cx, cy);
                    if a < b {
                        out.push(b - a);
                    } else {
                        out.push(a - b);
                    }
                }
            }
            x += 1;
        }
        assert(y * bw + bw == (y + 1) * bw) by (nonlinear_arith);
        y += 1;
    }
    assert(bh * bw == bw * bh) by (nonlinear_arith);
    out
}

fn signed(d: usize, range: usize) -> (r: isize)
    requires
        d <= 2 * range,
        range <= isize::MAX,
    ensures
        r == d - range,
{
    if d >= range {
        (d - range) as isize
    } else {
        -((range - d) as isize)
    }
}

fn match_block<F: FlowMath>(
    math: &F,
    prev: &VideoFrame,
    curr: &VideoFrame,
    bx: usize,
    by: usize,
    size: usize,
) -> (r: (isize, isize))
    requires
        are_pair(*prev, *curr),
        bx < prev.width,
        by < prev.height,
        size > 0,
    ensures
        exists|scores: Seq<Option<Single>>|
            #[trigger] is_match(
                math,
                *prev,
                *curr,
                bx as int,
                by as int,
                size as int,
                scores,
                r,
            ),
{
    let range: usize = size / 2;
    let ghost side: int = 2 * range + 1;
    let ghost mut scores: Seq<Option<Single>> = Seq::empty();
    let mut best: Single = Single::from_bits(LARGEST_BITS);
    let mut found: (isize, isize) = (0, 0);
    let mut i: usize = 0;
    assert(0 * side == 0) by (nonlinear_arith);
    while i <= 2 * range
        invariant
            i <= 2 * range + 1,
            range == size / 2,
            side == 2 * range + 1,
            are_pair(*prev, *curr),
            bx < prev.width,
            by < prev.height,
            size > 0,
            scores.len() == i * side,
            are_scores(math, *prev, *curr, bx as int, by as int, size as int, scores),
            best == best_of(scores, scores.len() as int).0,
            move_at(range as int, best_of(scores, scores.len() as int).1) == (
                found.0 as int,
                found.1 as int,
            ),
        decreases 2 * range + 1 - i,
    {
        let mut j: usize = 0;
        while j <= 2 * range
            invariant
                i <= 2 * range,
                j <= 2 * range + 1,
                range == size / 2,
                side == 2 * range + 1,
                are_pair(*prev, *curr),
                bx < prev.width,
                by < prev.height,
                size > 0,
                scores.len() == i * side + j,
                are_scores(math, *prev, *curr, bx as int, by as int, size as int, scores),
                best == best_of(scores, scores.len() as int).0,
                move_at(range as int, best_of(scores, scores.len() as int).1) == (
                    found.0 as int,
                    found.1 as int,
                ),
            decreases 2 * range + 1 - j,
        {
            let held: Vec<u8> = collect_differences(prev, curr, bx, by, size, i, j);
            let score: Option<Single> = score_of(math, &held);
            proof {
                let place = scores.len() as int;
                vstd::arithmetic::div_mod::lemma_fundamental_div_mod_converse(
                    place,
                    side,
                    i as int,
                    j as int,
                );
                assert(move_at(range as int, Some(place)) == (j - range, i - range));
                assert(is_score(math, held@, score));
                let more = scores.push(score);
                best_of_prefix(scores, more, place);
                assert(scores_move(
                    math,
                    *prev,
                    *curr,
                    bx as int,
                    by as int,
                    size as int,
                    place,
                    score,
                ));
                assert forall|k: int| 0 <= k < more.len() implies scores_move(
                    math,
                    *prev,
                    *curr,
                    bx as int,
                    by as int,
                    size as int,
                    k,
                    #[trigger] more[k],
                ) by {
                    if k < place {
                        assert(more[k] == scores[k]);
                    }
                }
                scores = more;
            }
            if let Some(v) = score {
                if v.less(best) {
                    best = v;
                    found = (signed(j, range), signed(i, range));
                }
            }
            j += 1;
        }
        assert(i * side + side == (i + 1) * side) by (nonlinear_arith);
        i += 1;
    }
    assert(i * side == side * side);
    assert(is_match(math, *prev, *curr, bx as int, by as int, size as int, scores, found));
    found
}

/// The least of the first scores does not depend on later ones.
proof fn best_of_prefix(scores: Seq<Option<Single>>, more: Seq<Option<Single>>, n: int)
    requires
        0 <= n <= scores.len() <= more.len(),
        forall|i: int| 0 <= i < scores.len() ==> #[trigger] scores[i] == more[i],
    ensures
        best_of(scores, n) == best_of(more, n),
    decreases n,
{
    if n > 0 {
        best_of_prefix(scores, more, n - 1);
    }
}

/// The least score is no more than any other, and all that stand before it are
/// above it, but for what is no number: of equal scores the first one counts.
pub proof fn best_is_least(scores: Seq<Option<Single>>, n: int)
    requires
        0 <= n <= scores.len(),
    ensures
        !best_of(scores, n).0.nan(),
        forall|i: int|
            0 <= i < n && scores[i] is Some ==> !(#[trigger] scores[i])->0.below(
                best_of(scores, n).0,
            ),
        best_of(scores, n).1 matches Some(at) ==> 0 <= at < n && scores[at] == Some(
            best_of(scores, n).0,
        ),
        best_of(scores, n).1 matches Some(at) ==> forall|i: int|
            0 <= i < at && scores[i] is Some && !scores[i]->0.nan() ==> best_of(
                scores,
                n,
            ).0.below((#[trigger] scores[i])->0),
    decreases n,
{
    if n > 0 {
        best_is_least(scores, n - 1);
    }
}

/// The number of blocks along a side.
pub open spec fn blocks_along(limit: int, size: int) -> int {
    (limit + size - 1) / size
}

/// Whether motions can be found from where blocks are found again: all pixels
/// of a block move alike.
pub open spec fn is_blockwise<F: FlowMath>(
    math: &F,
    prev: VideoFrame,
    curr: VideoFrame,
    size: int,
    moves: Seq<(isize, isize)>,
    flow_x: Seq<Single>,
    flow_y: Seq<Single>,
) -> bool {
    let across = blocks_along(prev.width as int, size);
    &&& flow_x.len() == prev.width * prev.height
    &&& flow_y.len() == prev.width * prev.height
    &&& moves.len() == across * blocks_along(prev.height as int, size)
    &&& forall|b: int|
        0 <= b < moves.len() ==> is_found(
            math,
            prev,
            curr,
            (b % across) * size,
            (b / across) * size,
            size,
            #[trigger] moves[b],
        )
    &&& forall|k: int|
        0 <= k < flow_x.len() ==> moves_pixel(
            math,
            moves[block_of(prev.width as int, size, k)],
            #[trigger] flow_x[k],
            flow_y[k],
        )
}

/// Whether a move can be where a block is found again.
pub open spec fn is_found<F: FlowMath>(
    math: &F,
    prev: VideoFrame,
    curr: VideoFrame,
    bx: int,
    by: int,
    size: int,
    found: (isize, isize),
) -> bool {
    exists|scores: Seq<Option<Single>>|
        #[trigger] is_match(math, prev, curr, bx, by, size, scores, found)
}

/// The block of a pixel.
pub open spec fn block_of(width: int, size: int, k: int) -> int {
    ((k / width) / size) * blocks_along(width, size) + (k % width) / size
}

/// Whether a motion can be that of a move.
pub open spec fn moves_pixel<F: FlowMath>(
    math: &F,
    found: (isize, isize),
    u: Single,
    v: Single,
) -> bool {
    &&& call_ensures(F::offset, (math, found.0), u)
    &&& call_ensures(F::offset, (math, found.1), v)
}

proof fn block_fits(limit: int, size: int, i: int)
    requires
        0 <= i < blocks_along(limit, size),
        0 < size,
        0 <= limit,
    ensures
        0 <= i * size < limit,
{
    let n = limit + size - 1;
    vstd::arithmetic::div_mod::lemma_fundamental_div_mod(n, size);
    assert(0 <= i * size) by (nonlinear_arith)
        requires
            0 <= i,
            0 < size,
    ;
    assert((i + 1) * size <= size * (n / size)) by (nonlinear_arith)
        requires
            i + 1 <= n / size,
            0 < size,
    ;
    assert((i + 1) * size == i * size + size) by (nonlinear_arith);
}

proof fn pixel_has_block(limit: int, size: int, p: int)
    requires
        0 <= p < limit,
        0 < size,
    ensures
        0 <= p / size < blocks_along(limit, size),
{
    vstd::arithmetic::div_mod::lemma_div_is_ordered(p + size, limit + size - 1, size);
    vstd::arithmetic::div_mod::lemma_div_plus_one(p, size);
    assert(0 <= p / size) by (nonlinear_arith)
        requires
            0 <= p,
            0 < size,
    ;
}

fn count_blocks(limit: usize, size: usize) -> (r: usize)
    requires
        size > 0,
    ensures
        r == blocks_along(limit as int, size as int),
        r <= limit,
{
    proof {
        vstd::arithmetic::div_mod::lemma_fundamental_div_mod(limit as int, size as int);
        let q = limit as int / size as int;
        let m = limit as int % size as int;
        assert(q * size == size * q) by (nonlinear_arith);
        if m == 0 {
            vstd::arithmetic::div_mod::lemma_fundamental_div_mod_converse(
                limit + size - 1,
                size as int,
                q,
                size - 1,
            );
        } else {
            assert((q + 1) * size == size * q + size) by (nonlinear_arith);
            vstd::arithmetic::div_mod::lemma_fundamental_div_mod_converse(
                limit + size - 1,
                size as int,
                q + 1,
                m - 1,
            );
        }
        assert(q <= size * q) by (nonlinear_arith)
            requires
                0 <= q,
                1 <= size,
        ;
    }
    if limit % size == 0 {
        limit / size
    } else {
        limit / size + 1
    }
}

/// What finds motion between frames.
#[derive(Debug, Clone, Copy, PartialEq, Eq, Structural)]
pub struct OpticalFlowEstimator {
    method: OpticalFlowMethod,
    window_size: usize,
    pyramid_levels: usize,
}

/// Whether motions and their lengths and directions can be those between two
/// frames in shades of grey.
pub open spec fn is_flow<F: FlowMath>(
    math: &F,
    method: OpticalFlowMethod,
    window_size: usize,
    prev: VideoFrame,
    curr: VideoFrame,
    flow: OpticalFlow,
) -> bool {
    let xs = flow.flow_x.flat();
    let ys = flow.flow_y.flat();
    &&& flow.is_measured(math)
    &&& flow.flow_x.height() == prev.height
    &&& flow.flow_x.width() == prev.width
    &&& match method {
        OpticalFlowMethod::DenseGradient => is_dense(math, prev, curr, xs, ys),
        OpticalFlowMethod::LucasKanade => is_windowed(
            math,
            prev,
            curr,
            window_size as int / 2,
            xs,
            ys,
        ),
        OpticalFlowMethod::BlockMatching => exists|moves: Seq<(isize, isize)>|
            #[trigger] is_blockwise(math, prev, curr, window_size as int, moves, xs, ys),
    }
}

impl OpticalFlowEstimator {
    /// How motion is found.
    pub closed spec fn manner(&self) -> OpticalFlowMethod {
        self.method
    }

    /// The size of a window or a block.
    pub closed spec fn window(&self) -> usize {
        self.window_size
    }

    /// The number of scales.
    pub closed spec fn levels(&self) -> usize {
        self.pyramid_levels
    }

    /// What finds motion by a method, with windows of 15 pixels.
    pub fn new(method: OpticalFlowMethod) -> (r: Self)
        ensures
            r.manner() == method,
            r.window() == 15,
            r.levels() == 3,
    {
        OpticalFlowEstimator { method, window_size: 15, pyramid_levels: 3 }
    }

    /// Sets the size of a window or a block.
    pub fn with_window_size(self, size: usize) -> (r: Self)
        ensures
            r.manner() == self.manner(),
            r.window() == size,
            r.levels() == self.levels(),
    {
        OpticalFlowEstimator { window_size: size, ..self }
    }

    /// Sets the number of scales.
    pub fn with_pyramid_levels(self, levels: usize) -> (r: Self)
        ensures
            r.manner() == self.manner(),
            r.window() == self.window(),
            r.levels() == levels,
    {
        OpticalFlowEstimator { pyramid_levels: levels, ..self }
    }

    /// Whether motion can be found between frames of a size.
    pub open spec fn can_follow(&self, frame: VideoFrame) -> bool {
        match self.manner() {
            OpticalFlowMethod::DenseGradient => frame.width >= 1 && frame.height >= 1,
            OpticalFlowMethod::LucasKanade => {
                &&& self.window() / 2 <= frame.width
                &&& self.window() / 2 <= frame.height
            },
            OpticalFlowMethod::BlockMatching => self.window() > 0,
        }
    }

    /// The motion between two frames, or an error where their sizes differ.
    pub fn compute<M: PixelMath, F: FlowMath>(
        &self,
        pixel_math: &M,
        math: &F,
        prev: &VideoFrame,
        curr: &VideoFrame,
    ) -> (r: IoResult<OpticalFlow>)
        requires
            prev.wf(),
            curr.wf(),
            prev.channels == 1 || prev.channels >= 3,
            curr.channels == 1 || curr.channels >= 3,
            prev.width == curr.width && prev.height == curr.height ==> self.can_follow(*prev),
        ensures
            if prev.width == curr.width && prev.height == curr.height {
                &&& r is Ok
                &&& exists|prev_gray: VideoFrame, curr_gray: VideoFrame|
                    {
                        &&& #[trigger] prev.turns_gray(pixel_math, &prev_gray)
                        &&& #[trigger] curr.turns_gray(pixel_math, &curr_gray)
                        &&& is_flow(
                            math,
                            self.manner(),
                            self.window(),
                            prev_gray,
                            curr_gray,
                            r->Ok_0,
                        )
                    }
            } else {
                r matches Err(IoError::ConfigError(t)) && t@
                    == "Frame dimensions must match for optical flow"@
            },
    {
        let prev_gray: VideoFrame = prev.to_grayscale(pixel_math);
        let curr_gray: VideoFrame = curr.to_grayscale(pixel_math);
        if prev_gray.width != curr_gray.width || prev_gray.height != curr_gray.height {
            return Err(
                IoError::ConfigError("Frame dimensions must match for optical flow".to_owned()),
            );
        }
        let flow: OpticalFlow = match self.method {
            OpticalFlowMethod::DenseGradient => self.compute_dense_gradient(
                math,
                &prev_gray,
                &curr_gray,
            ),
            OpticalFlowMethod::BlockMatching => self.compute_block_matching(
                math,
                &prev_gray,
                &curr_gray,
            ),
            OpticalFlowMethod::LucasKanade => self.compute_lucas_kanade(
                math,
                &prev_gray,
                &curr_gray,
            ),
        };
        assert(prev.turns_gray(pixel_math, &prev_gray));
        assert(curr.turns_gray(pixel_math, &curr_gray));
        Ok(flow)
    }

    fn compute_dense_gradient<F: FlowMath>(
        &self,
        math: &F,
        prev: &VideoFrame,
        curr: &VideoFrame,
    ) -> (r: OpticalFlow)
        requires
            are_pair(*prev, *curr),
            prev.width >= 1,
            prev.height >= 1,
        ensures
            is_flow(
                math,
                OpticalFlowMethod::DenseGradient,
                self.window(),
                *prev,
                *curr,
                r,
            ),
    {
        let w: usize = prev.width;
        let h: usize = prev.height;
        let n: usize = prev.data.len();
        let mut xs: Vec<Single> = Vec::new();
        let mut ys: Vec<Single> = Vec::new();
        let mut k: usize = 0;
        while k < n
            invariant
                k <= n,
                n == w * h,
                w == prev.width,
                h == prev.height,
                w >= 1,
                h >= 1,
                are_pair(*prev, *curr),
                xs@.len() == k,
                ys@.len() == k,
                forall|i: int|
                    0 <= i < k ==> is_drift_at(
                        math,
                        *prev,
                        *curr,
                        i,
                        #[trigger] xs@[i],
                        ys@[i],
                    ),
            decreases n - k,
        {
            proof {
                crate::io::video::place_parts(w as int, h as int, k as int);
            }
            let x: usize = k % w;
            let y: usize = k / w;
            let mut u: Single = Single::zero();
            let mut v: Single = Single::zero();
            if x >= 1 && x < w - 1 && y >= 1 && y < h - 1 {
                let g: Gradient = gradient(prev, curr, x, y);
                let motion: (Single, Single) = drift(math, g);
                u = motion.0;
                v = motion.1;
            }
            assert(is_drift_at(math, *prev, *curr, k as int, u, v));
            xs.push(u);
            ys.push(v);
            k += 1;
        }
        proof {
            assert(w * h == h * w) by (nonlinear_arith);
        }
        OpticalFlow::new(math, table(h, w, xs), table(h, w, ys))
    }

    fn compute_lucas_kanade<F: FlowMath>(
        &self,
        math: &F,
        prev: &VideoFrame,
        curr: &VideoFrame,
    ) -> (r: OpticalFlow)
        requires
            are_pair(*prev, *curr),
            self.window() / 2 <= prev.width,
            self.window() / 2 <= prev.height,
        ensures
            is_flow(math, OpticalFlowMethod::LucasKanade, self.window(), *prev, *curr, r),
    {
        let half: usize = self.window_size / 2;
        let w: usize = prev.width;
        let h: usize = prev.height;
        let n: usize = prev.data.len();
        let mut xs: Vec<Single> = Vec::new();
        let mut ys: Vec<Single> = Vec::new();
        let mut k: usize = 0;
        while k < n
            invariant
                k <= n,
                n == w * h,
                w == prev.width,
                h == prev.height,
                half <= w,
                half <= h,
                are_pair(*prev, *curr),
                xs@.len() == k,
                ys@.len() == k,
                forall|i: int|
                    0 <= i < k ==> is_traced_at(
                        math,
                        *prev,
                        *curr,
                        half as int,
                        i,
                        #[trigger] xs@[i],
                        ys@[i],
                    ),
            decreases n - k,
        {
            proof {
                crate::io::video::place_parts(w as int, h as int, k as int);
            }
            let x: usize = k % w;
            let y: usize = k / w;
            let mut u: Single = Single::zero();
            let mut v: Single = Single::zero();
            if half <= x && x < w - half && half <= y && y < h - half {
                let gradients: Vec<Gradient> = gather_gradients(prev, curr, half, x, y);
                let motion: (Single, Single) = solve(math, &gradients);
                u = motion.0;
                v = motion.1;
                assert(is_traced(math, *prev, *curr, half as int, x as int, y as int, u, v));
            }
            assert(is_traced_at(math, *prev, *curr, half as int, k as int, u, v));
            xs.push(u);
            ys.push(v);
            k += 1;
        }
        proof {
            assert(w * h == h * w) by (nonlinear_arith);
        }
        OpticalFlow::new(math, table(h, w, xs), table(h, w, ys))
    }

    fn compute_block_matching<F: FlowMath>(
        &self,
        math: &F,
        prev: &VideoFrame,
        curr: &VideoFrame,
    ) -> (r: OpticalFlow)
        requires
            are_pair(*prev, *curr),
            self.window() > 0,
        ensures
            is_flow(math, OpticalFlowMethod::BlockMatching, self.window(), *prev, *curr, r),
    {
        let size: usize = self.window_size;
        let w: usize = prev.width;
        let h: usize = prev.height;
        let n: usize = prev.data.len();
        let across: usize = count_blocks(w, size);
        let down: usize = count_blocks(h, size);
        proof {
            assert(across * down <= w * h) by (nonlinear_arith)
                requires
                    0 <= across <= w,
                    0 <= down <= h,
            ;
        }
        let blocks: usize = across * down;
        let mut moves: Vec<(isize, isize)> = Vec::new();
        let mut b: usize = 0;
        while b < blocks
            invariant
                b <= blocks,
                blocks == across * down,
                across == blocks_along(w as int, size as int),
                down == blocks_along(h as int, size as int),
                w == prev.width,
                h == prev.height,
                size > 0,
                are_pair(*prev, *curr),
                moves@.len() == b,
                forall|i: int|
                    0 <= i < b ==> is_found(
                        math,
                        *prev,
                        *curr,
                        (i % (across as int)) * size,
                        (i / (across as int)) * size,
                        size as int,
                        #[trigger] moves@[i],
                    ),
            decreases blocks - b,
        {
            proof {
                crate::io::video::place_parts(across as int, down as int, b as int);
                block_fits(w as int, size as int, b as int % across as int);
                block_fits(h as int, size as int, b as int / across as int);
            }
            let bx: usize = (b % across) * size;
            let by: usize = (b / across) * size;
            let found: (isize, isize) = match_block(math, prev, curr, bx, by, size);
            assert(is_found(math, *prev, *curr, bx as int, by as int, size as int, found));
            moves.push(found);
            b += 1;
        }
        let mut xs: Vec<Single> = Vec::new();
        let mut ys: Vec<Single> = Vec::new();
        let mut k: usize = 0;
        while k < n
            invariant
                k <= n,
                n == w * h,
                w == prev.width,
                h == prev.height,
                size > 0,
                blocks == across * down,
                across == blocks_along(w as int, size as int),
                down == blocks_along(h as int, size as int),
                moves@.len() == blocks,
                xs@.len() == k,
                ys@.len() == k,
                forall|i: int|
                    0 <= i < k ==> moves_pixel(
                        math,
                        moves@[block_of(w as int, size as int, i)],
                        #[trigger] xs@[i],
                        ys@[i],
                    ),
            decreases n - k,
        {
            proof {
                crate::io::video::place_parts(w as int, h as int, k as int);
                pixel_has_block(w as int, size as int, k as int % w as int);
                pixel_has_block(h as int, size as int, k as int / w as int);
                crate::io::video::place_fits(
                    across as int,
                    down as int,
                    (k as int % w as int) / size as int,
                    (k as int / w as int) / size as int,
                );
            }
            let at: usize = ((k / w) / size) * across + (k % w) / size;
            let found: (isize, isize) = moves[at];
            xs.push(math.offset(found.0));
            ys.push(math.offset(found.1));
            k += 1;
        }
        proof {
            assert(w * h == h * w) by (nonlinear_arith);
            assert(is_blockwise(
                math,
                *prev,
                *curr,
                size as int,
                moves@,
                xs@,
                ys@,
            ));
        }
        OpticalFlow::new(math, table(h, w, xs), table(h, w, ys))
    }
}

} // verus!
