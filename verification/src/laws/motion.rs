//! Optical flow: what the motions tell of the pixels of both frames.

use crate::exact::Valued;
use crate::io::video::flow::{
    FlowMath, Gradient, OpticalFlow, OpticalFlowMethod, LARGEST_BITS, SMALL_BITS,
};
use crate::io::video::VideoFrame;
use crate::laws::flow::Axis;
use crate::number::Single;
use vstd::prelude::*;

verus! {

/// How much brighter the picture gets from one pixel to the next around a place,
/// in the mean of both frames, or how much brighter a pixel gets from the first
/// frame to the second.
pub open spec fn rise(prev: VideoFrame, curr: VideoFrame, x: int, y: int, axis: Axis) -> real {
    match axis {
        Axis::Row => ((prev.at(x + 1, y) + curr.at(x + 1, y)) - (prev.at(x - 1, y) + curr.at(
            x - 1,
            y,
        ))) as real / 4real,
        Axis::Column => ((prev.at(x, y + 1) + curr.at(x, y + 1)) - (prev.at(x, y - 1) + curr.at(
            x,
            y - 1,
        ))) as real / 4real,
        Axis::Time => (curr.at(x, y) - prev.at(x, y)) as real,
    }
}

/// Whether a pixel gets darker by as much as the picture gets brighter along a
/// motion: what stands there was elsewhere before, against the motion.
pub open spec fn came_along(
    prev: VideoFrame,
    curr: VideoFrame,
    x: int,
    y: int,
    u: real,
    v: real,
) -> bool {
    rise(prev, curr, x, y, Axis::Time) == -(rise(prev, curr, x, y, Axis::Row) * u + rise(
        prev,
        curr,
        x,
        y,
        Axis::Column,
    ) * v)
}

proof fn slopes_are_rises(prev: VideoFrame, curr: VideoFrame, x: int, y: int, axis: Axis)
    ensures
        crate::laws::flow::slope(
            crate::io::video::flow::gradient_at(prev, curr, x, y),
            axis,
        ) == rise(prev, curr, x, y, axis),
{
}

proof fn gradients_come_along(
    prev: VideoFrame,
    curr: VideoFrame,
    half: int,
    x: int,
    y: int,
    u: real,
    v: real,
    n: int,
)
    requires
        0 <= half,
        0 <= n <= (2 * half + 1) * (2 * half + 1),
        forall|wx: int, wy: int|
            x - half <= wx <= x + half && y - half <= wy <= y + half
                && crate::io::video::flow::is_inner(prev, wx, wy) ==> #[trigger] came_along(
                prev,
                curr,
                wx,
                wy,
                u,
                v,
            ),
    ensures
        forall|i: int|
            0 <= i < crate::io::video::flow::gradients_around(prev, curr, half, x, y, n).len()
                ==> crate::laws::flow::carries(
                #[trigger] crate::io::video::flow::gradients_around(
                    prev,
                    curr,
                    half,
                    x,
                    y,
                    n,
                )[i],
                u,
                v,
            ),
    decreases n,
{
    if n > 0 {
        gradients_come_along(prev, curr, half, x, y, u, v, n - 1);
        let side = 2 * half + 1;
        let (c, r) = ((n - 1) % side, (n - 1) / side);
        vstd::arithmetic::div_mod::lemma_fundamental_div_mod(n - 1, side);
        assert(r < side) by (nonlinear_arith)
            requires
                n - 1 == side * r + c,
                n <= side * side,
                0 <= c,
                side > 0,
        ;
        assert(0 <= r) by (nonlinear_arith)
            requires
                n - 1 == side * r + c,
                n >= 1,
                c < side,
                side > 0,
        ;
        let (wx, wy) = (x - half + c, y - half + r);
        let fewer = crate::io::video::flow::gradients_around(prev, curr, half, x, y, n - 1);
        let all = crate::io::video::flow::gradients_around(prev, curr, half, x, y, n);
        if crate::io::video::flow::is_inner(prev, wx, wy) {
            assert(came_along(prev, curr, wx, wy, u, v));
            slopes_are_rises(prev, curr, wx, wy, Axis::Row);
            slopes_are_rises(prev, curr, wx, wy, Axis::Column);
            slopes_are_rises(prev, curr, wx, wy, Axis::Time);
            assert forall|i: int| 0 <= i < all.len() implies crate::laws::flow::carries(
                #[trigger] all[i],
                u,
                v,
            ) by {
                if i < fewer.len() {
                    assert(all[i] == fewer[i]);
                }
            }
        }
    }
}

/// Where all pixels of a window came along a motion of no more than 50 pixels to
/// either side, and the window tells motions apart, that motion is found at its
/// middle.
pub proof fn a_moving_window_is_followed<F: FlowMath>(
    math: &F,
    window_size: usize,
    prev: VideoFrame,
    curr: VideoFrame,
    flow: OpticalFlow,
    x: int,
    y: int,
    a: real,
    b: real,
)
    requires
        crate::laws::flow::flows_exactly(math),
        crate::io::video::flow::is_flow(
            math,
            OpticalFlowMethod::LucasKanade,
            window_size,
            prev,
            curr,
            flow,
        ),
        window_size / 2 <= x < prev.width - window_size / 2,
        window_size / 2 <= y < prev.height - window_size / 2,
        crate::exact::distance(
            crate::laws::flow::determinant(
                crate::io::video::flow::window_gradients(
                    prev,
                    curr,
                    window_size as int / 2,
                    x,
                    y,
                ),
            ),
            0real,
        ) >= 1real / 1000000real,
        -50real <= a <= 50real,
        -50real <= b <= 50real,
        forall|wx: int, wy: int|
            x - window_size / 2 <= wx <= x + window_size / 2 && y - window_size / 2 <= wy <= y
                + window_size / 2 && 1 <= wx < prev.width - 1 && 1 <= wy < prev.height - 1
                ==> #[trigger] came_along(prev, curr, wx, wy, a, b),
    ensures
        flow.flow_x.flat()[y * prev.width + x].value() == a,
        flow.flow_y.flat()[y * prev.width + x].value() == b,
{
    let half = window_size as int / 2;
    let k = y * prev.width + x;
    pixel_place(prev, x, y);
    let (xs, ys) = (flow.flow_x.flat(), flow.flow_y.flat());
    assert(crate::io::video::flow::is_traced_at(math, prev, curr, half, k, xs[k], ys[k]));
    gradients_come_along(prev, curr, half, x, y, a, b, (2 * half + 1) * (2 * half + 1));
    let g = crate::io::video::flow::window_gradients(prev, curr, half, x, y);
    crate::laws::flow::a_common_motion_is_found(math, g, a, b, xs[k], ys[k]);
}

proof fn pixel_place(frame: VideoFrame, x: int, y: int)
    requires
        0 <= x < frame.width,
        0 <= y < frame.height,
    ensures
        0 <= y * frame.width + x < frame.width * frame.height,
        (y * frame.width + x) % (frame.width as int) == x,
        (y * frame.width + x) / (frame.width as int) == y,
{
    let (w, h) = (frame.width as int, frame.height as int);
    vstd::arithmetic::div_mod::lemma_fundamental_div_mod_converse(y * w + x, w, y, x);
    assert(0 <= y * w && y * w + x < w * h) by (nonlinear_arith)
        requires
            0 <= x < w,
            0 <= y < h,
    ;
}

/// The motion that is found from one pixel goes along the steepest way: each part
/// of it, times the square of the steepness and a millionth, is the rise along
/// that part times the change in time, turned round. At the border of the frame
/// nothing moves.
pub proof fn a_pixel_moves_along_the_steepest_way<F: FlowMath>(
    math: &F,
    window_size: usize,
    prev: VideoFrame,
    curr: VideoFrame,
    flow: OpticalFlow,
    x: int,
    y: int,
) -> (little: real)
    requires
        crate::laws::flow::flows_exactly(math),
        crate::io::video::flow::is_flow(
            math,
            OpticalFlowMethod::DenseGradient,
            window_size,
            prev,
            curr,
            flow,
        ),
        0 <= x < prev.width,
        0 <= y < prev.height,
    ensures
        999999real / 1000000000000real < little < 1real / 1000000real,
        1 <= x < prev.width - 1 && 1 <= y < prev.height - 1 ==> {
            let (along, across, time) = (
                rise(prev, curr, x, y, Axis::Row),
                rise(prev, curr, x, y, Axis::Column),
                rise(prev, curr, x, y, Axis::Time),
            );
            let steepness = along * along + across * across + little;
            &&& flow.flow_x.flat()[y * prev.width + x].value() * steepness == -(along * time)
            &&& flow.flow_y.flat()[y * prev.width + x].value() * steepness == -(across * time)
        },
        !(1 <= x < prev.width - 1 && 1 <= y < prev.height - 1)
            ==> flow.flow_x.flat()[y * prev.width + x].value() == 0real
            && flow.flow_y.flat()[y * prev.width + x].value() == 0real,
{
    let k = y * prev.width + x;
    pixel_place(prev, x, y);
    let (u, v) = (flow.flow_x.flat()[k], flow.flow_y.flat()[k]);
    assert(crate::io::video::flow::is_drift_at(math, prev, curr, k, u, v));
    crate::exact::singles_stand_for_reals(u, v);
    crate::exact::singles_stand_for_reals(v, u);
    crate::laws::flow::fifty_and_a_millionth();
    if crate::io::video::flow::is_inner(prev, x, y) {
        let g = crate::io::video::flow::gradient_at(prev, curr, x, y);
        slopes_are_rises(prev, curr, x, y, Axis::Row);
        slopes_are_rises(prev, curr, x, y, Axis::Column);
        slopes_are_rises(prev, curr, x, y, Axis::Time);
        drifts_are_slides(math, g, u, v);
    }
    crate::io::video::flow::number(SMALL_BITS).value()
}

proof fn drifts_are_slides<F: FlowMath>(math: &F, g: Gradient, u: Single, v: Single)
    requires
        crate::laws::flow::flows_exactly(math),
        crate::io::video::flow::is_drift(math, g, u, v),
    ensures
        ({
            let (along, across, time) = (
                crate::laws::flow::slope(g, Axis::Row),
                crate::laws::flow::slope(g, Axis::Column),
                crate::laws::flow::slope(g, Axis::Time),
            );
            let steepness = along * along + across * across + crate::io::video::flow::number(
                SMALL_BITS,
            ).value();
            &&& u.value() * steepness == -(along * time)
            &&& v.value() * steepness == -(across * time)
        }),
{
    let (along, across, time, steepness) = choose|
        along: Single,
        across: Single,
        time: Single,
        steepness: Single,
    |
        {
            &&& #[trigger] crate::io::video::flow::are_slopes(math, g, along, across, time)
            &&& #[trigger] crate::io::video::flow::is_steepness(math, along, across, steepness)
            &&& crate::io::video::flow::is_slide(math, along, time, steepness, u)
            &&& crate::io::video::flow::is_slide(math, across, time, steepness, v)
        };
    crate::laws::flow::fifty_and_a_millionth();
    let (x, y) = (along.value(), across.value());
    assert(x * x >= 0real) by (nonlinear_arith);
    assert(y * y >= 0real) by (nonlinear_arith);
    assert(steepness.value() > 0real);
    slide_is_a_part(math, along, time, steepness, u);
    slide_is_a_part(math, across, time, steepness, v);
}

proof fn slide_is_a_part<F: FlowMath>(
    math: &F,
    slope: Single,
    time: Single,
    steepness: Single,
    r: Single,
)
    requires
        crate::laws::flow::flows_exactly(math),
        steepness.value() != 0real,
        crate::io::video::flow::is_slide(math, slope, time, steepness, r),
    ensures
        r.value() * steepness.value() == -(slope.value() * time.value()),
{
    let p = choose|p: Single| #[trigger]
        call_ensures(F::product, (math, slope, time), p) && call_ensures(
            F::quotient,
            (math, p.negated(), steepness),
            r,
        );
    crate::exact::singles_stand_for_reals(p, p);
}

/// How far the brightness of a pixel of the first frame is from that of the
/// second where it would be after a move.
pub open spec fn gap(prev: VideoFrame, curr: VideoFrame, x: int, y: int, dx: int, dy: int) -> int {
    let d = prev.at(x, y) - curr.at(x + dx, y + dy);
    if d < 0 {
        -d
    } else {
        d
    }
}

/// The gaps of the first pixels of a block that would be in the frame after a
/// move, row by row: how many there are, and what they come to.
pub open spec fn gaps(
    prev: VideoFrame,
    curr: VideoFrame,
    bx: int,
    by: int,
    bw: int,
    dx: int,
    dy: int,
    n: int,
) -> (int, int)
    decreases n,
{
    if n <= 0 {
        (0, 0)
    } else {
        let before = gaps(prev, curr, bx, by, bw, dx, dy, n - 1);
        let (x, y) = (bx + (n - 1) % bw, by + (n - 1) / bw);
        if 0 <= x + dx < prev.width && 0 <= y + dy < prev.height {
            (before.0 + 1, before.1 + gap(prev, curr, x, y, dx, dy))
        } else {
            before
        }
    }
}

/// The lesser of two whole numbers.
pub open spec fn least(a: int, b: int) -> int {
    if a < b {
        a
    } else {
        b
    }
}

/// The gaps of a whole block after a move.
pub open spec fn block_gaps(
    prev: VideoFrame,
    curr: VideoFrame,
    bx: int,
    by: int,
    size: int,
    dx: int,
    dy: int,
) -> (int, int) {
    let bw = least(size, prev.width - bx);
    let bh = least(size, prev.height - by);
    gaps(prev, curr, bx, by, bw, dx, dy, bw * bh)
}

spec fn bytes_sum(s: Seq<u8>, n: int) -> int
    decreases n,
{
    if n <= 0 {
        0
    } else {
        bytes_sum(s, n - 1) + s[n - 1]
    }
}

proof fn bytes_sum_prefix(s: Seq<u8>, x: u8, n: int)
    requires
        n <= s.len(),
    ensures
        bytes_sum(s.push(x), n) == bytes_sum(s, n),
    decreases n,
{
    if n > 0 {
        bytes_sum_prefix(s, x, n - 1);
    }
}

proof fn differences_are_gaps(
    prev: VideoFrame,
    curr: VideoFrame,
    bx: int,
    by: int,
    bw: int,
    dx: int,
    dy: int,
    n: int,
)
    ensures
        ({
            let d = crate::io::video::flow::differences(prev, curr, bx, by, bw, dx, dy, n);
            let g = gaps(prev, curr, bx, by, bw, dx, dy, n);
            d.len() == g.0 && bytes_sum(d, d.len() as int) == g.1
        }),
    decreases n,
{
    if n > 0 {
        differences_are_gaps(prev, curr, bx, by, bw, dx, dy, n - 1);
        let fewer = crate::io::video::flow::differences(prev, curr, bx, by, bw, dx, dy, n - 1);
        let (x, y) = (bx + (n - 1) % bw, by + (n - 1) / bw);
        let g = gap(prev, curr, x, y, dx, dy) as u8;
        bytes_sum_prefix(fewer, g, fewer.len() as int);
    }
}

proof fn wholes_add_up<F: FlowMath>(math: &F, d: Seq<u8>, terms: Seq<Single>, n: int)
    requires
        crate::laws::flow::flows_exactly(math),
        crate::io::video::flow::are_wholes(math, d, terms),
        0 <= n <= d.len(),
    ensures
        crate::exact::sum_of(terms, n) == bytes_sum(d, n) as real,
        0 <= bytes_sum(d, n) <= 255 * n,
    decreases n,
{
    if n > 0 {
        wholes_add_up(math, d, terms, n - 1);
        assert(call_ensures(F::whole, (math, d[n - 1] as i32), terms[n - 1]));
    }
}

proof fn scores_are_means<F: FlowMath>(math: &F, d: Seq<u8>, v: Single)
    requires
        crate::laws::flow::flows_exactly(math),
        0 < d.len() <= usize::MAX,
        crate::io::video::flow::is_score(math, d, Some(v)),
    ensures
        v.sound(),
        v.value() * (d.len() as int as real) == bytes_sum(d, d.len() as int) as real,
        v.value() < 256real,
        v.below(Single { bits: LARGEST_BITS }),
{
    let terms = choose|terms: Seq<Single>| #[trigger]
        crate::io::video::flow::are_wholes(math, d, terms) && crate::arith::is_mean(
            math,
            crate::io::video::flow::number(0),
            terms,
            v,
        );
    let zero = Single { bits: 0 };
    crate::exact::singles_stand_for_reals(zero, zero);
    crate::exact::means_make_up_the_sum(math, zero, terms, v);
    wholes_add_up(math, d, terms, d.len() as int);
    let (x, n) = (v.value(), d.len() as int as real);
    if x >= 256real {
        assert(x * n >= 256real * n) by (nonlinear_arith)
            requires
                x >= 256real,
                n > 0real,
        ;
    }
    vstd::arithmetic::power2::lemma2_to64();
    let bound = Single { bits: 0x4380_0000 };
    crate::exact::single_of_parts(bound, 15, 32768);
    crate::exact::singles_stand_for_reals(v, bound);
}

proof fn no_best_is_largest(scores: Seq<Option<Single>>, n: int)
    ensures
        crate::io::video::flow::best_of(scores, n).1 is None ==> crate::io::video::flow::best_of(
            scores,
            n,
        ).0.bits == LARGEST_BITS,
    decreases n,
{
    if n > 0 {
        no_best_is_largest(scores, n - 1);
    }
}

/// Of all moves that keep a pixel of the block in the frame, the one that is
/// found has the least mean gap between the block and where it would be.
pub proof fn the_closest_block_is_found<F: FlowMath>(
    math: &F,
    prev: VideoFrame,
    curr: VideoFrame,
    bx: int,
    by: int,
    size: int,
    found: (isize, isize),
    ex: int,
    ey: int,
)
    requires
        crate::laws::flow::flows_exactly(math),
        crate::io::video::flow::is_found(math, prev, curr, bx, by, size, found),
        0 < size,
        0 <= bx < prev.width,
        0 <= by < prev.height,
        prev.width * prev.height <= usize::MAX,
        -(size / 2) <= ex <= size / 2,
        -(size / 2) <= ey <= size / 2,
        block_gaps(prev, curr, bx, by, size, ex, ey).0 > 0,
    ensures
        -(size / 2) <= found.0 <= size / 2,
        -(size / 2) <= found.1 <= size / 2,
        ({
            let d = block_gaps(prev, curr, bx, by, size, found.0 as int, found.1 as int);
            let e = block_gaps(prev, curr, bx, by, size, ex, ey);
            &&& d.0 > 0
            &&& d.1 * e.0 <= e.1 * d.0
            &&& e.1 == 0 ==> d.1 == 0
        }),
{
    let scores = choose|scores: Seq<Option<Single>>|
        #[trigger] crate::io::video::flow::is_match(
            math,
            prev,
            curr,
            bx,
            by,
            size,
            scores,
            found,
        );
    let half = size / 2;
    let side = 2 * half + 1;
    let i = (ey + half) * side + (ex + half);
    vstd::arithmetic::div_mod::lemma_fundamental_div_mod_converse(i, side, ey + half, ex + half);
    assert(0 <= i < side * side) by (nonlinear_arith)
        requires
            i == (ey + half) * side + (ex + half),
            0 <= ey + half < side,
            0 <= ex + half < side,
    ;
    let best = crate::io::video::flow::best_of(scores, side * side);
    crate::io::video::flow::best_is_least(scores, side * side);
    no_best_is_largest(scores, side * side);
    block_scores(math, prev, curr, bx, by, size, scores, i);
    let v = scores[i]->0;
    assert(best.1 is Some);
    let at = best.1->0;
    vstd::arithmetic::div_mod::lemma_fundamental_div_mod(at, side);
    assert(0 <= at / side < side) by (nonlinear_arith)
        requires
            at == side * (at / side) + at % side,
            0 <= at % side < side,
            0 <= at < side * side,
    ;
    block_scores(math, prev, curr, bx, by, size, scores, at);
    let w = scores[at]->0;
    crate::exact::singles_stand_for_reals(v, w);
    let d = block_gaps(prev, curr, bx, by, size, found.0 as int, found.1 as int);
    let e = block_gaps(prev, curr, bx, by, size, ex, ey);
    crate::exact::whole_products(d.0, e.1);
    crate::exact::whole_products(e.0, d.1);
    means_compare(w.value(), v.value(), d, e);
    assert(d.1 * e.0 == e.0 * d.1) by (nonlinear_arith);
    assert(e.1 * d.0 == d.0 * e.1) by (nonlinear_arith);
    if e.1 == 0 {
        assert(d.1 == 0) by (nonlinear_arith)
            requires
                d.1 * e.0 <= e.1 * d.0,
                e.1 == 0,
                e.0 > 0,
                d.1 >= 0,
        ;
    }
}

proof fn means_compare(w: real, v: real, d: (int, int), e: (int, int))
    requires
        w <= v,
        d.0 > 0,
        e.0 > 0,
        w * (d.0 as real) == d.1 as real,
        v * (e.0 as real) == e.1 as real,
    ensures
        (e.0 as real) * (d.1 as real) <= (d.0 as real) * (e.1 as real),
{
    let (c, k) = (d.0 as real, e.0 as real);
    crate::laws::algebra::regroups(w, c, k);
    crate::laws::algebra::regroups(v, k, c);
    crate::laws::algebra::commutes(c, k);
    crate::laws::algebra::commutes(w * c, k);
    crate::laws::algebra::commutes(v * k, c);
    assert(c * k > 0real) by (nonlinear_arith)
        requires
            c > 0real,
            k > 0real,
    ;
    if w < v {
        crate::laws::algebra::products_grow(w, v, c * k);
    }
}

proof fn block_scores<F: FlowMath>(
    math: &F,
    prev: VideoFrame,
    curr: VideoFrame,
    bx: int,
    by: int,
    size: int,
    scores: Seq<Option<Single>>,
    i: int,
)
    requires
        crate::laws::flow::flows_exactly(math),
        crate::io::video::flow::are_scores(math, prev, curr, bx, by, size, scores),
        0 < size,
        0 <= bx < prev.width,
        0 <= by < prev.height,
        prev.width * prev.height <= usize::MAX,
        0 <= i < scores.len(),
    ensures
        ({
            let m = crate::io::video::flow::move_at(size / 2, Some(i));
            let e = block_gaps(prev, curr, bx, by, size, m.0, m.1);
            &&& e.1 >= 0
            &&& scores[i] is Some <==> e.0 > 0
            &&& scores[i] is Some ==> {
                &&& scores[i]->0.sound()
                &&& scores[i]->0.value() * (e.0 as real) == e.1 as real
                &&& scores[i]->0.below(Single { bits: LARGEST_BITS })
            }
        }),
{
    let m = crate::io::video::flow::move_at(size / 2, Some(i));
    assert(crate::io::video::flow::scores_move(
        math,
        prev,
        curr,
        bx,
        by,
        size,
        i,
        scores[i],
    ));
    let bw = least(size, prev.width - bx);
    let bh = least(size, prev.height - by);
    let d = crate::io::video::flow::block_differences(prev, curr, bx, by, size, m.0, m.1);
    differences_are_gaps(prev, curr, bx, by, bw, m.0, m.1, bw * bh);
    gaps_are_few(prev, curr, bx, by, bw, m.0, m.1, bw * bh);
    assert(0 <= bw * bh <= prev.width * prev.height) by (nonlinear_arith)
        requires
            0 <= bw <= prev.width,
            0 <= bh <= prev.height,
    ;
    if scores[i] is Some {
        scores_are_means(math, d, scores[i]->0);
    }
}

proof fn gaps_are_few(
    prev: VideoFrame,
    curr: VideoFrame,
    bx: int,
    by: int,
    bw: int,
    dx: int,
    dy: int,
    n: int,
)
    requires
        0 <= n,
    ensures
        0 <= gaps(prev, curr, bx, by, bw, dx, dy, n).0 <= n,
        0 <= gaps(prev, curr, bx, by, bw, dx, dy, n).1,
    decreases n,
{
    if n > 0 {
        gaps_are_few(prev, curr, bx, by, bw, dx, dy, n - 1);
    }
}

/// The motion of a pixel is the move that is found for the block that the pixel
/// is in: to the right and down where the block is found to the right and below.
pub proof fn a_pixel_moves_with_its_block<F: FlowMath>(
    math: &F,
    window_size: usize,
    prev: VideoFrame,
    curr: VideoFrame,
    flow: OpticalFlow,
    x: int,
    y: int,
) -> (found: (isize, isize))
    requires
        crate::laws::flow::flows_exactly(math),
        0 < window_size,
        crate::io::video::flow::is_flow(
            math,
            OpticalFlowMethod::BlockMatching,
            window_size,
            prev,
            curr,
            flow,
        ),
        0 <= x < prev.width,
        0 <= y < prev.height,
    ensures
        crate::io::video::flow::is_found(
            math,
            prev,
            curr,
            x - x % (window_size as int),
            y - y % (window_size as int),
            window_size as int,
            found,
        ),
        flow.flow_x.flat()[y * prev.width + x].value() == found.0 as int as real,
        flow.flow_y.flat()[y * prev.width + x].value() == found.1 as int as real,
{
    let size = window_size as int;
    let (xs, ys) = (flow.flow_x.flat(), flow.flow_y.flat());
    let moves = choose|moves: Seq<(isize, isize)>|
        #[trigger] crate::io::video::flow::is_blockwise(math, prev, curr, size, moves, xs, ys);
    let k = y * prev.width + x;
    pixel_place(prev, x, y);
    let across = crate::io::video::flow::blocks_along(prev.width as int, size);
    let down = crate::io::video::flow::blocks_along(prev.height as int, size);
    let (p, q) = (x / size, y / size);
    in_some_block(prev.width as int, size, x);
    in_some_block(prev.height as int, size, y);
    let b = q * across + p;
    vstd::arithmetic::div_mod::lemma_fundamental_div_mod_converse(b, across, q, p);
    assert(0 <= b < across * down) by (nonlinear_arith)
        requires
            b == q * across + p,
            0 <= p < across,
            0 <= q < down,
    ;
    assert(b == crate::io::video::flow::block_of(prev.width as int, size, k));
    assert(crate::io::video::flow::moves_pixel(math, moves[b], xs[k], ys[k]));
    assert(crate::io::video::flow::is_found(
        math,
        prev,
        curr,
        (b % across) * size,
        (b / across) * size,
        size,
        moves[b],
    ));
    vstd::arithmetic::div_mod::lemma_fundamental_div_mod(x, size);
    vstd::arithmetic::div_mod::lemma_fundamental_div_mod(y, size);
    assert(p * size == size * p) by (nonlinear_arith);
    assert(q * size == size * q) by (nonlinear_arith);
    moves[b]
}

proof fn in_some_block(limit: int, size: int, p: int)
    requires
        0 <= p < limit,
        0 < size,
    ensures
        0 <= p / size < crate::io::video::flow::blocks_along(limit, size),
{
    vstd::arithmetic::div_mod::lemma_div_is_ordered(p + size, limit + size - 1, size);
    vstd::arithmetic::div_mod::lemma_div_plus_one(p, size);
    assert(0 <= p / size) by (nonlinear_arith)
        requires
            0 <= p,
            0 < size,
    ;
}

} // verus!
