//! Filters of pictures: what they do to flat, bright, dark and edged places.

use crate::exact::Valued;
use crate::io::video::filter::{
    Brightest, Darkest, FilterMath, Laplacian, Mean, Sharpen, Sobel, VideoFilter, Weighted,
    WindowRule, MIDDLE_BITS, WHITE_BITS,
};
use crate::io::video::VideoFrame;
use crate::number::Single;
use vstd::prelude::*;

verus! {

proof fn middle_of_the_window<R: WindowRule>(
    rule: &R,
    frame: VideoFrame,
    r: VideoFrame,
    x: int,
    y: int,
) -> (middle: int)
    requires
        rule.width() > 0,
        frame.is_gray(),
        crate::io::video::filter::is_filtered(rule, frame, r),
        crate::io::video::filter::has_window(frame, rule.width(), x, y),
    ensures
        ({
            let w = crate::io::video::filter::window(frame, rule.width(), x, y);
            &&& 0 <= middle < w.len()
            &&& w[middle] == frame.at(x, y)
            &&& rule.yields(w, r.at(x, y))
        }),
{
    let k = rule.width();
    let (width, height) = (frame.width as int, frame.height as int);
    let place = y * width + x;
    assert(0 <= place < width * height) by (nonlinear_arith)
        requires
            0 <= x < width,
            0 <= y < height,
            place == y * width + x,
    ;
    vstd::arithmetic::div_mod::lemma_fundamental_div_mod_converse(place, width, y, x);
    assert(r.data@[place] == r.at(x, y));
    let half = k / 2;
    let middle = half * k + half;
    assert(0 <= middle < k * k) by (nonlinear_arith)
        requires
            0 <= half < k,
            middle == half * k + half,
    ;
    vstd::arithmetic::div_mod::lemma_fundamental_div_mod_converse(middle, k, half, half);
    middle
}

/// Erosion makes no pixel brighter, and dilation makes none darker.
pub proof fn erosion_darkens_and_dilation_brightens<F: FilterMath>(
    math: &F,
    kernel_size: usize,
    frame: VideoFrame,
    eroded: VideoFrame,
    dilated: VideoFrame,
    x: int,
    y: int,
)
    requires
        kernel_size > 0,
        frame.is_gray(),
        crate::io::video::filter::is_made_by(
            math,
            VideoFilter::Erosion { kernel_size },
            frame,
            eroded,
        ),
        crate::io::video::filter::is_made_by(
            math,
            VideoFilter::Dilation { kernel_size },
            frame,
            dilated,
        ),
        crate::io::video::filter::has_window(frame, kernel_size as int, x, y),
    ensures
        eroded.at(x, y) <= frame.at(x, y) <= dilated.at(x, y),
{
    let low = middle_of_the_window(&Darkest { kernel_size }, frame, eroded, x, y);
    let high = middle_of_the_window(&Brightest { kernel_size }, frame, dilated, x, y);
    let w = crate::io::video::filter::window(frame, kernel_size as int, x, y);
    assert(eroded.at(x, y) <= w[low]);
    assert(w[high] <= dilated.at(x, y));
}

/// The erosion of a negative is the negative of the dilation.
pub proof fn negatives_trade_erosion_for_dilation(
    kernel_size: usize,
    pixels: Seq<u8>,
    negative: Seq<u8>,
    eroded: u8,
    dilated: u8,
)
    requires
        pixels.len() == negative.len(),
        forall|i: int| 0 <= i < pixels.len() ==> (#[trigger] negative[i]) == 255 - pixels[i],
        (Darkest { kernel_size }).yields(negative, eroded),
        (Brightest { kernel_size }).yields(pixels, dilated),
    ensures
        eroded == 255 - dilated,
{
    if negative.contains(eroded) {
        let i = choose|i: int| 0 <= i < negative.len() && negative[i] == eroded;
        assert(pixels[i] <= dilated);
    }
    if pixels.contains(dilated) {
        let i = choose|i: int| 0 <= i < pixels.len() && pixels[i] == dilated;
        assert(eroded <= negative[i]);
    }
}

/// The strength of an edge between two flat sides is four times the step, as
/// far as pixels go, whichever side is the brighter one; along the edge there
/// is none.
pub proof fn edges_are_as_strong_as_their_step(
    left: u8,
    between: u8,
    right: u8,
    upright: Seq<u8>,
    level: Seq<u8>,
    r: u8,
    q: u8,
)
    requires
        upright == seq![left, between, right, left, between, right, left, between, right],
        level == seq![left, left, left, between, between, between, right, right, right],
        (Sobel {  }).yields(upright, r),
        (Sobel {  }).yields(level, q),
    ensures
        ({
            let step = if left < right {
                right - left
            } else {
                left - right
            };
            &&& 4 * step <= 255 ==> r == 4 * step
            &&& 4 * step > 255 ==> r == 255
        }),
        q == r,
{
    let step = if left < right {
        right - left
    } else {
        left - right
    };
    let d = right - left;
    assert((4 * d) * (4 * d) == 16 * (d * d)) by (nonlinear_arith);
    assert(d * d == step * step) by (nonlinear_arith)
        requires
            d == step || d == -step,
    ;
    assert((4 * step) * (4 * step) == 16 * (step * step)) by (nonlinear_arith);
    assert(crate::io::video::filter::slope_x(upright) == 4 * d);
    assert(crate::io::video::filter::slope_y(upright) == 0);
    assert(crate::io::video::filter::slope_x(level) == 0);
    assert(crate::io::video::filter::slope_y(level) == 4 * d);
    assert(0int * 0int == 0);
    whole_root(4 * step, r);
    whole_root(4 * step, q);
}

proof fn whole_root(n: int, r: u8)
    requires
        0 <= n,
        crate::io::video::filter::is_root(n * n, r),
    ensures
        n <= 255 ==> r == n,
        n > 255 ==> r == 255,
{
    assert(r <= n) by (nonlinear_arith)
        requires
            r * r <= n * n,
            0 <= n,
            0 <= r,
    ;
    if r < 255 {
        assert(n < r + 1) by (nonlinear_arith)
            requires
                n * n < (r + 1) * (r + 1),
                0 <= n,
                0 <= r,
        ;
    }
}

/// Where all pixels around are made brighter by the same, edges stay as strong.
pub proof fn edges_do_not_depend_on_brightness(p: Seq<u8>, q: Seq<u8>, by: int, r: u8, s: u8)
    requires
        p.len() == 9,
        q.len() == 9,
        forall|i: int| 0 <= i < 9 ==> (#[trigger] q[i]) == p[i] + by,
        (Sobel {  }).yields(p, r),
        (Sobel {  }).yields(q, s),
    ensures
        r == s,
{
    let n = crate::io::video::filter::slope_x(p) * crate::io::video::filter::slope_x(p)
        + crate::io::video::filter::slope_y(p) * crate::io::video::filter::slope_y(p);
    assert(crate::io::video::filter::slope_x(q) == crate::io::video::filter::slope_x(p));
    assert(crate::io::video::filter::slope_y(q) == crate::io::video::filter::slope_y(p));
    if r < s {
        assert((r + 1) * (r + 1) <= s * s) by (nonlinear_arith)
            requires
                0 <= r < s,
        ;
    } else if s < r {
        assert((s + 1) * (s + 1) <= r * r) by (nonlinear_arith)
            requires
                0 <= s < r,
        ;
    }
}

/// By second differences there is no edge where the brightness goes up or down
/// evenly, and a spot is as strong as four times what sets it off.
pub proof fn only_bends_are_edges(p: Seq<u8>, r: u8)
    requires
        p.len() == 9,
        (Laplacian {  }).yields(p, r),
    ensures
        p[3] + p[5] == 2 * p[4] && p[1] + p[7] == 2 * p[4] ==> r == 0,
        p[1] == p[3] == p[5] == p[7] && p[1] <= p[4] && 4 * (p[4] - p[1]) <= 255 ==> r == 4 * (p[4]
            - p[1]),
        p[1] == p[3] == p[5] == p[7] && p[4] <= p[1] && 4 * (p[1] - p[4]) <= 255 ==> r == 4 * (p[1]
            - p[4]),
{
}

/// Sharpening leaves a pixel that is the mean of its neighbours as it is, makes
/// a brighter one brighter still and a darker one darker still, as far as
/// pixels go.
pub proof fn sharpening_sets_pixels_off(p: Seq<u8>, r: u8)
    requires
        p.len() == 9,
        (Sharpen {  }).yields(p, r),
    ensures
        4 * p[4] == p[1] + p[3] + p[5] + p[7] ==> r == p[4],
        4 * p[4] > p[1] + p[3] + p[5] + p[7] ==> r > p[4] || r == 255,
        4 * p[4] < p[1] + p[3] + p[5] + p[7] ==> r < p[4] || r == 0,
        p[1] == p[3] == p[5] == p[7] && 0 <= p[4] + 4 * (p[4] - p[1]) <= 255 ==> r == p[4] + 4 * (
        p[4] - p[1]),
{
}

/// A pixel as a real number.
pub open spec fn brightness(pixel: u8) -> real {
    pixel as int as real
}

/// Whether the brightness of a pixel is a number without loss, and a number
/// from black to white gives the pixel below it.
pub open spec fn shows_shades<F: FilterMath>(math: &F) -> bool {
    &&& forall|pixel: u8, r: Single| #[trigger]
        call_ensures(F::level, (math, pixel), r) ==> r.sound() && r.value() == brightness(pixel)
    &&& forall|x: Single, r: u8| #[trigger]
        call_ensures(F::pixel, (math, x), r) && x.sound() && 0real <= x.value() <= 255real
            ==> brightness(r) <= x.value() < brightness(r) + 1real
}

proof fn bounds_of_pixels()
    ensures
        crate::io::video::filter::number(0).value() == 0real,
        crate::io::video::filter::number(0).sound(),
        crate::io::video::filter::number(WHITE_BITS).value() == 255real,
        crate::io::video::filter::number(WHITE_BITS).sound(),
        crate::io::video::filter::number(MIDDLE_BITS).value() == 128real,
{
    let black = crate::io::video::filter::number(0);
    let white = crate::io::video::filter::number(WHITE_BITS);
    let middle = crate::io::video::filter::number(MIDDLE_BITS);
    vstd::arithmetic::power2::lemma2_to64();
    crate::exact::singles_stand_for_reals(black, black);
    assert(black.same_value(black));
    crate::exact::single_of_parts(white, 16, 65536);
    crate::exact::single_of_parts(middle, 16, 65536);
    assert(65536int as real == 65536real);
    assert(white.value() * 65536real == 16711680real);
    assert(middle.value() * 65536real == 8388608real);
}

proof fn shades_are_whole_parts<F: FilterMath>(math: &F, x: Single, r: u8)
    requires
        shows_shades(math),
        x.sound(),
        crate::io::video::filter::is_shade(math, x, r),
    ensures
        x.value() <= 0real ==> r == 0,
        0real <= x.value() <= 255real ==> brightness(r) <= x.value() < brightness(r) + 1real,
        255real <= x.value() ==> r == 255,
{
    bounds_of_pixels();
    let black = crate::io::video::filter::number(0);
    let white = crate::io::video::filter::number(WHITE_BITS);
    crate::exact::singles_stand_for_reals(x, black);
    crate::exact::singles_stand_for_reals(white, x);
    assert(call_ensures(F::pixel, (math, x.clamped(black, white)), r));
    assert(brightness(r) == r as int as real);
}

/// Brightening by a whole number adds it to each pixel, as far as pixels go.
pub proof fn brightening_adds<F: FilterMath>(
    math: &F,
    frame: VideoFrame,
    delta: Single,
    by: int,
    bright: VideoFrame,
    k: int,
)
    requires
        crate::exact::is_exact::<Single, F>(math),
        shows_shades(math),
        delta.value() == by as real,
        crate::io::video::filter::is_made_by(
            math,
            VideoFilter::Brightness { delta },
            frame,
            bright,
        ),
        0 <= k < bright.data@.len(),
    ensures
        frame.data@[k] + by <= 0 ==> bright.data@[k] == 0,
        0 <= frame.data@[k] + by <= 255 ==> bright.data@[k] == frame.data@[k] + by,
        255 <= frame.data@[k] + by ==> bright.data@[k] == 255,
{
    brightened_pixel(math, frame.data@[k], delta, by, bright.data@[k]);
}

proof fn brightened_pixel<F: FilterMath>(math: &F, pixel: u8, delta: Single, by: int, r: u8)
    requires
        crate::exact::is_exact::<Single, F>(math),
        shows_shades(math),
        delta.value() == by as real,
        crate::io::video::filter::is_brighter(math, pixel, delta, r),
    ensures
        pixel + by <= 0 ==> r == 0,
        0 <= pixel + by <= 255 ==> r == pixel + by,
        255 <= pixel + by ==> r == 255,
{
    let (level, x) = choose|level: Single, x: Single|
        {
            &&& #[trigger] call_ensures(F::level, (math, pixel), level)
            &&& #[trigger] call_ensures(F::sum, (math, level, delta), x)
            &&& crate::io::video::filter::is_shade(math, x, r)
        };
    assert(x.value() == brightness(pixel) + by as real);
    assert(brightness(pixel) + by as real == (pixel + by) as real);
    shades_are_whole_parts(math, x, r);
    assert(brightness(r) + 1real == (r + 1) as real);
}

/// Contrast moves each pixel away from the middle by a whole factor, as far as
/// pixels go: one leaves it as it is, zero makes it middling, and a negative
/// factor takes it to the other side.
pub proof fn contrast_stretches_from_the_middle<F: FilterMath>(
    math: &F,
    frame: VideoFrame,
    factor: Single,
    times: int,
    wide: VideoFrame,
    k: int,
)
    requires
        crate::exact::is_exact::<Single, F>(math),
        shows_shades(math),
        factor.value() == times as real,
        crate::io::video::filter::is_made_by(math, VideoFilter::Contrast { factor }, frame, wide),
        0 <= k < wide.data@.len(),
    ensures
        128 + (frame.data@[k] - 128) * times <= 0 ==> wide.data@[k] == 0,
        0 <= 128 + (frame.data@[k] - 128) * times <= 255 ==> wide.data@[k] == 128 + (frame.data@[k]
            - 128) * times,
        255 <= 128 + (frame.data@[k] - 128) * times ==> wide.data@[k] == 255,
        times == 1 ==> wide.data@[k] == frame.data@[k],
        times == 0 ==> wide.data@[k] == 128,
{
    stretched_pixel(math, frame.data@[k], factor, times, wide.data@[k]);
}

proof fn stretched_pixel<F: FilterMath>(
    math: &F,
    pixel: u8,
    factor: Single,
    times: int,
    r: u8,
)
    requires
        crate::exact::is_exact::<Single, F>(math),
        shows_shades(math),
        factor.value() == times as real,
        crate::io::video::filter::is_farther(math, pixel, factor, r),
    ensures
        128 + (pixel - 128) * times <= 0 ==> r == 0,
        0 <= 128 + (pixel - 128) * times <= 255 ==> r == 128 + (pixel - 128) * times,
        255 <= 128 + (pixel - 128) * times ==> r == 255,
        times == 1 ==> r == pixel,
        times == 0 ==> r == 128,
{
    let middle = crate::io::video::filter::number(MIDDLE_BITS);
    let (level, gap, wide, x) = choose|level: Single, gap: Single, wide: Single, x: Single|
        {
            &&& #[trigger] call_ensures(F::level, (math, pixel), level)
            &&& #[trigger] call_ensures(F::difference, (math, level, middle), gap)
            &&& #[trigger] call_ensures(F::product, (math, gap, factor), wide)
            &&& #[trigger] call_ensures(F::sum, (math, wide, middle), x)
            &&& crate::io::video::filter::is_shade(math, x, r)
        };
    bounds_of_pixels();
    assert(gap.value() == (pixel - 128) as real);
    let off = pixel - 128;
    let (a, b) = (off as real, times as real);
    if off < 0 {
        crate::exact::whole_products(-off, times);
        assert((-off) * times == -(off * times)) by (nonlinear_arith);
        assert((-a) * b == -(a * b)) by (nonlinear_arith);
    } else {
        crate::exact::whole_products(off, times);
    }
    assert(wide.value() == ((pixel - 128) * times) as real);
    assert(x.value() == (128 + (pixel - 128) * times) as real);
    shades_are_whole_parts(math, x, r);
    assert(brightness(r) + 1real == (r + 1) as real);
    assert(times == 1 ==> (pixel - 128) * times == pixel - 128) by (nonlinear_arith);
    assert(times == 0 ==> (pixel - 128) * times == 0) by (nonlinear_arith);
}

/// Whether means are rounded to the nearest whole number, whole numbers stay as
/// they are, and all weights of a bell curve count.
pub open spec fn blurs_truly<F: FilterMath>(math: &F) -> bool {
    &&& forall|sum: u32, k: usize, r: u32| #[trigger]
        call_ensures(F::mean, (math, sum, k), r) && k > 0 ==> 2 * (r * (k * k) - sum) <= k * k && 2
            * (sum - r * (k * k)) <= k * k
    &&& forall|x: Single, r: Single, pixel: u8| #[trigger]
        call_ensures(F::round, (math, x), r) && x.value() == #[trigger] brightness(pixel)
            ==> r.sound() && r.value() == x.value()
    &&& forall|x: usize, y: usize, half: usize, sigma: Single, r: Single| #[trigger]
        call_ensures(F::bell, (math, x, y, half, sigma), r) ==> r.value() > 0real
}

proof fn flat_total(w: Seq<u8>, c: u8)
    requires
        forall|i: int| 0 <= i < w.len() ==> (#[trigger] w[i]) == c,
    ensures
        crate::io::video::filter::total(w) == c * w.len(),
    decreases w.len(),
{
    let n = w.len() as int;
    if n > 0 {
        let rest = w.drop_last();
        flat_total(rest, c);
        assert(w[n - 1] == c);
        assert(c * n == c * (n - 1) + c) by (nonlinear_arith);
    } else {
        assert(c * n == 0) by (nonlinear_arith)
            requires
                n == 0,
        ;
    }
}

proof fn flat_mean<F: FilterMath>(math: &F, kernel_size: usize, w: Seq<u8>, c: u8, r: u8)
    requires
        blurs_truly(math),
        kernel_size > 0,
        w.len() == kernel_size * kernel_size,
        255 * (kernel_size * kernel_size) <= u32::MAX,
        forall|i: int| 0 <= i < w.len() ==> (#[trigger] w[i]) == c,
        (Mean { math, kernel_size }).yields(w, r),
    ensures
        r == c,
{
    flat_total(w, c);
    let kk = kernel_size * kernel_size;
    assert(kk > 0) by (nonlinear_arith)
        requires
            kernel_size > 0,
            kk == kernel_size * kernel_size,
    ;
    assert(0 <= c * kk <= 255 * kk) by (nonlinear_arith)
        requires
            0 <= c <= 255,
            kk > 0,
    ;
    let sum = crate::io::video::filter::total(w) as u32;
    assert(sum == c * kk);
    let mean = choose|mean: u32| #[trigger]
        call_ensures(F::mean, (math, sum, kernel_size), mean) && r == if mean > 255 {
            255
        } else {
            mean as int
        };
    let d = mean - c;
    assert(mean * kk - c * kk == d * kk) by (nonlinear_arith)
        requires
            d == mean - c,
    ;
    assert(d == 0) by (nonlinear_arith)
        requires
            2 * (d * kk) <= kk,
            -2 * (d * kk) <= kk,
            kk > 0,
    ;
}

proof fn positive_sum(s: Seq<Single>, n: int)
    requires
        0 <= n <= s.len(),
        forall|i: int| 0 <= i < s.len() ==> (#[trigger] s[i]).value() > 0real,
    ensures
        crate::exact::sum_of(s, n) >= 0real,
        n > 0 ==> crate::exact::sum_of(s, n) > 0real,
    decreases n,
{
    if n > 0 {
        positive_sum(s, n - 1);
        assert(s[n - 1].value() > 0real);
    }
}

proof fn divided_sum(raw: Seq<Single>, r: Seq<Single>, by: real, n: int)
    requires
        0 <= n <= raw.len(),
        r.len() == raw.len(),
        forall|i: int| 0 <= i < r.len() ==> (#[trigger] r[i]).value() * by == raw[i].value(),
    ensures
        crate::exact::sum_of(r, n) * by == crate::exact::sum_of(raw, n),
    decreases n,
{
    if n > 0 {
        divided_sum(raw, r, by, n - 1);
        assert(r[n - 1].value() * by == raw[n - 1].value());
        let (a, b) = (crate::exact::sum_of(r, n - 1), r[n - 1].value());
        crate::laws::algebra::commutes(a + b, by);
        crate::laws::algebra::commutes(a, by);
        crate::laws::algebra::commutes(b, by);
        crate::laws::algebra::spreads(by, a, b);
    } else {
        crate::laws::algebra::signs(by, by);
    }
}

/// The weights of a blur add up to one.
pub proof fn weights_add_up_to_one<F: FilterMath>(
    math: &F,
    size: usize,
    sigma: Single,
    r: Seq<Single>,
)
    requires
        crate::exact::is_exact::<Single, F>(math),
        blurs_truly(math),
        size > 0,
        crate::io::video::filter::are_weights(math, size, sigma, r),
    ensures
        r.len() == size * size,
        crate::exact::sum_of(r, r.len() as int) == 1real,
{
    let zero = crate::io::video::filter::number(0);
    bounds_of_pixels();
    let (raw, sum) = choose|raw: Seq<Single>, sum: Single|
        {
            &&& #[trigger] crate::io::video::filter::are_bells(math, size, sigma, raw)
            &&& #[trigger] crate::arith::is_total(math, zero, raw, sum)
            &&& crate::arith::are_divided(math, raw, sum, r)
        };
    let n = raw.len() as int;
    assert(n > 0) by (nonlinear_arith)
        requires
            n == size * size,
            size > 0,
    ;
    assert forall|i: int| 0 <= i < raw.len() implies (#[trigger] raw[i]).value() > 0real by {
        assert(call_ensures(
            F::bell,
            (math, (i % (size as int)) as usize, (i / (size as int)) as usize, size / 2, sigma),
            raw[i],
        ));
    }
    crate::exact::totals_are_sums(math, zero, raw, sum);
    positive_sum(raw, n);
    let by = sum.value();
    assert forall|i: int| 0 <= i < r.len() implies (#[trigger] r[i]).value() * by
        == raw[i].value() by {
        assert(call_ensures(F::quotient, (math, raw[i], sum), r[i]));
    }
    divided_sum(raw, r, by, n);
    assert(1real * by == by) by (nonlinear_arith);
    crate::laws::algebra::cancels(crate::exact::sum_of(r, n), 1real, by);
}

proof fn flat_weighed<F: FilterMath>(
    math: &F,
    kernel_size: usize,
    sigma: Single,
    weights: Seq<Single>,
    w: Seq<u8>,
    c: u8,
    r: u8,
)
    requires
        crate::exact::is_exact::<Single, F>(math),
        shows_shades(math),
        blurs_truly(math),
        kernel_size > 0,
        w.len() == kernel_size * kernel_size,
        forall|i: int| 0 <= i < w.len() ==> (#[trigger] w[i]) == c,
        crate::io::video::filter::are_weights(math, kernel_size, sigma, weights),
        crate::io::video::filter::is_weighed(math, w, weights, r),
    ensures
        r == c,
{
    let zero = crate::io::video::filter::number(0);
    bounds_of_pixels();
    weights_add_up_to_one(math, kernel_size, sigma, weights);
    let (shades, sum, rounded) = choose|shades: Seq<Single>, sum: Single, rounded: Single|
        {
            &&& #[trigger] crate::io::video::filter::are_levels(math, w, shades)
            &&& crate::arith::is_dot(math, zero, shades, weights, sum)
            &&& #[trigger] call_ensures(F::round, (math, sum), rounded)
            &&& crate::io::video::filter::is_shade(math, rounded, r)
        };
    let b = brightness(c);
    assert forall|i: int| 0 <= i < shades.len() implies (#[trigger] shades[i]).value() == b by {
        assert(w[i] == c);
        assert(call_ensures(F::level, (math, w[i]), shades[i]));
    }
    crate::exact::dots_are_sums_of_products(math, zero, shades, weights, sum);
    crate::laws::distributions::equal_values_come_out(shades, weights, b, w.len() as int);
    assert(b * 1real == b) by (nonlinear_arith);
    assert(sum.value() == brightness(c));
    assert(rounded.value() == brightness(c));
    shades_are_whole_parts(math, rounded, r);
    assert(brightness(r) + 1real == (r + 1) as real);
}

/// Where all pixels around are alike, blurs and sharpening leave them so, and
/// there are no edges.
pub proof fn flat_places_stay_flat<F: FilterMath>(
    math: &F,
    filter: VideoFilter,
    kernel_size: usize,
    sigma: Single,
    frame: VideoFrame,
    r: VideoFrame,
    x: int,
    y: int,
    c: u8,
)
    requires
        crate::exact::is_exact::<Single, F>(math),
        shows_shades(math),
        blurs_truly(math),
        kernel_size > 0,
        255 * (kernel_size * kernel_size) <= u32::MAX,
        kernel_size == 3 || filter == (VideoFilter::GaussianBlur { kernel_size, sigma }) || filter
            == (VideoFilter::BoxBlur { kernel_size }),
        filter == (VideoFilter::GaussianBlur { kernel_size, sigma }) || filter == (
        VideoFilter::BoxBlur { kernel_size }) || filter is Sharpen || filter is SobelEdge || filter
            is LaplacianEdge,
        frame.is_gray(),
        crate::io::video::filter::is_made_by(math, filter, frame, r),
        crate::io::video::filter::has_window(frame, kernel_size as int, x, y),
        forall|i: int|
            0 <= i < kernel_size * kernel_size ==> #[trigger] crate::io::video::filter::window(
                frame,
                kernel_size as int,
                x,
                y,
            )[i] == c,
    ensures
        filter is SobelEdge || filter is LaplacianEdge ==> r.at(x, y) == 0,
        filter is Sharpen || filter is GaussianBlur || filter is BoxBlur ==> r.at(x, y) == c,
{
    let w = crate::io::video::filter::window(frame, kernel_size as int, x, y);
    assert(0 <= kernel_size * kernel_size) by (nonlinear_arith);
    assert(w.len() == kernel_size * kernel_size);
    if kernel_size == 3 {
        assert(w.len() == 9);
        assert(w[0] == c && w[1] == c && w[2] == c && w[3] == c && w[4] == c && w[5] == c && w[6]
            == c && w[7] == c && w[8] == c);
    }
    if filter is SobelEdge {
        let _ = middle_of_the_window(&Sobel {  }, frame, r, x, y);
        assert(crate::io::video::filter::is_root(
            crate::io::video::filter::slope_x(w) * crate::io::video::filter::slope_x(w)
                + crate::io::video::filter::slope_y(w) * crate::io::video::filter::slope_y(w),
            r.at(x, y),
        ));
        assert(crate::io::video::filter::slope_x(w) == 0);
        assert(crate::io::video::filter::slope_y(w) == 0);
        assert(0int * 0int == 0) by (nonlinear_arith);
        whole_root(0, r.at(x, y));
    } else if filter is LaplacianEdge {
        let _ = middle_of_the_window(&Laplacian {  }, frame, r, x, y);
    } else if filter is Sharpen {
        let _ = middle_of_the_window(&Sharpen {  }, frame, r, x, y);
    } else if filter is BoxBlur {
        let rule = Mean { math, kernel_size };
        let _ = middle_of_the_window(&rule, frame, r, x, y);
        flat_mean(math, kernel_size, w, c, r.at(x, y));
    } else {
        let weights = choose|weights: Vec<Single>|
            #[trigger] crate::io::video::filter::is_blurred(
                math,
                kernel_size,
                sigma,
                weights,
                frame,
                r,
            );
        let rule = Weighted { math, kernel_size, weights: &weights };
        let _ = middle_of_the_window(&rule, frame, r, x, y);
        flat_weighed(math, kernel_size, sigma, weights@, w, c, r.at(x, y));
    }
}

/// Each filter on windows of three by three pixels makes of a place what its own
/// rule makes of the pixels around.
pub proof fn filters_go_by_their_rules<F: FilterMath>(
    math: &F,
    frame: VideoFrame,
    edges: VideoFrame,
    bends: VideoFrame,
    sharp: VideoFrame,
    x: int,
    y: int,
)
    requires
        frame.is_gray(),
        crate::io::video::filter::has_window(frame, 3, x, y),
        crate::io::video::filter::is_made_by(math, VideoFilter::SobelEdge, frame, edges),
        crate::io::video::filter::is_made_by(math, VideoFilter::LaplacianEdge, frame, bends),
        crate::io::video::filter::is_made_by(math, VideoFilter::Sharpen, frame, sharp),
    ensures
        ({
            let w = crate::io::video::filter::window(frame, 3, x, y);
            &&& w.len() == 9
            &&& w[4] == frame.at(x, y)
            &&& (Sobel {  }).yields(w, edges.at(x, y))
            &&& (Laplacian {  }).yields(w, bends.at(x, y))
            &&& (Sharpen {  }).yields(w, sharp.at(x, y))
        }),
{
    let _ = middle_of_the_window(&Sobel {  }, frame, edges, x, y);
    let _ = middle_of_the_window(&Laplacian {  }, frame, bends, x, y);
    let _ = middle_of_the_window(&Sharpen {  }, frame, sharp, x, y);
}

} // verus!
