//! Filters on frames.

use crate::arith::{divided, dot, Arithmetic};
use crate::error::IoResult;
use crate::io::video::{PixelMath, VideoFrame};
use crate::number::Single;
use vstd::prelude::*;

verus! {

/// The arithmetic of filters. Nothing is required of what it returns.
pub trait FilterMath: Arithmetic<Single> {
    /// The brightness of a pixel as a number.
    fn level(&self, pixel: u8) -> Single;

    /// The weight of a place of a window by a bell curve around its middle.
    fn bell(&self, x: usize, y: usize, half: usize, sigma: Single) -> Single;

    /// A number rounded to a whole one.
    fn round(&self, x: Single) -> Single;

    /// The whole part of a number between 0 and 255.
    fn pixel(&self, x: Single) -> u8;

    /// The mean of a window of the given width whose pixels add up to `sum`,
    /// rounded.
    fn mean(&self, sum: u32, kernel_size: usize) -> u32;
}

/// The bit pattern of 128.0.
pub const MIDDLE_BITS: u32 = 0x4300_0000;

/// The bit pattern of 255.0.
pub const WHITE_BITS: u32 = 0x437f_0000;

/// The number with a bit pattern.
pub open spec fn number(bits: u32) -> Single {
    Single { bits }
}

/// Whether a pixel can be as bright as a number, as far as pixels go.
pub open spec fn is_shade<F: FilterMath>(math: &F, x: Single, r: u8) -> bool {
    call_ensures(F::pixel, (math, x.clamped(number(0), number(WHITE_BITS))), r)
}

fn shade<F: FilterMath>(math: &F, x: Single) -> (r: u8)
    ensures
        is_shade(math, x, r),
{
    let held: Single = x.clamp(Single::zero(), Single::from_bits(WHITE_BITS));
    assert(held == x.clamped(number(0), number(WHITE_BITS)));
    math.pixel(held)
}

/// Whether a pixel can be another that is made brighter.
pub open spec fn is_brighter<F: FilterMath>(math: &F, pixel: u8, delta: Single, r: u8) -> bool {
    exists|level: Single, x: Single|
        {
            &&& #[trigger] call_ensures(F::level, (math, pixel), level)
            &&& #[trigger] call_ensures(F::sum, (math, level, delta), x)
            &&& is_shade(math, x, r)
        }
}

fn brighten<F: FilterMath>(math: &F, pixel: u8, delta: Single) -> (r: u8)
    ensures
        is_brighter(math, pixel, delta, r),
{
    let level: Single = math.level(pixel);
    assert(call_ensures(F::level, (math, pixel), level));
    let x: Single = math.sum(level, delta);
    assert(call_ensures(F::sum, (math, level, delta), x));
    shade(math, x)
}

/// Whether a pixel can be another that is moved away from the middle.
pub open spec fn is_farther<F: FilterMath>(math: &F, pixel: u8, factor: Single, r: u8) -> bool {
    exists|level: Single, gap: Single, wide: Single, x: Single|
        {
            &&& #[trigger] call_ensures(F::level, (math, pixel), level)
            &&& #[trigger] call_ensures(F::difference, (math, level, number(MIDDLE_BITS)), gap)
            &&& #[trigger] call_ensures(F::product, (math, gap, factor), wide)
            &&& #[trigger] call_ensures(F::sum, (math, wide, number(MIDDLE_BITS)), x)
            &&& is_shade(math, x, r)
        }
}

fn stretch<F: FilterMath>(math: &F, pixel: u8, factor: Single) -> (r: u8)
    ensures
        is_farther(math, pixel, factor, r),
{
    let middle: Single = Single::from_bits(MIDDLE_BITS);
    assert(middle == number(MIDDLE_BITS));
    let level: Single = math.level(pixel);
    assert(call_ensures(F::level, (math, pixel), level));
    let gap: Single = math.difference(level, middle);
    assert(call_ensures(F::difference, (math, level, number(MIDDLE_BITS)), gap));
    let wide: Single = math.product(gap, factor);
    assert(call_ensures(F::product, (math, gap, factor), wide));
    let x: Single = math.sum(wide, middle);
    assert(call_ensures(F::sum, (math, wide, number(MIDDLE_BITS)), x));
    shade(math, x)
}

/// Whether numbers can be the weights of the places of a window by a bell
/// curve, row by row.
pub open spec fn are_bells<F: FilterMath>(
    math: &F,
    size: usize,
    sigma: Single,
    r: Seq<Single>,
) -> bool {
    &&& r.len() == size * size
    &&& forall|i: int|
        0 <= i < r.len() ==> call_ensures(
            F::bell,
            (math, (i % (size as int)) as usize, (i / (size as int)) as usize, size / 2, sigma),
            #[trigger] r[i],
        )
}

fn bells<F: FilterMath>(math: &F, size: usize, sigma: Single) -> (r: Vec<Single>)
    ensures
        are_bells(math, size, sigma, r@),
{
    let half: usize = size / 2;
    let mut out: Vec<Single> = Vec::new();
    let mut y: usize = 0;
    assert(0 * size == 0) by (nonlinear_arith);
    while y < size
        invariant
            y <= size,
            half == size / 2,
            out@.len() == y * size,
            forall|i: int|
                0 <= i < out@.len() ==> call_ensures(
                    F::bell,
                    (math, (i % (size as int)) as usize, (i / (size as int)) as usize, half, sigma),
                    #[trigger] out@[i],
                ),
        decreases size - y,
    {
        let mut x: usize = 0;
        while x < size
            invariant
                x <= size,
                y < size,
                half == size / 2,
                out@.len() == y * size + x,
                forall|i: int|
                    0 <= i < out@.len() ==> call_ensures(
                        F::bell,
                        (
                            math,
                            (i % (size as int)) as usize,
                            (i / (size as int)) as usize,
                            half,
                            sigma,
                        ),
                        #[trigger] out@[i],
                    ),
            decreases size - x,
        {
            proof {
                vstd::arithmetic::div_mod::lemma_fundamental_div_mod_converse(
                    y * size + x,
                    size as int,
                    y as int,
                    x as int,
                );
            }
            out.push(math.bell(x, y, half, sigma));
            x += 1;
        }
        assert(y * size + size == (y + 1) * size) by (nonlinear_arith);
        y += 1;
    }
    out
}

/// Whether numbers can be the weights of a blur: those of a bell curve, each
/// in parts of their sum.
pub open spec fn are_weights<F: FilterMath>(
    math: &F,
    size: usize,
    sigma: Single,
    r: Seq<Single>,
) -> bool {
    exists|raw: Seq<Single>, sum: Single|
        {
            &&& #[trigger] are_bells(math, size, sigma, raw)
            &&& #[trigger] crate::arith::is_total(math, number(0), raw, sum)
            &&& crate::arith::are_divided(math, raw, sum, r)
        }
}

fn weights_of<F: FilterMath>(math: &F, size: usize, sigma: Single) -> (r: Vec<Single>)
    ensures
        are_weights(math, size, sigma, r@),
{
    let raw: Vec<Single> = bells(math, size, sigma);
    let zero: Single = Single::zero();
    assert(zero == number(0));
    let sum: Single = crate::arith::total(math, zero, raw.as_slice());
    assert(are_bells(math, size, sigma, raw@));
    divided(math, raw.as_slice(), sum)
}

/// Whether numbers can be the brightness of pixels.
pub open spec fn are_levels<F: FilterMath>(math: &F, pixels: Seq<u8>, r: Seq<Single>) -> bool {
    &&& r.len() == pixels.len()
    &&& forall|i: int|
        0 <= i < r.len() ==> call_ensures(F::level, (math, pixels[i]), #[trigger] r[i])
}

fn levels<F: FilterMath>(math: &F, pixels: &Vec<u8>) -> (r: Vec<Single>)
    ensures
        are_levels(math, pixels@, r@),
{
    let mut out: Vec<Single> = Vec::new();
    let mut i: usize = 0;
    while i < pixels.len()
        invariant
            i <= pixels@.len(),
            out@.len() == i,
            forall|k: int|
                0 <= k < i ==> call_ensures(F::level, (math, pixels@[k]), #[trigger] out@[k]),
        decreases pixels@.len() - i,
    {
        out.push(math.level(pixels[i]));
        i += 1;
    }
    out
}

/// A filter.
#[derive(Debug, Clone, Copy, PartialEq, Eq, Structural)]
pub enum VideoFilter {
    /// A blur that counts near pixels more.
    GaussianBlur { kernel_size: usize, sigma: Single },
    /// A blur that counts all pixels alike.
    BoxBlur { kernel_size: usize },
    /// The strength of edges, by first differences.
    SobelEdge,
    /// The strength of edges, by second differences.
    LaplacianEdge,
    /// The darkest pixel around.
    Erosion { kernel_size: usize },
    /// The brightest pixel around.
    Dilation { kernel_size: usize },
    /// Each pixel set off from those around.
    Sharpen,
    /// All pixels brighter.
    Brightness { delta: Single },
    /// All pixels further from the middle.
    Contrast { factor: Single },
}

/// The pixels of a window of width `k` around a place, row by row.
pub open spec fn window(frame: VideoFrame, k: int, x: int, y: int) -> Seq<u8> {
    Seq::new((k * k) as nat, |i: int| frame.at(x + i % k - k / 2, y + i / k - k / 2))
}

/// Whether a window of width `k` has room around a place.
pub open spec fn has_window(frame: VideoFrame, k: int, x: int, y: int) -> bool {
    &&& k / 2 <= x < frame.width - k / 2
    &&& k / 2 <= y < frame.height - k / 2
}

/// Whether windows of width `k` can be laid on a frame.
pub open spec fn takes_windows(frame: VideoFrame, k: int) -> bool {
    &&& k / 2 <= frame.width
    &&& k / 2 <= frame.height
    &&& k * k <= usize::MAX
}

fn gather(frame: &VideoFrame, k: usize, x: usize, y: usize) -> (r: Vec<u8>)
    requires
        frame.is_gray(),
        takes_windows(*frame, k as int),
        has_window(*frame, k as int, x as int, y as int),
    ensures
        r@ == window(*frame, k as int, x as int, y as int),
{
    let half: usize = k / 2;
    let n: usize = k * k;
    let mut out: Vec<u8> = Vec::new();
    let mut i: usize = 0;
    while i < n
        invariant
            i <= n,
            n == k * k,
            half == k / 2,
            frame.is_gray(),
            half <= x < frame.width - half,
            half <= y < frame.height - half,
            out@ == window(*frame, k as int, x as int, y as int).take(i as int),
        decreases n - i,
    {
        proof {
            crate::io::video::place_parts(k as int, k as int, i as int);
        }
        let px: usize = (x - half) + i % k;
        let py: usize = (y - half) + i / k;
        out.push(frame.get(px, py));
        i += 1;
        assert(out@ =~= window(*frame, k as int, x as int, y as int).take(i as int));
    }
    assert(out@ =~= window(*frame, k as int, x as int, y as int));
    out
}

/// What a filter makes of the pixels of a window.
pub trait WindowRule {
    /// Whether the rule can be used.
    spec fn usable(&self) -> bool;

    /// The width of the window.
    spec fn width(&self) -> int;

    /// Whether a pixel can come out of a window.
    spec fn yields(&self, pixels: Seq<u8>, r: u8) -> bool;

    /// The width of the window.
    fn size(&self) -> (r: usize)
        ensures
            r == self.width(),
    ;

    /// The pixel that comes out of a window.
    fn apply(&self, pixels: &Vec<u8>) -> (r: u8)
        requires
            self.usable(),
            pixels@.len() == self.width() * self.width(),
        ensures
            self.yields(pixels@, r),
    ;
}

/// Whether a frame can come out of another by a rule: where the window has
/// room a pixel comes out of it, and elsewhere the frame is black.
pub open spec fn is_filtered<R: WindowRule>(rule: &R, frame: VideoFrame, r: VideoFrame) -> bool {
    &&& r.is_gray_like(&frame)
    &&& forall|k: int|
        0 <= k < r.data@.len() ==> {
            let x = k % (frame.width as int);
            let y = k / (frame.width as int);
            if has_window(frame, rule.width(), x, y) {
                rule.yields(window(frame, rule.width(), x, y), #[trigger] r.data@[k])
            } else {
                r.data@[k] == 0
            }
        }
}

fn filter<R: WindowRule>(rule: &R, frame: &VideoFrame) -> (r: VideoFrame)
    requires
        frame.is_gray(),
        rule.usable(),
        takes_windows(*frame, rule.width()),
    ensures
        is_filtered(rule, *frame, r),
{
    let size: usize = rule.size();
    let half: usize = size / 2;
    let w: usize = frame.width;
    let h: usize = frame.height;
    let n: usize = frame.data.len();
    let mut data: Vec<u8> = Vec::new();
    let mut k: usize = 0;
    while k < n
        invariant
            k <= n,
            n == w * h,
            w == frame.width,
            h == frame.height,
            frame.is_gray(),
            rule.usable(),
            size == rule.width(),
            half == size / 2,
            takes_windows(*frame, rule.width()),
            data@.len() == k,
            forall|i: int|
                0 <= i < k ==> {
                    let x = i % (w as int);
                    let y = i / (w as int);
                    if has_window(*frame, rule.width(), x, y) {
                        rule.yields(window(*frame, rule.width(), x, y), #[trigger] data@[i])
                    } else {
                        data@[i] == 0
                    }
                },
        decreases n - k,
    {
        proof {
            crate::io::video::place_parts(w as int, h as int, k as int);
        }
        let x: usize = k % w;
        let y: usize = k / w;
        if half <= x && x < w - half && half <= y && y < h - half {
            let pixels: Vec<u8> = gather(frame, size, x, y);
            data.push(rule.apply(&pixels));
        } else {
            data.push(0);
        }
        k += 1;
    }
    VideoFrame {
        index: frame.index,
        timestamp: frame.timestamp,
        width: w,
        height: h,
        channels: 1,
        data,
    }
}

/// Whether a pixel is the darkest of a window, or white where that is empty.
pub open spec fn is_darkest(pixels: Seq<u8>, r: u8) -> bool {
    &&& forall|i: int| 0 <= i < pixels.len() ==> r <= #[trigger] pixels[i]
    &&& r == 255 || pixels.contains(r)
}

/// Whether a pixel is the brightest of a window, or black where that is empty.
pub open spec fn is_brightest(pixels: Seq<u8>, r: u8) -> bool {
    &&& forall|i: int| 0 <= i < pixels.len() ==> #[trigger] pixels[i] <= r
    &&& r == 0 || pixels.contains(r)
}

/// The darkest pixel of a window.
#[derive(Debug, Clone, Copy)]
pub struct Darkest {
    pub kernel_size: usize,
}

impl WindowRule for Darkest {
    open spec fn usable(&self) -> bool {
        true
    }

    open spec fn width(&self) -> int {
        self.kernel_size as int
    }

    open spec fn yields(&self, pixels: Seq<u8>, r: u8) -> bool {
        is_darkest(pixels, r)
    }

    fn size(&self) -> usize {
        self.kernel_size
    }

    fn apply(&self, pixels: &Vec<u8>) -> u8 {
        let mut best: u8 = 255;
        let mut i: usize = 0;
        while i < pixels.len()
            invariant
                i <= pixels@.len(),
                forall|k: int| 0 <= k < i ==> best <= #[trigger] pixels@[k],
                best == 255 || pixels@.contains(best),
            decreases pixels@.len() - i,
        {
            if pixels[i] < best {
                best = pixels[i];
                assert(pixels@[i as int] == best);
            }
            i += 1;
        }
        best
    }
}

/// The brightest pixel of a window.
#[derive(Debug, Clone, Copy)]
pub struct Brightest {
    pub kernel_size: usize,
}

impl WindowRule for Brightest {
    open spec fn usable(&self) -> bool {
        true
    }

    open spec fn width(&self) -> int {
        self.kernel_size as int
    }

    open spec fn yields(&self, pixels: Seq<u8>, r: u8) -> bool {
        is_brightest(pixels, r)
    }

    fn size(&self) -> usize {
        self.kernel_size
    }

    fn apply(&self, pixels: &Vec<u8>) -> u8 {
        let mut best: u8 = 0;
        let mut i: usize = 0;
        while i < pixels.len()
            invariant
                i <= pixels@.len(),
                forall|k: int| 0 <= k < i ==> #[trigger] pixels@[k] <= best,
                best == 0 || pixels@.contains(best),
            decreases pixels@.len() - i,
        {
            if pixels[i] > best {
                best = pixels[i];
                assert(pixels@[i as int] == best);
            }
            i += 1;
        }
        best
    }
}

/// A number brought into the range of a pixel.
pub open spec fn clamped(v: int) -> u8 {
    if v < 0 {
        0
    } else if v > 255 {
        255
    } else {
        v as u8
    }
}

fn clamp(v: i32) -> (r: u8)
    ensures
        r == clamped(v as int),
{
    if v < 0 {
        0
    } else if v > 255 {
        255
    } else {
        v as u8
    }
}

/// A pixel set off from its four neighbours: `centre` times the pixel less
/// the neighbours.
pub open spec fn set_off(pixels: Seq<u8>, centre: int) -> int {
    centre * pixels[4] - pixels[1] - pixels[3] - pixels[5] - pixels[7]
}

fn offset_of(pixels: &Vec<u8>, centre: i32) -> (r: i32)
    requires
        pixels@.len() == 9,
        0 <= centre <= 5,
    ensures
        r == set_off(pixels@, centre as int),
        -1020 <= r <= 1275,
{
    let p: i32 = pixels[4] as i32;
    assert(0 <= centre * p <= 1275) by (nonlinear_arith)
        requires
            0 <= centre <= 5,
            0 <= p <= 255,
    ;
    centre * p - pixels[1] as i32 - pixels[3] as i32 - pixels[5] as i32 - pixels[7] as i32
}

/// The strength of edges by second differences.
#[derive(Debug, Clone, Copy)]
pub struct Laplacian {}

impl WindowRule for Laplacian {
    open spec fn usable(&self) -> bool {
        true
    }

    open spec fn width(&self) -> int {
        3
    }

    open spec fn yields(&self, pixels: Seq<u8>, r: u8) -> bool {
        let v = set_off(pixels, 4);
        r == clamped(
            if v < 0 {
                -v
            } else {
                v
            },
        )
    }

    fn size(&self) -> usize {
        3
    }

    fn apply(&self, pixels: &Vec<u8>) -> u8 {
        let v: i32 = offset_of(pixels, 4);
        if v < 0 {
            clamp(-v)
        } else {
            clamp(v)
        }
    }
}

/// Each pixel set off from those around.
#[derive(Debug, Clone, Copy)]
pub struct Sharpen {}

impl WindowRule for Sharpen {
    open spec fn usable(&self) -> bool {
        true
    }

    open spec fn width(&self) -> int {
        3
    }

    open spec fn yields(&self, pixels: Seq<u8>, r: u8) -> bool {
        r == clamped(set_off(pixels, 5))
    }

    fn size(&self) -> usize {
        3
    }

    fn apply(&self, pixels: &Vec<u8>) -> u8 {
        clamp(offset_of(pixels, 5))
    }
}

/// How much brighter a window is on the right than on the left.
pub open spec fn slope_x(p: Seq<u8>) -> int {
    p[2] - p[0] + 2 * p[5] - 2 * p[3] + p[8] - p[6]
}

/// How much brighter a window is at the bottom than at the top.
pub open spec fn slope_y(p: Seq<u8>) -> int {
    p[6] - p[0] + 2 * p[7] - 2 * p[1] + p[8] - p[2]
}

/// Whether `r` is the whole part of the square root of `n`, up to 255.
pub open spec fn is_root(n: int, r: u8) -> bool {
    &&& r * r <= n
    &&& r < 255 ==> n < (r + 1) * (r + 1)
}

fn root(n: i32) -> (r: u8)
    requires
        0 <= n,
    ensures
        is_root(n as int, r),
{
    let mut r: u8 = 0;
    while r < 255
        invariant
            r * r <= n,
        decreases 255 - r,
    {
        let next: i32 = r as i32 + 1;
        assert(0 <= next * next <= 65025) by (nonlinear_arith)
            requires
                0 <= next <= 255,
        ;
        if next * next > n {
            return r;
        }
        r += 1;
    }
    r
}

/// The strength of edges by first differences.
#[derive(Debug, Clone, Copy)]
pub struct Sobel {}

impl WindowRule for Sobel {
    open spec fn usable(&self) -> bool {
        true
    }

    open spec fn width(&self) -> int {
        3
    }

    open spec fn yields(&self, pixels: Seq<u8>, r: u8) -> bool {
        is_root(
            slope_x(pixels) * slope_x(pixels) + slope_y(pixels) * slope_y(pixels),
            r,
        )
    }

    fn size(&self) -> usize {
        3
    }

    fn apply(&self, pixels: &Vec<u8>) -> u8 {
        let gx: i32 = pixels[2] as i32 - pixels[0] as i32 + 2 * (pixels[5] as i32) - 2 * (
        pixels[3] as i32) + pixels[8] as i32 - pixels[6] as i32;
        let gy: i32 = pixels[6] as i32 - pixels[0] as i32 + 2 * (pixels[7] as i32) - 2 * (
        pixels[1] as i32) + pixels[8] as i32 - pixels[2] as i32;
        assert(0 <= gx * gx <= 1040400) by (nonlinear_arith)
            requires
                -1020 <= gx <= 1020,
        ;
        assert(0 <= gy * gy <= 1040400) by (nonlinear_arith)
            requires
                -1020 <= gy <= 1020,
        ;
        root(gx * gx + gy * gy)
    }
}

/// The sum of pixels.
pub open spec fn total(pixels: Seq<u8>) -> int
    decreases pixels.len(),
{
    if pixels.len() == 0 {
        0
    } else {
        total(pixels.drop_last()) + pixels.last()
    }
}

/// The sum of pixels is no more than if all were white.
pub proof fn total_bounds(pixels: Seq<u8>)
    ensures
        0 <= total(pixels) <= 255 * pixels.len(),
    decreases pixels.len(),
{
    if pixels.len() > 0 {
        total_bounds(pixels.drop_last());
    }
}

/// Whether a pixel can be the mean of a window, as far as pixels go.
pub open spec fn is_mean_shade<F: FilterMath>(
    math: &F,
    sum: u32,
    kernel_size: usize,
    r: u8,
) -> bool {
    exists|mean: u32| #[trigger]
        call_ensures(F::mean, (math, sum, kernel_size), mean) && r == if mean > 255 {
            255
        } else {
            mean as int
        }
}

/// The mean of a window.
pub struct Mean<'a, F: FilterMath> {
    pub math: &'a F,
    pub kernel_size: usize,
}

impl<'a, F: FilterMath> WindowRule for Mean<'a, F> {
    open spec fn usable(&self) -> bool {
        255 * (self.kernel_size * self.kernel_size) <= u32::MAX
    }

    open spec fn width(&self) -> int {
        self.kernel_size as int
    }

    open spec fn yields(&self, pixels: Seq<u8>, r: u8) -> bool {
        is_mean_shade(self.math, total(pixels) as u32, self.kernel_size, r)
    }

    fn size(&self) -> usize {
        self.kernel_size
    }

    fn apply(&self, pixels: &Vec<u8>) -> u8 {
        let mut sum: u32 = 0;
        let mut i: usize = 0;
        assert(pixels@.take(0) =~= Seq::empty());
        while i < pixels.len()
            invariant
                i <= pixels@.len(),
                255 * pixels@.len() <= u32::MAX,
                sum == total(pixels@.take(i as int)),
            decreases pixels@.len() - i,
        {
            proof {
                let more = pixels@.take(i + 1);
                assert(more.drop_last() =~= pixels@.take(i as int));
                total_bounds(more);
            }
            sum = sum + pixels[i] as u32;
            i += 1;
        }
        assert(pixels@.take(i as int) =~= pixels@);
        let mean: u32 = self.math.mean(sum, self.kernel_size);
        assert(call_ensures(F::mean, (self.math, sum, self.kernel_size), mean));
        if mean > 255 {
            255
        } else {
            mean as u8
        }
    }
}

/// The weighted sum of a window.
pub struct Weighted<'a, F: FilterMath> {
    pub math: &'a F,
    pub kernel_size: usize,
    pub weights: &'a Vec<Single>,
}

/// Whether a pixel can be the weighted sum of pixels, rounded, as far as
/// pixels go.
pub open spec fn is_weighed<F: FilterMath>(
    math: &F,
    pixels: Seq<u8>,
    weights: Seq<Single>,
    r: u8,
) -> bool {
    exists|shades: Seq<Single>, sum: Single, rounded: Single|
        {
            &&& #[trigger] are_levels(math, pixels, shades)
            &&& crate::arith::is_dot(math, number(0), shades, weights, sum)
            &&& #[trigger] call_ensures(F::round, (math, sum), rounded)
            &&& is_shade(math, rounded, r)
        }
}

impl<'a, F: FilterMath> WindowRule for Weighted<'a, F> {
    open spec fn usable(&self) -> bool {
        true
    }

    open spec fn width(&self) -> int {
        self.kernel_size as int
    }

    open spec fn yields(&self, pixels: Seq<u8>, r: u8) -> bool {
        is_weighed(self.math, pixels, self.weights@, r)
    }

    fn size(&self) -> usize {
        self.kernel_size
    }

    fn apply(&self, pixels: &Vec<u8>) -> u8 {
        let shades: Vec<Single> = levels(self.math, pixels);
        let zero: Single = Single::zero();
        assert(zero == number(0));
        let sum: Single = dot(self.math, zero, shades.as_slice(), self.weights.as_slice());
        let rounded: Single = self.math.round(sum);
        assert(are_levels(self.math, pixels@, shades@));
        assert(call_ensures(F::round, (self.math, sum), rounded));
        shade(self.math, rounded)
    }
}

/// An eroded frame is nowhere brighter than the frame, and a dilated one
/// nowhere darker, where the window has room.
pub proof fn erosion_and_dilation_enclose(
    frame: VideoFrame,
    eroded: VideoFrame,
    dilated: VideoFrame,
    kernel_size: usize,
    x: int,
    y: int,
)
    requires
        kernel_size > 0,
        frame.is_gray(),
        is_filtered(&Darkest { kernel_size }, frame, eroded),
        is_filtered(&Brightest { kernel_size }, frame, dilated),
        has_window(frame, kernel_size as int, x, y),
    ensures
        eroded.at(x, y) <= frame.at(x, y) <= dilated.at(x, y),
{
    let k = kernel_size as int;
    let half = k / 2;
    crate::io::video::place_fits(frame.width as int, frame.height as int, x, y);
    let place = y * frame.width + x;
    let pixels = window(frame, k, x, y);
    crate::io::video::place_fits(k, k, half, half);
    assert(pixels[half * k + half] == frame.at(x, y));
    let e = eroded.data@[place];
    let d = dilated.data@[place];
    assert(is_darkest(pixels, e));
    assert(is_brightest(pixels, d));
}

/// The width of the window of a filter; 0 for one that takes each pixel by
/// itself.
pub open spec fn window_width(filter: VideoFilter) -> int {
    match filter {
        VideoFilter::GaussianBlur { kernel_size, .. } => kernel_size as int,
        VideoFilter::BoxBlur { kernel_size } => kernel_size as int,
        VideoFilter::Erosion { kernel_size } => kernel_size as int,
        VideoFilter::Dilation { kernel_size } => kernel_size as int,
        VideoFilter::SobelEdge => 3,
        VideoFilter::LaplacianEdge => 3,
        VideoFilter::Sharpen => 3,
        VideoFilter::Brightness { .. } => 0,
        VideoFilter::Contrast { .. } => 0,
    }
}

/// Whether a filter can be used on a frame.
pub open spec fn can_filter(frame: VideoFrame, filter: VideoFilter) -> bool {
    &&& frame.wf()
    &&& frame.channels == 1 || frame.channels >= 3
    &&& takes_windows(frame, window_width(filter))
    &&& filter matches VideoFilter::BoxBlur { kernel_size } ==> 255 * (kernel_size * kernel_size)
        <= u32::MAX
}

/// Whether each pixel of a frame can come out of the pixel at its place.
pub open spec fn is_brightened<F: FilterMath>(
    math: &F,
    delta: Single,
    frame: VideoFrame,
    r: VideoFrame,
) -> bool {
    &&& r.is_gray_like(&frame)
    &&& forall|k: int|
        0 <= k < r.data@.len() ==> is_brighter(math, frame.data@[k], delta, #[trigger] r.data@[k])
}

/// Whether each pixel of a frame can come out of the pixel at its place.
pub open spec fn is_stretched<F: FilterMath>(
    math: &F,
    factor: Single,
    frame: VideoFrame,
    r: VideoFrame,
) -> bool {
    &&& r.is_gray_like(&frame)
    &&& forall|k: int|
        0 <= k < r.data@.len() ==> is_farther(math, frame.data@[k], factor, #[trigger] r.data@[k])
}

/// Whether a frame can come out of one in shades of grey by a blur.
pub open spec fn is_blurred<F: FilterMath>(
    math: &F,
    kernel_size: usize,
    sigma: Single,
    weights: Vec<Single>,
    gray: VideoFrame,
    r: VideoFrame,
) -> bool {
    &&& are_weights(math, kernel_size, sigma, weights@)
    &&& is_filtered(&Weighted { math, kernel_size, weights: &weights }, gray, r)
}

/// Whether a frame can come out of one in shades of grey by a filter.
pub open spec fn is_made_by<F: FilterMath>(
    math: &F,
    filter: VideoFilter,
    gray: VideoFrame,
    r: VideoFrame,
) -> bool {
    match filter {
        VideoFilter::GaussianBlur { kernel_size, sigma } => exists|weights: Vec<Single>|
            #[trigger] is_blurred(math, kernel_size, sigma, weights, gray, r),
        VideoFilter::BoxBlur { kernel_size } => is_filtered(&Mean { math, kernel_size }, gray, r),
        VideoFilter::SobelEdge => is_filtered(&Sobel {  }, gray, r),
        VideoFilter::LaplacianEdge => is_filtered(&Laplacian {  }, gray, r),
        VideoFilter::Erosion { kernel_size } => is_filtered(&Darkest { kernel_size }, gray, r),
        VideoFilter::Dilation { kernel_size } => is_filtered(&Brightest { kernel_size }, gray, r),
        VideoFilter::Sharpen => is_filtered(&Sharpen {  }, gray, r),
        VideoFilter::Brightness { delta } => is_brightened(math, delta, gray, r),
        VideoFilter::Contrast { factor } => is_stretched(math, factor, gray, r),
    }
}

/// What filters frames.
#[derive(Debug, Clone, Copy)]
pub struct VideoProcessor {}

impl VideoProcessor {
    /// Turns a frame into shades of grey and puts a filter on it.
    pub fn apply_filter<M: PixelMath, F: FilterMath>(
        pixel_math: &M,
        math: &F,
        frame: &VideoFrame,
        filter: VideoFilter,
    ) -> (r: IoResult<VideoFrame>)
        requires
            can_filter(*frame, filter),
        ensures
            r is Ok,
            exists|gray: VideoFrame|
                {
                    &&& #[trigger] frame.turns_gray(pixel_math, &gray)
                    &&& is_made_by(math, filter, gray, r->Ok_0)
                },
    {
        let gray: VideoFrame = frame.to_grayscale(pixel_math);
        assert(frame.turns_gray(pixel_math, &gray));
        let out: VideoFrame = match filter {
            VideoFilter::GaussianBlur { kernel_size, sigma } => Self::gaussian_blur(
                math,
                &gray,
                kernel_size,
                sigma,
            ),
            VideoFilter::BoxBlur { kernel_size } => self::filter(&Mean { math, kernel_size }, &gray),
            VideoFilter::SobelEdge => self::filter(&Sobel {  }, &gray),
            VideoFilter::LaplacianEdge => self::filter(&Laplacian {  }, &gray),
            VideoFilter::Erosion { kernel_size } => self::filter(&Darkest { kernel_size }, &gray),
            VideoFilter::Dilation { kernel_size } => self::filter(
                &Brightest { kernel_size },
                &gray,
            ),
            VideoFilter::Sharpen => self::filter(&Sharpen {  }, &gray),
            VideoFilter::Brightness { delta } => Self::adjust_brightness(math, &gray, delta),
            VideoFilter::Contrast { factor } => Self::adjust_contrast(math, &gray, factor),
        };
        assert(is_made_by(math, filter, gray, out));
        Ok(out)
    }

    fn gaussian_blur<F: FilterMath>(
        math: &F,
        gray: &VideoFrame,
        kernel_size: usize,
        sigma: Single,
    ) -> (r: VideoFrame)
        requires
            gray.is_gray(),
            takes_windows(*gray, kernel_size as int),
        ensures
            exists|weights: Vec<Single>|
                #[trigger] is_blurred(math, kernel_size, sigma, weights, *gray, r),
    {
        let weights: Vec<Single> = weights_of(math, kernel_size, sigma);
        let r: VideoFrame = self::filter(&Weighted { math, kernel_size, weights: &weights }, gray);
        assert(is_blurred(math, kernel_size, sigma, weights, *gray, r));
        r
    }

    fn adjust_brightness<F: FilterMath>(math: &F, gray: &VideoFrame, delta: Single) -> (r:
        VideoFrame)
        requires
            gray.is_gray(),
        ensures
            is_brightened(math, delta, *gray, r),
    {
        let mut data: Vec<u8> = Vec::new();
        let mut k: usize = 0;
        while k < gray.data.len()
            invariant
                k <= gray.data@.len(),
                data@.len() == k,
                forall|i: int|
                    0 <= i < k ==> is_brighter(math, gray.data@[i], delta, #[trigger] data@[i]),
            decreases gray.data@.len() - k,
        {
            data.push(brighten(math, gray.data[k], delta));
            k += 1;
        }
        VideoFrame {
            index: gray.index,
            timestamp: gray.timestamp,
            width: gray.width,
            height: gray.height,
            channels: gray.channels,
            data,
        }
    }

    fn adjust_contrast<F: FilterMath>(math: &F, gray: &VideoFrame, factor: Single) -> (r:
        VideoFrame)
        requires
            gray.is_gray(),
        ensures
            is_stretched(math, factor, *gray, r),
    {
        let mut data: Vec<u8> = Vec::new();
        let mut k: usize = 0;
        while k < gray.data.len()
            invariant
                k <= gray.data@.len(),
                data@.len() == k,
                forall|i: int|
                    0 <= i < k ==> is_farther(math, gray.data@[i], factor, #[trigger] data@[i]),
            decreases gray.data@.len() - k,
        {
            data.push(stretch(math, gray.data[k], factor));
            k += 1;
        }
        VideoFrame {
            index: gray.index,
            timestamp: gray.timestamp,
            width: gray.width,
            height: gray.height,
            channels: gray.channels,
            data,
        }
    }
}

} // verus!
