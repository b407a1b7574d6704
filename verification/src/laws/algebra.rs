//! Facts on real numbers.

use vstd::prelude::*;

verus! {

/// Factors can be exchanged.
pub proof fn commutes(a: real, b: real)
    ensures
        a * b == b * a,
{
    assert(a * b == b * a) by (nonlinear_arith);
}

/// Factors can be taken together in any order.
pub proof fn regroups(a: real, b: real, c: real)
    ensures
        (a * b) * c == a * (b * c),
{
    assert((a * b) * c == a * (b * c)) by (nonlinear_arith);
}

/// A factor of a sum or of a difference is one of both parts.
pub proof fn spreads(a: real, b: real, c: real)
    ensures
        a * (b + c) == a * b + a * c,
        a * (b - c) == a * b - a * c,
{
    assert(a * (b + c) == a * b + a * c) by (nonlinear_arith);
    assert(a * (b - c) == a * b - a * c) by (nonlinear_arith);
}

/// The sign of a factor is that of the product, and zero stays zero.
pub proof fn signs(a: real, b: real)
    ensures
        (-a) * b == -(a * b),
        a * (-b) == -(a * b),
        0real * a == 0real,
        a * 0real == 0real,
{
    assert((-a) * b == -(a * b)) by (nonlinear_arith);
    assert(a * (-b) == -(a * b)) by (nonlinear_arith);
    assert(0real * a == 0real) by (nonlinear_arith);
    assert(a * 0real == 0real) by (nonlinear_arith);
}

/// A product is zero only where a factor is.
pub proof fn no_zero_product(a: real, b: real)
    requires
        a * b == 0real,
        b != 0real,
    ensures
        a == 0real,
{
    assert(a == 0real) by (nonlinear_arith)
        requires
            a * b == 0real,
            b != 0real,
    ;
}

/// A factor that is not zero can be left out on both sides.
pub proof fn cancels(a: real, b: real, c: real)
    requires
        a * c == b * c,
        c != 0real,
    ensures
        a == b,
{
    commutes(a, c);
    commutes(b, c);
    spreads(c, a, b);
    commutes(c, a - b);
    no_zero_product(a - b, c);
}

/// A sum of two products times a number.
proof fn spread_twice(a: real, p: real, b: real, q: real, d: real)
    ensures
        (a * p + b * q) * d == a * (p * d) + b * (q * d),
{
    commutes(a * p + b * q, d);
    spreads(d, a * p, b * q);
    commutes(d, a * p);
    commutes(d, b * q);
    regroups(a, p, d);
    regroups(b, q, d);
}

/// What is left of two mixed products.
proof fn crossed(xx: real, yy: real, xy: real, r: real, s: real)
    ensures
        xx * (yy * r - xy * s) + xy * (xx * s - xy * r) == r * (xx * yy - xy * xy),
{
    spreads(xx, yy * r, xy * s);
    spreads(xy, xx * s, xy * r);
    regroups(xx, yy, r);
    regroups(xx, xy, s);
    regroups(xy, xx, s);
    commutes(xx, xy);
    regroups(xy, xy, r);
    spreads(r, xx * yy, xy * xy);
    commutes(r, xx * yy);
    commutes(r, xy * xy);
}

/// Two numbers that are found from the determinant solve both equations.
pub proof fn cramer(xx: real, yy: real, xy: real, r: real, s: real, p: real, q: real)
    requires
        xx * yy - xy * xy != 0real,
        p * (xx * yy - xy * xy) == yy * r - xy * s,
        q * (xx * yy - xy * xy) == xx * s - xy * r,
    ensures
        xx * p + xy * q == r,
        xy * p + yy * q == s,
{
    let det = xx * yy - xy * xy;
    spread_twice(xx, p, xy, q, det);
    crossed(xx, yy, xy, r, s);
    cancels(xx * p + xy * q, r, det);
    spread_twice(yy, q, xy, p, det);
    crossed(yy, xx, xy, s, r);
    commutes(xx, yy);
    cancels(yy * q + xy * p, s, det);
}

/// Two equations whose determinant is not zero have one solution.
pub proof fn one_solution(xx: real, yy: real, xy: real, a: real, b: real, p: real, q: real)
    requires
        xx * yy - xy * xy != 0real,
        xx * a + xy * b == xx * p + xy * q,
        xy * a + yy * b == xy * p + yy * q,
    ensures
        a == p,
        b == q,
{
    let det = xx * yy - xy * xy;
    let (d, e) = (a - p, b - q);
    spreads(xx, a, p);
    spreads(xy, b, q);
    spreads(xy, a, p);
    spreads(yy, b, q);
    assert(xx * d + xy * e == 0real);
    assert(xy * d + yy * e == 0real);
    vanishes(xx, yy, xy, d, e);
    no_zero_product(d, det);
    commutes(xx, yy);
    vanishes(yy, xx, xy, e, d);
    no_zero_product(e, det);
}

proof fn vanishes(xx: real, yy: real, xy: real, d: real, e: real)
    requires
        xx * d + xy * e == 0real,
        xy * d + yy * e == 0real,
    ensures
        d * (xx * yy - xy * xy) == 0real,
{
    signs(yy, 0real);
    signs(xy, 0real);
    spreads(yy, xx * d, xy * e);
    spreads(xy, xy * d, yy * e);
    regroups(yy, xx, d);
    commutes(yy, xx);
    regroups(yy, xy, e);
    regroups(xy, xy, d);
    regroups(xy, yy, e);
    commutes(xy, yy);
    spreads(d, xx * yy, xy * xy);
    commutes(d, xx * yy);
    commutes(d, xy * xy);
    assert(yy * (xx * d + xy * e) == 0real);
    assert(xy * (xy * d + yy * e) == 0real);
}

/// A sum of products, carried on by one term.
pub proof fn carried(sx: real, sy: real, s: real, x: real, y: real, u: real, v: real)
    ensures
        -(sx * u + sy * v) + s * -(x * u + y * v) == -((sx + s * x) * u + (sy + s * y) * v),
{
    signs(s, x * u + y * v);
    spreads(s, x * u, y * v);
    regroups(s, x, u);
    regroups(s, y, v);
    commutes(sx + s * x, u);
    spreads(u, sx, s * x);
    commutes(u, sx);
    commutes(u, s * x);
    commutes(sy + s * y, v);
    spreads(v, sy, s * y);
    commutes(v, sy);
    commutes(v, s * y);
}

/// A greater number that is not negative has a greater square.
pub proof fn squares_grow(x: real, y: real)
    requires
        0real <= x,
        x < y,
    ensures
        x * x < y * y,
{
    assert(x * x < y * y) by (nonlinear_arith)
        requires
            0real <= x,
            x < y,
    ;
}

/// A greater number has a greater product with one that is positive.
pub proof fn products_grow(a: real, b: real, n: real)
    requires
        a < b,
        n > 0real,
    ensures
        a * n < b * n,
{
    assert(a * n < b * n) by (nonlinear_arith)
        requires
            a < b,
            n > 0real,
    ;
}

/// Numbers that are not negative compare as many times their squares do.
pub proof fn roots_compare(x: real, y: real, n: real)
    requires
        0real <= x,
        0real <= y,
        n > 0real,
    ensures
        (x * x) * n < (y * y) * n <==> x < y,
        (x * x) * n == (y * y) * n <==> x == y,
{
    if x < y {
        squares_grow(x, y);
        products_grow(x * x, y * y, n);
    } else if y < x {
        squares_grow(y, x);
        products_grow(y * y, x * x, n);
    }
}

/// The square of a product is the product of the squares.
pub proof fn squared_product(x: real, g: real)
    ensures
        (x * g) * (x * g) == (g * g) * (x * x),
{
    regroups(x, g, x * g);
    commutes(x, g);
    regroups(g, g, x);
    commutes(g * g, x);
    regroups(x, x, g * g);
    commutes(x * x, g * g);
    regroups(g, x, g);
    assert(g * (x * g) == (g * g) * x);
    assert(x * (x * (g * g)) == (x * x) * (g * g));
}

} // verus!
