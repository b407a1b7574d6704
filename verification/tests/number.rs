//! Numbers held by their bit patterns, and sums of them.

use kizzasi::arith::{dot, mean, root_mean_square, total, Arithmetic};
use kizzasi::number::{Double, Single};

fn single(x: f32) -> Single {
    Single::from_bits(x.to_bits())
}

fn float(x: Single) -> f32 {
    f32::from_bits(x.to_bits())
}

fn double(x: f64) -> Double {
    Double::from_bits(x.to_bits())
}

const NUMBERS: [f32; 9] =
    [-1.5, -0.0, 0.0, 1e-40, 1.0, 2.5, f32::INFINITY, f32::NEG_INFINITY, f32::NAN];

#[test]
fn single_comparisons() {
    for a in NUMBERS {
        for b in NUMBERS {
            assert_eq!(single(a).less(single(b)), a < b);
            assert_eq!(single(a).equals(single(b)), a == b);
            assert_eq!(single(a).at_most(single(b)), a <= b);
            assert_eq!(double(a as f64).less(double(b as f64)), a < b);
            assert_eq!(double(a as f64).equals(double(b as f64)), a == b);
        }
        assert_eq!(single(a).is_nan(), a.is_nan());
        assert_eq!(single(a).abs().to_bits(), a.abs().to_bits());
        assert_eq!(single(a).neg().to_bits(), (-a).to_bits());
        assert_eq!(double(a as f64).abs().to_bits(), (a as f64).abs().to_bits());
    }
}

#[test]
fn numbers_are_kept_inside_bounds() {
    for a in NUMBERS {
        let held = float(single(a).clamp(single(-1.0), single(1.0)));
        assert_eq!(held.to_bits(), a.clamp(-1.0, 1.0).to_bits());
        let held = double(a as f64).clamp(double(-1.0), double(1.0));
        assert_eq!(held.to_bits(), (a as f64).clamp(-1.0, 1.0).to_bits());
    }
    assert_eq!(float(single(1.0).max(single(2.0))), 2.0);
    assert_eq!(float(single(f32::NAN).max(single(2.0))), 2.0);
    assert_eq!(float(single(2.0).min(single(f32::NAN))), 2.0);
    assert_eq!(double(1.0).min(double(2.0)).to_bits(), 1.0f64.to_bits());
    assert_eq!(double(1.0).max(double(f64::NAN)).to_bits(), 1.0f64.to_bits());
}

struct Floats;

impl Arithmetic<Single> for Floats {
    fn sum(&self, a: Single, b: Single) -> Single {
        single(float(a) + float(b))
    }

    fn difference(&self, a: Single, b: Single) -> Single {
        single(float(a) - float(b))
    }

    fn product(&self, a: Single, b: Single) -> Single {
        single(float(a) * float(b))
    }

    fn quotient(&self, a: Single, b: Single) -> Single {
        single(float(a) / float(b))
    }

    fn over(&self, a: Single, count: usize) -> Single {
        single(float(a) / count as f32)
    }

    fn root(&self, a: Single) -> Single {
        single(float(a).sqrt())
    }
}

#[test]
fn sums_are_taken_in_order() {
    let terms: Vec<Single> = [1e8, 1.0, -1e8].iter().map(|&x| single(x)).collect();
    assert_eq!(float(total(&Floats, Single::zero(), &terms)), (1e8f32 + 1.0) - 1e8);

    let values: Vec<Single> = [3.0, 4.0].iter().map(|&x| single(x)).collect();
    assert_eq!(float(dot(&Floats, Single::zero(), &values, &values)), 25.0);
    assert_eq!(float(mean(&Floats, Single::zero(), &values)), 3.5);
    assert_eq!(float(root_mean_square(&Floats, Single::zero(), &values)), 12.5f32.sqrt());
}
