//! Analysis and filtering of signals.

use kizzasi::arith::Arithmetic;
use kizzasi::error::IoError;
use kizzasi::io::signal::features::FeatureMath;
use kizzasi::io::signal::filters::{Filter, FirFilter, IirFilter, TapMath};
use kizzasi::io::signal::processor::{
    bandpass_bins, highpass_bins, lowpass_bins, SignalMath, SignalProcessor,
};
use kizzasi::io::signal::quality::{
    MosPredictor, PesqCalculator, PolqaCalculator, QualityMath, QualityMetrics, SnrCalculator,
    StoiCalculator,
};
use kizzasi::io::signal::spectral::{SpectralMath, Spectrogram, WindowMath, WindowType};
use kizzasi::io::signal::timefreq::{
    ChoiWilliams, GaborTransform, ReassignedSpectrogram, STransform, TimeFreqMath, WignerVille,
};
use kizzasi::io::signal::{Bin, Fourier};
use kizzasi::number::{Double, Single};
use oxifft::{Complex, Direction, Flags, Plan};
use rustfft::num_complex::Complex32;
use rustfft::FftPlanner;
use std::f32::consts::PI;

fn single(x: f32) -> Single {
    Single::from_bits(x.to_bits())
}

fn float(x: Single) -> f32 {
    f32::from_bits(x.to_bits())
}

fn double(x: f64) -> Double {
    Double::from_bits(x.to_bits())
}

fn wide(x: Double) -> f64 {
    f64::from_bits(x.to_bits())
}

fn singles(values: &[f32]) -> Vec<Single> {
    values.iter().map(|&x| single(x)).collect()
}

fn floats(values: &[Single]) -> Vec<f32> {
    values.iter().map(|&x| float(x)).collect()
}

fn doubles(values: &[f64]) -> Vec<Double> {
    values.iter().map(|&x| double(x)).collect()
}

fn wides(values: &[Double]) -> Vec<f64> {
    values.iter().map(|&x| wide(x)).collect()
}

#[derive(Debug, Clone, Copy)]
struct Numeric;

fn to_complex(x: Bin) -> Complex32 {
    Complex32::new(float(x.re), float(x.im))
}

fn to_bin(x: Complex32) -> Bin {
    Bin { re: single(x.re), im: single(x.im) }
}

fn transform(bins: &[Bin], direction: Direction) -> Option<Vec<Bin>> {
    let plan = Plan::<f32>::dft_1d(bins.len(), direction, Flags::MEASURE)?;
    let input: Vec<Complex<f32>> =
        bins.iter().map(|x| Complex::new(float(x.re), float(x.im))).collect();
    let mut output = vec![Complex::new(0.0f32, 0.0f32); bins.len()];
    plan.execute(&input, &mut output);
    Some(output.iter().map(|x| Bin { re: single(x.re), im: single(x.im) }).collect())
}

fn bessel_i0(x: f32) -> f32 {
    let quarter = x * x / 4.0;
    let mut term = 1.0f32;
    let mut sum = 1.0f32;
    let mut k = 1.0f32;
    while term > sum * 1e-8 && k < 100.0 {
        term *= quarter / (k * k);
        sum += term;
        k += 1.0;
    }
    sum
}

fn span(size: usize) -> f32 {
    size.wrapping_sub(1) as f32
}

impl Arithmetic<Single> for Numeric {
    fn sum(&self, a: Single, b: Single) -> Single {
        single(float(a) + float(b))
    }

    fn difference(&self, a: Single, b: Single) -> Single {
        single(float(a) - float(b))
    }

    fn product(&self, a: Single, b: Single) -> Single {
        single(float(a) * float(b))
    }

    fn quotient(&self, a: Single, b: Single) -> Single {
        single(float(a) / float(b))
    }

    fn over(&self, a: Single, count: usize) -> Single {
        single(float(a) / count as f32)
    }

    fn root(&self, a: Single) -> Single {
        single(float(a).sqrt())
    }
}

impl Arithmetic<Double> for Numeric {
    fn sum(&self, a: Double, b: Double) -> Double {
        double(wide(a) + wide(b))
    }

    fn difference(&self, a: Double, b: Double) -> Double {
        double(wide(a) - wide(b))
    }

    fn product(&self, a: Double, b: Double) -> Double {
        double(wide(a) * wide(b))
    }

    fn quotient(&self, a: Double, b: Double) -> Double {
        double(wide(a) / wide(b))
    }

    fn over(&self, a: Double, count: usize) -> Double {
        double(wide(a) / count as f64)
    }

    fn root(&self, a: Double) -> Double {
        double(wide(a).sqrt())
    }
}

impl Fourier for Numeric {
    fn forward(&self, signal: &Vec<Bin>) -> Option<Vec<Bin>> {
        transform(signal, Direction::Forward)
    }

    fn backward(&self, spectrum: &Vec<Bin>) -> Option<Vec<Bin>> {
        transform(spectrum, Direction::Backward)
    }
}

impl WindowMath for Numeric {
    fn hann(&self, i: usize, size: usize) -> Single {
        single(0.5 * (1.0 - (2.0 * PI * i as f32 / span(size)).cos()))
    }

    fn hamming(&self, i: usize, size: usize) -> Single {
        single(0.54 - 0.46 * (2.0 * PI * i as f32 / span(size)).cos())
    }

    fn blackman(&self, i: usize, size: usize) -> Single {
        let n = i as f32 / span(size);
        single(0.42 - 0.5 * (2.0 * PI * n).cos() + 0.08 * (4.0 * PI * n).cos())
    }

    fn bartlett(&self, i: usize, size: usize) -> Single {
        let half = span(size) / 2.0;
        single(1.0 - ((i as f32 - half) / half).abs())
    }

    fn height(&self, radius: Single, i: usize, size: usize) -> Single {
        let n = 2.0 * i as f32 / span(size) - 1.0;
        single(float(radius) * (1.0 - n * n).sqrt())
    }

    fn bessel(&self, x: Single) -> Single {
        single(bessel_i0(float(x)))
    }
}

impl SignalMath for Numeric {
    fn real_part(&self, x: Bin, n: usize) -> Single {
        let scale = 1.0 / n as f32;
        single(float(x.re) * scale)
    }

    fn scaled_norm(&self, x: Bin, n: usize) -> Single {
        let scale = 1.0 / n as f32;
        single(to_complex(x).norm() * scale)
    }

    fn norm(&self, x: Bin) -> Single {
        single(to_complex(x).norm())
    }

    fn arg(&self, x: Bin) -> Single {
        single(to_complex(x).arg())
    }

    fn twice(&self, x: Bin) -> Bin {
        to_bin(to_complex(x) * Complex32::new(2.0, 0.0))
    }

    fn bin_of(&self, frequency: Single, sample_rate: Single, n: usize) -> usize {
        (float(frequency) / float(sample_rate) * n as f32) as usize
    }

    fn mean(&self, values: &Vec<Single>) -> Single {
        single(floats(values).iter().sum::<f32>() / values.len() as f32)
    }
}

impl FeatureMath for Numeric {
    fn log10(&self, x: Single) -> Single {
        single(float(x).log10())
    }

    fn ln(&self, x: Single) -> Single {
        single(float(x).ln())
    }

    fn power_of_ten(&self, x: Single) -> Single {
        single(10.0_f32.powf(float(x)))
    }

    fn between(&self, low: Single, high: Single, i: usize, parts: usize) -> Single {
        let low = float(low);
        single(low + (float(high) - low) * i as f32 / parts as f32)
    }

    fn bin_below(&self, frequency: Single, n_fft: usize, sample_rate: Single) -> usize {
        ((n_fft as f32 + 1.0) * float(frequency) / float(sample_rate)).floor() as usize
    }

    fn ramp(&self, part: usize, whole: usize) -> Single {
        single(part as f32 / whole as f32)
    }

    fn cosine(&self, k: usize, i: usize, n: usize) -> Single {
        single((PI * k as f32 * (2.0 * i as f32 + 1.0) / (2.0 * n as f32)).cos())
    }

    fn cosine_scale(&self, n: usize) -> Single {
        single((2.0 / n as f32).sqrt())
    }
}

impl SpectralMath for Numeric {
    fn bin_hz(&self, bin: usize, sample_rate: Single, n_fft: usize) -> Single {
        single(bin as f32 * float(sample_rate) / n_fft as f32)
    }

    fn frame_time(&self, frame: usize, hop_length: usize, sample_rate: Single) -> Single {
        single(frame as f32 * hop_length as f32 / float(sample_rate))
    }

    fn decibels(&self, magnitude: Single, reference: Single) -> Single {
        single(20.0 * (float(magnitude) / float(reference) + 1e-10).log10())
    }
}

impl TapMath for Numeric {
    fn offset(&self, i: usize, num_taps: usize) -> Single {
        single(i as f32 - (num_taps - 1) as f32 / 2.0)
    }

    fn sinc(&self, cutoff: Single, offset: Single) -> Single {
        let n = float(offset);
        single((2.0 * PI * float(cutoff) * n).sin() / (PI * n))
    }

    fn warp(&self, part: Single) -> Single {
        single((PI * float(part)).tan())
    }

    fn sine(&self, angle: Single) -> Single {
        single(float(angle).sin())
    }

    fn cosine(&self, angle: Single) -> Single {
        single(float(angle).cos())
    }
}

impl TimeFreqMath for Numeric {
    fn forward(&self, signal: &Vec<Bin>) -> Vec<Bin> {
        let mut buffer: Vec<Complex32> = signal.iter().map(|&x| to_complex(x)).collect();
        FftPlanner::<f32>::new().plan_fft_forward(buffer.len()).process(&mut buffer);
        buffer.into_iter().map(to_bin).collect()
    }

    fn inverse(&self, spectrum: &Vec<Bin>) -> Vec<Bin> {
        let mut buffer: Vec<Complex32> = spectrum.iter().map(|&x| to_complex(x)).collect();
        FftPlanner::<f32>::new().plan_fft_inverse(buffer.len()).process(&mut buffer);
        buffer.into_iter().map(to_bin).collect()
    }

    fn bell(&self, i: usize, size: usize, sigma: Single) -> Single {
        let sigma = float(sigma);
        let center = (size - 1) as f32 / 2.0;
        let x = i as f32 - center;
        single((-(x * x) / (2.0 * sigma * sigma)).exp())
    }

    fn bell_width(&self, size: usize) -> Single {
        single(size as f32 / 8.0)
    }

    fn norm(&self, x: Bin) -> Single {
        single(to_complex(x).norm())
    }

    fn arg(&self, x: Bin) -> Single {
        single(to_complex(x).arg())
    }

    fn locality(&self, shift: i64, frequency: usize, factor: Single) -> Single {
        let sigma = float(factor) / frequency as f32;
        let shift = shift as f32;
        single((-(shift * shift) * sigma * sigma / 2.0).exp())
    }

    fn nearness(&self, distance: u32, sigma: Single) -> Single {
        let sigma = float(sigma);
        single((-(distance as f32) / (2.0 * sigma * sigma)).exp())
    }

    fn bin_hz(&self, bin: usize, sample_rate: Single, bins: usize) -> Single {
        single(bin as f32 * float(sample_rate) / bins as f32)
    }
}

impl QualityMath for Numeric {
    fn decibels(&self, ratio: Double) -> Double {
        double(10.0 * wide(ratio).log10())
    }

    fn decay(&self, sample_rate: Double) -> Double {
        double((-2.0 * std::f64::consts::PI * 1000.0 / wide(sample_rate)).exp())
    }

    fn blend(&self, decay: Double, before: Double, sample: Double) -> Double {
        let decay = wide(decay);
        double(decay * wide(before) + (1.0 - decay) * wide(sample))
    }

    fn samples_in(&self, sample_rate: Double, millis: u32) -> usize {
        (wide(sample_rate) * (millis as f64 / 1000.0)) as usize
    }

    fn loudness(&self, level: Double) -> Double {
        double(wide(level).powf(0.6))
    }
}

#[test]
fn test_mel_scale() {
    let mel = SignalProcessor::hz_to_mel(&Numeric, single(1000.0));
    assert!((float(mel) - 999.985).abs() < 0.01);
    assert_eq!(float(SignalProcessor::hz_to_mel(&Numeric, single(0.0))), 0.0);
    assert_eq!(float(SignalProcessor::mel_to_hz(&Numeric, single(0.0))), 0.0);

    let hz = SignalProcessor::mel_to_hz(&Numeric, mel);
    assert!((float(hz) - 1000.0).abs() < 0.1);
}

#[test]
fn windows_by_type() {
    let rectangular = SignalProcessor::create_window(&Numeric, WindowType::Rectangular, 3);
    assert_eq!(floats(&rectangular), vec![1.0, 1.0, 1.0]);

    let bartlett = SignalProcessor::create_window(&Numeric, WindowType::Bartlett, 5);
    assert_eq!(floats(&bartlett), vec![0.0, 0.5, 1.0, 0.5, 0.0]);

    let hamming = SignalProcessor::create_window(&Numeric, WindowType::Hamming, 5);
    assert!((float(hamming[0]) - 0.08).abs() < 1e-6);
    assert!((float(hamming[2]) - 1.0).abs() < 1e-6);

    let kaiser =
        SignalProcessor::create_window(&Numeric, WindowType::Kaiser { beta: single(5.0) }, 5);
    assert!((float(kaiser[2]) - 1.0).abs() < 1e-6);
    assert!(float(kaiser[0]) < 0.1);
}

#[test]
fn filter_with_a_leading_coefficient_that_is_no_number() {
    let filter = IirFilter::new(&Numeric, singles(&[1.0]), singles(&[f32::NAN]));
    assert!(filter.is_ok());
    let filter = IirFilter::new(&Numeric, singles(&[1.0]), singles(&[1.1]));
    assert!(filter.is_err());
}

#[test]
fn recursive_filter_carries() {
    let mut filter =
        IirFilter::new(&Numeric, singles(&[1.0, 0.5]), singles(&[1.0, -0.5])).unwrap();
    let out = filter.process(&Numeric, &singles(&[1.0, 0.0, 0.0]));
    assert_eq!(floats(&out), vec![1.0, 1.0, 0.5]);
}

#[test]
fn decibels_are_at_least_the_least() {
    let spectrogram = Spectrogram {
        magnitudes: singles(&[1.0, 0.0]),
        phases: singles(&[0.0, 0.0]),
        num_frames: 1,
        num_bins: 2,
        hop_length: 1,
        sample_rate: single(1.0),
    };
    let db = spectrogram.to_db(&Numeric, single(1.0), single(-80.0));
    assert_eq!(floats(&db), vec![0.0, -80.0]);
    assert_eq!(float(spectrogram.power(&Numeric, 0, 0)), 1.0);
}

// Quality.

#[test]
fn segments_are_kept_between_bounds() {
    let calculator = SnrCalculator::new(1);
    let reference = doubles(&[1.0, 1.0]);
    let degraded = doubles(&[1.0001, 11.0]);
    let snr = calculator.calculate_segmental_snr(&Numeric, &reference, &degraded).unwrap();
    assert_eq!(wide(snr), (35.0 - 10.0) / 2.0);
}

#[test]
fn quality_of_unlike_signals_stays_on_its_scale() {
    let reference = tone(8000.0, 4096);
    let degraded: Vec<Double> = (0..4096).map(|i| double((i % 7) as f64 * 100.0)).collect();
    let pesq = PesqCalculator::new(&Numeric, double(8000.0));
    let score = wide(pesq.calculate(&Numeric, &reference, &degraded).unwrap());
    assert!((1.0..=4.5).contains(&score));
    let stoi = StoiCalculator::new(&Numeric, double(8000.0));
    let score = wide(stoi.calculate(&Numeric, &reference, &degraded).unwrap());
    assert!((0.0..=1.0).contains(&score));
    let polqa = PolqaCalculator::new(&Numeric, double(8000.0));
    let score = wide(polqa.calculate(&Numeric, &reference, &degraded).unwrap());
    assert!((1.0..=5.0).contains(&score));
    let mos = MosPredictor::new(&Numeric, double(8000.0));
    let score = wide(mos.predict(&Numeric, &reference, &degraded).unwrap());
    assert!((1.0..=5.0).contains(&score));
}

#[test]
fn test_snr_perfect() {
    let snr_calc = SnrCalculator::new(256);
    let signal = doubles(&[1.0, 0.5, -0.3, 0.8, -0.1]);

    let snr = snr_calc.calculate_snr(&Numeric, &signal, &signal);
    assert!(snr.is_ok());
    assert!(wide(snr.unwrap()) > 90.0);
}

#[test]
fn test_snr_with_noise() {
    let snr_calc = SnrCalculator::new(256);
    let reference = doubles(&[1.0, 0.5, -0.3, 0.8, -0.1]);
    let degraded = doubles(&[1.01, 0.51, -0.29, 0.81, -0.09]);

    let snr = snr_calc.calculate_snr(&Numeric, &reference, &degraded);
    assert!(snr.is_ok());
    let snr_value = wide(snr.unwrap());
    assert!(snr_value > 0.0 && snr_value < 100.0);
}

fn tone(sample_rate: f64, n: usize) -> Vec<Double> {
    (0..n)
        .map(|i| double((2.0 * std::f64::consts::PI * 440.0 * i as f64 / sample_rate).sin()))
        .collect()
}

#[test]
fn test_stoi_calculation() {
    let stoi_calc = StoiCalculator::new(&Numeric, double(8000.0));
    assert_eq!(stoi_calc.frame_length(), 2048);
    let reference = tone(8000.0, 8000);
    let degraded = reference.clone();

    let stoi = stoi_calc.calculate(&Numeric, &reference, &degraded);
    assert!(stoi.is_ok());
    let stoi_value = wide(stoi.unwrap());
    assert!((0.0..=1.0).contains(&stoi_value));
}

#[test]
fn test_pesq_calculation() {
    let pesq_calc = PesqCalculator::new(&Numeric, double(8000.0));
    assert_eq!(pesq_calc.frame_size(), 256);
    let reference = tone(8000.0, 8000);
    let degraded = reference.clone();

    let pesq = pesq_calc.calculate(&Numeric, &reference, &degraded);
    assert!(pesq.is_ok());
    let pesq_value = wide(pesq.unwrap());
    assert!((1.0..=4.5).contains(&pesq_value));
}

#[test]
fn test_mos_prediction() {
    let mos_predictor = MosPredictor::new(&Numeric, double(8000.0));
    assert!(mos_predictor.is_usable());
    let reference = tone(8000.0, 8000);
    let degraded = reference.clone();

    let mos = mos_predictor.predict(&Numeric, &reference, &degraded);
    assert!(mos.is_ok());
    let mos_value = wide(mos.unwrap());
    assert!((1.0..=5.0).contains(&mos_value));
}

#[test]
fn test_quality_metrics() {
    let mos_predictor = MosPredictor::new(&Numeric, double(8000.0));
    let reference = tone(8000.0, 8000);
    let degraded = reference.clone();

    let metrics = mos_predictor.detailed_metrics(&Numeric, &reference, &degraded);
    assert!(metrics.is_ok());

    let m = metrics.unwrap();
    assert!(wide(m.snr) > 0.0);
    assert!(wide(m.pesq_score) >= 1.0 && wide(m.pesq_score) <= 4.5);
    assert!(wide(m.stoi_score) >= 0.0 && wide(m.stoi_score) <= 1.0);
    assert!(wide(m.mos) >= 1.0 && wide(m.mos) <= 5.0);
}

#[test]
fn test_polqa_calculation() {
    let polqa_calc = PolqaCalculator::new(&Numeric, double(16000.0));
    assert_eq!(polqa_calc.frame_size(), 320);
    let reference = tone(16000.0, 16000);
    let degraded = reference.clone();

    let polqa = polqa_calc.calculate(&Numeric, &reference, &degraded);
    assert!(polqa.is_ok());
    let polqa_value = wide(polqa.unwrap());
    assert!((1.0..=5.0).contains(&polqa_value));
}

fn metrics(mos: f64, stoi: f64) -> QualityMetrics {
    QualityMetrics {
        snr: double(30.0),
        segmental_snr: double(28.0),
        pesq_score: double(4.2),
        stoi_score: double(stoi),
        mos: double(mos),
    }
}

#[test]
fn test_quality_rating() {
    let metrics = metrics(4.3, 0.9);
    assert_eq!(metrics.quality_rating(), "Excellent");
    assert_eq!(metrics.intelligibility_rating(), "Highly Intelligible");
}

#[test]
fn ratings_have_steps() {
    assert_eq!(metrics(3.5, 0.6).quality_rating(), "Good");
    assert_eq!(metrics(3.0, 0.6).quality_rating(), "Fair");
    assert_eq!(metrics(2.0, 0.6).quality_rating(), "Poor");
    assert_eq!(metrics(1.9, 0.6).quality_rating(), "Bad");
    assert_eq!(metrics(1.9, 0.6).intelligibility_rating(), "Intelligible");
    assert_eq!(metrics(1.9, 0.4).intelligibility_rating(), "Partially Intelligible");
    assert_eq!(metrics(1.9, 0.1).intelligibility_rating(), "Unintelligible");
}

#[test]
fn signals_must_match_and_be_long_enough() {
    let calc = SnrCalculator::new(2);
    let short = doubles(&[1.0]);
    let long = doubles(&[1.0, 2.0]);
    assert!(calc.calculate_snr(&Numeric, &short, &long).is_err());
    assert!(calc.calculate_snr(&Numeric, &[], &[]).is_err());
    let segmental = calc.calculate_segmental_snr(&Numeric, &long, &doubles(&[1.1, 2.1]));
    let expected = 10.0 * (5.0f64 / 0.02).log10();
    assert!((wide(segmental.unwrap()) - expected).abs() < 1e-6);
    let weighted =
        calc.calculate_frequency_weighted_snr(&Numeric, &long, &long, double(8000.0));
    assert_eq!(wide(weighted.unwrap()), 100.0);
    let stoi = StoiCalculator::new(&Numeric, double(8000.0));
    assert!(stoi.calculate(&Numeric, &short, &short).is_err());
    let pesq = PesqCalculator::new(&Numeric, double(8000.0));
    assert_eq!(wide(pesq.calculate(&Numeric, &short, &short).unwrap()), 1.0);
}

// Time and frequency.

#[test]
fn test_gabor_transform() {
    let analyzer = GaborTransform::new(single(16000.0));
    let signal = singles(&[1.0; 256]);

    let result = analyzer.compute(&Numeric, &signal, 64, 32, single(8.0));
    assert!(result.is_ok());

    let gabor = result.unwrap();
    assert!(gabor.num_frames > 0);
    assert!(gabor.num_bins > 0);
    assert_eq!(gabor.num_frames, 7);
    assert_eq!(gabor.num_bins, 33);
    assert_eq!(gabor.coefficients.len(), 7 * 33);
    assert!(analyzer.compute(&Numeric, &signal, 0, 32, single(8.0)).is_err());
    assert!(analyzer.compute(&Numeric, &signal, 64, 0, single(8.0)).is_err());
}

#[test]
fn test_gabor_inverse() {
    let analyzer = GaborTransform::new(single(16000.0));
    let signal = singles(&[1.0; 256]);
    let result = analyzer.compute(&Numeric, &signal, 64, 32, single(8.0)).unwrap();

    let reconstructed = analyzer.inverse(&Numeric, &result);
    assert!(reconstructed.is_ok());
    let reconstructed = floats(&reconstructed.unwrap());
    assert_eq!(reconstructed.len(), 256);
    assert!((reconstructed[128] - 1.0).abs() < 1e-3);
}

#[test]
fn test_s_transform() {
    let analyzer = STransform::new(single(16000.0));
    let signal = singles(&[1.0; 64]);

    let result = analyzer.compute(&Numeric, &signal, single(1.0));
    assert!(result.is_ok());
    let result = result.unwrap();
    assert_eq!(result.coefficients.len(), 64 * 64);
    assert!((float(result.magnitude(&Numeric, 3, 0)) - 1.0).abs() < 1e-4);
    assert_eq!(result.to_magnitude(&Numeric).len(), 64 * 64);
}

#[test]
fn test_wigner_ville() {
    let analyzer = WignerVille::new(single(16000.0));
    let signal = singles(&[1.0; 32]);

    let result = analyzer.compute(&Numeric, &signal);
    assert!(result.is_ok());

    let wv = result.unwrap();
    assert_eq!(wv.n_time, 32);
    // At the first time only the sample itself has a partner.
    assert!((float(wv.get(0, 5)) - 1.0).abs() < 1e-5);
    assert_eq!(float(wv.bin_to_hz(&Numeric, 2)), 1000.0);
}

#[test]
fn test_choi_williams() {
    let analyzer = ChoiWilliams::new(single(16000.0), single(0.5));
    let signal = singles(&[1.0; 32]);

    let result = analyzer.compute(&Numeric, &signal);
    assert!(result.is_ok());
    assert_eq!(result.unwrap().values.len(), 32 * 32);
}

#[test]
fn test_reassigned_spectrogram() {
    let analyzer = ReassignedSpectrogram::new(single(16000.0));
    let signal = singles(&[1.0; 256]);

    let result = analyzer.compute(&Numeric, &signal, 64, 32, WindowType::Hann);
    assert!(result.is_ok());
    let result = result.unwrap();
    assert_eq!(result.spectrogram.len(), 7 * 33);
    let weights: f32 = (0..64).map(|i| float(Numeric.hann(i, 64))).sum();
    assert!((float(result.get(0, 0)) - weights).abs() < 1e-3);
}

// Filters.

#[test]
fn fir_filters_weigh_the_latest_samples() {
    let mut filter = FirFilter::new(singles(&[0.5, 0.25])).unwrap();
    let out = filter.process(&Numeric, &singles(&[4.0, 8.0, 0.0]));
    assert_eq!(floats(&out), vec![2.0, 5.0, 2.0]);
    filter.reset();
    assert_eq!(float(filter.process_sample(&Numeric, single(4.0))), 2.0);
    assert_eq!(filter.order(), 1);
    assert!(FirFilter::new(vec![]).is_err());
}

#[test]
fn designed_filters_have_their_coefficients() {
    let average = FirFilter::moving_average(&Numeric, 4).unwrap();
    assert_eq!(floats(average.coeffs()), vec![0.25; 4]);
    assert_eq!(floats(FirFilter::differentiator().unwrap().coeffs()), vec![1.0, -1.0]);
    let low = FirFilter::sinc_lowpass(&Numeric, single(0.1), 21).unwrap();
    assert!((floats(low.coeffs()).iter().sum::<f32>() - 1.0).abs() < 1e-5);
    let high = FirFilter::sinc_highpass(&Numeric, single(0.1), 21).unwrap();
    assert!(floats(high.coeffs()).iter().sum::<f32>().abs() < 1e-5);
    assert!(FirFilter::sinc_lowpass(&Numeric, single(0.5), 21).is_err());
    assert!(FirFilter::sinc_lowpass(&Numeric, single(0.1), 20).is_err());
    assert!(FirFilter::moving_average(&Numeric, 0).is_err());
}

#[test]
fn iir_filters_feed_back() {
    let b = singles(&[1.0]);
    let a = singles(&[1.0, -0.5]);
    let mut filter = IirFilter::new(&Numeric, b, a).unwrap();
    let out = filter.process(&Numeric, &singles(&[1.0, 0.0, 0.0]));
    assert_eq!(floats(&out), vec![1.0, 0.5, 0.25]);
    filter.reset();
    assert_eq!(float(filter.process_sample(&Numeric, single(1.0))), 1.0);
    assert!(IirFilter::new(&Numeric, vec![], singles(&[1.0])).is_err());
    assert!(IirFilter::new(&Numeric, singles(&[1.0]), singles(&[2.0])).is_err());
    assert!(IirFilter::butterworth_lowpass(&Numeric, single(0.7)).is_err());
    assert!(IirFilter::notch(&Numeric, single(0.1), single(0.0)).is_err());
    let mut low = IirFilter::butterworth_lowpass(&Numeric, single(0.1)).unwrap();
    let settled = low.process(&Numeric, &singles(&[1.0; 200]));
    assert!((float(settled[199]) - 1.0).abs() < 1e-3);
    let mut high = IirFilter::butterworth_highpass(&Numeric, single(0.1)).unwrap();
    let settled = high.process(&Numeric, &singles(&[1.0; 200]));
    assert!(float(settled[199]).abs() < 1e-3);
}

// Whole signals.

fn bins(values: &[f32]) -> Vec<Bin> {
    values.iter().map(|&x| Bin::from_real(single(x))).collect()
}

fn reals_of(bins: &[Bin]) -> Vec<f32> {
    bins.iter().map(|b| float(b.re)).collect()
}

#[test]
fn bins_are_kept_or_dropped_by_frequency() {
    let spectrum = bins(&[1.0, 2.0, 3.0, 4.0, 5.0, 6.0]);
    assert_eq!(reals_of(&lowpass_bins(&spectrum, 2)), vec![1.0, 2.0, 0.0, 0.0, 5.0, 6.0]);
    assert_eq!(reals_of(&highpass_bins(&spectrum, 1)), vec![0.0, 2.0, 3.0, 4.0, 5.0, 0.0]);
    assert_eq!(reals_of(&bandpass_bins(&spectrum, 1, 2)), vec![0.0, 2.0, 3.0, 0.0, 5.0, 6.0]);
}

#[test]
fn spectra_are_found_and_turned_back() {
    let processor = SignalProcessor::new(8).with_sample_rate(single(8.0));
    assert_eq!(processor.buffer_size(), 8);
    let signal = singles(&[1.0, 2.0, 3.0, 4.0, 4.0, 3.0, 2.0, 1.0]);
    let spectrum = processor.fft(&Numeric, &signal).unwrap();
    assert!((float(spectrum[0].re) - 20.0).abs() < 1e-4);
    let back = processor.ifft(&Numeric, &Numeric, &spectrum).unwrap();
    for (a, b) in floats(&back).iter().zip(floats(&signal)) {
        assert!((a - b).abs() < 1e-4);
    }
    let power = processor.power_spectrum(&Numeric, &Numeric, &signal).unwrap();
    assert!((float(power[0]) - 400.0).abs() < 1e-2);
    let magnitude = processor.magnitude_spectrum(&Numeric, &Numeric, &signal).unwrap();
    assert!((float(magnitude[0]) - 20.0).abs() < 1e-3);
    assert_eq!(processor.phase_spectrum(&Numeric, &Numeric, &signal).unwrap().len(), 8);
    assert_eq!(processor.envelope(&Numeric, &Numeric, &signal).unwrap().len(), 8);
}

#[test]
fn filters_apply_to_whole_signals() {
    let processor = SignalProcessor::new(4);
    let signal = singles(&[2.0, 4.0, 6.0, 8.0]);
    let apply = |filter| processor.apply_filter(&Numeric, &Numeric, &Numeric, &signal, filter);
    let averaged = apply(Filter::MovingAverage { window: 2 }).unwrap();
    assert_eq!(floats(&averaged), vec![6.0, 3.0, 5.0, 7.0]);
    assert!(matches!(
        apply(Filter::MovingAverage { window: 5 }),
        Err(IoError::SignalError(_))
    ));
    let fir = FirFilter::new(singles(&[1.0, -1.0])).unwrap();
    assert_eq!(floats(&apply(Filter::Fir(fir)).unwrap()), vec![2.0, 2.0, 2.0, 2.0]);
    let all = apply(Filter::LowPass { cutoff: single(44100.0), order: 2 }).unwrap();
    assert!((float(all[3]) - 8.0).abs() < 1e-4);
}

#[test]
fn measures_of_signals() {
    let signal = singles(&[3.0, -4.0, 1.0]);
    assert_eq!(SignalProcessor::zero_crossings(&signal), 2);
    assert_eq!(float(SignalProcessor::peak_to_peak(&Numeric, &signal)), 7.0);
    assert_eq!(
        floats(&SignalProcessor::normalize(&Numeric, &signal)),
        vec![0.75, -1.0, 0.25]
    );
    assert_eq!(floats(&SignalProcessor::remove_dc(&Numeric, &signal)), vec![3.0, -4.0, 1.0]);
    assert_eq!(SignalProcessor::zero_pad_pow2(&signal).len(), 4);
    assert_eq!(SignalProcessor::zero_pad_pow2(&[]).len(), 1);
    let rms = float(SignalProcessor::rms(&Numeric, &singles(&[3.0, 4.0])));
    assert!((rms - 12.5f32.sqrt()).abs() < 1e-6);
    let chunked = float(SignalProcessor::rms_simd(&Numeric, &singles(&[2.0; 11])));
    assert!((chunked - 2.0).abs() < 1e-6);
    assert_eq!(
        floats(&SignalProcessor::normalize_simd(&Numeric, &singles(&[0.0, 0.0]))),
        vec![0.0, 0.0]
    );
    let sums = SignalProcessor::add_simd(&Numeric, &signal, &signal).unwrap();
    assert_eq!(floats(&sums), vec![6.0, -8.0, 2.0]);
    let products = SignalProcessor::multiply_simd(&Numeric, &signal, &signal).unwrap();
    assert_eq!(floats(&products), vec![9.0, 16.0, 1.0]);
    assert!(SignalProcessor::add_simd(&Numeric, &signal, &[]).is_err());
}

#[test]
fn windows_and_spectrograms() {
    let hann = SignalProcessor::create_window(&Numeric, WindowType::Hann, 5);
    assert!((float(hann[2]) - 1.0).abs() < 1e-6);
    assert!(float(hann[0]).abs() < 1e-6);
    let flat = SignalProcessor::create_window(&Numeric, WindowType::Rectangular, 3);
    assert_eq!(floats(&flat), vec![1.0; 3]);
    let weighed =
        SignalProcessor::apply_window_to_frame(&Numeric, &singles(&[2.0; 3]), WindowType::Bartlett);
    assert_eq!(floats(&weighed), vec![0.0, 2.0, 0.0]);
    let processor = SignalProcessor::new(8).with_sample_rate(single(16.0));
    let signal = singles(&[1.0; 16]);
    let spectrogram: Spectrogram = processor
        .spectrogram(&Numeric, &Numeric, &signal, 8, 4, WindowType::Rectangular)
        .unwrap();
    assert_eq!(spectrogram.num_frames, 3);
    assert_eq!(spectrogram.num_bins, 5);
    assert!((float(spectrogram.magnitude(2, 0)) - 8.0).abs() < 1e-4);
    assert!((float(spectrogram.power(&Numeric, 0, 0)) - 64.0).abs() < 1e-3);
    assert_eq!(float(spectrogram.bin_to_hz(&Numeric, 1, 8)), 2.0);
    assert_eq!(float(spectrogram.frame_to_time(&Numeric, 2)), 0.5);
    let db = spectrogram.to_db(&Numeric, single(8.0), single(-80.0));
    assert!(float(db[0]).abs() < 1e-3);
    let too_long =
        processor.spectrogram(&Numeric, &Numeric, &signal, 32, 4, WindowType::Hann);
    assert!(matches!(too_long, Err(IoError::SignalError(_))));
    let no_hop = processor.spectrogram(&Numeric, &Numeric, &signal, 8, 0, WindowType::Hann);
    assert!(no_hop.is_err());
}

#[test]
fn cepstra_of_frames() {
    let bank = SignalProcessor::mel_filterbank(
        &Numeric,
        4,
        64,
        single(8000.0),
        single(0.0),
        single(4000.0),
    )
    .unwrap();
    assert_eq!(bank.len(), 4);
    assert_eq!(bank[0].len(), 33);
    assert!(floats(&bank[0]).iter().all(|w| (0.0..=1.0).contains(w)));
    assert!(floats(&bank[3]).iter().any(|&w| w == 1.0));
    let processor = SignalProcessor::new(64).with_sample_rate(single(8000.0));
    let signal: Vec<Single> = (0..256).map(|i| single((i as f32 * 0.3).sin())).collect();
    let mfcc =
        processor.mfcc(&Numeric, &Numeric, &Numeric, &signal, 3, 64, 32, 4).unwrap().unwrap();
    assert_eq!(mfcc.len(), 7);
    assert_eq!(mfcc[0].len(), 3);
}
