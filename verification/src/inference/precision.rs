//! Inference in reduced precision.

use crate::error::{InferenceError, InferenceResult};
use crate::matrix::Matrix;
use crate::number::{Double, Single};
use crate::samples::copy_samples;
use crate::text::join;
use vstd::prelude::*;

verus! {

/// The conversions between precisions, and the arithmetic on errors. Values of
/// sixteen bits are held by their bit patterns. Nothing is required of what
/// the operations return.
pub trait PrecisionMath {
    /// The nearest half-precision value.
    fn to_half(&self, x: Single) -> u16;

    /// The value of a half-precision value.
    fn from_half(&self, x: u16) -> Single;

    /// The nearest brain-float value.
    fn to_brain(&self, x: Single) -> u16;

    /// The value of a brain-float value.
    fn from_brain(&self, x: u16) -> Single;

    /// The part of a size that a factor saves, `size * (1 - factor)`.
    fn saved(&self, size: usize, factor: Single) -> usize;

    /// The mean of `n` values, where `mean` is that of all but the last,
    /// `(mean * (n - 1) + last) / n`.
    fn running_mean(&self, mean: Double, n: usize, last: Double) -> Double;
}

/// The precision that is computed in.
#[derive(Debug, Clone, Copy, PartialEq, Eq, Structural)]
pub enum ComputePrecision {
    /// Half precision.
    FP16,
    /// Brain float.
    BF16,
}

/// The precision of inference.
#[derive(Debug, Clone, Copy, PartialEq, Eq, Structural)]
pub enum PrecisionMode {
    /// Single precision.
    FP32,
    /// Half precision.
    FP16,
    /// Brain float.
    BF16,
    /// Computed in one precision, accumulated in another.
    Mixed {
        /// The precision that is computed in.
        compute: ComputePrecision,
        /// Whether sums are kept in single precision.
        accumulate_fp32: bool,
    },
}

impl Default for PrecisionMode {
    fn default() -> (r: Self)
        ensures
            r == PrecisionMode::FP32,
    {
        PrecisionMode::FP32
    }
}

/// The bit pattern of 1.0.
pub const ONE_BITS: u32 = 0x3f80_0000;

/// The bit pattern of 0.5.
pub const HALF_BITS: u32 = 0x3f00_0000;

/// The bit pattern of 0.75.
pub const THREE_QUARTERS_BITS: u32 = 0x3f40_0000;

impl PrecisionMode {
    /// The precision that data is rounded to, if it is.
    pub open spec fn rounds_to(self) -> Option<ComputePrecision> {
        match self {
            PrecisionMode::FP32 => None,
            PrecisionMode::FP16 => Some(ComputePrecision::FP16),
            PrecisionMode::BF16 => Some(ComputePrecision::BF16),
            PrecisionMode::Mixed { compute, .. } => Some(compute),
        }
    }

    /// Whether the precision is below single precision.
    pub fn is_reduced_precision(&self) -> (r: bool)
        ensures
            r == (*self != PrecisionMode::FP32),
            r == (self.rounds_to() is Some),
    {
        match self {
            PrecisionMode::FP32 => false,
            _ => true,
        }
    }

    /// The memory that is used, as a part of that of single precision.
    pub fn memory_reduction_factor(&self) -> (r: Single)
        ensures
            r.bits == (match self {
                PrecisionMode::FP32 => ONE_BITS,
                PrecisionMode::FP16 | PrecisionMode::BF16 => HALF_BITS,
                PrecisionMode::Mixed { .. } => THREE_QUARTERS_BITS,
            }),
    {
        match self {
            PrecisionMode::FP32 => Single { bits: ONE_BITS },
            PrecisionMode::FP16 | PrecisionMode::BF16 => Single { bits: HALF_BITS },
            PrecisionMode::Mixed { .. } => Single { bits: THREE_QUARTERS_BITS },
        }
    }

    /// The name.
    pub fn name(&self) -> (r: &'static str)
        ensures
            r@ == (match self {
                PrecisionMode::FP32 => "FP32"@,
                PrecisionMode::FP16 => "FP16"@,
                PrecisionMode::BF16 => "BF16"@,
                PrecisionMode::Mixed { compute: ComputePrecision::FP16, .. } => "Mixed-FP16"@,
                PrecisionMode::Mixed { compute: ComputePrecision::BF16, .. } => "Mixed-BF16"@,
            }),
    {
        match self {
            PrecisionMode::FP32 => "FP32",
            PrecisionMode::FP16 => "FP16",
            PrecisionMode::BF16 => "BF16",
            PrecisionMode::Mixed { compute, .. } => match compute {
                ComputePrecision::FP16 => "Mixed-FP16",
                ComputePrecision::BF16 => "Mixed-BF16",
            },
        }
    }
}

/// Configuration of precision.
#[derive(Debug, Clone, Copy, PartialEq, Eq, Structural)]
pub struct PrecisionConfig {
    /// The precision.
    pub mode: PrecisionMode,
    /// The factor that losses are scaled by.
    pub loss_scale: Single,
    /// Whether the factor adapts.
    pub dynamic_loss_scale: bool,
    /// The value above which gradients are clipped.
    pub grad_clip_threshold: Option<Single>,
}

/// The default configuration.
pub open spec fn default_precision() -> PrecisionConfig {
    PrecisionConfig {
        mode: PrecisionMode::FP32,
        loss_scale: Single { bits: ONE_BITS },
        dynamic_loss_scale: false,
        grad_clip_threshold: None,
    }
}

impl Default for PrecisionConfig {
    fn default() -> (r: Self)
        ensures
            r == default_precision(),
    {
        PrecisionConfig {
            mode: PrecisionMode::FP32,
            loss_scale: Single { bits: ONE_BITS },
            dynamic_loss_scale: false,
            grad_clip_threshold: None,
        }
    }
}

impl PrecisionConfig {
    /// The default configuration.
    pub fn new() -> (r: Self)
        ensures
            r == default_precision(),
    {
        Self::default()
    }

    /// Sets the precision.
    pub fn mode(self, mode: PrecisionMode) -> (r: Self)
        ensures
            r == (PrecisionConfig { mode, ..self }),
    {
        PrecisionConfig { mode, ..self }
    }

    /// Sets half precision.
    pub fn fp16(self) -> (r: Self)
        ensures
            r == (PrecisionConfig { mode: PrecisionMode::FP16, ..self }),
    {
        PrecisionConfig { mode: PrecisionMode::FP16, ..self }
    }

    /// Sets brain float.
    pub fn bf16(self) -> (r: Self)
        ensures
            r == (PrecisionConfig { mode: PrecisionMode::BF16, ..self }),
    {
        PrecisionConfig { mode: PrecisionMode::BF16, ..self }
    }

    /// Sets mixed precision that computes in half precision.
    pub fn mixed_fp16(self, accumulate_fp32: bool) -> (r: Self)
        ensures
            r == (PrecisionConfig {
                mode: PrecisionMode::Mixed { compute: ComputePrecision::FP16, accumulate_fp32 },
                ..self
            }),
    {
        PrecisionConfig {
            mode: PrecisionMode::Mixed { compute: ComputePrecision::FP16, accumulate_fp32 },
            ..self
        }
    }

    /// Sets mixed precision that computes in brain float.
    pub fn mixed_bf16(self, accumulate_fp32: bool) -> (r: Self)
        ensures
            r == (PrecisionConfig {
                mode: PrecisionMode::Mixed { compute: ComputePrecision::BF16, accumulate_fp32 },
                ..self
            }),
    {
        PrecisionConfig {
            mode: PrecisionMode::Mixed { compute: ComputePrecision::BF16, accumulate_fp32 },
            ..self
        }
    }

    /// Sets the factor that losses are scaled by.
    pub fn loss_scale(self, scale: Single) -> (r: Self)
        ensures
            r == (PrecisionConfig { loss_scale: scale, ..self }),
    {
        PrecisionConfig { loss_scale: scale, ..self }
    }

    /// Sets whether the factor adapts.
    pub fn dynamic_loss_scale(self, enabled: bool) -> (r: Self)
        ensures
            r == (PrecisionConfig { dynamic_loss_scale: enabled, ..self }),
    {
        PrecisionConfig { dynamic_loss_scale: enabled, ..self }
    }

    /// Sets the value above which gradients are clipped.
    pub fn grad_clip_threshold(self, threshold: Single) -> (r: Self)
        ensures
            r == (PrecisionConfig { grad_clip_threshold: Some(threshold), ..self }),
    {
        PrecisionConfig { grad_clip_threshold: Some(threshold), ..self }
    }
}

/// Whether `out` holds the samples rounded to a precision.
pub open spec fn is_narrowed<P: PrecisionMath>(
    p: P,
    to: ComputePrecision,
    data: Seq<Single>,
    out: Seq<u16>,
) -> bool {
    &&& out.len() == data.len()
    &&& forall|i: int|
        0 <= i < out.len() ==> match to {
            ComputePrecision::FP16 => call_ensures(P::to_half, (&p, data[i]), #[trigger] out[i]),
            ComputePrecision::BF16 => call_ensures(P::to_brain, (&p, data[i]), #[trigger] out[i]),
        }
}

/// Whether `out` holds the values of samples of a precision.
pub open spec fn is_widened<P: PrecisionMath>(
    p: P,
    from: ComputePrecision,
    data: Seq<u16>,
    out: Seq<Single>,
) -> bool {
    &&& out.len() == data.len()
    &&& forall|i: int|
        0 <= i < out.len() ==> match from {
            ComputePrecision::FP16 => call_ensures(P::from_half, (&p, data[i]), #[trigger] out[i]),
            ComputePrecision::BF16 => call_ensures(P::from_brain, (&p, data[i]), #[trigger] out[i]),
        }
}

/// Whether `out` is what a precision leaves of samples.
pub open spec fn is_rounded<P: PrecisionMath>(
    p: P,
    mode: PrecisionMode,
    data: Seq<Single>,
    out: Seq<Single>,
) -> bool {
    match mode.rounds_to() {
        None => out == data,
        Some(precision) => exists|narrow: Seq<u16>| #[trigger]
            is_narrowed(p, precision, data, narrow) && is_widened(p, precision, narrow, out),
    }
}

/// Converts samples as a configuration says.
#[derive(Debug, Clone, Copy)]
pub struct PrecisionConverter {
    config: PrecisionConfig,
}

impl PrecisionConverter {
    /// The configuration.
    pub closed spec fn settings(&self) -> PrecisionConfig {
        self.config
    }

    /// A converter for the given configuration.
    pub fn new(config: PrecisionConfig) -> (r: Self)
        ensures
            r.settings() == config,
    {
        PrecisionConverter { config }
    }

    /// Applies an operation to what the precision leaves of the samples.
    pub fn convert_and_compute_1d<P: PrecisionMath, Op: Fn(&[Single]) -> Vec<Single>>(
        &self,
        math: &P,
        data: &[Single],
        op: Op,
    ) -> (r: InferenceResult<Vec<Single>>)
        requires
            forall|x: &[Single]| call_requires(op, (x,)),
        ensures
            r is Ok,
            exists|rounded: &[Single]|
                #![trigger rounded@]
                is_rounded(*math, self.settings().mode, data@, rounded@) && call_ensures(
                    op,
                    (rounded,),
                    r->Ok_0,
                ),
    {
        let rounded: Vec<Single> = self.round(math, data);
        let input: &[Single] = rounded.as_slice();
        let out: Vec<Single> = op(input);
        assert(is_rounded(*math, self.settings().mode, data@, input@));
        Ok(out)
    }

    /// What the precision leaves of the samples.
    pub fn round<P: PrecisionMath>(&self, math: &P, data: &[Single]) -> (r: Vec<Single>)
        ensures
            is_rounded(*math, self.settings().mode, data@, r@),
    {
        match self.config.mode {
            PrecisionMode::FP32 => copy_samples(data),
            PrecisionMode::FP16 | PrecisionMode::Mixed {
                compute: ComputePrecision::FP16,
                ..
            } => {
                let narrow: Vec<u16> = self.to_fp16_1d(math, data);
                self.from_fp16_1d(math, narrow.as_slice())
            },
            PrecisionMode::BF16 | PrecisionMode::Mixed {
                compute: ComputePrecision::BF16,
                ..
            } => {
                let narrow: Vec<u16> = self.to_bf16_1d(math, data);
                self.from_bf16_1d(math, narrow.as_slice())
            },
        }
    }

    /// Converts samples to half precision.
    pub fn to_fp16_1d<P: PrecisionMath>(&self, math: &P, data: &[Single]) -> (r: Vec<u16>)
        ensures
            is_narrowed(*math, ComputePrecision::FP16, data@, r@),
    {
        let mut out: Vec<u16> = Vec::with_capacity(data.len());
        let mut i: usize = 0;
        while i < data.len()
            invariant
                i <= data@.len(),
                out@.len() == i,
                forall|k: int|
                    0 <= k < i ==> call_ensures(P::to_half, (math, data@[k]), #[trigger] out@[k]),
            decreases data@.len() - i,
        {
            let v: u16 = math.to_half(data[i]);
            out.push(v);
            i += 1;
        }
        out
    }

    /// Converts samples from half precision.
    pub fn from_fp16_1d<P: PrecisionMath>(&self, math: &P, data: &[u16]) -> (r: Vec<Single>)
        ensures
            is_widened(*math, ComputePrecision::FP16, data@, r@),
    {
        let mut out: Vec<Single> = Vec::with_capacity(data.len());
        let mut i: usize = 0;
        while i < data.len()
            invariant
                i <= data@.len(),
                out@.len() == i,
                forall|k: int|
                    0 <= k < i ==> call_ensures(P::from_half, (math, data@[k]), #[trigger] out@[k]),
            decreases data@.len() - i,
        {
            let v: Single = math.from_half(data[i]);
            out.push(v);
            i += 1;
        }
        out
    }

    /// Converts samples to brain float.
    pub fn to_bf16_1d<P: PrecisionMath>(&self, math: &P, data: &[Single]) -> (r: Vec<u16>)
        ensures
            is_narrowed(*math, ComputePrecision::BF16, data@, r@),
    {
        let mut out: Vec<u16> = Vec::with_capacity(data.len());
        let mut i: usize = 0;
        while i < data.len()
            invariant
                i <= data@.len(),
                out@.len() == i,
                forall|k: int|
                    0 <= k < i ==> call_ensures(P::to_brain, (math, data@[k]), #[trigger] out@[k]),
            decreases data@.len() - i,
        {
            let v: u16 = math.to_brain(data[i]);
            out.push(v);
            i += 1;
        }
        out
    }

    /// Converts samples from brain float.
    pub fn from_bf16_1d<P: PrecisionMath>(&self, math: &P, data: &[u16]) -> (r: Vec<Single>)
        ensures
            is_widened(*math, ComputePrecision::BF16, data@, r@),
    {
        let mut out: Vec<Single> = Vec::with_capacity(data.len());
        let mut i: usize = 0;
        while i < data.len()
            invariant
                i <= data@.len(),
                out@.len() == i,
                forall|k: int|
                    0 <= k < i ==> call_ensures(P::from_brain, (math, data@[k]), #[trigger] out@[k]),
            decreases data@.len() - i,
        {
            let v: Single = math.from_brain(data[i]);
            out.push(v);
            i += 1;
        }
        out
    }

    /// Converts a table to half precision, row by row.
    pub fn to_fp16_2d<P: PrecisionMath>(&self, math: &P, data: &Matrix) -> (r: Vec<u16>)
        ensures
            is_narrowed(*math, ComputePrecision::FP16, data.flat(), r@),
    {
        self.to_fp16_1d(math, data.values())
    }

    /// Converts a table from half precision. It fails where the samples
    /// cannot be laid out in the shape.
    pub fn from_fp16_2d<P: PrecisionMath>(
        &self,
        math: &P,
        data: &[u16],
        shape: (usize, usize),
    ) -> (r: InferenceResult<Matrix>)
        ensures
            match crate::matrix::shape_fault(data@.len(), shape.0, shape.1) {
                None => {
                    &&& r is Ok
                    &&& r->Ok_0.wf()
                    &&& r->Ok_0.height() == shape.0
                    &&& r->Ok_0.width() == shape.1
                    &&& is_widened(*math, ComputePrecision::FP16, data@, r->Ok_0.flat())
                },
                Some(cause) => r matches Err(InferenceError::ForwardError(t)) && t@
                    == "Shape error in FP16 conversion: "@ + cause,
            },
    {
        let values: Vec<Single> = self.from_fp16_1d(math, data);
        match Matrix::from_shape_vec(shape.0, shape.1, values) {
            Ok(m) => Ok(m),
            Err(cause) => Err(
                InferenceError::ForwardError(
                    join("Shape error in FP16 conversion: ", cause.as_str()),
                ),
            ),
        }
    }

    /// Converts a table to brain float, row by row.
    pub fn to_bf16_2d<P: PrecisionMath>(&self, math: &P, data: &Matrix) -> (r: Vec<u16>)
        ensures
            is_narrowed(*math, ComputePrecision::BF16, data.flat(), r@),
    {
        self.to_bf16_1d(math, data.values())
    }

    /// Converts a table from brain float. It fails where the samples
    /// cannot be laid out in the shape.
    pub fn from_bf16_2d<P: PrecisionMath>(
        &self,
        math: &P,
        data: &[u16],
        shape: (usize, usize),
    ) -> (r: InferenceResult<Matrix>)
        ensures
            match crate::matrix::shape_fault(data@.len(), shape.0, shape.1) {
                None => {
                    &&& r is Ok
                    &&& r->Ok_0.wf()
                    &&& r->Ok_0.height() == shape.0
                    &&& r->Ok_0.width() == shape.1
                    &&& is_widened(*math, ComputePrecision::BF16, data@, r->Ok_0.flat())
                },
                Some(cause) => r matches Err(InferenceError::ForwardError(t)) && t@
                    == "Shape error in BF16 conversion: "@ + cause,
            },
    {
        let values: Vec<Single> = self.from_bf16_1d(math, data);
        match Matrix::from_shape_vec(shape.0, shape.1, values) {
            Ok(m) => Ok(m),
            Err(cause) => Err(
                InferenceError::ForwardError(
                    join("Shape error in BF16 conversion: ", cause.as_str()),
                ),
            ),
        }
    }

    /// The configuration.
    pub fn config(&self) -> (r: &PrecisionConfig)
        ensures
            *r == self.settings(),
    {
        &self.config
    }
}

/// Statistics of conversions.
#[derive(Debug, Clone, Copy, PartialEq, Eq, Structural)]
pub struct PrecisionStats {
    /// Number of conversions.
    pub num_conversions: usize,
    /// Bytes that were saved.
    pub memory_saved: usize,
    /// The mean of the errors.
    pub avg_error: Double,
    /// The largest error.
    pub max_error: Double,
}

/// The larger of two values; a value that is not a number counts only beside
/// another one.
pub open spec fn larger(a: Double, b: Double) -> Double {
    if a.nan() || a.below(b) {
        b
    } else {
        a
    }
}

impl Default for PrecisionStats {
    fn default() -> (r: Self)
        ensures
            r == (PrecisionStats {
                num_conversions: 0,
                memory_saved: 0,
                avg_error: Double { bits: 0 },
                max_error: Double { bits: 0 },
            }),
    {
        PrecisionStats {
            num_conversions: 0,
            memory_saved: 0,
            avg_error: Double { bits: 0 },
            max_error: Double { bits: 0 },
        }
    }
}

impl PrecisionStats {
    /// Statistics without conversions.
    pub fn new() -> (r: Self)
        ensures
            r == (PrecisionStats {
                num_conversions: 0,
                memory_saved: 0,
                avg_error: Double { bits: 0 },
                max_error: Double { bits: 0 },
            }),
    {
        Self::default()
    }

    /// Counts a conversion and what it saved.
    pub fn record_conversion<P: PrecisionMath>(
        &mut self,
        math: &P,
        original_size: usize,
        precision_mode: &PrecisionMode,
    )
        requires
            old(self).num_conversions < usize::MAX,
            forall|factor: Single, saved: usize|
                {
                    &&& factor.bits == (match precision_mode {
                        PrecisionMode::FP32 => ONE_BITS,
                        PrecisionMode::FP16 | PrecisionMode::BF16 => HALF_BITS,
                        PrecisionMode::Mixed { .. } => THREE_QUARTERS_BITS,
                    })
                    &&& #[trigger] call_ensures(P::saved, (math, original_size, factor), saved)
                } ==> old(self).memory_saved + saved <= usize::MAX,
        ensures
            final(self).num_conversions == old(self).num_conversions + 1,
            final(self).avg_error == old(self).avg_error,
            final(self).max_error == old(self).max_error,
            exists|factor: Single, saved: usize|
                {
                    &&& factor.bits == (match precision_mode {
                        PrecisionMode::FP32 => ONE_BITS,
                        PrecisionMode::FP16 | PrecisionMode::BF16 => HALF_BITS,
                        PrecisionMode::Mixed { .. } => THREE_QUARTERS_BITS,
                    })
                    &&& #[trigger] call_ensures(P::saved, (math, original_size, factor), saved)
                    &&& final(self).memory_saved == old(self).memory_saved + saved
                },
    {
        self.num_conversions += 1;
        let factor: Single = precision_mode.memory_reduction_factor();
        let saved: usize = math.saved(original_size, factor);
        self.memory_saved += saved;
    }

    /// Records the error of the last conversion.
    pub fn record_error<P: PrecisionMath>(&mut self, math: &P, error: Double)
        ensures
            final(self).num_conversions == old(self).num_conversions,
            final(self).memory_saved == old(self).memory_saved,
            call_ensures(
                P::running_mean,
                (math, old(self).avg_error, old(self).num_conversions, error),
                final(self).avg_error,
            ),
            final(self).max_error == larger(old(self).max_error, error),
    {
        self.avg_error = math.running_mean(self.avg_error, self.num_conversions, error);
        if self.max_error.is_nan() || self.max_error.less(error) {
            self.max_error = error;
        }
    }
}

} // verus!
