//! The decisions behind the HTTP interface.

use crate::arith::Arithmetic;
use crate::number::{Double, Single};
use crate::samples::copy_samples;
use crate::time::{elapsed, now};
use std::time::Instant;
use vstd::prelude::*;

verus! {

/// The arithmetic on samples that the HTTP interface needs. Nothing is
/// required of what the operations return.
pub trait RestMath: Arithmetic<Single> {
    /// The mean latency in milliseconds of requests that took that many
    /// microseconds together.
    fn mean_latency(&self, sum_us: u64, requests: u64) -> Double;
}

/// The bit pattern of 0.9.
pub const DECAY_BITS: u32 = 0x3f66_6666;

/// The bit pattern of 0.1.
pub const COLDEST_BITS: u32 = 0x3dcc_cccd;

/// The bit pattern of 10.0.
pub const HOTTEST_BITS: u32 = 0x4120_0000;

/// Whether `r` can be the gain at a temperature: 0.9 divided by it, where it
/// counts as no less than 0.1 and no more than 10.
pub open spec fn is_gain<R: RestMath>(math: R, temperature: Single, r: Single) -> bool {
    call_ensures(
        R::quotient,
        (
            &math,
            Single { bits: DECAY_BITS },
            temperature.clamped(Single { bits: COLDEST_BITS }, Single { bits: HOTTEST_BITS }),
        ),
        r,
    )
}

/// Configuration of the HTTP interface.
#[derive(Debug, Clone)]
pub struct RestConfig {
    /// Address and port.
    pub addr: String,
    /// The size of a request body at most, in bytes.
    pub max_body_size: usize,
    /// How long a request is handled at most, in milliseconds.
    pub request_timeout_ms: u64,
    /// Whether requests from other origins are allowed.
    pub cors_enabled: bool,
}

impl Default for RestConfig {
    fn default() -> (r: Self)
        ensures
            r.addr@ == "0.0.0.0:8080"@,
            r.max_body_size == 1024 * 1024,
            r.request_timeout_ms == 30_000,
            r.cors_enabled,
    {
        RestConfig {
            addr: "0.0.0.0:8080".to_owned(),
            max_body_size: 1024 * 1024,
            request_timeout_ms: 30_000,
            cors_enabled: true,
        }
    }
}

/// The body of a request for inference.
#[derive(Debug)]
pub struct RestInferRequest {
    /// The signal.
    pub signal: Vec<Single>,
    /// The number of steps.
    pub steps: Option<usize>,
    /// The temperature.
    pub temperature: Option<Single>,
}

/// The body of a response with a prediction.
#[derive(Debug)]
pub struct RestInferResponse {
    /// The signal.
    pub prediction: Vec<Single>,
    /// The model.
    pub model_id: String,
    /// How long inference took, in milliseconds.
    pub latency_ms: u64,
    /// The number of steps.
    pub steps_executed: usize,
}

/// The body of a response about health.
#[derive(Debug)]
pub struct HealthResponse {
    /// The status.
    pub status: String,
    /// The version of the service.
    pub version: String,
}

impl HealthResponse {
    /// The response of a service that runs.
    pub fn healthy(version: String) -> (r: Self)
        ensures
            r.status@ == "healthy"@,
            r.version == version,
    {
        HealthResponse { status: "healthy".to_owned(), version }
    }
}

/// The body of a response with metrics.
#[derive(Debug, Clone, Copy, PartialEq, Eq, Structural)]
pub struct MetricsResponse {
    /// Requests that succeeded.
    pub requests_total: u64,
    /// Requests that failed.
    pub errors_total: u64,
    /// Mean latency in milliseconds.
    pub avg_latency_ms: Double,
}

/// Counters of the service; they wrap around.
#[derive(Debug, Clone, Copy, PartialEq, Eq, Structural)]
pub struct ServerMetrics {
    requests_total: u64,
    errors_total: u64,
    latency_sum_us: u64,
}

impl Default for ServerMetrics {
    fn default() -> (r: Self)
        ensures
            r.successes() == 0,
            r.errors() == 0,
            r.microseconds() == 0,
    {
        ServerMetrics { requests_total: 0, errors_total: 0, latency_sum_us: 0 }
    }
}

impl ServerMetrics {
    /// Requests that succeeded.
    pub closed spec fn successes(&self) -> u64 {
        self.requests_total
    }

    /// Requests that failed.
    pub closed spec fn errors(&self) -> u64 {
        self.errors_total
    }

    /// The sum of the latencies in microseconds.
    pub closed spec fn microseconds(&self) -> u64 {
        self.latency_sum_us
    }

    /// Counts a request that succeeded.
    pub fn record_success(&mut self, latency_ms: u64)
        ensures
            final(self).successes() == (old(self).successes() + 1) % 0x1_0000_0000_0000_0000,
            final(self).errors() == old(self).errors(),
            final(self).microseconds() == (old(self).microseconds() + latency_ms * 1000)
                % 0x1_0000_0000_0000_0000,
    {
        self.requests_total = self.requests_total.wrapping_add(1);
        self.latency_sum_us = self.latency_sum_us.wrapping_add(latency_ms.wrapping_mul(1000));
        proof {
            let m = 0x1_0000_0000_0000_0000int;
            let a = old(self).latency_sum_us as int;
            let b = latency_ms * 1000;
            assert((a + b % m) % m == (a + b) % m);
        }
    }

    /// Counts a request that failed.
    pub fn record_error(&mut self)
        ensures
            final(self).errors() == (old(self).errors() + 1) % 0x1_0000_0000_0000_0000,
            final(self).successes() == old(self).successes(),
            final(self).microseconds() == old(self).microseconds(),
    {
        self.errors_total = self.errors_total.wrapping_add(1);
    }

    /// The counters, and the mean latency.
    pub fn snapshot<R: RestMath>(&self, math: &R) -> (r: MetricsResponse)
        ensures
            r.requests_total == self.successes(),
            r.errors_total == self.errors(),
            if self.successes() == 0 {
                r.avg_latency_ms.bits == 0
            } else {
                call_ensures(
                    R::mean_latency,
                    (math, self.microseconds(), self.successes()),
                    r.avg_latency_ms,
                )
            },
    {
        let avg_latency_ms: Double = if self.requests_total == 0 {
            Double::zero()
        } else {
            math.mean_latency(self.latency_sum_us, self.requests_total)
        };
        MetricsResponse {
            requests_total: self.requests_total,
            errors_total: self.errors_total,
            avg_latency_ms,
        }
    }
}

/// Whether `out` holds the samples times a gain.
pub open spec fn is_scaled<R: RestMath>(
    math: R,
    s: Seq<Single>,
    gain: Single,
    out: Seq<Single>,
) -> bool {
    &&& out.len() == s.len()
    &&& forall|i: int|
        0 <= i < out.len() ==> call_ensures(R::product, (&math, s[i], gain), #[trigger] out[i])
}

/// Whether each signal of `trace` is the one before times a gain.
pub open spec fn decays<R: RestMath>(math: R, gain: Single, trace: Seq<Seq<Single>>) -> bool {
    forall|i: int|
        0 < i < trace.len() ==> is_scaled(math, trace[i - 1], gain, #[trigger] trace[i])
}

/// Whether `out` holds the samples times a gain, `steps` times over.
pub open spec fn is_decayed<R: RestMath>(
    math: R,
    s: Seq<Single>,
    gain: Single,
    steps: nat,
    out: Seq<Single>,
) -> bool {
    exists|trace: Seq<Seq<Single>>|
        {
            &&& #[trigger] decays(math, gain, trace)
            &&& trace.len() == steps + 1
            &&& trace[0] == s
            &&& trace.last() == out
        }
}

/// The answer to a request for inference.
#[derive(Debug)]
pub enum InferOutcome {
    /// The prediction.
    Done(RestInferResponse),
    /// The request cannot be worked on.
    Unprocessable { error: String },
}

/// The HTTP status of an answer.
pub fn status_code(outcome: &InferOutcome) -> (code: u16)
    ensures
        code == (match outcome {
            InferOutcome::Done(_) => 200u16,
            InferOutcome::Unprocessable { .. } => 422u16,
        }),
{
    match outcome {
        InferOutcome::Done(_) => 200,
        InferOutcome::Unprocessable { .. } => 422,
    }
}

/// The bit pattern of 1.0, the default temperature.
pub const ONE_BITS: u32 = 0x3f80_0000;

/// The HTTP interface: its configuration and its counters.
#[derive(Debug)]
pub struct RestAdapter {
    config: RestConfig,
    metrics: ServerMetrics,
}

impl RestAdapter {
    /// The configuration.
    pub closed spec fn settings(&self) -> RestConfig {
        self.config
    }

    /// The counters.
    pub closed spec fn counters(&self) -> ServerMetrics {
        self.metrics
    }

    /// An interface that has served nothing.
    pub fn new(config: RestConfig) -> (r: Self)
        ensures
            r.settings() == config,
            r.counters().successes() == 0,
            r.counters().errors() == 0,
            r.counters().microseconds() == 0,
    {
        RestAdapter { config, metrics: ServerMetrics::default() }
    }

    /// The configuration.
    pub fn config(&self) -> (r: &RestConfig)
        ensures
            *r == self.settings(),
    {
        &self.config
    }

    /// The counters.
    pub fn metrics(&self) -> (r: &ServerMetrics)
        ensures
            *r == self.counters(),
    {
        &self.metrics
    }

    /// The number of steps of a request: one where none is given, and at least
    /// one.
    pub open spec fn steps_of(request: RestInferRequest) -> usize {
        match request.steps {
            Some(n) => if n == 0 {
                1
            } else {
                n
            },
            None => 1,
        }
    }

    /// The temperature of a request: 1 where none is given.
    pub open spec fn temperature_of(request: RestInferRequest) -> Single {
        match request.temperature {
            Some(t) => t,
            None => Single { bits: ONE_BITS },
        }
    }

    /// Answers a request. An empty signal is refused and counted as an error;
    /// any other one decays by a gain at every step.
    pub fn infer<R: RestMath>(&mut self, math: &R, request: RestInferRequest) -> (r: InferOutcome)
        ensures
            final(self).settings() == old(self).settings(),
            if request.signal@.len() == 0 {
                &&& r matches InferOutcome::Unprocessable { error } && error@
                    == "signal must not be empty"@
                &&& final(self).counters().errors() == (old(self).counters().errors() + 1)
                    % 0x1_0000_0000_0000_0000
                &&& final(self).counters().successes() == old(self).counters().successes()
                &&& final(self).counters().microseconds() == old(self).counters().microseconds()
            } else {
                &&& r is Done
                &&& r->Done_0.model_id@ == "kizzasi-default"@
                &&& r->Done_0.steps_executed == Self::steps_of(request)
                &&& exists|gain: Single|
                    {
                        &&& #[trigger] is_gain(*math, Self::temperature_of(request), gain)
                        &&& is_decayed(
                            *math,
                            request.signal@,
                            gain,
                            Self::steps_of(request) as nat,
                            r->Done_0.prediction@,
                        )
                    }
                &&& r->Done_0.prediction@.len() == request.signal@.len()
                &&& final(self).counters().errors() == old(self).counters().errors()
                &&& final(self).counters().successes() == (old(self).counters().successes() + 1)
                    % 0x1_0000_0000_0000_0000
                &&& final(self).counters().microseconds() == (old(self).counters().microseconds()
                    + r->Done_0.latency_ms * 1000) % 0x1_0000_0000_0000_0000
            },
    {
        if request.signal.len() == 0 {
            self.metrics.record_error();
            return InferOutcome::Unprocessable { error: "signal must not be empty".to_owned() };
        }
        let start: Instant = now();
        let steps: usize = match request.steps {
            Some(n) => if n == 0 {
                1
            } else {
                n
            },
            None => 1,
        };
        let temperature: Single = match request.temperature {
            Some(t) => t,
            None => Single { bits: ONE_BITS },
        };
        let held: Single = temperature.clamp(
            Single::from_bits(COLDEST_BITS),
            Single::from_bits(HOTTEST_BITS),
        );
        let decay: Single = Single::from_bits(DECAY_BITS);
        let gain: Single = math.quotient(decay, held);
        assert(is_gain(*math, Self::temperature_of(request), gain));
        let mut prediction: Vec<Single> = copy_samples(request.signal.as_slice());
        let mut step: usize = 0;
        let ghost mut trace: Seq<Seq<Single>> = seq![prediction@];
        while step < steps
            invariant
                step <= steps,
                prediction@.len() == request.signal@.len(),
                decays(*math, gain, trace),
                trace.len() == step + 1,
                trace[0] == request.signal@,
                trace.last() == prediction@,
            decreases steps - step,
        {
            let ghost before = prediction@;
            let n: usize = prediction.len();
            let mut i: usize = 0;
            while i < n
                invariant
                    i <= n,
                    n == prediction@.len(),
                    n == before.len(),
                    forall|k: int|
                        0 <= k < i ==> call_ensures(
                            R::product,
                            (math, before[k], gain),
                            #[trigger] prediction@[k],
                        ),
                    forall|k: int| i <= k < n ==> #[trigger] prediction@[k] == before[k],
                decreases n - i,
            {
                let scaled: Single = math.product(prediction[i], gain);
                prediction.set(i, scaled);
                i += 1;
            }
            step += 1;
            proof {
                let longer = trace.push(prediction@);
                assert forall|k: int| 0 < k < longer.len() implies is_scaled(
                    *math,
                    longer[k - 1],
                    gain,
                    #[trigger] longer[k],
                ) by {
                    if k < trace.len() {
                        assert(trace[k] == longer[k]);
                    }
                }
                trace = longer;
            }
        }
        let latency_ms: u64 = elapsed(&start).whole_millis();
        self.metrics.record_success(latency_ms);
        InferOutcome::Done(
            RestInferResponse {
                prediction,
                model_id: "kizzasi-default".to_owned(),
                latency_ms,
                steps_executed: steps,
            },
        )
    }
}

/// A server that owns the HTTP interface.
#[derive(Debug)]
pub struct RestServer {
    adapter: RestAdapter,
}

impl RestServer {
    /// The interface.
    pub closed spec fn serves(&self) -> RestAdapter {
        self.adapter
    }

    /// A server with the given configuration.
    pub fn new(config: RestConfig) -> (r: Self)
        ensures
            r.serves().settings() == config,
            r.serves().counters().successes() == 0,
            r.serves().counters().errors() == 0,
    {
        RestServer { adapter: RestAdapter::new(config) }
    }

    /// The interface.
    pub fn adapter(&self) -> (r: &RestAdapter)
        ensures
            *r == self.serves(),
    {
        &self.adapter
    }
}

/// What a request is for.
#[derive(Debug, Clone, Copy, PartialEq, Eq, Structural)]
pub enum Endpoint {
    Health,
    Infer,
    Metrics,
    NotFound,
}

/// The endpoint of a path.
pub fn endpoint(path: &str) -> (r: Endpoint)
    ensures
        r == if path@ == "/health"@ {
            Endpoint::Health
        } else if path@ == "/infer"@ {
            Endpoint::Infer
        } else if path@ == "/metrics"@ {
            Endpoint::Metrics
        } else {
            Endpoint::NotFound
        },
{
    if crate::text::same_text(path, "/health") {
        Endpoint::Health
    } else if crate::text::same_text(path, "/infer") {
        Endpoint::Infer
    } else if crate::text::same_text(path, "/metrics") {
        Endpoint::Metrics
    } else {
        Endpoint::NotFound
    }
}

} // verus!
