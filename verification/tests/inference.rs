//! Engine, scheduling, compression of states, adapters and versions.

use kizzasi::arith::Arithmetic;
use kizzasi::error::{InferenceError, InferenceResult};
use kizzasi::inference::adapters::grpc::{
    route, service_name, ClientStream, GrpcMethod, GrpcServerConfig, GrpcStatus, HealthRequest,
    InferenceReply, InferenceRequest, InferenceService, INTERNAL,
};
use kizzasi::inference::adapters::mqtt::{
    parse_broker, BrokerAction, BrokerEvent, MqttAdapter, RequestOutcome,
};
use kizzasi::inference::adapters::rest::{
    endpoint, status_code, Endpoint, HealthResponse, InferOutcome, RestAdapter, RestConfig,
    RestInferRequest, RestMath, RestServer, ServerMetrics,
};
use kizzasi::inference::adapters::websocket::{on_event, ClientEvent, ServerAction};
use kizzasi::inference::adapters::{
    InferenceMessage, InferenceResponse, NetworkAdapter, RunState, SpanMath,
};
use kizzasi::inference::batch::{BatchConfig, BatchRequest, BatchScheduler, Priority};
use kizzasi::inference::compression::{CompressionMethod, LatticeMath, StateCompressor};
use kizzasi::inference::context::{ContextConfig, InferenceContext};
use kizzasi::inference::engine::{
    EngineConfig, InferenceEngine, InferenceMode, SamplingConfig, SamplingStrategy,
};
use kizzasi::inference::hotswap::{
    drain_step, DrainStep, HotSwapManager, ModelInstance, SwapStrategy,
};
use kizzasi::inference::model::{AutoregressiveModel, EngineMath, ModelReply, ModelType};
use kizzasi::inference::registry::{
    ModelBuilder, ModelConfig, ModelFactory, ModelPlan, ModelRegistry,
};
use kizzasi::inference::speculative::{
    samplings, DecoderMath, SpeculativeConfig, SpeculativeDecoder,
};
use kizzasi::inference::state::HiddenState;
use kizzasi::inference::streaming::{
    BatchBuffer, BufferTransformer, Debouncer, MapTransformer, MetricMath, StreamConfig,
    StreamMetrics, StreamingEngine,
};
use kizzasi::inference::versioning::{
    FallbackStrategy, HealthCheck, HealthStatus, LatencyMath, ModelMetadata, ModelStats,
    ModelVersion, ModelVersionManager, VersioningConfig,
};
use kizzasi::number::{Double, RatioMath, Single};
use kizzasi::time::Span;

fn single(x: f32) -> Single {
    Single::from_bits(x.to_bits())
}

fn float(x: Single) -> f32 {
    f32::from_bits(x.to_bits())
}

fn double(x: f64) -> Double {
    Double::from_bits(x.to_bits())
}

fn wide(x: Double) -> f64 {
    f64::from_bits(x.to_bits())
}

fn singles(values: &[f32]) -> Vec<Single> {
    values.iter().map(|&x| single(x)).collect()
}

fn floats(values: &[Single]) -> Vec<f32> {
    values.iter().map(|&x| float(x)).collect()
}

#[derive(Debug, Clone, Copy)]
struct Numeric;

impl Arithmetic<Single> for Numeric {
    fn sum(&self, a: Single, b: Single) -> Single {
        single(float(a) + float(b))
    }

    fn difference(&self, a: Single, b: Single) -> Single {
        single(float(a) - float(b))
    }

    fn product(&self, a: Single, b: Single) -> Single {
        single(float(a) * float(b))
    }

    fn quotient(&self, a: Single, b: Single) -> Single {
        single(float(a) / float(b))
    }

    fn over(&self, a: Single, count: usize) -> Single {
        single(float(a) / count as f32)
    }

    fn root(&self, a: Single) -> Single {
        single(float(a).sqrt())
    }
}

impl RatioMath for Numeric {
    fn ratio(&self, part: usize, whole: usize) -> Single {
        single(part as f32 / whole as f32)
    }
}

impl LatticeMath for Numeric {
    fn round(&self, x: Single) -> Single {
        single(float(x).round())
    }

    fn to_int(&self, x: Single) -> i32 {
        float(x) as i32
    }

    fn to_byte(&self, x: Single) -> u8 {
        float(x) as u8
    }

    fn of_int(&self, x: i32) -> Single {
        single(x as f32)
    }

    fn of_byte(&self, x: u8) -> Single {
        single(x as f32)
    }
}

impl MetricMath for Numeric {
    fn average(&self, total: usize, count: usize) -> Single {
        single(total as f32 / count as f32)
    }

    fn shifted_mean(&self, mean: Single, before: usize, added: u64, after: usize) -> Single {
        let total = float(mean) * before as f32;
        single((total + added as f32) / after as f32)
    }
}

impl LatencyMath for Numeric {
    fn sum(&self, a: Double, b: Double) -> Double {
        double(wide(a) + wide(b))
    }

    fn mean(&self, total: Double, count: usize) -> Double {
        double(wide(total) / count as f64)
    }

    fn ratio(&self, part: usize, whole: usize) -> Double {
        double(part as f64 / whole as f64)
    }

    fn two_decimals(&self, value: Double) -> String {
        format!("{:.2}", wide(value))
    }
}

impl SpanMath for Numeric {
    fn millis(&self, span: Span) -> Double {
        double((span.secs as f64 + span.nanos as f64 / 1e9) * 1000.0)
    }
}

impl RestMath for Numeric {
    fn mean_latency(&self, sum_us: u64, requests: u64) -> Double {
        double((sum_us as f64) / (requests as f64) / 1_000.0)
    }
}

impl EngineMath for Numeric {
    fn sample(&self, logits: &[Single]) -> Result<Single, String> {
        let logits = floats(logits);
        let best = (0..logits.len()).fold(0, |b, i| if logits[i] > logits[b] { i } else { b });
        Ok(single(best as f32))
    }

    fn scale(&self, logit: Single, temperature: Single) -> Single {
        single(float(logit) * float(temperature))
    }

    fn coarsen(&self, value: Single) -> Single {
        single((float(value) * 64.0).round() / 64.0)
    }
}

impl DecoderMath for Numeric {
    fn sample_draft(&self, logits: &[Single]) -> Result<Single, String> {
        Ok(logits[0])
    }

    fn sample_main(&self, logits: &[Single]) -> Result<Single, String> {
        Ok(logits[0])
    }

    fn difference(&self, a: Single, b: Single) -> Single {
        single(float(a) - float(b))
    }
}

/// A model that multiplies its input and leaves its states blank.
#[derive(Debug, Clone, Copy)]
struct Halver {
    kind: ModelType,
    hidden: usize,
    state: usize,
    layers: usize,
    factor: f32,
}

impl Halver {
    fn new(kind: ModelType, hidden: usize, state: usize, layers: usize) -> Self {
        Halver { kind, hidden, state, layers, factor: 0.5 }
    }
}

impl AutoregressiveModel for Halver {
    fn advance(&self, states: &[HiddenState], input: &[Single]) -> ModelReply {
        if states.len() != self.layers {
            return Err(format!("expected {} states", self.layers));
        }
        let output = input.iter().map(|&x| single(float(x) * self.factor)).collect();
        Ok((output, self.get_states()))
    }

    fn get_states(&self) -> Vec<HiddenState> {
        (0..self.layers).map(|_| HiddenState::new(self.hidden, self.state)).collect()
    }

    fn model_type(&self) -> ModelType {
        self.kind
    }

    fn hidden_dim(&self) -> usize {
        self.hidden
    }

    fn state_dim(&self) -> usize {
        self.state
    }

    fn num_layers(&self) -> usize {
        self.layers
    }
}

struct Factory;

impl ModelFactory for Factory {
    type Model = Halver;

    fn build(&self, plan: ModelPlan) -> Result<Halver, String> {
        match plan {
            ModelPlan::Rwkv(c) => Ok(Halver::new(ModelType::Rwkv, c.hidden_dim, 64, c.num_layers)),
            ModelPlan::S4(c) => {
                Ok(Halver::new(ModelType::S4D, c.hidden_dim, c.state_dim, c.num_layers))
            }
            ModelPlan::Transformer(c) => {
                Ok(Halver::new(ModelType::Transformer, c.hidden_dim, 1, c.num_layers))
            }
        }
    }
}

type TestEngine = StreamingEngine<Halver, Numeric>;

fn make_engine() -> TestEngine {
    StreamingEngine::new(StreamConfig::default(), Numeric).unwrap()
}

fn engine_with_model() -> TestEngine {
    let mut config = StreamConfig::new();
    config.engine = EngineConfig::new(1, 10);
    let mut engine = StreamingEngine::new(config, Numeric).unwrap();
    engine.set_model(Halver::new(ModelType::S4D, 64, 16, 2));
    engine
}

// Adapters.

#[test]
fn test_grpc_server_config_defaults() {
    let config = GrpcServerConfig::default();
    assert!(config.max_concurrent_streams > 0, "max_concurrent_streams must be > 0");
    assert!(config.timeout_ms > 0, "timeout_ms must be > 0");
    assert!(config.max_frame_size > 0, "max_frame_size must be > 0");
}

#[test]
fn grpc_limits_of_zero_are_none() {
    let mut config = GrpcServerConfig::default();
    assert_eq!(config.stream_limit(), Some(config.max_concurrent_streams));
    assert_eq!(config.time_limit_ms(), Some(config.timeout_ms));
    config.max_concurrent_streams = 0;
    config.timeout_ms = 0;
    assert_eq!(config.stream_limit(), None);
    assert_eq!(config.time_limit_ms(), None);
}

#[test]
fn test_proto_conversion() {
    let msg = InferenceMessage::new("test-1".to_string(), singles(&[1.0, 2.0, 3.0]));
    let request_id = msg.request_id.clone();
    let input = msg.input.clone();
    let proto_req = InferenceRequest::from_message(msg);

    assert_eq!(proto_req.request_id, "test-1");
    assert_eq!(proto_req.input, singles(&[1.0, 2.0, 3.0]));

    let back = proto_req.into_message();
    assert_eq!(back.request_id, request_id);
    assert_eq!(back.input, input);
}

#[test]
fn test_response_proto_conversion() {
    let resp =
        InferenceResponse::new("resp-1".to_string(), singles(&[4.0, 5.0]), double(10.5), 2);
    let proto_reply = InferenceReply::from_response(resp);

    assert_eq!(proto_reply.request_id, "resp-1");
    assert_eq!(proto_reply.output, singles(&[4.0, 5.0]));
    assert_eq!(wide(proto_reply.latency_ms), 10.5);
    assert_eq!(proto_reply.num_tokens, 2);
}

#[test]
fn test_inference_service_health() {
    let service = InferenceService::new(make_engine());
    let reply = service.health(HealthRequest {});
    assert_eq!(reply.status, "healthy");
    assert_eq!(reply.engine_state, "ready");
}

fn request(id: &str, input: &[f32]) -> InferenceRequest {
    InferenceRequest {
        request_id: id.to_string(),
        input: singles(input),
        temperature: None,
        top_k: None,
        top_p: None,
        max_tokens: None,
    }
}

#[test]
fn test_inference_service_unary() {
    let mut service = InferenceService::new(make_engine());
    match service.infer(&Numeric, request("unit-test-1", &[0.1, 0.2, 0.3])) {
        Ok(reply) => assert_eq!(reply.request_id, "unit-test-1"),
        Err(status) => assert_eq!(status.code, INTERNAL),
    }
}

#[test]
fn a_served_request_is_answered_under_its_id() {
    let mut service = InferenceService::new(engine_with_model());
    let reply = service.infer(&Numeric, request("r", &[0.5])).unwrap();
    assert_eq!(reply.request_id, "r");
    assert_eq!(floats(&reply.output), vec![0.25]);
    assert_eq!(reply.num_tokens, 1);
}

#[test]
fn test_infer_stream_processes_requests() {
    let mut service = InferenceService::new(make_engine());
    let mut count = 0usize;
    let mut error_count = 0usize;
    for i in 0..3 {
        let item = Ok(request(&format!("stream-{i}"), &[i as f32 * 0.1]));
        let (reply, goes_on) = service.infer_stream(&Numeric, item);
        match reply {
            Ok(_) => count += 1,
            Err(_) => error_count += 1,
        }
        if !goes_on {
            break;
        }
    }
    assert!(count + error_count >= 1);
    assert!(count + error_count <= 3);
}

#[test]
fn a_client_stream_ends_with_its_last_reply() {
    let mut service = InferenceService::new(engine_with_model());
    let mut stream = ClientStream::new();
    assert!(stream.on_item(&mut service, &Numeric, Ok(request("a", &[1.0]))).is_ok());
    assert!(stream.on_item(&mut service, &Numeric, Ok(request("b", &[2.0]))).is_ok());
    let failed = Err(GrpcStatus { code: INTERNAL, message: "lost".to_string() });
    assert_eq!(stream.on_item(&mut service, &Numeric, failed).unwrap_err().message, "lost");
    let reply = stream.finish();
    assert_eq!(reply.request_id, "b");
    assert_eq!(floats(&reply.output), vec![1.0]);
    assert_eq!(ClientStream::new().finish().request_id, "");
}

#[test]
fn paths_name_methods() {
    let name = service_name();
    assert_eq!(route(&format!("/{name}/Infer")), GrpcMethod::Infer);
    assert_eq!(route(&format!("/{name}/InferStream")), GrpcMethod::InferStream);
    assert_eq!(route(&format!("/{name}/Health")), GrpcMethod::Health);
    assert_eq!(route("/elsewhere"), GrpcMethod::Unimplemented);
}

#[test]
fn test_grpc_adapter_creation() {
    let mut state = RunState::new();
    assert!(!state.is_running());
    assert!(state.start().is_ok());
    assert!(state.is_running());
    assert!(state.stop().is_ok());
    assert!(!state.is_running());
}

type TestAdapter = MqttAdapter<Halver, Numeric, u32>;

fn mqtt(url: &str) -> InferenceResult<TestAdapter> {
    MqttAdapter::new(
        url,
        "test-client",
        "agsp/input".to_string(),
        "agsp/output".to_string(),
        engine_with_model(),
    )
}

#[test]
fn test_mqtt_adapter_creation() {
    let adapter = mqtt("mqtt://test.mosquitto.org:1883");
    assert!(adapter.is_ok());
    let adapter = adapter.unwrap();
    assert!(!adapter.is_running());
    assert_eq!(adapter.host(), "test.mosquitto.org");
    assert_eq!(adapter.input_topic(), "agsp/input");
}

#[test]
fn test_mqtt_url_parsing() {
    assert!(mqtt("mqtt://broker:1883").is_ok());
    assert!(mqtt("tcp://broker:1883").is_ok());
    assert!(mqtt("broker:1883").is_ok());
    assert_eq!(parse_broker("broker").unwrap(), ("broker".to_string(), 1883));
    assert_eq!(parse_broker("tcp://b:99").unwrap(), ("b".to_string(), 99));
    assert!(parse_broker("broker:port").is_err());
}

#[test]
fn a_published_request_is_answered_to_its_waiter() {
    let mut adapter = mqtt("broker:1883").unwrap();
    assert!(adapter.start().is_ok());
    assert_eq!(adapter.register("one", 7), None);
    let message = InferenceMessage::new("one".to_string(), singles(&[4.0]));
    match adapter.on_event(&Numeric, BrokerEvent::Publish(Ok(message))) {
        BrokerAction::Respond { response, waiter } => {
            assert_eq!(response.request_id, "one");
            assert_eq!(floats(&response.output), vec![2.0]);
            assert_eq!(waiter, Some(7));
        }
        _ => panic!("expected an answer"),
    }
    assert!(matches!(adapter.on_event(&Numeric, BrokerEvent::Incoming), BrokerAction::Wait));
    match adapter.on_event(&Numeric, BrokerEvent::Failure) {
        BrokerAction::Pause(span) => assert_eq!(span.as_millis(), 5000),
        _ => panic!("expected a pause"),
    }
}

#[test]
fn requests_conclude_with_what_became_of_them() {
    let mut adapter = mqtt("broker:1883").unwrap();
    adapter.register("x", 1);
    let timed_out = adapter.conclude("x", RequestOutcome::TimedOut);
    assert!(matches!(timed_out, Err(InferenceError::Timeout(_))));
    let closed = adapter.conclude("x", RequestOutcome::Closed);
    assert!(closed.is_err());
    let unserializable = adapter.conclude("x", RequestOutcome::Unserializable("why".to_string()));
    assert!(matches!(unserializable, Err(InferenceError::SerializationError(_))));
    let unpublished = adapter.conclude("x", RequestOutcome::Unpublished("why".to_string()));
    assert!(matches!(unpublished, Err(InferenceError::NetworkError(_))));
    let response = InferenceResponse::new("x".to_string(), singles(&[1.0]), double(1.0), 1);
    let answered = adapter.conclude("x", RequestOutcome::Answered(response));
    assert_eq!(answered.unwrap().request_id, "x");
}

#[test]
fn test_rest_config_defaults() {
    let cfg = RestConfig::default();
    assert_eq!(cfg.addr, "0.0.0.0:8080");
    assert_eq!(cfg.max_body_size, 1024 * 1024);
    assert_eq!(cfg.request_timeout_ms, 30_000);
    assert!(cfg.cors_enabled);
}

#[test]
fn test_server_metrics_default() {
    let m = ServerMetrics::default();
    let snap = m.snapshot(&Numeric);
    assert_eq!(snap.requests_total, 0);
    assert_eq!(snap.errors_total, 0);
    assert_eq!(wide(snap.avg_latency_ms), 0.0);
}

#[test]
fn test_server_metrics_record_success() {
    let mut m = ServerMetrics::default();
    m.record_success(10);
    m.record_success(20);
    let snap = m.snapshot(&Numeric);
    assert_eq!(snap.requests_total, 2);
    assert_eq!(snap.errors_total, 0);
    assert!((wide(snap.avg_latency_ms) - 15.0).abs() < 0.001);
}

#[test]
fn test_server_metrics_record_error() {
    let mut m = ServerMetrics::default();
    m.record_error();
    m.record_error();
    let snap = m.snapshot(&Numeric);
    assert_eq!(snap.errors_total, 2);
    assert_eq!(snap.requests_total, 0);
}

#[test]
fn test_health_endpoint_returns_ok() {
    assert_eq!(endpoint("/health"), Endpoint::Health);
}

#[test]
fn test_health_response_body() {
    let health = HealthResponse::healthy("0.1.0".to_string());
    assert_eq!(health.status, "healthy");
    assert!(!health.version.is_empty());
}

fn infer(signal: &[f32], steps: Option<usize>, temperature: Option<f32>) -> InferOutcome {
    let mut adapter = RestAdapter::new(RestConfig::default());
    let request =
        RestInferRequest { signal: singles(signal), steps, temperature: temperature.map(single) };
    adapter.infer(&Numeric, request)
}

#[test]
fn test_infer_endpoint_returns_prediction() {
    let outcome = infer(&[1.0, 2.0, 3.0], Some(1), None);
    assert_eq!(status_code(&outcome), 200);
    match outcome {
        InferOutcome::Done(response) => {
            assert_eq!(response.prediction.len(), 3);
            assert_eq!(response.steps_executed, 1);
            assert_eq!(response.model_id, "kizzasi-default");
        }
        _ => panic!("expected a prediction"),
    }
}

#[test]
fn test_infer_prediction_values_single_step() {
    let signal = [10.0_f32, 20.0_f32];
    match infer(&signal, Some(1), Some(1.0)) {
        InferOutcome::Done(response) => {
            for (input, output) in signal.iter().zip(floats(&response.prediction)) {
                let expected = input * 0.9;
                assert!((output - expected).abs() < 1e-5, "expected {expected} got {output}");
            }
        }
        _ => panic!("expected a prediction"),
    }
}

#[test]
fn test_infer_empty_signal_returns_422() {
    let outcome = infer(&[], None, None);
    assert_eq!(status_code(&outcome), 422);
}

#[test]
fn test_metrics_endpoint_returns_ok() {
    assert_eq!(endpoint("/metrics"), Endpoint::Metrics);
    let server = RestServer::new(RestConfig::default());
    let metrics = server.adapter().metrics().snapshot(&Numeric);
    assert_eq!(metrics.requests_total, 0);
    assert_eq!(metrics.errors_total, 0);
}

#[test]
fn test_metrics_increments_on_infer() {
    let mut adapter = RestAdapter::new(RestConfig::default());
    let request = RestInferRequest { signal: singles(&[1.0]), steps: None, temperature: None };
    adapter.infer(&Numeric, request);
    let snap = adapter.metrics().snapshot(&Numeric);
    assert_eq!(snap.requests_total, 1);
    assert_eq!(snap.errors_total, 0);
}

#[test]
fn test_unknown_route_returns_404() {
    assert_eq!(endpoint("/nonexistent"), Endpoint::NotFound);
    assert_eq!(endpoint("/infer"), Endpoint::Infer);
}

#[test]
fn test_infer_multi_step() {
    match infer(&[100.0], Some(2), Some(1.0)) {
        InferOutcome::Done(response) => {
            assert_eq!(response.steps_executed, 2);
            let expected = 100.0_f32 * 0.9_f32 * 0.9_f32;
            let got = float(response.prediction[0]);
            assert!((got - expected).abs() < 1e-4, "expected {expected} got {got}");
        }
        _ => panic!("expected a prediction"),
    }
}

#[test]
fn test_inference_message() {
    let msg = InferenceMessage::new("test-123".to_string(), singles(&[1.0, 2.0, 3.0]));
    assert_eq!(msg.request_id, "test-123");
    assert_eq!(msg.input.len(), 3);

    let arr = msg.to_array();
    assert_eq!(arr.len(), 3);
    assert!(msg.timestamp > 0);
}

#[test]
fn test_inference_response() {
    let resp =
        InferenceResponse::new("test-456".to_string(), singles(&[4.0, 5.0]), double(12.5), 2);
    assert_eq!(resp.request_id, "test-456");
    assert_eq!(resp.output.len(), 2);
    assert_eq!(wide(resp.latency_ms), 12.5);
    assert_eq!(resp.num_tokens, 2);

    let arr = resp.to_array();
    assert_eq!(arr.len(), 2);
}

#[test]
fn messages_of_a_socket_are_answered_in_kind() {
    let mut engine = engine_with_model();
    let message = InferenceMessage::new("t".to_string(), singles(&[8.0]));
    match on_event(&mut engine, &Numeric, ClientEvent::Text(Ok(message))) {
        Ok(ServerAction::SendText(response)) => assert_eq!(floats(&response.output), vec![4.0]),
        _ => panic!("expected a text"),
    }
    let message = InferenceMessage::new("b".to_string(), singles(&[6.0]));
    match on_event(&mut engine, &Numeric, ClientEvent::Binary(Ok(message))) {
        Ok(ServerAction::SendBinary(response)) => assert_eq!(floats(&response.output), vec![3.0]),
        _ => panic!("expected bytes"),
    }
    match on_event(&mut engine, &Numeric, ClientEvent::Ping(vec![1, 2])) {
        Ok(ServerAction::SendPong(data)) => assert_eq!(data, vec![1, 2]),
        _ => panic!("expected a pong"),
    }
    assert!(matches!(on_event(&mut engine, &Numeric, ClientEvent::Close), Ok(ServerAction::End)));
    assert!(matches!(on_event(&mut engine, &Numeric, ClientEvent::Pong), Ok(ServerAction::Wait)));
    let unreadable = ClientEvent::Text(Err("bad".to_string()));
    assert!(on_event(&mut engine, &Numeric, unreadable).is_err());
}

// Batches.

#[test]
fn test_batch_config() {
    let config =
        BatchConfig::new().max_batch_size(16).max_wait_ms(5).min_batch_size(4).with_priority();

    assert_eq!(config.max_batch_size, 16);
    assert_eq!(config.max_wait_ms, 5);
    assert_eq!(config.min_batch_size, 4);
    assert!(config.enable_priority);
}

#[test]
fn test_batch_request() {
    let request = BatchRequest::new(1, singles(&[1.0, 2.0, 3.0]), 10);

    assert_eq!(request.id, 1);
    assert_eq!(request.max_steps, 10);
    assert_eq!(request.current_step, 0);
    assert!(!request.is_complete());
}

#[test]
fn test_priority_ordering() {
    assert!(Priority::Critical > Priority::High);
    assert!(Priority::High > Priority::Normal);
    assert!(Priority::Normal > Priority::Low);
}

type TestScheduler = BatchScheduler<Halver, Numeric>;

fn scheduler(config: BatchConfig) -> InferenceResult<TestScheduler> {
    BatchScheduler::new(config, EngineConfig::new(3, 3), Numeric)
}

#[test]
fn test_scheduler_creation() {
    assert!(scheduler(BatchConfig::new()).is_ok());
}

#[test]
fn test_scheduler_submit() {
    let mut scheduler = scheduler(BatchConfig::new()).unwrap();
    let id = scheduler.submit(singles(&[1.0, 2.0, 3.0]), 5);

    assert_eq!(id, 0);
    assert_eq!(scheduler.stats().pending_requests, 1);
}

#[test]
fn test_scheduler_priority() {
    let mut scheduler = scheduler(BatchConfig::new().with_priority()).unwrap();
    let input = singles(&[1.0, 2.0, 3.0]);

    let _id1 = scheduler.submit_with_priority(input.clone(), 5, Priority::Low);
    let _id2 = scheduler.submit_with_priority(input.clone(), 5, Priority::High);
    let _id3 = scheduler.submit_with_priority(input.clone(), 5, Priority::Normal);

    assert_eq!(scheduler.pending(0).unwrap().priority, Priority::High);
    assert_eq!(scheduler.pending(1).unwrap().priority, Priority::Normal);
    assert_eq!(scheduler.pending(2).unwrap().priority, Priority::Low);
    assert_eq!(scheduler.stats().pending_requests, 3);
}

#[test]
fn test_scheduler_stats() {
    let mut scheduler = scheduler(BatchConfig::new()).unwrap();
    let input = singles(&[1.0, 2.0, 3.0]);
    scheduler.submit(input.clone(), 5);
    scheduler.submit(input.clone(), 5);

    let stats = scheduler.stats();
    assert_eq!(stats.pending_requests, 2);
    assert_eq!(stats.total_submitted, 2);
    scheduler.reset();
    assert!(!scheduler.has_work());
}

// Compression of states.

fn hidden(rows: usize, cols: usize, values: Vec<f32>) -> HiddenState {
    let mut state = HiddenState::new(rows, cols);
    state.values = singles(&values);
    state
}

fn mse(a: &HiddenState, b: &HiddenState) -> f32 {
    assert_eq!((a.rows, a.cols), (b.rows, b.cols), "shape mismatch in mse helper");
    let n = a.values.len().max(1) as f32;
    a.values
        .iter()
        .zip(b.values.iter())
        .map(|(x, y)| (float(*x) - float(*y)).powi(2))
        .sum::<f32>()
        / n
}

struct Random(u64);

impl Random {
    fn uniform(&mut self) -> f32 {
        self.0 = self.0.wrapping_mul(6364136223846793005).wrapping_add(1442695040888963407);
        (self.0 >> 40) as f32 / (1u64 << 24) as f32
    }
}

fn random_signed(rows: usize, cols: usize) -> HiddenState {
    let mut random = Random(42);
    let values = (0..rows * cols).map(|_| random.uniform() * 2.0 - 1.0).collect();
    hidden(rows, cols, values)
}

#[test]
fn test_compress_decompress_roundtrip_dense() {
    let original = random_signed(32, 64);
    let compressor = StateCompressor::new(CompressionMethod::Quantize8Bit);
    let compressed = compressor.compress(&Numeric, &original).unwrap();
    let decompressed = compressor.decompress(&Numeric, &compressed).unwrap();

    assert_eq!((decompressed.rows, decompressed.cols), (32, 64));
    let error = mse(&original, &decompressed);
    assert!(error < 1e-2, "8-bit roundtrip MSE {} exceeded 1e-2", error);
    assert_eq!(float(compressed.compression_ratio(&Numeric, 8)), 4.0);
}

#[test]
fn test_compress_decompress_sparse_high_ratio() {
    let (rows, cols) = (64, 128);
    let total = rows * cols;
    let mut random = Random(7);
    let values = (0..total)
        .map(|_| if random.uniform() < 0.9 { 0.0 } else { random.uniform() * 2.0 - 1.0 })
        .collect();
    let state = hidden(rows, cols, values);

    let compressor = StateCompressor::new(CompressionMethod::Sparse);
    let compressed = compressor.compress(&Numeric, &state).unwrap();
    let stored_elems = compressed.data.len() / 4;
    assert!(stored_elems < total / 4);

    let decompressed = compressor.decompress(&Numeric, &compressed).unwrap();
    assert_eq!((decompressed.rows, decompressed.cols), (rows, cols));
    let error = mse(&state, &decompressed);
    assert!(error < 1e-2, "sparse roundtrip MSE {} exceeded 1e-2", error);
}

#[test]
fn test_compress_decompress_multistep_drift() {
    let original = random_signed(16, 32);
    let compressor = StateCompressor::new(CompressionMethod::Quantize8Bit);

    let mut current = original.copy();
    for _ in 0..10 {
        let compressed = compressor.compress(&Numeric, &current).unwrap();
        current = compressor.decompress(&Numeric, &compressed).unwrap();
    }

    let drift = mse(&original, &current);
    assert!(drift < 1e-3, "cumulative 10-step drift MSE {} exceeded 1e-3", drift);
}

#[test]
fn test_compress_preserves_quantization_params() {
    let original = random_signed(8, 16);
    let compressor = StateCompressor::new(CompressionMethod::Quantize8Bit);
    let compressed = compressor.compress(&Numeric, &original).unwrap();

    assert!(float(compressed.scale) > 0.0);
    assert!((0..=255).contains(&compressed.zero_point));
    assert_eq!(compressed.shape, vec![8, 16]);
    assert_eq!(compressed.method(), CompressionMethod::Quantize8Bit);
}

#[test]
fn test_compress_empty_state() {
    let original = hidden(0, 0, vec![]);
    let compressor = StateCompressor::new(CompressionMethod::Uncompressed);

    let compressed = compressor.compress(&Numeric, &original).unwrap();
    assert_eq!(compressed.shape, vec![0, 0]);
    assert!(compressed.data.is_empty());

    let decompressed = compressor.decompress(&Numeric, &compressed).unwrap();
    assert_eq!((decompressed.rows, decompressed.cols), (0, 0));
    assert_eq!(decompressed.values.len(), 0);
}

#[test]
fn test_compress_single_element() {
    let original = hidden(1, 1, vec![0.42]);
    let compressor = StateCompressor::new(CompressionMethod::Uncompressed);
    let compressed = compressor.compress(&Numeric, &original).unwrap();
    let decompressed = compressor.decompress(&Numeric, &compressed).unwrap();

    assert_eq!((decompressed.rows, decompressed.cols), (1, 1));
    assert!((float(decompressed.values[0]) - 0.42).abs() < 1e-6);
}

#[test]
fn test_compress_all_zeros() {
    let original = hidden(16, 16, vec![0.0; 256]);

    let sparse = StateCompressor::new(CompressionMethod::Sparse);
    let compressed = sparse.compress(&Numeric, &original).unwrap();
    assert!(compressed.data.is_empty());
    let decompressed = sparse.decompress(&Numeric, &compressed).unwrap();
    assert_eq!((decompressed.rows, decompressed.cols), (16, 16));
    for v in floats(&decompressed.values) {
        assert!(v.abs() < 1e-6);
    }

    let none = StateCompressor::new(CompressionMethod::Uncompressed);
    let nc = none.compress(&Numeric, &original).unwrap();
    let nd = none.decompress(&Numeric, &nc).unwrap();
    for v in floats(&nd.values) {
        assert_eq!(v, 0.0);
    }
}

#[test]
fn test_compress_all_identical() {
    let original = hidden(16, 16, vec![0.5; 256]);
    let compressor = StateCompressor::new(CompressionMethod::Uncompressed);
    let compressed = compressor.compress(&Numeric, &original).unwrap();
    let decompressed = compressor.decompress(&Numeric, &compressed).unwrap();

    assert_eq!((decompressed.rows, decompressed.cols), (16, 16));
    for v in floats(&decompressed.values) {
        assert!((v - 0.5).abs() < 1e-6, "all-identical drifted: got {}", v);
    }
}

#[test]
fn test_decompress_preserves_shape() {
    let shapes = [(8usize, 8usize), (1, 64), (64, 1)];
    let compressor = StateCompressor::new(CompressionMethod::Quantize8Bit);

    for (rows, cols) in shapes {
        let state = random_signed(rows, cols);
        let compressed = compressor.compress(&Numeric, &state).unwrap();
        let decompressed = compressor.decompress(&Numeric, &compressed).unwrap();
        assert_eq!((decompressed.rows, decompressed.cols), (rows, cols));
        assert_eq!(compressed.shape, vec![rows, cols]);
    }
}

#[test]
fn test_compress_with_sparse_threshold_boundary() {
    let state = hidden(1, 4, vec![0.05, 0.10, 0.11, 0.50]);
    let compressor =
        StateCompressor::new(CompressionMethod::Sparse).with_sparsity_threshold(single(0.1));
    let compressed = compressor.compress(&Numeric, &state).unwrap();

    let indices = compressed.sparse_indices.as_ref().unwrap();
    assert_eq!(indices, &vec![2usize, 3usize]);
    assert_eq!(compressed.data.len() / 4, 2);

    let decompressed = floats(&compressor.decompress(&Numeric, &compressed).unwrap().values);
    assert!(decompressed[0].abs() < 1e-6);
    assert!(decompressed[1].abs() < 1e-6);
    assert!((decompressed[2] - 0.11).abs() < 1e-6);
    assert!((decompressed[3] - 0.50).abs() < 1e-6);
}

#[test]
fn values_that_do_not_fit_the_table_are_refused() {
    let state = hidden(2, 2, vec![1.0, 2.0, 3.0, 4.0]);
    let compressor = StateCompressor::new(CompressionMethod::Uncompressed);
    for (shape, cause) in [
        (vec![2, 3], "ShapeError/OutOfBounds: out of bounds indexing"),
        (vec![1, 3], "ShapeError/IncompatibleShape: incompatible shapes"),
        (vec![usize::MAX, 2], "ShapeError/Overflow: arithmetic overflow"),
    ] {
        let mut compressed = compressor.compress(&Numeric, &state).unwrap();
        compressed.shape = shape;
        match compressor.decompress(&Numeric, &compressed) {
            Err(InferenceError::ForwardError(text)) => assert_eq!(text, cause),
            _ => panic!("expected an error of the shape"),
        }
    }
    let sparse = StateCompressor::new(CompressionMethod::Sparse);
    let mut compressed = sparse.compress(&Numeric, &state).unwrap();
    compressed.sparse_indices = None;
    match sparse.decompress(&Numeric, &compressed) {
        Err(InferenceError::ForwardError(text)) => assert_eq!(text, "Missing sparse indices"),
        _ => panic!("expected an error of the places"),
    }
}

#[test]
fn four_bits_hold_two_values_to_a_byte() {
    let state = hidden(1, 3, vec![0.0, 15.0, 7.0]);
    let compressor = StateCompressor::new(CompressionMethod::Quantize4Bit);
    let compressed = compressor.compress(&Numeric, &state).unwrap();
    assert_eq!(compressed.data, vec![0x0f, 0x70]);
    let back = compressor.decompress(&Numeric, &compressed).unwrap();
    assert_eq!(floats(&back.values), vec![0.0, 15.0, 7.0]);
    let sparse = StateCompressor::new(CompressionMethod::QuantizedSparse);
    let compressed = sparse.compress(&Numeric, &state).unwrap();
    assert_eq!(compressed.sparse_indices, Some(vec![1, 2]));
    assert_eq!(compressed.data.len(), 2);
}

// Contexts and engines.

#[test]
fn test_context_creation() {
    let config = ContextConfig::new().max_context(100).num_layers(2);
    let ctx = InferenceContext::new(config);

    assert_eq!(ctx.step_count(), 0);
    assert_eq!(ctx.states().len(), 2);
}

#[test]
fn test_context_push() {
    let config = ContextConfig::new().store_history(true).max_context(5);
    let mut ctx = InferenceContext::new(config);

    for i in 0..10 {
        ctx.push(singles(&[i as f32]));
    }

    assert_eq!(ctx.step_count(), 10);
    assert_eq!(ctx.history_len(), 5);
    let recent = ctx.recent_history(2);
    assert_eq!(recent.len(), 2);
}

#[test]
fn test_context_reset() {
    let config = ContextConfig::new().store_history(true);
    let mut ctx = InferenceContext::new(config);

    ctx.push(singles(&[1.0]));
    ctx.push(singles(&[2.0]));

    assert_eq!(ctx.step_count(), 2);

    ctx.reset();

    assert_eq!(ctx.step_count(), 0);
    assert_eq!(ctx.history_len(), 0);
}

#[test]
fn test_engine_creation() {
    let engine: InferenceEngine<Halver, Numeric> =
        InferenceEngine::new(EngineConfig::new(3, 3), Numeric);

    assert_eq!(engine.step_count(), 0);
    assert!(!engine.has_model());
}

#[test]
fn test_engine_step_no_model() {
    let mut engine: InferenceEngine<Halver, Numeric> =
        InferenceEngine::new(EngineConfig::new(3, 3), Numeric);
    let output = engine.step(&singles(&[0.1, 0.2, 0.3]));
    assert!(output.is_err());
    assert!(matches!(output, Err(InferenceError::NotInitialized)));
}

#[test]
fn test_engine_with_model() {
    let model = Halver::new(ModelType::Rwkv, 64, 64, 2);
    let mut engine = InferenceEngine::with_model(EngineConfig::new(1, 10), model, Numeric);

    assert!(engine.has_model());

    let output = engine.step(&singles(&[0.5]));
    assert!(output.is_ok());
    assert_eq!(floats(&output.unwrap()), vec![0.25]);
    assert_eq!(engine.step_count(), 1);
    let mismatch = engine.step(&singles(&[0.5, 0.5]));
    assert!(matches!(mismatch, Err(InferenceError::DimensionMismatch { expected: 1, got: 2 })));
}

#[test]
fn test_engine_rollout() {
    let model = Halver::new(ModelType::S4D, 64, 16, 2);
    let mut engine = InferenceEngine::with_model(EngineConfig::new(1, 10), model, Numeric);

    let outputs = engine.rollout(&singles(&[0.5]), 5);

    assert!(outputs.is_ok());
    let outputs = outputs.unwrap();
    assert_eq!(outputs.len(), 5);
    assert_eq!(float(outputs[4][0]), 0.5 / 32.0);
    assert_eq!(engine.step_count(), 5);
}

#[test]
fn processing_ends_with_the_first_error() {
    let mut scheduler = scheduler(BatchConfig::new().min_batch_size(1)).unwrap();
    assert!(scheduler.can_process());
    assert!(scheduler.process_ready().unwrap().is_empty());

    scheduler.submit(singles(&[1.0, 2.0, 3.0]), 5);
    assert!(scheduler.can_process());
    assert!(scheduler.process_ready().is_err());
    assert!(scheduler.has_work());

    scheduler.reset();
    scheduler.submit(singles(&[1.0]), usize::MAX);
    assert!(!scheduler.can_process());
}

#[test]
fn sampler_can_be_changed() {
    let model = Halver::new(ModelType::S4D, 64, 16, 2);
    let mut engine = InferenceEngine::with_model(EngineConfig::new(1, 10), model, Numeric);
    *engine.sampler_mut() = Numeric;
    assert!(engine.step(&singles(&[0.1])).is_ok());
}

#[test]
fn weights_leave_a_model_as_it_is() {
    let registry = ModelRegistry::new();
    let mut model = 7u8;
    assert!(registry.load_weights(&mut model, "weights.bin").is_ok());
    assert_eq!(model, 7);
}

#[test]
fn test_engine_batch() {
    let model = Halver::new(ModelType::S4D, 64, 16, 2);
    let mut engine = InferenceEngine::with_model(EngineConfig::new(1, 10), model, Numeric);

    let inputs = vec![singles(&[0.1]), singles(&[0.2]), singles(&[0.3])];
    let outputs = engine.step_batch(&inputs);
    assert!(outputs.is_ok());
    assert_eq!(outputs.unwrap().len(), 3);
}

/// A model that adds up its inputs in its only state.
struct Adder;

impl AutoregressiveModel for Adder {
    fn advance(&self, states: &[HiddenState], input: &[Single]) -> ModelReply {
        let mut after = HiddenState::new(1, 1);
        after.values = vec![single(float(states[0].values[0]) + float(input[0]))];
        Ok((after.values.clone(), vec![after]))
    }

    fn get_states(&self) -> Vec<HiddenState> {
        vec![HiddenState::new(1, 1)]
    }

    fn model_type(&self) -> ModelType {
        ModelType::S4
    }

    fn hidden_dim(&self) -> usize {
        1
    }

    fn state_dim(&self) -> usize {
        1
    }

    fn num_layers(&self) -> usize {
        1
    }
}

fn firsts(outputs: &[Vec<Single>]) -> Vec<f32> {
    outputs.iter().map(|o| float(o[0])).collect()
}

#[test]
fn steps_go_on_from_the_states_before() {
    let mut engine = InferenceEngine::with_model(EngineConfig::new(1, 1), Adder, Numeric);
    assert_eq!(float(engine.step(&singles(&[1.0])).unwrap()[0]), 1.0);
    assert_eq!(float(engine.step(&singles(&[2.0])).unwrap()[0]), 3.0);
    assert_eq!(float(engine.context().states()[0].values[0]), 3.0);
    engine.reset();
    assert_eq!(float(engine.step(&singles(&[2.0])).unwrap()[0]), 2.0);
}

#[test]
fn inputs_of_a_batch_are_independent() {
    let mut config = EngineConfig::new(1, 1);
    config.context = config.context.store_history(true).max_context(2);
    let mut engine = InferenceEngine::with_model(config, Adder, Numeric);
    assert!(engine.step(&singles(&[10.0])).is_ok());
    let there = vec![singles(&[1.0]), singles(&[2.0]), singles(&[3.0])];
    let back = vec![singles(&[3.0]), singles(&[2.0]), singles(&[1.0])];
    assert_eq!(firsts(&engine.step_batch(&there).unwrap()), vec![11.0, 12.0, 13.0]);
    assert_eq!(firsts(&engine.step_batch(&back).unwrap()), vec![13.0, 12.0, 11.0]);
    assert_eq!(float(engine.context().states()[0].values[0]), 10.0);
    assert_eq!(engine.step_count(), 7);
    let past: Vec<f32> = engine.context().history().iter().map(|x| float(x[0])).collect();
    assert_eq!(past, vec![2.0, 1.0]);
}

#[test]
fn an_input_of_another_dimension_ends_a_batch() {
    let mut engine = InferenceEngine::with_model(EngineConfig::new(1, 1), Adder, Numeric);
    let inputs = vec![singles(&[1.0]), singles(&[1.0, 2.0]), singles(&[3.0])];
    assert!(matches!(
        engine.step_batch(&inputs),
        Err(InferenceError::DimensionMismatch { expected: 1, got: 2 })
    ));
    assert_eq!(engine.step_count(), 1);
}

#[test]
fn a_window_of_no_size_keeps_nothing() {
    let config = ContextConfig::new().store_history(true).max_context(0);
    let mut ctx = InferenceContext::new(config);
    ctx.push(singles(&[1.0]));
    ctx.push(singles(&[2.0]));
    assert_eq!(ctx.history_len(), 0);
    assert_eq!(ctx.step_count(), 2);
}

#[test]
fn a_request_keeps_an_output_for_each_step() {
    let mut request = BatchRequest::new(1, singles(&[8.0]), 2);
    request.advance(&singles(&[4.0]));
    assert!(!request.is_complete());
    request.advance(&singles(&[2.0]));
    assert!(request.is_complete());
    assert_eq!(firsts(&request.outputs), vec![4.0, 2.0]);
    assert_eq!(float(request.input[0]), 2.0);
}

#[test]
fn a_request_for_no_steps_is_answered_at_once() {
    let mut scheduler = scheduler(BatchConfig::new()).unwrap();
    let id = scheduler.submit(singles(&[1.0]), 0);
    let responses = scheduler.step().unwrap();
    assert_eq!(responses.len(), 1);
    assert_eq!(responses[0].request_id, id);
    assert!(responses[0].is_complete);
    assert_eq!(responses[0].steps_completed, 0);
    assert!(responses[0].outputs.is_empty());
    assert!(!scheduler.has_work());
}

#[test]
fn equal_priorities_keep_the_order_of_submission() {
    let mut scheduler = scheduler(BatchConfig::new().with_priority()).unwrap();
    for priority in [Priority::Normal, Priority::Critical, Priority::Normal, Priority::Critical] {
        scheduler.submit_with_priority(singles(&[1.0]), 1, priority);
    }
    let ids: Vec<u64> = (0..4).map(|i| scheduler.pending(i).unwrap().id).collect();
    assert_eq!(ids, vec![1, 3, 0, 2]);
}

#[test]
fn test_model_info() {
    let model = Halver::new(ModelType::Rwkv, 128, 64, 4);
    let engine = InferenceEngine::with_model(EngineConfig::new(1, 50), model, Numeric);

    let info = engine.model_info();
    assert!(info.is_some());

    let info = info.unwrap();
    assert_eq!(info.hidden_dim, 128);
    assert_eq!(info.num_layers, 4);
}

#[test]
fn embeddings_are_sampled_and_temperatures_scale() {
    let model = Halver::new(ModelType::S4D, 2, 2, 1);
    let config = EngineConfig::new(3, 3).use_embeddings(true);
    let mut engine = InferenceEngine::with_model(config, model, Numeric);
    assert_eq!(floats(&engine.step(&singles(&[1.0, 4.0, 2.0])).unwrap()), vec![1.0]);

    let mut sampling = SamplingConfig::default();
    sampling.temperature = single(2.0);
    let config = EngineConfig::new(1, 1).sampling(sampling);
    let mut engine = InferenceEngine::with_model(config, model, Numeric);
    assert_eq!(floats(&engine.step(&singles(&[3.0])).unwrap()), vec![3.0]);
}

#[test]
fn low_memory_trims_the_history() {
    let model = Halver::new(ModelType::S4D, 2, 2, 1);
    let config = EngineConfig::new(1, 1)
        .context(ContextConfig::new().store_history(true))
        .inference_mode(InferenceMode::LowMemory)
        .max_history_length(2);
    let mut engine = InferenceEngine::with_model(config, model, Numeric);
    engine.rollout(&singles(&[1.0]), 5).unwrap();
    assert!(engine.context().history_len() <= 2);
    assert_eq!(engine.step_count(), 5);
}

// Replacing models.

#[test]
fn test_swap_strategy() {
    let immediate = SwapStrategy::Immediate;
    let graceful = SwapStrategy::Graceful;
    let gradual = SwapStrategy::Gradual { percentage: 50 };

    assert_eq!(immediate, SwapStrategy::Immediate);
    assert_eq!(graceful, SwapStrategy::Graceful);
    assert_eq!(gradual, SwapStrategy::Gradual { percentage: 50 });
}

fn instance(id: &str, version: &str) -> ModelInstance<Halver> {
    let config = ModelConfig::new(ModelType::S4D);
    let mut registry = ModelRegistry::new();
    registry.register("test_model".to_string(), config.clone());
    let model = registry.create_model(&Factory, "test_model").unwrap();
    ModelInstance::new(id.to_string(), version.to_string(), model, config)
}

#[test]
fn test_model_instance_request_tracking() {
    let mut instance = instance("test", "1.0.0");

    assert_eq!(instance.request_count(), 0);

    instance.acquire();
    assert_eq!(instance.request_count(), 1);

    instance.acquire();
    assert_eq!(instance.request_count(), 2);

    instance.release();
    assert_eq!(instance.request_count(), 1);

    instance.release();
    assert_eq!(instance.request_count(), 0);
    instance.release();
    assert_eq!(instance.request_count(), 0);
}

#[test]
fn test_hotswap_manager_creation() {
    let manager = HotSwapManager::new(instance("initial", "1.0.0"));
    assert_eq!(manager.active_model().version, "1.0.0");
}

#[test]
fn test_rollback_without_previous() {
    let mut manager = HotSwapManager::new(instance("initial", "1.0.0"));
    let result = manager.rollback();
    assert!(result.is_err());
}

#[test]
fn a_swap_can_be_rolled_back() {
    let mut manager = HotSwapManager::new(instance("initial", "1.0.0"));
    let fresh = Halver::new(ModelType::S4D, 4, 4, 1);
    let config = ModelConfig::new(ModelType::S4D);
    manager.prepare_swap("next".to_string(), "2.0.0".to_string(), fresh, config).unwrap();
    assert_eq!(manager.staged_models(), vec!["next".to_string()]);
    assert!(manager.activate("missing", SwapStrategy::Immediate).is_err());
    manager.activate("next", SwapStrategy::Immediate).unwrap();
    assert_eq!(manager.active_model().version, "2.0.0");
    manager.rollback().unwrap();
    assert_eq!(manager.active_model().version, "1.0.0");
    assert!(manager.history().len() >= 1);
}

#[test]
fn draining_waits_for_requests_but_not_forever() {
    assert_eq!(drain_step(0, Span::from_secs(0)), DrainStep::Proceed);
    assert!(matches!(drain_step(1, Span::from_secs(1)), DrainStep::Wait { .. }));
    assert_eq!(drain_step(1, Span::from_secs(61)), DrainStep::Proceed);
}

// Models.

#[test]
fn test_model_config_builder() {
    let config = ModelConfig::new(ModelType::Mamba2)
        .input_dim(3)
        .hidden_dim(128)
        .num_layers(2)
        .output_dim(3);

    assert_eq!(config.model_type, ModelType::Mamba2);
    assert_eq!(config.input_dim, 3);
    assert_eq!(config.hidden_dim, 128);
    assert_eq!(config.num_layers, 2);
}

#[test]
fn test_registry_register() {
    let mut registry = ModelRegistry::new();
    let config = ModelConfig::new(ModelType::Rwkv);

    registry.register("test_model".to_string(), config);

    assert!(registry.get_config("test_model").is_some());
    assert_eq!(registry.list_models().len(), 1);
}

#[test]
fn test_model_builder() {
    let config = ModelBuilder::s4d().dims(1, 256, 1).layers(4).state_dim(16).build();

    assert_eq!(config.model_type, ModelType::S4D);
    assert_eq!(config.hidden_dim, 256);
    assert_eq!(config.num_layers, 4);
}

#[test]
fn test_create_rwkv_model() {
    let mut registry = ModelRegistry::new();
    let config = ModelBuilder::rwkv().dims(1, 64, 10).layers(2).build();
    registry.register("rwkv_test".to_string(), config);

    let result = registry.create_model(&Factory, "rwkv_test");
    assert!(result.is_ok());

    let model = result.unwrap();
    assert_eq!(model.model_type(), ModelType::Rwkv);
    assert_eq!(model.hidden_dim(), 64);
}

#[test]
fn test_create_s4_model() {
    let mut registry = ModelRegistry::new();
    let config = ModelBuilder::s4d().dims(1, 128, 10).layers(3).build();
    registry.register("s4_test".to_string(), config);

    let result = registry.create_model(&Factory, "s4_test");
    assert!(result.is_ok());
    assert_eq!(result.unwrap().model_type(), ModelType::S4D);
}

#[test]
fn test_create_transformer_model() {
    let mut registry = ModelRegistry::new();
    let config = ModelBuilder::transformer().dims(1, 128, 10).layers(2).build();
    registry.register("transformer_test".to_string(), config);

    let result = registry.create_model(&Factory, "transformer_test");
    assert!(result.is_ok());
    assert_eq!(result.unwrap().model_type(), ModelType::Transformer);
    assert!(registry.create_model(&Factory, "missing").is_err());
}

// Speculation.

#[test]
fn test_speculative_config() {
    let config = SpeculativeConfig::new()
        .num_draft_tokens(5)
        .draft_temperature(single(0.8))
        .main_temperature(single(1.2))
        .greedy_verification(false);

    assert_eq!(config.num_draft_tokens, 5);
    assert!((float(config.draft_temperature) - 0.8).abs() < 1e-6);
    assert!((float(config.main_temperature) - 1.2).abs() < 1e-6);
    assert!(!config.greedy_verification);
}

#[test]
fn test_speculative_decoder_creation() {
    let draft = Halver::new(ModelType::S4D, 32, 8, 1);
    let main = Halver::new(ModelType::S4D, 64, 16, 2);
    let config = SpeculativeConfig::new().num_draft_tokens(3);
    let decoder = SpeculativeDecoder::new(main, draft, config, Numeric);

    assert_eq!(decoder.config().num_draft_tokens, 3);
    assert_eq!(float(decoder.acceptance_rate(&Numeric)), 0.0);
}

#[test]
fn test_speculative_generation() {
    let draft = Halver::new(ModelType::S4D, 32, 8, 1);
    let main = Halver::new(ModelType::S4D, 64, 16, 2);
    let config = SpeculativeConfig::new().num_draft_tokens(2);
    let mut decoder = SpeculativeDecoder::new(main, draft, config, Numeric);

    let result = decoder.generate(&singles(&[0.5]), 10);

    assert!(result.is_ok());
    let sequence = result.unwrap();
    assert_eq!(sequence.len(), 10);

    let acc_rate = float(decoder.acceptance_rate(&Numeric));
    assert!((0.0..=1.0).contains(&acc_rate));
}

#[test]
fn a_draft_that_disagrees_is_corrected() {
    let mut draft = Halver::new(ModelType::S4D, 32, 8, 1);
    draft.factor = 2.0;
    let main = Halver::new(ModelType::S4D, 64, 16, 2);
    let config = SpeculativeConfig::new().num_draft_tokens(4).greedy_verification(true);
    let mut decoder = SpeculativeDecoder::new(main, draft, config, Numeric);
    let sequence = decoder.generate(&singles(&[8.0]), 3).unwrap();
    let tokens: Vec<f32> = sequence.iter().map(|t| float(t[0])).collect();
    assert_eq!(tokens, vec![4.0, 2.0, 1.0]);
    assert_eq!(float(decoder.acceptance_rate(&Numeric)), 0.0);
    decoder.reset_stats();
    assert_eq!(float(decoder.acceptance_rate(&Numeric)), 0.0);
}

/// A model that halves its input and fails on what is below a limit.
struct Limited {
    inner: Halver,
    limit: f32,
}

impl Limited {
    fn new(limit: f32) -> Self {
        Limited { inner: Halver::new(ModelType::S4D, 32, 8, 1), limit }
    }
}

impl AutoregressiveModel for Limited {
    fn advance(&self, states: &[HiddenState], input: &[Single]) -> ModelReply {
        if float(input[0]) < self.limit {
            Err(format!("{} is below {}", float(input[0]), self.limit))
        } else {
            self.inner.advance(states, input)
        }
    }

    fn get_states(&self) -> Vec<HiddenState> {
        self.inner.get_states()
    }

    fn model_type(&self) -> ModelType {
        self.inner.model_type()
    }

    fn hidden_dim(&self) -> usize {
        self.inner.hidden_dim()
    }

    fn state_dim(&self) -> usize {
        self.inner.state_dim()
    }

    fn num_layers(&self) -> usize {
        self.inner.num_layers()
    }
}

#[test]
fn speculation_gives_what_the_main_model_gives() {
    let config = SpeculativeConfig::new().num_draft_tokens(3);
    let mut decoder = SpeculativeDecoder::new(Adder, Adder, config, Numeric);
    let sequence = decoder.generate(&singles(&[1.0]), 6).unwrap();
    let mut alone = InferenceEngine::with_model(EngineConfig::new(1, 1), Adder, Numeric);
    let expected = alone.rollout(&singles(&[1.0]), 6).unwrap();
    assert_eq!(firsts(&sequence), firsts(&expected));
    let draft = Halver::new(ModelType::S4, 1, 1, 1);
    let mut corrected = SpeculativeDecoder::new(Adder, draft, config, Numeric);
    let sequence = corrected.generate(&singles(&[1.0]), 6).unwrap();
    assert_eq!(firsts(&sequence), firsts(&expected));
}

#[test]
fn the_configuration_picks_the_samplings() {
    let config = SpeculativeConfig::new()
        .draft_temperature(single(0.8))
        .main_temperature(single(1.2));
    let (draft, main) = samplings(&config);
    assert_eq!(draft.temperature, single(0.8));
    assert_eq!(draft.strategy, SamplingStrategy::Temperature);
    assert_eq!(main.temperature, single(1.2));
    assert_eq!(main.strategy, SamplingStrategy::Greedy);
    let (_, main) = samplings(&config.greedy_verification(false));
    assert_eq!(main.strategy, SamplingStrategy::Temperature);
}

#[test]
fn a_failing_draft_ends_decoding() {
    let config = SpeculativeConfig::new().num_draft_tokens(2);
    let mut decoder = SpeculativeDecoder::new(Limited::new(0.0), Limited::new(1.0), config, Numeric);
    match decoder.generate(&singles(&[8.0]), 9) {
        Err(InferenceError::ForwardError(text)) => assert_eq!(text, "0.5 is below 1"),
        _ => panic!("the draft model fails on 0.5"),
    }
    assert_eq!(float(decoder.acceptance_rate(&Numeric)), 1.0);
    assert_eq!(decoder.generate(&singles(&[8.0]), 3).unwrap().len(), 3);
}

#[test]
fn a_failing_main_model_ends_decoding() {
    let config = SpeculativeConfig::new().num_draft_tokens(2);
    let mut decoder = SpeculativeDecoder::new(Limited::new(3.0), Limited::new(0.0), config, Numeric);
    match decoder.generate(&singles(&[8.0]), 3) {
        Err(InferenceError::ForwardError(text)) => assert_eq!(text, "2 is below 3"),
        _ => panic!("the main model fails on 2"),
    }
    assert_eq!(float(decoder.acceptance_rate(&Numeric)), 0.0);
}

#[test]
fn no_draft_is_asked_for_no_candidates() {
    let config = SpeculativeConfig::new().num_draft_tokens(0);
    let mut decoder = SpeculativeDecoder::new(Limited::new(0.0), Limited::new(99.0), config, Numeric);
    let sequence = decoder.generate(&singles(&[8.0]), 2).unwrap();
    let tokens: Vec<f32> = sequence.iter().map(|t| float(t[0])).collect();
    assert_eq!(tokens, vec![4.0, 2.0]);
}

// Streams.

#[test]
fn test_streaming_engine_creation() {
    let engine: InferenceResult<TestEngine> = StreamingEngine::new(StreamConfig::new(), Numeric);
    assert!(engine.is_ok());
}

#[test]
fn test_step_async() {
    let mut engine = engine_with_model();
    let result = engine.step(&singles(&[0.5]));
    assert!(result.is_ok());
}

#[test]
fn test_rollout_async() {
    let mut engine = engine_with_model();
    let result = engine.rollout(&singles(&[0.5]), 10);
    assert!(result.is_ok());
    assert_eq!(result.unwrap().len(), 10);
}

#[test]
fn batches_are_answered_while_somebody_listens() {
    let mut engine = engine_with_model();
    let mut batch = vec![singles(&[1.0]), singles(&[1.0, 2.0]), singles(&[3.0])];
    assert!(engine.process_batch(&mut batch, true).unwrap().is_ok());
    assert!(engine.process_batch(&mut batch, true).unwrap().is_err());
    assert!(engine.process_batch(&mut batch, true).unwrap().is_ok());
    assert!(engine.process_batch(&mut batch, true).is_none());
    let mut batch = vec![singles(&[1.0]), singles(&[2.0]), singles(&[3.0])];
    let count = engine.step_count();
    assert!(engine.process_batch(&mut batch, true).unwrap().is_ok());
    assert_eq!(batch, vec![singles(&[2.0]), singles(&[3.0])]);
    assert!(engine.process_batch(&mut batch, false).is_none());
    assert!(batch.is_empty());
    assert_eq!(engine.step_count(), count + 1);
}

#[test]
fn test_stream_metrics() {
    let mut metrics = StreamMetrics::new();
    metrics.update(&Numeric, 10, 1000);
    metrics.update(&Numeric, 5, 2000);

    assert_eq!(metrics.samples_processed, 15);
    assert_eq!(metrics.batches_processed, 2);
    assert!((float(metrics.avg_batch_size) - 7.5).abs() < 0.001);
    assert_eq!(metrics.peak_latency_us, 2000);
}

#[test]
fn batches_are_cut_by_size_and_by_time() {
    let config = StreamConfig::new().batch_size(2).max_latency_ms(10);
    let mut buffer: BatchBuffer<u32> = BatchBuffer::new(&config);
    assert_eq!(buffer.on_input(1, Span::from_millis(0)), None);
    assert_eq!(buffer.on_input(2, Span::from_millis(0)), Some(vec![1, 2]));
    assert_eq!(buffer.on_input(3, Span::from_millis(11)), Some(vec![3]));
    assert_eq!(buffer.drain(), None);
    assert_eq!(buffer.on_input(4, Span::from_millis(0)), None);
    assert_eq!(buffer.drain(), Some(vec![4]));
}

#[test]
fn transformers_map_chunk_and_settle() {
    assert_eq!(MapTransformer::new(|x: u32| x + 1).apply(2u32), 3);
    let chunks = BufferTransformer::new(2).transform(vec![1, 2, 3]);
    assert_eq!(chunks, vec![vec![1, 2], vec![3]]);
    let mut debouncer = Debouncer::new();
    debouncer.on_item(1);
    debouncer.on_item(2);
    assert_eq!(debouncer.on_pause(), Some(2));
    assert_eq!(debouncer.on_pause(), None);
}

// Versions.

#[test]
fn test_model_version_creation() {
    let version = ModelVersion::new(1, 2, 3);
    assert_eq!(version.major, 1);
    assert_eq!(version.minor, 2);
    assert_eq!(version.patch, 3);
}

#[test]
fn test_model_version_parse() {
    let version = ModelVersion::parse("1.2.3").unwrap();
    assert_eq!(version.major, 1);
    assert_eq!(version.minor, 2);
    assert_eq!(version.patch, 3);
    assert_eq!(version.to_text(), "1.2.3");
}

#[test]
fn test_model_version_parse_invalid() {
    assert!(ModelVersion::parse("1.2").is_err());
    assert!(ModelVersion::parse("1.2.x").is_err());
}

#[test]
fn test_model_version_compatibility() {
    let v1 = ModelVersion::new(1, 2, 3);
    let v2 = ModelVersion::new(1, 3, 0);
    let v3 = ModelVersion::new(2, 0, 0);

    assert!(v1.is_compatible_with(&v2));
    assert!(!v1.is_compatible_with(&v3));
}

#[test]
fn test_model_version_ordering() {
    let v1 = ModelVersion::new(1, 0, 0);
    let v2 = ModelVersion::new(1, 1, 0);
    let v3 = ModelVersion::new(2, 0, 0);

    assert!(v1 < v2);
    assert!(v2 < v3);
    assert!(v1 < v3);
    assert!(v1.precedes(&v2));
    assert!(!v2.precedes(&v1));
}

#[test]
fn test_health_status() {
    assert!(HealthCheck::new(HealthStatus::Healthy).is_usable());
    assert!(HealthCheck::new(HealthStatus::Degraded).is_usable());
    assert!(!HealthCheck::new(HealthStatus::Unhealthy).is_usable());
}

#[test]
fn test_model_stats() {
    let mut stats = ModelStats::default();

    stats.record_success(&Numeric, double(100.0));
    stats.record_success(&Numeric, double(200.0));
    stats.record_error(&Numeric, double(300.0));

    assert_eq!(stats.total_requests, 3);
    assert_eq!(stats.total_errors, 1);
    assert_eq!(wide(stats.avg_latency_ms(&Numeric)), 200.0);
    assert_eq!(wide(stats.error_rate(&Numeric)), 1.0 / 3.0);
}

#[test]
fn test_model_stats_health_check() {
    let mut stats = ModelStats::default();

    stats.record_success(&Numeric, double(50.0));
    stats.record_success(&Numeric, double(60.0));
    let check = stats.to_health_check(&Numeric, &VersioningConfig::default());
    assert_eq!(check.status, HealthStatus::Healthy);

    stats.record_error(&Numeric, double(100.0));
    stats.record_error(&Numeric, double(100.0));
    stats.record_error(&Numeric, double(100.0));
    let check = stats.to_health_check(&Numeric, &VersioningConfig::default());
    assert_eq!(check.status, HealthStatus::Unhealthy);
}

fn metadata(version: ModelVersion) -> ModelMetadata {
    ModelMetadata::new("test-model".to_string(), version, "transformer".to_string())
}

#[test]
fn test_version_manager_register() {
    let mut manager = ModelVersionManager::new(VersioningConfig::default());
    manager.register_version(metadata(ModelVersion::new(1, 0, 0)), true).unwrap();

    let versions = manager.list_versions("test-model");
    assert_eq!(versions.len(), 1);
}

#[test]
fn test_version_manager_active_version() {
    let mut manager = ModelVersionManager::new(VersioningConfig::default());
    let v1 = ModelVersion::new(1, 0, 0);
    manager.register_version(metadata(v1), true).unwrap();
    manager.set_active_version("test-model", v1).unwrap();

    let active = manager.get_active_version("test-model");
    assert_eq!(active, Some(v1));
    assert!(manager.set_active_version("test-model", ModelVersion::new(9, 9, 9)).is_err());
}

#[test]
fn test_version_manager_record_request() {
    let mut manager = ModelVersionManager::new(VersioningConfig::default());
    let v1 = ModelVersion::new(1, 0, 0);
    manager.register_version(metadata(v1), true).unwrap();

    manager.record_request(&Numeric, "test-model", &v1, double(100.0), false).unwrap();
    manager.record_request(&Numeric, "test-model", &v1, double(200.0), true).unwrap();

    let stats = manager.get_stats("test-model", &v1).unwrap();
    assert_eq!(stats.total_requests, 2);
    assert_eq!(stats.total_errors, 1);
}

#[test]
fn test_version_manager_fallback() {
    let config = VersioningConfig {
        fallback_strategy: FallbackStrategy::PreviousStable,
        ..Default::default()
    };
    let mut manager = ModelVersionManager::new(config);

    let v1 = ModelVersion::new(1, 0, 0);
    let v2 = ModelVersion::new(1, 1, 0);
    manager.register_version(metadata(v1), true).unwrap();
    manager.register_version(metadata(v2), false).unwrap();

    let fallback = manager.get_fallback_version("test-model", &v2);
    assert_eq!(fallback, Some(v1));
}

#[test]
fn a_newer_version_is_no_fallback() {
    let mut manager = ModelVersionManager::new(VersioningConfig::default());
    for minor in 0..3 {
        manager.register_version(metadata(ModelVersion::new(1, minor, 0)), true).unwrap();
    }
    let fallback = |v| manager.get_fallback_version("test-model", &ModelVersion::new(1, v, 0));
    assert_eq!(fallback(1), Some(ModelVersion::new(1, 0, 0)));
    assert_eq!(fallback(2), Some(ModelVersion::new(1, 1, 0)));
    assert_eq!(fallback(0), None);
}

#[test]
fn the_configured_limits_decide_on_health() {
    let v1 = ModelVersion::new(1, 0, 0);
    let check = |config: VersioningConfig| {
        let mut manager = ModelVersionManager::new(config);
        manager.register_version(metadata(v1), true).unwrap();
        for i in 0..5 {
            manager
                .record_request(&Numeric, "test-model", &v1, double(50.0), i == 4)
                .unwrap();
        }
        manager.health_check(&Numeric, "test-model", &v1).unwrap()
    };
    let health = check(VersioningConfig::default());
    assert_eq!(health.request_count, 5);
    assert_eq!(wide(health.error_rate), 0.2);
    assert_eq!(health.status, HealthStatus::Unhealthy);
    let lenient = VersioningConfig { max_error_rate: double(0.3), ..Default::default() };
    assert_eq!(check(lenient).status, HealthStatus::Healthy);
    let hasty = VersioningConfig { max_latency_ms: double(40.0), ..lenient };
    assert_eq!(check(hasty).status, HealthStatus::Degraded);
}

#[test]
fn test_version_manager_health_check() {
    let mut manager = ModelVersionManager::new(VersioningConfig::default());
    let v1 = ModelVersion::new(1, 0, 0);
    manager.register_version(metadata(v1), true).unwrap();

    manager.record_request(&Numeric, "test-model", &v1, double(50.0), false).unwrap();
    manager.record_request(&Numeric, "test-model", &v1, double(60.0), false).unwrap();

    let health = manager.health_check(&Numeric, "test-model", &v1).unwrap();
    assert_eq!(health.status, HealthStatus::Healthy);
}

#[test]
fn created_metadata_carries_a_date() {
    let data = metadata(ModelVersion::new(1, 0, 0)).with_checksum("ab".to_string());
    assert!(data.created_at.len() > 10);
    assert!(data.created_at.contains('T'));
    assert_eq!(data.checksum, Some("ab".to_string()));
    let data = data.add_metadata("k".to_string(), "v".to_string());
    assert_eq!(data.extra.get("k"), Some(&"v".to_string()));
}
