//! Streams, formats and protocols.

use bytes::Bytes;
use kizzasi::arith::Arithmetic;
use kizzasi::error::{InferenceError, IoError};
use kizzasi::io::audio::{
    choose_host, find_device, no_default_device, AudioBackend, AudioConfig, AudioInput,
    AudioOutput, HostChoice, RateMath,
};
use kizzasi::io::backoff::next_delay;
use kizzasi::io::compression::{
    AdaptiveCompressor, CompressionMethod, SampleMath, SignalCompressor,
};
use kizzasi::io::file::{
    channel_ints, column_of, dataset_2d, failure, row_texts, sample_ints, CsvReader, FileStep,
    NumberParse, WavMath, WavReader, WavSpec,
};
use kizzasi::io::mqtt::{
    unpublished, unreadable, MqttClient, MqttConfig, MqttMessage, MqttStream, QosLevel,
    TlsConfig, TlsFile,
};
use kizzasi::io::osc::{
    matches_pattern, message_in, receive, shallow, to_wire_all, OscArg, OscMessage, OscServer,
    WireArg, WirePacket,
};
use kizzasi::io::recorder::{
    binary_header, config_bytes, csv_header, encode_binary, encode_csv, FileBytes, NumberText,
    RecordedFrame, RecorderConfig, RecorderFormat, StreamPlayer, StreamRecorder,
};
use kizzasi::io::ros2::{QosProfile, Ros2Config, Ros2MessageType, Ros2Stream, Subscription};
use kizzasi::io::stream::{
    ChannelState, MemoryStream, RingBuffer, SignalRingBuffer, SignalStream,
    StreamConfig,
};
use kizzasi::io::websocket::{
    unclosed, unsent, Outgoing, SocketAction, SocketEvent, WebSocketConfig, WebSocketStream,
};
use kizzasi::io::zeromq::{
    recv, send, PullOutcome, SendOutcome, SendSocket, ZmqConfig, ZmqMessage, ZmqPattern,
    ZmqStream,
};
use kizzasi::matrix::Matrix;
use kizzasi::names::NamedMap;
use kizzasi::number::{Double, RatioMath, Single};
use kizzasi::time::Span;
use std::io::Cursor;
use std::time::Instant;

fn single(x: f32) -> Single {
    Single::from_bits(x.to_bits())
}

fn float(x: Single) -> f32 {
    f32::from_bits(x.to_bits())
}

fn double(x: f64) -> Double {
    Double::from_bits(x.to_bits())
}

fn wide(x: Double) -> f64 {
    f64::from_bits(x.to_bits())
}

fn singles(values: &[f32]) -> Vec<Single> {
    values.iter().map(|&x| single(x)).collect()
}

fn floats(values: &[Single]) -> Vec<f32> {
    values.iter().map(|&x| float(x)).collect()
}

#[derive(Debug, Clone, Copy)]
struct Numeric;

impl Arithmetic<Single> for Numeric {
    fn sum(&self, a: Single, b: Single) -> Single {
        single(float(a) + float(b))
    }

    fn difference(&self, a: Single, b: Single) -> Single {
        single(float(a) - float(b))
    }

    fn product(&self, a: Single, b: Single) -> Single {
        single(float(a) * float(b))
    }

    fn quotient(&self, a: Single, b: Single) -> Single {
        single(float(a) / float(b))
    }

    fn over(&self, a: Single, count: usize) -> Single {
        single(float(a) / count as f32)
    }

    fn root(&self, a: Single) -> Single {
        single(float(a).sqrt())
    }
}

impl RatioMath for Numeric {
    fn ratio(&self, part: usize, whole: usize) -> Single {
        single(part as f32 / whole as f32)
    }
}

impl SampleMath for Numeric {
    fn nearest(&self, part: Single, levels: u32) -> u16 {
        (float(part) * levels as f32).round() as u16
    }

    fn part(&self, level: u16, levels: u32) -> Single {
        single(level as f32 / levels as f32)
    }
}

impl RateMath for Numeric {
    fn rate(&self, hz: u32) -> Single {
        single(hz as f32)
    }
}

impl WavMath for Numeric {
    fn from_int(&self, sample: i32, bits: u16) -> Single {
        let max_val = (1i64 << (bits - 1)) as f32;
        single(sample as f32 / max_val)
    }

    fn to_int(&self, sample: Single, bits: u16) -> i32 {
        let max_val = (1i64 << (bits - 1)) as f32;
        (float(sample) * max_val) as i32
    }

    fn point_samples(&self, data: &Vec<u8>) -> Result<Vec<Single>, String> {
        let reader = hound::WavReader::new(Cursor::new(data)).map_err(|e| e.to_string())?;
        reader
            .into_samples::<f32>()
            .map(|s| s.map(single).map_err(|e| e.to_string()))
            .collect()
    }
}

impl NumberParse for Numeric {
    fn parse(&self, text: &String) -> Result<Single, String> {
        text.parse::<f32>().map(single).map_err(|e| e.to_string())
    }
}

impl NumberText for Numeric {
    fn single(&self, x: Single) -> String {
        float(x).to_string()
    }

    fn double(&self, x: Double) -> String {
        wide(x).to_string()
    }
}

// Sound devices.

#[test]
fn test_audio_config() {
    let config = AudioConfig::new().sample_rate(48000).channels(2).buffer_size(2048);

    assert_eq!(config.sample_rate, 48000);
    assert_eq!(config.channels, 2);
    assert_eq!(config.buffer_size, 2048);
    assert!(!config.output);
}

#[test]
fn test_audio_config_output() {
    let config = AudioConfig::new_output().sample_rate(44100).channels(1);

    assert_eq!(config.sample_rate, 44100);
    assert_eq!(config.channels, 1);
    assert!(config.output);
}

#[test]
fn captured_frames_are_read_row_by_row() {
    let config = AudioConfig::new().channels(2).buffer_size(2);
    let mut input = AudioInput::new(&Numeric, config).unwrap();
    input.captured(&singles(&[1.0, 2.0, 3.0, 4.0]));
    let table = input.read_channels().unwrap();
    assert_eq!((table.nrows(), table.ncols()), (2, 2));
    assert_eq!(floats(table.row(0)), vec![1.0, 2.0]);
    assert_eq!(floats(table.row(1)), vec![3.0, 4.0]);
    assert!(input.started(Err("gone".to_string())).is_err());
    assert!(input.started(Ok(())).is_ok());
    assert!(input.is_active());
    assert!(input.stop().is_ok());
    assert!(!input.is_active());
}

#[test]
fn played_samples_come_out_in_order() {
    let mut output = AudioOutput::new(&Numeric, AudioConfig::new_output()).unwrap();
    assert!(output.started(Ok(())).is_ok());
    assert!(output.write(&singles(&[1.0, 2.0, 3.0])).is_ok());
    assert_eq!(output.buffer_level(), 3);
    assert_eq!(floats(&output.fill(2)), vec![1.0, 2.0]);
    assert_eq!(floats(&output.fill(2)), vec![0.0, 0.0]);
    assert_eq!(output.buffer_level(), 1);
    assert_eq!(output.underrun_count(), 1);
    assert!(output.clear_buffer().is_ok());
    assert!(output.stop().is_ok());
}

#[test]
fn devices_are_found_by_name() {
    let names = vec![Some("a".to_string()), None, Some("b".to_string())];
    assert_eq!(find_device(&names, "b").unwrap(), 2);
    assert!(find_device(&names, "c").is_err());
    assert_ne!(no_default_device(true).to_text(), no_default_device(false).to_text());
    assert_eq!(choose_host(AudioBackend::Default, false).unwrap(), HostChoice::Default);
    assert_eq!(choose_host(AudioBackend::Asio, true).unwrap(), HostChoice::Asio);
    assert!(choose_host(AudioBackend::Asio, false).is_err());
}

// Compression.

#[test]
fn test_compress_none() {
    let signal = singles(&[1.0, 2.0, 3.0, 4.0, 5.0]);
    let compressor = SignalCompressor::new(CompressionMethod::Uncompressed);

    let compressed = compressor.compress(&Numeric, &signal).unwrap();
    let decompressed = compressor.decompress(&Numeric, &compressed).unwrap();

    assert_eq!(signal, decompressed);
}

#[test]
fn test_compress_delta() {
    let signal = singles(&[1.0, 2.0, 3.0, 4.0, 5.0]);
    let compressor = SignalCompressor::new(CompressionMethod::Delta);

    let compressed = compressor.compress(&Numeric, &signal).unwrap();
    let decompressed = compressor.decompress(&Numeric, &compressed).unwrap();

    assert_eq!(decompressed.len(), 5);
    for (a, b) in floats(&signal).iter().zip(floats(&decompressed)) {
        assert!((a - b).abs() < 1e-6);
    }
}

#[test]
fn test_compress_rle() {
    let signal = singles(&[1.0, 1.0, 1.0, 2.0, 2.0, 3.0]);
    let compressor = SignalCompressor::new(CompressionMethod::RLE);

    let compressed = compressor.compress(&Numeric, &signal).unwrap();
    let decompressed = compressor.decompress(&Numeric, &compressed).unwrap();

    assert_eq!(signal, decompressed);

    let raw_size = signal.len() * 4;
    assert!(compressed.data.len() < raw_size);
}

#[test]
fn test_compress_quantize() {
    let signal = singles(&[0.0, 0.25, 0.5, 0.75, 1.0]);
    let compressor = SignalCompressor::new(CompressionMethod::Quantize { bits: 8 });

    let compressed = compressor.compress(&Numeric, &signal).unwrap();
    let decompressed = compressor.decompress(&Numeric, &compressed).unwrap();

    for (a, b) in floats(&signal).iter().zip(floats(&decompressed)) {
        assert!((a - b).abs() < 0.01);
    }
}

#[test]
fn no_method_beats_the_chosen_one() {
    let ramp: Vec<f32> = (0..40).map(|i| i as f32).collect();
    let odd = vec![3.0, -1.0, 4.0, 1.5, -9.25, 2.5];
    for signal in [ramp, odd, vec![7.0]] {
        let signal = singles(&signal);
        let chosen = AdaptiveCompressor::new().compress(&Numeric, &signal).unwrap();
        for method in [
            CompressionMethod::Delta,
            CompressionMethod::DeltaRLE,
            CompressionMethod::Quantize { bits: 8 },
            CompressionMethod::DPCM { predictor_order: 4 },
        ] {
            if let Ok(other) = SignalCompressor::new(method).compress(&Numeric, &signal) {
                assert!(chosen.data.len() <= other.data.len());
                if method == chosen.method {
                    assert_eq!(chosen.data, other.data);
                }
            }
        }
    }
}

#[test]
fn test_adaptive_compressor() {
    let signal = singles(&[1.0, 2.0, 3.0, 4.0, 5.0, 6.0, 7.0, 8.0]);
    let compressor = AdaptiveCompressor::new();

    let compressed = compressor.compress(&Numeric, &signal).unwrap();
    let decompressed = compressor.decompress(&Numeric, &compressed).unwrap();

    assert_eq!(signal.len(), decompressed.len());
}

#[test]
fn test_compression_ratio() {
    let signal = singles(&[1.0; 100]);
    let compressor = SignalCompressor::new(CompressionMethod::RLE);

    let compressed = compressor.compress(&Numeric, &signal).unwrap();
    let ratio = float(compressor.compression_ratio(&Numeric, &signal, &compressed));

    assert!(ratio > 10.0);
}

#[test]
fn other_methods_come_back_too() {
    let signal = singles(&[1.0, 2.0, 3.0, 4.0, 4.0, 4.0]);
    for method in [CompressionMethod::DeltaRLE, CompressionMethod::DPCM { predictor_order: 2 }] {
        let compressor = SignalCompressor::new(method);
        let compressed = compressor.compress(&Numeric, &signal).unwrap();
        let back = compressor.decompress(&Numeric, &compressed).unwrap();
        for (a, b) in floats(&signal).iter().zip(floats(&back)) {
            assert!((a - b).abs() < 1e-5);
        }
    }
    let bad = SignalCompressor::new(CompressionMethod::Quantize { bits: 17 });
    assert!(matches!(bad.compress(&Numeric, &signal), Err(IoError::InvalidConfig(_))));
    let bad = SignalCompressor::new(CompressionMethod::DPCM { predictor_order: 0 });
    assert!(matches!(bad.compress(&Numeric, &signal), Err(IoError::InvalidConfig(_))));
}

// Files.

#[test]
fn test_wav_spec_default() {
    let spec = WavSpec::default();
    assert_eq!(spec.sample_rate, 44100);
    assert_eq!(spec.channels, 1);
    assert_eq!(spec.bits_per_sample, 16);
}

fn wav(channels: u16, ints: &[i32]) -> Vec<u8> {
    let mut bytes = Cursor::new(Vec::new());
    let spec = hound::WavSpec {
        channels,
        sample_rate: 8000,
        bits_per_sample: 16,
        sample_format: hound::SampleFormat::Int,
    };
    let mut writer = hound::WavWriter::new(&mut bytes, spec).unwrap();
    for &x in ints {
        writer.write_sample(x).unwrap();
    }
    writer.finalize().unwrap();
    bytes.into_inner()
}

#[test]
fn sound_files_are_read() {
    let mut reader = WavReader::open(&Numeric, &wav(2, &[16384, -16384, 0, 32767])).unwrap();
    assert_eq!(reader.spec().sample_rate, 8000);
    assert_eq!(reader.spec().channels, 2);
    assert_eq!(reader.len(), 4);
    assert_eq!(floats(&reader.read_all().unwrap())[..3], [0.5, -0.5, 0.0]);
    let table = reader.read_channels().unwrap();
    assert_eq!(floats(table.row(0)), vec![0.5, -0.5]);
    assert_eq!(floats(table.row(1))[0], 0.0);
    assert_eq!(reader.read_chunk(3).unwrap().unwrap().len(), 3);
    assert_eq!(reader.position(), 3);
    assert_eq!(reader.read_chunk(3).unwrap().unwrap().len(), 1);
    assert!(reader.read_chunk(3).unwrap().is_none());
    reader.reset();
    assert_eq!(reader.position(), 0);
    assert!(WavReader::open(&Numeric, &vec![1, 2, 3]).is_err());
}

#[test]
fn sound_files_with_points_are_read() {
    let mut bytes = Cursor::new(Vec::new());
    let spec = hound::WavSpec {
        channels: 1,
        sample_rate: 8000,
        bits_per_sample: 32,
        sample_format: hound::SampleFormat::Float,
    };
    let mut writer = hound::WavWriter::new(&mut bytes, spec).unwrap();
    writer.write_sample(0.25f32).unwrap();
    writer.finalize().unwrap();
    let reader = WavReader::open(&Numeric, &bytes.into_inner()).unwrap();
    assert_eq!(floats(&reader.read_all().unwrap()), vec![0.25]);
}

#[test]
fn samples_are_written_as_whole_numbers() {
    let spec = WavSpec::default();
    assert_eq!(sample_ints(&Numeric, spec, &singles(&[0.5, -2.0])), vec![16384, -32768]);
    let table = Matrix::from_vec(2, 2, singles(&[0.5, 0.25, -0.5, 0.0])).unwrap();
    assert_eq!(channel_ints(&Numeric, spec, &table), vec![16384, 8192, -16384, 0]);
}

#[test]
fn test_csv_round_trip() {
    let mut text = String::from("col1,col2\n");
    for row in [[1.0, 2.0], [3.0, 4.0]] {
        text.push_str(&row_texts(&Numeric, &singles(&row)).join(","));
        text.push('\n');
    }

    let reader = CsvReader::new("test_csv.csv");
    let data = reader.read_array(&Numeric, text.as_bytes()).unwrap();

    assert_eq!(data.nrows(), 2);
    assert_eq!(data.ncols(), 2);
    assert_eq!(float(data.get(0, 0)), 1.0);
    assert_eq!(float(data.get(1, 1)), 4.0);
}

#[test]
fn columns_and_delimiters() {
    let reader = CsvReader::new("x").delimiter(b';').has_header(false);
    assert_eq!(reader.path(), "x");
    let column = reader.read_column(&Numeric, b"1;2\n3;4\n", 1).unwrap();
    assert_eq!(floats(&column), vec![2.0, 4.0]);
    assert!(reader.read_column(&Numeric, b"1;2\n", 2).is_err());
    assert!(reader.read_array(&Numeric, b"1;x\n").is_err());
    assert!(reader.read_array(&Numeric, b"1;2\n3\n").is_err());
    let rows = reader.rows(b"a;b\nc\n");
    assert_eq!(rows[0], Ok(vec!["a".to_string(), "b".to_string()]));
    assert!(rows[1].is_err());
    let lost = column_of(Err(IoError::BufferEmpty), 0);
    assert!(lost.is_err());
}

#[test]
fn datasets_have_two_dimensions() {
    assert_eq!(dataset_2d(singles(&[1.0, 2.0]), &[1, 2]).unwrap().ncols(), 2);
    assert!(dataset_2d(singles(&[1.0, 2.0]), &[2]).is_err());
    assert!(failure(FileStep::OpenCsv, "gone").to_text().contains("gone"));
}

// Brokers.

#[test]
fn test_mqtt_config() {
    let config = MqttConfig::new("broker.example.com", 1883)
        .topic("sensors/temp")
        .client_id("test-client")
        .qos(QosLevel::ExactlyOnce);

    assert_eq!(config.host, "broker.example.com");
    assert_eq!(config.topics[0], "sensors/temp");
    assert_eq!(config.qos, QosLevel::ExactlyOnce);
}

#[test]
fn test_qos_levels() {
    assert_eq!(QosLevel::AtMostOnce as u8, 0);
    assert_eq!(QosLevel::AtLeastOnce as u8, 1);
    assert_eq!(QosLevel::ExactlyOnce as u8, 2);
}

#[test]
fn test_mqtt_config_credentials() {
    let config = MqttConfig::new("broker.example.com", 1883)
        .credentials("user".to_string(), "pass".to_string());

    assert_eq!(config.username, Some("user".to_string()));
    assert_eq!(config.password, Some("pass".to_string()));
    assert!(config.login().is_some());
    assert!(config.tls_plan().is_none());
}

#[test]
fn tls_needs_an_authority() {
    let mut tls = TlsConfig::default();
    tls.ca_cert_path = Some("ca.pem".to_string());
    let plan = MqttConfig::new("b", 1).enable_tls(tls).tls_plan().unwrap();
    assert_eq!(plan.ca_path, "ca.pem");
    assert!(plan.client_auth.is_none());
    assert!(unreadable(TlsFile::Authority, "gone").to_text().contains("gone"));
    assert!(unpublished("why").to_text().contains("why"));
}

fn message(retained: bool) -> MqttMessage {
    MqttMessage {
        topic: "t".to_string(),
        payload: vec![],
        qos: QosLevel::AtMostOnce,
        retained,
    }
}

#[test]
fn batches_are_flushed_whole_and_in_order() {
    let mut config = MqttConfig::new("b", 1);
    config.batch_size = 3;
    config.batch_timeout_ms = 1000;
    config.handle_retained = false;
    let mut client = MqttClient::new(config, StreamConfig::new());
    assert!(client.can_publish().is_err());
    assert!(client.subscribed(Ok(())).is_ok());
    assert!(client.can_publish().is_ok());
    let soon = Span::from_millis(1);
    let at = Instant::now();
    assert!(!client.receive_after(message(false), Some(singles(&[1.0, 2.0])), soon, at));
    assert!(client.drain_buffer().is_empty());
    assert!(!client.receive_after(message(true), Some(singles(&[9.0])), soon, at));
    assert!(client.receive_after(message(false), Some(singles(&[3.0, 4.0])), soon, at));
    assert_eq!(floats(&client.drain_buffer()), vec![1.0, 2.0, 3.0, 4.0]);
    assert_eq!(client.drain_messages().len(), 2);
    let late = Span::from_millis(1000);
    assert!(client.receive_after(message(false), Some(singles(&[5.0])), late, at));
    assert_eq!(floats(&client.drain_buffer()), vec![5.0]);
}

#[test]
fn delays_double_up_to_a_limit() {
    assert_eq!(next_delay(1000, 30000), 2000);
    assert_eq!(next_delay(20000, 30000), 30000);
    let config = MqttConfig::new("b", 1);
    let (first, most) = (config.reconnect_delay_ms, config.max_reconnect_delay_ms);
    let mut client = MqttClient::new(config, StreamConfig::new());
    client.subscribed(Ok(())).unwrap();
    assert_eq!(client.connection_failed(), Some(first));
    assert_eq!(client.connection_failed(), Some((2 * first).min(most)));
}

#[test]
fn pushed_data_is_read() {
    let mut stream = MqttStream::new(StreamConfig::new().buffer_size(4));
    stream.push_data(singles(&[1.0, 2.0]));
    assert_eq!(floats(&stream.read().unwrap())[..2], [1.0, 2.0]);
    assert!(stream.close().is_ok());
    assert!(!stream.is_active());
}

// Open sound control.

#[test]
fn test_osc_message_creation() {
    let msg = OscMessage {
        address: "/test".to_string(),
        args: vec![
            OscArg::Float(single(1.0)),
            OscArg::Int(42),
            OscArg::String("hello".to_string()),
        ],
    };

    assert_eq!(msg.address, "/test");
    assert_eq!(msg.args.len(), 3);
}

#[test]
fn test_osc_arg_conversion() {
    let float_arg = OscArg::Float(single(std::f32::consts::PI));
    assert!(matches!(float_arg.to_wire(), WireArg::Float(_)));

    let int_arg = OscArg::Int(42);
    assert!(matches!(int_arg.to_wire(), WireArg::Int(42)));
}

#[test]
fn arguments_come_back_from_the_wire() {
    let args = vec![OscArg::String("x".to_string()), OscArg::Bool(true), OscArg::Nil];
    let packet = WirePacket::Message("/a".to_string(), to_wire_all(args));
    let msg = message_in(packet).unwrap();
    assert_eq!(msg.address, "/a");
    assert!(matches!(&msg.args[0], OscArg::String(s) if s == "x"));
    assert!(matches!(OscArg::from_wire(WireArg::Long(7)), OscArg::Long(7)));
    let inside = WirePacket::Message("/b".to_string(), vec![]);
    let bundle = WirePacket::Bundle(vec![WirePacket::Bundle(vec![]), inside]);
    assert!(message_in(WirePacket::Bundle(vec![])).is_none());
    assert_eq!(message_in(bundle).map(|m| m.address), None);
}

fn datagram(packet: &rosc::OscPacket) -> Vec<u8> {
    rosc::encoder::encode(packet).unwrap()
}

fn rosc_message(addr: &str, args: Vec<rosc::OscType>) -> rosc::OscPacket {
    rosc::OscPacket::Message(rosc::OscMessage { addr: addr.to_string(), args })
}

fn rosc_bundle(content: Vec<rosc::OscPacket>) -> rosc::OscPacket {
    rosc::OscPacket::Bundle(rosc::OscBundle { timetag: (0, 1).into(), content })
}

#[test]
fn a_datagram_is_received_as_its_message() {
    let list = rosc::OscArray {
        content: vec![rosc::OscType::Long(-5), rosc::OscType::Nil],
    };
    let args = vec![
        rosc::OscType::Float(0.5),
        rosc::OscType::Double(-2.25),
        rosc::OscType::Int(42),
        rosc::OscType::String("hello".to_string()),
        rosc::OscType::Blob(vec![1, 2, 3]),
        rosc::OscType::Bool(true),
        rosc::OscType::Nil,
        rosc::OscType::Inf,
        rosc::OscType::Char('x'),
        rosc::OscType::Time((7, 8).into()),
        rosc::OscType::Array(list),
        rosc::OscType::Array(rosc::OscArray { content: vec![] }),
    ];
    let msg = receive(&datagram(&rosc_message("/all", args))).unwrap().unwrap();
    assert_eq!(msg.address, "/all");
    assert_eq!(msg.args.len(), 12);
    assert!(matches!(msg.args[0], OscArg::Float(v) if v == single(0.5)));
    assert!(matches!(msg.args[1], OscArg::Double(v) if v == double(-2.25)));
    assert!(matches!(msg.args[2], OscArg::Int(42)));
    assert!(matches!(&msg.args[3], OscArg::String(s) if s == "hello"));
    assert!(matches!(&msg.args[4], OscArg::Blob(b) if b == &vec![1, 2, 3]));
    assert!(matches!(msg.args[5], OscArg::Bool(true)));
    assert!(matches!(msg.args[6], OscArg::Nil));
    assert!(matches!(msg.args[7], OscArg::Double(v) if v == double(f64::INFINITY)));
    assert!(matches!(&msg.args[8], OscArg::String(s) if s == "x"));
    assert!(matches!(msg.args[9], OscArg::Long(0)));
    assert!(matches!(msg.args[10], OscArg::Long(-5)));
    assert!(matches!(msg.args[11], OscArg::Nil));
    let raw = [b'/', b'v', 0, 0, b',', b'i', 0, 0, 0, 0, 1, 2];
    let msg = receive(&raw).unwrap().unwrap();
    assert_eq!(msg.address, "/v");
    assert!(matches!(msg.args[0], OscArg::Int(258)));
}

#[test]
fn of_a_bundle_the_first_message_is_received() {
    let first = rosc_message("/first", vec![rosc::OscType::Int(1)]);
    let second = rosc_message("/second", vec![]);
    let both = datagram(&rosc_bundle(vec![first, second.clone()]));
    assert_eq!(receive(&both).unwrap().map(|m| m.address), Some("/first".to_string()));
    let nested = datagram(&rosc_bundle(vec![rosc_bundle(vec![]), second]));
    assert!(receive(&nested).unwrap().is_none());
    assert!(receive(&datagram(&rosc_bundle(vec![]))).unwrap().is_none());
}

#[test]
fn nesting_is_followed_as_far_as_it_may_go() {
    let mut bundle = rosc_bundle(vec![]);
    for _ in 1..256 {
        bundle = rosc_bundle(vec![bundle]);
    }
    let data = datagram(&bundle);
    assert!(shallow(&data));
    assert!(receive(&data).unwrap().is_none());
    assert!(!shallow(&datagram(&rosc_bundle(vec![bundle]))));
    let lists = |opened: usize, closed: usize| {
        let mut data = b"/a\0\0,".to_vec();
        data.extend(vec![b'['; opened]);
        data.extend(vec![b']'; closed]);
        data.push(0);
        while data.len() % 4 != 0 {
            data.push(0);
        }
        data
    };
    let data = lists(4096, 4096);
    assert!(shallow(&data));
    let msg = receive(&data).unwrap().unwrap();
    assert!(matches!(msg.args[0], OscArg::Nil));
    assert!(!shallow(&lists(4097, 4097)));
    let data = lists(5000, 3);
    assert!(shallow(&data));
    assert_eq!(receive(&data).unwrap().unwrap().args.len(), 1);
    let data = lists(0, 5000);
    assert!(shallow(&data));
    assert!(receive(&data).is_err());
}

#[test]
fn what_is_flat_is_shallow() {
    let blob = rosc::OscType::Blob(vec![b'['; 20000]);
    let text = rosc::OscType::String("#bundle".repeat(1000));
    let many = vec![rosc::OscType::Array(rosc::OscArray { content: vec![] }); 6000];
    let mut content = vec![
        rosc_message("/blob", vec![blob]),
        rosc_message("/text", vec![text]),
        rosc_message("/many", many),
    ];
    for _ in 0..1000 {
        content.push(rosc_bundle(vec![]));
    }
    for packet in &content[..3] {
        let data = datagram(packet);
        assert!(shallow(&data));
        assert!(receive(&data).unwrap().is_some());
    }
    let data = datagram(&rosc_bundle(content));
    assert!(shallow(&data));
    assert_eq!(receive(&data).unwrap().map(|m| m.address), Some("/blob".to_string()));
}

#[test]
fn bytes_that_hold_no_packet_are_an_error() {
    for bytes in [&b""[..], &b"volume\0\0,\0\0\0"[..], &b"/v\0\0,i\0\0\0"[..]] {
        match receive(bytes) {
            Err(IoError::ReadFailed(text)) => {
                assert!(text.starts_with("Failed to decode OSC packet: "));
                assert!(text.len() > 30);
            }
            _ => panic!("no packet is in there"),
        }
    }
}

#[test]
fn handlers_are_chosen_by_pattern() {
    assert!(matches_pattern("/synth/freq", "*"));
    assert!(matches_pattern("/synth/freq", "/synth/*"));
    assert!(!matches_pattern("/drum", "/synth/*"));
    assert!(matches_pattern("/drum", "/drum"));
    let mut server = OscServer::new();
    server.add_handler("/synth/*", 1);
    server.add_handler("/drum", 2);
    server.add_handler("*", 3);
    assert_eq!(server.handlers_for("/drum"), vec![1, 2]);
    assert_eq!(server.handler(1), Some(&2));
    assert_eq!(server.handler(9), None);
    let msg = OscMessage::with_arg("/x", OscArg::Int(1));
    assert_eq!(msg.args.len(), 1);
    assert_eq!(OscMessage::with_args("/x", vec![]).args.len(), 0);
}

// Recordings.

fn recorder_config(record_timestamps: bool) -> RecorderConfig {
    RecorderConfig {
        path: "test_recording.bin".to_string(),
        format: RecorderFormat::Binary,
        sample_rate: single(44100.0),
        channels: 1,
        buffer_size: 1024,
        record_timestamps,
        metadata: NamedMap::new(),
    }
}

#[test]
fn test_recorder_binary() {
    let mut recorder = StreamRecorder::new(recorder_config(true));
    let mut data = binary_header("{}");
    for samples in [[1.0, 2.0, 3.0], [4.0, 5.0, 6.0]] {
        let frame = recorder.frame(&singles(&samples), None, double(0.5));
        data.extend(encode_binary(&frame));
        recorder.written(&frame);
    }
    assert_eq!(recorder.frame_count(), 2);
    assert_eq!(recorder.total_samples(), 6);

    let file = FileBytes { data, failure: None };
    assert_eq!(config_bytes(&file).unwrap(), b"{}".to_vec());
    let mut player = StreamPlayer::new(file, Ok(recorder_config(true))).unwrap();

    let frame1 = player.next_frame().unwrap().unwrap();
    assert_eq!(floats(&frame1.samples), vec![1.0, 2.0, 3.0]);
    assert_eq!(frame1.frame_number, 0);
    assert_eq!(frame1.timestamp.map(wide), Some(0.5));

    let frame2 = player.next_frame().unwrap().unwrap();
    assert_eq!(floats(&frame2.samples), vec![4.0, 5.0, 6.0]);
    assert_eq!(frame2.frame_number, 1);

    assert!(player.next_frame().unwrap().is_none());
}

#[test]
fn test_recorder_array() {
    let mut recorder = StreamRecorder::new(recorder_config(false));
    let frame = recorder.frame(&singles(&[1.0, 2.0, 3.0, 4.0, 5.0]), None, double(0.0));
    assert!(frame.timestamp.is_none());
    recorder.written(&frame);
    assert_eq!(recorder.total_samples(), 5);
}

#[test]
fn recordings_that_are_cut_are_refused() {
    let header = binary_header("{}");
    let cut = FileBytes { data: header[..10].to_vec(), failure: None };
    assert!(config_bytes(&cut).is_err());
    let foreign = FileBytes { data: b"something else".to_vec(), failure: None };
    assert!(matches!(config_bytes(&foreign), Err(IoError::ReadFailed(_))));
    let frame = RecordedFrame { samples: singles(&[1.0]), timestamp: None, frame_number: 0 };
    let mut data = binary_header("{}");
    let bytes = encode_binary(&frame);
    data.extend(&bytes[..bytes.len() - 1]);
    let mut player =
        StreamPlayer::new(FileBytes { data, failure: None }, Ok(recorder_config(false))).unwrap();
    assert!(player.next_frame().is_err());
}

#[test]
fn recordings_are_written_as_text() {
    let frame = RecordedFrame {
        samples: singles(&[1.5, 2.0]),
        timestamp: Some(double(0.25)),
        frame_number: 3,
    };
    assert_eq!(encode_csv(&Numeric, &frame), "3,0.25,1.5;2\n");
    let frame = RecordedFrame { timestamp: None, ..frame };
    assert_eq!(encode_csv(&Numeric, &frame), "3,1.5;2\n");
    assert!(csv_header(true).contains("timestamp"));
    assert!(!csv_header(false).contains("timestamp"));
}

// Robots.

#[test]
fn test_ros2_config_creation() {
    let config = Ros2Config::new("/imu/data", Ros2MessageType::Imu);

    assert_eq!(config.topic, "/imu/data");
    assert_eq!(config.message_type, Ros2MessageType::Imu);
    assert_eq!(config.qos, QosProfile::SensorData);
    assert!(config.node_name.contains("imu_data"));
}

#[test]
fn test_ros2_config_builder() {
    let config = Ros2Config::new("/laser", Ros2MessageType::LaserScan)
        .with_qos(QosProfile::SystemDefault)
        .with_buffer_size(2048)
        .with_sample_rate(single(50.0))
        .with_channels(2);

    assert_eq!(config.buffer_size, 2048);
    assert_eq!(float(config.sample_rate), 50.0);
    assert_eq!(config.channels, 2);
    assert_eq!(config.qos, QosProfile::SystemDefault);
}

#[test]
fn test_message_types() {
    let msg_types = vec![
        Ros2MessageType::Float32,
        Ros2MessageType::Float64,
        Ros2MessageType::Imu,
        Ros2MessageType::LaserScan,
    ];

    for msg_type in msg_types {
        let config = Ros2Config::new("/test", msg_type.clone());
        assert_eq!(config.message_type, msg_type);
    }
}

#[test]
fn some_message_types_can_be_subscribed_to() {
    let stream = Ros2Stream::new(Ros2Config::new("/x", Ros2MessageType::Imu));
    assert_eq!(stream.start().unwrap(), Subscription::Imu);
    let custom = Ros2MessageType::Custom("a\"b".to_string());
    assert_eq!(custom.name(), "Custom(\"a\\\"b\")");
    let stream = Ros2Stream::new(Ros2Config::new("/x", custom));
    assert!(stream.start().unwrap_err().to_text().contains("a\\\"b"));
}

// Streams in memory.

#[test]
fn test_memory_stream() {
    let data = singles(&[1.0, 2.0, 3.0, 4.0, 5.0, 6.0, 7.0, 8.0]);
    let config = StreamConfig::new().buffer_size(4);
    let mut stream = MemoryStream::new(data, config);

    assert!(stream.is_active());

    let buf1 = stream.read().unwrap();
    assert_eq!(float(buf1[0]), 1.0);
    assert_eq!(float(buf1[3]), 4.0);

    let buf2 = stream.read().unwrap();
    assert_eq!(float(buf2[0]), 5.0);

    assert!(!stream.is_active());
}

#[test]
fn test_ring_buffer_basic() {
    let mut buf: RingBuffer<i32> = RingBuffer::new(4);
    assert!(buf.is_empty());
    assert_eq!(buf.capacity(), 4);

    buf.push(1);
    buf.push(2);
    buf.push(3);
    assert_eq!(buf.len(), 3);
    assert!(!buf.is_full());

    assert_eq!(buf.pop(), Some(1));
    assert_eq!(buf.pop(), Some(2));
    assert_eq!(buf.len(), 1);
}

#[test]
fn test_ring_buffer_overwrite() {
    let mut buf: RingBuffer<i32> = RingBuffer::new(3);
    buf.push(1);
    buf.push(2);
    buf.push(3);
    assert!(buf.is_full());

    buf.push(4);
    assert_eq!(buf.len(), 3);
    assert_eq!(buf.pop(), Some(2));
    assert_eq!(buf.pop(), Some(3));
    assert_eq!(buf.pop(), Some(4));
}

#[test]
fn test_ring_buffer_peek() {
    let mut buf: RingBuffer<i32> = RingBuffer::new(4);
    buf.push(10);
    buf.push(20);
    buf.push(30);

    assert_eq!(buf.peek(), Some(&10));
    assert_eq!(buf.peek_back(), Some(&30));
    assert_eq!(buf.get(1), Some(&20));
}

#[test]
fn test_ring_buffer_iter() {
    let mut buf: RingBuffer<i32> = RingBuffer::new(4);
    buf.push(1);
    buf.push(2);
    buf.push(3);

    let mut iter = buf.iter();
    assert_eq!(iter.size_hint(), (3, Some(3)));
    let mut collected = Vec::new();
    while let Some(x) = iter.next() {
        collected.push(*x);
    }
    assert_eq!(collected, vec![1, 2, 3]);
}

#[test]
fn slices_are_pushed_and_read_whole() {
    let mut buf: RingBuffer<i32> = RingBuffer::new(3);
    buf.push_slice(&[1, 2, 3, 4]);
    assert_eq!(buf.to_vec(), vec![2, 3, 4]);
    let mut out = [0; 2];
    assert_eq!(buf.read_into(&mut out), 2);
    assert_eq!(out, [2, 3]);
    assert_eq!(buf.available(), 2);
    buf.clear();
    assert!(buf.is_empty());
}

#[test]
fn test_signal_ring_buffer_stats() {
    let mut buf = SignalRingBuffer::new(5);
    buf.push_slice(&singles(&[1.0, 2.0, 3.0, 4.0, 5.0]));

    assert!((float(buf.mean(&Numeric)) - 3.0).abs() < 0.01);
    assert!(buf.min() == Some(single(1.0)));
    assert!(buf.max() == Some(single(5.0)));
    assert!((float(buf.peak_to_peak(&Numeric)) - 4.0).abs() < 0.01);
    assert_eq!(float(buf.variance(&Numeric)), 2.5);
    assert_eq!(float(buf.std_dev(&Numeric)), 2.5f32.sqrt());
}

#[test]
fn test_signal_ring_buffer_rms() {
    let mut buf = SignalRingBuffer::new(4);
    buf.push_slice(&singles(&[1.0, 1.0, 1.0, 1.0]));
    assert!((float(buf.rms(&Numeric)) - 1.0).abs() < 0.01);

    buf.clear();
    buf.push_slice(&singles(&[3.0, 4.0]));
    assert!((float(buf.rms(&Numeric)) - 3.536).abs() < 0.01);
}

#[test]
fn test_signal_ring_buffer_zero_crossing() {
    let mut buf = SignalRingBuffer::new(10);
    buf.push_slice(&singles(&[1.0, 0.5, -0.5, -1.0, -0.5, 0.5, 1.0]));
    let zcr = float(buf.zero_crossing_rate(&Numeric));
    assert!((zcr - 0.333).abs() < 0.01);
    assert_eq!(buf.zero_crossings(), 2);
}

#[test]
fn empty_buffers_measure_zero() {
    let buf = SignalRingBuffer::new(4);
    assert_eq!(float(buf.mean(&Numeric)), 0.0);
    assert_eq!(float(buf.variance(&Numeric)), 0.0);
    assert_eq!(float(buf.rms(&Numeric)), 0.0);
    assert_eq!(float(buf.peak_to_peak(&Numeric)), 0.0);
    assert_eq!(float(buf.zero_crossing_rate(&Numeric)), 0.0);
    assert_eq!(buf.min(), None);
}

#[test]
fn channels_end_with_their_senders() {
    let mut state = ChannelState::new(StreamConfig::new().buffer_size(2));
    assert_eq!(floats(&state.on_message(Some(singles(&[7.0])))), vec![7.0, 0.0]);
    assert!(state.active);
    state.on_message(None);
    assert!(!state.active);
}

// Sockets.

#[test]
fn test_config_defaults() {
    let config = WebSocketConfig::default();
    assert!(config.reconnect);
    assert_eq!(config.reconnect_delay_ms, 1000);
    assert_eq!(config.max_reconnect_delay_ms, 30000);
    assert_eq!(config.ping_interval_ms, 30000);
    assert_eq!(config.buffer_size, 1024);
}

#[test]
fn sockets_deliver_answer_and_end() {
    let mut stream = WebSocketStream::connect(WebSocketConfig::default(), Ok(())).unwrap();
    assert!(stream.is_connected());
    assert!(stream.can_send().is_ok());
    assert_eq!(stream.ping_interval(), Some(30000));
    match stream.on_event(SocketEvent::Text(vec![1])) {
        SocketAction::Deliver(data) => assert_eq!(data, vec![1]),
        _ => panic!("expected data"),
    }
    match stream.on_event(SocketEvent::Ping(vec![2])) {
        SocketAction::SendPong(data) => assert_eq!(data, vec![2]),
        _ => panic!("expected a pong"),
    }
    stream.on_event(SocketEvent::Close);
    assert!(!stream.is_connected());
    assert!(stream.can_send().is_err());
    assert_eq!(stream.reconnect_delay().unwrap(), 1000);
    assert!(stream.reconnect(Err("no".to_string())).is_err());
    assert_eq!(stream.reconnect_delay().unwrap(), 2000);
    assert!(stream.reconnect(Ok(())).is_ok());
    assert!(stream.is_connected());
    let quick = WebSocketConfig { reconnect_delay_ms: 50, ..WebSocketConfig::default() };
    let mut stream = WebSocketStream::connect(quick, Ok(())).unwrap();
    assert_eq!(stream.reconnect_delay().unwrap(), 50);
    assert!(stream.reconnect(Err("no".to_string())).is_err());
    assert_eq!(stream.reconnect_delay().unwrap(), 100);
    assert!(stream.reconnect(Ok(())).is_ok());
    assert_eq!(stream.reconnect_delay().unwrap(), 50);
    let refused = WebSocketStream::connect(WebSocketConfig::default(), Err("no".to_string()));
    assert!(refused.is_err());
    assert!(unsent(Outgoing::Ping, "why").to_text().contains("why"));
    assert!(unclosed("why").to_text().contains("why"));
}

#[test]
fn test_zmq_message_creation() {
    let msg = ZmqMessage::new(Bytes::from(&b"test"[..]));
    assert_eq!(msg.payload, Bytes::from(&b"test"[..]));
    assert!(msg.topic.is_none());
    assert!(msg.frames.is_empty());

    let msg = ZmqMessage::with_topic("sensor".to_string(), Bytes::from(&b"data"[..]));
    assert_eq!(msg.topic, Some("sensor".to_string()));
    assert_eq!(msg.payload, Bytes::from(&b"data"[..]));
}

#[test]
fn test_zmq_message_frames() {
    let mut msg = ZmqMessage::new(Bytes::from(&b"test"[..]));
    msg.add_frame(Bytes::from(&b"frame1"[..]));
    msg.add_frame(Bytes::from(&b"frame2"[..]));
    assert_eq!(msg.frames.len(), 2);
}

#[test]
fn test_zmq_config_default() {
    let config = ZmqConfig::default();
    assert_eq!(config.pattern, ZmqPattern::Sub);
    assert_eq!(config.high_water_mark, 1000);
    assert!(config.reconnect);
}

#[test]
fn parts_become_messages_again() {
    let mut msg = ZmqMessage::with_topic("t".to_string(), Bytes::from(&b"p"[..]));
    msg.add_frame(Bytes::from(&b"f"[..]));
    let parts = msg.to_multipart();
    assert_eq!(parts, vec![b"t".to_vec(), b"p".to_vec(), b"f".to_vec()]);
    let back = ZmqMessage::from_multipart(parts, true).unwrap();
    assert_eq!(back.topic, Some("t".to_string()));
    assert_eq!(back.payload, Bytes::from(&b"p"[..]));
    assert_eq!(back.frames, vec![Bytes::from(&b"f"[..])]);
    assert!(ZmqMessage::from_multipart(vec![], false).is_err());
    assert!(ZmqMessage::from_multipart(vec![vec![0xff], vec![]], true).is_err());
    assert!(ZmqMessage::from_multipart(vec![b"t".to_vec()], true).is_err());
}

fn pattern(pattern: ZmqPattern) -> ZmqConfig {
    ZmqConfig { pattern, ..ZmqConfig::default() }
}

#[test]
fn patterns_send_or_receive() {
    let pull = ZmqStream::connect(pattern(ZmqPattern::Pull)).unwrap();
    assert!(pull.can_recv().is_ok());
    assert!(pull.can_send().is_err());
    let push = ZmqStream::connect(pattern(ZmqPattern::Push)).unwrap();
    assert_eq!(push.can_send().unwrap(), SendSocket::Push);
    assert!(matches!(recv(PullOutcome::Closed), Err(IoError::Connection(_))));
    let received = recv(PullOutcome::Received(vec![b"x".to_vec()])).unwrap().unwrap();
    assert_eq!(received.payload, Bytes::from(&b"x"[..]));
    assert!(recv(PullOutcome::Failed("f".to_string())).is_err());
    assert!(recv(PullOutcome::Unconnected("u".to_string())).is_err());
    assert!(send(SendSocket::Push, SendOutcome::Sent).is_ok());
    assert!(send(SendSocket::Publish, SendOutcome::Failed("f".to_string())).is_err());
    assert!(send(SendSocket::Publish, SendOutcome::Unready("u".to_string())).is_err());
}

// Errors.

#[test]
fn errors_say_what_went_wrong() {
    assert_eq!(IoError::BufferFull.to_text(), "Buffer is full");
    assert_eq!(IoError::ConnectionFailed("x".to_string()).to_text(), "Connection failed: x");
    let mismatch = InferenceError::DimensionMismatch { expected: 3, got: 12 };
    assert_eq!(mismatch.to_text(), "Dimension mismatch: expected 3, got 12");
}
