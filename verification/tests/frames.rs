//! Frames, their filters and their motion.

use kizzasi::arith::Arithmetic;
use kizzasi::error::IoError;
use kizzasi::io::video::filter::{FilterMath, VideoFilter, VideoProcessor};
use kizzasi::io::video::flow::{
    FlowMath, Gradient, OpticalFlow, OpticalFlowEstimator, OpticalFlowMethod,
};
use kizzasi::io::video::{
    CameraDevice, FrameBuffer, PixelFormat, PixelMath, Platform, VideoConfig, VideoFrame,
    VideoReader, VideoSource,
};
use kizzasi::matrix::Matrix;
use kizzasi::number::{Double, Single};

fn single(x: f32) -> Single {
    Single::from_bits(x.to_bits())
}

fn float(x: Single) -> f32 {
    f32::from_bits(x.to_bits())
}

fn double(x: f64) -> Double {
    Double::from_bits(x.to_bits())
}

fn wide(x: Double) -> f64 {
    f64::from_bits(x.to_bits())
}

fn singles(values: &[f32]) -> Vec<Single> {
    values.iter().map(|&x| single(x)).collect()
}

fn floats(values: &[Single]) -> Vec<f32> {
    values.iter().map(|&x| float(x)).collect()
}

#[derive(Debug, Clone, Copy)]
struct Numeric;

impl Arithmetic<Single> for Numeric {
    fn sum(&self, a: Single, b: Single) -> Single {
        single(float(a) + float(b))
    }

    fn difference(&self, a: Single, b: Single) -> Single {
        single(float(a) - float(b))
    }

    fn product(&self, a: Single, b: Single) -> Single {
        single(float(a) * float(b))
    }

    fn quotient(&self, a: Single, b: Single) -> Single {
        single(float(a) / float(b))
    }

    fn over(&self, a: Single, count: usize) -> Single {
        single(float(a) / count as f32)
    }

    fn root(&self, a: Single) -> Single {
        single(float(a).sqrt())
    }
}

impl PixelMath for Numeric {
    fn luma(&self, red: u8, green: u8, blue: u8) -> u8 {
        (0.299 * red as f32 + 0.587 * green as f32 + 0.114 * blue as f32) as u8
    }

    fn unit(&self, pixel: u8) -> Single {
        single(pixel as f32 / 255.0)
    }

    fn seconds(&self, frame: u64, fps: Double) -> Double {
        double(frame as f64 / wide(fps))
    }
}

impl FilterMath for Numeric {
    fn level(&self, pixel: u8) -> Single {
        single(pixel as f32)
    }

    fn bell(&self, x: usize, y: usize, half: usize, sigma: Single) -> Single {
        let sigma = float(sigma);
        let dx = (x as i32 - half as i32) as f32;
        let dy = (y as i32 - half as i32) as f32;
        single((-((dx * dx + dy * dy) / (2.0 * sigma * sigma))).exp())
    }

    fn round(&self, x: Single) -> Single {
        single(float(x).round())
    }

    fn pixel(&self, x: Single) -> u8 {
        float(x) as u8
    }

    fn mean(&self, sum: u32, kernel_size: usize) -> u32 {
        let scale = 1.0 / (kernel_size * kernel_size) as f32;
        (sum as f32 * scale).round() as u32
    }
}

impl FlowMath for Numeric {
    fn direction(&self, u: Single, v: Single) -> Single {
        single(float(v).atan2(float(u)))
    }

    fn mean(&self, values: &Vec<Single>) -> Single {
        single(floats(values).iter().sum::<f32>() / values.len() as f32)
    }

    fn quarter(&self, x: i32) -> Single {
        single(x as f32 / 4.0)
    }

    fn whole(&self, x: i32) -> Single {
        single(x as f32)
    }

    fn offset(&self, pixels: isize) -> Single {
        single(pixels as f32)
    }
}

#[test]
fn test_video_config_file() {
    let config = VideoConfig::from_file("test.mp4".to_string())
        .with_decimation(2)
        .with_buffer_size(60)
        .with_resize(640, 480);

    assert_eq!(config.decimation, 2);
    assert_eq!(config.buffer_size, 60);
    assert_eq!(config.target_width, Some(640));
    assert_eq!(config.target_height, Some(480));
    assert_eq!(config.with_decimation(0).decimation, 1);
}

#[test]
fn test_video_config_camera() {
    let config = VideoConfig::from_camera("/dev/video0".to_string())
        .with_pixel_format(PixelFormat::Gray);

    if let VideoSource::Camera(device) = &config.source {
        assert_eq!(device, "/dev/video0");
    } else {
        panic!("Expected Camera source");
    }

    assert_eq!(config.pixel_format, PixelFormat::Gray);
}

#[test]
fn test_frame_buffer() {
    let mut buffer = FrameBuffer::new(3);

    assert!(buffer.is_empty());
    assert!(!buffer.is_full());

    for i in 0..3 {
        let frame = VideoFrame {
            index: i,
            timestamp: double(i as f64 / 30.0),
            width: 640,
            height: 480,
            channels: 3,
            data: vec![0; 640 * 480 * 3],
        };
        assert!(buffer.push(frame));
    }

    assert!(buffer.is_full());
    assert_eq!(buffer.available(), 3);

    for i in 0..3 {
        let frame = buffer.pop().unwrap();
        assert_eq!(frame.index, i);
    }

    assert!(buffer.is_empty());
}

fn frame(width: usize, height: usize, channels: usize, data: Vec<u8>) -> VideoFrame {
    VideoFrame { index: 0, timestamp: double(0.0), width, height, channels, data }
}

#[test]
fn test_frame_to_grayscale() {
    let frame = frame(2, 2, 3, vec![255, 0, 0, 0, 255, 0, 0, 0, 255, 255, 255, 255]);

    let gray = frame.to_grayscale(&Numeric);
    assert_eq!(gray.channels, 1);
    assert_eq!(gray.data.len(), 4);

    assert!(gray.data[0] > 50 && gray.data[0] < 100);
    assert!(gray.data[1] > 140 && gray.data[1] < 160);
    assert!(gray.data[2] > 20 && gray.data[2] < 40);
    assert_eq!(gray.data[3], 255);
}

#[test]
fn test_frame_normalized() {
    let frame = frame(2, 1, 1, vec![0, 128, 255]);

    let normalized = floats(&frame.to_normalized_f32(&Numeric));
    assert_eq!(normalized.len(), 3);
    assert!((normalized[0] - 0.0).abs() < 0.01);
    assert!((normalized[1] - 0.502).abs() < 0.01);
    assert!((normalized[2] - 1.0).abs() < 0.01);
}

#[test]
fn test_pixel_format_channels() {
    assert_eq!(PixelFormat::Gray.channels(), 1);
    assert_eq!(PixelFormat::Rgb.channels(), 3);
    assert_eq!(PixelFormat::Rgba.channels(), 4);
}

#[test]
fn cameras_are_listed_by_platform() {
    let names = vec!["tty".to_string(), "video0".to_string()];
    let devices = CameraDevice::list_devices(Platform::Linux, &names).unwrap();
    assert_eq!(devices.len(), 1);
    assert_eq!(devices[0].path, "/dev/video0");
    assert_eq!(devices[0].name, Some("video0".to_string()));
    assert!(CameraDevice::list_devices(Platform::Linux, &vec![]).is_err());
    assert_eq!(CameraDevice::list_devices(Platform::MacOs, &vec![]).unwrap().len(), 1);
    assert_eq!(CameraDevice::default_format(Platform::Windows), "dshow");
    assert_eq!(CameraDevice::default_format(Platform::Other), "auto");
}

#[test]
fn readers_count_and_stop() {
    let config = VideoConfig::from_file("x".to_string()).with_buffer_size(4).with_max_frames(1);
    let mut reader = VideoReader::new(config);
    assert!(reader.read_frame().unwrap().is_none());
    assert!(reader.feed(frame(1, 1, 1, vec![1])));
    assert!(reader.feed(frame(1, 1, 1, vec![2])));
    assert_eq!(reader.read_frame().unwrap().unwrap().data, vec![1]);
    assert!(reader.read_frame().unwrap().is_none());
    assert_eq!(reader.current_frame(), 1);
    assert_eq!(wide(reader.current_time(&Numeric)), 1.0 / 30.0);
    assert_eq!(reader.metadata().width, 1920);
    assert!(reader.seek(double(0.0)).is_ok());
}

fn apply(filter: VideoFilter, data: Vec<u8>) -> Vec<u8> {
    let f = frame(3, 3, 1, data);
    VideoProcessor::apply_filter(&Numeric, &Numeric, &f, filter).unwrap().data
}

#[test]
fn filters_look_at_windows() {
    let data = vec![10, 20, 30, 40, 50, 60, 70, 80, 90];
    assert_eq!(apply(VideoFilter::Erosion { kernel_size: 3 }, data.clone())[4], 10);
    assert_eq!(apply(VideoFilter::Dilation { kernel_size: 3 }, data.clone())[4], 90);
    assert_eq!(apply(VideoFilter::BoxBlur { kernel_size: 3 }, data.clone())[4], 50);
    let blurred =
        apply(VideoFilter::GaussianBlur { kernel_size: 3, sigma: single(1.0) }, data.clone());
    assert_eq!(blurred[4], 50);
    assert_eq!(apply(VideoFilter::LaplacianEdge, data.clone())[4], 0);
    assert_eq!(apply(VideoFilter::Sharpen, data.clone())[4], 50);
    let gx = 80.0f32;
    let gy = 240.0f32;
    let sobel = (gx * gx + gy * gy).sqrt().min(255.0) as u8;
    assert_eq!(apply(VideoFilter::SobelEdge, data.clone())[4], sobel);
    assert_eq!(apply(VideoFilter::Brightness { delta: single(5.0) }, data.clone())[0], 15);
    assert_eq!(apply(VideoFilter::Contrast { factor: single(2.0) }, vec![130; 9])[0], 132);
    assert_eq!(apply(VideoFilter::Erosion { kernel_size: 3 }, data)[0], 0);
}

#[test]
fn sobel_of_a_soft_edge_is_rounded_down() {
    let data = vec![1, 1, 2, 1, 1, 2, 1, 1, 3];
    let gx = 1.0f32 + 2.0 + 2.0;
    let gy = 1.0f32;
    let expected = (gx * gx + gy * gy).sqrt() as u8;
    assert_eq!(apply(VideoFilter::SobelEdge, data)[4], expected);
}

#[test]
fn still_frames_do_not_move() {
    let still = frame(4, 4, 1, (0..16).collect());
    for method in [
        OpticalFlowMethod::DenseGradient,
        OpticalFlowMethod::BlockMatching,
        OpticalFlowMethod::LucasKanade,
    ] {
        let estimator = OpticalFlowEstimator::new(method).with_window_size(3);
        let flow = estimator.compute(&Numeric, &Numeric, &still, &still).unwrap();
        assert_eq!(flow.dimensions(), (4, 4));
        let dense = matches!(method, OpticalFlowMethod::BlockMatching);
        if !dense {
            assert_eq!(float(flow.max_magnitude()), 0.0);
        }
    }
    let other = frame(2, 2, 1, vec![0; 4]);
    let estimator = OpticalFlowEstimator::new(OpticalFlowMethod::DenseGradient);
    let mismatch = estimator.compute(&Numeric, &Numeric, &still, &other);
    assert!(matches!(mismatch, Err(IoError::ConfigError(_))));
}

#[test]
fn gradients_drive_the_dense_flow() {
    let prev = frame(3, 3, 1, vec![0, 10, 20, 0, 10, 20, 0, 10, 20]);
    let curr = frame(3, 3, 1, vec![5, 15, 25, 5, 15, 25, 5, 15, 25]);
    let estimator = OpticalFlowEstimator::new(OpticalFlowMethod::DenseGradient);
    let flow = estimator.compute(&Numeric, &Numeric, &prev, &curr).unwrap();
    let (u, v) = flow.get_flow(1, 1).unwrap();
    assert!((float(u) + 0.5).abs() < 1e-4);
    assert_eq!(float(v), 0.0);
    assert!(flow.get_flow(3, 0).is_none());
}

#[test]
fn motion_has_length_and_direction() {
    let x = Matrix::from_vec(1, 2, singles(&[3.0, 0.0])).unwrap();
    let y = Matrix::from_vec(1, 2, singles(&[4.0, 2.0])).unwrap();
    let flow = OpticalFlow::new(&Numeric, x, y);
    assert_eq!(floats(flow.magnitude.values()), vec![5.0, 2.0]);
    assert_eq!(float(flow.max_magnitude()), 5.0);
    assert_eq!(float(flow.avg_magnitude(&Numeric)), 3.5);
    assert_eq!(float(flow.angle.get(0, 1)), std::f32::consts::FRAC_PI_2);
}
