//! Video: frames, where they come from and the buffer between a source and
//! its user.

use crate::error::{IoError, IoResult};
use crate::number::{Double, Single};
use crate::text::{join, strip_prefix};
use vstd::prelude::*;
use vstd::string::*;

pub mod filter;
pub mod flow;

verus! {

/// The arithmetic on pixels. Nothing is required of what it returns.
pub trait PixelMath {
    /// The brightness of a colour.
    fn luma(&self, red: u8, green: u8, blue: u8) -> u8;

    /// A pixel as a part of full brightness.
    fn unit(&self, pixel: u8) -> Single;

    /// The time of a frame at so many frames a second, in seconds.
    fn seconds(&self, frame: u64, fps: Double) -> Double;
}

/// A frame of a video.
#[derive(Debug)]
pub struct VideoFrame {
    /// The number of the frame.
    pub index: u64,
    /// The time in seconds.
    pub timestamp: Double,
    /// The width in pixels.
    pub width: usize,
    /// The height in pixels.
    pub height: usize,
    /// The number of channels of a pixel.
    pub channels: usize,
    /// The channels of the pixels, row by row.
    pub data: Vec<u8>,
}

/// The place of a pixel is before the end of the pixels.
pub proof fn place_fits(width: int, height: int, x: int, y: int)
    requires
        0 <= x < width,
        0 <= y < height,
    ensures
        0 <= y * width,
        y * width + x < width * height,
        (y * width + x) % width == x,
        (y * width + x) / width == y,
{
    assert(0 <= y * width) by (nonlinear_arith)
        requires
            0 <= y,
            0 < width,
    ;
    assert(y * width + width <= width * height) by (nonlinear_arith)
        requires
            y + 1 <= height,
            0 < width,
    ;
    vstd::arithmetic::div_mod::lemma_fundamental_div_mod_converse(y * width + x, width, y, x);
}

/// A place is in the row and the column that it is taken apart into.
pub proof fn place_parts(width: int, height: int, k: int)
    requires
        0 <= k < width * height,
        0 <= width,
        0 <= height,
    ensures
        0 < width,
        0 <= k % width < width,
        0 <= k / width < height,
        k == (k / width) * width + k % width,
{
    assert(0 < width) by (nonlinear_arith)
        requires
            0 <= k < width * height,
            0 <= width,
            0 <= height,
    ;
    vstd::arithmetic::div_mod::lemma_fundamental_div_mod(k, width);
    assert(k / width < height) by (nonlinear_arith)
        requires
            0 <= k < width * height,
            0 < width,
    ;
    assert(0 <= k / width) by (nonlinear_arith)
        requires
            0 <= k,
            0 < width,
    ;
    assert(width * (k / width) == (k / width) * width) by (nonlinear_arith);
}

impl VideoFrame {
    /// Whether every pixel has its channels.
    pub open spec fn wf(&self) -> bool {
        self.data@.len() == self.width * self.height * self.channels
    }

    /// Whether the frame has one channel, and every pixel is there.
    pub open spec fn is_gray(&self) -> bool {
        &&& self.channels == 1
        &&& self.data@.len() == self.width * self.height
    }

    /// The pixel at a place of a frame with one channel.
    pub open spec fn at(&self, x: int, y: int) -> u8 {
        self.data@[y * self.width + x]
    }

    /// Whether all but the pixels is that of `other`, with one channel.
    pub open spec fn is_gray_like(&self, other: &Self) -> bool {
        &&& self.is_gray()
        &&& self.index == other.index
        &&& self.timestamp == other.timestamp
        &&& self.width == other.width
        &&& self.height == other.height
    }

    /// The pixel at a place of a frame with one channel.
    pub fn get(&self, x: usize, y: usize) -> (r: u8)
        requires
            self.is_gray(),
            x < self.width,
            y < self.height,
        ensures
            r == self.at(x as int, y as int),
    {
        proof {
            place_fits(self.width as int, self.height as int, x as int, y as int);
            assert(self.data@.len() == self.data.len());
        }
        self.data[y * self.width + x]
    }

    /// A copy of the frame.
    pub fn copy(&self) -> (r: Self)
        ensures
            r == (VideoFrame { data: r.data, ..*self }),
            r.data@ == self.data@,
    {
        let mut data: Vec<u8> = Vec::new();
        data.extend_from_slice(self.data.as_slice());
        assert(data@ =~= self.data@);
        VideoFrame {
            index: self.index,
            timestamp: self.timestamp,
            width: self.width,
            height: self.height,
            channels: self.channels,
            data,
        }
    }

    /// A copy of the channels of the pixels, row by row.
    pub fn to_array(&self) -> (r: Vec<u8>)
        requires
            self.wf(),
        ensures
            r@ == self.data@,
    {
        self.copy().data
    }

    /// The channels of the pixels, row by row.
    pub fn as_array(&self) -> (r: &[u8])
        requires
            self.wf(),
        ensures
            r@ == self.data@,
    {
        self.data.as_slice()
    }

    /// Whether a frame can be `self` in shades of grey: itself where it has
    /// one channel, else the brightness of the first three channels of each
    /// pixel.
    pub open spec fn turns_gray<M: PixelMath>(&self, math: &M, r: &Self) -> bool {
        if self.channels == 1 {
            &&& *r == (VideoFrame { data: r.data, ..*self })
            &&& r.data@ == self.data@
        } else {
            &&& r.is_gray_like(self)
            &&& forall|k: int|
                0 <= k < r.data@.len() ==> call_ensures(
                    M::luma,
                    (
                        math,
                        self.data@[k * self.channels],
                        self.data@[k * self.channels + 1],
                        self.data@[k * self.channels + 2],
                    ),
                    #[trigger] r.data@[k],
                )
        }
    }

    /// The frame in shades of grey.
    pub fn to_grayscale<M: PixelMath>(&self, math: &M) -> (r: VideoFrame)
        requires
            self.wf(),
            self.channels == 1 || self.channels >= 3,
        ensures
            self.turns_gray(math, &r),
            r.is_gray_like(self),
    {
        if self.channels == 1 {
            return self.copy();
        }
        let n: usize = self.channels;
        assert(self.data@.len() == self.data.len());
        proof {
            assert(self.width * self.height <= self.width * self.height * n) by (nonlinear_arith)
                requires
                    n >= 1,
                    0 <= self.width,
                    0 <= self.height,
            ;
        }
        let pixels: usize = self.width * self.height;
        let mut data: Vec<u8> = Vec::new();
        let mut k: usize = 0;
        while k < pixels
            invariant
                k <= pixels,
                n == self.channels,
                n >= 3,
                pixels == self.width * self.height,
                self.data@.len() == pixels * n,
                self.data@.len() == self.data.len(),
                data@.len() == k,
                forall|i: int|
                    0 <= i < k ==> call_ensures(
                        M::luma,
                        (math, self.data@[i * n], self.data@[i * n + 1], self.data@[i * n + 2]),
                        #[trigger] data@[i],
                    ),
            decreases pixels - k,
        {
            assert(0 <= k * n && k * n + n <= pixels * n) by (nonlinear_arith)
                requires
                    0 <= k,
                    k + 1 <= pixels,
                    n >= 3,
            ;
            let at: usize = k * n;
            data.push(math.luma(self.data[at], self.data[at + 1], self.data[at + 2]));
            k += 1;
        }
        VideoFrame {
            index: self.index,
            timestamp: self.timestamp,
            width: self.width,
            height: self.height,
            channels: 1,
            data,
        }
    }

    /// The channels of the pixels as parts of full brightness.
    pub fn to_normalized_f32<M: PixelMath>(&self, math: &M) -> (r: Vec<Single>)
        ensures
            r@.len() == self.data@.len(),
            forall|k: int|
                0 <= k < r@.len() ==> call_ensures(
                    M::unit,
                    (math, self.data@[k]),
                    #[trigger] r@[k],
                ),
    {
        let mut out: Vec<Single> = Vec::new();
        let mut k: usize = 0;
        while k < self.data.len()
            invariant
                k <= self.data@.len(),
                out@.len() == k,
                forall|i: int|
                    0 <= i < k ==> call_ensures(
                        M::unit,
                        (math, self.data@[i]),
                        #[trigger] out@[i],
                    ),
            decreases self.data@.len() - k,
        {
            out.push(math.unit(self.data[k]));
            k += 1;
        }
        out
    }
}

/// How a pixel is written.
#[derive(Debug, Clone, Copy, PartialEq, Eq, Structural)]
pub enum PixelFormat {
    /// Red, green and blue.
    Rgb,
    /// A shade of grey.
    Gray,
    /// Red, green, blue and opacity.
    Rgba,
}

impl PixelFormat {
    /// The number of channels of a pixel.
    pub fn channels(&self) -> (r: usize)
        ensures
            r == match self {
                PixelFormat::Gray => 1usize,
                PixelFormat::Rgb => 3,
                PixelFormat::Rgba => 4,
            },
    {
        match self {
            PixelFormat::Gray => 1,
            PixelFormat::Rgb => 3,
            PixelFormat::Rgba => 4,
        }
    }
}

/// Where a video comes from.
#[derive(Debug, Clone)]
pub enum VideoSource {
    /// A file.
    File(String),
    /// A camera.
    Camera(String),
    /// An address in a network.
    Network(String),
}

/// Configuration of a video.
#[derive(Debug, Clone)]
pub struct VideoConfig {
    /// Where it comes from.
    pub source: VideoSource,
    /// How pixels are written.
    pub pixel_format: PixelFormat,
    /// Of how many frames one is taken.
    pub decimation: usize,
    /// How many frames the buffer can hold.
    pub buffer_size: usize,
    /// The width to bring frames to.
    pub target_width: Option<usize>,
    /// The height to bring frames to.
    pub target_height: Option<usize>,
    /// The time to start at, in seconds.
    pub start_time: Option<Double>,
    /// How many frames to take at most.
    pub max_frames: Option<u64>,
    /// The interface of the camera.
    pub camera_format: Option<String>,
    /// Frames a second of the camera.
    pub camera_fps: Option<u32>,
}

/// The configuration for a source that is no camera.
pub open spec fn plain_config(source: VideoSource, buffer_size: usize) -> VideoConfig {
    VideoConfig {
        source,
        pixel_format: PixelFormat::Rgb,
        decimation: 1,
        buffer_size,
        target_width: None,
        target_height: None,
        start_time: None,
        max_frames: None,
        camera_format: None,
        camera_fps: None,
    }
}

fn config_for(source: VideoSource, buffer_size: usize) -> (r: VideoConfig)
    ensures
        r == plain_config(source, buffer_size),
{
    VideoConfig {
        source,
        pixel_format: PixelFormat::Rgb,
        decimation: 1,
        buffer_size,
        target_width: None,
        target_height: None,
        start_time: None,
        max_frames: None,
        camera_format: None,
        camera_fps: None,
    }
}

impl VideoConfig {
    /// The configuration for a file.
    pub fn from_file(path: String) -> (r: Self)
        ensures
            r == plain_config(VideoSource::File(path), 30),
    {
        config_for(VideoSource::File(path), 30)
    }

    /// The configuration for a camera.
    pub fn from_camera(device: String) -> (r: Self)
        ensures
            r == (VideoConfig {
                camera_format: r.camera_format,
                camera_fps: Some(30),
                ..plain_config(VideoSource::Camera(device), 5)
            }),
            r.camera_format matches Some(f) && f@ == "video4linux2"@,
    {
        VideoConfig {
            camera_format: Some("video4linux2".to_owned()),
            camera_fps: Some(30),
            ..config_for(VideoSource::Camera(device), 5)
        }
    }

    /// The configuration for an address in a network.
    pub fn from_network(url: String) -> (r: Self)
        ensures
            r == plain_config(VideoSource::Network(url), 10),
    {
        config_for(VideoSource::Network(url), 10)
    }

    /// Sets how pixels are written.
    pub fn with_pixel_format(self, pixel_format: PixelFormat) -> (r: Self)
        ensures
            r == (VideoConfig { pixel_format, ..self }),
    {
        VideoConfig { pixel_format, ..self }
    }

    /// Sets of how many frames one is taken, which is at least of one.
    pub fn with_decimation(self, decimation: usize) -> (r: Self)
        ensures
            r == (VideoConfig {
                decimation: if decimation == 0 {
                    1
                } else {
                    decimation
                },
                ..self
            }),
    {
        let decimation: usize = if decimation == 0 {
            1
        } else {
            decimation
        };
        VideoConfig { decimation, ..self }
    }

    /// Sets how many frames the buffer can hold.
    pub fn with_buffer_size(self, buffer_size: usize) -> (r: Self)
        ensures
            r == (VideoConfig { buffer_size, ..self }),
    {
        VideoConfig { buffer_size, ..self }
    }

    /// Sets the size to bring frames to.
    pub fn with_resize(self, width: usize, height: usize) -> (r: Self)
        ensures
            r == (VideoConfig { target_width: Some(width), target_height: Some(height), ..self }),
    {
        VideoConfig { target_width: Some(width), target_height: Some(height), ..self }
    }

    /// Sets the time to start at.
    pub fn with_start_time(self, start_time: Double) -> (r: Self)
        ensures
            r == (VideoConfig { start_time: Some(start_time), ..self }),
    {
        VideoConfig { start_time: Some(start_time), ..self }
    }

    /// Sets how many frames to take at most.
    pub fn with_max_frames(self, max_frames: u64) -> (r: Self)
        ensures
            r == (VideoConfig { max_frames: Some(max_frames), ..self }),
    {
        VideoConfig { max_frames: Some(max_frames), ..self }
    }

    /// Sets the interface of the camera.
    pub fn with_camera_format(self, format: String) -> (r: Self)
        ensures
            r == (VideoConfig { camera_format: Some(format), ..self }),
    {
        VideoConfig { camera_format: Some(format), ..self }
    }

    /// Sets the frames a second of the camera.
    pub fn with_camera_fps(self, fps: u32) -> (r: Self)
        ensures
            r == (VideoConfig { camera_fps: Some(fps), ..self }),
    {
        VideoConfig { camera_fps: Some(fps), ..self }
    }
}

/// The system that a program runs on.
#[derive(Debug, Clone, Copy, PartialEq, Eq, Structural)]
pub enum Platform {
    Linux,
    Windows,
    MacOs,
    Other,
}

/// A camera.
#[derive(Debug, Clone)]
pub struct CameraDevice {
    /// Where it is.
    pub path: String,
    /// What it is called.
    pub name: Option<String>,
    /// Its interfaces.
    pub formats: Vec<String>,
}

/// Whether a name is that of a camera among devices.
pub open spec fn names_camera(name: Seq<char>) -> bool {
    crate::text::without_prefix(name, "video"@) is Some
}

/// The names of the cameras among devices, in the same order.
pub open spec fn cameras_among(names: Seq<String>) -> Seq<Seq<char>>
    decreases names.len(),
{
    if names.len() == 0 {
        Seq::empty()
    } else if names_camera(names.last()@) {
        cameras_among(names.drop_last()).push(names.last()@)
    } else {
        cameras_among(names.drop_last())
    }
}

/// Whether a camera is the one at a path, of a name and with one interface.
pub open spec fn is_camera(
    c: CameraDevice,
    path: Seq<char>,
    name: Seq<char>,
    format: Seq<char>,
) -> bool {
    &&& c.path@ == path
    &&& c.name matches Some(n) && n@ == name
    &&& c.formats@.len() == 1
    &&& c.formats@[0]@ == format
}

fn camera(path: String, name: String, format: &str) -> (r: CameraDevice)
    ensures
        is_camera(r, path@, name@, format@),
{
    let mut formats: Vec<String> = Vec::new();
    formats.push(format.to_owned());
    CameraDevice { path, name: Some(name), formats }
}

impl CameraDevice {
    /// The cameras of a system, given the names of its devices. On Linux a
    /// camera is a device whose name starts with `video`; on Windows and macOS
    /// there is the default camera.
    pub fn list_devices(platform: Platform, names: &Vec<String>) -> (r: IoResult<Vec<CameraDevice>>)
        ensures
            match platform {
                Platform::Linux => {
                    let cameras = cameras_among(names@);
                    if cameras.len() == 0 {
                        r matches Err(IoError::ConfigError(t)) && t@ == "No camera devices found"@
                    } else {
                        &&& r is Ok
                        &&& r->Ok_0@.len() == cameras.len()
                        &&& forall|i: int|
                            0 <= i < cameras.len() ==> is_camera(
                                #[trigger] r->Ok_0@[i],
                                "/dev/"@ + cameras[i],
                                cameras[i],
                                "video4linux2"@,
                            )
                    }
                },
                Platform::Windows => {
                    &&& r is Ok
                    &&& r->Ok_0@.len() == 1
                    &&& is_camera(r->Ok_0@[0], "0"@, "Default Camera"@, "dshow"@)
                },
                Platform::MacOs => {
                    &&& r is Ok
                    &&& r->Ok_0@.len() == 1
                    &&& is_camera(r->Ok_0@[0], "0"@, "Default Camera"@, "avfoundation"@)
                },
                Platform::Other => r matches Err(IoError::ConfigError(t)) && t@
                    == "No camera devices found"@,
            },
    {
        let mut out: Vec<CameraDevice> = Vec::new();
        match platform {
            Platform::Linux => {
                let mut i: usize = 0;
                while i < names.len()
                    invariant
                        i <= names@.len(),
                        out@.len() == cameras_among(names@.take(i as int)).len(),
                        forall|k: int|
                            0 <= k < out@.len() ==> is_camera(
                                #[trigger] out@[k],
                                "/dev/"@ + cameras_among(names@.take(i as int))[k],
                                cameras_among(names@.take(i as int))[k],
                                "video4linux2"@,
                            ),
                    decreases names@.len() - i,
                {
                    proof {
                        assert(names@.take(i + 1).drop_last() =~= names@.take(i as int));
                        assert(names@.take(i + 1).last() == names@[i as int]);
                    }
                    let name: &str = names[i].as_str();
                    if strip_prefix(name, "video").is_some() {
                        out.push(camera(join("/dev/", name), name.to_owned(), "video4linux2"));
                    }
                    i += 1;
                }
                assert(names@.take(i as int) =~= names@);
            },
            Platform::Windows => {
                out.push(camera("0".to_owned(), "Default Camera".to_owned(), "dshow"));
            },
            Platform::MacOs => {
                out.push(camera("0".to_owned(), "Default Camera".to_owned(), "avfoundation"));
            },
            Platform::Other => {},
        }
        if out.len() == 0 {
            Err(IoError::ConfigError("No camera devices found".to_owned()))
        } else {
            Ok(out)
        }
    }

    /// The interface of cameras on a system.
    pub fn default_format(platform: Platform) -> (r: &'static str)
        ensures
            r@ == match platform {
                Platform::Linux => "video4linux2"@,
                Platform::Windows => "dshow"@,
                Platform::MacOs => "avfoundation"@,
                Platform::Other => "auto"@,
            },
    {
        match platform {
            Platform::Linux => "video4linux2",
            Platform::Windows => "dshow",
            Platform::MacOs => "avfoundation",
            Platform::Other => "auto",
        }
    }
}

/// Frames that wait. A place in the buffer is free again only once all frames
/// have been taken.
pub struct FrameBuffer {
    frames: Vec<VideoFrame>,
    capacity: usize,
    taken: usize,
}

impl FrameBuffer {
    /// The frames that wait.
    pub closed spec fn queue(&self) -> Seq<VideoFrame> {
        self.frames@
    }

    /// How many frames have been taken since the buffer was empty.
    pub closed spec fn spent(&self) -> nat {
        self.taken as nat
    }

    /// How many frames the buffer can hold.
    pub closed spec fn room(&self) -> nat {
        self.capacity as nat
    }

    /// Whether there are no more frames than room, and none taken of an empty
    /// buffer.
    pub open spec fn wf(&self) -> bool {
        &&& self.queue().len() + self.spent() <= self.room()
        &&& self.room() <= usize::MAX
        &&& self.queue().len() == 0 ==> self.spent() == 0
    }

    /// An empty buffer.
    pub fn new(capacity: usize) -> (r: Self)
        ensures
            r.wf(),
            r.queue() == Seq::<VideoFrame>::empty(),
            r.spent() == 0,
            r.room() == capacity,
    {
        FrameBuffer { frames: Vec::new(), capacity, taken: 0 }
    }

    /// Puts a frame behind those that wait, where there is room.
    pub fn push(&mut self, frame: VideoFrame) -> (r: bool)
        requires
            old(self).wf(),
        ensures
            final(self).wf(),
            final(self).room() == old(self).room(),
            final(self).spent() == old(self).spent(),
            r == (old(self).queue().len() + old(self).spent() < old(self).room()),
            final(self).queue() == if r {
                old(self).queue().push(frame)
            } else {
                old(self).queue()
            },
    {
        if self.frames.len() + self.taken < self.capacity {
            self.frames.push(frame);
            true
        } else {
            false
        }
    }

    /// Takes the frame that waits longest.
    pub fn pop(&mut self) -> (r: Option<VideoFrame>)
        requires
            old(self).wf(),
        ensures
            final(self).wf(),
            final(self).room() == old(self).room(),
            if old(self).queue().len() == 0 {
                &&& r is None
                &&& final(self).queue() == old(self).queue()
                &&& final(self).spent() == old(self).spent()
            } else {
                &&& r == Some(old(self).queue()[0])
                &&& final(self).queue() == old(self).queue().skip(1)
                &&& final(self).spent() == if old(self).queue().len() == 1 {
                    0
                } else {
                    old(self).spent() + 1
                }
            },
    {
        if self.frames.len() == 0 {
            return None;
        }
        let frame: VideoFrame = self.frames.remove(0);
        assert(self.queue() =~= old(self).queue().skip(1));
        if self.frames.len() == 0 {
            self.taken = 0;
        } else {
            self.taken = self.taken + 1;
        }
        Some(frame)
    }

    /// The number of frames that wait.
    pub fn available(&self) -> (r: usize)
        ensures
            r == self.queue().len(),
    {
        self.frames.len()
    }

    /// Whether there is no room.
    pub fn is_full(&self) -> (r: bool)
        requires
            self.wf(),
        ensures
            r == (self.queue().len() + self.spent() >= self.room()),
    {
        self.frames.len() + self.taken >= self.capacity
    }

    /// Whether no frame waits.
    pub fn is_empty(&self) -> (r: bool)
        ensures
            r == (self.queue().len() == 0),
    {
        self.frames.len() == 0
    }

    /// Drops all frames.
    pub fn clear(&mut self)
        ensures
            old(self).room() <= usize::MAX ==> final(self).wf(),
            final(self).queue() == Seq::<VideoFrame>::empty(),
            final(self).spent() == 0,
            final(self).room() == old(self).room(),
    {
        self.frames = Vec::new();
        self.taken = 0;
    }
}

/// The bit pattern of 30.0, the default number of frames a second.
pub const FPS_BITS: u64 = 0x403e_0000_0000_0000;

/// What is known of a video.
#[derive(Debug, Clone, Copy, PartialEq, Eq, Structural)]
pub struct VideoMetadata {
    /// Frames a second.
    pub fps: Double,
    /// The length in seconds.
    pub duration: Double,
    /// The number of frames.
    pub frame_count: u64,
    /// The width in pixels.
    pub width: usize,
    /// The height in pixels.
    pub height: usize,
    /// How pixels are written.
    pub pixel_format: PixelFormat,
}

/// A video that is being read.
pub struct VideoReader {
    config: VideoConfig,
    buffer: FrameBuffer,
    frame_count: u64,
    current_frame: u64,
    fps: Double,
    duration: Double,
}

impl VideoReader {
    /// The configuration of the video.
    pub closed spec fn settings(&self) -> VideoConfig {
        self.config
    }

    /// The frames that wait.
    pub closed spec fn waiting(&self) -> FrameBuffer {
        self.buffer
    }

    /// The number of frames that have been read.
    pub closed spec fn frames_read(&self) -> u64 {
        self.current_frame
    }

    /// Whether the buffer is valid and what is known of the video is the
    /// default.
    pub closed spec fn wf(&self) -> bool {
        &&& self.buffer.wf()
        &&& self.fps.bits == FPS_BITS
        &&& self.duration.bits == 0
        &&& self.frame_count == 0
    }

    /// A video of which no frame waits.
    pub fn new(config: VideoConfig) -> (r: Self)
        ensures
            r.wf(),
            r.settings() == config,
            r.waiting().queue() == Seq::<VideoFrame>::empty(),
            r.waiting().spent() == 0,
            r.waiting().room() == config.buffer_size,
            r.frames_read() == 0,
    {
        let buffer: FrameBuffer = FrameBuffer::new(config.buffer_size);
        VideoReader {
            config,
            buffer,
            frame_count: 0,
            current_frame: 0,
            fps: Double::from_bits(FPS_BITS),
            duration: Double::zero(),
        }
    }

    /// Puts a frame behind those that wait, where there is room.
    pub fn feed(&mut self, frame: VideoFrame) -> (r: bool)
        requires
            old(self).wf(),
        ensures
            final(self).wf(),
            final(self).settings() == old(self).settings(),
            final(self).frames_read() == old(self).frames_read(),
            final(self).waiting().room() == old(self).waiting().room(),
            final(self).waiting().spent() == old(self).waiting().spent(),
            r == (old(self).waiting().queue().len() + old(self).waiting().spent() < old(
                self,
            ).waiting().room()),
            final(self).waiting().queue() == if r {
                old(self).waiting().queue().push(frame)
            } else {
                old(self).waiting().queue()
            },
    {
        self.buffer.push(frame)
    }

    /// Whether as many frames have been read as are to be taken.
    pub open spec fn is_done(&self) -> bool {
        self.settings().max_frames matches Some(max) && self.frames_read() >= max
    }

    /// Takes the frame that waits longest; `None` where none waits or enough
    /// have been read.
    pub fn read_frame(&mut self) -> (r: IoResult<Option<VideoFrame>>)
        requires
            old(self).wf(),
            old(self).frames_read() < u64::MAX,
        ensures
            final(self).wf(),
            final(self).settings() == old(self).settings(),
            if old(self).is_done() || old(self).waiting().queue().len() == 0 {
                &&& r matches Ok(None)
                &&& final(self).waiting().queue() == old(self).waiting().queue()
                &&& final(self).frames_read() == old(self).frames_read()
            } else {
                &&& r matches Ok(Some(frame)) && frame == old(self).waiting().queue()[0]
                &&& final(self).waiting().queue() == old(self).waiting().queue().skip(1)
                &&& final(self).frames_read() == old(self).frames_read() + 1
            },
    {
        if let Some(max) = self.config.max_frames {
            if self.current_frame >= max {
                return Ok(None);
            }
        }
        match self.buffer.pop() {
            Some(frame) => {
                self.current_frame = self.current_frame + 1;
                Ok(Some(frame))
            },
            None => Ok(None),
        }
    }

    /// What is known of the video.
    pub fn metadata(&self) -> (r: VideoMetadata)
        requires
            self.wf(),
        ensures
            r == (VideoMetadata {
                fps: Double { bits: FPS_BITS },
                duration: Double { bits: 0 },
                frame_count: 0,
                width: match self.settings().target_width {
                    Some(w) => w,
                    None => 1920,
                },
                height: match self.settings().target_height {
                    Some(h) => h,
                    None => 1080,
                },
                pixel_format: self.settings().pixel_format,
            }),
    {
        let width: usize = match self.config.target_width {
            Some(w) => w,
            None => 1920,
        };
        let height: usize = match self.config.target_height {
            Some(h) => h,
            None => 1080,
        };
        VideoMetadata {
            fps: self.fps,
            duration: self.duration,
            frame_count: self.frame_count,
            width,
            height,
            pixel_format: self.config.pixel_format,
        }
    }

    /// Goes to another time, which drops the frames that wait.
    pub fn seek(&mut self, _time: Double) -> (r: IoResult<()>)
        requires
            old(self).wf(),
        ensures
            r is Ok,
            final(self).wf(),
            final(self).settings() == old(self).settings(),
            final(self).frames_read() == old(self).frames_read(),
            final(self).waiting().queue() == Seq::<VideoFrame>::empty(),
    {
        self.buffer.clear();
        Ok(())
    }

    /// The number of frames that have been read.
    pub fn current_frame(&self) -> (r: u64)
        ensures
            r == self.frames_read(),
    {
        self.current_frame
    }

    /// The time of the next frame, in seconds.
    pub fn current_time<M: PixelMath>(&self, math: &M) -> (r: Double)
        requires
            self.wf(),
        ensures
            call_ensures(
                M::seconds,
                (math, self.frames_read(), Double { bits: FPS_BITS }),
                r,
            ),
    {
        math.seconds(self.current_frame, self.fps)
    }
}

} // verus!
