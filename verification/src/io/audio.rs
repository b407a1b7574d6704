//! Audio from and to devices: which device to take, and what the buffers
//! between a device and its user hold.

use crate::error::{IoError, IoResult};
use crate::io::stream::{pad_to, SignalStream, StreamConfig};
use crate::matrix::Matrix;
use crate::number::Single;
use crate::text::{decimal, join, same_text};
use vstd::prelude::*;
use vstd::slice::slice_subrange;
use vstd::string::*;

verus! {

/// The sound system to use.
#[derive(Debug, Clone, Copy, PartialEq, Eq, Structural)]
pub enum AudioBackend {
    /// That of the machine.
    Default,
    /// That of a driver for studio hardware.
    Asio,
    /// That of a server for connected programs.
    Jack,
}

impl Default for AudioBackend {
    fn default() -> (r: Self)
        ensures
            r == AudioBackend::Default,
    {
        AudioBackend::Default
    }
}

/// Which host of the sound system to open.
#[derive(Debug, Clone, Copy, PartialEq, Eq, Structural)]
pub enum HostChoice {
    /// The default one.
    Default,
    /// That of the driver for studio hardware.
    Asio,
}

/// Which host to open for a sound system. The default host also stands for a
/// server for connected programs.
pub fn choose_host(backend: AudioBackend, asio_available: bool) -> (r: IoResult<HostChoice>)
    ensures
        match backend {
            AudioBackend::Asio => if asio_available {
                r == Ok::<HostChoice, IoError>(HostChoice::Asio)
            } else {
                r matches Err(IoError::ConfigError(t)) && t@
                    == "ASIO backend not available. Ensure ASIO drivers are installed."@
            },
            _ => r == Ok::<HostChoice, IoError>(HostChoice::Default),
        },
{
    match backend {
        AudioBackend::Asio => if asio_available {
            Ok(HostChoice::Asio)
        } else {
            Err(
                IoError::ConfigError(
                    "ASIO backend not available. Ensure ASIO drivers are installed.".to_owned(),
                ),
            )
        },
        _ => Ok(HostChoice::Default),
    }
}

/// Configuration of a device.
#[derive(Debug, Clone)]
pub struct AudioConfig {
    /// The name of the device; `None` for the default one.
    pub device_name: Option<String>,
    /// Sample rate in Hz.
    pub sample_rate: u32,
    /// The number of channels.
    pub channels: u16,
    /// The size of the buffer.
    pub buffer_size: u32,
    /// Whether the device plays.
    pub output: bool,
    /// The sound system.
    pub backend: AudioBackend,
}

/// The default configuration.
pub open spec fn default_audio() -> AudioConfig {
    AudioConfig {
        device_name: None,
        sample_rate: 44100,
        channels: 1,
        buffer_size: 1024,
        output: false,
        backend: AudioBackend::Default,
    }
}

impl Default for AudioConfig {
    fn default() -> (r: Self)
        ensures
            r == default_audio(),
    {
        AudioConfig {
            device_name: None,
            sample_rate: 44100,
            channels: 1,
            buffer_size: 1024,
            output: false,
            backend: AudioBackend::Default,
        }
    }
}

impl AudioConfig {
    /// The default configuration of a device that records.
    pub fn new() -> (r: Self)
        ensures
            r == default_audio(),
    {
        Self::default()
    }

    /// The default configuration of a device that plays.
    pub fn new_output() -> (r: Self)
        ensures
            r == (AudioConfig { output: true, ..default_audio() }),
    {
        AudioConfig { output: true, ..Self::default() }
    }

    /// Sets the sample rate.
    pub fn sample_rate(self, rate: u32) -> (r: Self)
        ensures
            r == (AudioConfig { sample_rate: rate, ..self }),
    {
        AudioConfig { sample_rate: rate, ..self }
    }

    /// Sets the number of channels.
    pub fn channels(self, n: u16) -> (r: Self)
        ensures
            r == (AudioConfig { channels: n, ..self }),
    {
        AudioConfig { channels: n, ..self }
    }

    /// Sets the size of the buffer.
    pub fn buffer_size(self, size: u32) -> (r: Self)
        ensures
            r == (AudioConfig { buffer_size: size, ..self }),
    {
        AudioConfig { buffer_size: size, ..self }
    }

    /// Sets the name of the device.
    pub fn device(self, name: &str) -> (r: Self)
        ensures
            r == (AudioConfig { device_name: r.device_name, ..self }),
            r.device_name matches Some(n) && n@ == name@,
    {
        AudioConfig { device_name: Some(name.to_owned()), ..self }
    }

    /// Sets the sound system.
    pub fn backend(self, backend: AudioBackend) -> (r: Self)
        ensures
            r == (AudioConfig { backend, ..self }),
    {
        AudioConfig { backend, ..self }
    }
}

/// Whether the device at a place has a name.
pub open spec fn is_named(names: Seq<Option<String>>, i: int, name: Seq<char>) -> bool {
    names[i] matches Some(n) && n@ == name
}

/// The place of the first device with a name. A device whose name is not
/// known is passed over.
pub fn find_device(names: &Vec<Option<String>>, name: &str) -> (r: IoResult<usize>)
    ensures
        match r {
            Ok(i) => {
                &&& i < names@.len()
                &&& is_named(names@, i as int, name@)
                &&& forall|k: int| 0 <= k < i ==> !#[trigger] is_named(names@, k, name@)
            },
            Err(e) => {
                &&& forall|k: int|
                    0 <= k < names@.len() ==> !#[trigger] is_named(names@, k, name@)
                &&& e matches IoError::ConfigError(t) && t@ == "Device not found: "@ + name@
            },
        },
{
    let mut i: usize = 0;
    while i < names.len()
        invariant
            i <= names@.len(),
            forall|k: int| 0 <= k < i ==> !#[trigger] is_named(names@, k, name@),
        decreases names@.len() - i,
    {
        if let Some(n) = &names[i] {
            if same_text(n.as_str(), name) {
                assert(is_named(names@, i as int, name@));
                return Ok(i);
            }
        }
        i += 1;
    }
    Err(IoError::ConfigError(join("Device not found: ", name)))
}

/// The error for a machine without a default device.
pub fn no_default_device(output: bool) -> (r: IoError)
    ensures
        r matches IoError::ConfigError(t) && t@ == if output {
            "No default output device"@
        } else {
            "No default input device"@
        },
{
    if output {
        IoError::ConfigError("No default output device".to_owned())
    } else {
        IoError::ConfigError("No default input device".to_owned())
    }
}

/// Sample rates as numbers. Nothing is required of what it returns.
pub trait RateMath {
    /// The number of a sample rate in Hz.
    fn rate(&self, hz: u32) -> Single;
}

/// Whether a stream is configured as a device is.
pub open spec fn follows<R: RateMath>(
    rates: &R,
    audio: AudioConfig,
    stream: StreamConfig,
) -> bool {
    &&& call_ensures(R::rate, (rates, audio.sample_rate), stream.sample_rate)
    &&& stream.channels == audio.channels
    &&& stream.buffer_size == audio.buffer_size
    &&& stream.timeout is None
}

fn stream_for<R: RateMath>(rates: &R, audio: &AudioConfig) -> (r: StreamConfig)
    ensures
        follows(rates, *audio, r),
{
    StreamConfig {
        sample_rate: rates.rate(audio.sample_rate),
        channels: audio.channels as usize,
        buffer_size: audio.buffer_size as usize,
        timeout: None,
    }
}

/// The samples of one channel out of samples of `n` channels in turn.
pub open spec fn channel_of(data: Seq<Single>, n: int, c: int) -> Seq<Single>
    decreases data.len(),
{
    if data.len() == 0 {
        Seq::empty()
    } else if (data.len() - 1) % n == c {
        channel_of(data.drop_last(), n, c).push(data.last())
    } else {
        channel_of(data.drop_last(), n, c)
    }
}

/// Of whole frames of `n` channels, each channel has one sample per frame, and
/// its sample of frame `i` is the one at its place in that frame.
pub proof fn channels_of_frames(data: Seq<Single>, n: int, frames: int)
    requires
        n > 0,
        frames >= 0,
        data.len() == frames * n,
    ensures
        forall|c: int|
            0 <= c < n ==> #[trigger] channel_of(data, n, c) == Seq::new(
                frames as nat,
                |i: int| data[i * n + c],
            ),
{
    assert forall|c: int| 0 <= c < n implies #[trigger] channel_of(data, n, c) == Seq::new(
        frames as nat,
        |i: int| data[i * n + c],
    ) by {
        channel_prefix(data, n, c, frames, 0);
        assert(data.take(frames * n) =~= data);
        assert(channel_of(data, n, c) =~= Seq::new(frames as nat, |i: int| data[i * n + c]));
    }
}

/// Whole frames that are taken apart into channels and put together again are
/// the frames that they were.
pub proof fn frames_come_back(data: Seq<Single>, n: int, frames: int)
    requires
        n > 0,
        frames >= 0,
        data.len() == frames * n,
    ensures
        interleaved(Seq::new(n as nat, |c: int| channel_of(data, n, c)), frames as nat) == data,
{
    channels_of_frames(data, n, frames);
    let channels = Seq::new(n as nat, |c: int| channel_of(data, n, c));
    let back = interleaved(channels, frames as nat);
    assert forall|k: int| 0 <= k < data.len() implies #[trigger] back[k] == data[k] by {
        let c = k % n;
        let i = k / n;
        vstd::arithmetic::div_mod::lemma_fundamental_div_mod(k, n);
        assert(0 <= i < frames) by (nonlinear_arith)
            requires
                0 <= k < frames * n,
                n > 0,
                i == k / n,
        ;
        assert(i * n == n * i) by (nonlinear_arith);
        assert(channel_of(data, n, c)[i] == data[i * n + c]);
    }
    assert(back =~= data);
}

proof fn channel_prefix(data: Seq<Single>, n: int, c: int, frames: int, extra: int)
    requires
        0 <= c < n,
        frames >= 0,
        0 <= extra < n,
        frames * n + extra <= data.len(),
    ensures
        channel_of(data.take(frames * n + extra), n, c) == Seq::new(
            (if c < extra {
                frames + 1
            } else {
                frames
            }) as nat,
            |i: int| data[i * n + c],
        ),
    decreases frames, extra,
{
    let part = data.take(frames * n + extra);
    let expected = Seq::new(
        (if c < extra {
            frames + 1
        } else {
            frames
        }) as nat,
        |i: int| data[i * n + c],
    );
    if extra > 0 {
        channel_prefix(data, n, c, frames, extra - 1);
        assert(part.drop_last() =~= data.take(frames * n + extra - 1));
        assert((frames * n + extra - 1) % n == extra - 1) by {
            vstd::arithmetic::div_mod::lemma_fundamental_div_mod_converse(
                frames * n + extra - 1,
                n,
                frames,
                extra - 1,
            );
        }
        assert(channel_of(part, n, c) =~= expected);
    } else if frames > 0 {
        assert(frames * n == (frames - 1) * n + n) by (nonlinear_arith);
        channel_prefix(data, n, c, frames - 1, n - 1);
        assert(part.drop_last() =~= data.take((frames - 1) * n + (n - 1)));
        assert((frames * n - 1) % n == n - 1) by {
            vstd::arithmetic::div_mod::lemma_fundamental_div_mod_converse(
                frames * n - 1,
                n,
                frames - 1,
                n - 1,
            );
        }
        assert(channel_of(part, n, c) =~= expected);
    } else {
        assert(frames * n == 0) by (nonlinear_arith)
            requires
                frames == 0,
        ;
        assert(part =~= Seq::empty());
        assert(channel_of(part, n, c) =~= expected);
    }
}

/// The contents of channels.
pub open spec fn contents(channels: Seq<Vec<Single>>) -> Seq<Seq<Single>> {
    Seq::new(channels.len(), |c: int| channels[c]@)
}

/// The length of the shortest channel, up to a limit.
pub open spec fn shortest(channels: Seq<Seq<Single>>, limit: nat) -> nat
    decreases channels.len(),
{
    if channels.len() == 0 {
        limit
    } else {
        let before = shortest(channels.drop_last(), limit);
        if channels.last().len() < before {
            channels.last().len()
        } else {
            before
        }
    }
}

/// Each channel has at least as many samples as the shortest.
pub proof fn shortest_bounds(channels: Seq<Seq<Single>>, limit: nat)
    ensures
        shortest(channels, limit) <= limit,
        forall|c: int|
            0 <= c < channels.len() ==> shortest(channels, limit) <= (#[trigger] channels[c]).len(),
    decreases channels.len(),
{
    if channels.len() > 0 {
        shortest_bounds(channels.drop_last(), limit);
        assert forall|c: int| 0 <= c < channels.len() implies shortest(channels, limit) <= (
        #[trigger] channels[c]).len() by {
            if c < channels.len() - 1 {
                assert(channels.drop_last()[c] == channels[c]);
            }
        }
    }
}

/// The first `frames` samples of each channel, frame by frame.
pub open spec fn interleaved(channels: Seq<Seq<Single>>, frames: nat) -> Seq<Single> {
    Seq::new(
        frames * channels.len(),
        |k: int| channels[k % (channels.len() as int)][k / (channels.len() as int)],
    )
}

/// Audio that is being recorded: the samples in turn, and channel by channel.
pub struct AudioInput {
    config: StreamConfig,
    audio_config: AudioConfig,
    buffer: Vec<Single>,
    multi_channel_buffer: Vec<Vec<Single>>,
    active: bool,
}

impl AudioInput {
    /// The configuration of the device.
    pub closed spec fn device_settings(&self) -> AudioConfig {
        self.audio_config
    }

    /// The configuration of the stream.
    pub closed spec fn settings(&self) -> StreamConfig {
        self.config
    }

    /// The samples in turn that have not been read.
    pub closed spec fn rest(&self) -> Seq<Single> {
        self.buffer@
    }

    /// The samples of each channel that have not been read.
    pub closed spec fn channels(&self) -> Seq<Seq<Single>> {
        contents(self.multi_channel_buffer@)
    }

    /// Whether audio is being recorded.
    pub closed spec fn records(&self) -> bool {
        self.active
    }

    /// Whether there are as many channels as the device and the stream have.
    pub open spec fn wf(&self) -> bool {
        &&& self.channels().len() == self.settings().channels
        &&& self.settings().channels == self.device_settings().channels
        &&& self.settings().buffer_size == self.device_settings().buffer_size
    }

    /// Whether the configurations are those of `other`.
    pub open spec fn same_settings(&self, other: &Self) -> bool {
        &&& self.settings() == other.settings()
        &&& self.device_settings() == other.device_settings()
    }

    /// An input that does not record yet.
    pub fn new<R: RateMath>(rates: &R, audio_config: AudioConfig) -> (r: IoResult<Self>)
        ensures
            r is Ok,
            r->Ok_0.wf(),
            r->Ok_0.device_settings() == audio_config,
            follows(rates, audio_config, r->Ok_0.settings()),
            r->Ok_0.rest() == Seq::<Single>::empty(),
            r->Ok_0.channels() == Seq::new(
                audio_config.channels as nat,
                |c: int| Seq::<Single>::empty(),
            ),
            !r->Ok_0.records(),
    {
        let config: StreamConfig = stream_for(rates, &audio_config);
        let n: usize = audio_config.channels as usize;
        let mut channels: Vec<Vec<Single>> = Vec::new();
        let mut c: usize = 0;
        while c < n
            invariant
                c <= n,
                channels@.len() == c,
                forall|k: int| 0 <= k < c ==> (#[trigger] channels@[k])@ == Seq::<Single>::empty(),
            decreases n - c,
        {
            channels.push(Vec::new());
            c += 1;
        }
        assert(contents(channels@) =~= Seq::new(n as nat, |k: int| Seq::<Single>::empty()));
        Ok(
            AudioInput {
                config,
                audio_config,
                buffer: Vec::new(),
                multi_channel_buffer: channels,
                active: false,
            },
        )
    }

    /// Takes in samples from the device, frame by frame.
    pub fn captured(&mut self, data: &[Single])
        requires
            old(self).wf(),
            old(self).settings().channels > 0 || data@.len() == 0,
        ensures
            final(self).wf(),
            final(self).same_settings(old(self)),
            final(self).records() == old(self).records(),
            final(self).rest() == old(self).rest() + data@,
            final(self).channels() == Seq::new(
                old(self).channels().len(),
                |c: int|
                    old(self).channels()[c] + channel_of(
                        data@,
                        old(self).channels().len() as int,
                        c,
                    ),
            ),
    {
        self.buffer.extend_from_slice(data);
        assert(self.buffer@ =~= old(self).buffer@ + data@);
        let n: usize = self.audio_config.channels as usize;
        let ghost before = self.channels();
        let mut i: usize = 0;
        assert(self.channels() =~= Seq::new(
            n as nat,
            |c: int| before[c] + channel_of(data@.take(0), n as int, c),
        ));
        while i < data.len()
            invariant
                i <= data@.len(),
                n > 0 || data@.len() == 0,
                n == before.len(),
                self.multi_channel_buffer@.len() == n,
                self.channels() == Seq::new(
                    n as nat,
                    |c: int| before[c] + channel_of(data@.take(i as int), n as int, c),
                ),
                self.config == old(self).config,
                self.audio_config == old(self).audio_config,
                self.active == old(self).active,
                self.buffer@ == old(self).buffer@ + data@,
            decreases data@.len() - i,
        {
            let c: usize = i % n;
            let ghost held = self.channels();
            self.multi_channel_buffer[c].push(data[i]);
            proof {
                let part = data@.take(i + 1);
                assert(part.drop_last() =~= data@.take(i as int));
                assert(part.last() == data@[i as int]);
                assert(self.channels() =~= held.update(
                    c as int,
                    held[c as int].push(data@[i as int]),
                ));
                assert forall|k: int| 0 <= k < n implies #[trigger] self.channels()[k] == before[k]
                    + channel_of(part, n as int, k) by {
                    assert(held[k] == before[k] + channel_of(data@.take(i as int), n as int, k));
                    assert((part.len() - 1) % (n as int) == c);
                    if k == c {
                        assert(self.channels()[k] =~= before[k] + channel_of(part, n as int, k));
                    }
                }
                assert(self.channels() =~= Seq::new(
                    n as nat,
                    |k: int| before[k] + channel_of(part, n as int, k),
                ));
            }
            i += 1;
        }
        assert(data@.take(i as int) =~= data@);
    }

    /// Takes note of whether the device was started.
    pub fn started(&mut self, outcome: Result<(), String>) -> (r: IoResult<()>)
        ensures
            final(self).same_settings(old(self)),
            final(self).rest() == old(self).rest(),
            final(self).channels() == old(self).channels(),
            match outcome {
                Ok(_) => r is Ok && final(self).records(),
                Err(cause) => {
                    &&& r == Err::<(), IoError>(IoError::StreamError(cause))
                    &&& final(self).records() == old(self).records()
                },
            },
    {
        match outcome {
            Ok(_) => {
                self.active = true;
                Ok(())
            },
            Err(cause) => Err(IoError::StreamError(cause)),
        }
    }

    /// Stops recording.
    pub fn stop(&mut self) -> (r: IoResult<()>)
        ensures
            r is Ok,
            !final(self).records(),
            final(self).same_settings(old(self)),
            final(self).rest() == old(self).rest(),
            final(self).channels() == old(self).channels(),
    {
        self.active = false;
        Ok(())
    }

    /// How many frames can be read at once.
    fn frames_ready(&self) -> (r: usize)
        ensures
            r == shortest(self.channels(), self.settings().buffer_size as nat),
    {
        let mut best: usize = self.config.buffer_size;
        let mut c: usize = 0;
        assert(self.channels().take(0) =~= Seq::empty());
        while c < self.multi_channel_buffer.len()
            invariant
                c <= self.multi_channel_buffer@.len(),
                best == shortest(
                    self.channels().take(c as int),
                    self.settings().buffer_size as nat,
                ),
            decreases self.multi_channel_buffer@.len() - c,
        {
            let n: usize = self.multi_channel_buffer[c].len();
            assert(self.channels().take(c + 1).drop_last() =~= self.channels().take(c as int));
            assert(self.channels().take(c + 1).last() == self.channels()[c as int]);
            if n < best {
                best = n;
            }
            c += 1;
        }
        assert(self.channels().take(c as int) =~= self.channels());
        best
    }

    /// Hands out as many whole frames as the buffer size allows, one row for
    /// each; silence of the buffer size where there is none.
    pub fn read_channels(&mut self) -> (r: IoResult<Matrix>)
        requires
            old(self).wf(),
            old(self).settings().buffer_size * old(self).settings().channels <= usize::MAX,
        ensures
            final(self).wf(),
            final(self).same_settings(old(self)),
            final(self).records() == old(self).records(),
            final(self).rest() == old(self).rest(),
            r is Ok,
            r->Ok_0.wf(),
            r->Ok_0.width() == old(self).settings().channels,
            ({
                let channels = old(self).channels();
                let size = old(self).settings().buffer_size as nat;
                let frames = if channels.len() == 0 {
                    0
                } else {
                    shortest(channels, size)
                };
                if frames == 0 {
                    &&& r->Ok_0.height() == size
                    &&& r->Ok_0.flat() == Seq::new(
                        size * channels.len(),
                        |k: int| Single { bits: 0 },
                    )
                    &&& final(self).channels() == channels
                } else {
                    &&& r->Ok_0.height() == frames
                    &&& r->Ok_0.flat() == interleaved(channels, frames)
                    &&& final(self).channels() == Seq::new(
                        channels.len(),
                        |c: int| channels[c].skip(frames as int),
                    )
                }
            }),
    {
        let n: usize = self.config.channels;
        let size: usize = self.config.buffer_size;
        let frames: usize = if n == 0 {
            0
        } else {
            self.frames_ready()
        };
        let ghost channels = self.channels();
        if frames == 0 {
            let silence: Matrix = Matrix::zeros(size, n);
            assert(silence.flat() =~= Seq::new(
                size as nat * channels.len(),
                |k: int| Single { bits: 0 },
            ));
            return Ok(silence);
        }
        proof {
            shortest_bounds(channels, size as nat);
            assert(frames * n <= size * n) by (nonlinear_arith)
                requires
                    frames <= size,
            ;
        }
        let mut values: Vec<Single> = Vec::new();
        let total: usize = frames * n;
        let mut k: usize = 0;
        while k < total
            invariant
                k <= total,
                total == frames * n,
                n > 0,
                n == self.multi_channel_buffer@.len(),
                channels == self.channels(),
                forall|c: int|
                    0 <= c < channels.len() ==> frames <= (#[trigger] channels[c]).len(),
                values@ == interleaved(channels, frames as nat).take(k as int),
            decreases total - k,
        {
            proof {
                assert(k / n < frames) by (nonlinear_arith)
                    requires
                        0 <= k < frames * n,
                        n > 0,
                ;
                assert(channels[(k % n) as int] == self.multi_channel_buffer@[(k % n) as int]@);
            }
            values.push(self.multi_channel_buffer[k % n][k / n]);
            k += 1;
            assert(values@ =~= interleaved(channels, frames as nat).take(k as int));
        }
        assert(values@ =~= interleaved(channels, frames as nat));
        let mut tails: Vec<Vec<Single>> = Vec::new();
        let mut c: usize = 0;
        while c < n
            invariant
                c <= n,
                n == self.multi_channel_buffer@.len(),
                channels == self.channels(),
                forall|i: int|
                    0 <= i < channels.len() ==> frames <= (#[trigger] channels[i]).len(),
                tails@.len() == c,
                forall|i: int|
                    0 <= i < c ==> (#[trigger] tails@[i])@ == channels[i].skip(frames as int),
            decreases n - c,
        {
            let channel: &Vec<Single> = &self.multi_channel_buffer[c];
            assert(channel@ == channels[c as int]);
            let mut tail: Vec<Single> = Vec::new();
            tail.extend_from_slice(slice_subrange(channel.as_slice(), frames, channel.len()));
            assert(tail@ =~= channels[c as int].skip(frames as int));
            tails.push(tail);
            c += 1;
        }
        self.multi_channel_buffer = tails;
        assert(self.channels() =~= Seq::new(
            channels.len(),
            |c: int| channels[c].skip(frames as int),
        ));
        match Matrix::from_vec(frames, n, values) {
            Some(m) => Ok(m),
            None => Ok(Matrix::zeros(size, n)),
        }
    }
}

impl SignalStream for AudioInput {
    /// Hands out the next `buffer_size` samples in turn, padded with zeros.
    fn read(&mut self) -> (r: IoResult<Vec<Single>>)
        ensures
            final(self).same_settings(old(self)),
            final(self).records() == old(self).records(),
            final(self).channels() == old(self).channels(),
            r is Ok,
            ({
                let n = old(self).settings().buffer_size as nat;
                let rest = old(self).rest();
                &&& r->Ok_0@ == crate::io::stream::padded(rest, n)
                &&& final(self).rest() == rest.skip(
                    if n <= rest.len() {
                        n as int
                    } else {
                        rest.len() as int
                    },
                )
            }),
    {
        let size: usize = self.config.buffer_size;
        let out: Vec<Single> = pad_to(self.buffer.as_slice(), size);
        let taken: usize = if size < self.buffer.len() {
            size
        } else {
            self.buffer.len()
        };
        let tail: Vec<Single> = self.buffer.split_off(taken);
        assert(tail@ =~= old(self).rest().skip(taken as int));
        self.buffer = tail;
        Ok(out)
    }

    fn is_active(&self) -> (r: bool)
        ensures
            r == self.records(),
    {
        self.active
    }

    fn config(&self) -> (r: &StreamConfig)
        ensures
            *r == self.settings(),
    {
        &self.config
    }

    fn close(&mut self) -> (r: IoResult<()>)
        ensures
            r is Ok,
            !final(self).records(),
            final(self).same_settings(old(self)),
            final(self).rest() == old(self).rest(),
            final(self).channels() == old(self).channels(),
    {
        self.stop()
    }
}

/// Audio that is being played: the samples that wait, and how often there
/// were too few.
pub struct AudioOutput {
    config: StreamConfig,
    audio_config: AudioConfig,
    buffer: Vec<Single>,
    active: bool,
    underrun_count: usize,
}

impl AudioOutput {
    /// The configuration of the device.
    pub closed spec fn device_settings(&self) -> AudioConfig {
        self.audio_config
    }

    /// The configuration of the stream.
    pub closed spec fn settings(&self) -> StreamConfig {
        self.config
    }

    /// The samples that wait.
    pub closed spec fn queue(&self) -> Seq<Single> {
        self.buffer@
    }

    /// How often there were too few samples.
    pub closed spec fn underruns(&self) -> usize {
        self.underrun_count
    }

    /// Whether audio is being played.
    pub closed spec fn plays(&self) -> bool {
        self.active
    }

    /// Whether the configurations are those of `other`.
    pub open spec fn same_settings(&self, other: &Self) -> bool {
        &&& self.settings() == other.settings()
        &&& self.device_settings() == other.device_settings()
    }

    /// An output that does not play yet.
    pub fn new<R: RateMath>(rates: &R, audio_config: AudioConfig) -> (r: IoResult<Self>)
        ensures
            r is Ok,
            r->Ok_0.device_settings() == audio_config,
            follows(rates, audio_config, r->Ok_0.settings()),
            r->Ok_0.queue() == Seq::<Single>::empty(),
            r->Ok_0.underruns() == 0,
            !r->Ok_0.plays(),
    {
        let config: StreamConfig = stream_for(rates, &audio_config);
        Ok(
            AudioOutput {
                config,
                audio_config,
                buffer: Vec::new(),
                active: false,
                underrun_count: 0,
            },
        )
    }

    /// The samples for a request of the device: the next ones where there are
    /// enough, else silence, which is counted.
    pub fn fill(&mut self, n: usize) -> (r: Vec<Single>)
        requires
            old(self).underruns() < usize::MAX,
        ensures
            final(self).same_settings(old(self)),
            final(self).plays() == old(self).plays(),
            r@.len() == n,
            if n <= old(self).queue().len() {
                &&& r@ == old(self).queue().take(n as int)
                &&& final(self).queue() == old(self).queue().skip(n as int)
                &&& final(self).underruns() == old(self).underruns()
            } else {
                &&& r@ == crate::io::stream::padded(Seq::empty(), n as nat)
                &&& final(self).queue() == old(self).queue()
                &&& final(self).underruns() == old(self).underruns() + 1
            },
    {
        if self.buffer.len() >= n {
            let mut head: Vec<Single> = self.buffer.split_off(n);
            std::mem::swap(&mut head, &mut self.buffer);
            assert(head@ =~= old(self).queue().take(n as int));
            assert(self.queue() =~= old(self).queue().skip(n as int));
            head
        } else {
            self.underrun_count = self.underrun_count + 1;
            let none: Vec<Single> = Vec::new();
            pad_to(none.as_slice(), n)
        }
    }

    /// Takes note of whether the device was started.
    pub fn started(&mut self, outcome: Result<(), String>) -> (r: IoResult<()>)
        ensures
            final(self).same_settings(old(self)),
            final(self).queue() == old(self).queue(),
            final(self).underruns() == old(self).underruns(),
            match outcome {
                Ok(_) => r is Ok && final(self).plays(),
                Err(cause) => {
                    &&& r == Err::<(), IoError>(IoError::StreamError(cause))
                    &&& final(self).plays() == old(self).plays()
                },
            },
    {
        match outcome {
            Ok(_) => {
                self.active = true;
                Ok(())
            },
            Err(cause) => Err(IoError::StreamError(cause)),
        }
    }

    /// Stops playing.
    pub fn stop(&mut self) -> (r: IoResult<()>)
        ensures
            r is Ok,
            !final(self).plays(),
            final(self).same_settings(old(self)),
            final(self).queue() == old(self).queue(),
            final(self).underruns() == old(self).underruns(),
    {
        self.active = false;
        Ok(())
    }

    /// Puts samples behind those that wait.
    pub fn write(&mut self, samples: &[Single]) -> (r: IoResult<()>)
        ensures
            r is Ok,
            final(self).queue() == old(self).queue() + samples@,
            final(self).same_settings(old(self)),
            final(self).underruns() == old(self).underruns(),
            final(self).plays() == old(self).plays(),
    {
        self.buffer.extend_from_slice(samples);
        assert(self.queue() =~= old(self).queue() + samples@);
        Ok(())
    }

    /// Puts frames, one in each row, behind the samples that wait.
    pub fn write_channels(&mut self, samples: &Matrix) -> (r: IoResult<()>)
        ensures
            r is Ok,
            final(self).queue() == old(self).queue() + samples.flat(),
            final(self).same_settings(old(self)),
            final(self).underruns() == old(self).underruns(),
            final(self).plays() == old(self).plays(),
    {
        self.write(samples.values())
    }

    /// The number of samples that wait.
    pub fn buffer_level(&self) -> (r: usize)
        ensures
            r == self.queue().len(),
    {
        self.buffer.len()
    }

    /// How often there were too few samples.
    pub fn underrun_count(&self) -> (r: usize)
        ensures
            r == self.underruns(),
    {
        self.underrun_count
    }

    /// Drops the samples that wait.
    pub fn clear_buffer(&mut self) -> (r: IoResult<()>)
        ensures
            r is Ok,
            final(self).queue() == Seq::<Single>::empty(),
            final(self).same_settings(old(self)),
            final(self).underruns() == old(self).underruns(),
            final(self).plays() == old(self).plays(),
    {
        self.buffer.clear();
        Ok(())
    }

    /// Puts the samples of a file behind those that wait, where it has as many
    /// channels as the device.
    pub fn play_wav(&mut self, channels: u16, samples: &[Single]) -> (r: IoResult<()>)
        ensures
            final(self).same_settings(old(self)),
            final(self).underruns() == old(self).underruns(),
            final(self).plays() == old(self).plays(),
            if channels == old(self).device_settings().channels {
                &&& r is Ok
                &&& final(self).queue() == old(self).queue() + samples@
            } else {
                &&& r matches Err(IoError::ConfigError(t)) && t@ == "WAV channels ("@
                    + crate::text::numeral(channels as nat) + ") differ from output config ("@
                    + crate::text::numeral(old(self).device_settings().channels as nat) + ")"@
                &&& final(self).queue() == old(self).queue()
            },
    {
        if channels != self.audio_config.channels {
            let mut text: String = join("WAV channels (", decimal(channels as u64).as_str());
            text.append(") differ from output config (");
            text.append(decimal(self.audio_config.channels as u64).as_str());
            text.append(")");
            return Err(IoError::ConfigError(text));
        }
        self.write(samples)
    }

    /// Whether audio is being played.
    pub fn is_active(&self) -> (r: bool)
        ensures
            r == self.plays(),
    {
        self.active
    }

    /// The configuration of the device.
    pub fn audio_config(&self) -> (r: &AudioConfig)
        ensures
            *r == self.device_settings(),
    {
        &self.audio_config
    }
}

} // verus!
