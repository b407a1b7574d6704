//! Recordings of signals: how frames are written to a file and read back.

use crate::error::{IoError, IoResult};
use crate::names::NamedMap;
use crate::number::{Double, Single};
use crate::samples::{copy_samples, get_words, put_words};
use crate::text::{decimal, join};
use crate::wire::{get_u32, get_u64, put_u32, put_u64};
use vstd::prelude::*;
use vstd::slice::slice_subrange;
use vstd::string::*;

verus! {

/// How a recording is written.
#[derive(Debug, Clone, Copy, PartialEq, Eq, Structural)]
pub enum RecorderFormat {
    /// As numbers in bytes.
    Binary,
    /// As objects in text.
    Json,
    /// As a table in text.
    Csv,
}

impl Default for RecorderFormat {
    fn default() -> (r: Self)
        ensures
            r == RecorderFormat::Binary,
    {
        RecorderFormat::Binary
    }
}

/// The bit pattern of 44100.0, the default sample rate in Hz.
pub const SAMPLE_RATE_BITS: u32 = 0x472c_4400;

/// Configuration of a recording.
pub struct RecorderConfig {
    /// Where the file is.
    pub path: String,
    /// How it is written.
    pub format: RecorderFormat,
    /// Sample rate in Hz.
    pub sample_rate: Single,
    /// The number of channels.
    pub channels: usize,
    /// The size of the buffer.
    pub buffer_size: usize,
    /// Whether frames carry a time.
    pub record_timestamps: bool,
    /// What else is known.
    pub metadata: NamedMap<String>,
}

impl Default for RecorderConfig {
    fn default() -> (r: Self)
        ensures
            r.path@ == Seq::<char>::empty(),
            r.metadata.wf(),
            r.metadata@ == Map::<Seq<char>, String>::empty(),
            r == (RecorderConfig {
                path: r.path,
                format: RecorderFormat::Binary,
                sample_rate: Single { bits: SAMPLE_RATE_BITS },
                channels: 1,
                buffer_size: 1024,
                record_timestamps: true,
                metadata: r.metadata,
            }),
    {
        RecorderConfig {
            path: String::new(),
            format: RecorderFormat::Binary,
            sample_rate: Single::from_bits(SAMPLE_RATE_BITS),
            channels: 1,
            buffer_size: 1024,
            record_timestamps: true,
            metadata: NamedMap::new(),
        }
    }
}

/// What a frame says.
#[verifier::ext_equal]
pub struct FrameModel {
    /// The samples.
    pub samples: Seq<Single>,
    /// The time in seconds since the start.
    pub timestamp: Option<Double>,
}

/// A frame of a recording.
#[derive(Debug)]
pub struct RecordedFrame {
    /// The samples.
    pub samples: Vec<Single>,
    /// The time in seconds since the start.
    pub timestamp: Option<Double>,
    /// The number of the frame.
    pub frame_number: usize,
}

impl View for RecordedFrame {
    type V = FrameModel;

    open spec fn view(&self) -> FrameModel {
        FrameModel { samples: self.samples@, timestamp: self.timestamp }
    }
}

/// What a binary recording starts with: `ZHREC001`.
pub open spec fn magic() -> Seq<u8> {
    seq![0x5a, 0x48, 0x52, 0x45, 0x43, 0x30, 0x30, 0x31]
}

/// A count as far as 32 bits can say.
pub open spec fn count_word(n: nat) -> u32 {
    (n % 0x1_0000_0000) as u32
}

fn word_of(n: usize) -> (r: u32)
    ensures
        r == count_word(n as nat),
{
    (n as u64 % 0x1_0000_0000) as u32
}

/// The head of a binary recording whose configuration is written as the given
/// bytes.
pub open spec fn header_bytes(config: Seq<u8>) -> Seq<u8> {
    magic() + crate::wire::le32(count_word(config.len())) + config
}

/// The head of a binary recording whose configuration is the given text.
pub fn binary_header(config_json: &str) -> (r: Vec<u8>)
    ensures
        r@ == header_bytes(vstd::utf8::encode_utf8(config_json@)),
{
    let mut out: Vec<u8> = Vec::new();
    out.push(0x5a);
    out.push(0x48);
    out.push(0x52);
    out.push(0x45);
    out.push(0x43);
    out.push(0x30);
    out.push(0x30);
    out.push(0x31);
    assert(out@ =~= magic());
    let config: &[u8] = config_json.as_bytes();
    put_u32(&mut out, word_of(config.len()));
    out.extend_from_slice(config);
    assert(out@ =~= header_bytes(vstd::utf8::encode_utf8(config_json@)));
    out
}

/// The head of a recording that is a table.
pub fn csv_header(record_timestamps: bool) -> (r: &'static str)
    ensures
        r@ == if record_timestamps {
            "frame,timestamp,samples\n"@
        } else {
            "frame,samples\n"@
        },
{
    if record_timestamps {
        "frame,timestamp,samples\n"
    } else {
        "frame,samples\n"
    }
}

/// The bytes of a frame: the number of samples, the time where there is one,
/// and the samples.
pub open spec fn frame_bytes(f: FrameModel) -> Seq<u8> {
    crate::wire::le32(count_word(f.samples.len())) + (match f.timestamp {
        Some(t) => crate::wire::le64(t.bits),
        None => Seq::empty(),
    }) + crate::samples::words(f.samples)
}

/// A part of a recording.
#[derive(Debug, Clone, Copy, PartialEq, Eq, Structural)]
pub enum Part {
    /// What it starts with.
    Magic,
    /// The length of the configuration.
    ConfigLength,
    /// The configuration.
    Config,
    /// The number of samples of a frame.
    Count,
    /// The time of a frame.
    Timestamp,
    /// A sample of a frame.
    Sample,
}

/// What reading the head of a recording comes to.
pub enum Header {
    /// The recording ends within a part.
    Cut(Part),
    /// The recording is of another format.
    Foreign,
    /// The configuration ends at the given place.
    Whole(nat),
}

/// What reading the head of a recording comes to.
pub open spec fn header_of(data: Seq<u8>) -> Header {
    if data.len() < 8 {
        Header::Cut(Part::Magic)
    } else if data.take(8) != magic() {
        Header::Foreign
    } else if data.len() < 12 {
        Header::Cut(Part::ConfigLength)
    } else {
        let n = crate::wire::le32_value(data.subrange(8, 12));
        if data.len() < 12 + n {
            Header::Cut(Part::Config)
        } else {
            Header::Whole((12 + n) as nat)
        }
    }
}

/// What reading a frame comes to.
pub enum FrameRead {
    /// Nothing is left.
    End,
    /// The recording ends within a part.
    Cut(Part),
    /// A frame of the given number of bytes.
    Whole(FrameModel, nat),
}

/// What reading a frame comes to, where `timed` says that it carries a time.
pub open spec fn frame_of(data: Seq<u8>, timed: bool) -> FrameRead {
    let head: int = if timed {
        12
    } else {
        4
    };
    if data.len() < 4 {
        FrameRead::End
    } else if data.len() < head {
        FrameRead::Cut(Part::Timestamp)
    } else {
        let n = crate::wire::le32_value(data.take(4));
        if data.len() < head + 4 * n {
            FrameRead::Cut(Part::Sample)
        } else {
            FrameRead::Whole(
                FrameModel {
                    samples: crate::samples::samples_of(data.subrange(head, head + 4 * n)),
                    timestamp: if timed {
                        Some(Double { bits: crate::wire::le64_value(data.subrange(4, 12)) })
                    } else {
                        None
                    },
                },
                (head + 4 * n) as nat,
            )
        }
    }
}

/// The head of a recording is read back as the configuration that it was
/// written for, whatever follows it.
pub proof fn header_round_trip(config: Seq<u8>, rest: Seq<u8>)
    requires
        config.len() <= u32::MAX,
    ensures
        header_of(header_bytes(config) + rest) == Header::Whole(header_bytes(config).len()),
        (header_bytes(config) + rest).subrange(12, header_bytes(config).len() as int) == config,
{
    let data = header_bytes(config) + rest;
    let n = count_word(config.len());
    crate::wire::le32_round_trip(n);
    assert(data.take(8) =~= magic());
    assert(data.subrange(8, 12) =~= crate::wire::le32(n));
    assert(data.subrange(12, header_bytes(config).len() as int) =~= config);
}

/// A frame is read back as it was written, whatever follows it.
pub proof fn frame_round_trip(f: FrameModel, rest: Seq<u8>)
    requires
        f.samples.len() <= u32::MAX,
    ensures
        frame_of(frame_bytes(f) + rest, f.timestamp is Some) == FrameRead::Whole(
            f,
            frame_bytes(f).len(),
        ),
{
    let data = frame_bytes(f) + rest;
    let n = count_word(f.samples.len());
    crate::wire::le32_round_trip(n);
    crate::samples::words_round_trip(f.samples);
    assert(data.take(4) =~= crate::wire::le32(n));
    match f.timestamp {
        Some(t) => {
            crate::wire::le64_round_trip(t.bits);
            assert(data.subrange(4, 12) =~= crate::wire::le64(t.bits));
            assert(data.subrange(12, 12 + 4 * n) =~= crate::samples::words(f.samples));
        },
        None => {
            assert(data.subrange(4, 4 + 4 * n) =~= crate::samples::words(f.samples));
        },
    }
}

/// The bytes of frames, one after the other.
pub open spec fn frames_bytes(frames: Seq<FrameModel>) -> Seq<u8>
    decreases frames.len(),
{
    if frames.len() == 0 {
        Seq::empty()
    } else {
        frame_bytes(frames[0]) + frames_bytes(frames.skip(1))
    }
}

/// The frames that can be read one after the other.
pub open spec fn frames_in(data: Seq<u8>, timed: bool) -> Seq<FrameModel>
    decreases data.len(),
{
    match frame_of(data, timed) {
        FrameRead::Whole(f, used) => seq![f] + frames_in(data.skip(used as int), timed),
        _ => Seq::empty(),
    }
}

/// A recording plays back the frames that were recorded, in order and with no
/// others, where each carries a time just when the recording says so.
pub proof fn recording_round_trip(frames: Seq<FrameModel>, timed: bool)
    requires
        forall|i: int|
            0 <= i < frames.len() ==> (#[trigger] frames[i]).samples.len() <= u32::MAX && (
            frames[i].timestamp is Some <==> timed),
    ensures
        frames_in(frames_bytes(frames), timed) == frames,
    decreases frames.len(),
{
    if frames.len() > 0 {
        let rest = frames.skip(1);
        assert forall|i: int| 0 <= i < rest.len() implies (#[trigger] rest[i]).samples.len()
            <= u32::MAX && (rest[i].timestamp is Some <==> timed) by {
            assert(rest[i] == frames[i + 1]);
        }
        recording_round_trip(rest, timed);
        frame_round_trip(frames[0], frames_bytes(rest));
        let data = frames_bytes(frames);
        assert(data.skip(frame_bytes(frames[0]).len() as int) =~= frames_bytes(rest));
        assert(frames_in(data, timed) =~= frames);
    } else {
        assert(frames_in(frames_bytes(frames), timed) =~= frames);
    }
}

/// The bytes of a frame.
pub fn encode_binary(frame: &RecordedFrame) -> (r: Vec<u8>)
    ensures
        r@ == frame_bytes(frame@),
{
    let mut out: Vec<u8> = Vec::new();
    put_u32(&mut out, word_of(frame.samples.len()));
    if let Some(t) = frame.timestamp {
        put_u64(&mut out, t.to_bits());
    }
    put_words(&mut out, frame.samples.as_slice());
    assert(out@ =~= frame_bytes(frame@));
    out
}

/// Numbers as decimal text. Nothing is required of what it returns.
pub trait NumberText {
    /// The text of a number of 32 bits.
    fn single(&self, x: Single) -> String;

    /// The text of a number of 64 bits.
    fn double(&self, x: Double) -> String;
}

/// Texts with a separator between them.
pub open spec fn separated(texts: Seq<Seq<char>>, separator: Seq<char>) -> Seq<char>
    decreases texts.len(),
{
    if texts.len() == 0 {
        Seq::empty()
    } else if texts.len() == 1 {
        texts[0]
    } else {
        separated(texts.drop_last(), separator) + separator + texts.last()
    }
}

/// Whether each text can be the text of the sample at its place.
pub open spec fn are_texts_of<N: NumberText>(
    numbers: &N,
    samples: Seq<Single>,
    texts: Seq<String>,
) -> bool {
    &&& texts.len() == samples.len()
    &&& forall|i: int|
        0 <= i < samples.len() ==> call_ensures(N::single, (numbers, samples[i]), #[trigger] texts[i])
}

/// The contents of texts.
pub open spec fn views(texts: Seq<String>) -> Seq<Seq<char>> {
    Seq::new(texts.len(), |i: int| texts[i]@)
}

/// The line of a frame in a table, given the texts of its time and its
/// samples.
pub open spec fn csv_line(
    number: nat,
    timestamp: Option<Seq<char>>,
    samples: Seq<Seq<char>>,
) -> Seq<char> {
    crate::text::numeral(number) + ","@ + (match timestamp {
        Some(t) => t + ","@,
        None => Seq::empty(),
    }) + separated(samples, ";"@) + "\n"@
}

/// Whether a line is one of a frame.
pub open spec fn is_line_of<N: NumberText>(
    numbers: &N,
    frame: RecordedFrame,
    line: Seq<char>,
    texts: Seq<String>,
    time: String,
) -> bool {
    &&& are_texts_of(numbers, frame.samples@, texts)
    &&& match frame.timestamp {
        Some(t) => {
            &&& call_ensures(N::double, (numbers, t), time)
            &&& line == csv_line(frame.frame_number as nat, Some(time@), views(texts))
        },
        None => line == csv_line(frame.frame_number as nat, None, views(texts)),
    }
}

fn samples_text<N: NumberText>(numbers: &N, samples: &[Single]) -> (r: (
    String,
    Ghost<Seq<String>>,
))
    ensures
        are_texts_of(numbers, samples@, r.1@),
        r.0@ == separated(views(r.1@), ";"@),
{
    let mut out: String = String::new();
    let ghost mut texts: Seq<String> = Seq::empty();
    let mut i: usize = 0;
    assert(views(texts) =~= Seq::empty());
    while i < samples.len()
        invariant
            i <= samples@.len(),
            texts.len() == i,
            forall|k: int|
                0 <= k < i ==> call_ensures(
                    N::single,
                    (numbers, samples@[k]),
                    #[trigger] texts[k],
                ),
            out@ == separated(views(texts), ";"@),
        decreases samples@.len() - i,
    {
        let text: String = numbers.single(samples[i]);
        if i > 0 {
            out.append(";");
        }
        out.append(text.as_str());
        proof {
            let more = texts.push(text);
            assert(views(more).drop_last() =~= views(texts));
            assert(views(more).last() == text@);
            if i == 0 {
                assert(views(more)[0] == text@);
                assert(out@ =~= text@);
            }
            texts = more;
        }
        i += 1;
    }
    (out, Ghost(texts))
}

/// The line of a frame in a table.
pub fn encode_csv<N: NumberText>(numbers: &N, frame: &RecordedFrame) -> (r: String)
    ensures
        exists|texts: Seq<String>, time: String|
            #[trigger] is_line_of(numbers, *frame, r@, texts, time),
{
    let mut line: String = decimal(frame.frame_number as u64);
    line.append(",");
    let (samples, texts) = samples_text(numbers, frame.samples.as_slice());
    let time: String = match frame.timestamp {
        Some(t) => {
            let time: String = numbers.double(t);
            line.append(time.as_str());
            line.append(",");
            time
        },
        None => String::new(),
    };
    line.append(samples.as_str());
    line.append("\n");
    proof {
        match frame.timestamp {
            Some(t) => {
                assert(line@ =~= csv_line(
                    frame.frame_number as nat,
                    Some(time@),
                    views(texts@),
                ));
            },
            None => {
                assert(line@ =~= csv_line(frame.frame_number as nat, None, views(texts@)));
            },
        }
        assert(is_line_of(numbers, *frame, line@, texts@, time));
    }
    line
}

/// A recording that is being made.
pub struct StreamRecorder {
    config: RecorderConfig,
    frame_count: usize,
    total_samples: usize,
}

impl StreamRecorder {
    /// The configuration of the recording.
    pub closed spec fn settings(&self) -> RecorderConfig {
        self.config
    }

    /// The number of frames.
    pub closed spec fn frames(&self) -> usize {
        self.frame_count
    }

    /// The number of samples.
    pub closed spec fn samples(&self) -> usize {
        self.total_samples
    }

    /// A recording without frames.
    pub fn new(config: RecorderConfig) -> (r: Self)
        ensures
            r.settings() == config,
            r.frames() == 0,
            r.samples() == 0,
    {
        StreamRecorder { config, frame_count: 0, total_samples: 0 }
    }

    /// The next frame. Its time is the given one, else the time since the
    /// start where frames carry one.
    pub fn frame(
        &self,
        samples: &[Single],
        timestamp: Option<Double>,
        since_start: Double,
    ) -> (r: RecordedFrame)
        ensures
            r.samples@ == samples@,
            r.frame_number == self.frames(),
            r.timestamp == match timestamp {
                Some(t) => Some(t),
                None => if self.settings().record_timestamps {
                    Some(since_start)
                } else {
                    None
                },
            },
    {
        let time: Option<Double> = match timestamp {
            Some(t) => Some(t),
            None => if self.config.record_timestamps {
                Some(since_start)
            } else {
                None
            },
        };
        RecordedFrame {
            samples: copy_samples(samples),
            timestamp: time,
            frame_number: self.frame_count,
        }
    }

    /// Counts a frame that was written.
    pub fn written(&mut self, frame: &RecordedFrame)
        requires
            old(self).frames() < usize::MAX,
            old(self).samples() + frame.samples@.len() <= usize::MAX,
        ensures
            final(self).settings() == old(self).settings(),
            final(self).frames() == old(self).frames() + 1,
            final(self).samples() == old(self).samples() + frame.samples@.len(),
    {
        self.frame_count = self.frame_count + 1;
        self.total_samples = self.total_samples + frame.samples.len();
    }

    /// The number of frames.
    pub fn frame_count(&self) -> (r: usize)
        ensures
            r == self.frames(),
    {
        self.frame_count
    }

    /// The number of samples.
    pub fn total_samples(&self) -> (r: usize)
        ensures
            r == self.samples(),
    {
        self.total_samples
    }

    /// The configuration of the recording.
    pub fn config(&self) -> (r: &RecorderConfig)
        ensures
            *r == self.settings(),
    {
        &self.config
    }
}

/// The bytes of a file as far as they could be read, and why there are no
/// more where that is not the end of the file.
#[derive(Debug)]
pub struct FileBytes {
    /// The bytes.
    pub data: Vec<u8>,
    /// What stopped reading before the end of the file.
    pub failure: Option<String>,
}

/// What an error says of a part that could not be read.
pub open spec fn part_text(part: Part) -> Seq<char> {
    match part {
        Part::Magic => "Failed to read magic: "@,
        Part::ConfigLength => "Failed to read config length: "@,
        Part::Config => "Failed to read config: "@,
        Part::Count => "Failed to read frame count: "@,
        Part::Timestamp => "Failed to read timestamp: "@,
        Part::Sample => "Failed to read sample: "@,
    }
}

/// Whether an error says that a part could not be read, and why.
pub open spec fn is_cut(e: IoError, part: Part, failure: Option<String>) -> bool {
    e matches IoError::ReadFailed(t) && t@ == part_text(part) + (match failure {
        Some(cause) => cause@,
        None => "early eof"@,
    })
}

fn cut(part: Part, failure: &Option<String>) -> (r: IoError)
    ensures
        is_cut(r, part, *failure),
{
    let cause: &str = match failure {
        Some(cause) => cause.as_str(),
        None => "early eof",
    };
    match part {
        Part::Magic => IoError::ReadFailed(join("Failed to read magic: ", cause)),
        Part::ConfigLength => IoError::ReadFailed(join("Failed to read config length: ", cause)),
        Part::Config => IoError::ReadFailed(join("Failed to read config: ", cause)),
        Part::Count => IoError::ReadFailed(join("Failed to read frame count: ", cause)),
        Part::Timestamp => IoError::ReadFailed(join("Failed to read timestamp: ", cause)),
        Part::Sample => IoError::ReadFailed(join("Failed to read sample: ", cause)),
    }
}

fn starts_with_magic(data: &[u8]) -> (r: bool)
    requires
        data@.len() >= 8,
    ensures
        r == (data@.take(8) == magic()),
{
    let r: bool = data[0] == 0x5a && data[1] == 0x48 && data[2] == 0x52 && data[3] == 0x45
        && data[4] == 0x43 && data[5] == 0x30 && data[6] == 0x30 && data[7] == 0x31;
    proof {
        let t = data@.take(8);
        assert(t[0] == data@[0] && t[1] == data@[1] && t[2] == data@[2] && t[3] == data@[3]);
        assert(t[4] == data@[4] && t[5] == data@[5] && t[6] == data@[6] && t[7] == data@[7]);
        if r {
            assert(t =~= magic());
        }
    }
    r
}

/// The configuration of a recording, as the bytes that it is written in.
pub fn config_bytes(file: &FileBytes) -> (r: IoResult<Vec<u8>>)
    ensures
        match header_of(file.data@) {
            Header::Cut(part) => r matches Err(e) && is_cut(e, part, file.failure),
            Header::Foreign => r matches Err(IoError::ReadFailed(t)) && t@
                == "Non-binary format playback not yet implemented"@,
            Header::Whole(end) => r is Ok && r->Ok_0@ == file.data@.subrange(12, end as int),
        },
{
    let data: &[u8] = file.data.as_slice();
    if data.len() < 8 {
        return Err(cut(Part::Magic, &file.failure));
    }
    if !starts_with_magic(data) {
        return Err(
            IoError::ReadFailed("Non-binary format playback not yet implemented".to_owned()),
        );
    }
    if data.len() < 12 {
        return Err(cut(Part::ConfigLength, &file.failure));
    }
    let n: u32 = get_u32(data, 8);
    if data.len() - 12 < n as usize {
        return Err(cut(Part::Config, &file.failure));
    }
    let mut out: Vec<u8> = Vec::new();
    out.extend_from_slice(slice_subrange(data, 12, 12 + n as usize));
    assert(out@ =~= file.data@.subrange(12, 12 + n));
    Ok(out)
}

/// A recording that is being played back.
pub struct StreamPlayer {
    config: RecorderConfig,
    file: FileBytes,
    position: usize,
    frame_count: usize,
}

impl StreamPlayer {
    /// Whether the place in the file is within it.
    pub closed spec fn wf(&self) -> bool {
        self.position <= self.file.data@.len()
    }

    /// The configuration of the recording.
    pub closed spec fn settings(&self) -> RecorderConfig {
        self.config
    }

    /// The bytes that are still to be read.
    pub closed spec fn rest(&self) -> Seq<u8> {
        self.file.data@.skip(self.position as int)
    }

    /// What stopped reading before the end of the file.
    pub closed spec fn failure(&self) -> Option<String> {
        self.file.failure
    }

    /// The number of frames that have been read.
    pub closed spec fn frames(&self) -> usize {
        self.frame_count
    }

    /// Opens a recording. Its configuration is parsed already; where that
    /// failed, the text of the error is there in its place.
    pub fn new(file: FileBytes, parsed: Result<RecorderConfig, String>) -> (r: IoResult<Self>)
        ensures
            match header_of(file.data@) {
                Header::Cut(part) => r matches Err(e) && is_cut(e, part, file.failure),
                Header::Foreign => r matches Err(IoError::ReadFailed(t)) && t@
                    == "Non-binary format playback not yet implemented"@,
                Header::Whole(end) => match parsed {
                    Ok(config) => {
                        &&& r is Ok
                        &&& r->Ok_0.wf()
                        &&& r->Ok_0.settings() == config
                        &&& r->Ok_0.rest() == file.data@.skip(end as int)
                        &&& r->Ok_0.failure() == file.failure
                        &&& r->Ok_0.frames() == 0
                    },
                    Err(cause) => r matches Err(IoError::ReadFailed(t)) && t@
                        == "Failed to parse config: "@ + cause@,
                },
            },
    {
        match config_bytes(&file) {
            Err(e) => Err(e),
            Ok(bytes) => match parsed {
                Ok(config) => {
                    assert(file.data@.len() == file.data.len());
                    let position: usize = 12 + bytes.len();
                    Ok(StreamPlayer { config, file, position, frame_count: 0 })
                },
                Err(cause) => Err(
                    IoError::ReadFailed(join("Failed to parse config: ", cause.as_str())),
                ),
            },
        }
    }

    /// Reads the next frame; `None` where none is left.
    pub fn next_frame(&mut self) -> (r: IoResult<Option<RecordedFrame>>)
        requires
            old(self).wf(),
            old(self).frames() < usize::MAX,
        ensures
            final(self).wf(),
            final(self).settings() == old(self).settings(),
            final(self).failure() == old(self).failure(),
            match frame_of(old(self).rest(), old(self).settings().record_timestamps) {
                FrameRead::Whole(model, used) => {
                    &&& r matches Ok(Some(frame)) && frame@ == model && frame.frame_number == old(
                        self,
                    ).frames()
                    &&& final(self).rest() == old(self).rest().skip(used as int)
                    &&& final(self).frames() == old(self).frames() + 1
                },
                FrameRead::End => {
                    &&& match old(self).failure() {
                        None => r matches Ok(None),
                        Some(_) => r matches Err(e) && is_cut(e, Part::Count, old(self).failure()),
                    }
                    &&& final(self).rest() == Seq::<u8>::empty()
                    &&& final(self).frames() == old(self).frames()
                },
                FrameRead::Cut(part) => {
                    &&& r matches Err(e) && is_cut(e, part, old(self).failure())
                    &&& final(self).rest() == Seq::<u8>::empty()
                    &&& final(self).frames() == old(self).frames()
                },
            },
    {
        let start: usize = self.position;
        let end: usize = self.file.data.len();
        let left: usize = end - start;
        let timed: bool = self.config.record_timestamps;
        let ghost rest = self.rest();
        assert(rest.len() == left);
        if left < 4 {
            self.position = end;
            assert(self.rest() =~= Seq::<u8>::empty());
            return match &self.file.failure {
                None => Ok(None),
                Some(_) => Err(cut(Part::Count, &self.file.failure)),
            };
        }
        let data: &[u8] = slice_subrange(self.file.data.as_slice(), start, end);
        assert(data@ =~= rest);
        let n: u32 = get_u32(data, 0);
        assert(data@.subrange(0, 4) =~= rest.take(4));
        let head: usize = if timed {
            12
        } else {
            4
        };
        if left < head {
            self.position = end;
            assert(self.rest() =~= Seq::<u8>::empty());
            return Err(cut(Part::Timestamp, &self.file.failure));
        }
        let timestamp: Option<Double> = if timed {
            Some(Double::from_bits(get_u64(data, 4)))
        } else {
            None
        };
        if (left - head) / 4 < n as usize {
            self.position = end;
            assert(self.rest() =~= Seq::<u8>::empty());
            return Err(cut(Part::Sample, &self.file.failure));
        }
        let used: usize = head + 4 * (n as usize);
        let body: &[u8] = slice_subrange(data, head, used);
        let samples: Vec<Single> = get_words(body);
        assert(body@ =~= rest.subrange(head as int, head + 4 * n));
        let frame: RecordedFrame = RecordedFrame {
            samples,
            timestamp,
            frame_number: self.frame_count,
        };
        self.position = start + used;
        self.frame_count = self.frame_count + 1;
        assert(self.rest() =~= rest.skip(used as int));
        Ok(Some(frame))
    }

    /// Recordings can only be read from front to back.
    pub fn seek_to_frame(&mut self, _frame_number: usize) -> (r: IoResult<()>)
        ensures
            *final(self) == *old(self),
            r matches Err(IoError::ReadFailed(t)) && t@ == "Seeking not yet implemented"@,
    {
        Err(IoError::ReadFailed("Seeking not yet implemented".to_owned()))
    }

    /// The configuration of the recording.
    pub fn config(&self) -> (r: &RecorderConfig)
        ensures
            *r == self.settings(),
    {
        &self.config
    }

    /// The number of frames that have been read.
    pub fn frame_number(&self) -> (r: usize)
        ensures
            r == self.frames(),
    {
        self.frame_count
    }
}

} // verus!
