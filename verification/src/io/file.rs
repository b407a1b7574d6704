//! Signals in files: sound, tables and data sets.

use crate::error::{IoError, IoResult};
use crate::io::recorder::NumberText;
use crate::io::stream::pad_to;
use crate::matrix::Matrix;
use crate::number::Single;
use crate::samples::copy_samples;
use crate::text::{decimal, join, join3};
use vstd::prelude::*;
use vstd::slice::slice_subrange;
use vstd::string::*;

verus! {

/// Why bytes are no sound file, from the `hound` crate.
#[verifier::external_type_specification]
#[verifier::external_body]
pub struct ExWavError(hound::Error);

/// What the head of a sound file says: the sample rate, the number of
/// channels, the bits of a sample, and whether samples are numbers with a
/// point; `None` where it cannot be read.
pub uninterp spec fn wav_head_of(data: Seq<u8>) -> Option<(u32, u16, u16, bool)>;

/// The whole numbers that the samples of a sound file are; `None` where they
/// cannot be read.
pub uninterp spec fn wav_ints_of(data: Seq<u8>) -> Option<Seq<i32>>;

/// `hound::WavReader::new` on bytes, and its `spec`. What the head says is a
/// function of the bytes; a head that can be read has a channel.
#[verifier::external_body]
fn wav_head(data: &[u8]) -> (r: Result<(u32, u16, u16, bool), hound::Error>)
    ensures
        match r {
            Ok(head) => wav_head_of(data@) == Some(head) && head.1 > 0,
            Err(_) => wav_head_of(data@) is None,
        },
{
    let spec = hound::WavReader::new(data)?.spec();
    let float = matches!(spec.sample_format, hound::SampleFormat::Float);
    Ok((spec.sample_rate, spec.channels, spec.bits_per_sample, float))
}

/// `into_samples` of a `hound::WavReader` on bytes, collected as whole
/// numbers. What the samples are is a function of the bytes; they make up
/// whole frames.
#[verifier::external_body]
fn wav_ints(data: &[u8]) -> (r: Result<Vec<i32>, hound::Error>)
    ensures
        match r {
            Ok(v) => {
                &&& wav_ints_of(data@) == Some(v@)
                &&& wav_head_of(data@) matches Some(head) && v@.len() % (head.1 as nat) == 0
            },
            Err(_) => wav_ints_of(data@) is None,
        },
{
    hound::WavReader::new(data)?.into_samples::<i32>().collect()
}

/// `to_string` on a `hound::Error`. What the text says is left open.
#[verifier::external_body]
fn wav_error_text(e: &hound::Error) -> String {
    e.to_string()
}

/// The kind of a sound file.
#[derive(Debug, Clone, Copy, PartialEq, Eq, Structural)]
pub struct WavSpec {
    /// Sample rate in Hz.
    pub sample_rate: u32,
    /// The number of channels.
    pub channels: u16,
    /// The bits of a sample.
    pub bits_per_sample: u16,
}

impl Default for WavSpec {
    fn default() -> (r: Self)
        ensures
            r == (WavSpec { sample_rate: 44100, channels: 1, bits_per_sample: 16 }),
    {
        WavSpec { sample_rate: 44100, channels: 1, bits_per_sample: 16 }
    }
}

/// The arithmetic on samples of sound files. Nothing is required of what it
/// returns.
pub trait WavMath {
    /// The sample that a whole number of so many bits stands for.
    fn from_int(&self, sample: i32, bits: u16) -> Single;

    /// The whole number of so many bits for a sample between -1 and 1.
    fn to_int(&self, sample: Single, bits: u16) -> i32;

    /// The samples of a sound file whose samples are numbers with a point.
    fn point_samples(&self, data: &Vec<u8>) -> Result<Vec<Single>, String>;
}

/// Whether samples can be those that whole numbers stand for.
pub open spec fn are_from_ints<M: WavMath>(
    math: &M,
    ints: Seq<i32>,
    bits: u16,
    samples: Seq<Single>,
) -> bool {
    &&& samples.len() == ints.len()
    &&& forall|i: int|
        0 <= i < ints.len() ==> call_ensures(M::from_int, (math, ints[i], bits), #[trigger] samples[i])
}

/// The bit pattern of 1.0.
pub const ONE_BITS: u32 = 0x3f80_0000;

/// The bit pattern of -1.0.
pub const MINUS_ONE_BITS: u32 = 0xbf80_0000;

/// A sample that is kept between -1 and 1.
pub open spec fn held_in(sample: Single) -> Single {
    sample.clamped(Single { bits: MINUS_ONE_BITS }, Single { bits: ONE_BITS })
}

/// Whether whole numbers can be those for samples.
pub open spec fn are_to_ints<M: WavMath>(
    math: &M,
    samples: Seq<Single>,
    bits: u16,
    ints: Seq<i32>,
) -> bool {
    &&& ints.len() == samples.len()
    &&& forall|i: int|
        0 <= i < samples.len() ==> call_ensures(
            M::to_int,
            (math, held_in(samples[i]), bits),
            #[trigger] ints[i],
        )
}

/// Whether an error says that a sound file could not be opened.
pub open spec fn is_unopened(e: IoError) -> bool {
    e matches IoError::ReadFailed(t) && (exists|cause: Seq<char>|
        t@ == #[trigger] ("Failed to open WAV file: "@ + cause))
}

/// Whether an error says that the samples of a sound file could not be read.
pub open spec fn is_unread(e: IoError) -> bool {
    e matches IoError::ReadFailed(t) && (exists|cause: Seq<char>|
        t@ == #[trigger] ("Failed to read WAV samples: "@ + cause))
}

/// The samples of a sound file, and a place among them.
#[derive(Debug)]
pub struct WavReader {
    spec: WavSpec,
    samples: Vec<Single>,
    position: usize,
}

impl WavReader {
    /// The kind of the file.
    pub closed spec fn kind(&self) -> WavSpec {
        self.spec
    }

    /// The samples.
    pub closed spec fn content(&self) -> Seq<Single> {
        self.samples@
    }

    /// The place of the next sample.
    pub closed spec fn place(&self) -> usize {
        self.position
    }

    /// Whether the place is within the samples.
    pub open spec fn wf(&self) -> bool {
        self.place() <= self.content().len()
    }

    /// A reader at the start of the given samples.
    pub fn from_samples(spec: WavSpec, samples: Vec<Single>) -> (r: Self)
        ensures
            r.wf(),
            r.kind() == spec,
            r.content() == samples@,
            r.place() == 0,
    {
        WavReader { spec, samples, position: 0 }
    }

    /// A reader at the start of the samples that whole numbers stand for.
    pub fn from_ints<M: WavMath>(math: &M, spec: WavSpec, ints: &Vec<i32>) -> (r: Self)
        ensures
            r.wf(),
            r.kind() == spec,
            are_from_ints(math, ints@, spec.bits_per_sample, r.content()),
            r.place() == 0,
    {
        let mut samples: Vec<Single> = Vec::new();
        let mut i: usize = 0;
        while i < ints.len()
            invariant
                i <= ints@.len(),
                samples@.len() == i,
                forall|k: int|
                    0 <= k < i ==> call_ensures(
                        M::from_int,
                        (math, ints@[k], spec.bits_per_sample),
                        #[trigger] samples@[k],
                    ),
            decreases ints@.len() - i,
        {
            samples.push(math.from_int(ints[i], spec.bits_per_sample));
            i += 1;
        }
        Self::from_samples(spec, samples)
    }

    /// A reader at the start of a sound file.
    pub fn open<M: WavMath>(math: &M, data: &Vec<u8>) -> (r: IoResult<Self>)
        ensures
            match wav_head_of(data@) {
                None => r matches Err(e) && is_unopened(e),
                Some(head) => {
                    let spec = WavSpec {
                        sample_rate: head.0,
                        channels: head.1,
                        bits_per_sample: head.2,
                    };
                    &&& r matches Ok(reader) ==> reader.wf() && reader.kind() == spec
                        && reader.place() == 0
                    &&& if head.3 {
                        exists|read: Result<Vec<Single>, String>|
                            {
                                &&& #[trigger] call_ensures(M::point_samples, (math, data), read)
                                &&& match read {
                                    Ok(samples) => r is Ok && r->Ok_0.content() == samples@,
                                    Err(cause) => r matches Err(IoError::ReadFailed(t)) && t@
                                        == "Failed to read WAV samples: "@ + cause@,
                                }
                            }
                    } else {
                        match wav_ints_of(data@) {
                            Some(ints) => {
                                &&& r is Ok
                                &&& are_from_ints(math, ints, head.2, r->Ok_0.content())
                                &&& r->Ok_0.content().len() % (head.1 as nat) == 0
                            },
                            None => r matches Err(e) && is_unread(e),
                        }
                    }
                },
            },
    {
        let bytes: &[u8] = data.as_slice();
        let head: (u32, u16, u16, bool) = match wav_head(bytes) {
            Ok(head) => head,
            Err(e) => {
                let cause: String = wav_error_text(&e);
                let text: String = join("Failed to open WAV file: ", cause.as_str());
                assert(text@ == "Failed to open WAV file: "@ + cause@);
                return Err(IoError::ReadFailed(text));
            },
        };
        let spec: WavSpec = WavSpec {
            sample_rate: head.0,
            channels: head.1,
            bits_per_sample: head.2,
        };
        if head.3 {
            let read: Result<Vec<Single>, String> = math.point_samples(data);
            assert(call_ensures(M::point_samples, (math, data), read));
            match read {
                Ok(samples) => Ok(Self::from_samples(spec, samples)),
                Err(cause) => Err(
                    IoError::ReadFailed(join("Failed to read WAV samples: ", cause.as_str())),
                ),
            }
        } else {
            match wav_ints(bytes) {
                Ok(ints) => Ok(Self::from_ints(math, spec, &ints)),
                Err(e) => {
                    let cause: String = wav_error_text(&e);
                    let text: String = join("Failed to read WAV samples: ", cause.as_str());
                    assert(text@ == "Failed to read WAV samples: "@ + cause@);
                    Err(IoError::ReadFailed(text))
                },
            }
        }
    }

    /// The kind of the file.
    pub fn spec(&self) -> (r: WavSpec)
        ensures
            r == self.kind(),
    {
        self.spec
    }

    /// The number of samples.
    pub fn len(&self) -> (r: usize)
        ensures
            r == self.content().len(),
    {
        self.samples.len()
    }

    /// Whether there are no samples.
    pub fn is_empty(&self) -> (r: bool)
        ensures
            r == (self.content().len() == 0),
    {
        self.samples.len() == 0
    }

    /// All samples.
    pub fn read_all(&self) -> (r: IoResult<Vec<Single>>)
        ensures
            r is Ok,
            r->Ok_0@ == self.content(),
    {
        Ok(copy_samples(self.samples.as_slice()))
    }

    /// All samples, a frame in each row.
    pub fn read_channels(&self) -> (r: IoResult<Matrix>)
        requires
            self.kind().channels > 0,
            self.content().len() % (self.kind().channels as nat) == 0,
        ensures
            r is Ok,
            r->Ok_0.wf(),
            r->Ok_0.width() == self.kind().channels,
            r->Ok_0.height() == self.content().len() / (self.kind().channels as nat),
            r->Ok_0.flat() == self.content(),
    {
        let n: usize = self.spec.channels as usize;
        let frames: usize = self.samples.len() / n;
        proof {
            vstd::arithmetic::div_mod::lemma_fundamental_div_mod(
                self.samples@.len() as int,
                n as int,
            );
            assert(frames * n == n * frames) by (nonlinear_arith);
        }
        match Matrix::from_vec(frames, n, copy_samples(self.samples.as_slice())) {
            Some(m) => Ok(m),
            None => Ok(Matrix::zeros(frames, n)),
        }
    }

    /// The next samples, up to `chunk_size`; `None` where none are left.
    pub fn read_chunk(&mut self, chunk_size: usize) -> (r: IoResult<Option<Vec<Single>>>)
        requires
            old(self).wf(),
        ensures
            final(self).wf(),
            final(self).kind() == old(self).kind(),
            final(self).content() == old(self).content(),
            ({
                let from = old(self).place() as int;
                let all = old(self).content();
                if from >= all.len() {
                    &&& r matches Ok(None)
                    &&& final(self).place() == from
                } else {
                    let end = if from + chunk_size < all.len() {
                        from + chunk_size
                    } else {
                        all.len() as int
                    };
                    &&& r matches Ok(Some(chunk)) && chunk@ == all.subrange(from, end)
                    &&& final(self).place() == end
                }
            }),
    {
        let from: usize = self.position;
        let n: usize = self.samples.len();
        if from >= n {
            return Ok(None);
        }
        let end: usize = if chunk_size < n - from {
            from + chunk_size
        } else {
            n
        };
        let chunk: Vec<Single> = copy_samples(slice_subrange(self.samples.as_slice(), from, end));
        self.position = end;
        Ok(Some(chunk))
    }

    /// Goes back to the start.
    pub fn reset(&mut self)
        ensures
            final(self).wf(),
            final(self).kind() == old(self).kind(),
            final(self).content() == old(self).content(),
            final(self).place() == 0,
    {
        self.position = 0;
    }

    /// The place of the next sample.
    pub fn position(&self) -> (r: usize)
        ensures
            r == self.place(),
    {
        self.position
    }
}

/// The whole numbers for samples, in the order in which a sound file of this
/// kind holds them.
pub fn sample_ints<M: WavMath>(math: &M, spec: WavSpec, samples: &[Single]) -> (r: Vec<i32>)
    ensures
        are_to_ints(math, samples@, spec.bits_per_sample, r@),
{
    let mut out: Vec<i32> = Vec::new();
    let mut i: usize = 0;
    while i < samples.len()
        invariant
            i <= samples@.len(),
            out@.len() == i,
            forall|k: int|
                0 <= k < i ==> call_ensures(
                    M::to_int,
                    (math, held_in(samples@[k]), spec.bits_per_sample),
                    #[trigger] out@[k],
                ),
        decreases samples@.len() - i,
    {
        let held: Single = samples[i].clamp(
            Single::from_bits(MINUS_ONE_BITS),
            Single::from_bits(ONE_BITS),
        );
        out.push(math.to_int(held, spec.bits_per_sample));
        i += 1;
    }
    out
}

/// The whole numbers for frames, one in each row.
pub fn channel_ints<M: WavMath>(math: &M, spec: WavSpec, samples: &Matrix) -> (r: Vec<i32>)
    ensures
        are_to_ints(math, samples.flat(), spec.bits_per_sample, r@),
{
    sample_ints(math, spec, samples.values())
}

/// Why bytes are no table, from the `csv` crate.
#[verifier::external_type_specification]
#[verifier::external_body]
pub struct ExCsvError(csv::Error);

/// The rows of a table in text, each with its fields; `None` for one that
/// cannot be read.
pub uninterp spec fn csv_rows_of(data: Seq<u8>, delimiter: u8, has_header: bool) -> Seq<
    Option<Seq<Seq<char>>>,
>;

/// Whether `r` are rows as read.
pub open spec fn are_rows(
    rows: Seq<Option<Seq<Seq<char>>>>,
    r: Seq<Result<Vec<String>, csv::Error>>,
) -> bool {
    &&& r.len() == rows.len()
    &&& forall|i: int|
        0 <= i < r.len() ==> match #[trigger] r[i] {
            Ok(fields) => rows[i] == Some(crate::io::recorder::views(fields@)),
            Err(_) => rows[i] is None,
        }
}

/// `records` of a `csv::Reader` that `csv::ReaderBuilder` made on bytes with a
/// delimiter and with or without a header. Which rows there are is a function
/// of these; all rows that can be read have equally many fields.
#[verifier::external_body]
fn csv_records(data: &[u8], delimiter: u8, has_header: bool) -> (r: Vec<
    Result<Vec<String>, csv::Error>,
>)
    ensures
        are_rows(csv_rows_of(data@, delimiter, has_header), r@),
        forall|i: int, j: int|
            0 <= i < r@.len() && 0 <= j < r@.len() && r@[i] is Ok && r@[j] is Ok ==> (
            #[trigger] r@[i])->Ok_0@.len() == (#[trigger] r@[j])->Ok_0@.len(),
{
    let mut builder = csv::ReaderBuilder::new();
    let mut reader = builder.delimiter(delimiter).has_headers(has_header).from_reader(data);
    reader
        .records()
        .map(|row| row.map(|fields| fields.iter().map(|f| f.to_string()).collect()))
        .collect()
}

/// `to_string` on a `csv::Error`. What the text says is left open.
#[verifier::external_body]
fn csv_error_text(e: &csv::Error) -> String {
    e.to_string()
}

/// Numbers from decimal text. Nothing is required of what it returns.
pub trait NumberParse {
    /// The number of a text, or what is wrong with it.
    fn parse(&self, text: &String) -> Result<Single, String>;
}

/// Whether parsing fields one after the other can have come to the given
/// results: all are numbers, or the last is the first that is none.
pub open spec fn parses<P: NumberParse>(
    parser: &P,
    fields: Seq<String>,
    results: Seq<Result<Single, String>>,
) -> bool {
    &&& results.len() <= fields.len()
    &&& forall|i: int|
        0 <= i < results.len() ==> call_ensures(
            P::parse,
            (parser, &fields[i]),
            #[trigger] results[i],
        )
    &&& forall|i: int| 0 <= i < results.len() - 1 ==> (#[trigger] results[i]) is Ok
    &&& results.len() < fields.len() ==> results.len() > 0 && results.last() is Err
}

/// Whether a row can be the numbers of its fields, or else the error for the
/// first field that is none.
pub open spec fn is_row<P: NumberParse>(
    parser: &P,
    fields: Seq<String>,
    results: Seq<Result<Single, String>>,
    r: IoResult<Vec<Single>>,
) -> bool {
    &&& parses(parser, fields, results)
    &&& if results.len() > 0 && results.last() is Err {
        r matches Err(IoError::ParseError(t)) && t@ == "Failed to parse float: "@
            + results.last()->Err_0@
    } else {
        &&& r is Ok
        &&& r->Ok_0@ == Seq::new(fields.len(), |i: int| results[i]->Ok_0)
    }
}

fn parse_row<P: NumberParse>(parser: &P, fields: &Vec<String>) -> (r: IoResult<Vec<Single>>)
    ensures
        exists|results: Seq<Result<Single, String>>|
            #[trigger] is_row(parser, fields@, results, r),
{
    let mut row: Vec<Single> = Vec::new();
    let ghost mut results: Seq<Result<Single, String>> = Seq::empty();
    let mut i: usize = 0;
    while i < fields.len()
        invariant
            i <= fields@.len(),
            results.len() == i,
            row@.len() == i,
            forall|k: int|
                0 <= k < i ==> call_ensures(
                    P::parse,
                    (parser, &fields@[k]),
                    #[trigger] results[k],
                ),
            forall|k: int| 0 <= k < i ==> (#[trigger] results[k]) is Ok,
            forall|k: int| 0 <= k < i ==> #[trigger] row@[k] == results[k]->Ok_0,
        decreases fields@.len() - i,
    {
        let parsed: Result<Single, String> = parser.parse(&fields[i]);
        proof {
            results = results.push(parsed);
        }
        match parsed {
            Ok(x) => {
                row.push(x);
            },
            Err(cause) => {
                let r: IoResult<Vec<Single>> = Err(
                    IoError::ParseError(join("Failed to parse float: ", cause.as_str())),
                );
                assert(is_row(parser, fields@, results, r));
                return r;
            },
        }
        i += 1;
    }
    let r: IoResult<Vec<Single>> = Ok(row);
    proof {
        assert(row@ =~= Seq::new(fields@.len(), |k: int| results[k]->Ok_0));
        if results.len() > 0 {
            assert(results.last() is Ok);
        }
        assert(is_row(parser, fields@, results, r));
    }
    r
}

/// Whether a row of a table can have come to `r`: an error where it could not
/// be read, else its numbers.
pub open spec fn row_comes_to<P: NumberParse>(
    parser: &P,
    row: Result<Vec<String>, String>,
    r: IoResult<Vec<Single>>,
) -> bool {
    match row {
        Err(cause) => r matches Err(IoError::ReadFailed(t)) && t@ == "Failed to read CSV record: "@
            + cause@,
        Ok(fields) => exists|results: Seq<Result<Single, String>>|
            #[trigger] is_row(parser, fields@, results, r),
    }
}

/// Whether the rows of a table one after the other can have come to the given
/// results: all are numbers, or the last is the first that is not.
pub open spec fn rows_come_to<P: NumberParse>(
    parser: &P,
    rows: Seq<Result<Vec<String>, String>>,
    results: Seq<IoResult<Vec<Single>>>,
) -> bool {
    &&& results.len() <= rows.len()
    &&& forall|i: int|
        0 <= i < results.len() ==> row_comes_to(parser, rows[i], #[trigger] results[i])
    &&& forall|i: int| 0 <= i < results.len() - 1 ==> (#[trigger] results[i]) is Ok
    &&& results.len() < rows.len() ==> results.len() > 0 && results.last() is Err
}

/// Rows one after the other, each padded with zeros or cut to a width.
pub open spec fn stacked(rows: Seq<Seq<Single>>, width: nat) -> Seq<Single>
    decreases rows.len(),
{
    if rows.len() == 0 {
        Seq::empty()
    } else {
        stacked(rows.drop_last(), width) + crate::io::stream::padded(rows.last(), width)
    }
}

/// There are as many samples as rows times the width.
pub proof fn stacked_len(rows: Seq<Seq<Single>>, width: nat)
    ensures
        stacked(rows, width).len() == rows.len() * width,
    decreases rows.len(),
{
    if rows.len() > 0 {
        stacked_len(rows.drop_last(), width);
        let n = rows.len() as int;
        assert(n * width == (n - 1) * width + width) by (nonlinear_arith);
    } else {
        assert(0 * width == 0) by (nonlinear_arith);
    }
}

/// Whether a table can have come to `r`: the first error of a row, an error
/// where there are no rows, or else the numbers. The first row says how wide
/// the table is.
pub open spec fn is_table<P: NumberParse>(
    parser: &P,
    rows: Seq<Result<Vec<String>, String>>,
    results: Seq<IoResult<Vec<Single>>>,
    r: IoResult<Matrix>,
) -> bool {
    &&& rows_come_to(parser, rows, results)
    &&& if results.len() > 0 && results.last() is Err {
        r == Err::<Matrix, IoError>(results.last()->Err_0)
    } else if rows.len() == 0 {
        r matches Err(IoError::ReadFailed(t)) && t@ == "CSV file is empty"@
    } else {
        let numbers = Seq::new(results.len(), |i: int| results[i]->Ok_0@);
        &&& r is Ok
        &&& r->Ok_0.wf()
        &&& r->Ok_0.height() == rows.len()
        &&& r->Ok_0.width() == numbers[0].len()
        &&& r->Ok_0.flat() == stacked(numbers, numbers[0].len())
    }
}

/// Whether no row has more fields than the first.
pub open spec fn fits(rows: Seq<Result<Vec<String>, String>>) -> bool {
    rows.len() > 0 && rows[0] is Ok ==> forall|i: int|
        0 <= i < rows.len() && rows[i] is Ok ==> (#[trigger] rows[i])->Ok_0@.len()
            <= rows[0]->Ok_0@.len()
}

/// The table of rows that were read already; where that failed, the text of
/// the error is there in its place.
pub fn table_of<P: NumberParse>(parser: &P, rows: Vec<Result<Vec<String>, String>>) -> (r: IoResult<
    Matrix,
>)
    requires
        fits(rows@),
    ensures
        exists|results: Seq<IoResult<Vec<Single>>>|
            #[trigger] is_table(parser, rows@, results, r),
{
    let ghost mut results: Seq<IoResult<Vec<Single>>> = Seq::empty();
    let ghost mut numbers: Seq<Seq<Single>> = Seq::empty();
    let mut values: Vec<Single> = Vec::new();
    let mut width: usize = 0;
    let mut i: usize = 0;
    while i < rows.len()
        invariant
            i <= rows@.len(),
            results.len() == i,
            numbers.len() == i,
            forall|k: int|
                0 <= k < i ==> row_comes_to(parser, rows@[k], #[trigger] results[k]),
            forall|k: int| 0 <= k < i ==> (#[trigger] results[k]) is Ok,
            forall|k: int| 0 <= k < i ==> #[trigger] numbers[k] == results[k]->Ok_0@,
            i > 0 ==> width == numbers[0].len(),
            values@ == stacked(numbers, width as nat),
        decreases rows@.len() - i,
    {
        let outcome: IoResult<Vec<Single>> = match &rows[i] {
            Err(cause) => Err(
                IoError::ReadFailed(join("Failed to read CSV record: ", cause.as_str())),
            ),
            Ok(fields) => parse_row(parser, fields),
        };
        assert(row_comes_to(parser, rows@[i as int], outcome));
        proof {
            results = results.push(outcome);
        }
        match outcome {
            Err(e) => {
                let r: IoResult<Matrix> = Err(e);
                assert(is_table(parser, rows@, results, r));
                return r;
            },
            Ok(row) => {
                if i == 0 {
                    width = row.len();
                    assert(stacked(numbers, width as nat) =~= Seq::empty());
                }
                let mut padded: Vec<Single> = pad_to(row.as_slice(), width);
                values.append(&mut padded);
                proof {
                    let more = numbers.push(row@);
                    assert(more.drop_last() =~= numbers);
                    numbers = more;
                }
            },
        }
        i += 1;
    }
    if rows.len() == 0 {
        let r: IoResult<Matrix> = Err(IoError::ReadFailed("CSV file is empty".to_owned()));
        assert(is_table(parser, rows@, results, r));
        return r;
    }
    proof {
        stacked_len(numbers, width as nat);
    }
    let n: usize = rows.len();
    let filled: Option<Matrix> = Matrix::from_vec(n, width, values);
    assert(filled is Some);
    let r: IoResult<Matrix> = match filled {
        Some(m) => Ok(m),
        None => Err(IoError::ReadFailed("CSV file is empty".to_owned())),
    };
    proof {
        assert(numbers =~= Seq::new(results.len(), |k: int| results[k]->Ok_0@));
        assert(results.last() is Ok);
        assert(is_table(parser, rows@, results, r));
    }
    r
}

/// Where a table is, and how it is written.
#[derive(Debug)]
pub struct CsvReader {
    path: String,
    delimiter: u8,
    has_header: bool,
}

impl CsvReader {
    /// Where the table is.
    pub closed spec fn place(&self) -> Seq<char> {
        self.path@
    }

    /// What stands between fields.
    pub closed spec fn separator(&self) -> u8 {
        self.delimiter
    }

    /// Whether the first row holds names.
    pub closed spec fn headed(&self) -> bool {
        self.has_header
    }

    /// A table with commas and a header.
    pub fn new(path: &str) -> (r: Self)
        ensures
            r.place() == path@,
            r.separator() == 0x2c,
            r.headed(),
    {
        CsvReader { path: path.to_owned(), delimiter: 0x2c, has_header: true }
    }

    /// Sets what stands between fields.
    pub fn delimiter(self, delimiter: u8) -> (r: Self)
        ensures
            r.place() == self.place(),
            r.separator() == delimiter,
            r.headed() == self.headed(),
    {
        CsvReader { delimiter, ..self }
    }

    /// Sets whether the first row holds names.
    pub fn has_header(self, has_header: bool) -> (r: Self)
        ensures
            r.place() == self.place(),
            r.separator() == self.separator(),
            r.headed() == has_header,
    {
        CsvReader { has_header, ..self }
    }

    /// Where the table is.
    pub fn path(&self) -> (r: &str)
        ensures
            r@ == self.place(),
    {
        self.path.as_str()
    }

    /// The rows of a table in text.
    pub fn rows(&self, data: &[u8]) -> (r: Vec<Result<Vec<String>, String>>)
        ensures
            fits(r@),
            is_read_as(csv_rows_of(data@, self.separator(), self.headed()), r@),
    {
        let records: Vec<Result<Vec<String>, csv::Error>> = csv_records(
            data,
            self.delimiter,
            self.has_header,
        );
        let ghost given = records@;
        let mut records: Vec<Result<Vec<String>, csv::Error>> = records;
        let mut out: Vec<Result<Vec<String>, String>> = Vec::new();
        while records.len() > 0
            invariant
                out@.len() + records@.len() == given.len(),
                records@ == given.skip(out@.len() as int),
                forall|k: int|
                    0 <= k < out@.len() ==> match #[trigger] out@[k] {
                        Ok(fields) => given[k] == Ok::<Vec<String>, csv::Error>(fields),
                        Err(_) => given[k] is Err,
                    },
            decreases records@.len(),
        {
            let next: Result<Vec<String>, csv::Error> = records.remove(0);
            assert(next == given[out@.len() as int]);
            match next {
                Ok(fields) => {
                    out.push(Ok(fields));
                },
                Err(e) => {
                    out.push(Err(csv_error_text(&e)));
                },
            }
            assert(records@ =~= given.skip(out@.len() as int));
        }
        proof {
            let rows = csv_rows_of(data@, self.separator(), self.headed());
            assert forall|i: int| 0 <= i < out@.len() implies match #[trigger] out@[i] {
                Ok(fields) => rows[i] == Some(crate::io::recorder::views(fields@)),
                Err(_) => rows[i] is None,
            } by {
                let g = given[i];
            }
            if out@.len() > 0 && out@[0] is Ok {
                assert forall|i: int| 0 <= i < out@.len() && out@[i] is Ok implies (
                #[trigger] out@[i])->Ok_0@.len() <= out@[0]->Ok_0@.len() by {
                    let g = given[0];
                    let h = given[i];
                }
            }
        }
        out
    }

    /// The numbers of a table in text.
    pub fn read_array<P: NumberParse>(&self, parser: &P, data: &[u8]) -> (r: IoResult<Matrix>)
        ensures
            exists|rows: Seq<Result<Vec<String>, String>>, results: Seq<IoResult<Vec<Single>>>|
                {
                    &&& is_read_as(csv_rows_of(data@, self.separator(), self.headed()), rows)
                    &&& #[trigger] is_table(parser, rows, results, r)
                },
    {
        let rows: Vec<Result<Vec<String>, String>> = self.rows(data);
        table_of(parser, rows)
    }

    /// The numbers of one column of a table in text.
    pub fn read_column<P: NumberParse>(
        &self,
        parser: &P,
        data: &[u8],
        column_index: usize,
    ) -> (r: IoResult<Vec<Single>>)
        ensures
            exists|
                rows: Seq<Result<Vec<String>, String>>,
                results: Seq<IoResult<Vec<Single>>>,
                array: IoResult<Matrix>,
            |
                {
                    &&& is_read_as(csv_rows_of(data@, self.separator(), self.headed()), rows)
                    &&& #[trigger] is_table(parser, rows, results, array)
                    &&& is_column(array, column_index, r)
                },
    {
        let array: IoResult<Matrix> = self.read_array(parser, data);
        match &array {
            Err(_) => {},
            Ok(m) => {
                assert(m.wf());
            },
        }
        column_of(array, column_index)
    }
}

/// Whether `r` are rows as read, with texts for errors.
pub open spec fn is_read_as(
    rows: Seq<Option<Seq<Seq<char>>>>,
    r: Seq<Result<Vec<String>, String>>,
) -> bool {
    &&& r.len() == rows.len()
    &&& forall|i: int|
        0 <= i < r.len() ==> match #[trigger] r[i] {
            Ok(fields) => rows[i] == Some(crate::io::recorder::views(fields@)),
            Err(_) => rows[i] is None,
        }
}

/// Whether `r` is a column of a table.
pub open spec fn is_column(
    array: IoResult<Matrix>,
    column_index: usize,
    r: IoResult<Vec<Single>>,
) -> bool {
    match array {
        Err(e) => r == Err::<Vec<Single>, IoError>(e),
        Ok(m) => if column_index < m.width() {
            &&& r is Ok
            &&& r->Ok_0@ == Seq::new(m.height(), |i: int| m.line(i)[column_index as int])
        } else {
            r matches Err(IoError::ReadFailed(t)) && t@ == "Column index "@ + crate::text::numeral(
                column_index as nat,
            ) + " out of bounds"@
        },
    }
}

/// A column of a table.
pub fn column_of(array: IoResult<Matrix>, column_index: usize) -> (r: IoResult<Vec<Single>>)
    requires
        array matches Ok(m) ==> m.wf(),
    ensures
        is_column(array, column_index, r),
{
    match array {
        Err(e) => Err(e),
        Ok(m) => {
            if column_index >= m.ncols() {
                return Err(
                    IoError::ReadFailed(
                        join3(
                            "Column index ",
                            decimal(column_index as u64).as_str(),
                            " out of bounds",
                        ),
                    ),
                );
            }
            let mut out: Vec<Single> = Vec::new();
            let mut i: usize = 0;
            while i < m.nrows()
                invariant
                    m.wf(),
                    column_index < m.width(),
                    i <= m.height(),
                    out@.len() == i,
                    forall|k: int|
                        0 <= k < i ==> #[trigger] out@[k] == m.line(k)[column_index as int],
                decreases m.height() - i,
            {
                out.push(m.get(i, column_index));
                i += 1;
            }
            assert(out@ =~= Seq::new(m.height(), |k: int| m.line(k)[column_index as int]));
            Ok(out)
        },
    }
}

/// The texts of the numbers of a row.
pub fn row_texts<N: NumberText>(numbers: &N, row: &[Single]) -> (r: Vec<String>)
    ensures
        crate::io::recorder::are_texts_of(numbers, row@, r@),
{
    let mut out: Vec<String> = Vec::new();
    let mut i: usize = 0;
    while i < row.len()
        invariant
            i <= row@.len(),
            out@.len() == i,
            forall|k: int|
                0 <= k < i ==> call_ensures(N::single, (numbers, row@[k]), #[trigger] out@[k]),
        decreases row@.len() - i,
    {
        out.push(numbers.single(row[i]));
        i += 1;
    }
    out
}

/// The text of a shape.
pub open spec fn shape_text(shape: Seq<usize>) -> Seq<char> {
    "["@ + crate::io::recorder::separated(
        Seq::new(shape.len(), |i: int| crate::text::numeral(shape[i] as nat)),
        ", "@,
    ) + "]"@
}

fn describe_shape(shape: &[usize]) -> (r: String)
    ensures
        r@ == shape_text(shape@),
{
    let ghost texts = Seq::new(shape@.len(), |k: int| crate::text::numeral(shape@[k] as nat));
    let mut out: String = String::new();
    let mut i: usize = 0;
    assert(texts.take(0) =~= Seq::empty());
    while i < shape.len()
        invariant
            i <= shape@.len(),
            texts == Seq::new(shape@.len(), |k: int| crate::text::numeral(shape@[k] as nat)),
            out@ == crate::io::recorder::separated(texts.take(i as int), ", "@),
        decreases shape@.len() - i,
    {
        if i > 0 {
            out.append(", ");
        }
        out.append(decimal(shape[i] as u64).as_str());
        proof {
            assert(texts.take(i + 1).drop_last() =~= texts.take(i as int));
            assert(texts.take(i + 1).last() == texts[i as int]);
            if i == 0 {
                assert(out@ =~= texts[0]);
            }
        }
        i += 1;
    }
    assert(texts.take(i as int) =~= texts);
    join3("[", out.as_str(), "]")
}

/// The table of a data set of the given shape, from its samples row by row.
pub fn dataset_2d(raw: Vec<Single>, shape: &[usize]) -> (r: IoResult<Matrix>)
    requires
        shape@.len() == 2 ==> shape@[0] * shape@[1] <= raw@.len(),
    ensures
        if shape@.len() == 2 {
            &&& r is Ok
            &&& r->Ok_0.wf()
            &&& r->Ok_0.height() == shape@[0]
            &&& r->Ok_0.width() == shape@[1]
            &&& r->Ok_0.flat() == raw@.take(shape@[0] * shape@[1])
        } else {
            r matches Err(IoError::ReadFailed(t)) && t@ == "Dataset is not 2D: "@ + shape_text(
                shape@,
            )
        },
{
    if shape.len() != 2 {
        return Err(
            IoError::ReadFailed(join("Dataset is not 2D: ", describe_shape(shape).as_str())),
        );
    }
    assert(raw@.len() == raw.len());
    let n: usize = shape[0] * shape[1];
    let values: Vec<Single> = copy_samples(slice_subrange(raw.as_slice(), 0, n));
    assert(values@ =~= raw@.take(n as int));
    match Matrix::from_vec(shape[0], shape[1], values) {
        Some(m) => Ok(m),
        None => Ok(Matrix::zeros(shape[0], shape[1])),
    }
}

/// A step of reading or writing a file.
#[derive(Debug, Clone, Copy, PartialEq, Eq, Structural)]
pub enum FileStep {
    /// Creating a sound file.
    CreateWav,
    /// Writing a sample of a sound file.
    WriteWav,
    /// Ending a sound file.
    FinishWav,
    /// Opening a table.
    OpenCsv,
    /// Creating a table.
    CreateCsv,
    /// Writing the header of a table.
    WriteCsvHeader,
    /// Writing a row of a table.
    WriteCsvRow,
    /// Ending a table.
    FlushCsv,
    /// Opening a file of data sets.
    OpenHdf5,
    /// Creating a file of data sets.
    CreateHdf5,
    /// Opening a data set.
    OpenDataset,
    /// Reading a data set.
    ReadDataset,
    /// Creating a data set.
    CreateDataset,
    /// Writing a data set.
    WriteDataset,
    /// Listing data sets.
    ListDatasets,
}

/// What an error says of a step that failed.
pub open spec fn step_text(step: FileStep) -> Seq<char> {
    match step {
        FileStep::CreateWav => "Failed to create WAV file: "@,
        FileStep::WriteWav => "Failed to write WAV sample: "@,
        FileStep::FinishWav => "Failed to finalize WAV file: "@,
        FileStep::OpenCsv => "Failed to open CSV file: "@,
        FileStep::CreateCsv => "Failed to create CSV file: "@,
        FileStep::WriteCsvHeader => "Failed to write CSV header: "@,
        FileStep::WriteCsvRow => "Failed to write CSV row: "@,
        FileStep::FlushCsv => "Failed to flush CSV file: "@,
        FileStep::OpenHdf5 => "Failed to open HDF5 file: "@,
        FileStep::CreateHdf5 => "Failed to create HDF5 file: "@,
        FileStep::OpenDataset => "Failed to open dataset: "@,
        FileStep::ReadDataset => "Failed to read dataset: "@,
        FileStep::CreateDataset => "Failed to create dataset: "@,
        FileStep::WriteDataset => "Failed to write dataset: "@,
        FileStep::ListDatasets => "Failed to list HDF5 members: "@,
    }
}

/// Whether a step reads.
pub open spec fn is_reading(step: FileStep) -> bool {
    step is OpenCsv || step is OpenHdf5 || step is OpenDataset || step is ReadDataset
        || step is ListDatasets
}

/// The error for a step that failed.
pub fn failure(step: FileStep, cause: &str) -> (r: IoError)
    ensures
        if is_reading(step) {
            r matches IoError::ReadFailed(t) && t@ == step_text(step) + cause@
        } else {
            r matches IoError::WriteFailed(t) && t@ == step_text(step) + cause@
        },
{
    match step {
        FileStep::CreateWav => IoError::WriteFailed(join("Failed to create WAV file: ", cause)),
        FileStep::WriteWav => IoError::WriteFailed(join("Failed to write WAV sample: ", cause)),
        FileStep::FinishWav => IoError::WriteFailed(join("Failed to finalize WAV file: ", cause)),
        FileStep::OpenCsv => IoError::ReadFailed(join("Failed to open CSV file: ", cause)),
        FileStep::CreateCsv => IoError::WriteFailed(join("Failed to create CSV file: ", cause)),
        FileStep::WriteCsvHeader => IoError::WriteFailed(
            join("Failed to write CSV header: ", cause),
        ),
        FileStep::WriteCsvRow => IoError::WriteFailed(join("Failed to write CSV row: ", cause)),
        FileStep::FlushCsv => IoError::WriteFailed(join("Failed to flush CSV file: ", cause)),
        FileStep::OpenHdf5 => IoError::ReadFailed(join("Failed to open HDF5 file: ", cause)),
        FileStep::CreateHdf5 => IoError::WriteFailed(join("Failed to create HDF5 file: ", cause)),
        FileStep::OpenDataset => IoError::ReadFailed(join("Failed to open dataset: ", cause)),
        FileStep::ReadDataset => IoError::ReadFailed(join("Failed to read dataset: ", cause)),
        FileStep::CreateDataset => IoError::WriteFailed(join("Failed to create dataset: ", cause)),
        FileStep::WriteDataset => IoError::WriteFailed(join("Failed to write dataset: ", cause)),
        FileStep::ListDatasets => IoError::ReadFailed(join("Failed to list HDF5 members: ", cause)),
    }
}

} // verus!
