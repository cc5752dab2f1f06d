//! The stream between the capture of audio and an HTTP client.
//!
//! Captured chunks are put into a channel by [`ChannelStream::write`] and taken
//! out again when the client reads. They pass through a queue of samples, from
//! which the read buffers are filled with PCM data, after a header where the
//! format has one.
use crate::channel;
use crate::debug_agent::DitherTag;
use crate::enums::streaming::{BitDepth, Endian, StreamingFormat};
use crate::sample::Sample;
use crate::utils::conditioning::{
    apply_latency_pulse_if_triggered, dither, dither_at, dither_silence, get_silence_buffer,
    is_digital_silence, is_quiet, maybe_dither_quiet_capture, quiet_dithered, silence_len,
    with_pulse,
};
use crate::utils::samples_conv::{encoded_all, overwritten, put_samples};
use crate::utils::wave_header::{
    byte_rate, create_rf64_hdr, create_wav_hdr, rf64_header, wav_header,
};
use crossbeam_channel::{Receiver, Sender};
use ecow::EcoString;
use itertools::Itertools;
use std::collections::VecDeque;
use std::sync::Arc;
use vstd::prelude::*;

verus! {

/// A chunk of interleaved stereo samples that capture and streaming share.
pub type AudioSamples = Arc<Vec<Sample>>;

/// `ecow::EcoString`, a short string.
#[verifier::external_type_specification]
#[verifier::external_body]
pub struct ExEcoString(ecow::EcoString);

/// The text of a short string.
pub uninterp spec fn eco_text(s: EcoString) -> Seq<char>;

/// `EcoString::clone`: a string with the same text.
pub assume_specification[ <ecow::EcoString as std::clone::Clone>::clone ](
    s: &ecow::EcoString,
) -> (r: ecow::EcoString)
    ensures
        eco_text(r) == eco_text(*s),
;

/// How many chunks may wait in the channel before further ones are dropped.
pub const MAX_QUEUED_CHUNKS: usize = 10_000;

/// The capture time-out in milliseconds when none is configured.
pub const DEFAULT_CAPTURE_TIMEOUT: u32 = 5;

/// How many samples are converted together.
pub const CHUNK_SIZE: usize = 4;

/// The part of a stream that reads depend on.
#[verifier::ext_equal]
pub struct StreamState {
    /// Samples that wait to be read.
    pub fifo: Seq<Sample>,
    /// What is streamed when no samples come.
    pub silence: Seq<Sample>,
    /// How long reads wait for samples, in milliseconds.
    pub capture_timeout: u64,
    /// Whether the last samples were silence for want of captured ones.
    pub sending_silence: bool,
    /// The header, while it has not been read.
    pub header: Seq<u8>,
    /// Whether the stream has a header and little endian samples.
    pub use_wave_format: bool,
    /// The depth of the samples that are sent.
    pub bits_per_sample: u16,
}

impl StreamState {
    /// Whether the header comes next.
    pub open spec fn header_pending(self) -> bool {
        self.use_wave_format && self.header.len() > 0
    }

    /// The bytes of four samples.
    pub open spec fn chunk_bytes(self) -> int {
        4 * (self.bits_per_sample as int / 8)
    }

    /// How many times four samples fit in a buffer.
    pub open spec fn chunks_in(self, len: nat) -> int {
        len as int / self.chunk_bytes()
    }

    /// How many samples are read into a buffer.
    pub open spec fn samples_in(self, len: nat) -> int {
        4 * self.chunks_in(len)
    }

    /// How many bytes of a buffer are filled.
    pub open spec fn bytes_in(self, len: nat) -> int {
        self.chunks_in(len) * self.chunk_bytes()
    }

    /// The byte order of the samples that are sent.
    pub open spec fn endian(self) -> Endian {
        Endian::of(self.use_wave_format)
    }

    /// The depth of the samples that are sent.
    pub open spec fn depth(self) -> BitDepth {
        BitDepth::of(self.bits_per_sample)
    }

    /// Whether a buffer of this length can be read into: a header that comes next
    /// has to fit, and where samples are sent there is a depth for them.
    pub open spec fn readable(self, len: nat) -> bool {
        if self.header_pending() {
            len >= self.header.len()
        } else {
            len > 0 ==> {
                &&& self.bits_per_sample >= 8
                &&& len >= self.chunk_bytes() ==> BitDepth::is_depth(self.bits_per_sample)
            }
        }
    }

    /// Whether `added` is what a captured chunk, or its absence, adds to the queue: a
    /// pulse written over its start when one was asked for, else the chunk, dithered when
    /// it is quiet, or dither for as long as the silence is.
    pub open spec fn contributes<D: Fn(Sample, Sample) -> Sample>(
        self,
        mix: D,
        chunk: Option<Seq<Sample>>,
        triggered: bool,
        added: Seq<Sample>,
    ) -> bool {
        match chunk {
            Some(samples) => if triggered {
                added == with_pulse(samples)
            } else {
                quiet_dithered(mix, self.bits_per_sample, samples, added)
            },
            None => added == if triggered {
                with_pulse(self.silence)
            } else {
                dither(self.bits_per_sample, self.silence.len())
            },
        }
    }

    /// The stream after a captured chunk, or its absence, has added samples.
    pub open spec fn after_chunk(
        self,
        captured: bool,
        triggered: bool,
        added: Seq<Sample>,
    ) -> StreamState {
        StreamState {
            fifo: self.fifo + added,
            sending_silence: !captured && !triggered,
            ..self
        }
    }

    /// The stream after its header was read.
    pub open spec fn after_header(self) -> StreamState {
        StreamState { header: Seq::empty(), ..self }
    }

    /// The stream after so many samples were read.
    pub open spec fn after_samples(self, n: int) -> StreamState {
        StreamState { fifo: self.fifo.skip(n), ..self }
    }
}

/// The part of a stream that stays as it was made.
pub struct StreamEnds {
    pub sender: Sender<AudioSamples>,
    pub receiver: Receiver<AudioSamples>,
    pub remote_ip: EcoString,
    pub format: StreamingFormat,
}

/// A stream: what reads depend on, and what stays as it was made.
pub struct StreamView {
    pub state: StreamState,
    pub ends: StreamEnds,
}

/// What became of a read.
#[derive(Clone, Copy, Debug, PartialEq, Eq, Structural)]
pub enum Fill {
    /// The header was read, of so many bytes.
    Header(usize),
    /// The buffer is empty: end of file.
    EmptyBuffer,
    /// The buffer has no room for four samples: end of file.
    PartialBuffer,
    /// Samples were read, of so many bytes.
    Pcm(usize),
    /// More samples are needed first.
    NeedSamples,
}

impl Fill {
    /// How many bytes a read gives: none at the end of file. Nothing when the read
    /// has to be made again.
    pub fn bytes_read(&self) -> (r: Option<usize>)
        ensures
            r == match *self {
                Fill::Header(n) => Some(n),
                Fill::Pcm(n) => Some(n),
                Fill::EmptyBuffer => Some(0),
                Fill::PartialBuffer => Some(0),
                Fill::NeedSamples => None,
            },
    {
        match self {
            Fill::Header(n) => Some(*n),
            Fill::Pcm(n) => Some(*n),
            Fill::EmptyBuffer => Some(0),
            Fill::PartialBuffer => Some(0),
            Fill::NeedSamples => None,
        }
    }
}

/// The header of a new stream.
pub open spec fn stream_header(format: StreamingFormat, sample_rate: u32, bits: u16) -> Seq<u8> {
    match format {
        StreamingFormat::Wav => wav_header(sample_rate, bits),
        StreamingFormat::Rf64 => rf64_header(sample_rate, bits),
        _ => Seq::empty(),
    }
}

/// Whether a header for this rate and depth can be written.
pub open spec fn header_fits(format: StreamingFormat, sample_rate: u32, bits: u16) -> bool {
    &&& (format is Wav || format is Rf64) ==> byte_rate(sample_rate, bits) <= u32::MAX
    &&& format is Rf64 ==> bits >= 8
}

/// Whether each of `converted` is a value that `convert` gives for the sample in
/// its place.
pub open spec fn converts<C: Fn(BitDepth, Sample) -> i32>(
    convert: C,
    depth: BitDepth,
    samples: Seq<Sample>,
    converted: Seq<i32>,
) -> bool {
    &&& converted.len() == samples.len()
    &&& forall|i: int|
        0 <= i < samples.len() ==> convert.ensures((depth, samples[i]), #[trigger] converted[i])
}

/// The samples of a chunk that may be absent.
pub open spec fn samples_of(chunk: Option<AudioSamples>) -> Option<Seq<Sample>> {
    match chunk {
        Some(samples) => Some(samples@),
        None => None,
    }
}

/// What was done to a chunk, or to its absence, before it was queued.
#[derive(Clone, Copy, Debug, PartialEq, Eq, Structural)]
pub enum Conditioned {
    /// The latency pulse was written over its start.
    Pulse,
    /// It was dithered.
    Dithered(DitherTag),
    /// Nothing.
    Kept,
}

/// What is done to a chunk, or to its absence.
pub open spec fn conditioning_of(chunk: Option<Seq<Sample>>, triggered: bool) -> Conditioned {
    if triggered {
        Conditioned::Pulse
    } else {
        match chunk {
            Some(samples) => if is_quiet(samples) {
                Conditioned::Dithered(DitherTag::CaptureOk)
            } else {
                Conditioned::Kept
            },
            None => Conditioned::Dithered(DitherTag::RecvTimeoutSilence),
        }
    }
}

/// Whether a stream may go from `before` to `after` by queueing `added` for a captured
/// chunk, or for its absence.
pub open spec fn queued_for<D: Fn(Sample, Sample) -> Sample>(
    mix: D,
    before: StreamView,
    after: StreamView,
    chunk: Option<AudioSamples>,
    triggered: bool,
    added: Seq<Sample>,
) -> bool {
    &&& before.state.contributes(mix, samples_of(chunk), triggered, added)
    &&& after.state == before.state.after_chunk(chunk is Some, triggered, added)
    &&& after.ends == before.ends
}

/// Whether a stream may go from `before` to `after` by waiting for a captured chunk:
/// the channel gave `chunk`, and `added` was queued for it.
pub open spec fn got<D: Fn(Sample, Sample) -> Sample>(
    mix: D,
    before: StreamView,
    after: StreamView,
    chunk: Option<AudioSamples>,
    triggered: bool,
    added: Seq<Sample>,
) -> bool {
    &&& channel::was_received(before.ends.receiver, before.state.capture_timeout, chunk)
    &&& queued_for(mix, before, after, chunk, triggered, added)
}

/// Whether a stream may go from `before` to `after` by a read into a buffer that held
/// `buf` and then holds `filled`, with the outcome `r`.
pub open spec fn filled<C: Fn(BitDepth, Sample) -> i32>(
    convert: C,
    before: StreamView,
    after: StreamView,
    buf: Seq<u8>,
    filled: Seq<u8>,
    r: Fill,
) -> bool {
    let st = before.state;
    let len = buf.len();
    &&& after.ends == before.ends
    &&& len <= usize::MAX
    &&& if st.header_pending() {
        &&& r == Fill::Header(st.header.len() as usize)
        &&& filled == overwritten(buf, 0, st.header)
        &&& after.state == st.after_header()
    } else if len == 0 {
        &&& r == Fill::EmptyBuffer
        &&& filled == buf
        &&& after.state == st
    } else if st.chunks_in(len) == 0 {
        &&& r == Fill::PartialBuffer
        &&& filled == buf
        &&& after.state == st
    } else if st.fifo.len() < st.samples_in(len) {
        &&& r == Fill::NeedSamples
        &&& filled == buf
        &&& after.state == st
    } else {
        &&& r == Fill::Pcm(st.bytes_in(len) as usize)
        &&& after.state == st.after_samples(st.samples_in(len))
        &&& exists|converted: Seq<i32>|
            {
                &&& #[trigger] converts(
                    convert,
                    st.depth(),
                    st.fifo.take(st.samples_in(len)),
                    converted,
                )
                &&& filled == overwritten(
                    buf,
                    0,
                    encoded_all(st.endian(), st.depth(), converted),
                )
            }
    }
}

/// The capture time-out of a configuration, in milliseconds.
pub open spec fn timeout_of(configured: Option<u32>) -> u32 {
    match configured {
        Some(ms) => ms,
        None => DEFAULT_CAPTURE_TIMEOUT,
    }
}

/// A new stream.
pub open spec fn new_state(
    use_wave_format: bool,
    sample_rate: u32,
    bits_per_sample: u16,
    format: StreamingFormat,
    configured_timeout: Option<u32>,
) -> StreamState {
    StreamState {
        fifo: Seq::empty(),
        silence: Seq::new(
            silence_len(sample_rate, (timeout_of(configured_timeout) / 4) as u64) as nat,
            |i: int| crate::sample::SILENT,
        ),
        capture_timeout: timeout_of(configured_timeout) as u64,
        sending_silence: false,
        header: stream_header(format, sample_rate, bits_per_sample),
        use_wave_format,
        bits_per_sample,
    }
}

/// Calls `Itertools::chunks`: the items in groups of `size`, in their order. The
/// last group is shorter when there are not enough.
#[verifier::external_body]
fn in_chunks(samples: VecDeque<Sample>, size: usize) -> (r: Vec<Vec<Sample>>)
    requires
        size > 0,
    ensures
        r@.len() == (samples@.len() + size - 1) / size as int,
        forall|k: int|
            0 <= k < r@.len() ==> (#[trigger] r@[k])@ == samples@.subrange(
                k * size,
                if (k + 1) * size <= samples@.len() {
                    (k + 1) * size
                } else {
                    samples@.len() as int
                },
            ),
{
    let chunks = samples.into_iter().chunks(size);
    let r = chunks.into_iter().map(|chunk| chunk.collect()).collect();
    r
}

/// The samples of a chunk, as `convert` scales each of them to the depth.
fn convert_all<C: Fn(BitDepth, Sample) -> i32>(
    convert: &C,
    depth: BitDepth,
    chunk: &Vec<Sample>,
) -> (ints: Vec<i32>)
    requires
        forall|d: BitDepth, s: Sample| #[trigger] convert.requires((d, s)),
    ensures
        converts(*convert, depth, chunk@, ints@),
{
    let mut ints: Vec<i32> = Vec::with_capacity(chunk.len());
    let mut j: usize = 0;
    while j < chunk.len()
        invariant
            j <= chunk@.len(),
            ints@.len() == j,
            forall|d: BitDepth, s: Sample| #[trigger] convert.requires((d, s)),
            forall|i: int| 0 <= i < j ==> convert.ensures((depth, chunk@[i]), #[trigger] ints@[i]),
        decreases chunk@.len() - j,
    {
        let v: i32 = convert(depth, chunk[j]);
        ints.push(v);
        j += 1;
    }
    ints
}

/// What is put into the channel behind so many chunks: the new chunk, which is handed
/// back when too many wait. The bound keeps memory in check when streaming stalls.
pub fn admitted(queued: usize, samples: AudioSamples) -> (r: Result<AudioSamples, AudioSamples>)
    ensures
        r == if queued < MAX_QUEUED_CHUNKS {
            Ok::<AudioSamples, AudioSamples>(samples)
        } else {
            Err(samples)
        },
{
    if queued < MAX_QUEUED_CHUNKS {
        Ok(samples)
    } else {
        Err(samples)
    }
}

/// What became of a captured chunk before which `queued` others were found waiting.
#[derive(Debug)]
pub enum Delivery {
    /// It was put into the channel.
    Sent { queued: usize },
    /// No reader is left: the chunk is handed back.
    Refused { queued: usize, chunk: AudioSamples },
    /// Too many wait: the chunk is not put there but handed back.
    Dropped { queued: usize, chunk: AudioSamples },
}

/// The transport of samples from capture to one HTTP client.
pub struct ChannelStream {
    pub s: Sender<AudioSamples>,
    pub r: Receiver<AudioSamples>,
    pub remote_ip: EcoString,
    pub streaming_format: StreamingFormat,
    fifo: VecDeque<Sample>,
    silence: Vec<Sample>,
    capture_timeout: u64,
    sending_silence: bool,
    wav_hdr: Vec<u8>,
    use_wave_format: bool,
    bits_per_sample: u16,
}

impl ChannelStream {
    /// All that the stream holds.
    pub closed spec fn view(&self) -> StreamView {
        StreamView {
            state: StreamState {
                fifo: self.fifo@,
                silence: self.silence@,
                capture_timeout: self.capture_timeout,
                sending_silence: self.sending_silence,
                header: self.wav_hdr@,
                use_wave_format: self.use_wave_format,
                bits_per_sample: self.bits_per_sample,
            },
            ends: StreamEnds {
                sender: self.s,
                receiver: self.r,
                remote_ip: self.remote_ip,
                format: self.streaming_format,
            },
        }
    }

    /// Whether a stream of this format, rate and depth can be made: its header can be
    /// written and its silence fits in memory.
    pub fn can_create(
        sample_rate: u32,
        bits_per_sample: u16,
        streaming_format: StreamingFormat,
        configured_timeout: Option<u32>,
    ) -> (r: bool)
        ensures
            r == (header_fits(streaming_format, sample_rate, bits_per_sample) && silence_len(
                sample_rate,
                (timeout_of(configured_timeout) / 4) as u64,
            ) * 4 <= isize::MAX),
    {
        let timeout: u32 = match configured_timeout {
            Some(ms) => ms,
            None => DEFAULT_CAPTURE_TIMEOUT,
        };
        let frame: u64 = 2 * (bits_per_sample as u64 / 8);
        proof {
            assert(sample_rate * frame <= 0x1_0000_0000 * 0x4000) by (nonlinear_arith)
                requires
                    sample_rate <= 0xffff_ffff,
                    0 <= frame <= 0x4000,
            ;
            assert(0 <= sample_rate * 2 * (timeout / 4) <= u64::MAX) by (nonlinear_arith)
                requires
                    0 <= sample_rate <= 0xffff_ffff,
                    0 <= timeout / 4 <= 0x4000_0000,
            ;
        }
        let has_header: bool = streaming_format == StreamingFormat::Wav || streaming_format
            == StreamingFormat::Rf64;
        let rate_fits: bool = !has_header || sample_rate as u64 * frame <= u32::MAX as u64;
        let depth_fits: bool = streaming_format != StreamingFormat::Rf64 || bits_per_sample >= 8;
        let samples: u64 = sample_rate as u64 * 2 * (timeout / 4) as u64 / 1000;
        rate_fits && depth_fits && samples as u128 * 4 <= isize::MAX as u128
    }

    /// A stream to a client, with the capture time-out that is configured.
    pub fn new(
        tx: Sender<AudioSamples>,
        rx: Receiver<AudioSamples>,
        remote_ip_addr: EcoString,
        use_wave_format: bool,
        sample_rate: u32,
        bits_per_sample: u16,
        streaming_format: StreamingFormat,
        configured_timeout: Option<u32>,
    ) -> (stream: ChannelStream)
        requires
            header_fits(streaming_format, sample_rate, bits_per_sample),
            silence_len(sample_rate, (timeout_of(configured_timeout) / 4) as u64) * 4 <= isize::MAX,
        ensures
            stream@.ends == (StreamEnds {
                sender: tx,
                receiver: rx,
                remote_ip: remote_ip_addr,
                format: streaming_format,
            }),
            stream@.state == new_state(
                use_wave_format,
                sample_rate,
                bits_per_sample,
                streaming_format,
                configured_timeout,
            ),
    {
        let capture_timeout: u32 = match configured_timeout {
            Some(ms) => ms,
            None => DEFAULT_CAPTURE_TIMEOUT,
        };
        proof {
            assert(sample_rate * 2 * (capture_timeout / 4) <= u64::MAX) by (nonlinear_arith)
                requires
                    sample_rate <= 0xffff_ffff,
                    capture_timeout / 4 <= 0x4000_0000,
                    capture_timeout / 4 >= 0,
            ;
        }
        let wav_hdr: Vec<u8> = match streaming_format {
            StreamingFormat::Wav => create_wav_hdr(sample_rate, bits_per_sample),
            StreamingFormat::Rf64 => create_rf64_hdr(sample_rate, bits_per_sample),
            _ => Vec::new(),
        };
        ChannelStream {
            s: tx,
            r: rx,
            remote_ip: remote_ip_addr,
            streaming_format,
            fifo: VecDeque::with_capacity(16384),
            silence: get_silence_buffer(sample_rate, (capture_timeout / 4) as u64),
            capture_timeout: capture_timeout as u64,
            sending_silence: false,
            wav_hdr,
            use_wave_format,
            bits_per_sample,
        }
    }

    /// Puts a captured chunk into the channel, unless too many wait there. Says how
    /// many it found there and what became of the chunk: it is handed back unsent exactly
    /// when they are too many, and handed back when no reader is left.
    ///
    /// How many wait, and whether a reader is left, is up to other threads and is
    /// not stated; see [`admitted`] for the decision.
    pub fn write(&self, samples: AudioSamples) -> (r: Delivery)
        ensures
            match r {
                Delivery::Sent { queued } => {
                    &&& queued < MAX_QUEUED_CHUNKS
                    &&& channel::was_counted(self@.ends.sender, queued)
                    &&& channel::was_put(self@.ends.sender, samples, Ok(()))
                },
                Delivery::Refused { queued, chunk } => {
                    &&& queued < MAX_QUEUED_CHUNKS
                    &&& chunk == samples
                    &&& channel::was_counted(self@.ends.sender, queued)
                    &&& channel::was_put(self@.ends.sender, samples, Err(chunk))
                },
                Delivery::Dropped { queued, chunk } => {
                    &&& queued >= MAX_QUEUED_CHUNKS
                    &&& chunk == samples
                    &&& channel::was_counted(self@.ends.sender, queued)
                },
            },
    {
        let queued: usize = channel::queued(&self.s);
        assert(channel::was_counted(self.s, queued));
        match admitted(queued, samples) {
            Ok(chunk) => {
                let sent: Result<(), AudioSamples> = channel::send(&self.s, chunk);
                assert(channel::was_put(self.s, samples, sent));
                match sent {
                    Ok(done) => {
                        assert(done == ());
                        Delivery::Sent { queued }
                    },
                    Err(chunk) => Delivery::Refused { queued, chunk },
                }
            },
            Err(chunk) => Delivery::Dropped { queued, chunk },
        }
    }

    /// Adds a captured chunk to the queue, or silence when none came. A pulse replaces the
    /// start of either when one was asked for. Else a quiet chunk is dithered, where `mix`
    /// adds a sample and its dither, and silence always is. Says what was done.
    pub fn add_samples<D: Fn(Sample, Sample) -> Sample>(
        &mut self,
        chunk: Option<AudioSamples>,
        triggered: bool,
        mix: &D,
    ) -> (r: Conditioned)
        requires
            forall|s: Sample, d: Sample| #[trigger] mix.requires((s, d)),
        ensures
            r == conditioning_of(samples_of(chunk), triggered),
            exists|added: Seq<Sample>| #[trigger]
                queued_for(*mix, old(self)@, final(self)@, chunk, triggered, added),
    {
        let captured: bool = chunk.is_some();
        let mut samples: Vec<Sample> = match &chunk {
            Some(samples) => (**samples).clone(),
            None => self.silence.clone(),
        };
        let ghost base = samples@;
        let r: Conditioned = if apply_latency_pulse_if_triggered(&mut samples, triggered) {
            Conditioned::Pulse
        } else if !captured {
            dither_silence(self.bits_per_sample, &mut samples);
            Conditioned::Dithered(DitherTag::RecvTimeoutSilence)
        } else if maybe_dither_quiet_capture(self.bits_per_sample, &mut samples, mix) {
            Conditioned::Dithered(DitherTag::CaptureOk)
        } else {
            Conditioned::Kept
        };
        let ghost added = samples@;
        assert(self@.state.contributes(*mix, samples_of(chunk), triggered, added));
        let ghost waiting = self.fifo@;
        let mut i: usize = 0;
        while i < samples.len()
            invariant
                i <= samples@.len(),
                self.fifo@ == waiting + samples@.take(i as int),
                self@.state == (StreamState { fifo: self.fifo@, ..old(self)@.state }),
                self@.ends == old(self)@.ends,
            decreases samples@.len() - i,
        {
            self.fifo.push_back(samples[i]);
            i += 1;
            assert(self.fifo@ =~= waiting + samples@.take(i as int));
        }
        assert(samples@.take(i as int) =~= samples@);
        self.sending_silence = !captured && !triggered;
        assert(queued_for(*mix, old(self)@, self@, chunk, triggered, added));
        r
    }

    /// Waits for a captured chunk, for no longer than the capture time-out, then
    /// asks `trigger` whether a pulse is wanted, and adds what comes of it to the
    /// queue. Says what was done to it.
    ///
    /// Which chunk comes, if any, is up to the capturing thread and is not stated;
    /// see [`ChannelStream::add_samples`] for what is made of it.
    pub fn get_samples<T: Fn() -> bool, D: Fn(Sample, Sample) -> Sample>(
        &mut self,
        trigger: T,
        mix: &D,
    ) -> (r: Conditioned)
        requires
            trigger.requires(()),
            forall|s: Sample, d: Sample| #[trigger] mix.requires((s, d)),
        ensures
            trigger.ensures((), r is Pulse),
            exists|chunk: Option<AudioSamples>, added: Seq<Sample>|
                {
                    &&& #[trigger] got(*mix, old(self)@, final(self)@, chunk, r is Pulse, added)
                    &&& r == conditioning_of(samples_of(chunk), r is Pulse)
                },
    {
        let chunk: Option<AudioSamples> = channel::receive_within(&self.r, self.capture_timeout);
        let triggered: bool = trigger();
        assert(channel::was_received(self.r, self.capture_timeout, chunk));
        let ghost came = chunk;
        let r: Conditioned = self.add_samples(chunk, triggered, mix);
        proof {
            let added = choose|added: Seq<Sample>| #[trigger]
                queued_for(*mix, old(self)@, self@, came, triggered, added);
            assert(got(*mix, old(self)@, self@, came, triggered, added));
        }
        r
    }

    /// Whether a buffer of this length can be read into.
    pub fn can_read(&self, len: usize) -> (r: bool)
        ensures
            r == self@.state.readable(len as nat),
    {
        if self.use_wave_format && !self.wav_hdr.is_empty() {
            len >= self.wav_hdr.len()
        } else {
            len == 0 || (self.bits_per_sample >= 8 && (len < 4 * (self.bits_per_sample as usize / 8)
                || self.bits_per_sample == 16 || self.bits_per_sample == 24))
        }
    }

    /// Fills the read buffer of an HTTP client: first with the header, where the
    /// stream has one, then with as many samples as fit, four at a time.
    ///
    /// The samples are the next ones of the queue, as `convert` scales them to the
    /// depth of the stream. When there are not enough of them nothing is read, and
    /// [`ChannelStream::get_samples`] has to be called first.
    pub fn fill_lpcm_buffer<C: Fn(BitDepth, Sample) -> i32>(
        &mut self,
        buf: &mut [u8],
        convert: C,
    ) -> (r: Fill)
        requires
            old(self)@.state.readable(old(buf)@.len()),
            forall|d: BitDepth, s: Sample| #[trigger] convert.requires((d, s)),
        ensures
            filled(convert, old(self)@, final(self)@, old(buf)@, final(buf)@, r),
    {
        let ghost st = old(self)@.state;
        let ghost original = old(buf)@;
        let len: usize = buf.len();
        if self.use_wave_format && !self.wav_hdr.is_empty() {
            let n: usize = self.wav_hdr.len();
            let mut i: usize = 0;
            while i < n
                invariant
                    i <= n,
                    n == self.wav_hdr@.len(),
                    n <= buf@.len(),
                    buf@.len() == original.len(),
                    forall|k: int| 0 <= k < i ==> buf@[k] == self.wav_hdr@[k],
                    forall|k: int| i <= k < buf@.len() ==> buf@[k] == original[k],
                decreases n - i,
            {
                buf[i] = self.wav_hdr[i];
                i += 1;
            }
            assert(buf@ =~= overwritten(original, 0, st.header));
            self.wav_hdr.clear();
            return Fill::Header(n);
        }
        if len == 0 {
            return Fill::EmptyBuffer;
        }
        let bytes_per_sample: usize = self.bits_per_sample as usize / 8;
        let chunk_bytes: usize = bytes_per_sample * 4;
        let chunks_needed: usize = len / chunk_bytes;
        if chunks_needed == 0 {
            return Fill::PartialBuffer;
        }
        proof {
            vstd::arithmetic::div_mod::lemma_fundamental_div_mod(len as int, chunk_bytes as int);
            vstd::arithmetic::div_mod::lemma_mod_bound(len as int, chunk_bytes as int);
            assert(chunk_bytes * chunks_needed == chunks_needed * chunk_bytes) by (nonlinear_arith);
            assert(chunks_needed * chunk_bytes >= chunks_needed * 4) by (nonlinear_arith)
                requires
                    chunk_bytes >= 4,
                    chunks_needed >= 0,
            ;
            if len < chunk_bytes {
                vstd::arithmetic::div_mod::lemma_basic_div(len as int, chunk_bytes as int);
            }
        }
        let samples_needed: usize = chunks_needed * CHUNK_SIZE;
        if self.fifo.len() < samples_needed {
            return Fill::NeedSamples;
        }
        let mut drained: VecDeque<Sample> = self.fifo.split_off(samples_needed);
        std::mem::swap(&mut drained, &mut self.fifo);
        let ghost samples = drained@;
        assert(samples =~= st.fifo.take(samples_needed as int));
        assert(self.fifo@ =~= st.fifo.skip(samples_needed as int));
        let chunks: Vec<Vec<Sample>> = in_chunks(drained, CHUNK_SIZE);
        let endian: Endian = Endian::from_wave_format(self.use_wave_format);
        let depth: BitDepth = BitDepth::from_bits(self.bits_per_sample);
        let ghost mut converted: Seq<i32> = Seq::empty();
        let mut k: usize = 0;
        let mut pos: usize = 0;
        assert(buf@ =~= overwritten(original, 0, encoded_all(endian, depth, converted)));
        while k < chunks_needed
            invariant
                k <= chunks_needed,
                chunks@.len() == chunks_needed,
                samples.len() == 4 * chunks_needed,
                forall|c: int|
                    0 <= c < chunks_needed ==> (#[trigger] chunks@[c])@ == samples.subrange(
                        4 * c,
                        4 * c + 4,
                    ),
                chunk_bytes == 4 * depth.bytes(),
                pos == k * chunk_bytes,
                chunks_needed * chunk_bytes <= len,
                buf@.len() == len,
                original.len() == len,
                forall|d: BitDepth, s: Sample| #[trigger] convert.requires((d, s)),
                converts(convert, depth, samples.take(4 * k), converted),
                buf@ == overwritten(original, 0, encoded_all(endian, depth, converted)),
            decreases chunks_needed - k,
        {
            let chunk: &Vec<Sample> = &chunks[k];
            let ints: Vec<i32> = convert_all(&convert, depth, chunk);
            let ghost next = converted + ints@;
            proof {
                assert((k + 1) * chunk_bytes <= chunks_needed * chunk_bytes) by (nonlinear_arith)
                    requires
                        k + 1 <= chunks_needed,
                        chunk_bytes >= 0,
                ;
                assert((k + 1) * chunk_bytes == k * chunk_bytes + chunk_bytes) by (nonlinear_arith);
                assert(4 * k * depth.bytes() == k * (4 * depth.bytes())) by (nonlinear_arith);
                crate::utils::samples_conv::lemma_encoded_all_len(endian, depth, converted);
                crate::utils::samples_conv::lemma_encoded_all_len(endian, depth, ints@);
                crate::utils::samples_conv::law_encoding_concatenates(
                    endian,
                    depth,
                    converted,
                    ints@,
                );
                assert(converts(convert, depth, samples.take(4 * (k + 1)), next)) by {
                    assert forall|i: int| 0 <= i < 4 * (k + 1) implies convert.ensures(
                        (depth, samples.take(4 * (k + 1))[i]),
                        #[trigger] next[i],
                    ) by {
                        if i < 4 * k {
                            assert(samples.take(4 * k)[i] == samples[i]);
                            assert(next[i] == converted[i]);
                        } else {
                            assert(chunk@[i - 4 * k] == samples[i]);
                            assert(next[i] == ints@[i - 4 * k]);
                        }
                    }
                }
            }
            put_samples(endian, depth, &ints, buf, pos);
            assert(buf@ =~= overwritten(original, 0, encoded_all(endian, depth, next)));
            proof {
                converted = next;
            }
            pos += chunk_bytes;
            k += 1;
        }
        assert(samples.take(4 * k) =~= samples);
        Fill::Pcm(pos)
    }
}

impl Clone for ChannelStream {
    fn clone(&self) -> (r: ChannelStream)
        ensures
            r@.state == self@.state,
            cloned::<Sender<AudioSamples>>(self@.ends.sender, r@.ends.sender),
            cloned::<Receiver<AudioSamples>>(self@.ends.receiver, r@.ends.receiver),
            r@.ends.format == self@.ends.format,
            eco_text(r@.ends.remote_ip) == eco_text(self@.ends.remote_ip),
    {
        let fifo: VecDeque<Sample> = self.fifo.clone();
        let silence: Vec<Sample> = self.silence.clone();
        let wav_hdr: Vec<u8> = self.wav_hdr.clone();
        assert(fifo@ =~= self.fifo@);
        assert(silence@ =~= self.silence@);
        assert(wav_hdr@ =~= self.wav_hdr@);
        ChannelStream {
            s: self.s.clone(),
            r: self.r.clone(),
            remote_ip: self.remote_ip.clone(),
            streaming_format: self.streaming_format,
            fifo,
            silence,
            capture_timeout: self.capture_timeout,
            sending_silence: self.sending_silence,
            wav_hdr,
            use_wave_format: self.use_wave_format,
            bits_per_sample: self.bits_per_sample,
        }
    }
}

/// The bytes that are sent for samples, where `convert` scales each of them.
pub open spec fn sent_for(
    st: StreamState,
    convert: spec_fn(Sample) -> i32,
    samples: Seq<Sample>,
) -> Seq<u8> {
    encoded_all(st.endian(), st.depth(), samples.map_values(convert))
}

/// The bytes of samples one after the other are those of all of them.
proof fn lemma_sent_concat(
    st: StreamState,
    convert: spec_fn(Sample) -> i32,
    a: Seq<Sample>,
    b: Seq<Sample>,
)
    ensures
        sent_for(st, convert, a + b) == sent_for(st, convert, a) + sent_for(st, convert, b),
{
    assert((a + b).map_values(convert) =~= a.map_values(convert) + b.map_values(convert));
    crate::utils::samples_conv::law_encoding_concatenates(
        st.endian(),
        st.depth(),
        a.map_values(convert),
        b.map_values(convert),
    );
}

/// Whether `convert` gives one value for each depth and sample.
pub open spec fn one_valued<C: Fn(BitDepth, Sample) -> i32>(convert: C) -> bool {
    forall|depth: BitDepth, s: Sample, u: i32, v: i32| #[trigger]
        convert.ensures((depth, s), u) && #[trigger] convert.ensures((depth, s), v) ==> u == v
}

/// The value that `convert` gives for a sample.
pub open spec fn value_of<C: Fn(BitDepth, Sample) -> i32>(
    convert: C,
    depth: BitDepth,
) -> spec_fn(Sample) -> i32 {
    |s: Sample| choose|v: i32| convert.ensures((depth, s), v)
}

/// What the values that `convert` gives for samples are.
proof fn lemma_converted<C: Fn(BitDepth, Sample) -> i32>(
    convert: C,
    depth: BitDepth,
    samples: Seq<Sample>,
    converted: Seq<i32>,
)
    requires
        one_valued(convert),
        converts(convert, depth, samples, converted),
    ensures
        converted == samples.map_values(value_of(convert, depth)),
{
    let values = samples.map_values(value_of(convert, depth));
    assert forall|i: int| 0 <= i < samples.len() implies converted[i] == values[i] by {
        assert(convert.ensures((depth, samples[i]), converted[i]));
        let v = choose|v: i32| convert.ensures((depth, samples[i]), v);
        assert(convert.ensures((depth, samples[i]), v));
    }
    assert(converted =~= values);
}

/// A call that reads a stream or waits for a chunk, and what came of it.
pub enum StreamCall {
    /// A call of [`ChannelStream::get_samples`].
    Got { chunk: Option<AudioSamples>, pulse: bool, added: Seq<Sample> },
    /// A call of [`ChannelStream::fill_lpcm_buffer`].
    Filled { buf: Seq<u8>, filled: Seq<u8>, fill: Fill },
}

/// Whether the call may lead from one view of a stream to the next.
pub open spec fn made<C: Fn(BitDepth, Sample) -> i32, D: Fn(Sample, Sample) -> Sample>(
    convert: C,
    mix: D,
    call: StreamCall,
    before: StreamView,
    after: StreamView,
) -> bool {
    match call {
        StreamCall::Got { chunk, pulse, added } => got(mix, before, after, chunk, pulse, added),
        StreamCall::Filled { buf, filled, fill } => self::filled(
            convert,
            before,
            after,
            buf,
            filled,
            fill,
        ),
    }
}

/// Whether the calls may lead through these views of a stream, one after the other.
pub open spec fn is_run<C: Fn(BitDepth, Sample) -> i32, D: Fn(Sample, Sample) -> Sample>(
    convert: C,
    mix: D,
    calls: Seq<StreamCall>,
    views: Seq<StreamView>,
) -> bool {
    &&& views.len() == calls.len() + 1
    &&& forall|i: int|
        0 <= i < calls.len() ==> made(convert, mix, #[trigger] calls[i], views[i], views[i + 1])
}

/// The samples that the calls add to the queue.
pub open spec fn added_by(calls: Seq<StreamCall>) -> Seq<Sample>
    decreases calls.len(),
{
    if calls.len() == 0 {
        Seq::empty()
    } else {
        added_by(calls.drop_last()) + match calls.last() {
            StreamCall::Got { added, .. } => added,
            StreamCall::Filled { .. } => Seq::empty(),
        }
    }
}

/// The bytes of samples that the calls read.
pub open spec fn bytes_read_by(calls: Seq<StreamCall>) -> Seq<u8>
    decreases calls.len(),
{
    if calls.len() == 0 {
        Seq::empty()
    } else {
        bytes_read_by(calls.drop_last()) + match calls.last() {
            StreamCall::Filled { filled, fill: Fill::Pcm(n), .. } => filled.take(n as int),
            _ => Seq::empty(),
        }
    }
}

/// The chunks that the calls got out of the channel.
pub open spec fn received_by(calls: Seq<StreamCall>) -> Seq<AudioSamples>
    decreases calls.len(),
{
    if calls.len() == 0 {
        Seq::empty()
    } else {
        let before = received_by(calls.drop_last());
        match calls.last() {
            StreamCall::Got { chunk: Some(samples), .. } => before.push(samples),
            _ => before,
        }
    }
}

/// The samples of chunks, one after the other.
pub open spec fn joined(chunks: Seq<AudioSamples>) -> Seq<Sample>
    decreases chunks.len(),
{
    if chunks.len() == 0 {
        Seq::empty()
    } else {
        joined(chunks.drop_last()) + chunks.last()@
    }
}

/// What one read of samples gives: the bytes of the next samples of the queue.
proof fn lemma_read<C: Fn(BitDepth, Sample) -> i32>(
    convert: C,
    before: StreamView,
    after: StreamView,
    buf: Seq<u8>,
    out: Seq<u8>,
    n: usize,
)
    requires
        one_valued(convert),
        BitDepth::is_depth(before.state.bits_per_sample),
        filled(convert, before, after, buf, out, Fill::Pcm(n)),
    ensures
        ({
            let st = before.state;
            let count = st.samples_in(buf.len());
            &&& 0 <= count <= st.fifo.len()
            &&& n == st.bytes_in(buf.len()) == count * st.depth().bytes()
            &&& n <= buf.len() == out.len()
            &&& buf.len() as int % st.chunk_bytes() == 0 ==> n == buf.len()
            &&& out.take(n as int) == sent_for(
                st,
                value_of(convert, st.depth()),
                st.fifo.take(count),
            )
            &&& after.state == st.after_samples(count)
        }),
{
    let st = before.state;
    let count = st.samples_in(buf.len());
    law_reads_are_whole_chunks(st, buf.len());
    assert(st.chunks_in(buf.len()) >= 0) by (nonlinear_arith)
        requires
            st.chunks_in(buf.len()) == buf.len() as int / st.chunk_bytes(),
            st.chunk_bytes() > 0,
    ;
    let converted = choose|converted: Seq<i32>|
        {
            &&& #[trigger] converts(convert, st.depth(), st.fifo.take(count), converted)
            &&& out == overwritten(buf, 0, encoded_all(st.endian(), st.depth(), converted))
        };
    lemma_converted(convert, st.depth(), st.fifo.take(count), converted);
    crate::utils::samples_conv::lemma_encoded_all_len(st.endian(), st.depth(), converted);
    assert(out.take(n as int) =~= encoded_all(st.endian(), st.depth(), converted));
}

/// Whether the calls led from `first` to `end` and read `n` samples: those that waited at
/// first and those that were added come out in their order. A header may be read too.
spec fn in_order<C: Fn(BitDepth, Sample) -> i32>(
    convert: C,
    first: StreamView,
    calls: Seq<StreamCall>,
    end: StreamView,
    n: int,
) -> bool {
    let st = first.state;
    let all = st.fifo + added_by(calls);
    &&& 0 <= n <= all.len()
    &&& bytes_read_by(calls).len() == n * st.depth().bytes()
    &&& bytes_read_by(calls) == sent_for(st, value_of(convert, st.depth()), all.take(n))
    &&& end.state == (StreamState {
        fifo: all.skip(n),
        sending_silence: end.state.sending_silence,
        header: end.state.header,
        ..st
    })
    &&& end.state.header == st.header || end.state.header.len() == 0
    &&& end.ends == first.ends
}

/// One more call that waits for a chunk keeps the order.
proof fn lemma_got_in_order<
    C: Fn(BitDepth, Sample) -> i32,
    D: Fn(Sample, Sample) -> Sample,
>(
    convert: C,
    mix: D,
    first: StreamView,
    calls: Seq<StreamCall>,
    before: StreamView,
    after: StreamView,
    m: int,
)
    requires
        calls.len() > 0,
        calls.last() is Got,
        in_order(convert, first, calls.drop_last(), before, m),
        made(convert, mix, calls.last(), before, after),
    ensures
        in_order(convert, first, calls, after, m),
{
    let st = first.state;
    let all0 = st.fifo + added_by(calls.drop_last());
    let all = st.fifo + added_by(calls);
    assert(all.take(m) =~= all0.take(m));
    assert(all.skip(m) =~= after.state.fifo);
    assert(bytes_read_by(calls) =~= bytes_read_by(calls.drop_last()));
}

/// One more read of `count` samples keeps the order.
proof fn lemma_samples_in_order<C: Fn(BitDepth, Sample) -> i32>(
    convert: C,
    first: StreamView,
    calls: Seq<StreamCall>,
    before: StreamView,
    after: StreamView,
    m: int,
    count: int,
    bytes: Seq<u8>,
)
    requires
        calls.len() > 0,
        in_order(convert, first, calls.drop_last(), before, m),
        added_by(calls) == added_by(calls.drop_last()),
        bytes_read_by(calls) == bytes_read_by(calls.drop_last()) + bytes,
        0 <= count <= before.state.fifo.len(),
        bytes.len() == count * first.state.depth().bytes(),
        bytes == sent_for(
            first.state,
            value_of(convert, first.state.depth()),
            before.state.fifo.take(count),
        ),
        after.state == before.state.after_samples(count),
        after.ends == before.ends,
    ensures
        in_order(convert, first, calls, after, m + count),
{
    let st = first.state;
    let f = value_of(convert, st.depth());
    let all = st.fifo + added_by(calls);
    let b = st.depth().bytes() as int;
    assert((m + count) * b == m * b + count * b) by (nonlinear_arith);
    assert(all.take(m + count) =~= all.take(m) + all.skip(m).take(count));
    assert(all.skip(m).skip(count) =~= all.skip(m + count));
    lemma_sent_concat(st, f, all.take(m), all.skip(m).take(count));
}

/// One more read that gives no samples keeps the order.
proof fn lemma_no_samples_in_order<C: Fn(BitDepth, Sample) -> i32>(
    convert: C,
    first: StreamView,
    calls: Seq<StreamCall>,
    before: StreamView,
    after: StreamView,
    m: int,
)
    requires
        calls.len() > 0,
        in_order(convert, first, calls.drop_last(), before, m),
        added_by(calls) == added_by(calls.drop_last()),
        bytes_read_by(calls) == bytes_read_by(calls.drop_last()),
        after.state == before.state || after.state == before.state.after_header(),
        after.ends == before.ends,
    ensures
        in_order(convert, first, calls, after, m),
{
}

/// One more read keeps the order.
proof fn lemma_filled_in_order<C: Fn(BitDepth, Sample) -> i32, D: Fn(Sample, Sample) -> Sample>(
    convert: C,
    mix: D,
    first: StreamView,
    calls: Seq<StreamCall>,
    before: StreamView,
    after: StreamView,
    m: int,
) -> (n: int)
    requires
        one_valued(convert),
        BitDepth::is_depth(first.state.bits_per_sample),
        calls.len() > 0,
        calls.last() is Filled,
        in_order(convert, first, calls.drop_last(), before, m),
        made(convert, mix, calls.last(), before, after),
    ensures
        in_order(convert, first, calls, after, n),
{
    assert(added_by(calls) =~= added_by(calls.drop_last()));
    assert(before.state.bits_per_sample == first.state.bits_per_sample);
    assert(before.state.use_wave_format == first.state.use_wave_format);
    match calls.last() {
        StreamCall::Filled { buf, filled, fill: Fill::Pcm(size) } => {
            lemma_read(convert, before, after, buf, filled, size);
            let count = before.state.samples_in(buf.len());
            let bytes = filled.take(size as int);
            lemma_samples_in_order(convert, first, calls, before, after, m, count, bytes);
            m + count
        },
        _ => {
            assert(bytes_read_by(calls) =~= bytes_read_by(calls.drop_last()));
            lemma_no_samples_in_order(convert, first, calls, before, after, m);
            m
        },
    }
}

/// A run of calls reads samples in their order.
proof fn lemma_run<
    C: Fn(BitDepth, Sample) -> i32,
    D: Fn(Sample, Sample) -> Sample,
>(
    convert: C,
    mix: D,
    calls: Seq<StreamCall>,
    views: Seq<StreamView>,
) -> (n: int)
    requires
        one_valued(convert),
        is_run(convert, mix, calls, views),
        BitDepth::is_depth(views[0].state.bits_per_sample),
    ensures
        in_order(convert, views[0], calls, views.last(), n),
    decreases calls.len(),
{
    if calls.len() == 0 {
        let st = views[0].state;
        let all = st.fifo + added_by(calls);
        assert(all.take(0).map_values(value_of(convert, st.depth())) =~= Seq::empty());
        assert(all.skip(0) =~= st.fifo);
        0
    } else {
        let calls0 = calls.drop_last();
        let views0 = views.drop_last();
        assert forall|i: int| 0 <= i < calls0.len() implies made(
            convert,
            mix,
            #[trigger] calls0[i],
            views0[i],
            views0[i + 1],
        ) by {
            assert(calls0[i] == calls[i]);
        }
        let m = lemma_run(convert, mix, calls0, views0);
        let before = views[calls.len() - 1];
        let after = views[calls.len() as int];
        assert(views0.last() == before);
        assert(views.last() == after);
        assert(made(convert, mix, calls[calls.len() - 1], before, after));
        match calls.last() {
            StreamCall::Got { .. } => {
                lemma_got_in_order(convert, mix, views[0], calls, before, after, m);
                m
            },
            StreamCall::Filled { .. } => {
                lemma_filled_in_order(convert, mix, views[0], calls, before, after, m)
            },
        }
    }
}

/// A client gets the bytes of the samples in the order in which these came, each of them
/// once, however they were cut into chunks and reads: the bytes that were read and those
/// of the samples that still wait are those of what waited at first and of what was added.
pub proof fn law_client_gets_what_was_added<
    C: Fn(BitDepth, Sample) -> i32,
    D: Fn(Sample, Sample) -> Sample,
>(convert: C, mix: D, calls: Seq<StreamCall>, views: Seq<StreamView>)
    requires
        one_valued(convert),
        is_run(convert, mix, calls, views),
        BitDepth::is_depth(views[0].state.bits_per_sample),
    ensures
        ({
            let st = views[0].state;
            let f = value_of(convert, st.depth());
            bytes_read_by(calls) + sent_for(st, f, views.last().state.fifo) == sent_for(
                st,
                f,
                st.fifo + added_by(calls),
            )
        }),
{
    let st = views[0].state;
    let f = value_of(convert, st.depth());
    let n = lemma_run(convert, mix, calls, views);
    let all = st.fifo + added_by(calls);
    lemma_sent_concat(st, f, all.take(n), all.skip(n));
    assert(all.take(n) + all.skip(n) =~= all);
}

/// How reads are split does not change what is read: two streams in the same state, to
/// which the same samples are added, and of which as many bytes are read, give the same
/// bytes and go on with the same samples.
pub proof fn law_reads_can_be_split<
    C: Fn(BitDepth, Sample) -> i32,
    D: Fn(Sample, Sample) -> Sample,
>(
    convert: C,
    mix: D,
    calls1: Seq<StreamCall>,
    views1: Seq<StreamView>,
    calls2: Seq<StreamCall>,
    views2: Seq<StreamView>,
)
    requires
        one_valued(convert),
        is_run(convert, mix, calls1, views1),
        is_run(convert, mix, calls2, views2),
        views1[0].state == views2[0].state,
        BitDepth::is_depth(views1[0].state.bits_per_sample),
        added_by(calls1) == added_by(calls2),
        bytes_read_by(calls1).len() == bytes_read_by(calls2).len(),
    ensures
        bytes_read_by(calls1) == bytes_read_by(calls2),
        views1.last().state.fifo == views2.last().state.fifo,
{
    let n1 = lemma_run(convert, mix, calls1, views1);
    let n2 = lemma_run(convert, mix, calls2, views2);
    let b = views1[0].state.depth().bytes() as int;
    assert(n1 == n2) by (nonlinear_arith)
        requires
            n1 * b == n2 * b,
            b > 0,
    ;
}

/// A read with room for whole groups of four samples alone fills its whole buffer, or
/// has to wait for more samples.
pub proof fn law_whole_buffers_are_filled<C: Fn(BitDepth, Sample) -> i32>(
    convert: C,
    before: StreamView,
    after: StreamView,
    buf: Seq<u8>,
    out: Seq<u8>,
    r: Fill,
)
    requires
        BitDepth::is_depth(before.state.bits_per_sample),
        !before.state.header_pending(),
        filled(convert, before, after, buf, out, r),
        buf.len() > 0,
        buf.len() as int % before.state.chunk_bytes() == 0,
    ensures
        r == if before.state.fifo.len() < before.state.samples_in(buf.len()) {
            Fill::NeedSamples
        } else {
            Fill::Pcm(buf.len() as usize)
        },
        r is Pcm && one_valued(convert) ==> out == sent_for(
            before.state,
            value_of(convert, before.state.depth()),
            before.state.fifo.take(before.state.samples_in(buf.len())),
        ),
{
    let st = before.state;
    law_reads_are_whole_chunks(st, buf.len());
    assert(st.chunks_in(buf.len()) != 0) by {
        if st.chunks_in(buf.len()) == 0 {
            assert(st.bytes_in(buf.len()) == 0);
        }
    }
    if r is Pcm && one_valued(convert) {
        lemma_read(convert, before, after, buf, out, r->Pcm_0);
        assert(out.take(buf.len() as int) =~= out);
    }
}

/// Whether the call got a chunk that is not quiet, without a pulse, if it waited for one.
pub open spec fn gets_audible(call: StreamCall) -> bool {
    match call {
        StreamCall::Got { chunk: Some(samples), pulse, .. } => !pulse && !is_quiet(samples@),
        StreamCall::Got { chunk: None, .. } => false,
        StreamCall::Filled { .. } => true,
    }
}

/// Chunks that were written are read back in the order in which they were written, none
/// of them lost, doubled or mixed with silence: where each call that waits for a chunk
/// gets the next one that was written, the bytes that are read, and those of the samples
/// that still wait, are the bytes of the chunks that came. A read with room for whole
/// groups of four samples fills its whole buffer as long as so many have come.
pub proof fn law_written_chunks_are_read_in_order<
    C: Fn(BitDepth, Sample) -> i32,
    D: Fn(Sample, Sample) -> Sample,
>(
    convert: C,
    mix: D,
    written: Seq<AudioSamples>,
    calls: Seq<StreamCall>,
    views: Seq<StreamView>,
)
    requires
        one_valued(convert),
        is_run(convert, mix, calls, views),
        BitDepth::is_depth(views[0].state.bits_per_sample),
        !views[0].state.header_pending(),
        views[0].state.fifo.len() == 0,
        received_by(calls).len() <= written.len(),
        received_by(calls) == written.take(received_by(calls).len() as int),
        forall|i: int| 0 <= i < calls.len() ==> gets_audible(#[trigger] calls[i]),
    ensures
        ({
            let st = views[0].state;
            let f = value_of(convert, st.depth());
            let sent = sent_for(st, f, joined(written.take(received_by(calls).len() as int)));
            &&& bytes_read_by(calls) + sent_for(st, f, views.last().state.fifo) == sent
            &&& bytes_read_by(calls) == sent.take(bytes_read_by(calls).len() as int)
        }),
        forall|i: int|
            0 <= i < calls.len() && room_is_whole(views[0].state, #[trigger] calls[i])
                && bytes_read_by(calls.take(i)).len() + room_of(calls[i]) <= joined(
                received_by(calls.take(i)),
            ).len() * views[0].state.depth().bytes() ==> fills_its_room(calls[i]),
{
    let st = views[0].state;
    let f = value_of(convert, st.depth());
    let n = lemma_run(convert, mix, calls, views);
    let all = st.fifo + added_by(calls);
    lemma_audible_added(convert, mix, calls, views);
    assert(all =~= joined(received_by(calls)));
    lemma_sent_concat(st, f, all.take(n), all.skip(n));
    assert(all.take(n) + all.skip(n) =~= all);
    let sent = bytes_read_by(calls) + sent_for(st, f, views.last().state.fifo);
    assert(bytes_read_by(calls) =~= sent.take(bytes_read_by(calls).len() as int));
    assert forall|i: int|
        0 <= i < calls.len() && room_is_whole(st, #[trigger] calls[i]) && bytes_read_by(
            calls.take(i),
        ).len() + room_of(calls[i]) <= joined(received_by(calls.take(i))).len()
            * st.depth().bytes() implies fills_its_room(calls[i]) by {
        lemma_room_is_filled(convert, mix, calls, views, i);
    }
}

/// How many bytes the buffer of a read holds.
pub open spec fn room_of(call: StreamCall) -> nat {
    match call {
        StreamCall::Filled { buf, .. } => buf.len(),
        StreamCall::Got { .. } => 0,
    }
}

/// Whether the call reads into a buffer that whole groups of four samples fill.
pub open spec fn room_is_whole(st: StreamState, call: StreamCall) -> bool {
    &&& call is Filled
    &&& room_of(call) > 0
    &&& room_of(call) as int % st.chunk_bytes() == 0
}

/// Whether the read fills its whole buffer.
pub open spec fn fills_its_room(call: StreamCall) -> bool {
    call matches StreamCall::Filled { buf, fill, .. } && fill == Fill::Pcm(buf.len() as usize)
}

/// A read fills its whole buffer as long as so many samples have come.
proof fn lemma_room_is_filled<
    C: Fn(BitDepth, Sample) -> i32,
    D: Fn(Sample, Sample) -> Sample,
>(
    convert: C,
    mix: D,
    calls: Seq<StreamCall>,
    views: Seq<StreamView>,
    i: int,
)
    requires
        one_valued(convert),
        is_run(convert, mix, calls, views),
        BitDepth::is_depth(views[0].state.bits_per_sample),
        !views[0].state.header_pending(),
        views[0].state.fifo.len() == 0,
        forall|k: int| 0 <= k < calls.len() ==> gets_audible(#[trigger] calls[k]),
        0 <= i < calls.len(),
        room_is_whole(views[0].state, calls[i]),
        bytes_read_by(calls.take(i)).len() + room_of(calls[i]) <= joined(
            received_by(calls.take(i)),
        ).len() * views[0].state.depth().bytes(),
    ensures
        fills_its_room(calls[i]),
{
    let st = views[0].state;
    let calls0 = calls.take(i);
    let views0 = views.take(i + 1);
    assert forall|k: int| 0 <= k < calls0.len() implies made(
        convert,
        mix,
        #[trigger] calls0[k],
        views0[k],
        views0[k + 1],
    ) && gets_audible(calls0[k]) by {
        assert(calls0[k] == calls[k]);
    }
    let n = lemma_run(convert, mix, calls0, views0);
    lemma_audible_added(convert, mix, calls0, views0);
    let all = st.fifo + added_by(calls0);
    assert(all =~= joined(received_by(calls0)));
    assert(views0.last() == views[i]);
    assert(made(convert, mix, calls[i], views[i], views[i + 1]));
    match calls[i] {
        StreamCall::Filled { buf, filled, fill } => {
            law_reads_are_whole_chunks(st, buf.len());
            let count = st.samples_in(buf.len());
            let b = st.depth().bytes() as int;
            let len = all.len() as int;
            assert(n + count <= len) by (nonlinear_arith)
                requires
                    n * b + count * b <= len * b,
                    b > 0,
            ;
            law_whole_buffers_are_filled(convert, views[i], views[i + 1], buf, filled, fill);
        },
        _ => {},
    }
}

/// Chunks that are not quiet are added as they are.
proof fn lemma_audible_added<C: Fn(BitDepth, Sample) -> i32, D: Fn(Sample, Sample) -> Sample>(
    convert: C,
    mix: D,
    calls: Seq<StreamCall>,
    views: Seq<StreamView>,
)
    requires
        is_run(convert, mix, calls, views),
        forall|i: int| 0 <= i < calls.len() ==> gets_audible(#[trigger] calls[i]),
    ensures
        added_by(calls) == joined(received_by(calls)),
    decreases calls.len(),
{
    if calls.len() > 0 {
        let calls0 = calls.drop_last();
        let views0 = views.drop_last();
        let last = calls.len() - 1;
        assert forall|i: int| 0 <= i < calls0.len() implies gets_audible(#[trigger] calls0[i])
            && made(convert, mix, calls0[i], views0[i], views0[i + 1]) by {
            assert(calls0[i] == calls[i]);
        }
        lemma_audible_added(convert, mix, calls0, views0);
        assert(gets_audible(calls[last]));
        assert(made(convert, mix, calls[last], views[last], views[last + 1]));
        let before = received_by(calls0);
        match calls.last() {
            StreamCall::Got { chunk: Some(samples), pulse, added } => {
                lemma_loud_is_kept(mix, views[last].state, samples@, added);
                assert(before.push(samples).drop_last() =~= before);
            },
            _ => {
                assert(added_by(calls) =~= added_by(calls0));
            },
        }
    }
}

/// A chunk that is not quiet is added as it is.
proof fn lemma_loud_is_kept<D: Fn(Sample, Sample) -> Sample>(
    mix: D,
    st: StreamState,
    chunk: Seq<Sample>,
    added: Seq<Sample>,
)
    requires
        !is_quiet(chunk),
        st.contributes(mix, Some(chunk), false, added),
    ensures
        added == chunk,
{
    if crate::utils::conditioning::is_digital_silence(chunk) {
        crate::utils::conditioning::lemma_silence_is_quiet(chunk);
    }
}

/// A stream with a header and one without carry the same samples, with the bytes of each
/// sample in reverse order.
pub proof fn law_byte_orders_mirror<C: Fn(BitDepth, Sample) -> i32>(
    convert: C,
    little0: StreamView,
    little1: StreamView,
    big0: StreamView,
    big1: StreamView,
    little_buf: Seq<u8>,
    little_out: Seq<u8>,
    big_buf: Seq<u8>,
    big_out: Seq<u8>,
    little_r: Fill,
    big_r: Fill,
)
    requires
        one_valued(convert),
        little0.state.use_wave_format,
        !big0.state.use_wave_format,
        !little0.state.header_pending(),
        little0.state.bits_per_sample == big0.state.bits_per_sample,
        BitDepth::is_depth(big0.state.bits_per_sample),
        little0.state.fifo == big0.state.fifo,
        little_buf.len() == big_buf.len(),
        filled(convert, little0, little1, little_buf, little_out, little_r),
        filled(convert, big0, big1, big_buf, big_out, big_r),
    ensures
        little_r == big_r,
        little1.state.fifo == big1.state.fifo,
        little_r is Pcm ==> ({
            let b = big0.state.depth().bytes() as int;
            forall|k: int, j: int|
                #![trigger little_out[k * b + j]]
                0 <= k < big0.state.samples_in(big_buf.len()) && 0 <= j < b ==> little_out[k * b + j]
                    == big_out[k * b + b - 1 - j]
        }),
{
    if little_r is Pcm {
        let n = little_r->Pcm_0;
        lemma_read(convert, little0, little1, little_buf, little_out, n);
        lemma_read(convert, big0, big1, big_buf, big_out, n);
        let depth = big0.state.depth();
        let b = depth.bytes() as int;
        let count = big0.state.samples_in(big_buf.len());
        let values = big0.state.fifo.take(count).map_values(value_of(convert, depth));
        assert forall|k: int, j: int|
            #![trigger little_out[k * b + j]]
            0 <= k < count && 0 <= j < b implies little_out[k * b + j] == big_out[k * b + b - 1
            - j] by {
            assert(0 <= k * b && k * b + b <= count * b) by (nonlinear_arith)
                requires
                    0 <= k < count,
                    b > 0,
            ;
            assert(little_out[k * b + j] == little_out.take(n as int)[k * b + j]);
            assert(big_out[k * b + b - 1 - j] == big_out.take(n as int)[k * b + b - 1 - j]);
            crate::utils::samples_conv::lemma_byte_of_sample(Endian::Little, depth, values, k, j);
            crate::utils::samples_conv::lemma_byte_of_sample(
                Endian::Big,
                depth,
                values,
                k,
                b - 1 - j,
            );
            crate::utils::samples_conv::lemma_encoded_mirror(depth, values[k], j);
        }
    }
}

/// A captured chunk that is not quiet is queued as it is.
pub proof fn law_audible_chunk_is_queued_unchanged<D: Fn(Sample, Sample) -> Sample>(
    mix: D,
    before: StreamView,
    after: StreamView,
    chunk: AudioSamples,
    added: Seq<Sample>,
)
    requires
        !is_quiet(chunk@),
        queued_for(mix, before, after, Some(chunk), false, added),
    ensures
        after.state.fifo == before.state.fifo + chunk@,
        !after.state.sending_silence,
        conditioning_of(Some(chunk@), false) is Kept,
{
    lemma_loud_is_kept(mix, before.state, chunk@, added);
}

/// A captured chunk that is quiet is queued with dither: as many samples, each of which is
/// what `mix` gives for the sample and its dither, or the dither alone where the chunk is
/// digital silence.
pub proof fn law_quiet_chunk_is_queued_with_dither<D: Fn(Sample, Sample) -> Sample>(
    mix: D,
    before: StreamView,
    after: StreamView,
    chunk: AudioSamples,
    added: Seq<Sample>,
)
    requires
        is_quiet(chunk@),
        queued_for(mix, before, after, Some(chunk), false, added),
    ensures
        after.state.fifo == before.state.fifo + added,
        added.len() == chunk@.len(),
        forall|i: int|
            0 <= i < chunk@.len() ==> {
                let d = dither_at(before.state.bits_per_sample, i);
                if is_digital_silence(chunk@) {
                    #[trigger] added[i] == d
                } else {
                    mix.ensures((chunk@[i], d), added[i])
                }
            },
        conditioning_of(Some(chunk@), false) == Conditioned::Dithered(DitherTag::CaptureOk),
{
}

/// How many of the calls read a header.
pub open spec fn headers_in(calls: Seq<StreamCall>) -> nat
    decreases calls.len(),
{
    if calls.len() == 0 {
        0
    } else {
        headers_in(calls.drop_last()) + match calls.last() {
            StreamCall::Filled { fill: Fill::Header(_), .. } => 1nat,
            _ => 0,
        }
    }
}

/// A header is read at most once, whatever else happens, and samples are read only
/// when no header waits.
pub proof fn law_header_is_read_once<
    C: Fn(BitDepth, Sample) -> i32,
    D: Fn(Sample, Sample) -> Sample,
>(convert: C, mix: D, calls: Seq<StreamCall>, views: Seq<StreamView>)
    requires
        is_run(convert, mix, calls, views),
    ensures
        headers_in(calls) == (if views[0].state.header_pending()
            && !views.last().state.header_pending() {
            1nat
        } else {
            0
        }),
        views.last().state.header_pending() ==> views[0].state.header_pending() && bytes_read_by(
            calls,
        ).len() == 0,
    decreases calls.len(),
{
    if calls.len() > 0 {
        let calls0 = calls.drop_last();
        let views0 = views.drop_last();
        let last = calls.len() - 1;
        assert forall|i: int| 0 <= i < calls0.len() implies made(
            convert,
            mix,
            #[trigger] calls0[i],
            views0[i],
            views0[i + 1],
        ) by {
            assert(calls0[i] == calls[i]);
        }
        law_header_is_read_once(convert, mix, calls0, views0);
        assert(made(convert, mix, calls[last], views[last], views[last + 1]));
        assert(views0.last() == views[last]);
        assert(views.last() == views[last + 1]);
    }
}

/// A stream with a header starts with it, of the length that its format has.
pub proof fn law_new_stream_starts_with_header(
    sample_rate: u32,
    bits_per_sample: u16,
    format: StreamingFormat,
    configured_timeout: Option<u32>,
)
    ensures
        ({
            let st = new_state(true, sample_rate, bits_per_sample, format, configured_timeout);
            &&& st.header_pending() == (format is Wav || format is Rf64)
            &&& format is Wav ==> st.header.len() == 44
            &&& format is Rf64 ==> st.header.len() == 80
        }),
{
    crate::utils::wave_header::law_header_lengths(sample_rate, bits_per_sample);
}

/// When capture stalls, the queue still grows by no less than the silence that is
/// kept for this, so that a stream with some of it never runs dry.
pub proof fn law_stalled_capture_is_bridged<D: Fn(Sample, Sample) -> Sample>(
    mix: D,
    before: StreamView,
    after: StreamView,
    triggered: bool,
    added: Seq<Sample>,
)
    requires
        queued_for(mix, before, after, None, triggered, added),
    ensures
        after.state.fifo.len() >= before.state.fifo.len() + before.state.silence.len(),
        triggered ==> after.state.fifo.len() >= before.state.fifo.len() + 2200,
        after.state.sending_silence == !triggered,
{
}

/// What bridges a stalled capture is always dithered: no flat silence is streamed.
pub proof fn law_bridged_silence_is_dithered<D: Fn(Sample, Sample) -> Sample>(
    mix: D,
    before: StreamView,
    after: StreamView,
    added: Seq<Sample>,
)
    requires
        queued_for(mix, before, after, None, false, added),
    ensures
        after.state.fifo == before.state.fifo + dither(
            before.state.bits_per_sample,
            before.state.silence.len(),
        ),
        forall|i: int|
            0 <= i < before.state.silence.len() ==> crate::utils::conditioning::sounds(
                #[trigger] added[i],
            ),
        conditioning_of(None, false) == Conditioned::Dithered(DitherTag::RecvTimeoutSilence),
{
}

/// The bytes of a read are a whole number of groups of four samples, fit in the
/// buffer and leave no room for another group.
pub proof fn law_reads_are_whole_chunks(st: StreamState, len: nat)
    requires
        BitDepth::is_depth(st.bits_per_sample),
    ensures
        st.bytes_in(len) == st.samples_in(len) * st.depth().bytes(),
        st.bytes_in(len) % st.chunk_bytes() == 0,
        st.bytes_in(len) <= len < st.bytes_in(len) + st.chunk_bytes(),
        len as int % st.chunk_bytes() == 0 ==> st.bytes_in(len) == len,
{
    let c = st.chunk_bytes();
    let k = st.chunks_in(len);
    vstd::arithmetic::div_mod::lemma_fundamental_div_mod(len as int, c);
    vstd::arithmetic::div_mod::lemma_mod_bound(len as int, c);
    vstd::arithmetic::div_mod::lemma_mod_multiples_basic(k, c);
    assert(c * k == k * c) by (nonlinear_arith);
    let b = st.depth().bytes() as int;
    assert(c == 4 * b);
    assert(k * (4 * b) == 4 * k * b) by (nonlinear_arith);
}

} // verus!
