//! What becomes of captured chunks on their way to the queue.
use crate::channel;
use crate::debug_agent::DitherTag;
use crate::sample::{abs, Sample};
use crate::utils::conditioning::{
    apply_latency_pulse_if_triggered, dither, dither_at, dither_silence, get_silence_buffer,
    is_digital_silence, is_quiet, maybe_dither_digital_silence, maybe_dither_quiet_capture,
    quiet_dithered, stereo_pulse, with_pulse,
};
use crate::utils::rwstream::{
    admitted, eco_text, got, queued_for, AudioSamples, ChannelStream, Conditioned, Delivery, StreamView,
};
use vstd::prelude::*;

verus! {

/// The latency pulse on both channels: each of the eleven elements of the Barker sequence
/// +++---+--+- for a hundred frames, at full scale.
pub open spec fn pulse_at(i: int) -> Sample {
    let element = i / 200;
    if element == 0 || element == 1 || element == 2 || element == 6 || element == 9 {
        0x3f80_0000
    } else {
        0xbf80_0000
    }
}

/// The dither of a depth: 0.35, halved once for each bit, with the signs -++- in turn.
pub open spec fn faint_at(bits: u16, i: int) -> Sample {
    let halvings: int = if bits < 1 {
        1
    } else if bits > 32 {
        32
    } else {
        bits as int
    };
    let sign: int = if i % 4 == 1 || i % 4 == 2 {
        0
    } else {
        0x8000_0000
    };
    (sign + 0x3eb3_3333 - halvings * 0x80_0000) as Sample
}

/// Whether the sample is a number of greater size than `peak`.
pub open spec fn louder(s: Sample, peak: int) -> bool {
    peak < s as int % 0x8000_0000 <= 0x7f80_0000
}

/// The pulse of the library is the one above.
proof fn lemma_pulse(i: int)
    requires
        0 <= i < 2200,
    ensures
        stereo_pulse().len() == 2200,
        stereo_pulse()[i] == pulse_at(i),
{
    assert(i / 2 / 100 == i / 200);
    assert(0 <= i / 200 < 11);
}

/// The dither of the library is the one above.
proof fn lemma_dither(bits: u16, i: int)
    ensures
        dither_at(bits, i) == faint_at(bits, i),
{
}

/// Samples are quiet exactly when none is louder than 0.02.
proof fn lemma_quiet(s: Seq<Sample>)
    ensures
        is_quiet(s) <==> forall|i: int| 0 <= i < s.len() ==> !louder(#[trigger] s[i], 0x3ca3_d70a),
        is_digital_silence(s) <==> forall|i: int|
            0 <= i < s.len() ==> !louder(#[trigger] s[i], 0x322b_cc77),
{
    if is_quiet(s) {
        assert(forall|i: int| 0 <= i < s.len() ==> !louder(#[trigger] s[i], 0x3ca3_d70a));
    }
    if is_digital_silence(s) {
        assert(forall|i: int| 0 <= i < s.len() ==> !louder(#[trigger] s[i], 0x322b_cc77));
    }
}

/// A pulse that is asked for is written whole: the samples are then at least its 2200,
/// start with all of them, and go on as they did.
pub proof fn law_pulse_is_written_whole(samples: &mut Vec<Sample>, applied: bool)
    requires
        call_ensures(apply_latency_pulse_if_triggered, (samples, true), applied),
    ensures
        applied,
        final(samples)@.len() == if old(samples)@.len() < 2200 {
            2200
        } else {
            old(samples)@.len()
        },
        forall|i: int| 0 <= i < 2200 ==> #[trigger] final(samples)@[i] == pulse_at(i),
        forall|i: int|
            2200 <= i < old(samples)@.len() ==> #[trigger] final(samples)@[i] == old(samples)@[i],
{
    assert forall|i: int| 0 <= i < 2200 implies #[trigger] final(samples)@[i] == pulse_at(i) by {
        lemma_pulse(i);
    }
}

/// Without a request samples have no pulse.
pub proof fn law_no_pulse_without_request(samples: &mut Vec<Sample>, applied: bool)
    requires
        call_ensures(apply_latency_pulse_if_triggered, (samples, false), applied),
    ensures
        !applied,
        final(samples)@ == old(samples)@,
{
}

/// Captured samples of which one is louder than 0.02 stay as they are.
pub proof fn law_loud_capture_stays<D: Fn(Sample, Sample) -> Sample>(
    bits: u16,
    samples: &mut Vec<Sample>,
    mix: &D,
    applied: bool,
    i: int,
)
    requires
        call_ensures(maybe_dither_quiet_capture::<D>, (bits, samples, mix), applied),
        0 <= i < old(samples)@.len(),
        louder(old(samples)@[i], 0x3ca3_d70a),
    ensures
        !applied,
        final(samples)@ == old(samples)@,
{
    lemma_quiet(old(samples)@);
}

/// Captured samples of which one is louder than 1e-8, and none louder than 0.02, are not
/// replaced: each becomes what `mix` gives for this sample and the dither at its place.
pub proof fn law_quiet_capture_is_mixed<D: Fn(Sample, Sample) -> Sample>(
    bits: u16,
    samples: &mut Vec<Sample>,
    mix: &D,
    applied: bool,
    i: int,
)
    requires
        call_ensures(maybe_dither_quiet_capture::<D>, (bits, samples, mix), applied),
        0 <= i < old(samples)@.len(),
        louder(old(samples)@[i], 0x322b_cc77),
        forall|k: int|
            0 <= k < old(samples)@.len() ==> !louder(#[trigger] old(samples)@[k], 0x3ca3_d70a),
    ensures
        applied,
        final(samples)@.len() == old(samples)@.len(),
        forall|k: int|
            0 <= k < old(samples)@.len() ==> mix.ensures(
                (old(samples)@[k], faint_at(bits, k)),
                #[trigger] final(samples)@[k],
            ),
{
    lemma_quiet(old(samples)@);
    assert forall|k: int| 0 <= k < old(samples)@.len() implies mix.ensures(
        (old(samples)@[k], faint_at(bits, k)),
        #[trigger] final(samples)@[k],
    ) by {
        lemma_dither(bits, k);
    }
}

/// Whatever is captured, bare dither takes the place of samples only when none of them is
/// louder than 1e-8: else each comes out as it was, or as `mix` gives it with its dither.
pub proof fn law_sound_is_never_replaced<D: Fn(Sample, Sample) -> Sample>(
    bits: u16,
    samples: &mut Vec<Sample>,
    mix: &D,
    applied: bool,
    i: int,
    k: int,
)
    requires
        call_ensures(maybe_dither_quiet_capture::<D>, (bits, samples, mix), applied),
        0 <= i < old(samples)@.len(),
        0 <= k < old(samples)@.len(),
        louder(old(samples)@[i], 0x322b_cc77),
    ensures
        final(samples)@.len() == old(samples)@.len(),
        final(samples)@[k] == old(samples)@[k] || mix.ensures(
            (old(samples)@[k], faint_at(bits, k)),
            final(samples)@[k],
        ),
{
    lemma_quiet(old(samples)@);
    lemma_dither(bits, k);
}

/// Captured samples none of which is louder than 1e-8 give way to dither.
pub proof fn law_silent_capture_becomes_dither<D: Fn(Sample, Sample) -> Sample>(
    bits: u16,
    samples: &mut Vec<Sample>,
    mix: &D,
    applied: bool,
)
    requires
        call_ensures(maybe_dither_quiet_capture::<D>, (bits, samples, mix), applied),
        forall|k: int|
            0 <= k < old(samples)@.len() ==> !louder(#[trigger] old(samples)@[k], 0x322b_cc77),
    ensures
        applied,
        final(samples)@.len() == old(samples)@.len(),
        forall|k: int|
            0 <= k < old(samples)@.len() ==> #[trigger] final(samples)@[k] == faint_at(bits, k),
{
    lemma_quiet(old(samples)@);
    assert(forall|k: int|
        0 <= k < old(samples)@.len() ==> !louder(#[trigger] old(samples)@[k], 0x3ca3_d70a)) by {
        assert(forall|x: Sample| !louder(x, 0x322b_cc77) ==> !#[trigger] louder(x, 0x3ca3_d70a));
    }
    assert forall|k: int| 0 <= k < old(samples)@.len() implies #[trigger] final(samples)@[k]
        == faint_at(bits, k) by {
        lemma_dither(bits, k);
    }
}

/// Digital silence, up to 1e-8, gives way to dither, and samples with anything louder
/// stay.
pub proof fn law_only_digital_silence_is_replaced(
    bits: u16,
    samples: &mut Vec<Sample>,
    applied: bool,
)
    requires
        call_ensures(maybe_dither_digital_silence, (bits, samples), applied),
    ensures
        applied == forall|k: int|
            0 <= k < old(samples)@.len() ==> !louder(#[trigger] old(samples)@[k], 0x322b_cc77),
        !applied ==> final(samples)@ == old(samples)@,
        applied ==> final(samples)@.len() == old(samples)@.len() && forall|k: int|
            0 <= k < old(samples)@.len() ==> #[trigger] final(samples)@[k] == faint_at(bits, k),
{
    lemma_quiet(old(samples)@);
    assert forall|k: int| 0 <= k < old(samples)@.len() implies #[trigger] dither(
        bits,
        old(samples)@.len(),
    )[k] == faint_at(bits, k) by {
        lemma_dither(bits, k);
    }
}

/// Dither takes the place of silence whatever that holds.
pub proof fn law_silence_is_dithered(bits: u16, samples: &mut Vec<Sample>)
    requires
        call_ensures(dither_silence, (bits, samples), ()),
    ensures
        final(samples)@.len() == old(samples)@.len(),
        forall|k: int|
            0 <= k < old(samples)@.len() ==> #[trigger] final(samples)@[k] == faint_at(bits, k),
{
    assert forall|k: int| 0 <= k < old(samples)@.len() implies #[trigger] final(samples)@[k]
        == faint_at(bits, k) by {
        lemma_dither(bits, k);
    }
}

/// Each sample of dither has the size 0.35, halved once for each bit of the depth (from 1
/// to 32). The signs are minus, plus, plus and minus in turn.
pub proof fn law_dither_has_its_size_and_signs(bits: u16, samples: &mut Vec<Sample>, k: int)
    requires
        call_ensures(dither_silence, (bits, samples), ()),
        0 <= k < old(samples)@.len(),
    ensures
        bits <= 1 ==> final(samples)@[k] as int % 0x8000_0000 == 0x3eb3_3333 - 0x80_0000,
        1 <= bits <= 32 ==> final(samples)@[k] as int % 0x8000_0000 == 0x3eb3_3333 - bits
            * 0x80_0000,
        bits >= 32 ==> final(samples)@[k] as int % 0x8000_0000 == 0x3eb3_3333 - 32 * 0x80_0000,
        final(samples)@[k] >= 0x8000_0000 <==> k % 4 == 0 || k % 4 == 3,
{
    law_silence_is_dithered(bits, samples);
}

/// So many milliseconds of stereo silence are as many zeros.
pub proof fn law_silence_has_its_length(rate: u32, period: u64, silence: Vec<Sample>)
    requires
        call_ensures(get_silence_buffer, (rate, period), silence),
    ensures
        silence@.len() == rate * 2 * period / 1000,
        forall|i: int| 0 <= i < silence@.len() ==> #[trigger] silence@[i] == 0,
{
    assert(rate * 2 * period >= 0) by (nonlinear_arith)
        requires
            rate >= 0,
            period >= 0,
    ;
}

/// The absolute value of a number is the number without its sign.
pub proof fn law_size_has_no_sign(s: Sample, r: Sample)
    requires
        call_ensures(abs, (s,), r),
    ensures
        r < 0x8000_0000,
        s == r || s == r + 0x8000_0000,
{
}

/// What is queued for: a captured chunk, or the silence of the stream when none came.
pub open spec fn source(before: StreamView, chunk: Option<AudioSamples>) -> Seq<Sample> {
    match chunk {
        Some(samples) => samples@,
        None => before.state.silence,
    }
}

/// Whether a chunk, or its absence, went into the queue as it should: with the whole
/// pulse over its start when one was asked for; else as it is when a sample is louder
/// than 0.02, mixed with dither when one is louder than 1e-8, and as dither when none is;
/// and as dither when no chunk came.
pub open spec fn queues<D: Fn(Sample, Sample) -> Sample>(
    mix: D,
    before: StreamView,
    after: StreamView,
    chunk: Option<AudioSamples>,
    triggered: bool,
    r: Conditioned,
) -> bool {
    let start = before.state.fifo.len() as int;
    let queue = after.state.fifo;
    let bits = before.state.bits_per_sample;
    let base = source(before, chunk);
    &&& after.ends == before.ends
    &&& after.state.header == before.state.header
    &&& after.state.silence == before.state.silence
    &&& after.state.capture_timeout == before.state.capture_timeout
    &&& after.state.use_wave_format == before.state.use_wave_format
    &&& after.state.bits_per_sample == bits
    &&& after.state.sending_silence == (chunk is None && !triggered)
    &&& queue.len() >= start
    &&& queue.take(start) == before.state.fifo
    &&& if triggered {
        &&& r is Pulse
        &&& queue.len() == start + if base.len() < 2200 {
            2200
        } else {
            base.len() as int
        }
        &&& forall|i: int| 0 <= i < 2200 ==> #[trigger] queue.skip(start)[i] == pulse_at(i)
        &&& forall|i: int| 2200 <= i < base.len() ==> #[trigger] queue.skip(start)[i] == base[i]
    } else {
        &&& queue.len() == start + base.len()
        &&& if chunk is None {
            &&& r == Conditioned::Dithered(DitherTag::RecvTimeoutSilence)
            &&& forall|i: int|
                0 <= i < base.len() ==> #[trigger] queue.skip(start)[i] == faint_at(bits, i)
        } else if exists|i: int| 0 <= i < base.len() && louder(#[trigger] base[i], 0x3ca3_d70a) {
            &&& r is Kept
            &&& queue.skip(start) == base
        } else if exists|i: int| 0 <= i < base.len() && louder(#[trigger] base[i], 0x322b_cc77) {
            &&& r == Conditioned::Dithered(DitherTag::CaptureOk)
            &&& forall|i: int|
                0 <= i < base.len() ==> mix.ensures(
                    (base[i], faint_at(bits, i)),
                    #[trigger] queue.skip(start)[i],
                )
        } else {
            &&& r == Conditioned::Dithered(DitherTag::CaptureOk)
            &&& forall|i: int|
                0 <= i < base.len() ==> #[trigger] queue.skip(start)[i] == faint_at(bits, i)
        }
    }
}

/// What the contracts of the stream say comes to that.
proof fn lemma_queues<D: Fn(Sample, Sample) -> Sample>(
    mix: D,
    before: StreamView,
    after: StreamView,
    chunk: Option<AudioSamples>,
    triggered: bool,
    added: Seq<Sample>,
    r: Conditioned,
)
    requires
        queued_for(mix, before, after, chunk, triggered, added),
        r == crate::utils::rwstream::conditioning_of(
            crate::utils::rwstream::samples_of(chunk),
            triggered,
        ),
    ensures
        queues(mix, before, after, chunk, triggered, r),
{
    let start = before.state.fifo.len() as int;
    let queue = after.state.fifo;
    let bits = before.state.bits_per_sample;
    let base = source(before, chunk);
    assert(queue.take(start) =~= before.state.fifo);
    assert(queue.skip(start) =~= added);
    lemma_quiet(base);
    assert forall|i: int| 0 <= i < 2200 implies #[trigger] stereo_pulse()[i] == pulse_at(i) by {
        lemma_pulse(i);
    }
    assert forall|i: int| #[trigger] dither_at(bits, i) == faint_at(bits, i) by {
        lemma_dither(bits, i);
    }
    if triggered {
        assert(added == with_pulse(base));
        assert forall|i: int| 0 <= i < 2200 implies #[trigger] queue.skip(start)[i] == pulse_at(
            i,
        ) by {
            assert(stereo_pulse()[i] == pulse_at(i));
        }
    } else if chunk is Some {
        assert(quiet_dithered(mix, bits, base, added));
        if exists|i: int| 0 <= i < base.len() && louder(#[trigger] base[i], 0x3ca3_d70a) {
            let i = choose|i: int| 0 <= i < base.len() && louder(#[trigger] base[i], 0x3ca3_d70a);
            assert(louder(base[i], 0x322b_cc77));
            assert(!is_quiet(base));
            assert(!is_digital_silence(base));
            assert(added == base);
        } else {
            assert(is_quiet(base));
        }
    }
}

/// What a stream adds for a chunk, or for its absence: with the whole pulse at its start
/// when one was asked for; else the chunk as it is when a sample of it is louder than
/// 0.02, mixed with dither when one is louder than 1e-8, and dither when none is or when
/// no chunk came. Nothing that waited is touched.
pub proof fn law_stream_queues_a_chunk<D: Fn(Sample, Sample) -> Sample>(
    s: &mut ChannelStream,
    chunk: Option<AudioSamples>,
    triggered: bool,
    mix: &D,
    r: Conditioned,
)
    requires
        call_ensures(ChannelStream::add_samples::<D>, (s, chunk, triggered, mix), r),
    ensures
        queues(*mix, old(s)@, final(s)@, chunk, triggered, r),
{
    let added = choose|added: Seq<Sample>| #[trigger]
        queued_for(*mix, old(s)@, final(s)@, chunk, triggered, added);
    lemma_queues(*mix, old(s)@, final(s)@, chunk, triggered, added, r);
}

/// A pulse that is asked for is queued whole, with a captured chunk of any length or
/// without one: 2200 samples of pulse, and then those of the chunk that are behind them.
pub proof fn law_stream_queues_the_whole_pulse<D: Fn(Sample, Sample) -> Sample>(
    s: &mut ChannelStream,
    chunk: Option<AudioSamples>,
    mix: &D,
    r: Conditioned,
)
    requires
        call_ensures(ChannelStream::add_samples::<D>, (s, chunk, true, mix), r),
    ensures
        ({
            let added = final(s)@.state.fifo.skip(old(s)@.state.fifo.len() as int);
            let base = match chunk {
                Some(samples) => samples@,
                None => old(s)@.state.silence,
            };
            &&& r is Pulse
            &&& added.len() >= 2200
            &&& added.len() >= base.len()
            &&& added.len() == 2200 || added.len() == base.len()
            &&& forall|i: int|
                0 <= i < 2200 ==> #[trigger] added[i] == if i < 600 || 1200 <= i < 1400 || 1800 <= i
                    < 2000 {
                    0x3f80_0000u32
                } else {
                    0xbf80_0000u32
                }
            &&& forall|i: int| 2200 <= i < base.len() ==> #[trigger] added[i] == base[i]
        }),
{
    law_stream_queues_a_chunk(s, chunk, true, mix, r);
}

/// What a stream queues for a captured chunk, when no pulse was asked for, is never bare
/// dither unless every sample of the chunk is up to 1e-8: else each sample is queued as it
/// was captured, or as `mix` gives it with some dither; and as it was captured when one
/// of them is louder than 0.02.
pub proof fn law_stream_queues_the_sound<D: Fn(Sample, Sample) -> Sample>(
    s: &mut ChannelStream,
    chunk: AudioSamples,
    mix: &D,
    r: Conditioned,
    i: int,
)
    requires
        call_ensures(ChannelStream::add_samples::<D>, (s, Some(chunk), false, mix), r),
        0 <= i < chunk@.len(),
        0x322b_cc77 < chunk@[i] as int % 0x8000_0000 <= 0x7f80_0000,
    ensures
        ({
            let added = final(s)@.state.fifo.skip(old(s)@.state.fifo.len() as int);
            &&& added.len() == chunk@.len()
            &&& forall|k: int|
                0 <= k < chunk@.len() ==> #[trigger] added[k] == chunk@[k] || exists|d: Sample|
                    {
                        &&& (d as int % 0x8000_0000) < 0x3eb3_3333
                        &&& #[trigger] mix.ensures((chunk@[k], d), added[k])
                    }
            &&& 0x3ca3_d70a < chunk@[i] as int % 0x8000_0000 ==> added == chunk@
        }),
{
    law_stream_queues_a_chunk(s, Some(chunk), false, mix, r);
    let added = final(s)@.state.fifo.skip(old(s)@.state.fifo.len() as int);
    let bits = old(s)@.state.bits_per_sample;
    assert(source(old(s)@, Some(chunk)) == chunk@);
    assert(louder(chunk@[i], 0x322b_cc77));
    if 0x3ca3_d70a < chunk@[i] as int % 0x8000_0000 {
        assert(louder(chunk@[i], 0x3ca3_d70a));
    }
    assert forall|k: int| 0 <= k < chunk@.len() implies #[trigger] added[k] == chunk@[k]
        || exists|d: Sample|
        {
            &&& (d as int % 0x8000_0000) < 0x3eb3_3333
            &&& #[trigger] mix.ensures((chunk@[k], d), added[k])
        } by {
        if !exists|j: int| 0 <= j < chunk@.len() && louder(#[trigger] chunk@[j], 0x3ca3_d70a) {
            assert(mix.ensures((chunk@[k], faint_at(bits, k)), added[k]));
            assert((faint_at(bits, k) as int % 0x8000_0000) < 0x3eb3_3333);
        }
    }
}

/// A stream waits for a chunk on its own channel, for its own time-out, asks then whether
/// a pulse is wanted, and queues what came.
pub proof fn law_stream_queues_what_comes<T: Fn() -> bool, D: Fn(Sample, Sample) -> Sample>(
    s: &mut ChannelStream,
    trigger: T,
    mix: &D,
    r: Conditioned,
)
    requires
        call_ensures(ChannelStream::get_samples::<T, D>, (s, trigger, mix), r),
    ensures
        trigger.ensures((), r is Pulse),
        exists|chunk: Option<AudioSamples>|
            {
                &&& channel::was_received(
                    old(s)@.ends.receiver,
                    old(s)@.state.capture_timeout,
                    chunk,
                )
                &&& #[trigger] queues(*mix, old(s)@, final(s)@, chunk, r is Pulse, r)
            },
{
    let (chunk, added) = choose|chunk: Option<AudioSamples>, added: Seq<Sample>|
        {
            &&& #[trigger] got(*mix, old(s)@, final(s)@, chunk, r is Pulse, added)
            &&& r == crate::utils::rwstream::conditioning_of(
                crate::utils::rwstream::samples_of(chunk),
                r is Pulse,
            )
        };
    lemma_queues(*mix, old(s)@, final(s)@, chunk, r is Pulse, added, r);
}

/// A chunk is admitted while fewer than 10,000 wait, and handed back from then on.
pub proof fn law_chunks_are_admitted_below_ten_thousand(
    queued: usize,
    samples: AudioSamples,
    r: Result<AudioSamples, AudioSamples>,
)
    requires
        call_ensures(admitted, (queued, samples), r),
    ensures
        queued < 10_000 <==> r is Ok,
        r matches Ok(chunk) ==> chunk == samples,
        r matches Err(chunk) ==> chunk == samples,
{
}

/// A stream counts the chunks that wait in its own channel. It puts a new one there when
/// they are fewer than 10,000, and hands it back when they are not or when no reader is
/// left.
pub proof fn law_stream_sends_below_ten_thousand(
    s: ChannelStream,
    samples: AudioSamples,
    d: Delivery,
)
    requires
        call_ensures(ChannelStream::write, (&s, samples), d),
    ensures
        match d {
            Delivery::Sent { queued } => {
                &&& queued < 10_000
                &&& channel::was_counted(s@.ends.sender, queued)
                &&& channel::was_put(s@.ends.sender, samples, Ok(()))
            },
            Delivery::Refused { queued, chunk } => {
                &&& queued < 10_000
                &&& channel::was_counted(s@.ends.sender, queued)
                &&& channel::was_put(s@.ends.sender, samples, Err(chunk))
                &&& chunk == samples
            },
            Delivery::Dropped { queued, chunk } => {
                &&& queued >= 10_000
                &&& channel::was_counted(s@.ends.sender, queued)
                &&& chunk == samples
            },
        },
{
}

/// A copy of a stream is in the same state.
pub proof fn law_copy_is_in_the_same_state(s: ChannelStream, r: ChannelStream)
    requires
        call_ensures(ChannelStream::clone, (&s,), r),
    ensures
        r@.state.fifo == s@.state.fifo,
        r@.state.silence == s@.state.silence,
        r@.state.header == s@.state.header,
        r@.state.capture_timeout == s@.state.capture_timeout,
        r@.state.sending_silence == s@.state.sending_silence,
        r@.state.use_wave_format == s@.state.use_wave_format,
        r@.state.bits_per_sample == s@.state.bits_per_sample,
        r@.ends.format == s@.ends.format,
        eco_text(r@.ends.remote_ip) == eco_text(s@.ends.remote_ip),
{
}

} // verus!
