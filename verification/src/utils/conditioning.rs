//! What is done to captured samples before they are streamed.
use crate::latency::{barker_mono, barker_pulse};
use crate::sample::{
    abs, is_nan, magnitude, Sample, EXPONENT_STEP, INFINITY, SIGN_BIT, SILENT,
};
use vstd::prelude::*;

verus! {

/// The greatest magnitude that still counts as digital silence, 1e-8.
pub const SILENCE_PEAK: Sample = 0x322b_cc77;

/// The greatest magnitude of captured samples that are quiet enough for dither, 0.02
/// (about -34 dB). The root mean square of samples is never above their peak, so that
/// the peak alone decides.
pub const QUIET_PEAK: Sample = 0x3ca3_d70a;

/// The number 0.35: the share of the smallest step of a depth that dither has.
pub const DITHER_SHARE: Sample = 0x3eb3_3333;

/// The latency pulse for both channels, interleaved.
pub open spec fn stereo_pulse() -> Seq<Sample> {
    Seq::new(2200, |i: int| barker_pulse()[i / 2])
}

/// Samples whose start is replaced by the latency pulse. Samples that are fewer
/// than those of the pulse give way to it.
pub open spec fn with_pulse(samples: Seq<Sample>) -> Seq<Sample> {
    stereo_pulse() + if samples.len() > 2200 {
        samples.skip(2200)
    } else {
        Seq::empty()
    }
}

/// When a pulse was asked for, writes it over the start of stereo samples. Says
/// whether it did.
pub fn apply_latency_pulse_if_triggered(samples: &mut Vec<Sample>, triggered: bool) -> (applied: bool)
    ensures
        applied == triggered,
        final(samples)@ == if triggered {
            with_pulse(old(samples)@)
        } else {
            old(samples)@
        },
{
    if !triggered {
        return false;
    }
    let pulse: Vec<Sample> = barker_mono();
    let mut i: usize = 0;
    while i < 2200
        invariant
            i <= 2200,
            pulse@ == barker_pulse(),
            samples@.len() == if i > old(samples)@.len() {
                i as nat
            } else {
                old(samples)@.len()
            },
            forall|k: int| 0 <= k < i ==> #[trigger] samples@[k] == barker_pulse()[k / 2],
            forall|k: int| i <= k < samples@.len() ==> #[trigger] samples@[k] == old(samples)@[k],
        decreases 2200 - i,
    {
        let bit: Sample = pulse[i / 2];
        if i < samples.len() {
            samples[i] = bit;
        } else {
            samples.push(bit);
        }
        i += 1;
    }
    assert(samples@ =~= with_pulse(old(samples)@));
    true
}

/// Whether no sample has a greater magnitude than `peak`. Patterns that are not numbers
/// do not count.
pub open spec fn is_within(samples: Seq<Sample>, peak: Sample) -> bool {
    forall|i: int|
        0 <= i < samples.len() ==> is_nan(#[trigger] samples[i]) || magnitude(samples[i]) <= peak
}

/// Whether no sample is louder than digital silence.
pub open spec fn is_digital_silence(samples: Seq<Sample>) -> bool {
    is_within(samples, SILENCE_PEAK)
}

/// Whether captured samples are so quiet that they are dithered.
pub open spec fn is_quiet(samples: Seq<Sample>) -> bool {
    is_within(samples, QUIET_PEAK)
}

/// Whether no sample has a greater magnitude than `peak`.
fn within(samples: &Vec<Sample>, peak: Sample) -> (r: bool)
    ensures
        r == is_within(samples@, peak),
{
    let mut i: usize = 0;
    while i < samples.len()
        invariant
            i <= samples@.len(),
            is_within(samples@.take(i as int), peak),
        decreases samples@.len() - i,
    {
        let m: Sample = abs(samples[i]);
        if m > peak && m <= INFINITY {
            assert(!is_nan(samples@[i as int]));
            return false;
        }
        i += 1;
        assert forall|k: int| 0 <= k < i implies is_nan(
            #[trigger] samples@.take(i as int)[k],
        ) || magnitude(samples@.take(i as int)[k]) <= peak by {
            if k < i - 1 {
                assert(samples@.take(i - 1)[k] == samples@[k]);
            }
        }
    }
    assert(samples@.take(i as int) =~= samples@);
    true
}

/// How many bits the dither is scaled by: those of the depth, from 1 to 32.
pub open spec fn dither_bits(bits_per_sample: u16) -> int {
    if bits_per_sample < 1 {
        1
    } else if bits_per_sample > 32 {
        32
    } else {
        bits_per_sample as int
    }
}

/// The amplitude of the dither: its share, halved once for each bit.
pub open spec fn dither_amplitude(bits_per_sample: u16) -> int {
    DITHER_SHARE - dither_bits(bits_per_sample) * EXPONENT_STEP
}

/// The dither at a position: down, up, up, down, and so on.
pub open spec fn dither_at(bits_per_sample: u16, i: int) -> Sample {
    if i % 4 == 0 || i % 4 == 3 {
        (dither_amplitude(bits_per_sample) + SIGN_BIT) as Sample
    } else {
        dither_amplitude(bits_per_sample) as Sample
    }
}

/// So many samples of dither.
pub open spec fn dither(bits_per_sample: u16, len: nat) -> Seq<Sample> {
    Seq::new(len, |i: int| dither_at(bits_per_sample, i))
}

/// What is streamed for captured samples: dither in the place of digital silence.
pub open spec fn dithered(bits_per_sample: u16, samples: Seq<Sample>) -> Seq<Sample> {
    if is_digital_silence(samples) {
        dither(bits_per_sample, samples.len())
    } else {
        samples
    }
}

/// The amplitude of the dither.
fn amplitude(bits_per_sample: u16) -> (amp: Sample)
    ensures
        amp == dither_amplitude(bits_per_sample),
        amp < SIGN_BIT,
{
    let bits: u32 = if bits_per_sample < 1 {
        1
    } else if bits_per_sample > 32 {
        32
    } else {
        bits_per_sample as u32
    };
    DITHER_SHARE - bits * EXPONENT_STEP
}

/// The dither at a position, where `amp` is its amplitude.
fn dither_sample(Ghost(bits_per_sample): Ghost<u16>, amp: Sample, i: usize) -> (s: Sample)
    requires
        amp == dither_amplitude(bits_per_sample),
        amp < SIGN_BIT,
    ensures
        s == dither_at(bits_per_sample, i as int),
{
    if i % 4 == 0 || i % 4 == 3 {
        amp + SIGN_BIT
    } else {
        amp
    }
}

/// Replaces samples by a dither that cannot be heard, whatever they are.
pub fn dither_silence(bits_per_sample: u16, samples: &mut Vec<Sample>)
    ensures
        final(samples)@ == dither(bits_per_sample, old(samples)@.len()),
{
    let amp: Sample = amplitude(bits_per_sample);
    let mut j: usize = 0;
    while j < samples.len()
        invariant
            j <= samples@.len(),
            samples@.len() == old(samples)@.len(),
            amp == dither_amplitude(bits_per_sample),
            amp < SIGN_BIT,
            forall|k: int| 0 <= k < j ==> #[trigger] samples@[k] == dither_at(bits_per_sample, k),
        decreases samples@.len() - j,
    {
        samples[j] = dither_sample(Ghost(bits_per_sample), amp, j);
        j += 1;
    }
    assert(samples@ =~= dither(bits_per_sample, old(samples)@.len()));
}

/// Some renderers drop a stream that is perfect digital silence for many seconds.
/// Replaces such samples by a dither that cannot be heard, so that they are not
/// all zero. Says whether it did.
pub fn maybe_dither_digital_silence(bits_per_sample: u16, samples: &mut Vec<Sample>) -> (applied:
    bool)
    ensures
        applied == is_digital_silence(old(samples)@),
        final(samples)@ == dithered(bits_per_sample, old(samples)@),
{
    if !within(samples, SILENCE_PEAK) {
        return false;
    }
    dither_silence(bits_per_sample, samples);
    true
}

/// Whether `out` is what is streamed for captured samples: dither in the place of
/// digital silence, a value that `mix` gives for each sample of quiet ones and its
/// dither, and louder ones as they are.
pub open spec fn quiet_dithered<D: Fn(Sample, Sample) -> Sample>(
    mix: D,
    bits_per_sample: u16,
    samples: Seq<Sample>,
    out: Seq<Sample>,
) -> bool {
    if is_digital_silence(samples) {
        out == dither(bits_per_sample, samples.len())
    } else if is_quiet(samples) {
        &&& out.len() == samples.len()
        &&& forall|i: int|
            0 <= i < samples.len() ==> mix.ensures(
                (samples[i], dither_at(bits_per_sample, i)),
                #[trigger] out[i],
            )
    } else {
        out == samples
    }
}

/// Mixes a dither that cannot be heard into captured samples when they are quiet, so
/// that a renderer does not take them for silence. `mix` adds a sample and its dither.
/// Says whether it did.
pub fn maybe_dither_quiet_capture<D: Fn(Sample, Sample) -> Sample>(
    bits_per_sample: u16,
    samples: &mut Vec<Sample>,
    mix: &D,
) -> (applied: bool)
    requires
        forall|s: Sample, d: Sample| #[trigger] mix.requires((s, d)),
    ensures
        applied == is_quiet(old(samples)@),
        quiet_dithered(*mix, bits_per_sample, old(samples)@, final(samples)@),
{
    if maybe_dither_digital_silence(bits_per_sample, samples) {
        proof {
            lemma_silence_is_quiet(old(samples)@);
        }
        return true;
    }
    if !within(samples, QUIET_PEAK) {
        return false;
    }
    let amp: Sample = amplitude(bits_per_sample);
    let mut j: usize = 0;
    while j < samples.len()
        invariant
            j <= samples@.len(),
            samples@.len() == old(samples)@.len(),
            amp == dither_amplitude(bits_per_sample),
            amp < SIGN_BIT,
            forall|s: Sample, d: Sample| #[trigger] mix.requires((s, d)),
            forall|k: int| j <= k < samples@.len() ==> #[trigger] samples@[k] == old(samples)@[k],
            forall|k: int|
                0 <= k < j ==> mix.ensures(
                    (old(samples)@[k], dither_at(bits_per_sample, k)),
                    #[trigger] samples@[k],
                ),
        decreases samples@.len() - j,
    {
        let d: Sample = dither_sample(Ghost(bits_per_sample), amp, j);
        let m: Sample = mix(samples[j], d);
        samples[j] = m;
        j += 1;
    }
    true
}

/// Digital silence is quiet.
pub proof fn lemma_silence_is_quiet(samples: Seq<Sample>)
    requires
        is_digital_silence(samples),
    ensures
        is_quiet(samples),
{
}

/// How many interleaved stereo samples a span of milliseconds has.
pub open spec fn silence_len(sample_rate: u32, silence_period: u64) -> int {
    sample_rate * 2 * silence_period / 1000
}

/// Stereo silence of so many milliseconds.
pub fn get_silence_buffer(sample_rate: u32, silence_period: u64) -> (silence: Vec<Sample>)
    requires
        sample_rate * 2 * silence_period <= u64::MAX,
        silence_len(sample_rate, silence_period) * 4 <= isize::MAX,
    ensures
        silence@ == Seq::new(silence_len(sample_rate, silence_period) as nat, |i: int| SILENT),
{
    let size: usize = (sample_rate as u64 * 2 * silence_period / 1000) as usize;
    let silence: Vec<Sample> = vec![SILENT; size];
    assert(silence@ =~= Seq::new(
        silence_len(sample_rate, silence_period) as nat,
        |i: int| SILENT,
    ));
    silence
}

/// Whether a sample is a number other than zero.
pub open spec fn sounds(s: Sample) -> bool {
    0 < magnitude(s) <= INFINITY
}

/// What is streamed is never flat: samples that are all zero become samples none
/// of which is zero. Each is below the smallest step of the depth, which is full scale
/// halved once for each bit but one, and four in a row cancel each other out.
pub proof fn law_dither_is_faint_and_not_flat(bits_per_sample: u16, samples: Seq<Sample>, i: int)
    requires
        0 <= i < samples.len(),
        forall|k: int| 0 <= k < samples.len() ==> magnitude(#[trigger] samples[k]) == 0,
    ensures
        sounds(dithered(bits_per_sample, samples)[i]),
        magnitude(dithered(bits_per_sample, samples)[i]) == dither_amplitude(bits_per_sample),
        dither_amplitude(bits_per_sample) < crate::sample::FULL_SCALE - (dither_bits(
            bits_per_sample,
        ) - 1) * EXPONENT_STEP,
        i % 4 == 0 && i + 3 < samples.len() ==> {
            let d = dithered(bits_per_sample, samples);
            &&& d[i] == d[i + 3]
            &&& d[i + 1] == d[i + 2]
            &&& d[i] == d[i + 1] + SIGN_BIT
        },
{
    assert(is_digital_silence(samples));
}

/// To dither twice changes nothing more.
pub proof fn law_dither_is_idempotent(bits_per_sample: u16, samples: Seq<Sample>)
    ensures
        dithered(bits_per_sample, dithered(bits_per_sample, samples)) == dithered(
            bits_per_sample,
            samples,
        ),
{
    let once = dithered(bits_per_sample, samples);
    assert(dithered(bits_per_sample, once) =~= once);
}

/// Captured samples of which one is louder than quiet ones are streamed as they are.
pub proof fn law_sound_is_kept<D: Fn(Sample, Sample) -> Sample>(
    mix: D,
    bits_per_sample: u16,
    samples: Seq<Sample>,
    out: Seq<Sample>,
    i: int,
)
    requires
        quiet_dithered(mix, bits_per_sample, samples, out),
        0 <= i < samples.len(),
        QUIET_PEAK < magnitude(samples[i]) <= INFINITY,
    ensures
        out == samples,
{
    assert(!is_nan(samples[i]));
}

/// Quiet samples are dithered one by one: as many come out. Where the samples are digital
/// silence these are the dither, and none of them is zero; where they are not, each is
/// what `mix` gives for the sample and its dither.
pub proof fn law_quiet_capture_is_dithered<D: Fn(Sample, Sample) -> Sample>(
    mix: D,
    bits_per_sample: u16,
    samples: Seq<Sample>,
    out: Seq<Sample>,
    i: int,
)
    requires
        quiet_dithered(mix, bits_per_sample, samples, out),
        is_quiet(samples),
        0 <= i < samples.len(),
    ensures
        out.len() == samples.len(),
        !is_digital_silence(samples) ==> mix.ensures(
            (samples[i], dither_at(bits_per_sample, i)),
            out[i],
        ),
        is_digital_silence(samples) ==> out[i] == dither_at(bits_per_sample, i) && sounds(out[i]),
{
}

/// A pulse is the same on both channels, starts the samples, leaves those behind
/// it alone and makes them no fewer.
pub proof fn law_pulse_starts_samples(samples: Seq<Sample>)
    ensures
        with_pulse(samples).len() >= samples.len(),
        with_pulse(samples).len() >= 2200,
        with_pulse(samples).take(2200) == stereo_pulse(),
        forall|i: int|
            2200 <= i < samples.len() ==> #[trigger] with_pulse(samples)[i] == samples[i],
        forall|f: int| #![auto]
            0 <= f < 1100 ==> with_pulse(samples)[2 * f] == barker_pulse()[f] && with_pulse(
                samples,
            )[2 * f + 1] == barker_pulse()[f],
{
    assert(with_pulse(samples).take(2200) =~= stereo_pulse());
}

} // verus!
