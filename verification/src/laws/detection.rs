//! How the latency pulse is found in what a microphone hears.
use crate::latency::barker_mono;
use crate::listener::{
    best_score, capped, downmix_interleaved, downmixed, frame, gives, is_best, places,
    process_input, scored, search_step, window,
};
use crate::sample::Sample;
use crate::utils::rwstream::{AudioSamples, ChannelStream, Conditioned};
use vstd::prelude::*;

verus! {

/// Whether `f` may give `v` for these samples.
pub open spec fn may_give<F: Fn(&[Sample]) -> Sample>(
    f: F,
    samples: Seq<Sample>,
    v: Sample,
) -> bool {
    exists|x: &[Sample]| x@ == samples && #[trigger] f.ensures((x,), v)
}

/// The pulse for one channel has a hundred samples for each of the eleven elements of
/// the Barker sequence +++---+--+-, at full scale.
pub proof fn law_pulse_is_the_barker_sequence(pulse: Vec<Sample>)
    requires
        call_ensures(barker_mono, (), pulse),
    ensures
        pulse@.len() == 1100,
        forall|i: int|
            0 <= i < 1100 ==> #[trigger] pulse@[i] == if i < 300 || 600 <= i < 700 || 900 <= i
                < 1000 {
                0x3f80_0000u32
            } else {
                0xbf80_0000u32
            },
{
    assert forall|i: int| 0 <= i < 1100 implies #[trigger] pulse@[i] == if i < 300 || 600 <= i < 700
        || 900 <= i < 1000 {
        0x3f80_0000u32
    } else {
        0xbf80_0000u32
    } by {
        assert(0 <= i / 100 < 11);
    }
}

/// A stream that is asked for a pulse queues the one that is listened for, on both
/// channels.
pub proof fn law_queued_pulse_is_the_one_listened_for<D: Fn(Sample, Sample) -> Sample>(
    s: &mut ChannelStream,
    chunk: Option<AudioSamples>,
    mix: &D,
    r: Conditioned,
    pulse: Vec<Sample>,
    f: int,
)
    requires
        call_ensures(ChannelStream::add_samples::<D>, (s, chunk, true, mix), r),
        call_ensures(barker_mono, (), pulse),
        0 <= f < pulse@.len(),
    ensures
        ({
            let added = final(s)@.state.fifo.skip(old(s)@.state.fifo.len() as int);
            &&& added.len() >= 2 * pulse@.len()
            &&& added[2 * f] == pulse@[f]
            &&& added[2 * f + 1] == pulse@[f]
        }),
{
    law_pulse_is_the_barker_sequence(pulse);
    crate::laws::queue::law_stream_queues_the_whole_pulse(s, chunk, mix, r);
}

/// Interleaved samples become one for each whole frame: what `mean` gives for the samples
/// of all channels at that frame. Without channels there is none.
pub proof fn law_downmix_takes_each_frame<M: Fn(&[Sample]) -> Sample>(
    samples: &[Sample],
    channels: usize,
    mean: &M,
    out: Vec<Sample>,
)
    requires
        call_ensures(downmix_interleaved::<M>, (samples, channels, mean), out),
    ensures
        channels == 0 ==> out@.len() == 0,
        channels > 0 ==> out@.len() * channels <= samples@.len() < out@.len() * channels + channels,
        channels > 0 ==> forall|f: int|
            0 <= f < out@.len() ==> may_give(
                *mean,
                samples@.subrange(f * channels, f * channels + channels),
                #[trigger] out@[f],
            ),
{
    if channels > 0 {
        lemma_frames(samples@, channels, *mean, out@);
    }
}

/// What downmixed samples are.
proof fn lemma_frames<M: Fn(&[Sample]) -> Sample>(
    samples: Seq<Sample>,
    channels: usize,
    mean: M,
    mono: Seq<Sample>,
)
    requires
        downmixed(mean, samples, channels, mono),
        channels > 0,
    ensures
        mono.len() * channels <= samples.len() < mono.len() * channels + channels,
        forall|f: int|
            0 <= f < mono.len() ==> may_give(
                mean,
                samples.subrange(f * channels, f * channels + channels),
                #[trigger] mono[f],
            ),
{
    let len = samples.len() as int;
    let c = channels as int;
    vstd::arithmetic::div_mod::lemma_fundamental_div_mod(len, c);
    vstd::arithmetic::div_mod::lemma_mod_bound(len, c);
    assert(c * (len / c) == (len / c) * c) by (nonlinear_arith);
    assert forall|f: int| 0 <= f < mono.len() implies may_give(
                mean,
                samples.subrange(f * channels, f * channels + channels),
                #[trigger] mono[f],
            ) by {
        assert(gives(mean, frame(samples, channels, f), mono[f]));
    }
}

/// Whether a pulse of so many samples is looked for at a place: at each multiple of four
/// (of a two thousandth of its length, for pulses of 10,000 samples and more) from which
/// on there is more to hear than the pulse is long.
pub open spec fn is_looked_at(p: int, heard: int, pulse_len: int) -> bool {
    &&& 0 <= p < heard - pulse_len
    &&& p % (if pulse_len < 10_000 {
        4
    } else {
        pulse_len / 2000
    }) == 0
}

/// A place is looked at exactly when it is one of those that are scored.
proof fn lemma_place(p: int, heard: nat, pulse_len: nat)
    requires
        pulse_len <= heard,
    ensures
        search_step(pulse_len) >= 4,
        is_looked_at(p, heard as int, pulse_len as int) ==> {
            let n = p / search_step(pulse_len);
            0 <= n < places(heard, pulse_len) && p == n * search_step(pulse_len)
        },
{
    let step = search_step(pulse_len);
    if is_looked_at(p, heard as int, pulse_len as int) {
        assert(p % step == 0);
        let n = p / step;
        vstd::arithmetic::div_mod::lemma_fundamental_div_mod(p, step);
        assert(step * n == n * step) by (nonlinear_arith);
        vstd::arithmetic::div_mod::lemma_div_pos_is_pos(p, step);
        crate::listener::lemma_more_places((heard - pulse_len) as int, step, n);
    }
}

/// The place of a score is looked at.
proof fn lemma_score_place(n: int, heard: nat, pulse_len: nat)
    requires
        pulse_len <= heard,
        0 <= n < places(heard, pulse_len),
    ensures
        is_looked_at(n * search_step(pulse_len), heard as int, pulse_len as int),
{
    let step = search_step(pulse_len);
    crate::listener::lemma_more_places((heard - pulse_len) as int, step, n);
    vstd::arithmetic::div_mod::lemma_mod_multiples_basic(n, step);
    assert(n * step >= 0) by (nonlinear_arith)
        requires
            n >= 0,
            step >= 0,
    ;
}

/// What scores and the best of them say of places.
proof fn lemma_best<S: Fn(&[Sample]) -> Sample>(
    score: S,
    heard: Seq<Sample>,
    pulse_len: nat,
    scores: Seq<Sample>,
    best: Sample,
)
    requires
        pulse_len <= heard.len(),
        scored(score, heard, pulse_len, scores),
        is_best(scores, best),
    ensures
        best <= 0x7f80_0000,
        best > 0 ==> exists|p: int| #[trigger]
            is_looked_at(p, heard.len() as int, pulse_len as int) && may_give(
                score,
                heard.subrange(p, p + pulse_len),
                best,
            ),
        forall|p: int| #[trigger]
            is_looked_at(p, heard.len() as int, pulse_len as int) ==> exists|
                v: Sample,
            | #[trigger]
                may_give(score, heard.subrange(p, p + pulse_len), v) && (
                    v <= best || v > 0x7f80_0000
                ),
{
    let step = search_step(pulse_len);
    if best > 0 {
        let n = choose|n: int| 0 <= n < scores.len() && scores[n] == best;
        lemma_score_place(n, heard.len(), pulse_len);
        let p = n * step;
        assert(gives(score, window(heard, pulse_len, n), scores[n]));
        assert(may_give(score, heard.subrange(p, p + pulse_len), best));
        assert(is_looked_at(p, heard.len() as int, pulse_len as int));
    }
    assert forall|p: int| #[trigger]
        is_looked_at(p, heard.len() as int, pulse_len as int) implies exists|
                v: Sample,
            | #[trigger]
                may_give(score, heard.subrange(p, p + pulse_len), v) && (
                    v <= best || v > 0x7f80_0000
                ) by {
        lemma_place(p, heard.len(), pulse_len);
        let n = p / step;
        assert(gives(score, window(heard, pulse_len, n), scores[n]));
        assert(may_give(score, heard.subrange(p, p + pulse_len), scores[n]));
    }
}

/// The best score is that of a place at which the pulse is looked for, or zero, and at no
/// such place is the score a greater number.
pub proof fn law_best_score_is_the_greatest<S: Fn(&[Sample]) -> Sample>(
    heard: &[Sample],
    pulse_len: usize,
    score: &S,
    best: Sample,
)
    requires
        call_ensures(best_score::<S>, (heard, pulse_len, score), best),
        pulse_len <= heard@.len(),
    ensures
        best <= 0x7f80_0000,
        best > 0 ==> exists|p: int| #[trigger]
            is_looked_at(p, heard@.len() as int, pulse_len as int) && may_give(
                *score,
                heard@.subrange(p, p + pulse_len),
                best,
            ),
        forall|p: int| #[trigger]
            is_looked_at(p, heard@.len() as int, pulse_len as int) ==> exists|
                v: Sample,
            | #[trigger]
                may_give(*score, heard@.subrange(p, p + pulse_len), v) && (
                    v <= best || v > 0x7f80_0000
                ),
{
    let scores = choose|scores: Seq<Sample>| #[trigger]
        scored(*score, heard@, pulse_len as nat, scores) && is_best(scores, best);
    lemma_best(*score, heard@, pulse_len as nat, scores, best);
}

/// While no pulse is waited for, what is heard is thrown away.
pub proof fn law_nothing_is_heard_without_a_pulse<
    M: Fn(&[Sample]) -> Sample,
    S: Fn(&[Sample]) -> Sample,
>(
    interleaved: &[Sample],
    channels: usize,
    buffer: &mut Vec<Sample>,
    pulse_len: usize,
    mean: &M,
    score: &S,
    detected: Option<Sample>,
)
    requires
        call_ensures(
            process_input::<M, S>,
            (0, interleaved, channels, buffer, pulse_len, mean, score),
            detected,
        ),
    ensures
        detected is None,
        final(buffer)@.len() == 0,
{
}

/// While a pulse is waited for, the mean of each frame is added to what was heard before,
/// of which the last 100,000 samples are kept when there are more than 150,000. The pulse
/// is detected exactly when its score is 0.35 or more at a place at which it is looked
/// for, and then with the greatest of the scores; all that was heard is then thrown away.
pub proof fn law_pulse_is_detected_where_it_scores<
    M: Fn(&[Sample]) -> Sample,
    S: Fn(&[Sample]) -> Sample,
>(
    injected_at: u64,
    interleaved: &[Sample],
    channels: usize,
    buffer: &mut Vec<Sample>,
    pulse_len: usize,
    mean: &M,
    score: &S,
    detected: Option<Sample>,
)
    requires
        call_ensures(
            process_input::<M, S>,
            (injected_at, interleaved, channels, buffer, pulse_len, mean, score),
            detected,
        ),
        injected_at > 0,
    ensures
        exists|mono: Seq<Sample>, heard: Seq<Sample>|
            {
                &&& channels == 0 ==> mono.len() == 0
                &&& channels > 0 ==> mono.len() * channels <= interleaved@.len() < mono.len()
                    * channels + channels
                &&& forall|f: int|
                    0 <= f < mono.len() ==> may_give(
                *mean,
                interleaved@.subrange(f * channels, f * channels + channels),
                #[trigger] mono[f],
            )
                &&& #[trigger] is_kept_of(heard, old(buffer)@ + mono)
                &&& detected matches Some(best) ==> {
                    &&& final(buffer)@.len() == 0
                    &&& 0x3eb3_3333 <= best <= 0x7f80_0000
                    &&& pulse_len <= heard.len()
                    &&& exists|p: int| #[trigger]
            is_looked_at(p, heard.len() as int, pulse_len as int) && may_give(
                *score,
                heard.subrange(p, p + pulse_len),
                best,
            )
                    &&& forall|p: int| #[trigger]
                        is_looked_at(p, heard.len() as int, pulse_len as int) ==> exists|
                v: Sample,
            | #[trigger]
                may_give(*score, heard.subrange(p, p + pulse_len), v) && (
                    v <= best || v > 0x7f80_0000
                )
                }
                &&& detected is None ==> {
                    &&& final(buffer)@ == heard
                    &&& forall|p: int| #[trigger]
                        is_looked_at(p, heard.len() as int, pulse_len as int) ==> exists|
                v: Sample,
            | #[trigger]
                may_give(*score, heard.subrange(p, p + pulse_len), v) && (
                    v < 0x3eb3_3333 || v > 0x7f80_0000
                )
                }
            },
{
    let mono = choose|mono: Seq<Sample>|
        {
            let heard = capped(old(buffer)@ + mono);
            &&& #[trigger] downmixed(*mean, interleaved@, channels, mono)
            &&& final(buffer)@ == if detected is Some {
                Seq::empty()
            } else {
                heard
            }
            &&& if heard.len() < pulse_len {
                detected is None
            } else {
                exists|scores: Seq<Sample>, best: Sample|
                    {
                        &&& #[trigger] scored(*score, heard, pulse_len as nat, scores)
                        &&& #[trigger] is_best(scores, best)
                        &&& detected == if best >= crate::listener::NCC_THRESHOLD {
                            Some(best)
                        } else {
                            None::<Sample>
                        }
                    }
            }
        };
    let heard = capped(old(buffer)@ + mono);
    if channels > 0 {
        lemma_frames(interleaved@, channels, *mean, mono);
    }
    assert(is_kept_of(heard, old(buffer)@ + mono));
    if heard.len() >= pulse_len {
        let (scores, best) = choose|scores: Seq<Sample>, best: Sample|
            {
                &&& #[trigger] scored(*score, heard, pulse_len as nat, scores)
                &&& #[trigger] is_best(scores, best)
                &&& detected == if best >= crate::listener::NCC_THRESHOLD {
                    Some(best)
                } else {
                    None::<Sample>
                }
            };
        lemma_best(*score, heard, pulse_len as nat, scores, best);
        assert forall|p: int| #[trigger]
            is_looked_at(p, heard.len() as int, pulse_len as int) && detected is None implies exists|
                v: Sample,
            | #[trigger]
                may_give(*score, heard.subrange(p, p + pulse_len), v) && (
                    v < 0x3eb3_3333 || v > 0x7f80_0000
                ) by {
            let v = choose|v: Sample| #[trigger]
                may_give(*score, heard.subrange(p, p + pulse_len), v) && (
                    v <= best || v
                    > 0x7f80_0000
                );
            assert(may_give(*score, heard.subrange(p, p + pulse_len), v));
        }
    }
}

/// What was heard without a detection is kept: one sample more for each frame, but no more
/// than the last 100,000 once there are more than 150,000.
pub proof fn law_heard_samples_are_bounded<
    M: Fn(&[Sample]) -> Sample,
    S: Fn(&[Sample]) -> Sample,
>(
    injected_at: u64,
    interleaved: &[Sample],
    channels: usize,
    buffer: &mut Vec<Sample>,
    pulse_len: usize,
    mean: &M,
    score: &S,
    frames: int,
)
    requires
        call_ensures(
            process_input::<M, S>,
            (injected_at, interleaved, channels, buffer, pulse_len, mean, score),
            None,
        ),
        injected_at > 0,
        channels > 0,
        frames * channels <= interleaved@.len() < frames * channels + channels,
    ensures
        old(buffer)@.len() + frames <= 150_000 ==> final(buffer)@.len() == old(buffer)@.len()
            + frames && final(buffer)@.take(old(buffer)@.len() as int) == old(buffer)@,
        old(buffer)@.len() + frames > 150_000 ==> final(buffer)@.len() == 100_000,
{
    let mono = choose|mono: Seq<Sample>|
        {
            &&& #[trigger] downmixed(*mean, interleaved@, channels, mono)
            &&& final(buffer)@ == capped(old(buffer)@ + mono)
        };
    lemma_frames(interleaved@, channels, *mean, mono);
    let c = channels as int;
    let n = mono.len() as int;
    assert(n == frames) by (nonlinear_arith)
        requires
            n * c < frames * c + c,
            frames * c < n * c + c,
            c > 0,
    ;
    if old(buffer)@.len() + frames <= 150_000 {
        assert(final(buffer)@.take(old(buffer)@.len() as int) =~= old(buffer)@);
    }
}

/// Whether `kept` is what is kept of samples: all of up to 150,000, else the last 100,000.
pub open spec fn is_kept_of(kept: Seq<Sample>, all: Seq<Sample>) -> bool {
    kept == if all.len() > 150_000 {
        all.subrange(all.len() - 100_000, all.len() as int)
    } else {
        all
    }
}

/// A pulse of 1100 samples that is heard clearly is detected: when `score` gives 0.35 or
/// more, and nothing else, for what was heard from some multiple of four on, and more is
/// heard behind it. Here nothing was heard before, and each sample is a frame of its own
/// that `mean` leaves alone.
pub proof fn law_clear_pulse_is_detected<M: Fn(&[Sample]) -> Sample, S: Fn(&[Sample]) -> Sample>(
    injected_at: u64,
    interleaved: &[Sample],
    buffer: &mut Vec<Sample>,
    mean: &M,
    score: &S,
    detected: Option<Sample>,
    p: int,
)
    requires
        call_ensures(
            process_input::<M, S>,
            (injected_at, interleaved, 1, buffer, 1100, mean, score),
            detected,
        ),
        injected_at > 0,
        old(buffer)@.len() == 0,
        interleaved@.len() <= 150_000,
        forall|x: &[Sample], m: Sample| #[trigger]
            mean.ensures((x,), m) && x@.len() == 1 ==> m == x@[0],
        0 <= p < interleaved@.len() - 1100,
        p % 4 == 0,
        forall|x: &[Sample], v: Sample| #[trigger]
            score.ensures((x,), v) && x@ == interleaved@.subrange(p, p + 1100) ==> 0x3eb3_3333 <= v
                <= 0x7f80_0000,
    ensures
        detected is Some,
{
    let mono = choose|mono: Seq<Sample>|
        {
            let heard = capped(old(buffer)@ + mono);
            &&& #[trigger] downmixed(*mean, interleaved@, 1, mono)
            &&& final(buffer)@ == if detected is Some {
                Seq::empty()
            } else {
                heard
            }
            &&& if heard.len() < 1100 {
                detected is None
            } else {
                exists|scores: Seq<Sample>, best: Sample|
                    {
                        &&& #[trigger] scored(*score, heard, 1100, scores)
                        &&& #[trigger] is_best(scores, best)
                        &&& detected == if best >= crate::listener::NCC_THRESHOLD {
                            Some(best)
                        } else {
                            None::<Sample>
                        }
                    }
            }
        };
    let heard = capped(old(buffer)@ + mono);
    lemma_frames(interleaved@, 1, *mean, mono);
    assert forall|f: int| 0 <= f < mono.len() implies mono[f] == interleaved@[f] by {
        assert(may_give(*mean, interleaved@.subrange(f * 1, f * 1 + 1), mono[f]));
        let x = choose|x: &[Sample]|
            x@ == interleaved@.subrange(f * 1, f * 1 + 1) && #[trigger] mean.ensures(
                (x,),
                mono[f],
            );
        assert(x@[0] == interleaved@[f]);
    }
    assert(mono =~= interleaved@);
    assert(heard =~= interleaved@);
    let (scores, best) = choose|scores: Seq<Sample>, best: Sample|
        {
            &&& #[trigger] scored(*score, heard, 1100, scores)
            &&& #[trigger] is_best(scores, best)
            &&& detected == if best >= crate::listener::NCC_THRESHOLD {
                Some(best)
            } else {
                None::<Sample>
            }
        };
    lemma_best(*score, heard, 1100, scores, best);
    assert(is_looked_at(p, heard.len() as int, 1100));
}

} // verus!
