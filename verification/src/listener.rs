//! Detection of the latency pulse in what a microphone hears.
use crate::sample::{exceeds, Sample, INFINITY};
use vstd::prelude::*;
use vstd::slice::slice_subrange;

verus! {

/// The correlation from which on a pulse counts as detected, 0.35.
pub const NCC_THRESHOLD: Sample = 0x3eb3_3333;

/// The length beyond which the buffer of heard samples is shortened, about three
/// seconds.
pub const BUFFER_LIMIT: usize = 150_000;

/// The length to which it is shortened.
pub const BUFFER_KEPT: usize = 100_000;

/// How many whole frames interleaved samples have.
pub open spec fn frame_count(len: nat, channels: usize) -> int {
    if channels == 0 {
        0
    } else {
        len as int / channels as int
    }
}

/// The samples of a frame, one for each channel.
pub open spec fn frame(samples: Seq<Sample>, channels: usize, f: int) -> Seq<Sample> {
    samples.subrange(f * channels, f * channels + channels)
}

/// Whether `f` may give `r` for `samples`.
pub open spec fn gives<F: Fn(&[Sample]) -> Sample>(f: F, samples: Seq<Sample>, r: Sample) -> bool {
    exists|s: &[Sample]| s@ == samples && #[trigger] f.ensures((s,), r)
}

/// Whether `mono` has for each whole frame a value that `mean` gives for it.
pub open spec fn downmixed<M: Fn(&[Sample]) -> Sample>(
    mean: M,
    samples: Seq<Sample>,
    channels: usize,
    mono: Seq<Sample>,
) -> bool {
    &&& mono.len() == frame_count(samples.len(), channels)
    &&& forall|f: int|
        0 <= f < mono.len() ==> gives(mean, frame(samples, channels, f), #[trigger] mono[f])
}

/// The mean of each whole frame of interleaved samples. `mean` computes it.
pub fn downmix_interleaved<M: Fn(&[Sample]) -> Sample>(
    samples: &[Sample],
    channels: usize,
    mean: &M,
) -> (out: Vec<Sample>)
    requires
        forall|s: &[Sample]| #[trigger] mean.requires((s,)),
    ensures
        downmixed(*mean, samples@, channels, out@),
{
    let mut out: Vec<Sample> = Vec::new();
    if channels == 0 {
        return out;
    }
    let len: usize = samples.len();
    let frames: usize = len / channels;
    let mut f: usize = 0;
    let mut base: usize = 0;
    proof {
        vstd::arithmetic::div_mod::lemma_fundamental_div_mod(len as int, channels as int);
        vstd::arithmetic::div_mod::lemma_mod_bound(len as int, channels as int);
        assert(channels * frames == frames * channels) by (nonlinear_arith);
    }
    while f < frames
        invariant
            f <= frames,
            len == samples@.len(),
            frames * channels <= len,
            base == f * channels,
            out@.len() == f,
            forall|s: &[Sample]| #[trigger] mean.requires((s,)),
            forall|k: int|
                0 <= k < f ==> gives(*mean, frame(samples@, channels, k), #[trigger] out@[k]),
        decreases frames - f,
    {
        assert((f + 1) * channels <= frames * channels) by (nonlinear_arith)
            requires
                f + 1 <= frames,
        ;
        assert((f + 1) * channels == f * channels + channels) by (nonlinear_arith);
        let one: &[Sample] = slice_subrange(samples, base, base + channels);
        assert(one@ == frame(samples@, channels, f as int));
        let m: Sample = mean(one);
        assert(gives(*mean, frame(samples@, channels, f as int), m));
        out.push(m);
        base += channels;
        f += 1;
    }
    out
}

/// Whether `f` gives one value for the same samples.
pub open spec fn gives_one_value<F: Fn(&[Sample]) -> Sample>(f: F) -> bool {
    forall|s: Seq<Sample>, u: Sample, v: Sample| #[trigger]
        gives(f, s, u) && #[trigger] gives(f, s, v) ==> u == v
}

/// Whole frames and what follows them are downmixed together as they are one after the
/// other, one value for each whole frame. Without channels there are no frames.
pub proof fn law_downmix_concatenates<M: Fn(&[Sample]) -> Sample>(
    mean: M,
    channels: usize,
    a: Seq<Sample>,
    b: Seq<Sample>,
    mono_a: Seq<Sample>,
    mono_b: Seq<Sample>,
    mono: Seq<Sample>,
)
    requires
        gives_one_value(mean),
        channels > 0 ==> a.len() as int % channels as int == 0,
        downmixed(mean, a, channels, mono_a),
        downmixed(mean, b, channels, mono_b),
        downmixed(mean, a + b, channels, mono),
    ensures
        mono == mono_a + mono_b,
        channels == 0 ==> mono.len() == 0,
        channels > 0 ==> mono.len() == (a + b).len() as int / channels as int,
{
    if channels > 0 {
        let c = channels as int;
        let fa = frame_count(a.len(), channels);
        let fb = frame_count(b.len(), channels);
        vstd::arithmetic::div_mod::lemma_fundamental_div_mod(a.len() as int, c);
        vstd::arithmetic::div_mod::lemma_fundamental_div_mod(b.len() as int, c);
        vstd::arithmetic::div_mod::lemma_mod_bound(b.len() as int, c);
        vstd::arithmetic::div_mod::lemma_div_multiples_vanish_fancy(
            fa + fb,
            b.len() as int % c,
            c,
        );
        assert(c * fa + c * fb == c * (fa + fb)) by (nonlinear_arith);
        assert(mono.len() == fa + fb);
        assert forall|f: int| 0 <= f < mono.len() implies mono[f] == (mono_a + mono_b)[f] by {
            assert(gives(mean, frame(a + b, channels, f), mono[f]));
            if f < fa {
                assert(0 <= f * c && f * c + c <= c * fa) by (nonlinear_arith)
                    requires
                        0 <= f,
                        f + 1 <= fa,
                        c > 0,
                ;
                assert(frame(a + b, channels, f) =~= frame(a, channels, f));
                assert(gives(mean, frame(a, channels, f), mono_a[f]));
            } else {
                let g = f - fa;
                assert(0 <= g * c && g * c + c <= c * fb && f * c == c * fa + g * c)
                    by (nonlinear_arith)
                    requires
                        f == fa + g,
                        0 <= g,
                        g + 1 <= fb,
                        c > 0,
                ;
                assert(frame(a + b, channels, f) =~= frame(b, channels, g));
                assert(gives(mean, frame(b, channels, g), mono_b[g]));
            }
        }
        assert(mono =~= mono_a + mono_b);
    } else {
        assert(mono =~= mono_a + mono_b);
    }
}

/// What is kept of the heard samples: all of them, or the last when there are too
/// many.
pub open spec fn capped(heard: Seq<Sample>) -> Seq<Sample> {
    if heard.len() > BUFFER_LIMIT {
        heard.skip(heard.len() - BUFFER_KEPT)
    } else {
        heard
    }
}

/// The distance between the places at which a pulse is looked for.
pub open spec fn search_step(pulse_len: nat) -> int {
    if pulse_len as int / 2000 > 4 {
        pulse_len as int / 2000
    } else {
        4
    }
}

/// How many places are looked at.
pub open spec fn places(heard_len: nat, pulse_len: nat) -> int {
    (heard_len - pulse_len + search_step(pulse_len) - 1) / search_step(pulse_len)
}

/// What is heard at a place, for as long as the pulse is.
pub open spec fn window(heard: Seq<Sample>, pulse_len: nat, n: int) -> Seq<Sample> {
    heard.subrange(n * search_step(pulse_len), n * search_step(pulse_len) + pulse_len)
}

/// Whether `scores` has for each place a value that `score` gives for it.
pub open spec fn scored<S: Fn(&[Sample]) -> Sample>(
    score: S,
    heard: Seq<Sample>,
    pulse_len: nat,
    scores: Seq<Sample>,
) -> bool {
    &&& scores.len() == places(heard.len(), pulse_len)
    &&& forall|n: int|
        0 <= n < scores.len() ==> gives(score, window(heard, pulse_len, n), #[trigger] scores[n])
}

/// Whether `best` is the greatest of the scores that are positive numbers, or zero
/// when there is none.
pub open spec fn is_best(scores: Seq<Sample>, best: Sample) -> bool {
    &&& best <= INFINITY
    &&& best == 0 || scores.contains(best)
    &&& forall|n: int| 0 <= n < scores.len() ==> !exceeds(#[trigger] scores[n], best)
}

/// The best score of all places at which a pulse may have been heard.
pub fn best_score<S: Fn(&[Sample]) -> Sample>(
    heard: &[Sample],
    pulse_len: usize,
    score: &S,
) -> (best: Sample)
    requires
        pulse_len <= heard@.len(),
        forall|s: &[Sample]| #[trigger] score.requires((s,)),
    ensures
        exists|scores: Seq<Sample>| #[trigger]
            scored(*score, heard@, pulse_len as nat, scores) && is_best(scores, best),
{
    let len: usize = heard.len();
    let search_len: usize = len - pulse_len;
    let step: usize = if pulse_len / 2000 > 4 {
        pulse_len / 2000
    } else {
        4
    };
    let ghost mut scores: Seq<Sample> = Seq::empty();
    let mut best: Sample = 0;
    let mut i: usize = 0;
    let mut done: bool = search_len == 0;
    proof {
        if search_len == 0 {
            vstd::arithmetic::div_mod::lemma_basic_div(step - 1, step as int);
        } else {
            lemma_more_places(search_len as int, step as int, 0);
        }
    }
    while !done
        invariant
            len == heard@.len(),
            pulse_len <= len,
            search_len == len - pulse_len,
            step == search_step(pulse_len as nat),
            step >= 4,
            !done ==> i < search_len,
            !done ==> i == scores.len() * step,
            done ==> scores.len() == places(len as nat, pulse_len as nat),
            forall|s: &[Sample]| #[trigger] score.requires((s,)),
            forall|n: int|
                0 <= n < scores.len() ==> gives(
                    *score,
                    window(heard@, pulse_len as nat, n),
                    #[trigger] scores[n],
                ),
            is_best(scores, best),
        decreases
                (if done {
                    0
                } else {
                    search_len - i
                }),
    {
        let here: &[Sample] = slice_subrange(heard, i, i + pulse_len);
        let ncc: Sample = score(here);
        let ghost before = scores;
        proof {
            assert(here@ == window(heard@, pulse_len as nat, scores.len() as int));
            assert(gives(*score, window(heard@, pulse_len as nat, scores.len() as int), ncc));
            scores = scores.push(ncc);
            let n = before.len() as int;
            assert((n + 1) * step == n * step + step) by (nonlinear_arith);
            lemma_more_places(search_len as int, step as int, n + 1);
            lemma_more_places(search_len as int, step as int, n);
        }
        if ncc > best && ncc <= INFINITY {
            best = ncc;
            assert(scores[before.len() as int] == ncc);
        } else if best != 0 {
            proof {
                let k = choose|k: int| 0 <= k < before.len() && before[k] == best;
                assert(scores[k] == best);
            }
        }
        if step < search_len - i {
            i += step;
        } else {
            done = true;
        }
    }
    assert(scored(*score, heard@, pulse_len as nat, scores));
    best
}

/// Takes in what a microphone heard while the pulse that was injected at
/// `injected_at` is waited for; a time of zero stands for no pulse. The score of
/// the pulse when it was detected.
///
/// `mean` computes the mean of a frame, and `score` the normalized correlation of
/// what was heard with the pulse.
pub fn process_input<M: Fn(&[Sample]) -> Sample, S: Fn(&[Sample]) -> Sample>(
    injected_at: u64,
    interleaved: &[Sample],
    channels: usize,
    buffer: &mut Vec<Sample>,
    pulse_len: usize,
    mean: &M,
    score: &S,
) -> (detected: Option<Sample>)
    requires
        forall|s: &[Sample]| #[trigger] mean.requires((s,)),
        forall|s: &[Sample]| #[trigger] score.requires((s,)),
    ensures
        final(buffer)@.len() <= BUFFER_LIMIT,
        detected matches Some(ncc) ==> NCC_THRESHOLD <= ncc <= INFINITY,
        injected_at == 0 ==> detected is None && final(buffer)@.len() == 0,
        injected_at != 0 ==> exists|mono: Seq<Sample>|
            {
                let heard = capped(old(buffer)@ + mono);
                &&& #[trigger] downmixed(*mean, interleaved@, channels, mono)
                &&& final(buffer)@ == if detected is Some {
                    Seq::empty()
                } else {
                    heard
                }
                &&& if heard.len() < pulse_len {
                    detected is None
                } else {
                    exists|scores: Seq<Sample>, best: Sample|
                        {
                            &&& #[trigger] scored(*score, heard, pulse_len as nat, scores)
                            &&& #[trigger] is_best(scores, best)
                            &&& detected == if best >= NCC_THRESHOLD {
                                Some(best)
                            } else {
                                None::<Sample>
                            }
                        }
                }
            },
{
    if injected_at == 0 {
        buffer.clear();
        return None;
    }
    let mono: Vec<Sample> = downmix_interleaved(interleaved, channels, mean);
    buffer.extend_from_slice(mono.as_slice());
    assert(buffer@ =~= old(buffer)@ + mono@);
    if buffer.len() > BUFFER_LIMIT {
        let kept: Vec<Sample> = buffer.split_off(buffer.len() - BUFFER_KEPT);
        *buffer = kept;
    }
    let ghost heard = capped(old(buffer)@ + mono@);
    assert(buffer@ =~= heard);
    if buffer.len() < pulse_len {
        return None;
    }
    let best: Sample = best_score(buffer.as_slice(), pulse_len, score);
    if best >= NCC_THRESHOLD {
        buffer.clear();
        Some(best)
    } else {
        None
    }
}

/// A pulse is detected exactly when it scores well enough at some place.
pub proof fn law_detection_needs_one_good_place(scores: Seq<Sample>, best: Sample)
    requires
        is_best(scores, best),
    ensures
        best >= NCC_THRESHOLD <==> exists|n: int|
            0 <= n < scores.len() && NCC_THRESHOLD <= #[trigger] scores[n] <= INFINITY,
{
    if best >= NCC_THRESHOLD {
        let n = choose|n: int| 0 <= n < scores.len() && scores[n] == best;
        assert(NCC_THRESHOLD <= scores[n] <= INFINITY);
    }
}

/// The places are those whose distance from the start is below the search length.
pub proof fn lemma_more_places(search_len: int, step: int, n: int)
    requires
        step > 0,
        n >= 0,
    ensures
        n * step < search_len <==> n < (search_len + step - 1) / step,
{
    let q = (search_len + step - 1) / step;
    vstd::arithmetic::div_mod::lemma_fundamental_div_mod(search_len + step - 1, step);
    vstd::arithmetic::div_mod::lemma_mod_bound(search_len + step - 1, step);
    assert(step * q == q * step) by (nonlinear_arith);
    if n < q {
        assert((n + 1) * step <= q * step) by (nonlinear_arith)
            requires
                n + 1 <= q,
                step > 0,
        ;
        assert((n + 1) * step == n * step + step) by (nonlinear_arith);
    } else {
        assert(n * step >= q * step) by (nonlinear_arith)
            requires
                n >= q,
                step > 0,
        ;
    }
}

} // verus!
