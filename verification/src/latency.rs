//! The latency pulse, the clock that times it and the waiter for its result.
use crate::channel;
use crate::paths::{components, join};
use crate::sample::{Sample, FULL_SCALE, NEGATIVE_FULL_SCALE};
use crossbeam_channel::Sender;
use std::path::PathBuf;
use std::time::SystemTime;
use vstd::prelude::*;

verus! {

/// The waiter for the next measurement, when there is one. The waiter gets
/// `Some` latency in milliseconds, or `None` when the measurement is abandoned.
pub type PendingReply = Option<Sender<Option<u64>>>;

/// Calls `SystemTime::elapsed` on the Unix epoch: the time that has passed since
/// then, in whole seconds and the nanoseconds beyond them, or nothing when the
/// clock is set before the epoch. Only the range of the nanoseconds is claimed.
#[verifier::external_body]
pub(crate) fn time_since_epoch() -> (r: Option<(u64, u32)>)
    ensures
        r matches Some(t) ==> t.1 < 1_000_000_000,
{
    match SystemTime::UNIX_EPOCH.elapsed() {
        Ok(d) => Some((d.as_secs(), d.subsec_nanos())),
        Err(_) => None,
    }
}

/// Whether a call of [`time_since_epoch`] has read `t` from the clock.
pub open(crate) spec fn was_read(t: Option<(u64, u32)>) -> bool {
    call_ensures(time_since_epoch, (), t)
}

/// The whole milliseconds of a span of time.
pub open spec fn millis(secs: u64, nanos: u32) -> int {
    secs * 1000 + nanos as int / 1_000_000
}

/// The whole milliseconds of a span of time.
pub fn as_millis(secs: u64, nanos: u32) -> (r: u128)
    ensures
        r == millis(secs, nanos),
{
    secs as u128 * 1000 + (nanos / 1_000_000) as u128
}

/// The milliseconds of a span since the epoch, in the 64 bits of a time stamp.
pub open spec fn stamp_of(since_epoch: Option<(u64, u32)>) -> Option<u64> {
    match since_epoch {
        Some(t) => Some((millis(t.0, t.1) % 0x1_0000_0000_0000_0000) as u64),
        None => None,
    }
}

/// The milliseconds of a span since the epoch, in the 64 bits of a time stamp.
pub fn stamp_ms(since_epoch: Option<(u64, u32)>) -> (r: Option<u64>)
    ensures
        r == stamp_of(since_epoch),
{
    match since_epoch {
        Some(t) => Some((as_millis(t.0, t.1) % 0x1_0000_0000_0000_0000) as u64),
        None => None,
    }
}

/// The time now in milliseconds since the Unix epoch, or nothing when the clock
/// is set before it: the time stamp of what is read from the clock.
pub fn now_ms() -> (r: Option<u64>)
    ensures
        exists|t: Option<(u64, u32)>| #[trigger] was_read(t) && r == stamp_of(t),
{
    let t: Option<(u64, u32)> = time_since_epoch();
    assert(was_read(t));
    stamp_ms(t)
}

/// The Barker sequence of length eleven.
pub open spec fn barker_sequence() -> Seq<Sample> {
    seq![
        FULL_SCALE,
        FULL_SCALE,
        FULL_SCALE,
        NEGATIVE_FULL_SCALE,
        NEGATIVE_FULL_SCALE,
        NEGATIVE_FULL_SCALE,
        FULL_SCALE,
        NEGATIVE_FULL_SCALE,
        NEGATIVE_FULL_SCALE,
        FULL_SCALE,
        NEGATIVE_FULL_SCALE,
    ]
}

/// The latency pulse: each element of the Barker sequence a hundred times.
pub open spec fn barker_pulse() -> Seq<Sample> {
    Seq::new(1100, |i: int| barker_sequence()[i / 100])
}

/// The latency pulse for one channel, stretched so that it can be heard and
/// detected (about 25 ms).
pub fn barker_mono() -> (pulse: Vec<Sample>)
    ensures
        pulse@ == barker_pulse(),
{
    let barker: [Sample; 11] = [
        FULL_SCALE,
        FULL_SCALE,
        FULL_SCALE,
        NEGATIVE_FULL_SCALE,
        NEGATIVE_FULL_SCALE,
        NEGATIVE_FULL_SCALE,
        FULL_SCALE,
        NEGATIVE_FULL_SCALE,
        NEGATIVE_FULL_SCALE,
        FULL_SCALE,
        NEGATIVE_FULL_SCALE,
    ];
    let mut pulse: Vec<Sample> = Vec::with_capacity(1100);
    let mut i: usize = 0;
    assert(barker@ =~= barker_sequence());
    while i < 1100
        invariant
            i <= 1100,
            barker@ == barker_sequence(),
            pulse@.len() == i,
            forall|k: int| 0 <= k < i ==> #[trigger] pulse@[k] == barker_sequence()[k / 100],
        decreases 1100 - i,
    {
        pulse.push(barker[i / 100]);
        i += 1;
    }
    assert(pulse@ =~= barker_pulse());
    pulse
}

/// The file whose presence asks for a latency pulse, in the directory of the
/// configuration.
#[must_use]
pub fn pulse_trigger_path(config_dir: &PathBuf) -> (path: PathBuf)
    ensures
        components(path) == components(*config_dir).push("trigger_pulse.txt"@),
{
    proof {
        reveal_strlit("trigger_pulse.txt");
        assert("trigger_pulse.txt"@[0] == 't');
    }
    join(config_dir, "trigger_pulse.txt")
}

/// The message that an earlier waiter is owed when another takes its place: that its
/// measurement is abandoned.
pub open spec fn owed_on_arm(pending: PendingReply) -> Option<(Sender<Option<u64>>, Option<u64>)> {
    match pending {
        Some(waiter) => Some((waiter, None::<u64>)),
        None => None,
    }
}

/// The message that the waiter is owed for a measurement of `millis`.
pub open spec fn owed_on_completion(pending: PendingReply, millis: u64) -> Option<
    (Sender<Option<u64>>, Option<u64>),
> {
    match pending {
        Some(waiter) => Some((waiter, Some(millis))),
        None => None,
    }
}

/// Puts a waiter into its place and takes an earlier one out, with the message that
/// this one is owed: its measurement is abandoned.
pub fn replace_waiter(pending: &mut PendingReply, reply: Sender<Option<u64>>) -> (r: Option<
    (Sender<Option<u64>>, Option<u64>),
>)
    ensures
        *final(pending) == Some(reply),
        r == owed_on_arm(*old(pending)),
{
    let r: Option<(Sender<Option<u64>>, Option<u64>)> = match pending.take() {
        Some(waiter) => Some((waiter, None)),
        None => None,
    };
    *pending = Some(reply);
    r
}

/// Registers the waiter for the next measurement. An earlier one is told that its
/// measurement is abandoned, where its channel has room; says whether there was one.
/// Never waits.
///
/// Whether that message arrives is up to the waiting thread and is not stated.
pub fn arm_latency_response_waiter(pending: &mut PendingReply, reply: Sender<Option<u64>>) -> (
abandoned: bool)
    ensures
        *final(pending) == Some(reply),
        abandoned == (*old(pending) is Some),
        *old(pending) matches Some(waiter) ==> exists|r: Result<(), Option<u64>>| #[trigger]
            channel::was_offered(waiter, None, r),
{
    match replace_waiter(pending, reply) {
        Some(owed) => {
            let r: Result<(), Option<u64>> = channel::offer(&owed.0, owed.1);
            assert(channel::was_offered(owed.0, None, r));
            true
        },
        None => false,
    }
}

/// Takes the waiter out of its place, with the message that it is owed for a
/// measurement of `millis`.
pub fn take_latency_reply(pending: &mut PendingReply, millis: u64) -> (r: Option<
    (Sender<Option<u64>>, Option<u64>),
>)
    ensures
        *final(pending) is None,
        r == owed_on_completion(*old(pending), millis),
{
    match pending.take() {
        Some(waiter) => Some((waiter, Some(millis))),
        None => None,
    }
}

/// Puts a measurement into the channel of the waiter, when there is one, and says
/// whether there was. The waiter leaves its place, so that it is answered once.
///
/// Whether the message arrives is up to the waiting thread and is not stated.
pub fn complete_latency_measurement(pending: &mut PendingReply, millis: u64) -> (answered: bool)
    ensures
        *final(pending) is None,
        answered == (*old(pending) is Some),
        *old(pending) matches Some(waiter) ==> exists|r: Result<(), Option<u64>>| #[trigger]
            channel::was_put(waiter, Some(millis), r),
{
    match take_latency_reply(pending, millis) {
        Some(owed) => {
            let r: Result<(), Option<u64>> = channel::send(&owed.0, owed.1);
            assert(channel::was_put(owed.0, Some(millis), r));
            true
        },
        None => false,
    }
}

/// What happens to the place of the waiter.
pub enum WaiterEvent {
    /// A waiter was registered by [`arm_latency_response_waiter`].
    Armed { waiter: Sender<Option<u64>> },
    /// A measurement was handed on by [`complete_latency_measurement`].
    Completed { millis: u64 },
}

/// Who waits after the events.
pub open spec fn waiting_after(pending: PendingReply, events: Seq<WaiterEvent>) -> PendingReply {
    if events.len() == 0 {
        pending
    } else {
        match events.last() {
            WaiterEvent::Armed { waiter } => Some(waiter),
            WaiterEvent::Completed { .. } => None,
        }
    }
}

/// The messages that waiters are owed for the events, one after the other.
pub open spec fn owed_for(pending: PendingReply, events: Seq<WaiterEvent>) -> Seq<
    (Sender<Option<u64>>, Option<u64>),
>
    decreases events.len(),
{
    if events.len() == 0 {
        Seq::empty()
    } else {
        let before = events.drop_last();
        let waiting = waiting_after(pending, before);
        let owed = match events.last() {
            WaiterEvent::Armed { .. } => owed_on_arm(waiting),
            WaiterEvent::Completed { millis } => owed_on_completion(waiting, millis),
        };
        match owed {
            Some(message) => owed_for(pending, before).push(message),
            None => owed_for(pending, before),
        }
    }
}

/// The waiters that were registered, one after the other.
pub open spec fn armed_in(events: Seq<WaiterEvent>) -> Seq<Sender<Option<u64>>>
    decreases events.len(),
{
    if events.len() == 0 {
        Seq::empty()
    } else {
        match events.last() {
            WaiterEvent::Armed { waiter } => armed_in(events.drop_last()).push(waiter),
            WaiterEvent::Completed { .. } => armed_in(events.drop_last()),
        }
    }
}

/// The waiter in its place, if there is one, as a sequence.
pub open spec fn waiters_of(pending: PendingReply) -> Seq<Sender<Option<u64>>> {
    match pending {
        Some(waiter) => seq![waiter],
        None => Seq::empty(),
    }
}

/// Each waiter is owed one message, in the order in which they came, but for the one
/// that still waits: none is passed over and none is answered twice.
pub proof fn law_each_waiter_is_answered_once(pending: PendingReply, events: Seq<WaiterEvent>)
    ensures
        owed_for(pending, events).map_values(
            |m: (Sender<Option<u64>>, Option<u64>)| m.0,
        ) + waiters_of(waiting_after(pending, events)) == waiters_of(pending) + armed_in(events),
    decreases events.len(),
{
    let first = |m: (Sender<Option<u64>>, Option<u64>)| m.0;
    if events.len() == 0 {
        assert(owed_for(pending, events).map_values(first) =~= Seq::empty());
        assert(waiters_of(pending) + armed_in(events) =~= waiters_of(pending));
    } else {
        let before = events.drop_last();
        law_each_waiter_is_answered_once(pending, before);
        let waiting = waiting_after(pending, before);
        let done = owed_for(pending, before).map_values(first);
        assert(owed_for(pending, events).map_values(first) =~= done + waiters_of(waiting));
        assert(done + waiters_of(waiting) =~= waiters_of(pending) + armed_in(before));
        assert(owed_for(pending, events).map_values(first) + waiters_of(
            waiting_after(pending, events),
        ) =~= waiters_of(pending) + armed_in(events));
    }
}

/// A measurement goes to the waiter that was registered last and to no other, and one
/// that follows it goes to nobody.
pub proof fn law_last_waiter_gets_the_measurement(
    pending: PendingReply,
    first: Sender<Option<u64>>,
    last: Sender<Option<u64>>,
    millis: u64,
    late: u64,
)
    ensures
        owed_for(
            pending,
            seq![
                WaiterEvent::Armed { waiter: first },
                WaiterEvent::Armed { waiter: last },
                WaiterEvent::Completed { millis },
                WaiterEvent::Completed { millis: late },
            ],
        ) == (match pending {
            Some(waiter) => seq![(waiter, None::<u64>)],
            None => Seq::empty(),
        }) + seq![(first, None::<u64>), (last, Some(millis))],
{
    let e0: Seq<WaiterEvent> = seq![];
    let e1 = e0.push(WaiterEvent::Armed { waiter: first });
    let e2 = e1.push(WaiterEvent::Armed { waiter: last });
    let e3 = e2.push(WaiterEvent::Completed { millis });
    let e4 = e3.push(WaiterEvent::Completed { millis: late });
    assert(e1.drop_last() =~= e0);
    assert(e2.drop_last() =~= e1);
    assert(e3.drop_last() =~= e2);
    assert(e4.drop_last() =~= e3);
    assert(e4 =~= seq![
        WaiterEvent::Armed { waiter: first },
        WaiterEvent::Armed { waiter: last },
        WaiterEvent::Completed { millis },
        WaiterEvent::Completed { millis: late },
    ]);
    reveal_with_fuel(owed_for, 5);
    assert(owed_for(pending, e4) =~= (match pending {
        Some(waiter) => seq![(waiter, None::<u64>)],
        None => Seq::empty(),
    }) + seq![(first, None::<u64>), (last, Some(millis))]);
}

/// The time from the injection of a pulse to its detection. A clock that was set
/// back in between gives zero.
pub fn latency_between(injected_at: u64, now: u64) -> (millis: u64)
    ensures
        millis == if now >= injected_at {
            now - injected_at
        } else {
            0
        },
{
    now.saturating_sub(injected_at)
}

} // verus!
