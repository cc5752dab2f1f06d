//! The clock, and who is told a latency.
use crate::channel;
use crate::latency::{
    arm_latency_response_waiter, as_millis, complete_latency_measurement, latency_between, now_ms,
    pulse_trigger_path, replace_waiter, stamp_ms, take_latency_reply, was_read, PendingReply,
};
use crate::paths::components;
use crossbeam_channel::Sender;
use std::path::PathBuf;
use vstd::prelude::*;

verus! {

/// The milliseconds of a span are the whole ones that it has.
pub proof fn law_milliseconds_are_whole(secs: u64, nanos: u32, r: u128)
    requires
        call_ensures(as_millis, (secs, nanos), r),
    ensures
        r * 1_000_000 <= secs * 1_000_000_000 + nanos < r * 1_000_000 + 1_000_000,
{
}

/// A time stamp is the milliseconds since the epoch, as far as 64 bits go; there is none
/// for a clock that is set before it.
pub proof fn law_stamp_is_milliseconds(since_epoch: Option<(u64, u32)>, r: Option<u64>)
    requires
        call_ensures(stamp_ms, (since_epoch,), r),
    ensures
        since_epoch is None <==> r is None,
        since_epoch matches Some(t) ==> r->0 == (t.0 * 1000 + t.1 as int / 1_000_000)
            % 0x1_0000_0000_0000_0000,
{
}

/// The time now is that of the clock, in milliseconds.
pub proof fn law_now_is_read_from_the_clock(r: Option<u64>)
    requires
        call_ensures(now_ms, (), r),
    ensures
        exists|t: Option<(u64, u32)>|
            {
                &&& #[trigger] was_read(t)
                &&& t is None <==> r is None
                &&& t matches Some(p) ==> r->0 == (p.0 * 1000 + p.1 as int / 1_000_000)
                    % 0x1_0000_0000_0000_0000
            },
{
}

/// A latency is the time that has passed since the pulse; none, when the clock went back.
pub proof fn law_latency_is_the_time_passed(injected_at: u64, now: u64, ms: u64)
    requires
        call_ensures(latency_between, (injected_at, now), ms),
    ensures
        injected_at <= now ==> injected_at + ms == now,
        injected_at > now ==> ms == 0,
{
}

/// The file that asks for a pulse is in the directory of the configuration.
pub proof fn law_trigger_file_is_in_the_directory(dir: &PathBuf, path: PathBuf)
    requires
        call_ensures(pulse_trigger_path, (dir,), path),
    ensures
        components(path).len() == components(*dir).len() + 1,
        components(path).drop_last() == components(*dir),
        components(path).last() == "trigger_pulse.txt"@,
{
    assert(components(path).drop_last() =~= components(*dir));
}

/// A new waiter takes the place of an earlier one, which is owed `None`.
pub proof fn law_replaced_waiter_is_owed_none(
    pending: &mut PendingReply,
    reply: Sender<Option<u64>>,
    r: Option<(Sender<Option<u64>>, Option<u64>)>,
)
    requires
        call_ensures(replace_waiter, (pending, reply), r),
    ensures
        *final(pending) == Some(reply),
        *old(pending) is None <==> r is None,
        *old(pending) matches Some(waiter) ==> (r->0).0 == waiter && (r->0).1 is None,
{
}

/// A new waiter takes the place of an earlier one, which is told `None`.
pub proof fn law_replaced_waiter_is_told_none(
    pending: &mut PendingReply,
    reply: Sender<Option<u64>>,
    abandoned: bool,
)
    requires
        call_ensures(arm_latency_response_waiter, (pending, reply), abandoned),
    ensures
        *final(pending) == Some(reply),
        abandoned == (*old(pending) is Some),
        *old(pending) matches Some(waiter) ==> exists|r: Result<(), Option<u64>>| #[trigger]
            channel::was_offered(waiter, None, r),
{
}

/// A measurement is owed to the waiter that is there, which leaves its place.
pub proof fn law_waiter_is_owed_the_latency(
    pending: &mut PendingReply,
    millis: u64,
    r: Option<(Sender<Option<u64>>, Option<u64>)>,
)
    requires
        call_ensures(take_latency_reply, (pending, millis), r),
    ensures
        *final(pending) is None,
        *old(pending) is None <==> r is None,
        *old(pending) matches Some(waiter) ==> (r->0).0 == waiter && (r->0).1 == Some(millis),
{
}

/// A measurement is told to the waiter that is there, which leaves its place.
pub proof fn law_waiter_is_told_the_latency(
    pending: &mut PendingReply,
    millis: u64,
    answered: bool,
)
    requires
        call_ensures(complete_latency_measurement, (pending, millis), answered),
    ensures
        *final(pending) is None,
        answered == (*old(pending) is Some),
        *old(pending) matches Some(waiter) ==> exists|r: Result<(), Option<u64>>| #[trigger]
            channel::was_put(waiter, Some(millis), r),
{
}

} // verus!
