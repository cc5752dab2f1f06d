//! What a calibration does, action after action, and what a measurement tells.
use crate::autocalibrate::{
    measure_latency_roundtrip, measure_roundtrip, measured_by, Calibration, CalibrationAction,
    CalibrationStage, Measurement,
};
use crate::channel;
use crossbeam_channel::{Receiver, Sender};
use vstd::prelude::*;

verus! {

/// How many of the first `n` actions are measurements.
pub open spec fn measurements(actions: Seq<CalibrationAction>, n: int) -> nat
    decreases n,
{
    if n <= 0 {
        0
    } else {
        measurements(actions, n - 1) + if actions[n - 1] is Measure {
            1nat
        } else {
            0
        }
    }
}

/// How many of the first `n` actions stop the renderers.
pub open spec fn stops(actions: Seq<CalibrationAction>, n: int) -> nat
    decreases n,
{
    if n <= 0 {
        0
    } else {
        stops(actions, n - 1) + if actions[n - 1] is StopPlayers {
            1nat
        } else {
            0
        }
    }
}

/// How many of the first `n` actions are measurements that gave a latency above the
/// threshold.
pub open spec fn too_high(
    threshold_ms: u32,
    actions: Seq<CalibrationAction>,
    given: Seq<Option<u64>>,
    n: int,
) -> nat
    decreases n,
{
    if n <= 0 {
        0
    } else {
        too_high(threshold_ms, actions, given, n - 1) + if actions[n - 1] is Measure && (
        given[n - 1] matches Some(ms) && ms > threshold_ms) {
            1nat
        } else {
            0
        }
    }
}

/// Where a calibration stands after so many of its actions.
proof fn lemma_stands(
    threshold_ms: u32,
    max_retries: usize,
    states: Seq<Calibration>,
    actions: Seq<CalibrationAction>,
    given: Seq<Option<u64>>,
    n: int,
)
    requires
        states.len() == actions.len() == given.len(),
        0 <= n < states.len(),
        states[0] == (Calibration {
            threshold_ms,
            max_retries,
            attempt: 0,
            stage: CalibrationStage::Settling,
        }),
        forall|i: int|
            0 <= i < states.len() ==> #[trigger] actions[i] == states[i].current(),
        forall|i: int|
            0 <= i < states.len() - 1 ==> states[i].wf() ==> #[trigger] states[i].after(given[i])
                == states[i + 1],
    ensures
        states[n].wf(),
        states[n].threshold_ms == threshold_ms,
        states[n].max_retries == max_retries,
        actions[n] == states[n].current(),
        states[n].attempt == measurements(actions, n),
        n + 1 < states.len() ==> states[n + 1] == states[n].after(given[n]),
    decreases n,
{
    if n > 0 {
        lemma_stands(threshold_ms, max_retries, states, actions, given, n - 1);
        assert(states[n - 1].after(given[n - 1]) == states[n]);
    }
    assert(actions[n] == states[n].current());
    if n + 1 < states.len() {
        assert(states[n].after(given[n]) == states[n + 1]);
    }
}

/// What follows an action, for a calibration in plain states.
proof fn lemma_next_action(
    threshold_ms: u32,
    max_retries: usize,
    states: Seq<Calibration>,
    actions: Seq<CalibrationAction>,
    given: Seq<Option<u64>>,
    i: int,
)
    requires
        states.len() == actions.len() == given.len(),
        0 <= i < states.len() - 1,
        states[0] == (Calibration {
            threshold_ms,
            max_retries,
            attempt: 0,
            stage: CalibrationStage::Settling,
        }),
        forall|i: int|
            0 <= i < states.len() ==> #[trigger] actions[i] == states[i].current(),
        forall|i: int|
            0 <= i < states.len() - 1 ==> states[i].wf() ==> #[trigger] states[i].after(given[i])
                == states[i + 1],
    ensures
        actions[0] == CalibrationAction::Sleep(800),
        actions[i + 1] is StopPlayers <==> actions[i] is Measure && (given[i] matches Some(ms) && ms
            > threshold_ms),
        actions[i + 1] == CalibrationAction::Sleep(250) <==> actions[i] is StopPlayers,
        actions[i + 1] is StartPlayers <==> actions[i] == CalibrationAction::Sleep(250),
        actions[i + 1] == CalibrationAction::Sleep(1200) <==> actions[i] is StartPlayers,
        actions[i + 1] == CalibrationAction::Sleep(400) <==> actions[i] is Measure && given[i]
            is None,
        actions[i + 1] matches CalibrationAction::Accept(ms) ==> (actions[i] is Measure && given[i]
            == Some(ms) && ms <= threshold_ms) || actions[i] == CalibrationAction::Accept(ms),
        actions[i] is Measure && (given[i] matches Some(ms) && ms <= threshold_ms)
            ==> actions[i + 1] == CalibrationAction::Accept(given[i]->0),
        actions[i] is Accept ==> actions[i + 1] == actions[i],
        actions[i] == CalibrationAction::Sleep(800) || actions[i] == CalibrationAction::Sleep(400)
            || actions[i] == CalibrationAction::Sleep(1200) ==> actions[i + 1] == if measurements(
            actions,
            i,
        ) < max_retries {
            CalibrationAction::Measure
        } else {
            CalibrationAction::GiveUp
        },
        actions[i] is GiveUp ==> actions[i + 1] is GiveUp,
        measurements(actions, i + 1) <= max_retries,
        states[i].attempt == measurements(actions, i),
{
    lemma_stands(threshold_ms, max_retries, states, actions, given, 0);
    lemma_stands(threshold_ms, max_retries, states, actions, given, i);
    lemma_stands(threshold_ms, max_retries, states, actions, given, i + 1);
}

/// A calibration lets the renderers settle for 800 ms. Then it measures. Each latency
/// above the threshold, and nothing else, makes it stop all renderers, pause for 250 ms,
/// start them all and wait for 1200 ms; no measurement makes it wait for 400 ms; each
/// latency up to the threshold is accepted. After a wait it measures again while it has
/// made fewer measurements than it may, and else gives up. Once it has accepted or given
/// up it does nothing more.
pub proof fn law_calibration_reconnects_while_latency_is_high(
    threshold_ms: u32,
    max_retries: usize,
    states: Seq<Calibration>,
    actions: Seq<CalibrationAction>,
    given: Seq<Option<u64>>,
    i: int,
)
    requires
        states.len() == actions.len() == given.len(),
        0 <= i < states.len() - 1,
        call_ensures(Calibration::begin, (threshold_ms, max_retries), states[0]),
        forall|i: int|
            0 <= i < states.len() ==> call_ensures(
                Calibration::action,
                (&#[trigger] states[i],),
                actions[i],
            ),
        forall|i: int|
            0 <= i < states.len() - 1 ==> exists|c: &mut Calibration|
                *c == #[trigger] states[i] && *final(c) == states[i + 1] && #[trigger] call_ensures(
                    Calibration::advance,
                    (c, given[i]),
                    (),
                ),
    ensures
        actions[0] == CalibrationAction::Sleep(800),
        actions[i + 1] is StopPlayers <==> actions[i] is Measure && (given[i] matches Some(ms) && ms
            > threshold_ms),
        actions[i + 1] == CalibrationAction::Sleep(250) <==> actions[i] is StopPlayers,
        actions[i + 1] is StartPlayers <==> actions[i] == CalibrationAction::Sleep(250),
        actions[i + 1] == CalibrationAction::Sleep(1200) <==> actions[i] is StartPlayers,
        actions[i + 1] == CalibrationAction::Sleep(400) <==> actions[i] is Measure && given[i]
            is None,
        actions[i + 1] matches CalibrationAction::Accept(ms) ==> (actions[i] is Measure && given[i]
            == Some(ms) && ms <= threshold_ms) || actions[i] == CalibrationAction::Accept(ms),
        actions[i] is Measure && (given[i] matches Some(ms) && ms <= threshold_ms)
            ==> actions[i + 1] == CalibrationAction::Accept(given[i]->0),
        actions[i] is Accept ==> actions[i + 1] == actions[i],
        actions[i] == CalibrationAction::Sleep(800) || actions[i] == CalibrationAction::Sleep(400)
            || actions[i] == CalibrationAction::Sleep(1200) ==> actions[i + 1] == if measurements(
            actions,
            i,
        ) < max_retries {
            CalibrationAction::Measure
        } else {
            CalibrationAction::GiveUp
        },
        actions[i] is GiveUp ==> actions[i + 1] is GiveUp,
        measurements(actions, i + 1) <= max_retries,
        states[i].attempt == measurements(actions, i),
{
    assert forall|i: int| 0 <= i < states.len() implies #[trigger] actions[i]
        == states[i].current() by {
        assert(call_ensures(Calibration::action, (&states[i],), actions[i]));
    }
    assert forall|i: int| 0 <= i < states.len() - 1 && states[i].wf() implies #[trigger] states[i].after(
        given[i],
    ) == states[i + 1] by {
        let c = choose|c: &mut Calibration|
            *c == states[i] && *final(c) == states[i + 1] && #[trigger] call_ensures(
                Calibration::advance,
                (c, given[i]),
                (),
            );
        assert(call_ensures(Calibration::advance, (c, given[i]), ()));
    }
    lemma_next_action(threshold_ms, max_retries, states, actions, given, i);
}

/// The stops of a calibration, in plain states.
proof fn lemma_stops(
    threshold_ms: u32,
    max_retries: usize,
    states: Seq<Calibration>,
    actions: Seq<CalibrationAction>,
    given: Seq<Option<u64>>,
    n: int,
)
    requires
        states.len() == actions.len() == given.len(),
        0 <= n < states.len(),
        states[0] == (Calibration {
            threshold_ms,
            max_retries,
            attempt: 0,
            stage: CalibrationStage::Settling,
        }),
        forall|i: int|
            0 <= i < states.len() ==> #[trigger] actions[i] == states[i].current(),
        forall|i: int|
            0 <= i < states.len() - 1 ==> states[i].wf() ==> #[trigger] states[i].after(given[i])
                == states[i + 1],
    ensures
        stops(actions, n + 1) == too_high(threshold_ms, actions, given, n),
    decreases n,
{
    reveal_with_fuel(stops, 2);
    if n > 0 {
        lemma_stops(threshold_ms, max_retries, states, actions, given, n - 1);
        lemma_next_action(threshold_ms, max_retries, states, actions, given, n - 1);
    } else {
        lemma_stands(threshold_ms, max_retries, states, actions, given, 0);
    }
}

/// A calibration stops the renderers as many times as it measures a latency above the
/// threshold.
pub proof fn law_each_high_latency_stops_the_renderers(
    threshold_ms: u32,
    max_retries: usize,
    states: Seq<Calibration>,
    actions: Seq<CalibrationAction>,
    given: Seq<Option<u64>>,
    n: int,
)
    requires
        states.len() == actions.len() == given.len(),
        0 <= n < states.len(),
        call_ensures(Calibration::begin, (threshold_ms, max_retries), states[0]),
        forall|i: int|
            0 <= i < states.len() ==> call_ensures(
                Calibration::action,
                (&#[trigger] states[i],),
                actions[i],
            ),
        forall|i: int|
            0 <= i < states.len() - 1 ==> exists|c: &mut Calibration|
                *c == #[trigger] states[i] && *final(c) == states[i + 1] && #[trigger] call_ensures(
                    Calibration::advance,
                    (c, given[i]),
                    (),
                ),
    ensures
        stops(actions, n + 1) == too_high(threshold_ms, actions, given, n),
{
    assert forall|i: int| 0 <= i < states.len() implies #[trigger] actions[i]
        == states[i].current() by {
        assert(call_ensures(Calibration::action, (&states[i],), actions[i]));
    }
    assert forall|i: int| 0 <= i < states.len() - 1 && states[i].wf() implies #[trigger] states[i].after(
        given[i],
    ) == states[i + 1] by {
        let c = choose|c: &mut Calibration|
            *c == states[i] && *final(c) == states[i + 1] && #[trigger] call_ensures(
                Calibration::advance,
                (c, given[i]),
                (),
            );
        assert(call_ensures(Calibration::advance, (c, given[i]), ()));
    }
    lemma_stops(threshold_ms, max_retries, states, actions, given, n);
}

/// A reply is the latency that it holds, the end of a measurement that was abandoned, or
/// absent when none came in time.
pub proof fn law_reply_tells_the_latency(reply: Option<Option<u64>>, m: Measurement)
    requires
        call_ensures(Measurement::of_reply, (reply,), m),
    ensures
        reply matches Some(Some(ms)) ==> m == Measurement::Measured(ms),
        m matches Measurement::Measured(ms) ==> reply == Some(Some(ms)),
        reply == Some(None::<u64>) <==> m is Abandoned,
        reply is None <==> m is TimedOut,
{
}

/// Only a measurement gives a latency, and the one that was measured.
pub proof fn law_only_a_measurement_has_a_latency(m: Measurement, r: Option<u64>)
    requires
        call_ensures(Measurement::latency, (&m,), r),
    ensures
        r is Some <==> m is Measured,
        m matches Measurement::Measured(ms) ==> r == Some(ms),
{
}

/// A latency is what came out of the channel that was armed, within five seconds of the
/// pulse that was asked for after that; a pulse that could not be asked for gives none.
pub proof fn law_latency_is_the_reply_to_the_pulse<
    T,
    A: FnOnce(Sender<Option<u64>>) -> T,
    W: FnOnce(T, Receiver<Option<u64>>) -> Option<Receiver<Option<u64>>>,
>(arm: A, write_trigger: W, r: Option<u64>)
    requires
        call_ensures(measure_latency_roundtrip::<T, A, W>, (arm, write_trigger), r),
    ensures
        exists|
            tx: Sender<Option<u64>>,
            rx: Receiver<Option<u64>>,
            armed: T,
            written: Option<Receiver<Option<u64>>>,
        |
            {
                &&& #[trigger] channel::was_opened(1, (tx, rx))
                &&& arm.ensures((tx,), armed)
                &&& #[trigger] write_trigger.ensures((armed, rx), written)
                &&& written is None ==> r is None
                &&& written matches Some(back) ==> exists|reply: Option<Option<u64>>|
                    {
                        &&& #[trigger] channel::was_received(back, 5000, reply)
                        &&& reply matches Some(Some(ms)) ==> r == Some(ms)
                        &&& r matches Some(ms) ==> reply == Some(Some(ms))
                    }
            },
{
    let m = choose|m: Measurement| #[trigger]
        measured_by(arm, write_trigger, m) && r == m.millis();
    assert(measured_by(arm, write_trigger, m));
}

/// A measurement is told as it came: that the pulse could not be asked for, or the reply
/// to it within five seconds.
pub proof fn law_measurement_is_told_as_it_came<
    T,
    A: FnOnce(Sender<Option<u64>>) -> T,
    W: FnOnce(T, Receiver<Option<u64>>) -> Option<Receiver<Option<u64>>>,
>(arm: A, write_trigger: W, m: Measurement)
    requires
        call_ensures(measure_roundtrip::<T, A, W>, (arm, write_trigger), m),
    ensures
        exists|
            tx: Sender<Option<u64>>,
            rx: Receiver<Option<u64>>,
            armed: T,
            written: Option<Receiver<Option<u64>>>,
        |
            {
                &&& #[trigger] channel::was_opened(1, (tx, rx))
                &&& arm.ensures((tx,), armed)
                &&& #[trigger] write_trigger.ensures((armed, rx), written)
                &&& written is None ==> m is NotTriggered
                &&& written matches Some(back) ==> exists|reply: Option<Option<u64>>|
                    {
                        &&& #[trigger] channel::was_received(back, 5000, reply)
                        &&& reply is None ==> m is TimedOut
                        &&& reply == Some(None::<u64>) ==> m is Abandoned
                        &&& reply matches Some(Some(ms)) ==> m == Measurement::Measured(ms)
                    }
            },
{
}

} // verus!
