//! Startup latency calibration: a pulse is sent, its round trip measured, and the
//! renderers are reconnected while it takes too long.
use crate::channel;
use crossbeam_channel::{Receiver, Sender};
use vstd::prelude::*;

verus! {

/// How long the detection of a pulse is waited for, in milliseconds.
pub const MEASUREMENT_TIMEOUT: u64 = 5_000;

/// The time that renderers get to open the stream before the first pulse.
pub const SETTLE_MS: u64 = 800;

/// The pause after a pulse that was not detected.
pub const BACKOFF_MS: u64 = 400;

/// The pause between the stop and the start of the renderers.
pub const GAP_MS: u64 = 250;

/// The time that renderers get after they were started again.
pub const RESTART_MS: u64 = 1_200;

/// What came of a measurement.
#[derive(Clone, Copy, Debug, PartialEq, Eq, Structural)]
pub enum Measurement {
    /// The pulse could not be asked for.
    NotTriggered,
    /// No reply came in time.
    TimedOut,
    /// Another measurement took its place.
    Abandoned,
    /// The latency in milliseconds.
    Measured(u64),
}

impl Measurement {
    /// The measurement that a reply gives.
    pub open spec fn of(reply: Option<Option<u64>>) -> Measurement {
        match reply {
            Some(Some(ms)) => Measurement::Measured(ms),
            Some(None) => Measurement::Abandoned,
            None => Measurement::TimedOut,
        }
    }

    /// The measurement that a reply gives.
    pub fn of_reply(reply: Option<Option<u64>>) -> (r: Measurement)
        ensures
            r == Measurement::of(reply),
    {
        match reply {
            Some(Some(ms)) => Measurement::Measured(ms),
            Some(None) => Measurement::Abandoned,
            None => Measurement::TimedOut,
        }
    }

    /// The latency, when there is one.
    pub open spec fn millis(self) -> Option<u64> {
        match self {
            Measurement::Measured(ms) => Some(ms),
            _ => None,
        }
    }

    /// The latency in milliseconds, when there is one.
    pub fn latency(&self) -> (r: Option<u64>)
        ensures
            r == self.millis(),
    {
        match self {
            Measurement::Measured(ms) => Some(*ms),
            _ => None,
        }
    }
}

/// Whether `m` is what a pulse gives: a new channel was opened, its sender armed, then
/// the pulse asked for with what arming gave, and then, when it could be, a reply waited
/// for on the receiver that came back from there.
pub open spec fn measured_by<T, A: FnOnce(Sender<Option<u64>>) -> T, W: FnOnce(
    T,
    Receiver<Option<u64>>,
) -> Option<Receiver<Option<u64>>>>(arm: A, write_trigger: W, m: Measurement) -> bool {
    exists|
        tx: Sender<Option<u64>>,
        rx: Receiver<Option<u64>>,
        armed: T,
        written: Option<Receiver<Option<u64>>>,
    |
        {
            &&& #[trigger] channel::was_opened(1, (tx, rx))
            &&& arm.ensures((tx,), armed)
            &&& #[trigger] write_trigger.ensures((armed, rx), written)
            &&& match written {
                Some(back) => exists|reply: Option<Option<u64>>| #[trigger]
                    channel::was_received(back, MEASUREMENT_TIMEOUT, reply) && m
                        == Measurement::of(reply),
                None => m is NotTriggered,
            }
        }
}

/// Sends a pulse and waits for its detection, which needs an active stream.
///
/// Each step is given what the one before it made: `arm` registers one end of a new
/// channel as the waiter, `write_trigger` then asks for the pulse and gives the other
/// end back if it could, and the reply is waited for there.
///
/// What the listener replies is up to another thread and is not stated.
pub fn measure_roundtrip<T, A: FnOnce(Sender<Option<u64>>) -> T, W: FnOnce(
    T,
    Receiver<Option<u64>>,
) -> Option<Receiver<Option<u64>>>>(arm: A, write_trigger: W) -> (m: Measurement)
    requires
        forall|reply: Sender<Option<u64>>| #[trigger] arm.requires((reply,)),
        forall|armed: T, rx: Receiver<Option<u64>>| #[trigger] write_trigger.requires((armed, rx)),
    ensures
        measured_by(arm, write_trigger, m),
{
    let (tx, rx): (Sender<Option<u64>>, Receiver<Option<u64>>) = channel::bounded_channel(1);
    assert(channel::was_opened(1, (tx, rx)));
    let armed: T = arm(tx);
    let ghost given = armed;
    let written: Option<Receiver<Option<u64>>> = write_trigger(armed, rx);
    assert(write_trigger.ensures((given, rx), written));
    match written {
        None => Measurement::NotTriggered,
        Some(back) => {
            let reply: Option<Option<u64>> = channel::receive_within(&back, MEASUREMENT_TIMEOUT);
            assert(channel::was_received(back, MEASUREMENT_TIMEOUT, reply));
            Measurement::of_reply(reply)
        },
    }
}

/// The latency in milliseconds that a pulse gives, as [`measure_roundtrip`] measures it:
/// nothing when the pulse could not be asked for, was not detected in time or its
/// measurement was abandoned.
#[must_use]
pub fn measure_latency_roundtrip<T, A: FnOnce(Sender<Option<u64>>) -> T, W: FnOnce(
    T,
    Receiver<Option<u64>>,
) -> Option<Receiver<Option<u64>>>>(arm: A, write_trigger: W) -> (r: Option<u64>)
    requires
        forall|reply: Sender<Option<u64>>| #[trigger] arm.requires((reply,)),
        forall|armed: T, rx: Receiver<Option<u64>>| #[trigger] write_trigger.requires((armed, rx)),
    ensures
        exists|m: Measurement| #[trigger]
            measured_by(arm, write_trigger, m) && r == m.millis(),
{
    let m: Measurement = measure_roundtrip(arm, write_trigger);
    m.latency()
}

/// What is done next in a calibration.
#[derive(Clone, Copy, Debug, PartialEq, Eq, Structural)]
pub enum CalibrationAction {
    /// Wait for so many milliseconds.
    Sleep(u64),
    /// Measure the latency.
    Measure,
    /// Stop all renderers.
    StopPlayers,
    /// Start all renderers.
    StartPlayers,
    /// The latency, in milliseconds, is good: done.
    Accept(u64),
    /// All attempts are used up: done.
    GiveUp,
}

/// Where a calibration stands.
#[derive(Clone, Copy, Debug, PartialEq, Eq, Structural)]
pub enum CalibrationStage {
    Settling,
    Measuring,
    BackingOff,
    Stopping,
    Pausing,
    Starting,
    Restarting,
    Accepted(u64),
    GivenUp,
}

/// A startup calibration.
#[derive(Clone, Copy, Debug, PartialEq, Eq, Structural)]
pub struct Calibration {
    /// The greatest latency that is good enough, in milliseconds.
    pub threshold_ms: u32,
    /// How many measurements are made at most.
    pub max_retries: usize,
    /// How many measurements were made.
    pub attempt: usize,
    /// What comes next.
    pub stage: CalibrationStage,
}

impl Calibration {
    /// Whether the calibration is in a state that it can get to.
    pub open spec fn wf(self) -> bool {
        &&& self.attempt <= self.max_retries
        &&& self.stage is Measuring ==> self.attempt < self.max_retries
    }

    /// Whether the calibration has come to its end.
    pub open spec fn finished(self) -> bool {
        self.stage is Accepted || self.stage is GivenUp
    }

    /// The action of each stage.
    pub open spec fn current(self) -> CalibrationAction {
        match self.stage {
            CalibrationStage::Settling => CalibrationAction::Sleep(SETTLE_MS),
            CalibrationStage::Measuring => CalibrationAction::Measure,
            CalibrationStage::BackingOff => CalibrationAction::Sleep(BACKOFF_MS),
            CalibrationStage::Stopping => CalibrationAction::StopPlayers,
            CalibrationStage::Pausing => CalibrationAction::Sleep(GAP_MS),
            CalibrationStage::Starting => CalibrationAction::StartPlayers,
            CalibrationStage::Restarting => CalibrationAction::Sleep(RESTART_MS),
            CalibrationStage::Accepted(ms) => CalibrationAction::Accept(ms),
            CalibrationStage::GivenUp => CalibrationAction::GiveUp,
        }
    }

    /// The stage of the next attempt, when one is left.
    pub open spec fn next_attempt(self) -> CalibrationStage {
        if self.attempt < self.max_retries {
            CalibrationStage::Measuring
        } else {
            CalibrationStage::GivenUp
        }
    }

    /// The calibration after its action was done, with the latency that it
    /// measured, where it was a measurement that gave one.
    pub open spec fn after(self, measured: Option<u64>) -> Calibration {
        match self.stage {
            CalibrationStage::Measuring => Calibration {
                attempt: (self.attempt + 1) as usize,
                stage: match measured {
                    None => CalibrationStage::BackingOff,
                    Some(ms) => if ms <= self.threshold_ms {
                        CalibrationStage::Accepted(ms)
                    } else {
                        CalibrationStage::Stopping
                    },
                },
                ..self
            },
            CalibrationStage::Stopping => Calibration { stage: CalibrationStage::Pausing, ..self },
            CalibrationStage::Pausing => Calibration { stage: CalibrationStage::Starting, ..self },
            CalibrationStage::Starting => Calibration {
                stage: CalibrationStage::Restarting,
                ..self
            },
            CalibrationStage::Accepted(_) | CalibrationStage::GivenUp => self,
            _ => Calibration { stage: self.next_attempt(), ..self },
        }
    }

    /// A calibration that has not done anything yet.
    pub fn begin(threshold_ms: u32, max_retries: usize) -> (r: Calibration)
        ensures
            r.wf(),
            r == (Calibration {
                threshold_ms,
                max_retries,
                attempt: 0,
                stage: CalibrationStage::Settling,
            }),
    {
        Calibration { threshold_ms, max_retries, attempt: 0, stage: CalibrationStage::Settling }
    }

    /// What is to be done next.
    pub fn action(&self) -> (r: CalibrationAction)
        ensures
            r == self.current(),
    {
        match self.stage {
            CalibrationStage::Settling => CalibrationAction::Sleep(SETTLE_MS),
            CalibrationStage::Measuring => CalibrationAction::Measure,
            CalibrationStage::BackingOff => CalibrationAction::Sleep(BACKOFF_MS),
            CalibrationStage::Stopping => CalibrationAction::StopPlayers,
            CalibrationStage::Pausing => CalibrationAction::Sleep(GAP_MS),
            CalibrationStage::Starting => CalibrationAction::StartPlayers,
            CalibrationStage::Restarting => CalibrationAction::Sleep(RESTART_MS),
            CalibrationStage::Accepted(ms) => CalibrationAction::Accept(ms),
            CalibrationStage::GivenUp => CalibrationAction::GiveUp,
        }
    }

    /// Goes on after the action was done. `measured` is the latency that a
    /// measurement gave; other actions give none.
    pub fn advance(&mut self, measured: Option<u64>)
        requires
            old(self).wf(),
        ensures
            final(self).wf(),
            *final(self) == old(self).after(measured),
    {
        match self.stage {
            CalibrationStage::Measuring => {
                self.attempt += 1;
                self.stage = match measured {
                    None => CalibrationStage::BackingOff,
                    Some(ms) => if ms <= self.threshold_ms as u64 {
                        CalibrationStage::Accepted(ms)
                    } else {
                        CalibrationStage::Stopping
                    },
                };
            },
            CalibrationStage::Stopping => {
                self.stage = CalibrationStage::Pausing;
            },
            CalibrationStage::Pausing => {
                self.stage = CalibrationStage::Starting;
            },
            CalibrationStage::Starting => {
                self.stage = CalibrationStage::Restarting;
            },
            CalibrationStage::Accepted(_) | CalibrationStage::GivenUp => {},
            _ => {
                self.stage = if self.attempt < self.max_retries {
                    CalibrationStage::Measuring
                } else {
                    CalibrationStage::GivenUp
                };
            },
        }
    }
}

/// What an attempt does: the measurement and what comes of it.
pub open spec fn attempt_actions(threshold_ms: u32, measured: Option<u64>) -> Seq<
    CalibrationAction,
> {
    match measured {
        None => seq![CalibrationAction::Measure, CalibrationAction::Sleep(BACKOFF_MS)],
        Some(ms) => if ms <= threshold_ms {
            seq![CalibrationAction::Measure, CalibrationAction::Accept(ms)]
        } else {
            seq![
                CalibrationAction::Measure,
                CalibrationAction::StopPlayers,
                CalibrationAction::Sleep(GAP_MS),
                CalibrationAction::StartPlayers,
                CalibrationAction::Sleep(RESTART_MS),
            ]
        },
    }
}

/// Whether a measurement is good enough.
pub open spec fn is_good(threshold_ms: u32, measured: Option<u64>) -> bool {
    measured matches Some(ms) && ms <= threshold_ms
}

/// What a calibration does, given what its measurements say: attempts one after the
/// other until one is good or none is left.
pub open spec fn attempts(
    threshold_ms: u32,
    left: nat,
    measured: spec_fn(nat) -> Option<u64>,
    made: nat,
) -> Seq<CalibrationAction>
    decreases left,
{
    if left == 0 {
        seq![CalibrationAction::GiveUp]
    } else if is_good(threshold_ms, measured(made)) {
        attempt_actions(threshold_ms, measured(made))
    } else {
        attempt_actions(threshold_ms, measured(made)) + attempts(
            threshold_ms,
            (left - 1) as nat,
            measured,
            made + 1,
        )
    }
}

/// How far a stage is from the next attempt.
pub open spec fn stage_rank(stage: CalibrationStage) -> nat {
    match stage {
        CalibrationStage::Stopping => 4,
        CalibrationStage::Pausing => 3,
        CalibrationStage::Starting => 2,
        CalibrationStage::Restarting | CalibrationStage::BackingOff | CalibrationStage::Settling => 1,
        _ => 0,
    }
}

impl Calibration {
    /// An upper bound on the actions that are left.
    pub open spec fn actions_left(self) -> nat {
        if self.finished() {
            0
        } else {
            ((self.max_retries - self.attempt) * 6 + stage_rank(self.stage)) as nat
        }
    }

    /// The actions from here to the end, where measurement number `n` gives
    /// `measured(n)`.
    pub open spec fn actions(self, measured: spec_fn(nat) -> Option<u64>) -> Seq<CalibrationAction>
        recommends
            self.wf(),
        decreases self.actions_left(),
        when self.wf()
    {
        if self.finished() {
            seq![self.current()]
        } else {
            seq![self.current()] + self.after(measured(self.attempt as nat)).actions(measured)
        }
    }
}

/// A calibration lets the renderers settle and then makes its attempts, no more than
/// it may; it ends with the first measurement that is good, and reconnects the
/// renderers after each that is not.
pub proof fn law_calibration_makes_its_attempts(
    threshold_ms: u32,
    max_retries: usize,
    measured: spec_fn(nat) -> Option<u64>,
)
    ensures
        ({
            let begun = Calibration {
                threshold_ms,
                max_retries,
                attempt: 0,
                stage: CalibrationStage::Settling,
            };
            begun.actions(measured) == seq![CalibrationAction::Sleep(SETTLE_MS)] + attempts(
                threshold_ms,
                max_retries as nat,
                measured,
                0,
            )
        }),
{
    let begun = Calibration {
        threshold_ms,
        max_retries,
        attempt: 0,
        stage: CalibrationStage::Settling,
    };
    lemma_next_attempts(begun.after(measured(0)), measured);
}

/// From the start of an attempt on, the actions are those of the attempts left.
proof fn lemma_next_attempts(c: Calibration, measured: spec_fn(nat) -> Option<u64>)
    requires
        c.wf(),
        c.stage == c.next_attempt(),
    ensures
        c.actions(measured) == attempts(
            c.threshold_ms,
            (c.max_retries - c.attempt) as nat,
            measured,
            c.attempt as nat,
        ),
    decreases c.max_retries - c.attempt,
{
    reveal_with_fuel(Calibration::actions, 6);
    if c.attempt < c.max_retries {
        let m = measured(c.attempt as nat);
        let c1 = c.after(m);
        match m {
            None => {
                lemma_next_attempts(c1.after(measured(c1.attempt as nat)), measured);
            },
            Some(ms) => {
                if ms > c.threshold_ms {
                    let x = measured(c1.attempt as nat);
                    lemma_next_attempts(c1.after(x).after(x).after(x).after(x), measured);
                }
            },
        }
        assert(c.actions(measured) =~= attempts(
            c.threshold_ms,
            (c.max_retries - c.attempt) as nat,
            measured,
            c.attempt as nat,
        ));
    }
}

/// How many of the first `n` actions are `which`.
pub open spec fn count_first(actions: Seq<CalibrationAction>, n: nat, which: CalibrationAction) -> nat
    decreases n,
{
    if n == 0 {
        0
    } else {
        count_first(actions, (n - 1) as nat, which) + if actions[n - 1] == which {
            1nat
        } else {
            0
        }
    }
}

/// How many of the actions are `which`.
pub open spec fn count(actions: Seq<CalibrationAction>, which: CalibrationAction) -> nat {
    count_first(actions, actions.len(), which)
}

/// The occurrences in two parts add up.
proof fn lemma_count_concat(
    a: Seq<CalibrationAction>,
    b: Seq<CalibrationAction>,
    n: nat,
    which: CalibrationAction,
)
    requires
        n <= b.len(),
    ensures
        count_first(a + b, a.len() + n, which) == count(a, which) + count_first(b, n, which),
    decreases n,
{
    if n == 0 {
        lemma_count_prefix(a, b, a.len(), which);
    } else {
        lemma_count_concat(a, b, (n - 1) as nat, which);
    }
}

/// What follows does not change the occurrences before it.
proof fn lemma_count_prefix(
    a: Seq<CalibrationAction>,
    b: Seq<CalibrationAction>,
    n: nat,
    which: CalibrationAction,
)
    requires
        n <= a.len(),
    ensures
        count_first(a + b, n, which) == count_first(a, n, which),
    decreases n,
{
    if n > 0 {
        lemma_count_prefix(a, b, (n - 1) as nat, which);
    }
}

/// An attempt measures once and starts the renderers when it stops them.
proof fn lemma_attempt_counts(threshold_ms: u32, measured: Option<u64>)
    ensures
        ({
            let a = attempt_actions(threshold_ms, measured);
            &&& count(a, CalibrationAction::Measure) == 1
            &&& count(a, CalibrationAction::StopPlayers) == count(
                a,
                CalibrationAction::StartPlayers,
            )
        }),
{
    reveal_with_fuel(count_first, 6);
}

/// At most as many measurements are made as there are attempts, and renderers that
/// were stopped are started again.
pub proof fn law_attempts_are_bounded(
    threshold_ms: u32,
    left: nat,
    measured: spec_fn(nat) -> Option<u64>,
    made: nat,
)
    ensures
        ({
            let a = attempts(threshold_ms, left, measured, made);
            &&& count(a, CalibrationAction::Measure) <= left
            &&& count(a, CalibrationAction::StopPlayers) == count(
                a,
                CalibrationAction::StartPlayers,
            )
        }),
    decreases left,
{
    if left == 0 {
        reveal_with_fuel(count_first, 2);
    } else {
        let head = attempt_actions(threshold_ms, measured(made));
        let rest = attempts(threshold_ms, (left - 1) as nat, measured, made + 1);
        lemma_attempt_counts(threshold_ms, measured(made));
        law_attempts_are_bounded(threshold_ms, (left - 1) as nat, measured, made + 1);
        lemma_count_concat(head, rest, rest.len(), CalibrationAction::Measure);
        lemma_count_concat(head, rest, rest.len(), CalibrationAction::StopPlayers);
        lemma_count_concat(head, rest, rest.len(), CalibrationAction::StartPlayers);
    }
}

/// Whether an action ends a calibration.
pub open spec fn is_verdict(action: CalibrationAction) -> bool {
    action is Accept || action == CalibrationAction::GiveUp
}

/// The last action, and no earlier one, is the verdict. It accepts the first good
/// measurement, and gives up only when none is good.
pub proof fn law_verdict_comes_last(
    threshold_ms: u32,
    left: nat,
    measured: spec_fn(nat) -> Option<u64>,
    made: nat,
)
    ensures
        ({
            let a = attempts(threshold_ms, left, measured, made);
            &&& a.len() > 0
            &&& is_verdict(a.last())
            &&& forall|i: int| 0 <= i < a.len() - 1 ==> !is_verdict(#[trigger] a[i])
            &&& a.last() matches CalibrationAction::Accept(ms) ==> exists|n: nat|
                {
                    &&& made <= n < made + left
                    &&& #[trigger] measured(n) == Some(ms)
                    &&& ms <= threshold_ms
                    &&& forall|k: nat|
                        made <= k < n ==> !is_good(threshold_ms, #[trigger] measured(k))
                }
            &&& a.last() == CalibrationAction::GiveUp ==> forall|n: nat|
                made <= n < made + left ==> !is_good(threshold_ms, #[trigger] measured(n))
        }),
    decreases left,
{
    let a = attempts(threshold_ms, left, measured, made);
    if left > 0 {
        let m = measured(made);
        let head = attempt_actions(threshold_ms, m);
        let rest = attempts(threshold_ms, (left - 1) as nat, measured, made + 1);
        law_verdict_comes_last(threshold_ms, (left - 1) as nat, measured, made + 1);
        if is_good(threshold_ms, m) {
            assert(measured(made) == Some(m->0));
        } else {
            assert(a.last() == rest.last());
            assert forall|i: int| 0 <= i < a.len() - 1 implies !is_verdict(#[trigger] a[i]) by {
                if i >= head.len() {
                    assert(a[i] == rest[i - head.len()]);
                } else {
                    assert(a[i] == head[i]);
                }
            }
            if let CalibrationAction::Accept(ms) = a.last() {
                let n = choose|n: nat|
                    {
                        &&& made + 1 <= n < made + left
                        &&& #[trigger] measured(n) == Some(ms)
                        &&& ms <= threshold_ms
                        &&& forall|k: nat|
                            made + 1 <= k < n ==> !is_good(threshold_ms, #[trigger] measured(k))
                    };
                assert(measured(n) == Some(ms));
                assert forall|k: nat| made <= k < n implies !is_good(
                    threshold_ms,
                    #[trigger] measured(k),
                ) by {
                    if k > made {
                        assert(made + 1 <= k);
                    }
                }
            }
        }
    }
}

} // verus!
