use crossbeam_channel::{bounded, Receiver, Sender};
use std::cell::RefCell;
use std::path::PathBuf;
use swyh_rs::autocalibrate::{
    measure_latency_roundtrip, measure_roundtrip, Calibration, CalibrationAction, Measurement,
};
use swyh_rs::latency::{
    arm_latency_response_waiter, as_millis, complete_latency_measurement, latency_between, now_ms,
    pulse_trigger_path, replace_waiter, stamp_ms, take_latency_reply, PendingReply,
};
use swyh_rs::listener::{best_score, downmix_interleaved, process_input};

#[test]
fn clock_gives_milliseconds() {
    let before = std::time::SystemTime::UNIX_EPOCH.elapsed().unwrap().as_millis() as u64;
    let now = now_ms().unwrap();
    let after = std::time::SystemTime::UNIX_EPOCH.elapsed().unwrap().as_millis() as u64;
    assert!(before <= now && now <= after);
}

#[test]
fn milliseconds_are_whole_and_wrap() {
    assert_eq!(as_millis(12, 345_999_999), 12_345);
    assert_eq!(as_millis(u64::MAX, 999_999_999), u64::MAX as u128 * 1000 + 999);
    assert_eq!(stamp_ms(None), None);
    assert_eq!(stamp_ms(Some((1, 2_000_000))), Some(1002));
    assert_eq!(
        stamp_ms(Some((u64::MAX, 0))),
        Some((u64::MAX as u128 * 1000) as u64)
    );
}

#[test]
fn trigger_file_is_in_the_config_directory() {
    let dir = PathBuf::from("conf").join("swyh");
    let path = pulse_trigger_path(&dir);
    assert_eq!(path, dir.join("trigger_pulse.txt"));
    assert_eq!(path.parent(), Some(dir.as_path()));
}

#[test]
fn waiter_is_answered_once() {
    let mut pending: PendingReply = None;
    assert!(!complete_latency_measurement(&mut pending, 3));
    let (old_tx, old_rx) = bounded(1);
    let (tx, rx) = bounded(1);
    assert!(!arm_latency_response_waiter(&mut pending, old_tx));
    assert!(arm_latency_response_waiter(&mut pending, tx));
    assert_eq!(old_rx.try_recv(), Ok(None));
    assert!(complete_latency_measurement(&mut pending, 42));
    assert!(pending.is_none());
    assert_eq!(rx.try_recv(), Ok(Some(42)));
    assert!(old_rx.try_recv().is_err());
    assert!(!complete_latency_measurement(&mut pending, 43));
    assert!(rx.try_recv().is_err());
}

#[test]
fn replaced_waiter_is_owed_nothing_measured() {
    let (old_tx, old_rx) = bounded(1);
    let (tx, rx) = bounded(1);
    let mut pending: PendingReply = None;
    assert!(replace_waiter(&mut pending, old_tx).is_none());
    let (waiter, message) = replace_waiter(&mut pending, tx).unwrap();
    assert_eq!(message, None);
    waiter.send(message).unwrap();
    assert_eq!(old_rx.try_recv(), Ok(None));
    assert!(rx.try_recv().is_err());
    assert!(pending.is_some());
}

#[test]
fn replaced_waiter_is_never_waited_for() {
    let mut pending: PendingReply = None;
    let (full_tx, full_rx) = bounded(1);
    full_tx.send(Some(1)).unwrap();
    let (none_tx, _none_rx) = bounded(0);
    let (tx, _rx) = bounded(1);
    assert!(!arm_latency_response_waiter(&mut pending, full_tx));
    assert!(arm_latency_response_waiter(&mut pending, none_tx));
    assert!(arm_latency_response_waiter(&mut pending, tx));
    assert_eq!(full_rx.try_recv(), Ok(Some(1)));
    assert!(full_rx.try_recv().is_err());
}

type Waiting = Receiver<Option<u64>>;

#[test]
fn replaced_waiter_gets_no_measurement() {
    let slot: RefCell<Option<Sender<Option<u64>>>> = RefCell::new(None);
    let (tx, _rx) = bounded(1);
    let replace = |(): (), rx: Waiting| {
        assert!(arm_latency_response_waiter(&mut slot.borrow_mut(), tx.clone()));
        Some(rx)
    };
    let arm = |tx| *slot.borrow_mut() = Some(tx);
    assert_eq!(measure_latency_roundtrip(arm, replace), None);
    *slot.borrow_mut() = None;
    assert_eq!(measure_roundtrip(arm, replace), Measurement::Abandoned);
}

#[test]
fn reply_is_taken_with_its_message() {
    let (tx, rx) = bounded(1);
    let mut pending: PendingReply = Some(tx);
    let (waiter, message) = take_latency_reply(&mut pending, 9).unwrap();
    assert_eq!(message, Some(9));
    waiter.send(message).unwrap();
    assert_eq!(rx.recv(), Ok(Some(9)));
    assert!(take_latency_reply(&mut pending, 9).is_none());
}

#[test]
fn latency_is_never_negative() {
    assert_eq!(latency_between(100, 350), 250);
    assert_eq!(latency_between(350, 100), 0);
}

#[test]
fn replies_become_latencies() {
    for (reply, expected, latency) in [
        (Some(Some(7)), Measurement::Measured(7), Some(7)),
        (Some(None), Measurement::Abandoned, None),
        (None, Measurement::TimedOut, None),
    ] {
        assert_eq!(Measurement::of_reply(reply), expected);
        assert_eq!(expected.latency(), latency);
    }
    assert_eq!(Measurement::NotTriggered.latency(), None);
}

#[test]
fn round_trip_is_measured() {
    let slot: RefCell<Option<Sender<Option<u64>>>> = RefCell::new(None);
    let arm = |tx| *slot.borrow_mut() = Some(tx);
    let answer = |(): (), rx: Waiting| {
        assert!(complete_latency_measurement(&mut slot.borrow_mut(), 123));
        Some(rx)
    };
    assert_eq!(measure_latency_roundtrip(arm, answer), Some(123));
    assert_eq!(measure_roundtrip(arm, answer), Measurement::Measured(123));

    let abandon = |(): (), rx: Waiting| {
        slot.borrow_mut().take().unwrap().send(None).unwrap();
        Some(rx)
    };
    assert_eq!(measure_latency_roundtrip(arm, abandon), None);
    assert_eq!(measure_roundtrip(arm, abandon), Measurement::Abandoned);

    let gone = |(): (), rx: Waiting| {
        slot.borrow_mut().take();
        Some(rx)
    };
    assert_eq!(measure_latency_roundtrip(arm, gone), None);
    assert_eq!(measure_roundtrip(arm, gone), Measurement::TimedOut);
}

#[test]
fn measurement_keeps_the_order_of_its_steps() {
    let steps: RefCell<Vec<&str>> = RefCell::new(Vec::new());
    let arm = |tx: Sender<Option<u64>>| {
        assert!(tx.is_empty());
        steps.borrow_mut().push("arm");
        tx
    };
    let trigger = |tx: Sender<Option<u64>>, rx: Waiting| {
        assert_eq!(*steps.borrow(), ["arm"]);
        steps.borrow_mut().push("trigger");
        tx.send(Some(9)).unwrap();
        Some(rx)
    };
    assert_eq!(measure_latency_roundtrip(arm, trigger), Some(9));
    assert_eq!(*steps.borrow(), ["arm", "trigger"]);
}

#[test]
fn failed_trigger_gives_no_measurement() {
    let slot: RefCell<Option<Sender<Option<u64>>>> = RefCell::new(None);
    let arm = |tx| *slot.borrow_mut() = Some(tx);
    let fail = |(): (), _rx: Waiting| {
        complete_latency_measurement(&mut slot.borrow_mut(), 5);
        None
    };
    assert_eq!(measure_latency_roundtrip(arm, fail), None);
    assert_eq!(measure_roundtrip(arm, fail), Measurement::NotTriggered);
}

fn run(threshold: u32, retries: usize, measured: &[Option<u64>]) -> Vec<CalibrationAction> {
    let mut c = Calibration::begin(threshold, retries);
    let mut actions = Vec::new();
    let mut n = 0;
    loop {
        let action = c.action();
        actions.push(action);
        match action {
            CalibrationAction::Accept(_) | CalibrationAction::GiveUp => return actions,
            CalibrationAction::Measure => {
                c.advance(measured[n]);
                n += 1;
            }
            _ => c.advance(None),
        }
    }
}

#[test]
fn calibration_accepts_the_first_good_measurement() {
    assert_eq!(
        run(500, 3, &[Some(500)]),
        vec![
            CalibrationAction::Sleep(800),
            CalibrationAction::Measure,
            CalibrationAction::Accept(500),
        ]
    );
}

#[test]
fn calibration_backs_off_and_reconnects() {
    assert_eq!(
        run(500, 2, &[None, Some(501)]),
        vec![
            CalibrationAction::Sleep(800),
            CalibrationAction::Measure,
            CalibrationAction::Sleep(400),
            CalibrationAction::Measure,
            CalibrationAction::StopPlayers,
            CalibrationAction::Sleep(250),
            CalibrationAction::StartPlayers,
            CalibrationAction::Sleep(1200),
            CalibrationAction::GiveUp,
        ]
    );
    assert_eq!(
        run(0, 0, &[]),
        vec![CalibrationAction::Sleep(800), CalibrationAction::GiveUp]
    );
}

fn mean(frame: &[u32]) -> u32 {
    let mut sum = 0.0f32;
    for s in frame {
        sum += f32::from_bits(*s);
    }
    (sum / frame.len() as f32).to_bits()
}

#[test]
fn frames_are_mixed_down() {
    let samples: Vec<u32> = [1.0f32, 0.0, -1.0, 0.5, 9.0].iter().map(|s| s.to_bits()).collect();
    assert_eq!(
        downmix_interleaved(&samples, 2, &mean),
        vec![0.5f32.to_bits(), (-0.25f32).to_bits()]
    );
    assert_eq!(downmix_interleaved(&samples, 0, &mean), Vec::<u32>::new());
}

#[test]
fn whole_frames_mix_down_on_their_own() {
    let samples: Vec<u32> = (0..11).map(|i| (i as f32 * 0.125).to_bits()).collect();
    for channels in [1usize, 2, 3] {
        let cut = 2 * channels;
        let mut joined = downmix_interleaved(&samples[..cut], channels, &mean);
        joined.extend(downmix_interleaved(&samples[cut..], channels, &mean));
        assert_eq!(downmix_interleaved(&samples, channels, &mean), joined);
        assert_eq!(joined.len(), 11 / channels);
    }
}

#[test]
fn best_of_positive_scores_is_found() {
    let heard: Vec<u32> = (0..21).collect();
    // places 0, 4, 8, 12, 16
    let score = |w: &[u32]| match w[0] {
        0 => 0.2f32.to_bits(),
        4 => f32::NAN.to_bits(),
        8 => 0.7f32.to_bits(),
        12 => (-0.9f32).to_bits(),
        _ => 0.3f32.to_bits(),
    };
    assert_eq!(best_score(&heard, 3, &score), 0.7f32.to_bits());
    let negative = |_w: &[u32]| (-1.0f32).to_bits();
    assert_eq!(best_score(&heard, 3, &negative), 0);
    // the last place is left out
    let last = |w: &[u32]| if w[0] == 16 { 1.0f32.to_bits() } else { 0 };
    assert_eq!(best_score(&heard[..19], 3, &last), 0);
    assert_eq!(best_score(&heard[..20], 3, &last), 1.0f32.to_bits());
}

#[test]
fn long_pulses_are_searched_in_longer_steps() {
    let heard: Vec<u32> = (0..10_011).collect();
    let score = |w: &[u32]| if w[0] == 10 { 0x3f80_0000 } else { 0 };
    assert_eq!(best_score(&heard, 10_000, &score), 0x3f80_0000);
    let four = |w: &[u32]| if w[0] == 4 { 0x3f80_0000 } else { 0 };
    assert_eq!(best_score(&heard, 10_000, &four), 0);
}

#[test]
fn nothing_is_heard_without_a_pulse() {
    let mut buffer = vec![1u32, 2, 3];
    let loud = |_w: &[u32]| 1.0f32.to_bits();
    assert_eq!(process_input(0, &[1, 2], 1, &mut buffer, 1, &mean, &loud), None);
    assert!(buffer.is_empty());
}

#[test]
fn pulse_is_detected_from_the_threshold_on() {
    let mut buffer: Vec<u32> = Vec::new();
    let faint = |_w: &[u32]| 0.349f32.to_bits();
    assert_eq!(process_input(9, &[1; 8], 2, &mut buffer, 3, &mean, &faint), None);
    assert_eq!(buffer.len(), 4);
    let heard = |_w: &[u32]| 0.35f32.to_bits();
    assert_eq!(
        process_input(9, &[1; 8], 2, &mut buffer, 30, &mean, &heard),
        None
    );
    assert_eq!(buffer.len(), 8);
    assert_eq!(
        process_input(9, &[1; 8], 2, &mut buffer, 3, &mean, &heard),
        Some(0.35f32.to_bits())
    );
    assert!(buffer.is_empty());
}

#[test]
fn buffer_is_shortened() {
    let quiet = |_w: &[u32]| 0u32;
    let mut buffer: Vec<u32> = (0..149_999).collect();
    process_input(9, &[7], 1, &mut buffer, 1, &mean, &quiet);
    assert_eq!(buffer.len(), 150_000);
    process_input(9, &[0x3f80_0000], 1, &mut buffer, 1, &mean, &quiet);
    assert_eq!(buffer.len(), 100_000);
    assert_eq!(buffer[0], 50_001);
    assert_eq!(buffer[99_999], 0x3f80_0000);
}
