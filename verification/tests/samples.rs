use dasp_sample::{Sample as DaspSample, I24};
use swyh_rs::enums::streaming::{BitDepth, Endian};
use swyh_rs::latency::barker_mono;
use swyh_rs::listener::NCC_THRESHOLD;
use swyh_rs::sample::{abs, FULL_SCALE, INFINITY, NEGATIVE_FULL_SCALE, SILENT};
use swyh_rs::utils::conditioning::{
    apply_latency_pulse_if_triggered, dither_silence, get_silence_buffer,
    maybe_dither_digital_silence, maybe_dither_quiet_capture, DITHER_SHARE, QUIET_PEAK,
    SILENCE_PEAK,
};
use swyh_rs::utils::samples_conv::{put_samples, to_depth};

fn bits(samples: &[f32]) -> Vec<u32> {
    samples.iter().map(|s| s.to_bits()).collect()
}

fn encode(endian: Endian, depth: BitDepth, samples: &[i32]) -> Vec<u8> {
    let width = match depth {
        BitDepth::Bits16 => 2,
        BitDepth::Bits24 => 3,
    };
    let mut buf = vec![0u8; samples.len() * width];
    put_samples(endian, depth, &samples.to_vec(), &mut buf, 0);
    buf
}

#[test]
fn test_silence() {
    const SAMPLE_RATE: u32 = 44100;
    let sb = get_silence_buffer(SAMPLE_RATE, 250);
    assert_eq!(sb.len(), ((SAMPLE_RATE * 2) as u64 / (1000 / 250)) as usize);
}

#[test]
fn test_i24() {
    let sample = i32::from_sample(0x12345678i32);
    let i24_sample = I24::from_sample(sample);
    println!("i24: {i24_sample:X?}");
    let f32_sample: f32 = 0.123456;
    let a1 = {
        let i24sample = i32::from_sample(f32_sample) >> 8;
        let b = i24sample.to_le_bytes();
        [b[0], b[1], b[2]]
    };
    let a2 = { &((i32::from_sample(f32_sample) >> 8).to_le_bytes())[..=2] };
    assert_eq!(a1, a2);
    let b1 = {
        let i24sample = i32::from_sample(f32_sample) >> 8;
        let b = i24sample.to_be_bytes();
        [b[1], b[2], b[3]]
    };
    let b2 = { &((i32::from_sample(f32_sample) >> 8).to_be_bytes())[1..] };
    assert_eq!(b1, b2);

    let narrowed = to_depth(BitDepth::Bits24, i32::from_sample(f32_sample));
    assert_eq!(narrowed, i32::from_sample(f32_sample) >> 8);
    assert_eq!(encode(Endian::Little, BitDepth::Bits24, &[narrowed]), a1);
    assert_eq!(encode(Endian::Big, BitDepth::Bits24, &[narrowed]), b1);
}

#[test]
fn constants_are_the_patterns_of_their_numbers() {
    assert_eq!(SILENT, 0.0f32.to_bits());
    assert_eq!(FULL_SCALE, 1.0f32.to_bits());
    assert_eq!(NEGATIVE_FULL_SCALE, (-1.0f32).to_bits());
    assert_eq!(INFINITY, f32::INFINITY.to_bits());
    assert_eq!(SILENCE_PEAK, 1.0e-8f32.to_bits());
    assert_eq!(QUIET_PEAK, 0.02f32.to_bits());
    assert_eq!(DITHER_SHARE, 0.35f32.to_bits());
    assert_eq!(NCC_THRESHOLD, 0.35f32.to_bits());
    assert_eq!(abs((-0.5f32).to_bits()), 0.5f32.to_bits());
}

#[test]
fn samples_have_the_bytes_of_their_depth() {
    let v: [i32; 4] = [0x0012_3456, -2, 32767, -32768];
    for s in v {
        let le = s.to_le_bytes();
        let be = s.to_be_bytes();
        assert_eq!(encode(Endian::Little, BitDepth::Bits16, &[s]), &le[..2]);
        assert_eq!(encode(Endian::Little, BitDepth::Bits24, &[s]), &le[..3]);
        assert_eq!(encode(Endian::Big, BitDepth::Bits16, &[s]), &be[2..]);
        assert_eq!(encode(Endian::Big, BitDepth::Bits24, &[s]), &be[1..]);
    }
}

#[test]
fn encoding_does_not_depend_on_the_cut() {
    let all = [1, -1, 70000, -70000];
    let whole = encode(Endian::Big, BitDepth::Bits24, &all);
    let mut parts = encode(Endian::Big, BitDepth::Bits24, &all[..1]);
    parts.extend(encode(Endian::Big, BitDepth::Bits24, &all[1..]));
    assert_eq!(whole, parts);
}

#[test]
fn samples_are_written_at_their_place_only() {
    let mut buf = vec![9u8; 8];
    put_samples(Endian::Little, BitDepth::Bits16, &vec![0x0201, 0x0403], &mut buf, 2);
    assert_eq!(buf, [9, 9, 1, 2, 3, 4, 9, 9]);
}

#[test]
fn narrowing_rounds_down() {
    for v in [0, 1, -1, 255, -255, -256, i32::MAX, i32::MIN] {
        assert_eq!(to_depth(BitDepth::Bits24, v), v >> 8);
        assert_eq!(to_depth(BitDepth::Bits16, v), v >> 16);
    }
}

#[test]
fn pulse_is_the_stretched_barker_sequence() {
    let barker = [1.0f32, 1.0, 1.0, -1.0, -1.0, -1.0, 1.0, -1.0, -1.0, 1.0, -1.0];
    let pulse = barker_mono();
    assert_eq!(pulse.len(), 1100);
    for (i, s) in pulse.iter().enumerate() {
        assert_eq!(*s, barker[i / 100].to_bits());
    }
}

#[test]
fn pulse_overwrites_the_start() {
    let mono = barker_mono();
    let mut long = vec![5u32; 2300];
    assert!(apply_latency_pulse_if_triggered(&mut long, true));
    assert_eq!(long.len(), 2300);
    for i in 0..2200 {
        assert_eq!(long[i], mono[i / 2]);
    }
    assert_eq!(&long[2200..], &[5u32; 100]);

    let mut short = vec![5u32; 3];
    assert!(apply_latency_pulse_if_triggered(&mut short, true));
    assert_eq!(short.len(), 2200);
    assert_eq!(short, long[..2200]);

    let mut kept = vec![5u32; 3];
    assert!(!apply_latency_pulse_if_triggered(&mut kept, false));
    assert_eq!(kept, vec![5u32; 3]);
}

fn reference_dither(bits_per_sample: u16, samples: &mut [f32]) {
    let peak = samples.iter().map(|x| x.abs()).fold(0.0f32, f32::max);
    if peak > 1.0e-8 {
        return;
    }
    let scale = 2_f32.powi(i32::from(bits_per_sample.clamp(1, 32)));
    let amp = (1.0 / scale) * 0.35;
    for (i, s) in samples.iter_mut().enumerate() {
        let tri = match i % 4 {
            0 => -1.0f32,
            1 => 1.0,
            2 => 1.0,
            _ => -1.0,
        };
        *s = tri * amp;
    }
}

#[test]
fn dither_agrees_with_float_arithmetic() {
    let inputs: Vec<Vec<f32>> = vec![
        vec![],
        vec![0.0; 7],
        vec![-0.0, 1.0e-9, -1.0e-8, 0.0],
        vec![0.0, 1.1e-8, 0.0],
        vec![f32::NAN, 0.0],
        vec![f32::NAN, 0.5],
        vec![f32::NEG_INFINITY, 0.0],
        vec![0.25, -0.5, 0.75],
    ];
    for depth in [0u16, 1, 8, 16, 24, 32, 40] {
        for input in &inputs {
            let mut expected = input.clone();
            reference_dither(depth, &mut expected);
            let mut got = bits(input);
            let applied = maybe_dither_digital_silence(depth, &mut got);
            let peak = input.iter().map(|x| x.abs()).fold(0.0f32, f32::max);
            assert_eq!(applied, peak <= 1.0e-8);
            assert_eq!(got, bits(&expected));
        }
    }
}

#[test]
fn dither_is_faint_not_flat_and_idempotent() {
    let mut once = vec![SILENT; 8];
    maybe_dither_digital_silence(16, &mut once);
    let sum: f32 = once.iter().map(|s| f32::from_bits(*s)).sum();
    assert_eq!(sum, 0.0);
    for s in &once {
        let v = f32::from_bits(*s).abs();
        assert!(v > 0.0 && v < 1.0 / 32768.0);
    }
    let mut twice = once.clone();
    maybe_dither_digital_silence(16, &mut twice);
    assert_eq!(once, twice);
}

fn sum(s: u32, d: u32) -> u32 {
    (f32::from_bits(s) + f32::from_bits(d)).to_bits()
}

#[test]
fn quiet_capture_is_dithered() {
    let amp = 0.35f32 / 65536.0;
    let quiet = [0.001f32, -0.02, 0.0, 0.02, 0.005];
    let mut got = bits(&quiet);
    assert!(maybe_dither_quiet_capture(16, &mut got, &sum));
    let expected =
        [0.001f32 - amp, -0.02 + amp, amp, 0.02 - amp, 0.005 - amp];
    assert_eq!(got, bits(&expected));

    let mut barely = bits(&[0.0, 1.1e-8, 0.0, 0.0]);
    assert!(maybe_dither_quiet_capture(24, &mut barely, &sum));
    assert!(barely.iter().all(|s| f32::from_bits(*s) != 0.0));
}

#[test]
fn louder_capture_is_kept() {
    let next = f32::from_bits(QUIET_PEAK + 1);
    for loud in [vec![0.0, next, 0.0], vec![-next], vec![0.5; 8], vec![f32::NEG_INFINITY, 0.0]] {
        let mut got = bits(&loud);
        assert!(!maybe_dither_quiet_capture(16, &mut got, &sum));
        assert_eq!(got, bits(&loud));
    }
}

#[test]
fn captured_digital_silence_becomes_dither() {
    for silent in [vec![], vec![0.0f32; 7], vec![-0.0, 1.0e-9, -1.0e-8, 0.0], vec![f32::NAN, 0.0]] {
        let mut expected = bits(&silent);
        dither_silence(16, &mut expected);
        let mut got = bits(&silent);
        assert!(maybe_dither_quiet_capture(16, &mut got, &|_, _| 0x3f80_0000));
        assert_eq!(got, expected);
    }
}

#[test]
fn bridging_silence_is_dithered_whatever_it_holds() {
    let mut loud = bits(&[0.5, -0.5, 0.25, 1.0, 0.5]);
    dither_silence(16, &mut loud);
    let amp = 0.35f32 / 65536.0;
    assert_eq!(loud, bits(&[-amp, amp, amp, -amp, -amp]));
}
