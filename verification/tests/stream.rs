use crossbeam_channel::unbounded;
use ecow::EcoString;
use std::sync::Arc;
use swyh_rs::debug_agent::DitherTag;
use swyh_rs::enums::streaming::{BitDepth, StreamingFormat};
use swyh_rs::latency::barker_mono;
use swyh_rs::utils::rwstream::{
    admitted, ChannelStream, Conditioned, Delivery, Fill, MAX_QUEUED_CHUNKS,
};
use swyh_rs::utils::wave_header::{create_rf64_hdr, create_wav_hdr};

fn stream(wave: bool, bits: u16, format: StreamingFormat, timeout: Option<u32>) -> ChannelStream {
    let (tx, rx) = unbounded();
    assert!(ChannelStream::can_create(44100, bits, format, timeout));
    ChannelStream::new(tx, rx, EcoString::from("10.0.0.7"), wave, 44100, bits, format, timeout)
}

#[test]
fn reads_give_their_bytes() {
    assert_eq!(Fill::Header(44).bytes_read(), Some(44));
    assert_eq!(Fill::Pcm(8).bytes_read(), Some(8));
    assert_eq!(Fill::EmptyBuffer.bytes_read(), Some(0));
    assert_eq!(Fill::PartialBuffer.bytes_read(), Some(0));
    assert_eq!(Fill::NeedSamples.bytes_read(), None);
}

fn plain(_depth: BitDepth, s: u32) -> i32 {
    s as i32
}

fn sum(s: u32, d: u32) -> u32 {
    (f32::from_bits(s) + f32::from_bits(d)).to_bits()
}

const BRIDGED: Conditioned = Conditioned::Dithered(DitherTag::RecvTimeoutSilence);

#[test]
fn header_is_read_once_and_first() {
    for (format, header) in [
        (StreamingFormat::Wav, create_wav_hdr(44100, 16)),
        (StreamingFormat::Rf64, create_rf64_hdr(44100, 16)),
    ] {
        let mut s = stream(true, 16, format, None);
        assert!(!s.can_read(header.len() - 1));
        let mut buf = vec![7u8; 100];
        assert_eq!(s.fill_lpcm_buffer(&mut buf, plain), Fill::Header(header.len()));
        assert_eq!(&buf[..header.len()], &header[..]);
        assert_eq!(buf[header.len()], 7);
        assert_eq!(s.fill_lpcm_buffer(&mut buf, plain), Fill::NeedSamples);
    }
}

#[test]
fn raw_streams_have_no_header() {
    let mut lpcm = stream(false, 16, StreamingFormat::Lpcm, None);
    let mut wav = stream(false, 16, StreamingFormat::Wav, None);
    let mut buf = vec![0u8; 64];
    assert_eq!(lpcm.fill_lpcm_buffer(&mut buf, plain), Fill::NeedSamples);
    assert_eq!(wav.fill_lpcm_buffer(&mut buf, plain), Fill::NeedSamples);
}

#[test]
fn empty_and_small_buffers_end_the_stream() {
    let mut s = stream(false, 24, StreamingFormat::Lpcm, None);
    let mut buf = [1u8; 11];
    assert_eq!(s.fill_lpcm_buffer(&mut buf[..0], plain), Fill::EmptyBuffer);
    assert_eq!(s.fill_lpcm_buffer(&mut buf, plain), Fill::PartialBuffer);
    assert_eq!(buf, [1u8; 11]);
}

#[test]
fn depth_is_needed_to_read_samples() {
    let s = stream(false, 32, StreamingFormat::Lpcm, None);
    assert!(s.can_read(0));
    assert!(s.can_read(15));
    assert!(!s.can_read(16));
    let t = stream(false, 4, StreamingFormat::Lpcm, None);
    assert!(t.can_read(0));
    assert!(!t.can_read(1));
}

#[test]
fn written_samples_are_read_in_order() {
    let mut s = stream(false, 16, StreamingFormat::Lpcm, Some(1000));
    let first = s.write(Arc::new((1..=5).map(|i| 0x4000_0000 + i).collect()));
    assert!(matches!(first, Delivery::Sent { queued: 0 }));
    let second = s.write(Arc::new((6..=9).map(|i| 0x4000_0000 + i).collect()));
    assert!(matches!(second, Delivery::Sent { queued: 1 }));
    assert_eq!(s.s.len(), 2);
    assert_eq!(s.get_samples(|| false, &sum), Conditioned::Kept);
    assert_eq!(s.r.len(), 1);
    let mut buf = vec![0xeeu8; 17];
    assert_eq!(s.fill_lpcm_buffer(&mut buf, plain), Fill::NeedSamples);
    assert_eq!(s.get_samples(|| false, &sum), Conditioned::Kept);
    assert_eq!(s.fill_lpcm_buffer(&mut buf, plain), Fill::Pcm(16));
    assert_eq!(buf, [0, 1, 0, 2, 0, 3, 0, 4, 0, 5, 0, 6, 0, 7, 0, 8, 0xee]);
    assert_eq!(s.fill_lpcm_buffer(&mut buf[..8], plain), Fill::NeedSamples);
}

#[test]
fn reads_can_be_split() {
    for bits in [16u16, 24] {
        let group = 4 * usize::from(bits / 8);
        let mut whole = stream(false, bits, StreamingFormat::Lpcm, Some(1000));
        whole.add_samples(Some(Arc::new((1..=18).map(|i| 0x4000_0000 + 0x0101 * i).collect())), false, &sum);
        let mut split = whole.clone();
        let mut at_once = vec![0u8; 4 * group];
        assert_eq!(whole.fill_lpcm_buffer(&mut at_once, plain), Fill::Pcm(4 * group));
        let mut parts = Vec::new();
        for groups in [1, 2, 1] {
            let mut part = vec![0u8; groups * group];
            assert_eq!(split.fill_lpcm_buffer(&mut part, plain), Fill::Pcm(groups * group));
            parts.extend(part);
        }
        assert_eq!(at_once, parts);
        for s in [&mut whole, &mut split] {
            s.add_samples(Some(Arc::new(vec![0x4000_0000; 2])), false, &sum);
            let mut rest = vec![0u8; group];
            assert_eq!(s.fill_lpcm_buffer(&mut rest, plain), Fill::Pcm(group));
            assert_eq!(rest[usize::from(bits / 8) - 1], 17);
        }
    }
}

#[test]
fn byte_orders_mirror_each_other() {
    for bits in [16u16, 24] {
        let width = usize::from(bits / 8);
        let samples = Arc::new(vec![0x4011_2233u32, 0x4044_5566, 0x4077_8899, 0x40aa_bbcc]);
        let mut little = stream(true, bits, StreamingFormat::Lpcm, None);
        let mut big = stream(false, bits, StreamingFormat::Lpcm, None);
        little.add_samples(Some(samples.clone()), false, &sum);
        big.add_samples(Some(samples), false, &sum);
        let (mut l, mut b) = (vec![0u8; 4 * width], vec![0u8; 4 * width]);
        assert_eq!(little.fill_lpcm_buffer(&mut l, plain), Fill::Pcm(4 * width));
        assert_eq!(big.fill_lpcm_buffer(&mut b, plain), Fill::Pcm(4 * width));
        assert_eq!(l[0], 0x33);
        for k in 0..4 {
            for j in 0..width {
                assert_eq!(l[k * width + j], b[k * width + width - 1 - j]);
            }
        }
    }
}

#[test]
fn written_chunks_come_back_in_order() {
    let mut s = stream(false, 16, StreamingFormat::Lpcm, Some(1000));
    let mut expected = Vec::new();
    let mut next = 1u32;
    for len in [3u32, 8, 1, 12, 4] {
        let chunk: Vec<u32> = (next..next + len).map(|i| 0x4000_0000 + i).collect();
        expected.extend((next..next + len).flat_map(|i| [0, i as u8]));
        next += len;
        assert!(matches!(s.write(Arc::new(chunk)), Delivery::Sent { .. }));
    }
    let mut got = Vec::new();
    let mut buf = vec![0u8; 8];
    while got.len() < expected.len() {
        match s.fill_lpcm_buffer(&mut buf, plain) {
            Fill::Pcm(n) => {
                assert_eq!(n, buf.len());
                got.extend_from_slice(&buf);
            }
            Fill::NeedSamples => assert_eq!(s.get_samples(|| false, &sum), Conditioned::Kept),
            other => panic!("the buffer has room: {other:?}"),
        }
    }
    assert_eq!(got, expected);
}

#[test]
fn wave_streams_are_little_endian() {
    let mut s = stream(true, 24, StreamingFormat::Lpcm, Some(1000));
    s.write(Arc::new(vec![0x4000_0102, 0x4003_0405, 0x4006_0708, 0x4009_0a0b]));
    s.get_samples(|| false, &sum);
    let mut buf = vec![0u8; 12];
    assert_eq!(s.fill_lpcm_buffer(&mut buf, plain), Fill::Pcm(12));
    assert_eq!(buf, [2, 1, 0, 5, 4, 3, 8, 7, 6, 11, 10, 9]);
}

#[test]
fn conversion_gets_the_depth() {
    let mut s = stream(false, 24, StreamingFormat::Lpcm, Some(1000));
    s.write(Arc::new(vec![0x4000_0000; 4]));
    s.get_samples(|| false, &sum);
    let mut buf = vec![0u8; 12];
    let convert = |d: BitDepth, _s: u32| if d == BitDepth::Bits24 { -1 } else { 1 };
    assert_eq!(s.fill_lpcm_buffer(&mut buf, convert), Fill::Pcm(12));
    assert_eq!(buf, [0xff; 12]);
}

#[test]
fn stalled_capture_is_bridged_by_dithered_silence() {
    let mut s = stream(false, 16, StreamingFormat::Lpcm, None);
    assert_eq!(s.get_samples(|| false, &sum), BRIDGED);
    let mut buf = vec![0u8; 16];
    let sign = |_d: BitDepth, s: u32| if f32::from_bits(s) < 0.0 { -1 } else { 1 };
    assert_eq!(s.fill_lpcm_buffer(&mut buf, sign), Fill::Pcm(16));
    let (n, p) = ([0xff, 0xff], [0, 1]);
    assert_eq!(buf, [n, p, p, n, n, p, p, n].concat());
    // 88 samples for one millisecond of stereo
    let mut rest = vec![0u8; 160];
    assert_eq!(s.fill_lpcm_buffer(&mut rest, sign), Fill::Pcm(160));
    assert_eq!(s.fill_lpcm_buffer(&mut buf, sign), Fill::NeedSamples);
}

#[test]
fn quiet_chunks_are_streamed_with_dither() {
    let mut s = stream(false, 16, StreamingFormat::Lpcm, Some(1000));
    let amp = 0.35f32 / 65536.0;
    let quiet = [0.01f32, -0.01, 0.0, 0.02];
    s.write(Arc::new(quiet.iter().map(|x| x.to_bits()).collect()));
    let dithered = Conditioned::Dithered(DitherTag::CaptureOk);
    assert_eq!(s.get_samples(|| false, &sum), dithered);
    let mut wide = stream(false, 16, StreamingFormat::Lpcm, Some(1000));
    let added = [0.01f32 - amp, -0.01 + amp, amp, 0.02 - amp];
    let loud: Vec<u32> = added.iter().map(|x| x.to_bits()).collect();
    let mut buf = vec![0u8; 8];
    for half in [0u32, 16] {
        let take = move |_d: BitDepth, x: u32| ((x >> half) & 0xffff) as i32;
        let mut t = s.clone();
        assert_eq!(t.fill_lpcm_buffer(&mut buf, take), Fill::Pcm(8));
        for (k, x) in loud.iter().enumerate() {
            let got = u16::from_be_bytes([buf[2 * k], buf[2 * k + 1]]);
            assert_eq!(u32::from(got), (x >> half) & 0xffff);
        }
    }
    wide.write(Arc::new(vec![0.03f32.to_bits(); 4]));
    assert_eq!(wide.get_samples(|| false, &sum), Conditioned::Kept);
    wide.write(Arc::new(vec![0; 4]));
    assert_eq!(wide.get_samples(|| false, &sum), dithered);
}

#[test]
fn pulse_replaces_chunk_or_silence() {
    let mono = barker_mono();
    let mut s = stream(false, 16, StreamingFormat::Lpcm, None);
    assert_eq!(s.get_samples(|| true, &sum), Conditioned::Pulse);
    let mut buf = vec![0u8; 4400];
    let high = |_d: BitDepth, s: u32| (s >> 16) as i32;
    assert_eq!(s.fill_lpcm_buffer(&mut buf, high), Fill::Pcm(4400));
    for i in 0..2200 {
        assert_eq!(u16::from_be_bytes([buf[2 * i], buf[2 * i + 1]]), (mono[i / 2] >> 16) as u16);
    }
    s.add_samples(Some(Arc::new(vec![0x4000_0003; 2204])), true, &sum);
    assert_eq!(s.fill_lpcm_buffer(&mut buf, plain), Fill::Pcm(4400));
    let mut tail = vec![0u8; 8];
    assert_eq!(s.fill_lpcm_buffer(&mut tail, plain), Fill::Pcm(8));
    assert_eq!(tail, [0, 3, 0, 3, 0, 3, 0, 3]);
}

#[test]
fn too_many_chunks_are_dropped() {
    let chunk = Arc::new(vec![1u32]);
    assert_eq!(admitted(MAX_QUEUED_CHUNKS - 1, chunk.clone()), Ok(chunk.clone()));
    assert_eq!(admitted(MAX_QUEUED_CHUNKS, chunk.clone()), Err(chunk.clone()));
    let s = stream(false, 16, StreamingFormat::Lpcm, None);
    for i in 0..10_000 {
        match s.write(chunk.clone()) {
            Delivery::Sent { queued } => assert_eq!(queued, i),
            other => panic!("chunk {i} was not sent: {other:?}"),
        }
    }
    match s.write(chunk.clone()) {
        Delivery::Dropped { queued, chunk: back } => {
            assert_eq!(queued, 10_000);
            assert!(Arc::ptr_eq(&back, &chunk));
        }
        other => panic!("too many wait: {other:?}"),
    }
    assert_eq!(s.s.len(), 10_000);
}

#[test]
fn write_without_a_reader_is_refused() {
    let (tx, rx) = unbounded();
    drop(rx);
    let (_other, rx2) = unbounded();
    let s = ChannelStream::new(
        tx,
        rx2,
        EcoString::from("x"),
        false,
        44100,
        16,
        StreamingFormat::Lpcm,
        None,
    );
    match s.write(Arc::new(vec![1])) {
        Delivery::Refused { queued, chunk } => {
            assert_eq!(queued, 0);
            assert_eq!(*chunk, vec![1]);
        }
        other => panic!("there is no reader: {other:?}"),
    }
}

#[test]
fn clone_shares_the_channel_and_copies_the_queue() {
    let mut a = stream(false, 16, StreamingFormat::Lpcm, Some(1000));
    a.write(Arc::new(vec![0x4000_0001; 4]));
    a.get_samples(|| false, &sum);
    let mut b = a.clone();
    assert_eq!(b.remote_ip, "10.0.0.7");
    assert!(b.s.same_channel(&a.s));
    assert!(b.r.same_channel(&a.r));
    let mut buf = vec![0u8; 8];
    assert_eq!(a.fill_lpcm_buffer(&mut buf, plain), Fill::Pcm(8));
    assert_eq!(a.fill_lpcm_buffer(&mut buf, plain), Fill::NeedSamples);
    assert_eq!(b.fill_lpcm_buffer(&mut buf, plain), Fill::Pcm(8));
}

#[test]
fn impossible_streams_are_told_apart() {
    assert!(!ChannelStream::can_create(u32::MAX, 16, StreamingFormat::Wav, None));
    assert!(ChannelStream::can_create(u32::MAX, 16, StreamingFormat::Lpcm, None));
    assert!(!ChannelStream::can_create(44100, 7, StreamingFormat::Rf64, None));
    assert!(ChannelStream::can_create(44100, 7, StreamingFormat::Wav, None));
}
