use swyh_rs::utils::wave_header::{create_rf64_hdr, create_wav_hdr};

fn u16_at(h: &[u8], at: usize) -> u16 {
    u16::from_le_bytes([h[at], h[at + 1]])
}

fn u32_at(h: &[u8], at: usize) -> u32 {
    u32::from_le_bytes([h[at], h[at + 1], h[at + 2], h[at + 3]])
}

fn u64_at(h: &[u8], at: usize) -> u64 {
    u64::from(u32_at(h, at)) + (u64::from(u32_at(h, at + 4)) << 32)
}

#[test]
fn test_wav_hdr() {
    let _hdr = create_wav_hdr(44100, 24);
    let _hdr = create_wav_hdr(44100, 16);
}

#[test]
fn wav_header_has_the_exact_bytes() {
    let hdr = create_wav_hdr(44100, 16);
    let mut expected: Vec<u8> = Vec::new();
    expected.extend_from_slice(b"RIFF");
    expected.extend_from_slice(&[0xff, 0xff, 0xff, 0xff]);
    expected.extend_from_slice(b"WAVEfmt ");
    expected.extend_from_slice(&[16, 0, 0, 0, 1, 0, 2, 0]);
    expected.extend_from_slice(&[0x44, 0xac, 0, 0, 0x10, 0xb1, 2, 0, 4, 0, 16, 0]);
    expected.extend_from_slice(b"data");
    expected.extend_from_slice(&[0xdb, 0xff, 0xff, 0xff]);
    assert_eq!(hdr, expected);
}

#[test]
fn wav_fields_are_read_back() {
    let hdr = create_wav_hdr(48000, 24);
    assert_eq!(hdr.len(), 44);
    assert_eq!(u16_at(&hdr, 22), 2);
    assert_eq!(u32_at(&hdr, 24), 48000);
    assert_eq!(u32_at(&hdr, 28), 288_000);
    assert_eq!(u16_at(&hdr, 32), 6);
    assert_eq!(u16_at(&hdr, 34), 24);
    assert_eq!(u32_at(&hdr, 40), u32::MAX - 36);
}

#[test]
fn rf64_fields_are_read_back() {
    for bits in [16u16, 24] {
        let hdr = create_rf64_hdr(44100, bits);
        let frame = u64::from(bits / 8) * 2;
        let frames = ((i64::MAX / 8) as u64 - 72) / frame;
        assert_eq!(hdr.len(), 80);
        assert_eq!(&hdr[0..4], b"RF64");
        assert_eq!(u32_at(&hdr, 4), 0xffff_ffff);
        assert_eq!(&hdr[8..16], b"WAVEds64");
        assert_eq!(u32_at(&hdr, 16), 28);
        assert_eq!(u64_at(&hdr, 20), frames * frame + 72);
        assert_eq!(u64_at(&hdr, 28), frames * frame);
        assert_eq!(u64_at(&hdr, 36), frames);
        assert_eq!(u32_at(&hdr, 44), 0);
        assert_eq!(&hdr[48..52], b"fmt ");
        assert_eq!(u32_at(&hdr, 52), 16);
        assert_eq!(u16_at(&hdr, 56), 1);
        assert_eq!(u16_at(&hdr, 58), 2);
        assert_eq!(u32_at(&hdr, 60), 44100);
        assert_eq!(u32_at(&hdr, 64), 44100 * frame as u32);
        assert_eq!(u16_at(&hdr, 68), frame as u16);
        assert_eq!(u16_at(&hdr, 70), bits);
        assert_eq!(&hdr[72..76], b"data");
        assert_eq!(u32_at(&hdr, 76), 0xffff_ffff);
    }
}
