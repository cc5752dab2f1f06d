//! Headers of endless PCM streams: WAV, and RF64 for 64-bit sizes.
//!
//! A stream has two channels of signed little endian samples and no known end,
//! so the size fields hold the largest sizes that the formats allow.
use crate::utils::bytes::{le_bytes, le_value, push_u16_le, push_u32_le, push_u64_le};
use vstd::prelude::*;

verus! {

/// Streams are stereo.
pub const CHANNELS: u16 = 2;

/// The chunk size that stands for "unknown".
pub const ENDLESS: u32 = 0xffff_ffff;

/// What an RF64 file holds besides its samples and its first eight bytes.
pub const RF64_OVERHEAD: u64 = 72;

/// The greatest size that an RF64 header announces: an eighth of the 64-bit range.
pub const RF64_MAX_SIZE: u64 = 0x0fff_ffff_ffff_ffff;

/// The bytes of one sample.
pub open spec fn sample_bytes(bits_per_sample: u16) -> int {
    bits_per_sample as int / 8
}

/// The bytes of one frame, a sample for each channel.
pub open spec fn block_align(bits_per_sample: u16) -> int {
    CHANNELS * sample_bytes(bits_per_sample)
}

/// The bytes of one second.
pub open spec fn byte_rate(sample_rate: u32, bits_per_sample: u16) -> int {
    sample_rate * block_align(bits_per_sample)
}

/// The four letters that name a chunk.
pub open spec fn tag(a: char, b: char, c: char, d: char) -> Seq<u8> {
    seq![a as u8, b as u8, c as u8, d as u8]
}

/// The format chunk: uncompressed PCM of the given rate and depth.
pub open spec fn fmt_chunk(sample_rate: u32, bits_per_sample: u16) -> Seq<u8> {
    tag('f', 'm', 't', ' ') + le_bytes(16, 4) + le_bytes(1, 2) + le_bytes(CHANNELS as int, 2)
        + le_bytes(sample_rate as int, 4) + le_bytes(byte_rate(sample_rate, bits_per_sample), 4)
        + le_bytes(block_align(bits_per_sample), 2) + le_bytes(bits_per_sample as int, 2)
}

/// The WAV header: the RIFF chunk, the format chunk and the start of the data chunk.
pub open spec fn wav_header(sample_rate: u32, bits_per_sample: u16) -> Seq<u8> {
    tag('R', 'I', 'F', 'F') + le_bytes(ENDLESS as int, 4) + tag('W', 'A', 'V', 'E')
        + fmt_chunk(sample_rate, bits_per_sample) + tag('d', 'a', 't', 'a') + le_bytes(
        ENDLESS - 36,
        4,
    )
}

/// How many frames an RF64 header announces: as many as the greatest size leaves room for.
pub open spec fn rf64_frames(bits_per_sample: u16) -> int {
    (RF64_MAX_SIZE - RF64_OVERHEAD) / block_align(bits_per_sample)
}

/// How many bytes of samples an RF64 header announces.
pub open spec fn rf64_data_size(bits_per_sample: u16) -> int {
    rf64_frames(bits_per_sample) * block_align(bits_per_sample)
}

/// The chunk of 64-bit sizes: RIFF size, data size, frame count and an empty table.
pub open spec fn ds64_chunk(bits_per_sample: u16) -> Seq<u8> {
    tag('d', 's', '6', '4') + le_bytes(28, 4) + le_bytes(
        rf64_data_size(bits_per_sample) + RF64_OVERHEAD,
        8,
    ) + le_bytes(rf64_data_size(bits_per_sample), 8) + le_bytes(rf64_frames(bits_per_sample), 8)
        + le_bytes(0, 4)
}

/// The RF64 header: as the WAV header, with the sizes in a chunk of their own.
pub open spec fn rf64_header(sample_rate: u32, bits_per_sample: u16) -> Seq<u8> {
    tag('R', 'F', '6', '4') + le_bytes(ENDLESS as int, 4) + tag('W', 'A', 'V', 'E')
        + ds64_chunk(bits_per_sample) + fmt_chunk(sample_rate, bits_per_sample) + tag('d', 'a', 't', 'a') + le_bytes(ENDLESS as int, 4)
}

/// Appends the name of a chunk.
fn push_tag(hdr: &mut Vec<u8>, a: char, b: char, c: char, d: char)
    ensures
        final(hdr)@ == old(hdr)@ + tag(a, b, c, d),
{
    hdr.push(a as u8);
    hdr.push(b as u8);
    hdr.push(c as u8);
    hdr.push(d as u8);
    assert(hdr@ =~= old(hdr)@ + tag(a, b, c, d));
}

/// Appends the format chunk.
fn push_fmt_chunk(hdr: &mut Vec<u8>, sample_rate: u32, bits_per_sample: u16)
    requires
        byte_rate(sample_rate, bits_per_sample) <= u32::MAX,
    ensures
        final(hdr)@ == old(hdr)@ + fmt_chunk(sample_rate, bits_per_sample),
{
    let bytes_per_sample: u16 = bits_per_sample / 8;
    let frame: u16 = CHANNELS * bytes_per_sample;
    let rate: u32 = sample_rate * frame as u32;
    push_tag(hdr, 'f', 'm', 't', ' ');
    push_u32_le(hdr, 16);
    push_u16_le(hdr, 1);
    push_u16_le(hdr, CHANNELS);
    push_u32_le(hdr, sample_rate);
    push_u32_le(hdr, rate);
    push_u16_le(hdr, frame);
    push_u16_le(hdr, bits_per_sample);
    assert(hdr@ =~= old(hdr)@ + fmt_chunk(sample_rate, bits_per_sample));
}

/// The header of an endless WAV stream of 16 or 24 bit samples.
///
/// A renderer that needs a seekable file may not take it.
pub fn create_wav_hdr(sample_rate: u32, bits_per_sample: u16) -> (hdr: Vec<u8>)
    requires
        byte_rate(sample_rate, bits_per_sample) <= u32::MAX,
    ensures
        hdr@ == wav_header(sample_rate, bits_per_sample),
        hdr@.len() == 44,
{
    let mut hdr: Vec<u8> = Vec::with_capacity(44);
    push_tag(&mut hdr, 'R', 'I', 'F', 'F');
    push_u32_le(&mut hdr, ENDLESS);
    push_tag(&mut hdr, 'W', 'A', 'V', 'E');
    push_fmt_chunk(&mut hdr, sample_rate, bits_per_sample);
    push_tag(&mut hdr, 'd', 'a', 't', 'a');
    push_u32_le(&mut hdr, ENDLESS - 36);
    assert(hdr@ =~= wav_header(sample_rate, bits_per_sample));
    proof {
        law_header_lengths(sample_rate, bits_per_sample);
    }
    hdr
}

/// The header of an endless RF64 stream of 16 or 24 bit samples.
pub fn create_rf64_hdr(sample_rate: u32, bits_per_sample: u16) -> (hdr: Vec<u8>)
    requires
        bits_per_sample >= 8,
        byte_rate(sample_rate, bits_per_sample) <= u32::MAX,
    ensures
        hdr@ == rf64_header(sample_rate, bits_per_sample),
        hdr@.len() == 80,
{
    let mut hdr: Vec<u8> = Vec::with_capacity(80);
    let frame_size: u64 = (CHANNELS * (bits_per_sample / 8)) as u64;
    let frames: u64 = (RF64_MAX_SIZE - RF64_OVERHEAD) / frame_size;
    proof {
        law_rf64_sizes(bits_per_sample);
    }
    let data_size: u64 = frames * frame_size;
    push_tag(&mut hdr, 'R', 'F', '6', '4');
    push_u32_le(&mut hdr, ENDLESS);
    push_tag(&mut hdr, 'W', 'A', 'V', 'E');
    push_tag(&mut hdr, 'd', 's', '6', '4');
    push_u32_le(&mut hdr, 28);
    push_u64_le(&mut hdr, data_size + RF64_OVERHEAD);
    push_u64_le(&mut hdr, data_size);
    push_u64_le(&mut hdr, frames);
    push_u32_le(&mut hdr, 0);
    push_fmt_chunk(&mut hdr, sample_rate, bits_per_sample);
    push_tag(&mut hdr, 'd', 'a', 't', 'a');
    push_u32_le(&mut hdr, ENDLESS);
    assert(hdr@ =~= rf64_header(sample_rate, bits_per_sample));
    proof {
        law_header_lengths(sample_rate, bits_per_sample);
    }
    hdr
}

/// A WAV header has 44 bytes and an RF64 header 80.
pub proof fn law_header_lengths(sample_rate: u32, bits_per_sample: u16)
    ensures
        wav_header(sample_rate, bits_per_sample).len() == 44,
        rf64_header(sample_rate, bits_per_sample).len() == 80,
{
    broadcast use crate::utils::bytes::lemma_le_bytes_len;

}

/// The sizes of an RF64 header agree with each other: the data is a whole number
/// of frames, the RIFF size counts the header too and does not pass the greatest
/// size, and no further frame would fit.
pub proof fn law_rf64_sizes(bits_per_sample: u16)
    requires
        bits_per_sample >= 8,
    ensures
        block_align(bits_per_sample) > 0,
        rf64_data_size(bits_per_sample) % block_align(bits_per_sample) == 0,
        rf64_data_size(bits_per_sample) == rf64_frames(bits_per_sample) * block_align(
            bits_per_sample,
        ),
        0 <= rf64_frames(bits_per_sample) <= RF64_MAX_SIZE,
        0 <= rf64_data_size(bits_per_sample),
        rf64_data_size(bits_per_sample) + RF64_OVERHEAD <= RF64_MAX_SIZE,
        rf64_data_size(bits_per_sample) + RF64_OVERHEAD + block_align(bits_per_sample)
            > RF64_MAX_SIZE,
{
    let room = RF64_MAX_SIZE - RF64_OVERHEAD;
    let f = block_align(bits_per_sample);
    assert(f > 0);
    vstd::arithmetic::div_mod::lemma_fundamental_div_mod(room, f);
    vstd::arithmetic::div_mod::lemma_mod_bound(room, f);
    assert(f * (room / f) == (room / f) * f) by (nonlinear_arith);
    vstd::arithmetic::div_mod::lemma_mod_multiples_basic(room / f, f);
    vstd::arithmetic::div_mod::lemma_div_pos_is_pos(room, f);
    vstd::arithmetic::div_mod::lemma_div_is_ordered_by_denominator(room, 1, f);
}

/// What a renderer reads from a WAV header at the offsets of the format: the
/// channel count, the sample rate, the byte rate, the frame size and the depth.
pub proof fn law_wav_fields(sample_rate: u32, bits_per_sample: u16)
    requires
        byte_rate(sample_rate, bits_per_sample) <= u32::MAX,
    ensures
        ({
            let h = wav_header(sample_rate, bits_per_sample);
            &&& le_value(h.subrange(22, 24)) == CHANNELS
            &&& le_value(h.subrange(24, 28)) == sample_rate
            &&& le_value(h.subrange(28, 32)) == byte_rate(sample_rate, bits_per_sample)
            &&& le_value(h.subrange(32, 34)) == block_align(bits_per_sample)
            &&& le_value(h.subrange(34, 36)) == bits_per_sample
            &&& le_value(h.subrange(40, 44)) == ENDLESS - 36
        }),
{
    broadcast use crate::utils::bytes::lemma_le_bytes_len;

    let h = wav_header(sample_rate, bits_per_sample);
    assert(h.subrange(12, 36) =~= fmt_chunk(sample_rate, bits_per_sample));
    assert(h.subrange(40, 44) =~= le_bytes(ENDLESS - 36, 4));
    lemma_fmt_fields(sample_rate, bits_per_sample);
    let f = fmt_chunk(sample_rate, bits_per_sample);
    assert(h.subrange(22, 24) =~= f.subrange(10, 12));
    assert(h.subrange(24, 28) =~= f.subrange(12, 16));
    assert(h.subrange(28, 32) =~= f.subrange(16, 20));
    assert(h.subrange(32, 34) =~= f.subrange(20, 22));
    assert(h.subrange(34, 36) =~= f.subrange(22, 24));
    reveal_with_fuel(crate::utils::bytes::byte_range, 5);
    crate::utils::bytes::law_le_round_trip((ENDLESS - 36) as nat, 4);
}

/// What a renderer reads from an RF64 header: the 64-bit sizes and the format.
pub proof fn law_rf64_fields(sample_rate: u32, bits_per_sample: u16)
    requires
        bits_per_sample >= 8,
        byte_rate(sample_rate, bits_per_sample) <= u32::MAX,
    ensures
        ({
            let h = rf64_header(sample_rate, bits_per_sample);
            &&& le_value(h.subrange(20, 28)) == rf64_data_size(bits_per_sample) + RF64_OVERHEAD
            &&& le_value(h.subrange(28, 36)) == rf64_data_size(bits_per_sample)
            &&& le_value(h.subrange(36, 44)) == rf64_frames(bits_per_sample)
            &&& le_value(h.subrange(58, 60)) == CHANNELS
            &&& le_value(h.subrange(60, 64)) == sample_rate
            &&& le_value(h.subrange(64, 68)) == byte_rate(sample_rate, bits_per_sample)
            &&& le_value(h.subrange(68, 70)) == block_align(bits_per_sample)
            &&& le_value(h.subrange(70, 72)) == bits_per_sample
        }),
{
    broadcast use crate::utils::bytes::lemma_le_bytes_len;

    let h = rf64_header(sample_rate, bits_per_sample);
    let d = ds64_chunk(bits_per_sample);
    let f = fmt_chunk(sample_rate, bits_per_sample);
    assert(h.subrange(12, 48) =~= d);
    assert(h.subrange(48, 72) =~= f);
    lemma_fmt_fields(sample_rate, bits_per_sample);
    law_rf64_sizes(bits_per_sample);
    assert(h.subrange(20, 28) =~= le_bytes(rf64_data_size(bits_per_sample) + RF64_OVERHEAD, 8));
    assert(h.subrange(28, 36) =~= le_bytes(rf64_data_size(bits_per_sample), 8));
    assert(h.subrange(36, 44) =~= le_bytes(rf64_frames(bits_per_sample), 8));
    assert(h.subrange(58, 60) =~= f.subrange(10, 12));
    assert(h.subrange(60, 64) =~= f.subrange(12, 16));
    assert(h.subrange(64, 68) =~= f.subrange(16, 20));
    assert(h.subrange(68, 70) =~= f.subrange(20, 22));
    assert(h.subrange(70, 72) =~= f.subrange(22, 24));
    reveal_with_fuel(crate::utils::bytes::byte_range, 9);
    crate::utils::bytes::law_le_round_trip(
        (rf64_data_size(bits_per_sample) + RF64_OVERHEAD) as nat,
        8,
    );
    crate::utils::bytes::law_le_round_trip(rf64_data_size(bits_per_sample) as nat, 8);
    crate::utils::bytes::law_le_round_trip(rf64_frames(bits_per_sample) as nat, 8);
}

/// The fields of the format chunk are read back from it.
proof fn lemma_fmt_fields(sample_rate: u32, bits_per_sample: u16)
    requires
        byte_rate(sample_rate, bits_per_sample) <= u32::MAX,
    ensures
        ({
            let f = fmt_chunk(sample_rate, bits_per_sample);
            &&& f.len() == 24
            &&& le_value(f.subrange(10, 12)) == CHANNELS
            &&& le_value(f.subrange(12, 16)) == sample_rate
            &&& le_value(f.subrange(16, 20)) == byte_rate(sample_rate, bits_per_sample)
            &&& le_value(f.subrange(20, 22)) == block_align(bits_per_sample)
            &&& le_value(f.subrange(22, 24)) == bits_per_sample
        }),
{
    broadcast use crate::utils::bytes::lemma_le_bytes_len;

    let f = fmt_chunk(sample_rate, bits_per_sample);
    let rate = byte_rate(sample_rate, bits_per_sample);
    let align = block_align(bits_per_sample);
    assert(rate >= 0) by (nonlinear_arith)
        requires
            rate == sample_rate * align,
            align >= 0,
    ;
    assert(f.subrange(10, 12) =~= le_bytes(CHANNELS as int, 2));
    assert(f.subrange(12, 16) =~= le_bytes(sample_rate as int, 4));
    assert(f.subrange(16, 20) =~= le_bytes(rate, 4));
    assert(f.subrange(20, 22) =~= le_bytes(align, 2));
    assert(f.subrange(22, 24) =~= le_bytes(bits_per_sample as int, 2));
    reveal_with_fuel(crate::utils::bytes::byte_range, 5);
    crate::utils::bytes::law_le_round_trip(CHANNELS as nat, 2);
    crate::utils::bytes::law_le_round_trip(sample_rate as nat, 4);
    crate::utils::bytes::law_le_round_trip(rate as nat, 4);
    crate::utils::bytes::law_le_round_trip(align as nat, 2);
    crate::utils::bytes::law_le_round_trip(bits_per_sample as nat, 2);
}

} // verus!
