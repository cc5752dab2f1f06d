//! The headers of streams, as a renderer reads them.
use crate::enums::streaming::{BitDepth, StreamingFormat};
use crate::sample::Sample;
use crate::utils::bytes::{le_bytes, le_value};
use crate::utils::rwstream::{AudioSamples, ChannelStream, Fill};
use crate::utils::wave_header::{
    create_rf64_hdr, create_wav_hdr, law_header_lengths, law_rf64_fields, law_rf64_sizes,
    law_wav_fields, rf64_header, wav_header,
};
use crossbeam_channel::{Receiver, Sender};
use ecow::EcoString;
use vstd::prelude::*;

verus! {

/// The number in two bytes, lowest first.
pub open spec fn u16_at(b: Seq<u8>, i: int) -> int {
    b[i] + 0x100 * b[i + 1]
}

/// The number in four bytes, lowest first.
pub open spec fn u32_at(b: Seq<u8>, i: int) -> int {
    b[i] + 0x100 * b[i + 1] + 0x1_0000 * b[i + 2] + 0x100_0000 * b[i + 3]
}

/// The number in eight bytes, lowest first.
pub open spec fn u64_at(b: Seq<u8>, i: int) -> int {
    u32_at(b, i) + 0x1_0000_0000 * u32_at(b, i + 4)
}

/// Bytes that are taken out of others and read are those that stand there.
proof fn lemma_value_at(b: Seq<u8>, i: int)
    ensures
        0 <= i <= b.len() - 2 ==> le_value(b.subrange(i, i + 2)) == u16_at(b, i),
        0 <= i <= b.len() - 4 ==> le_value(b.subrange(i, i + 4)) == u32_at(b, i),
{
    reveal_with_fuel(le_value, 5);
}

/// As for four bytes, for eight.
proof fn lemma_long_value_at(b: Seq<u8>, i: int)
    requires
        0 <= i <= b.len() - 8,
    ensures
        le_value(b.subrange(i, i + 8)) == u64_at(b, i),
{
    reveal_with_fuel(le_value, 9);
    let s = b.subrange(i, i + 8);
    assert(forall|k: int| 0 <= k < 8 ==> s[k] == b[i + k]);
}

/// The WAV header for a rate and a depth says, at the places of the format, that it is
/// an endless RIFF of uncompressed stereo with this rate and depth, and how many bytes
/// a frame and a second have.
pub proof fn law_wav_header_tells_rate_and_depth(rate: u32, bits: u16, h: Vec<u8>)
    requires
        call_ensures(create_wav_hdr, (rate, bits), h),
        rate * (2 * (bits as int / 8)) <= 0xffff_ffff,
    ensures
        h@.len() == 44,
        h@.subrange(0, 4) == seq![0x52u8, 0x49, 0x46, 0x46],
        u32_at(h@, 4) == 0xffff_ffff,
        h@.subrange(8, 16) == seq![0x57u8, 0x41, 0x56, 0x45, 0x66, 0x6d, 0x74, 0x20],
        u32_at(h@, 16) == 16,
        u16_at(h@, 20) == 1,
        u16_at(h@, 22) == 2,
        u32_at(h@, 24) == rate,
        u32_at(h@, 28) == rate * (2 * (bits as int / 8)),
        u16_at(h@, 32) == 2 * (bits as int / 8),
        u16_at(h@, 34) == bits,
        h@.subrange(36, 40) == seq![0x64u8, 0x61, 0x74, 0x61],
        u32_at(h@, 40) == 0xffff_ffff - 36,
{
    lemma_wav(rate, bits);
    lemma_wav_names(rate, bits);
}

/// The fields of a WAV header.
proof fn lemma_wav(rate: u32, bits: u16)
    requires
        rate * (2 * (bits as int / 8)) <= 0xffff_ffff,
    ensures
        ({
            let h = wav_header(rate, bits);
            &&& h.len() == 44
            &&& u16_at(h, 22) == 2
            &&& u32_at(h, 24) == rate
            &&& u32_at(h, 28) == rate * (2 * (bits as int / 8))
            &&& u16_at(h, 32) == 2 * (bits as int / 8)
            &&& u16_at(h, 34) == bits
            &&& u32_at(h, 40) == 0xffff_ffff - 36
        }),
{
    let h = wav_header(rate, bits);
    law_header_lengths(rate, bits);
    law_wav_fields(rate, bits);
    lemma_value_at(h, 22);
    lemma_value_at(h, 24);
    lemma_value_at(h, 28);
    lemma_value_at(h, 32);
    lemma_value_at(h, 34);
    lemma_value_at(h, 40);
}

/// A number of four bytes is read back from where they stand.
proof fn lemma_number_at(b: Seq<u8>, i: int, v: u32)
    requires
        0 <= i <= b.len() - 4,
        b.subrange(i, i + 4) == le_bytes(v as int, 4),
    ensures
        u32_at(b, i) == v,
{
    reveal_with_fuel(crate::utils::bytes::byte_range, 5);
    crate::utils::bytes::law_le_round_trip(v as nat, 4);
    lemma_value_at(b, i);
}

/// A number of two bytes is read back from where they stand.
proof fn lemma_short_number_at(b: Seq<u8>, i: int, v: u16)
    requires
        0 <= i <= b.len() - 2,
        b.subrange(i, i + 2) == le_bytes(v as int, 2),
    ensures
        u16_at(b, i) == v,
{
    reveal_with_fuel(crate::utils::bytes::byte_range, 3);
    crate::utils::bytes::law_le_round_trip(v as nat, 2);
    lemma_value_at(b, i);
}

/// The names and the fixed numbers of a WAV header.
proof fn lemma_wav_names(rate: u32, bits: u16)
    ensures
        ({
            let h = wav_header(rate, bits);
            &&& h.len() == 44
            &&& h.subrange(0, 4) == seq![0x52u8, 0x49, 0x46, 0x46]
            &&& u32_at(h, 4) == 0xffff_ffff
            &&& h.subrange(8, 16) == seq![0x57u8, 0x41, 0x56, 0x45, 0x66, 0x6d, 0x74, 0x20]
            &&& u32_at(h, 16) == 16
            &&& u16_at(h, 20) == 1
            &&& h.subrange(36, 40) == seq![0x64u8, 0x61, 0x74, 0x61]
        }),
{
    broadcast use crate::utils::bytes::lemma_le_bytes_len;

    let h = wav_header(rate, bits);
    law_header_lengths(rate, bits);
    assert(h.subrange(0, 4) =~= seq![0x52u8, 0x49, 0x46, 0x46]);
    assert(h.subrange(8, 16) =~= seq![0x57u8, 0x41, 0x56, 0x45, 0x66, 0x6d, 0x74, 0x20]);
    assert(h.subrange(36, 40) =~= seq![0x64u8, 0x61, 0x74, 0x61]);
    assert(h.subrange(4, 8) =~= le_bytes(0xffff_ffff, 4));
    assert(h.subrange(16, 20) =~= le_bytes(16, 4));
    assert(h.subrange(20, 22) =~= le_bytes(1, 2));
    lemma_number_at(h, 4, 0xffff_ffff);
    lemma_number_at(h, 16, 16);
    lemma_short_number_at(h, 20, 1);
}

/// The RF64 header for a rate and a depth says, at the places of the format, that it is
/// endless uncompressed stereo with this rate and depth. Its sizes are those of the
/// greatest number of frames that an eighth of the signed 64-bit range has room for.
pub proof fn law_rf64_header_tells_rate_and_depth(rate: u32, bits: u16, h: Vec<u8>)
    requires
        call_ensures(create_rf64_hdr, (rate, bits), h),
        bits >= 8,
        rate * (2 * (bits as int / 8)) <= 0xffff_ffff,
    ensures
        h@.len() == 80,
        h@.subrange(0, 4) == seq![0x52u8, 0x46, 0x36, 0x34],
        u32_at(h@, 4) == 0xffff_ffff,
        h@.subrange(8, 16) == seq![0x57u8, 0x41, 0x56, 0x45, 0x64, 0x73, 0x36, 0x34],
        u32_at(h@, 16) == 28,
        u64_at(h@, 20) == u64_at(h@, 28) + 72,
        u64_at(h@, 28) == u64_at(h@, 36) * (2 * (bits as int / 8)),
        u64_at(h@, 20) <= 0x0fff_ffff_ffff_ffff < u64_at(h@, 20) + 2 * (bits as int / 8),
        u32_at(h@, 44) == 0,
        h@.subrange(48, 52) == seq![0x66u8, 0x6d, 0x74, 0x20],
        u32_at(h@, 52) == 16,
        u16_at(h@, 56) == 1,
        u16_at(h@, 58) == 2,
        u32_at(h@, 60) == rate,
        u32_at(h@, 64) == rate * (2 * (bits as int / 8)),
        u16_at(h@, 68) == 2 * (bits as int / 8),
        u16_at(h@, 70) == bits,
        h@.subrange(72, 76) == seq![0x64u8, 0x61, 0x74, 0x61],
        u32_at(h@, 76) == 0xffff_ffff,
{
    lemma_rf64(rate, bits);
    lemma_rf64_names(rate, bits);
}

/// The names and the fixed numbers of an RF64 header.
proof fn lemma_rf64_names(rate: u32, bits: u16)
    ensures
        ({
            let h = rf64_header(rate, bits);
            &&& h.len() == 80
            &&& h.subrange(0, 4) == seq![0x52u8, 0x46, 0x36, 0x34]
            &&& u32_at(h, 4) == 0xffff_ffff
            &&& h.subrange(8, 16) == seq![0x57u8, 0x41, 0x56, 0x45, 0x64, 0x73, 0x36, 0x34]
            &&& u32_at(h, 16) == 28
            &&& u32_at(h, 44) == 0
            &&& h.subrange(48, 52) == seq![0x66u8, 0x6d, 0x74, 0x20]
            &&& u32_at(h, 52) == 16
            &&& u16_at(h, 56) == 1
            &&& h.subrange(72, 76) == seq![0x64u8, 0x61, 0x74, 0x61]
            &&& u32_at(h, 76) == 0xffff_ffff
        }),
{
    broadcast use crate::utils::bytes::lemma_le_bytes_len;

    let h = rf64_header(rate, bits);
    law_header_lengths(rate, bits);
    assert(h.subrange(0, 4) =~= seq![0x52u8, 0x46, 0x36, 0x34]);
    assert(h.subrange(8, 16) =~= seq![0x57u8, 0x41, 0x56, 0x45, 0x64, 0x73, 0x36, 0x34]);
    assert(h.subrange(48, 52) =~= seq![0x66u8, 0x6d, 0x74, 0x20]);
    assert(h.subrange(72, 76) =~= seq![0x64u8, 0x61, 0x74, 0x61]);
    assert(h.subrange(4, 8) =~= le_bytes(0xffff_ffff, 4));
    assert(h.subrange(16, 20) =~= le_bytes(28, 4));
    assert(h.subrange(44, 48) =~= le_bytes(0, 4));
    assert(h.subrange(52, 56) =~= le_bytes(16, 4));
    assert(h.subrange(56, 58) =~= le_bytes(1, 2));
    assert(h.subrange(76, 80) =~= le_bytes(0xffff_ffff, 4));
    lemma_number_at(h, 4, 0xffff_ffff);
    lemma_number_at(h, 16, 28);
    lemma_number_at(h, 44, 0);
    lemma_number_at(h, 52, 16);
    lemma_short_number_at(h, 56, 1);
    lemma_number_at(h, 76, 0xffff_ffff);
}

/// The fields of an RF64 header.
proof fn lemma_rf64(rate: u32, bits: u16)
    requires
        bits >= 8,
        rate * (2 * (bits as int / 8)) <= 0xffff_ffff,
    ensures
        ({
            let h = rf64_header(rate, bits);
            &&& u64_at(h, 20) == u64_at(h, 28) + 72
            &&& u64_at(h, 28) == u64_at(h, 36) * (2 * (bits as int / 8))
            &&& u64_at(h, 20) <= 0x0fff_ffff_ffff_ffff < u64_at(h, 20) + 2 * (bits as int / 8)
            &&& u16_at(h, 58) == 2
            &&& u32_at(h, 60) == rate
            &&& u32_at(h, 64) == rate * (2 * (bits as int / 8))
            &&& u16_at(h, 68) == 2 * (bits as int / 8)
            &&& u16_at(h, 70) == bits
        }),
{
    let h = rf64_header(rate, bits);
    law_header_lengths(rate, bits);
    law_rf64_fields(rate, bits);
    law_rf64_sizes(bits);
    lemma_long_value_at(h, 20);
    lemma_long_value_at(h, 28);
    lemma_long_value_at(h, 36);
    lemma_value_at(h, 58);
    lemma_value_at(h, 60);
    lemma_value_at(h, 64);
    lemma_value_at(h, 68);
    lemma_value_at(h, 70);
}

/// A new stream keeps the channel, the client, the format, the depth and the capture
/// time-out (5 milliseconds when none is configured) that it was made with. Nothing is
/// queued yet, and its silence is a quarter of the time-out of stereo at its rate.
pub proof fn law_new_stream_keeps_what_it_is_made_with(
    tx: Sender<AudioSamples>,
    rx: Receiver<AudioSamples>,
    ip: EcoString,
    wave: bool,
    rate: u32,
    bits: u16,
    format: StreamingFormat,
    configured: Option<u32>,
    s: ChannelStream,
)
    requires
        call_ensures(ChannelStream::new, (tx, rx, ip, wave, rate, bits, format, configured), s),
    ensures
        s@.ends.sender == tx,
        s@.ends.receiver == rx,
        s@.ends.remote_ip == ip,
        s@.ends.format == format,
        s@.state.use_wave_format == wave,
        s@.state.bits_per_sample == bits,
        s@.state.fifo.len() == 0,
        !s@.state.sending_silence,
        s@.state.capture_timeout == (match configured {
            Some(ms) => ms,
            None => 5,
        }),
        s@.state.silence.len() == rate * 2 * (s@.state.capture_timeout as int / 4) / 1000,
        forall|i: int| 0 <= i < s@.state.silence.len() ==> #[trigger] s@.state.silence[i] == 0,
{
    let t = s@.state.capture_timeout as int / 4;
    assert(rate * 2 * t >= 0) by (nonlinear_arith)
        requires
            t >= 0,
    ;
}

/// A new stream of WAV announces its own rate and depth: the header that is read first
/// has, at the places of the format, the rate, the bytes of a second and of a stereo
/// frame, and the depth.
pub proof fn law_new_wav_stream_announces_rate_and_depth(
    tx: Sender<AudioSamples>,
    rx: Receiver<AudioSamples>,
    ip: EcoString,
    wave: bool,
    rate: u32,
    bits: u16,
    configured: Option<u32>,
    s: ChannelStream,
)
    requires
        call_ensures(
            ChannelStream::new,
            (tx, rx, ip, wave, rate, bits, StreamingFormat::Wav, configured),
            s,
        ),
        rate * (2 * (bits as int / 8)) <= 0xffff_ffff,
    ensures
        ({
            let h = s@.state.header;
            &&& h.len() == 44
            &&& h.subrange(0, 4) == seq![0x52u8, 0x49, 0x46, 0x46]
            &&& u32_at(h, 4) == 0xffff_ffff
            &&& h.subrange(8, 16) == seq![0x57u8, 0x41, 0x56, 0x45, 0x66, 0x6d, 0x74, 0x20]
            &&& u32_at(h, 16) == 16
            &&& u16_at(h, 20) == 1
            &&& u16_at(h, 22) == 2
            &&& u32_at(h, 24) == rate
            &&& u32_at(h, 28) == rate * (2 * (bits as int / 8))
            &&& u16_at(h, 32) == 2 * (bits as int / 8)
            &&& u16_at(h, 34) == bits
            &&& h.subrange(36, 40) == seq![0x64u8, 0x61, 0x74, 0x61]
            &&& u32_at(h, 40) == 0xffff_ffff - 36
        }),
{
    assert(s@.state.header == wav_header(rate, bits));
    lemma_wav(rate, bits);
    lemma_wav_names(rate, bits);
}

/// A new stream of RF64 announces its own rate and depth, as one of WAV does.
pub proof fn law_new_rf64_stream_announces_rate_and_depth(
    tx: Sender<AudioSamples>,
    rx: Receiver<AudioSamples>,
    ip: EcoString,
    wave: bool,
    rate: u32,
    bits: u16,
    configured: Option<u32>,
    s: ChannelStream,
)
    requires
        call_ensures(
            ChannelStream::new,
            (tx, rx, ip, wave, rate, bits, StreamingFormat::Rf64, configured),
            s,
        ),
        bits >= 8,
        rate * (2 * (bits as int / 8)) <= 0xffff_ffff,
    ensures
        ({
            let h = s@.state.header;
            &&& h.len() == 80
            &&& h.subrange(0, 4) == seq![0x52u8, 0x46, 0x36, 0x34]
            &&& u32_at(h, 4) == 0xffff_ffff
            &&& h.subrange(8, 16) == seq![0x57u8, 0x41, 0x56, 0x45, 0x64, 0x73, 0x36, 0x34]
            &&& u32_at(h, 16) == 28
            &&& u64_at(h, 20) == u64_at(h, 28) + 72
            &&& u64_at(h, 28) == u64_at(h, 36) * (2 * (bits as int / 8))
            &&& u64_at(h, 20) <= 0x0fff_ffff_ffff_ffff < u64_at(h, 20) + 2 * (bits as int / 8)
            &&& u32_at(h, 44) == 0
            &&& h.subrange(48, 52) == seq![0x66u8, 0x6d, 0x74, 0x20]
            &&& u32_at(h, 52) == 16
            &&& u16_at(h, 56) == 1
            &&& u16_at(h, 58) == 2
            &&& u32_at(h, 60) == rate
            &&& u32_at(h, 64) == rate * (2 * (bits as int / 8))
            &&& u16_at(h, 68) == 2 * (bits as int / 8)
            &&& u16_at(h, 70) == bits
            &&& h.subrange(72, 76) == seq![0x64u8, 0x61, 0x74, 0x61]
            &&& u32_at(h, 76) == 0xffff_ffff
        }),
{
    assert(s@.state.header == rf64_header(rate, bits));
    lemma_rf64(rate, bits);
    lemma_rf64_names(rate, bits);
}

/// The first read of a new WAV stream gives the 44 bytes of its header, with the rate, the
/// bytes of a second and of a frame, and the depth that the stream was made with.
pub proof fn law_client_of_a_wav_stream_learns_rate_and_depth<C: Fn(BitDepth, Sample) -> i32>(
    tx: Sender<AudioSamples>,
    rx: Receiver<AudioSamples>,
    ip: EcoString,
    rate: u32,
    bits: u16,
    configured: Option<u32>,
    s: &mut ChannelStream,
    buf: &mut [u8],
    convert: C,
    r: Fill,
)
    requires
        call_ensures(
            ChannelStream::new,
            (tx, rx, ip, true, rate, bits, StreamingFormat::Wav, configured),
            *old(s),
        ),
        rate * (2 * (bits as int / 8)) <= 0xffff_ffff,
        call_ensures(ChannelStream::fill_lpcm_buffer::<C>, (s, buf, convert), r),
        old(buf)@.len() >= 44,
    ensures
        r == Fill::Header(44),
        u16_at(final(buf)@, 22) == 2,
        u32_at(final(buf)@, 24) == rate,
        u32_at(final(buf)@, 28) == rate * (2 * (bits as int / 8)),
        u16_at(final(buf)@, 32) == 2 * (bits as int / 8),
        u16_at(final(buf)@, 34) == bits,
{
    law_new_wav_stream_announces_rate_and_depth(tx, rx, ip, true, rate, bits, configured, *old(s));
    crate::laws::reads::law_header_is_read_whole(s, buf, convert, r);
}

/// The first read of a new RF64 stream gives the 80 bytes of its header, as for WAV.
pub proof fn law_client_of_an_rf64_stream_learns_rate_and_depth<C: Fn(BitDepth, Sample) -> i32>(
    tx: Sender<AudioSamples>,
    rx: Receiver<AudioSamples>,
    ip: EcoString,
    rate: u32,
    bits: u16,
    configured: Option<u32>,
    s: &mut ChannelStream,
    buf: &mut [u8],
    convert: C,
    r: Fill,
)
    requires
        call_ensures(
            ChannelStream::new,
            (tx, rx, ip, true, rate, bits, StreamingFormat::Rf64, configured),
            *old(s),
        ),
        bits >= 8,
        rate * (2 * (bits as int / 8)) <= 0xffff_ffff,
        call_ensures(ChannelStream::fill_lpcm_buffer::<C>, (s, buf, convert), r),
        old(buf)@.len() >= 80,
    ensures
        r == Fill::Header(80),
        u16_at(final(buf)@, 58) == 2,
        u32_at(final(buf)@, 60) == rate,
        u32_at(final(buf)@, 64) == rate * (2 * (bits as int / 8)),
        u16_at(final(buf)@, 68) == 2 * (bits as int / 8),
        u16_at(final(buf)@, 70) == bits,
{
    law_new_rf64_stream_announces_rate_and_depth(
        tx,
        rx,
        ip,
        true,
        rate,
        bits,
        configured,
        *old(s),
    );
    crate::laws::reads::law_header_is_read_whole(s, buf, convert, r);
}

/// A new stream of another format has no header.
pub proof fn law_other_new_streams_have_no_header(
    tx: Sender<AudioSamples>,
    rx: Receiver<AudioSamples>,
    ip: EcoString,
    wave: bool,
    rate: u32,
    bits: u16,
    format: StreamingFormat,
    configured: Option<u32>,
    s: ChannelStream,
)
    requires
        call_ensures(ChannelStream::new, (tx, rx, ip, wave, rate, bits, format, configured), s),
        format is Lpcm || format is Flac,
    ensures
        s@.state.header.len() == 0,
{
}

/// A stream can be made exactly when the bytes of a second fit in 32 bits, where it has a
/// header, an RF64 sample has whole bytes, and its silence fits in memory.
pub proof fn law_streams_that_can_be_made(
    rate: u32,
    bits: u16,
    format: StreamingFormat,
    configured: Option<u32>,
    r: bool,
)
    requires
        call_ensures(ChannelStream::can_create, (rate, bits, format, configured), r),
    ensures
        ({
            let timeout: int = match configured {
                Some(ms) => ms as int,
                None => 5,
            };
            let rate_fits = rate * (2 * (bits as int / 8)) <= 0xffff_ffff;
            let silence_fits = rate * 2 * (timeout / 4) / 1000 * 4 <= isize::MAX;
            r == (silence_fits && match format {
                StreamingFormat::Wav => rate_fits,
                StreamingFormat::Rf64 => rate_fits && bits >= 8,
                StreamingFormat::Lpcm => true,
                StreamingFormat::Flac => true,
            })
        }),
{
}

} // verus!
