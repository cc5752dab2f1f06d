//! What a client reads from a stream.
use crate::enums::streaming::{BitDepth, Endian};
use crate::sample::Sample;
use crate::utils::bytes::le_bytes;
use crate::utils::rwstream::{converts, ChannelStream, Fill};
use crate::utils::samples_conv::{
    encoded_all, lemma_byte_of_sample, lemma_encoded_all_len, overwritten, put_samples, to_depth,
};
use vstd::prelude::*;

verus! {

/// While a header waits, a read gives all of it at the start of the buffer, leaves the
/// rest of the buffer alone, and says how long it was. The header is then gone, and
/// nothing else of the stream has changed.
pub proof fn law_header_is_read_whole<C: Fn(BitDepth, Sample) -> i32>(
    s: &mut ChannelStream,
    buf: &mut [u8],
    convert: C,
    r: Fill,
)
    requires
        call_ensures(ChannelStream::fill_lpcm_buffer::<C>, (s, buf, convert), r),
        old(s)@.state.use_wave_format,
        old(s)@.state.header.len() > 0,
        old(buf)@.len() >= old(s)@.state.header.len(),
    ensures
        r matches Fill::Header(n) && n == old(s)@.state.header.len(),
        final(buf)@.len() == old(buf)@.len(),
        forall|i: int|
            0 <= i < old(s)@.state.header.len() ==> #[trigger] final(buf)@[i]
                == old(s)@.state.header[i],
        forall|i: int|
            old(s)@.state.header.len() <= i < old(buf)@.len() ==> #[trigger] final(buf)@[i] == old(
                buf,
            )@[i],
        final(s)@.state.header.len() == 0,
        final(s)@.state.fifo == old(s)@.state.fifo,
        final(s)@.state.silence == old(s)@.state.silence,
        final(s)@.state.capture_timeout == old(s)@.state.capture_timeout,
        final(s)@.state.sending_silence == old(s)@.state.sending_silence,
        final(s)@.state.use_wave_format == old(s)@.state.use_wave_format,
        final(s)@.state.bits_per_sample == old(s)@.state.bits_per_sample,
        final(s)@.ends == old(s)@.ends,
{
}

/// With no header to come, an empty buffer, and one that four samples do not fit into,
/// end the stream: nothing is read and nothing changes.
pub proof fn law_small_buffers_end_the_stream<C: Fn(BitDepth, Sample) -> i32>(
    s: &mut ChannelStream,
    buf: &mut [u8],
    convert: C,
    r: Fill,
)
    requires
        call_ensures(ChannelStream::fill_lpcm_buffer::<C>, (s, buf, convert), r),
        !old(s)@.state.use_wave_format || old(s)@.state.header.len() == 0,
        old(buf)@.len() == 0 || old(buf)@.len() < 4 * (old(s)@.state.bits_per_sample as int / 8),
    ensures
        r == if old(buf)@.len() == 0 {
            Fill::EmptyBuffer
        } else {
            Fill::PartialBuffer
        },
        final(buf)@ == old(buf)@,
        final(s)@ == old(s)@,
{
    let len = old(buf)@.len() as int;
    let c = 4 * (old(s)@.state.bits_per_sample as int / 8);
    if len > 0 {
        vstd::arithmetic::div_mod::lemma_basic_div(len, c);
    }
}

/// A read of 16 bit samples takes as many groups of four as there is room for. It waits
/// when they are not all queued. Else each of the next samples of the queue comes out as
/// two bytes that stand for its converted value: the lower one first where the stream
/// has a header, the higher one first where it has none. What is behind them in the
/// buffer stays, and what is behind them in the queue comes next.
pub proof fn law_read_of_16_bit_samples<C: Fn(BitDepth, Sample) -> i32>(
    s: &mut ChannelStream,
    buf: &mut [u8],
    convert: C,
    r: Fill,
)
    requires
        call_ensures(ChannelStream::fill_lpcm_buffer::<C>, (s, buf, convert), r),
        !old(s)@.state.use_wave_format || old(s)@.state.header.len() == 0,
        old(s)@.state.bits_per_sample == 16,
        old(buf)@.len() >= 8,
    ensures
        ({
            let queue = old(s)@.state.fifo;
            let n = 4 * (old(buf)@.len() as int / 8);
            let out = final(buf)@;
            let wave = old(s)@.state.use_wave_format;
            &&& out.len() == old(buf)@.len()
            &&& final(s)@.ends == old(s)@.ends
            &&& final(s)@.state.header == old(s)@.state.header
            &&& final(s)@.state.silence == old(s)@.state.silence
            &&& final(s)@.state.capture_timeout == old(s)@.state.capture_timeout
            &&& final(s)@.state.sending_silence == old(s)@.state.sending_silence
            &&& final(s)@.state.use_wave_format == wave
            &&& final(s)@.state.bits_per_sample == 16
            &&& if queue.len() < n {
                &&& r is NeedSamples
                &&& out == old(buf)@
                &&& final(s)@.state.fifo == queue
            } else {
                &&& r == Fill::Pcm((2 * n) as usize)
                &&& 2 * n <= usize::MAX
                &&& final(s)@.state.fifo == queue.skip(n)
                &&& forall|i: int| 2 * n <= i < out.len() ==> #[trigger] out[i] == old(buf)@[i]
                &&& exists|values: Seq<i32>|
                    {
                        &&& #[trigger] values.len() == n
                        &&& forall|k: int|
                            0 <= k < n ==> {
                                let v = #[trigger] values[k];
                                let low = if wave {
                                    out[2 * k] as int
                                } else {
                                    out[2 * k + 1] as int
                                };
                                let high = if wave {
                                    out[2 * k + 1] as int
                                } else {
                                    out[2 * k] as int
                                };
                                &&& convert.ensures((BitDepth::Bits16, queue[k]), v)
                                &&& (v - (low + 0x100 * high)) % 0x1_0000 == 0
                            }
                    }
            }
        }),
{
    let st = old(s)@.state;
    let len = old(buf)@.len();
    let n = 4 * (len as int / 8);
    let out = final(buf)@;
    assert(st.chunk_bytes() == 8);
    assert(st.samples_in(len) == n);
    assert(st.bytes_in(len) == 2 * n);
    if st.fifo.len() >= n {
        let values = choose|values: Seq<i32>|
            {
                &&& #[trigger] converts(convert, st.depth(), st.fifo.take(n), values)
                &&& out == overwritten(
                    old(buf)@,
                    0,
                    encoded_all(st.endian(), st.depth(), values),
                )
            };
        lemma_encoded_all_len(st.endian(), BitDepth::Bits16, values);
        assert forall|k: int| 0 <= k < n implies {
            let v = #[trigger] values[k];
            let low = if st.use_wave_format {
                out[2 * k] as int
            } else {
                out[2 * k + 1] as int
            };
            let high = if st.use_wave_format {
                out[2 * k + 1] as int
            } else {
                out[2 * k] as int
            };
            &&& convert.ensures((BitDepth::Bits16, st.fifo[k]), v)
            &&& (v - (low + 0x100 * high)) % 0x1_0000 == 0
        } by {
            assert(st.fifo.take(n)[k] == st.fifo[k]);
            lemma_byte_of_sample(st.endian(), BitDepth::Bits16, values, k, 0);
            lemma_byte_of_sample(st.endian(), BitDepth::Bits16, values, k, 1);
            lemma_two_bytes(values[k]);
        }
        assert(values.len() == n);
    }
}

/// The two low-order bytes of a number stand for it.
proof fn lemma_two_bytes(v: i32)
    ensures
        ({
            let b = le_bytes(v as int, 2);
            &&& b.len() == 2
            &&& (v - (b[0] + 0x100 * b[1])) % 0x1_0000 == 0
        }),
{
    reveal_with_fuel(le_bytes, 3);
}

/// The three low-order bytes of a number stand for it.
proof fn lemma_three_bytes(v: i32)
    ensures
        ({
            let b = le_bytes(v as int, 3);
            &&& b.len() == 3
            &&& (v - (b[0] + 0x100 * b[1] + 0x1_0000 * b[2])) % 0x100_0000 == 0
        }),
{
    reveal_with_fuel(le_bytes, 4);
}

/// A read of 24 bit samples does as one of 16 bit samples, with three bytes each.
pub proof fn law_read_of_24_bit_samples<C: Fn(BitDepth, Sample) -> i32>(
    s: &mut ChannelStream,
    buf: &mut [u8],
    convert: C,
    r: Fill,
)
    requires
        call_ensures(ChannelStream::fill_lpcm_buffer::<C>, (s, buf, convert), r),
        !old(s)@.state.use_wave_format || old(s)@.state.header.len() == 0,
        old(s)@.state.bits_per_sample == 24,
        old(buf)@.len() >= 12,
    ensures
        ({
            let queue = old(s)@.state.fifo;
            let n = 4 * (old(buf)@.len() as int / 12);
            let out = final(buf)@;
            let wave = old(s)@.state.use_wave_format;
            &&& out.len() == old(buf)@.len()
            &&& final(s)@.ends == old(s)@.ends
            &&& final(s)@.state.header == old(s)@.state.header
            &&& final(s)@.state.silence == old(s)@.state.silence
            &&& final(s)@.state.capture_timeout == old(s)@.state.capture_timeout
            &&& final(s)@.state.sending_silence == old(s)@.state.sending_silence
            &&& final(s)@.state.use_wave_format == wave
            &&& final(s)@.state.bits_per_sample == 24
            &&& if queue.len() < n {
                &&& r is NeedSamples
                &&& out == old(buf)@
                &&& final(s)@.state.fifo == queue
            } else {
                &&& r == Fill::Pcm((3 * n) as usize)
                &&& 3 * n <= usize::MAX
                &&& final(s)@.state.fifo == queue.skip(n)
                &&& forall|i: int| 3 * n <= i < out.len() ==> #[trigger] out[i] == old(buf)@[i]
                &&& exists|values: Seq<i32>|
                    {
                        &&& #[trigger] values.len() == n
                        &&& forall|k: int|
                            0 <= k < n ==> {
                                let v = #[trigger] values[k];
                                let low = if wave {
                                    out[3 * k] as int
                                } else {
                                    out[3 * k + 2] as int
                                };
                                let middle = out[3 * k + 1] as int;
                                let high = if wave {
                                    out[3 * k + 2] as int
                                } else {
                                    out[3 * k] as int
                                };
                                &&& convert.ensures((BitDepth::Bits24, queue[k]), v)
                                &&& (v - (low + 0x100 * middle + 0x1_0000 * high)) % 0x100_0000
                                    == 0
                            }
                    }
            }
        }),
{
    let st = old(s)@.state;
    let len = old(buf)@.len();
    let n = 4 * (len as int / 12);
    let out = final(buf)@;
    assert(st.chunk_bytes() == 12);
    assert(st.samples_in(len) == n);
    assert(st.bytes_in(len) == 3 * n);
    if st.fifo.len() >= n {
        let values = choose|values: Seq<i32>|
            {
                &&& #[trigger] converts(convert, st.depth(), st.fifo.take(n), values)
                &&& out == overwritten(
                    old(buf)@,
                    0,
                    encoded_all(st.endian(), st.depth(), values),
                )
            };
        lemma_encoded_all_len(st.endian(), BitDepth::Bits24, values);
        assert forall|k: int| 0 <= k < n implies {
            let v = #[trigger] values[k];
            let low = if st.use_wave_format {
                out[3 * k] as int
            } else {
                out[3 * k + 2] as int
            };
            let middle = out[3 * k + 1] as int;
            let high = if st.use_wave_format {
                out[3 * k + 2] as int
            } else {
                out[3 * k] as int
            };
            &&& convert.ensures((BitDepth::Bits24, st.fifo[k]), v)
            &&& (v - (low + 0x100 * middle + 0x1_0000 * high)) % 0x100_0000 == 0
        } by {
            assert(st.fifo.take(n)[k] == st.fifo[k]);
            lemma_byte_of_sample(st.endian(), BitDepth::Bits24, values, k, 0);
            lemma_byte_of_sample(st.endian(), BitDepth::Bits24, values, k, 1);
            lemma_byte_of_sample(st.endian(), BitDepth::Bits24, values, k, 2);
            lemma_three_bytes(values[k]);
        }
        assert(values.len() == n);
    }
}

/// The bytes that a read gives are those that were put into the buffer; an end of the
/// stream gives none, and a read that has to wait gives no answer yet.
pub proof fn law_bytes_of_a_read(fill: Fill, r: Option<usize>)
    requires
        call_ensures(Fill::bytes_read, (&fill,), r),
    ensures
        fill matches Fill::Header(n) ==> r == Some(n),
        fill matches Fill::Pcm(n) ==> r == Some(n),
        fill is EmptyBuffer || fill is PartialBuffer ==> r == Some(0usize),
        fill is NeedSamples <==> r is None,
{
}

/// A buffer can be read into when a header that waits fits in it. When none waits it is
/// empty, or samples have a whole byte at least and, where there is room for four of
/// them, 16 or 24 bits.
pub proof fn law_buffers_that_can_be_read_into(s: ChannelStream, len: usize, r: bool)
    requires
        call_ensures(ChannelStream::can_read, (&s, len), r),
    ensures
        ({
            let st = s@.state;
            let bits = st.bits_per_sample as int;
            r == if st.use_wave_format && st.header.len() > 0 {
                len >= st.header.len()
            } else {
                len == 0 || (bits >= 8 && (len < 4 * (bits / 8) || bits == 16 || bits == 24))
            }
        }),
{
}

/// A sample that fills 32 bits keeps its 16 or 24 high-order bits, rounded down.
pub proof fn law_depth_keeps_the_high_bits(depth: BitDepth, v: i32, r: i32)
    requires
        call_ensures(to_depth, (depth, v), r),
    ensures
        depth is Bits16 ==> r * 0x1_0000 <= v < r * 0x1_0000 + 0x1_0000,
        depth is Bits24 ==> r * 0x100 <= v < r * 0x100 + 0x100,
{
}

/// Samples are written from their place on, with two or three bytes each, and nothing
/// else of the buffer changes. The bytes stand for the sample, in the order of the
/// stream.
pub proof fn law_samples_are_written_in_place(
    endian: Endian,
    depth: BitDepth,
    samples: &Vec<i32>,
    buf: &mut [u8],
    at: usize,
)
    requires
        call_ensures(put_samples, (endian, depth, samples, buf, at), ()),
        at + samples@.len() * (if depth is Bits16 {
            2int
        } else {
            3
        }) <= old(buf)@.len(),
    ensures
        ({
            let b: int = if depth is Bits16 {
                2
            } else {
                3
            };
            let out = final(buf)@;
            &&& out.len() == old(buf)@.len()
            &&& forall|i: int|
                0 <= i < out.len() && (i < at || i >= at + samples@.len() * b)
                    ==> #[trigger] out[i] == old(buf)@[i]
            &&& forall|k: int|
                0 <= k < samples@.len() ==> {
                    let v = #[trigger] samples@[k];
                    let first = out[at + k * b] as int;
                    let last = out[at + k * b + b - 1] as int;
                    let low = if endian is Little {
                        first
                    } else {
                        last
                    };
                    let high = if endian is Little {
                        last
                    } else {
                        first
                    };
                    if b == 2 {
                        (v - (low + 0x100 * high)) % 0x1_0000 == 0
                    } else {
                        (v - (low + 0x100 * out[at + k * b + 1] + 0x1_0000 * high)) % 0x100_0000
                            == 0
                    }
                }
        }),
{
    let b = depth.bytes() as int;
    let out = final(buf)@;
    let all = encoded_all(endian, depth, samples@);
    lemma_encoded_all_len(endian, depth, samples@);
    assert forall|k: int| 0 <= k < samples@.len() implies {
        let v = #[trigger] samples@[k];
        let first = out[at + k * b] as int;
        let last = out[at + k * b + b - 1] as int;
        let low = if endian is Little {
            first
        } else {
            last
        };
        let high = if endian is Little {
            last
        } else {
            first
        };
        if b == 2 {
            (v - (low + 0x100 * high)) % 0x1_0000 == 0
        } else {
            (v - (low + 0x100 * out[at + k * b + 1] + 0x1_0000 * high)) % 0x100_0000 == 0
        }
    } by {
        let n = samples@.len() as int;
        assert(0 <= k * b && k * b + b <= n * b) by (nonlinear_arith)
            requires
                0 <= k,
                k + 1 <= n,
                b > 0,
        ;
        lemma_byte_of_sample(endian, depth, samples@, k, 0);
        lemma_byte_of_sample(endian, depth, samples@, k, 1);
        if b == 3 {
            lemma_byte_of_sample(endian, depth, samples@, k, 2);
        }
        assert(forall|i: int| 0 <= i < all.len() ==> out[at + i] == #[trigger] all[i]);
        lemma_two_bytes(samples@[k]);
        lemma_three_bytes(samples@[k]);
    }
}

} // verus!
