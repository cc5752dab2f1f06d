//! Integer samples as the bytes of a stream.
use crate::enums::streaming::{BitDepth, Endian};
use crate::utils::bytes::{be_bytes, le_bytes};
use vstd::prelude::*;

verus! {

/// The bytes of one sample: the low-order bytes of its two's complement.
pub open spec fn encoded(endian: Endian, depth: BitDepth, v: i32) -> Seq<u8> {
    match endian {
        Endian::Little => le_bytes(v as int, depth.bytes()),
        Endian::Big => be_bytes(v as int, depth.bytes()),
    }
}

/// The bytes of samples, one sample after the other.
pub open spec fn encoded_all(endian: Endian, depth: BitDepth, samples: Seq<i32>) -> Seq<u8>
    decreases samples.len(),
{
    if samples.len() == 0 {
        Seq::empty()
    } else {
        encoded_all(endian, depth, samples.drop_last()) + encoded(endian, depth, samples.last())
    }
}

/// `buf` with `part` written over it from `at` on.
pub open spec fn overwritten(buf: Seq<u8>, at: int, part: Seq<u8>) -> Seq<u8> {
    buf.take(at) + part + buf.skip(at + part.len())
}

/// A sample has the bytes of its depth.
pub proof fn lemma_encoded_len(endian: Endian, depth: BitDepth, v: i32)
    ensures
        encoded(endian, depth, v).len() == depth.bytes(),
{
    crate::utils::bytes::lemma_le_bytes_len(v as int, depth.bytes());
}

/// Samples have the bytes of their depth each.
pub proof fn lemma_encoded_all_len(endian: Endian, depth: BitDepth, samples: Seq<i32>)
    ensures
        encoded_all(endian, depth, samples).len() == samples.len() * depth.bytes(),
    decreases samples.len(),
{
    if samples.len() > 0 {
        lemma_encoded_all_len(endian, depth, samples.drop_last());
        lemma_encoded_len(endian, depth, samples.last());
        let n = samples.len() as int;
        let b = depth.bytes() as int;
        assert((n - 1) * b + b == n * b) by (nonlinear_arith);
    }
}

/// Bytes of samples that follow one another are those of all of them: how a
/// stream is cut into reads does not change it.
pub proof fn law_encoding_concatenates(endian: Endian, depth: BitDepth, a: Seq<i32>, b: Seq<i32>)
    ensures
        encoded_all(endian, depth, a + b) == encoded_all(endian, depth, a) + encoded_all(
            endian,
            depth,
            b,
        ),
    decreases b.len(),
{
    if b.len() == 0 {
        assert(a + b =~= a);
    } else {
        law_encoding_concatenates(endian, depth, a, b.drop_last());
        assert((a + b).drop_last() =~= a + b.drop_last());
        assert(encoded_all(endian, depth, a + b) =~= encoded_all(endian, depth, a) + encoded_all(
            endian,
            depth,
            b,
        ));
    }
}

/// The bytes of a sample stand behind those of the samples before it.
pub proof fn lemma_byte_of_sample(
    endian: Endian,
    depth: BitDepth,
    samples: Seq<i32>,
    k: int,
    j: int,
)
    requires
        0 <= k < samples.len(),
        0 <= j < depth.bytes(),
    ensures
        encoded_all(endian, depth, samples)[k * depth.bytes() + j] == encoded(
            endian,
            depth,
            samples[k],
        )[j],
    decreases samples.len(),
{
    let front = samples.drop_last();
    let b = depth.bytes() as int;
    lemma_encoded_all_len(endian, depth, front);
    lemma_encoded_len(endian, depth, samples.last());
    if k < front.len() {
        lemma_byte_of_sample(endian, depth, front, k, j);
        assert(k * b + b <= front.len() * b) by (nonlinear_arith)
            requires
                k + 1 <= front.len(),
                b >= 0,
        ;
        assert(0 <= k * b) by (nonlinear_arith)
            requires
                k >= 0,
                b >= 0,
        ;
    }
}

/// The bytes of a sample in one order are those in the other, from the last one on.
pub proof fn lemma_encoded_mirror(depth: BitDepth, v: i32, j: int)
    requires
        0 <= j < depth.bytes(),
    ensures
        encoded(Endian::Little, depth, v)[j] == encoded(Endian::Big, depth, v)[depth.bytes() - 1
            - j],
{
    lemma_encoded_len(Endian::Little, depth, v);
}

/// How many values of a full-scale sample fall on one value of a depth.
pub open spec fn depth_step(depth: BitDepth) -> int {
    match depth {
        BitDepth::Bits16 => 0x1_0000,
        BitDepth::Bits24 => 0x100,
    }
}

/// A sample that fills 32 bits, in the bits of a depth: its high-order ones.
pub fn to_depth(depth: BitDepth, v: i32) -> (r: i32)
    ensures
        r == v as int / depth_step(depth),
{
    let step: i64 = match depth {
        BitDepth::Bits16 => 0x1_0000,
        BitDepth::Bits24 => 0x100,
    };
    let w: i64 = v as i64;
    if w >= 0 {
        (w / step) as i32
    } else {
        let up: i64 = (step - 1 - w) / step;
        (0 - up) as i32
    }
}

/// A sample of a depth keeps its value in the bytes that are sent for it: read as a
/// two's complement number of the depth they give it back.
pub proof fn law_depth_fits_its_bytes(depth: BitDepth, v: i32)
    ensures
        ({
            let r = v as int / depth_step(depth);
            let range = crate::utils::bytes::byte_range(depth.bytes()) as int;
            let sent = crate::utils::bytes::le_value(
                encoded(Endian::Little, depth, (v as int / depth_step(depth)) as i32),
            ) as int;
            &&& -range / 2 <= r < range / 2
            &&& r == if sent < range / 2 {
                sent
            } else {
                sent - range
            }
        }),
{
    let r = v as int / depth_step(depth);
    let n = depth.bytes();
    reveal_with_fuel(crate::utils::bytes::byte_range, 4);
    let range = crate::utils::bytes::byte_range(n) as int;
    if r >= 0 {
        crate::utils::bytes::law_le_round_trip(r as nat, n);
    } else {
        crate::utils::bytes::lemma_le_bytes_congruent(r, 1, n);
        crate::utils::bytes::law_le_round_trip((r + range) as nat, n);
    }
}

/// The three low-order bytes of a number in two's complement.
fn low_bytes(v: i32) -> (r: (u8, u8, u8))
    ensures
        le_bytes(v as int, 3) == seq![r.0, r.1, r.2],
        le_bytes(v as int, 2) == seq![r.0, r.1],
{
    let w: i64 = v as i64;
    let u: u32 = if w < 0 {
        (w + 0x1_0000_0000) as u32
    } else {
        w as u32
    };
    let r: (u8, u8, u8) = ((u % 256) as u8, (u / 256 % 256) as u8, (u / 256 / 256 % 256) as u8);
    proof {
        reveal_with_fuel(le_bytes, 4);
        reveal_with_fuel(crate::utils::bytes::byte_range, 4);
        if v < 0 {
            crate::utils::bytes::lemma_le_bytes_congruent(v as int, 256, 3);
            crate::utils::bytes::lemma_le_bytes_congruent(v as int, 65536, 2);
        }
        assert(le_bytes(u as int, 3) =~= seq![r.0, r.1, r.2]);
        assert(le_bytes(u as int, 2) =~= seq![r.0, r.1]);
    }
    r
}

/// Writes the bytes of one sample at `at`.
fn put_sample(endian: Endian, depth: BitDepth, v: i32, buf: &mut [u8], at: usize)
    requires
        at + depth.bytes() <= old(buf)@.len(),
    ensures
        final(buf)@ == overwritten(old(buf)@, at as int, encoded(endian, depth, v)),
{
    let b: (u8, u8, u8) = low_bytes(v);
    match (endian, depth) {
        (Endian::Little, BitDepth::Bits16) => {
            buf[at] = b.0;
            buf[at + 1] = b.1;
        },
        (Endian::Little, BitDepth::Bits24) => {
            buf[at] = b.0;
            buf[at + 1] = b.1;
            buf[at + 2] = b.2;
        },
        (Endian::Big, BitDepth::Bits16) => {
            buf[at] = b.1;
            buf[at + 1] = b.0;
        },
        (Endian::Big, BitDepth::Bits24) => {
            buf[at] = b.2;
            buf[at + 1] = b.1;
            buf[at + 2] = b.0;
        },
    }
    assert(buf@ =~= overwritten(old(buf)@, at as int, encoded(endian, depth, v)));
}

/// Writes the bytes of samples from `at` on.
pub fn put_samples(endian: Endian, depth: BitDepth, samples: &Vec<i32>, buf: &mut [u8], at: usize)
    requires
        at + samples@.len() * depth.bytes() <= old(buf)@.len(),
    ensures
        final(buf)@ == overwritten(old(buf)@, at as int, encoded_all(endian, depth, samples@)),
{
    let width: usize = match depth {
        BitDepth::Bits16 => 2,
        BitDepth::Bits24 => 3,
    };
    let room: usize = buf.len();
    let mut i: usize = 0;
    let mut pos: usize = at;
    assert(buf@ =~= overwritten(old(buf)@, at as int, encoded_all(endian, depth, samples@.take(0))));
    while i < samples.len()
        invariant
            i <= samples@.len(),
            width == depth.bytes(),
            pos == at + i * width,
            at + samples@.len() * depth.bytes() <= room,
            buf@.len() == room,
            old(buf)@.len() == room,
            buf@ == overwritten(
                old(buf)@,
                at as int,
                encoded_all(endian, depth, samples@.take(i as int)),
            ),
        decreases samples@.len() - i,
    {
        let ghost before = buf@;
        proof {
            let n = samples@.len() as int;
            assert((i + 1) * width <= n * width) by (nonlinear_arith)
                requires
                    i + 1 <= n,
                    width >= 0,
            ;
            assert((i + 1) * width == i * width + width) by (nonlinear_arith);
            lemma_encoded_all_len(endian, depth, samples@.take(i as int));
            lemma_encoded_len(endian, depth, samples@[i as int]);
            assert(samples@.take(i + 1).drop_last() =~= samples@.take(i as int));
        }
        put_sample(endian, depth, samples[i], buf, pos);
        pos += width;
        i += 1;
        assert(buf@ =~= overwritten(
            old(buf)@,
            at as int,
            encoded_all(endian, depth, samples@.take(i as int)),
        ));
    }
    assert(samples@.take(i as int) =~= samples@);
}

} // verus!
