//! Integers as byte sequences.
use vstd::prelude::*;

verus! {

/// The `n` low-order bytes of `v`, lowest byte first.
pub open spec fn le_bytes(v: int, n: nat) -> Seq<u8>
    decreases n,
{
    if n == 0 {
        Seq::empty()
    } else {
        seq![(v % 256) as u8] + le_bytes(v / 256, (n - 1) as nat)
    }
}

/// The `n` low-order bytes of `v`, highest byte first.
pub open spec fn be_bytes(v: int, n: nat) -> Seq<u8> {
    le_bytes(v, n).reverse()
}

/// The number that bytes stand for, lowest byte first.
pub open spec fn le_value(b: Seq<u8>) -> nat
    decreases b.len(),
{
    if b.len() == 0 {
        0
    } else {
        (b[0] + 256 * le_value(b.drop_first())) as nat
    }
}

/// How many numbers fit in `n` bytes.
pub open spec fn byte_range(n: nat) -> nat
    decreases n,
{
    if n == 0 {
        1
    } else {
        256 * byte_range((n - 1) as nat)
    }
}

/// `le_bytes` gives the number of bytes that was asked for.
pub broadcast proof fn lemma_le_bytes_len(v: int, n: nat)
    ensures
        #[trigger] le_bytes(v, n).len() == n,
    decreases n,
{
    if n > 0 {
        lemma_le_bytes_len(v / 256, (n - 1) as nat);
    }
}

/// A number that fits in `n` bytes is read back from them.
pub proof fn law_le_round_trip(v: nat, n: nat)
    requires
        v < byte_range(n),
    ensures
        le_value(le_bytes(v as int, n)) == v,
    decreases n,
{
    if n > 0 {
        law_le_round_trip(v / 256, (n - 1) as nat);
        let b = le_bytes(v as int, n);
        assert(b.drop_first() =~= le_bytes(v as int / 256, (n - 1) as nat));
    }
}

/// The low-order bytes of a number are those of every number that is congruent
/// to it in the range of these bytes.
pub proof fn lemma_le_bytes_congruent(v: int, k: int, n: nat)
    ensures
        le_bytes(v + k * byte_range(n), n) == le_bytes(v, n),
    decreases n,
{
    if n > 0 {
        let m = (n - 1) as nat;
        let r = byte_range(m) as int;
        assert(byte_range(n) == 256 * r);
        assert(k * (256 * r) == 256 * (k * r)) by (nonlinear_arith);
        lemma_le_bytes_congruent(v / 256, k, m);
        assert((v + 256 * (k * r)) / 256 == v / 256 + k * r);
        assert((v + 256 * (k * r)) % 256 == v % 256);
    }
}

/// The bytes of a number are its low-order ones and those of what is above them.
proof fn lemma_le_bytes_split(v: int, a: nat, b: nat)
    requires
        v >= 0,
    ensures
        byte_range(a) > 0,
        le_bytes(v, a + b) == le_bytes(v, a) + le_bytes(v / byte_range(a) as int, b),
    decreases a,
{
    if a == 0 {
        assert(le_bytes(v, a) + le_bytes(v / 1, b) =~= le_bytes(v, b));
    } else {
        let m = (a - 1) as nat;
        lemma_le_bytes_split(v / 256, m, b);
        vstd::arithmetic::div_mod::lemma_div_denominator(v, 256, byte_range(m) as int);
        assert(le_bytes(v, a + b) =~= le_bytes(v, a) + le_bytes(v / byte_range(a) as int, b));
    }
}

/// Appends two bytes, lowest first.
pub fn push_u16_le(out: &mut Vec<u8>, v: u16)
    ensures
        final(out)@ == old(out)@ + le_bytes(v as int, 2),
{
    reveal_with_fuel(le_bytes, 3);
    out.push((v % 256) as u8);
    out.push((v / 256) as u8);
    assert(out@ =~= old(out)@ + le_bytes(v as int, 2));
}

/// Appends four bytes, lowest first.
pub fn push_u32_le(out: &mut Vec<u8>, v: u32)
    ensures
        final(out)@ == old(out)@ + le_bytes(v as int, 4),
{
    reveal_with_fuel(le_bytes, 5);
    out.push((v % 256) as u8);
    out.push((v / 256 % 256) as u8);
    out.push((v / 256 / 256 % 256) as u8);
    out.push((v / 256 / 256 / 256) as u8);
    assert(out@ =~= old(out)@ + le_bytes(v as int, 4));
}

/// Appends eight bytes, lowest first.
pub fn push_u64_le(out: &mut Vec<u8>, v: u64)
    ensures
        final(out)@ == old(out)@ + le_bytes(v as int, 8),
{
    let low: u32 = (v % 0x1_0000_0000) as u32;
    let high: u32 = (v / 0x1_0000_0000) as u32;
    push_u32_le(out, low);
    push_u32_le(out, high);
    proof {
        reveal_with_fuel(byte_range, 5);
        lemma_le_bytes_split(v as int, 4, 4);
        lemma_le_bytes_congruent(low as int, high as int, 4);
        assert(byte_range(4) == 0x1_0000_0000);
        assert(high * byte_range(4) == high * 0x1_0000_0000) by (nonlinear_arith)
            requires
                byte_range(4) == 0x1_0000_0000,
        ;
        assert(low + high * byte_range(4) == v);
        assert(v as int / byte_range(4) as int == high);
        assert(out@ =~= old(out)@ + le_bytes(v as int, 8));
    }
}

} // verus!
