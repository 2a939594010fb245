//! Fixed-width integers as they stand on the wire.

use vstd::prelude::*;

verus! {

/// The four bytes of `x`, least significant first.
pub open spec fn le32(x: u32) -> Seq<u8> {
    seq![
        (x % 256) as u8,
        (x / 0x100 % 256) as u8,
        (x / 0x1_0000 % 256) as u8,
        (x / 0x100_0000) as u8,
    ]
}

/// The four bytes of `x`, most significant first.
pub open spec fn be32(x: u32) -> Seq<u8> {
    seq![
        (x / 0x100_0000) as u8,
        (x / 0x1_0000 % 256) as u8,
        (x / 0x100 % 256) as u8,
        (x % 256) as u8,
    ]
}

/// The two bytes of `x`, most significant first.
pub open spec fn be16(x: u16) -> Seq<u8> {
    seq![(x / 0x100) as u8, (x % 256) as u8]
}

/// The number whose bytes, least significant first, start at `at`.
pub open spec fn from_le32(s: Seq<u8>, at: int) -> int {
    s[at] + 0x100 * s[at + 1] + 0x1_0000 * s[at + 2] + 0x100_0000 * s[at + 3]
}

/// The number whose bytes, most significant first, start at `at`.
pub open spec fn from_be32(s: Seq<u8>, at: int) -> int {
    0x100_0000 * s[at] + 0x1_0000 * s[at + 1] + 0x100 * s[at + 2] + s[at + 3]
}

/// Whether `n` is two to some power.
pub open spec fn is_two_power(n: int) -> bool {
    exists|k: nat| n == #[trigger] vstd::arithmetic::power2::pow2(k)
}

/// Reading back what was written gives the number, in either byte order.
pub proof fn law_fixed_width_round_trip(x: u32)
    ensures
        from_le32(le32(x), 0) == x,
        from_be32(be32(x), 0) == x,
{
}

/// Two numbers with the same four bytes are one number.
pub proof fn law_le32_is_injective(x: u32, y: u32)
    requires
        le32(x) == le32(y),
    ensures
        x == y,
{
    law_fixed_width_round_trip(x);
    law_fixed_width_round_trip(y);
}

/// Appends `x`, least significant byte first.
pub fn push_le32(out: &mut Vec<u8>, x: u32)
    ensures
        final(out)@ == old(out)@ + le32(x),
{
    out.push((x % 256) as u8);
    out.push((x / 0x100 % 256) as u8);
    out.push((x / 0x1_0000 % 256) as u8);
    out.push((x / 0x100_0000) as u8);
}

/// Reads four bytes, least significant first.
pub fn read_le32(bytes: &[u8], at: usize) -> (x: u32)
    requires
        at + 4 <= bytes@.len(),
    ensures
        x == from_le32(bytes@, at as int),
{
    bytes[at] as u32 + 0x100 * bytes[at + 1] as u32 + 0x1_0000 * bytes[at + 2] as u32
        + 0x100_0000 * bytes[at + 3] as u32
}

/// Reads four bytes, most significant first.
pub fn read_be32(bytes: &[u8], at: usize) -> (x: u32)
    requires
        at + 4 <= bytes@.len(),
    ensures
        x == from_be32(bytes@, at as int),
{
    0x100_0000 * bytes[at] as u32 + 0x1_0000 * bytes[at + 1] as u32 + 0x100 * bytes[at + 2] as u32
        + bytes[at + 3] as u32
}

/// Whether `n` is two to some power.
pub fn is_power_of_two(n: u32) -> (yes: bool)
    ensures
        yes == is_two_power(n as int),
{
    let mut p: u64 = 1;
    let ghost mut k: nat = 0;
    proof {
        vstd::arithmetic::power2::lemma2_to64();
    }
    while p < n as u64
        invariant
            p == vstd::arithmetic::power2::pow2(k),
            k == 0 || vstd::arithmetic::power2::pow2((k - 1) as nat) < n,
            1 <= p < 2 * 0x1_0000_0000,
        decreases 2 * 0x1_0000_0000 - p,
    {
        proof {
            vstd::arithmetic::power2::lemma_pow2_unfold(k + 1);
            k = k + 1;
        }
        p = p * 2;
    }
    proof {
        if is_two_power(n as int) {
            let j = choose|j: nat| n as int == #[trigger] vstd::arithmetic::power2::pow2(j);
            if k < j {
                vstd::arithmetic::power2::lemma_pow2_strictly_increases(k, j);
            }
            if j + 1 < k {
                vstd::arithmetic::power2::lemma_pow2_strictly_increases(j, (k - 1) as nat);
            }
            assert(j == k || j + 1 == k);
        }
    }
    p == n as u64
}

} // verus!
