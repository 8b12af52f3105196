//! CRC-32c, the Castagnoli cyclic redundancy check that protects every packet.

use vstd::prelude::*;

verus! {

/// The Castagnoli polynomial 0x1EDC6F41, bit-reflected.
pub const CRC32C_POLYNOMIAL_REFLECTED: u32 = 0x82F6_3B78;

/// One step of the reflected shift register: shift out the low bit, and fold
/// the polynomial in where that bit was set.
pub open spec fn crc_shift(state: u32) -> u32 {
    if state & 1 == 1 {
        (state >> 1) ^ 0x82F6_3B78u32
    } else {
        state >> 1
    }
}

/// `n` steps of the shift register.
pub open spec fn crc_shifts(state: u32, n: nat) -> u32
    decreases n,
{
    if n == 0 {
        state
    } else {
        crc_shift(crc_shifts(state, (n - 1) as nat))
    }
}

/// The register after one more byte of input.
pub open spec fn crc_feed(state: u32, byte: u8) -> u32 {
    crc_shifts(state ^ (byte as u32), 8)
}

/// The register after all of `data`, starting from all ones.
pub open spec fn crc_state(data: Seq<u8>) -> u32
    decreases data.len(),
{
    if data.len() == 0 {
        0xFFFF_FFFFu32
    } else {
        crc_feed(crc_state(data.drop_last()), data.last())
    }
}

/// The CRC-32c of `data`: reflected Castagnoli polynomial, initial value
/// 0xFFFFFFFF, final XOR 0xFFFFFFFF.
pub open spec fn spec_crc32c(data: Seq<u8>) -> u32 {
    crc_state(data) ^ 0xFFFF_FFFFu32
}

fn feed(state: u32, byte: u8) -> (r: u32)
    ensures
        r == crc_feed(state, byte),
{
    let start: u32 = state ^ (byte as u32);
    let mut current: u32 = start;
    let mut k: u8 = 0;
    while k < 8
        invariant
            k <= 8,
            current == crc_shifts(start, k as nat),
        decreases 8 - k,
    {
        current = if current & 1 == 1 {
            (current >> 1) ^ CRC32C_POLYNOMIAL_REFLECTED
        } else {
            current >> 1
        };
        k = k + 1;
    }
    current
}

/// Computes the CRC-32c of `data`.
pub fn crc32c(data: &[u8]) -> (r: u32)
    ensures
        r == spec_crc32c(data@),
{
    let mut state: u32 = 0xFFFF_FFFF;
    let mut i: usize = 0;
    while i < data.len()
        invariant
            i <= data.len(),
            state == crc_state(data@.take(i as int)),
        decreases data.len() - i,
    {
        proof {
            assert(data@.take(i + 1).drop_last() =~= data@.take(i as int));
        }
        state = feed(state, data[i]);
        i = i + 1;
    }
    proof {
        assert(data@.take(i as int) =~= data@);
    }
    state ^ 0xFFFF_FFFF
}

} // verus!
