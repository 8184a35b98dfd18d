//! CRC-16/CCITT-FALSE as ECMA-167 prescribes for descriptor bodies:
//! polynomial 0x1021, initial value 0x0000, no reflection, no final XOR.

use vstd::prelude::*;

verus! {

/// One shift step of the bitwise CRC: shift left, and fold the
/// polynomial in when the high bit falls out.
pub open spec fn spec_crc16_bit(crc: u16) -> u16 {
    if crc & 0x8000 != 0 {
        (crc << 1) ^ 0x1021
    } else {
        crc << 1
    }
}

/// `n` shift steps applied to `crc`.
pub open spec fn spec_crc16_bits(crc: u16, n: nat) -> u16
    decreases n,
{
    if n == 0 {
        crc
    } else {
        spec_crc16_bits(spec_crc16_bit(crc), (n - 1) as nat)
    }
}

/// The CRC register after absorbing one input byte.
pub open spec fn spec_crc16_byte(crc: u16, b: u8) -> u16 {
    spec_crc16_bits(crc ^ ((b as u16) << 8), 8)
}

/// The CRC register after absorbing the first `i` bytes of `b`,
/// starting from the initial value 0.
pub open spec fn spec_crc16_prefix(b: Seq<u8>, i: int) -> u16
    decreases i,
{
    if i <= 0 {
        0
    } else {
        spec_crc16_byte(spec_crc16_prefix(b, i - 1), b[i - 1])
    }
}

/// CRC-16/CCITT-FALSE of a whole byte sequence.
pub open spec fn spec_cksum(b: Seq<u8>) -> u16 {
    spec_crc16_prefix(b, b.len() as int)
}

/// Applying one more shift step after `n` steps is the same as `n + 1`
/// steps: the steps compose in either order around the chain.
proof fn lemma_crc16_bits_snoc(crc: u16, n: nat)
    ensures
        spec_crc16_bits(crc, n + 1) == spec_crc16_bit(spec_crc16_bits(crc, n)),
    decreases n,
{
    if n == 0 {
        assert(spec_crc16_bits(crc, 1) == spec_crc16_bits(spec_crc16_bit(crc), 0));
    } else {
        lemma_crc16_bits_snoc(spec_crc16_bit(crc), (n - 1) as nat);
        assert(spec_crc16_bits(crc, n + 1) == spec_crc16_bits(spec_crc16_bit(crc), n));
    }
}

/// Calculates the 16-bit CRC of `data` with the ECMA-167 parameters.
pub fn cksum(data: &[u8]) -> (r: u16)
    ensures
        r == spec_cksum(data@),
{
    let n = data.len();
    let mut crc: u16 = 0;
    let mut i: usize = 0;
    while i < n
        invariant
            n == data@.len(),
            i <= n,
            crc == spec_crc16_prefix(data@, i as int),
        decreases n - i,
    {
        crc = crc ^ ((data[i] as u16) << 8);
        let ghost c0 = crc;
        let mut k: usize = 0;
        while k < 8
            invariant
                k <= 8,
                crc == spec_crc16_bits(c0, k as nat),
            decreases 8 - k,
        {
            proof {
                lemma_crc16_bits_snoc(c0, k as nat);
            }
            if crc & 0x8000 != 0 {
                crc = (crc << 1) ^ 0x1021;
            } else {
                crc = crc << 1;
            }
            k = k + 1;
        }
        i = i + 1;
    }
    crc
}

} // verus!
