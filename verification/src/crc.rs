//! CRC-16 over a window of demodulated bits.
//!
//! The link protocol protects address, packet control field and payload with
//! a CRC-16 computed bit by bit: polynomial 0x1021, initial register 0xFFFF,
//! no reflection, no final xor.

use vstd::prelude::*;

verus! {

/// One shift of the CRC register over bit `b`: when `b` differs from the top
/// bit of the register, shift and fold in the polynomial 0x1021.
pub open spec fn crc_step(reg: u16, b: u8) -> u16 {
    if b != ((reg >> 15u16) as u8) {
        (reg << 1u16) ^ 0x1021u16
    } else {
        reg << 1u16
    }
}

/// The CRC register after processing the `n` bits starting at `start`,
/// beginning from the initial register 0xFFFF.
pub open spec fn crc_fold(bits: Seq<u8>, start: int, n: nat) -> u16
    decreases n,
{
    if n == 0 {
        0xffff
    } else {
        crc_step(crc_fold(bits, start, (n - 1) as nat), bits[start + n - 1])
    }
}

/// The CRC of an empty window is the initial register itself.
pub proof fn lemma_crc_empty(bits: Seq<u8>, start: int)
    ensures
        crc_fold(bits, start, 0) == 0xffff,
{
}

/// Computes the CRC-16 of the `n` bits starting at `start`.
pub fn crc16(bits: &Vec<u8>, start: usize, n: usize) -> (r: u16)
    requires
        start + n <= bits@.len(),
    ensures
        r == crc_fold(bits@, start as int, n as nat),
{
    let len = bits.len();
    let mut reg: u16 = 0xffff;
    let mut k: usize = 0;
    while k < n
        invariant
            len == bits@.len(),
            start + n <= len,
            k <= n,
            reg == crc_fold(bits@, start as int, k as nat),
        decreases n - k,
    {
        let b = bits[start + k];
        let top = (reg >> 15u16) as u8;
        if b != top {
            reg = (reg << 1u16) ^ 0x1021u16;
        } else {
            reg = reg << 1u16;
        }
        k += 1;
    }
    reg
}

} // verus!
