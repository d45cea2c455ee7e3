//! Bit sequences and MSB-first field extraction.
//!
//! A demodulated stream is a sequence of hard decisions, one `u8` per symbol,
//! each 0 or 1.  Packet fields are fixed-width unsigned integers read from
//! such a sequence most significant bit first.

use vstd::prelude::*;

verus! {

/// Every element of the sequence is a hard decision: 0 or 1.
pub open spec fn is_bit_seq(s: Seq<u8>) -> bool {
    forall|j: int| 0 <= j < s.len() ==> s[j] <= 1
}

/// 2^n; bounds the value of an n-bit field.
pub open spec fn two_pow(n: nat) -> int
    decreases n,
{
    if n == 0 {
        1
    } else {
        2 * two_pow((n - 1) as nat)
    }
}

/// Value of the n-bit field starting at `start`, most significant bit first.
pub open spec fn field_val(bits: Seq<u8>, start: int, n: nat) -> int
    decreases n,
{
    if n == 0 {
        0
    } else {
        2 * field_val(bits, start, (n - 1) as nat) + bits[start + n - 1]
    }
}

pub proof fn lemma_two_pow_pos(n: nat)
    ensures
        two_pow(n) >= 1,
    decreases n,
{
    if n > 0 {
        lemma_two_pow_pos((n - 1) as nat);
    }
}

pub proof fn lemma_two_pow_monotone(a: nat, b: nat)
    requires
        a <= b,
    ensures
        two_pow(a) <= two_pow(b),
    decreases b,
{
    if a < b {
        lemma_two_pow_monotone(a, (b - 1) as nat);
        lemma_two_pow_pos((b - 1) as nat);
    }
}

/// An n-bit field over a 0/1 sequence takes a value in [0, 2^n).
pub proof fn lemma_field_val_bound(bits: Seq<u8>, start: int, n: nat)
    requires
        is_bit_seq(bits),
        0 <= start,
        start + n <= bits.len(),
    ensures
        0 <= field_val(bits, start, n) < two_pow(n),
    decreases n,
{
    if n > 0 {
        lemma_field_val_bound(bits, start, (n - 1) as nat);
        assert(bits[start + n - 1] <= 1);
    }
}

/// Reads the n-bit field starting at `start`, most significant bit first.
pub fn read_field(bits: &Vec<u8>, start: usize, n: usize) -> (r: u16)
    requires
        is_bit_seq(bits@),
        start + n <= bits@.len(),
        n <= 16,
    ensures
        r == field_val(bits@, start as int, n as nat),
{
    let len = bits.len();
    let mut acc: u16 = 0;
    let mut k: usize = 0;
    while k < n
        invariant
            is_bit_seq(bits@),
            len == bits@.len(),
            start + n <= len,
            n <= 16,
            k <= n,
            acc == field_val(bits@, start as int, k as nat),
        decreases n - k,
    {
        proof {
            lemma_field_val_bound(bits@, start as int, k as nat);
            lemma_two_pow_monotone(k as nat, 15);
            assert(two_pow(15) == 32768) by {
                reveal_with_fuel(two_pow, 16);
            }
        }
        let b = bits[start + k];
        acc = acc * 2 + (b as u16);
        k += 1;
    }
    acc
}

} // verus!
