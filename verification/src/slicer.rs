//! Hard-decision bit slicing.
//!
//! The timing-recovery loop emits one interpolated sample per input sample;
//! grouping them into chunks of the nominal samples-per-symbol count and
//! keeping only the first sample of each chunk yields one decision per
//! symbol period.  The slicer works on the sign of each sample: a
//! non-negative sample decides 1, a negative one decides 0.

use vstd::prelude::*;
use crate::bitfield::is_bit_seq;

verus! {

/// Slices one bit per symbol period: of each chunk of `sps` consecutive
/// samples only the first is kept, and a non-negative sample (`true`)
/// decides 1.  The last chunk may be shorter than `sps`; it still yields a
/// bit from its first sample.
pub fn slice_bits(nonneg: &Vec<bool>, sps: usize) -> (r: Vec<u8>)
    requires
        1 <= sps,
    ensures
        is_bit_seq(r@),
        r@.len() * sps >= nonneg@.len(),
        r@.len() > 0 ==> (r@.len() - 1) * sps < nonneg@.len(),
        nonneg@.len() == 0 ==> r@.len() == 0,
        forall|k: int|
            0 <= k < r@.len() ==> r@[k] == (if nonneg@[k * sps] { 1u8 } else { 0u8 }),
{
    let len = nonneg.len();
    let mut r: Vec<u8> = Vec::new();
    assert(r@.len() * sps == 0) by (nonlinear_arith)
        requires
            r@.len() == 0,
    ;
    let mut idx: usize = 0;
    while idx < len
        invariant
            1 <= sps,
            len == nonneg@.len(),
            idx <= len,
            r@.len() == 0 ==> idx == 0,
            idx < len ==> idx == r@.len() * sps,
            idx >= len ==> r@.len() * sps >= len,
            r@.len() > 0 ==> (r@.len() - 1) * sps < len,
            forall|k: int|
                0 <= k < r@.len() ==> r@[k] == (if nonneg@[k * sps] { 1u8 } else { 0u8 }),
        decreases len - idx,
    {
        let bit: u8 = if nonneg[idx] {
            1
        } else {
            0
        };
        r.push(bit);
        proof {
            assert(r@.len() * sps == (r@.len() - 1) * sps + sps) by (nonlinear_arith);
        }
        let rem = len - idx;
        if rem <= sps {
            idx = len;
        } else {
            idx = idx + sps;
        }
    }
    proof {
        if r@.len() > 0 {
            assert((r@.len() - 1) * sps >= 0) by (nonlinear_arith)
                requires
                    r@.len() > 0,
                    sps >= 1,
            ;
        }
    }
    r
}

} // verus!
