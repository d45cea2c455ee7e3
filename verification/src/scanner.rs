//! Sliding preamble scanner.
//!
//! The scanner walks the bit sequence once, keeping a single counter of
//! consecutive alternating bits.  Whenever the counter lands in the preamble
//! band [9, 17] the current position is a candidate frame start: a
//! sufficiently long alternating run is consistent with preamble bits rolling
//! into the first address bits.  Every candidate is parsed and CRC-validated
//! independently; validated packets are collected in ascending scan order,
//! overlapping detections included.  The scan keeps a trailing margin so that
//! the largest possible frame announced near the end of the buffer still lies
//! inside it.

use vstd::prelude::*;
use crate::bitfield::is_bit_seq;
use crate::packet::{Packet, PacketModel, decode_spec, decode_at, MAX_FRAME_BITS};

verus! {

/// Bits reserved past the last scanned position; generous enough for the
/// largest frame, which spans `MAX_FRAME_BITS` (313) bits.
pub const TRAIL_MARGIN_BITS: usize = 512;

/// The trailing margin accommodates the largest frame the protocol allows:
/// a frame announced at any scanned position lies entirely inside the buffer.
pub proof fn lemma_margin_covers_max_frame()
    ensures
        MAX_FRAME_BITS <= TRAIL_MARGIN_BITS,
{
}

/// Number of alternations in the run of strictly alternating bits that ends
/// at position `i`: zero whenever the bit at `i` repeats its predecessor,
/// one more than at `i - 1` otherwise.
pub open spec fn alt_run(bits: Seq<u8>, i: int) -> int
    decreases i,
{
    if i <= 0 {
        0
    } else if bits[i] != bits[i - 1] {
        alt_run(bits, i - 1) + 1
    } else {
        0
    }
}

/// A position whose alternating-run count lands in the preamble band.
pub open spec fn candidate_at(bits: Seq<u8>, i: int) -> bool {
    9 <= alt_run(bits, i) <= 17
}

/// Validated frames found at positions 1 .. end, in scan order.
pub open spec fn scan_upto(bits: Seq<u8>, end: int) -> Seq<PacketModel>
    decreases end,
{
    if end <= 1 {
        Seq::empty()
    } else {
        let prev = scan_upto(bits, end - 1);
        if candidate_at(bits, end - 1) {
            match decode_spec(bits, end - 1) {
                Some(p) => prev.push(p),
                None => prev,
            }
        } else {
            prev
        }
    }
}

/// First position past the scanned range: the trailing margin is left
/// unscanned, and a sequence shorter than the margin is not scanned at all.
pub open spec fn scan_end(bits: Seq<u8>) -> int {
    if bits.len() >= TRAIL_MARGIN_BITS {
        bits.len() - TRAIL_MARGIN_BITS
    } else {
        0
    }
}

/// All validated frames a full scan of the sequence yields, in scan order.
pub open spec fn scan_spec(bits: Seq<u8>) -> Seq<PacketModel> {
    scan_upto(bits, scan_end(bits))
}

/// One scanner step: the counter grows by one on an alternation and resets
/// to zero on a repeated bit.
pub fn alt_step(count: usize, prev: u8, cur: u8) -> (r: usize)
    requires
        count < usize::MAX,
    ensures
        r == (if cur != prev { count + 1 } else { 0int }),
{
    if cur != prev {
        count + 1
    } else {
        0
    }
}

/// The alternation counter never exceeds the current position.
pub proof fn lemma_alt_run_le(bits: Seq<u8>, i: int)
    requires
        0 <= i,
    ensures
        0 <= alt_run(bits, i) <= i,
    decreases i,
{
    if i > 0 {
        lemma_alt_run_le(bits, i - 1);
    }
}

/// The counter resets to zero the moment two consecutive bits are equal, and
/// the bits it spans strictly alternate: the counter never exceeds the length
/// of the longest strictly alternating run ending at the current position.
pub proof fn lemma_alt_run_alternating(bits: Seq<u8>, i: int)
    requires
        0 <= i,
    ensures
        0 <= alt_run(bits, i) <= i,
        1 <= i && bits[i] == bits[i - 1] ==> alt_run(bits, i) == 0,
        forall|j: int| i - alt_run(bits, i) <= j < i ==> bits[j + 1] != #[trigger] bits[j],
    decreases i,
{
    lemma_alt_run_le(bits, i);
    if i > 0 && bits[i] != bits[i - 1] {
        lemma_alt_run_alternating(bits, i - 1);
        assert forall|j: int| i - alt_run(bits, i) <= j < i implies bits[j + 1] != #[trigger] bits[j] by {
            if j < i - 1 {
                assert(i - 1 - alt_run(bits, i - 1) <= j < i - 1);
            }
        }
    }
}

/// A scan over positions with no candidate yields nothing.
proof fn lemma_scan_upto_no_candidates(bits: Seq<u8>, end: int)
    requires
        forall|i: int| 1 <= i < end ==> !candidate_at(bits, i),
    ensures
        scan_upto(bits, end).len() == 0,
    decreases end,
{
    if end > 1 {
        lemma_scan_upto_no_candidates(bits, end - 1);
    }
}

/// A constant bit sequence never raises the alternation counter above zero,
/// so it yields no candidate position and no packet at all.
pub proof fn lemma_constant_bits_scan_empty(bits: Seq<u8>)
    requires
        forall|j: int| 0 <= j < bits.len() ==> #[trigger] bits[j] == bits[0],
    ensures
        forall|i: int| 1 <= i < bits.len() ==> alt_run(bits, i) == 0,
        forall|i: int| 1 <= i < scan_end(bits) ==> !candidate_at(bits, i),
        scan_spec(bits).len() == 0,
{
    assert forall|i: int| 1 <= i < bits.len() implies alt_run(bits, i) == 0 by {
        assert(bits[i] == bits[0]);
        assert(bits[i - 1] == bits[0]);
    }
    assert forall|i: int| 1 <= i < scan_end(bits) implies !candidate_at(bits, i) by {
        assert(alt_run(bits, i) == 0);
    }
    lemma_scan_upto_no_candidates(bits, scan_end(bits));
}

/// Scans the whole bit sequence and returns every validated packet, in
/// ascending scan-position order, overlapping detections included.
pub fn scan(bits: &Vec<u8>) -> (r: Vec<Packet>)
    requires
        is_bit_seq(bits@),
    ensures
        r@.len() == scan_spec(bits@).len(),
        forall|k: int| 0 <= k < r@.len() ==> (#[trigger] r@[k])@ == scan_spec(bits@)[k],
{
    let len = bits.len();
    let mut out: Vec<Packet> = Vec::new();
    if len < TRAIL_MARGIN_BITS + 2 {
        return out;
    }
    let end = len - TRAIL_MARGIN_BITS;
    let mut alt_count: usize = 0;
    let mut i: usize = 1;
    while i < end
        invariant
            is_bit_seq(bits@),
            len == bits@.len(),
            2 <= end,
            end == scan_end(bits@),
            end <= len,
            1 <= i <= end,
            alt_count == alt_run(bits@, i - 1),
            out@.len() == scan_upto(bits@, i as int).len(),
            forall|k: int|
                0 <= k < out@.len() ==> (#[trigger] out@[k])@ == scan_upto(bits@, i as int)[k],
        decreases end - i,
    {
        proof {
            lemma_alt_run_le(bits@, i - 1);
        }
        alt_count = alt_step(alt_count, bits[i - 1], bits[i]);
        if 9 <= alt_count && alt_count <= 17 {
            match decode_at(bits, i) {
                Some(p) => {
                    out.push(p);
                },
                None => {},
            }
        }
        i += 1;
    }
    out
}

} // verus!
