//! Packet field extraction and CRC validation over a bit window.
//!
//! From a candidate bit offset a frame is read MSB first: a 4-byte address,
//! a 6-bit payload length, a 2-bit protocol id, a 1-bit no-ack flag (kept but
//! never branched on), `length` payload bytes and a 16-bit CRC.  A length
//! above 32 bytes is rejected before any further field is read; a window too
//! short for the fields it announces is rejected as well.  A candidate is
//! accepted only when the CRC recomputed over address, control field and
//! payload equals the CRC field.

use vstd::prelude::*;
use crate::bitfield::{is_bit_seq, two_pow, field_val, lemma_field_val_bound, read_field};
use crate::crc::{crc_fold, crc16};

verus! {

/// Largest payload the protocol allows, in bytes.
pub const MAX_PAYLOAD_BYTES: usize = 32;

/// Bits in a frame before the payload: 32 address bits, 6 length bits,
/// 2 protocol-id bits and the no-ack bit.
pub const PREFIX_BITS: usize = 41;

/// Bits of the CRC field.
pub const CRC_BITS: usize = 16;

/// Largest whole frame the protocol allows, in bits.
pub const MAX_FRAME_BITS: usize = 41 + 32 * 8 + 16;

/// A parsed packet candidate.
pub struct Packet {
    /// Bit offset in the scanned sequence at which the frame starts.
    pub start: usize,
    /// The four address bytes, in over-the-air order.
    pub address: Vec<u8>,
    /// The 2-bit protocol id.
    pub pid: u8,
    /// The no-ack bit: parsed and retained, never inspected downstream.
    pub no_ack: u8,
    /// The payload bytes; the 6-bit length field equals `payload.len()`.
    pub payload: Vec<u8>,
    /// The CRC field as transmitted.
    pub crc: u16,
}

/// The mathematical image of a `Packet`.
#[verifier::ext_equal]
pub ghost struct PacketModel {
    pub start: int,
    pub address: Seq<u8>,
    pub pid: u8,
    pub no_ack: u8,
    pub payload: Seq<u8>,
    pub crc: u16,
}

impl View for Packet {
    type V = PacketModel;

    open spec fn view(&self) -> PacketModel {
        PacketModel {
            start: self.start as int,
            address: self.address@,
            pid: self.pid,
            no_ack: self.no_ack,
            payload: self.payload@,
            crc: self.crc,
        }
    }
}

/// Field values of the frame starting at bit offset `i`, for a payload of
/// `len` bytes.
pub open spec fn frame_fields(bits: Seq<u8>, i: int, len: int) -> PacketModel {
    PacketModel {
        start: i,
        address: Seq::new(4, |b: int| field_val(bits, i + 8 * b, 8) as u8),
        pid: field_val(bits, i + 38, 2) as u8,
        no_ack: bits[i + 40],
        payload: Seq::new(len as nat, |b: int| field_val(bits, i + 41 + 8 * b, 8) as u8),
        crc: field_val(bits, i + 41 + 8 * len, 16) as u16,
    }
}

/// What field extraction yields at offset `i`: `None` when the window cannot
/// hold the address and length fields, when the length field exceeds 32, or
/// when the window cannot hold the announced payload and the CRC.
pub open spec fn parse_spec(bits: Seq<u8>, i: int) -> Option<PacketModel> {
    if i + 38 > bits.len() {
        None
    } else if field_val(bits, i + 32, 6) > 32 {
        None
    } else if i + 57 + 8 * field_val(bits, i + 32, 6) > bits.len() {
        None
    } else {
        Some(frame_fields(bits, i, field_val(bits, i + 32, 6)))
    }
}

/// Field extraction followed by CRC validation: the register recomputed over
/// address, control field and payload must equal the CRC field.
pub open spec fn decode_spec(bits: Seq<u8>, i: int) -> Option<PacketModel> {
    match parse_spec(bits, i) {
        None => None,
        Some(p) => {
            if crc_fold(bits, i, (41 + 8 * p.payload.len()) as nat) == p.crc {
                Some(p)
            } else {
                None
            }
        },
    }
}

/// Extracts the frame fields at bit offset `i`; rejects a length field above
/// 32 before reading any further field, and any window too short for what it
/// announces.
pub fn parse_at(bits: &Vec<u8>, i: usize) -> (r: Option<Packet>)
    requires
        is_bit_seq(bits@),
        i <= bits@.len(),
    ensures
        (match r {
            Some(p) => parse_spec(bits@, i as int) == Some(p@),
            None => parse_spec(bits@, i as int) is None,
        }),
{
    let len = bits.len();
    if len - i < 38 {
        return None;
    }
    let length = read_field(bits, i + 32, 6) as u8;
    proof {
        lemma_field_val_bound(bits@, i + 32, 6);
        assert(two_pow(6) == 64) by {
            reveal_with_fuel(two_pow, 7);
        }
    }
    if length as usize > MAX_PAYLOAD_BYTES {
        return None;
    }
    let need: usize = PREFIX_BITS + CRC_BITS + 8 * (length as usize);
    if len - i < need {
        return None;
    }

    let mut address: Vec<u8> = Vec::new();
    let mut ibyte: usize = 0;
    while ibyte < 4
        invariant
            is_bit_seq(bits@),
            len == bits@.len(),
            i + 38 <= len,
            ibyte <= 4,
            address@.len() == ibyte,
            forall|b: int|
                0 <= b < ibyte ==> address@[b] == field_val(bits@, i + 8 * b, 8) as u8,
        decreases 4 - ibyte,
    {
        proof {
            lemma_field_val_bound(bits@, i + 8 * ibyte, 8);
            assert(two_pow(8) == 256) by {
                reveal_with_fuel(two_pow, 9);
            }
        }
        let byte = read_field(bits, i + 8 * ibyte, 8) as u8;
        address.push(byte);
        ibyte += 1;
    }

    let pid = read_field(bits, i + 38, 2) as u8;
    let no_ack = bits[i + 40];

    let mut payload: Vec<u8> = Vec::new();
    let mut pbyte: usize = 0;
    while pbyte < length as usize
        invariant
            is_bit_seq(bits@),
            len == bits@.len(),
            length <= 32,
            i + 57 + 8 * length <= len,
            pbyte <= length as usize,
            payload@.len() == pbyte,
            forall|b: int|
                0 <= b < pbyte ==> payload@[b] == field_val(bits@, i + 41 + 8 * b, 8) as u8,
        decreases length as usize - pbyte,
    {
        proof {
            lemma_field_val_bound(bits@, i + 41 + 8 * pbyte, 8);
            assert(two_pow(8) == 256) by {
                reveal_with_fuel(two_pow, 9);
            }
        }
        let byte = read_field(bits, i + 41 + 8 * pbyte, 8) as u8;
        payload.push(byte);
        pbyte += 1;
    }

    let crc = read_field(bits, i + PREFIX_BITS + 8 * (length as usize), CRC_BITS);

    proof {
        let ghost m = frame_fields(bits@, i as int, field_val(bits@, i + 32, 6));
        assert(address@ =~= m.address);
        assert(payload@ =~= m.payload);
    }
    Some(Packet { start: i, address, pid, no_ack, payload, crc })
}

/// Extracts and validates the frame at bit offset `i`: the result is the
/// parsed packet exactly when the recomputed CRC matches the CRC field.
pub fn decode_at(bits: &Vec<u8>, i: usize) -> (r: Option<Packet>)
    requires
        is_bit_seq(bits@),
        i <= bits@.len(),
    ensures
        (match r {
            Some(p) => decode_spec(bits@, i as int) == Some(p@),
            None => decode_spec(bits@, i as int) is None,
        }),
{
    match parse_at(bits, i) {
        None => None,
        Some(p) => {
            proof {
                lemma_field_val_bound(bits@, i + 32, 6);
                assert(p@.payload.len() == field_val(bits@, i + 32, 6));
            }
            let nbits: usize = PREFIX_BITS + 8 * p.payload.len();
            let calc = crc16(bits, i, nbits);
            if calc == p.crc {
                Some(p)
            } else {
                None
            }
        },
    }
}

} // verus!
