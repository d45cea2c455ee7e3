use receiver::crc::crc16;
use receiver::scanner::{alt_step, scan};
use receiver::slicer::slice_bits;

fn push_byte(bits: &mut Vec<u8>, byte: u8) {
    for k in 0..8 {
        bits.push((byte >> (7 - k)) & 1);
    }
}

fn push_field(bits: &mut Vec<u8>, value: u32, width: u32) {
    for k in 0..width {
        bits.push(((value >> (width - 1 - k)) & 1) as u8);
    }
}

#[test]
fn end_to_end_single_packet() {
    // 16 alternating preamble bits ending in 0, so that the leading 1 of the
    // address continues the alternating run into the frame start.
    let mut bits: Vec<u8> = Vec::new();
    for k in 0..16 {
        bits.push(1 - (k % 2) as u8);
    }
    let start = bits.len();
    assert_eq!(start, 16);

    // Frame: address 0xAABBCCDD, length 2, pid 1, no-ack 0, payload 0x1234.
    for byte in [0xaau8, 0xbbu8, 0xccu8, 0xddu8] {
        push_byte(&mut bits, byte);
    }
    push_field(&mut bits, 2, 6);
    push_field(&mut bits, 1, 2);
    bits.push(0);
    push_byte(&mut bits, 0x12);
    push_byte(&mut bits, 0x34);
    let crc = crc16(&bits, start, 41 + 8 * 2);
    push_field(&mut bits, crc as u32, 16);

    // Trailing zeros: room for the scan margin, and no further candidates.
    while bits.len() < 700 {
        bits.push(0);
    }

    // Encode each bit as two identical hard-decision samples and run the
    // back half of the pipeline.
    let mut signs: Vec<bool> = Vec::new();
    for &b in &bits {
        signs.push(b == 1);
        signs.push(b == 1);
    }
    let sliced = slice_bits(&signs, 2);
    assert_eq!(sliced, bits);

    let packets = scan(&sliced);
    assert_eq!(packets.len(), 1);
    let p = &packets[0];
    assert_eq!(p.start, 16);
    assert_eq!(p.address, vec![0xaa, 0xbb, 0xcc, 0xdd]);
    assert_eq!(p.pid, 1);
    assert_eq!(p.no_ack, 0);
    assert_eq!(p.payload, vec![0x12, 0x34]);

    // The expected output line for this packet.
    let mut line = String::from("address=");
    for b in &p.address {
        line.push_str(&format!("{:02x}", b));
    }
    line.push_str(&format!(",  pld={},  payload=", p.pid));
    for b in &p.payload {
        line.push_str(&format!("{:02x}", b));
    }
    assert_eq!(line, "address=aabbccdd,  pld=1,  payload=1234");
}

#[test]
fn constant_bits_yield_no_packets() {
    // A constant sequence never alternates, so no candidate is ever scanned.
    for fill in [0u8, 1u8] {
        let bits = vec![fill; 1000];
        assert!(scan(&bits).is_empty());
    }
}

#[test]
fn short_buffer_yields_no_packets() {
    // Shorter than the trailing margin: nothing is scanned, nothing crashes.
    let mut bits: Vec<u8> = Vec::new();
    for k in 0..100 {
        bits.push((k % 2) as u8);
    }
    assert!(scan(&bits).is_empty());
    let empty: Vec<u8> = Vec::new();
    assert!(scan(&empty).is_empty());
}

#[test]
fn alt_counter_resets_on_equal_bits() {
    // Drive the scanner step over 0101 1 0101...: the counter climbs, resets
    // to zero at the repeated bit, then climbs again.
    let bits = [0u8, 1, 0, 1, 1, 0, 1, 0, 1];
    let mut count = 0usize;
    let mut longest_run_end = vec![0usize; bits.len()];
    for i in 1..bits.len() {
        count = alt_step(count, bits[i - 1], bits[i]);
        // Longest strictly alternating run ending at i, counted by hand.
        let mut run = 0usize;
        let mut j = i;
        while j >= 1 && bits[j] != bits[j - 1] {
            run += 1;
            j -= 1;
        }
        longest_run_end[i] = run;
        assert_eq!(count, run);
        if bits[i] == bits[i - 1] {
            assert_eq!(count, 0);
        }
        assert!(count <= i);
    }
    assert_eq!(longest_run_end[4], 0);
    assert_eq!(longest_run_end[8], 4);
}

#[test]
fn alt_counter_stays_zero_on_constant_input() {
    // A constant input never reaches the candidate band [9, 17].
    for fill in [0u8, 1u8] {
        let mut count = 0usize;
        for _ in 1..5000 {
            count = alt_step(count, fill, fill);
            assert_eq!(count, 0);
            assert!(count < 9);
        }
    }
}
