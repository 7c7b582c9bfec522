use indexer::codec::SOTMarker;
use indexer::tlm::{generate_tlmindex, JP2FileMetadata};

fn tile(isot: u16, psot: u32) -> SOTMarker {
    SOTMarker { isot, psot, tpsot: 0, tnsot: 1 }
}

fn md(file_length: u64, position_first_sot: u64) -> JP2FileMetadata {
    JP2FileMetadata { file_length, position_first_sot }
}

/// Reads an encoded TLM segment (marker code onward) back per the wire
/// format, returning its `(isot, psot)` pairs.
fn decode_segment(seg: &[u8]) -> Vec<(u16, u32)> {
    assert!(seg.len() >= 6);
    assert_eq!(&seg[0..2], &[0xff, 0x55]);
    let l = u16::from_be_bytes([seg[2], seg[3]]) as usize;
    assert_eq!(l + 2, seg.len());
    assert_eq!(seg[4], 0);
    let (st, sp): (usize, usize) = match seg[5] {
        0 => (0, 2),
        0x10 => (1, 2),
        0x50 => (1, 4),
        0x20 => (2, 2),
        0x60 => (2, 4),
        other => panic!("flag byte the encoder cannot produce: {other}"),
    };
    let mut out = Vec::new();
    if st == 0 {
        assert_eq!(seg.len(), 6);
        return out;
    }
    assert_eq!((seg.len() - 6) % (st + sp), 0);
    let mut i = 6;
    while i < seg.len() {
        let isot = if st == 1 {
            seg[i] as u16
        } else {
            u16::from_be_bytes([seg[i], seg[i + 1]])
        };
        let psot = if sp == 2 {
            u16::from_be_bytes([seg[i + st], seg[i + st + 1]]) as u32
        } else {
            u32::from_be_bytes([seg[i + st], seg[i + st + 1], seg[i + st + 2], seg[i + st + 3]])
        };
        out.push((isot, psot));
        i += st + sp;
    }
    out
}

#[test]
fn exact_bytes_single_tile() {
    let out = generate_tlmindex(&md(0x0102030405060708, 0x11), vec![tile(3, 1000)]);
    let mut expected: Vec<u8> = Vec::new();
    expected.extend_from_slice(&0x0102030405060708u64.to_be_bytes());
    expected.extend_from_slice(&0x11u64.to_be_bytes());
    expected.extend_from_slice(&9u32.to_be_bytes()); // segment + marker code
    expected.extend_from_slice(&[0xff, 0x55]); // TLM marker
    expected.extend_from_slice(&[0x00, 0x07]); // segment length
    expected.push(0); // Ztlm
    expected.push(0x10); // 1-byte ST, 2-byte SP
    expected.push(3); // isot
    expected.extend_from_slice(&[0x03, 0xe8]); // psot
    assert_eq!(out, expected);
}

#[test]
fn length_formula_matches_widths() {
    // N tiles at (ST + SP) bytes each after the 26 fixed bytes
    let out = generate_tlmindex(&md(10, 5), vec![tile(0, 10), tile(1, 20), tile(2, 30)]);
    assert_eq!(out.len(), 26 + 3 * (1 + 2));
    let out = generate_tlmindex(&md(10, 5), vec![tile(300, 10)]);
    assert_eq!(out.len(), 26 + 1 * (2 + 2));
    let out = generate_tlmindex(&md(10, 5), vec![tile(1, 100_000)]);
    assert_eq!(out.len(), 26 + 1 * (1 + 4));
    let out = generate_tlmindex(&md(10, 5), vec![tile(300, 100_000)]);
    assert_eq!(out.len(), 26 + 1 * (2 + 4));
}

#[test]
fn empty_record_list() {
    let out = generate_tlmindex(&md(42, 7), vec![]);
    assert_eq!(out.len(), 26);
    assert_eq!(&out[16..20], &6u32.to_be_bytes());
    assert_eq!(&out[22..24], &[0x00, 0x04]);
    assert_eq!(out[25], 0); // no width bit set in the degenerate case
}

#[test]
fn isot_254_keeps_one_byte_index() {
    let out = generate_tlmindex(&md(10, 5), vec![tile(1, 10), tile(254, 10)]);
    assert_eq!(out[25], 0x10);
    assert_eq!(out.len(), 26 + 2 * 3);
}

#[test]
fn isot_255_forces_two_byte_index() {
    let out = generate_tlmindex(&md(10, 5), vec![tile(1, 10), tile(255, 10)]);
    assert_eq!(out[25], 0x20);
    assert_eq!(out.len(), 26 + 2 * 4);
}

#[test]
fn psot_65534_keeps_two_byte_length() {
    let out = generate_tlmindex(&md(10, 5), vec![tile(0, 65534)]);
    assert_eq!(out[25], 0x10);
    assert_eq!(out.len(), 26 + 3);
}

#[test]
fn psot_65535_forces_four_byte_length() {
    let out = generate_tlmindex(&md(10, 5), vec![tile(0, 65535)]);
    assert_eq!(out[25], 0x50);
    assert_eq!(out.len(), 26 + 5);
}

#[test]
fn round_trip_sorted_pairs() {
    let entries = vec![tile(5, 100), tile(2, 65535), tile(9, 70_000), tile(2, 50)];
    let out = generate_tlmindex(&md(1_000_000, 123), entries);
    let pairs = decode_segment(&out[20..]);
    // the same pairs, sorted by isot; equal indices keep discovery order
    assert_eq!(pairs, vec![(2, 65535), (2, 50), (5, 100), (9, 70_000)]);
}

#[test]
fn round_trip_wide_indices() {
    let entries = vec![tile(1000, 10), tile(3, 20)];
    let out = generate_tlmindex(&md(50, 40), entries);
    assert_eq!(out[25], 0x20);
    let pairs = decode_segment(&out[20..]);
    assert_eq!(pairs, vec![(3, 20), (1000, 10)]);
}

#[test]
fn round_trip_empty() {
    let out = generate_tlmindex(&md(50, 40), vec![]);
    assert_eq!(decode_segment(&out[20..]), vec![]);
}
