use indexer::walker::{Indexer, Progress};
use indexer::IndexError;

/// Drives a build over an in-memory file, serving each requested range and
/// counting the underlying fetches.
fn run_index_counting(data: &[u8]) -> Result<(Vec<u8>, usize), IndexError> {
    let mut idx = Indexer::new(data.len() as u64);
    let mut fetches: usize = 0;
    loop {
        match idx.advance()? {
            Progress::NeedBytes(a, b) => {
                fetches += 1;
                assert!(a <= b);
                assert!(b as usize <= data.len());
                idx.feed(a, data[a as usize..b as usize].to_vec());
            }
            Progress::Stepped => {}
            Progress::Finished(v) => return Ok((v, fetches)),
        }
    }
}

fn run_index(data: &[u8]) -> Result<Vec<u8>, IndexError> {
    run_index_counting(data).map(|(v, _)| v)
}

/// A signature box, an skippable extra box, and a codestream box holding
/// SOC, a SIZ-like marker, one tile-part per `(isot, psot)` entry, and EOC.
/// Returns the file and the offset of the first SOT marker code.
fn build_jp2(tiles: &[(u16, u32)]) -> (Vec<u8>, u64) {
    let mut f: Vec<u8> = Vec::new();
    // signature box: length 12, type jP\x20\x20, payload 0D 0A 87 0A
    f.extend_from_slice(&12u32.to_be_bytes());
    f.extend_from_slice(&0x6a502020u32.to_be_bytes());
    f.extend_from_slice(&[0x0d, 0x0a, 0x87, 0x0a]);
    // a file-type box the scan must skip: length 16, type ftyp
    f.extend_from_slice(&16u32.to_be_bytes());
    f.extend_from_slice(&0x66747970u32.to_be_bytes());
    f.extend_from_slice(&[0x6a, 0x70, 0x32, 0x20, 0, 0, 0, 0]);

    let mut cs: Vec<u8> = Vec::new();
    cs.extend_from_slice(&0xff4fu16.to_be_bytes()); // SOC
    // a SIZ-like marker segment with a 4-byte payload
    cs.extend_from_slice(&0xff51u16.to_be_bytes());
    cs.extend_from_slice(&6u16.to_be_bytes());
    cs.extend_from_slice(&[1, 2, 3, 4]);
    let first_sot = (f.len() + 8 + cs.len()) as u64;
    for &(isot, psot) in tiles {
        // SOT marker: code, length 10, isot, psot, tpsot 0, tnsot 1
        cs.extend_from_slice(&0xff90u16.to_be_bytes());
        cs.extend_from_slice(&10u16.to_be_bytes());
        cs.extend_from_slice(&isot.to_be_bytes());
        cs.extend_from_slice(&psot.to_be_bytes());
        cs.push(0);
        cs.push(1);
        // SOD, then filler tile data so the tile-part spans exactly psot bytes
        cs.extend_from_slice(&0xff93u16.to_be_bytes());
        let fill = psot as usize - 14;
        cs.extend_from_slice(&vec![0xAAu8; fill]);
    }
    cs.extend_from_slice(&0xffd9u16.to_be_bytes()); // EOC

    // codestream box: exact length, type jp2c
    f.extend_from_slice(&((8 + cs.len()) as u32).to_be_bytes());
    f.extend_from_slice(&0x6a703263u32.to_be_bytes());
    f.extend_from_slice(&cs);
    (f, first_sot)
}

#[test]
fn end_to_end_three_tiles() {
    // three tile-parts, discovered out of tile-index order
    let (data, first_sot) = build_jp2(&[(2, 40), (0, 30), (1, 25)]);
    let blob = run_index(&data).unwrap();
    // preamble: file length, first-SOT position, full segment length
    assert_eq!(blob.len(), 26 + 3 * 3);
    assert_eq!(&blob[0..8], &(data.len() as u64).to_be_bytes());
    assert_eq!(&blob[8..16], &first_sot.to_be_bytes());
    // ST = 1, SP = 2: segment = 4 + 3*3 = 13, full segment = 15
    assert_eq!(&blob[16..20], &15u32.to_be_bytes());
    assert_eq!(&blob[20..22], &0xff55u16.to_be_bytes());
    assert_eq!(&blob[22..24], &13u16.to_be_bytes());
    assert_eq!(blob[24], 0); // Ztlm
    assert_eq!(blob[25], 0x10); // 1-byte ST, 2-byte SP
    // entries in ascending isot order
    assert_eq!(&blob[26..], &[0, 0, 30, 1, 0, 25, 2, 0, 40]);
}

#[test]
fn small_file_needs_one_fetch() {
    // the whole file fits the eager 4096-byte initial fetch: every later
    // read is answered from the cache
    let (data, _) = build_jp2(&[(0, 20), (1, 20)]);
    assert!(data.len() < 4096);
    let (_, fetches) = run_index_counting(&data).unwrap();
    assert_eq!(fetches, 1);
}

#[test]
fn large_tiles_fetch_per_jump() {
    // tile data far beyond the initial window: the walk still succeeds
    let (data, first_sot) = build_jp2(&[(1, 9000), (0, 8000)]);
    assert!(data.len() > 4096);
    let (blob, fetches) = run_index_counting(&data).unwrap();
    assert!(fetches > 1);
    assert_eq!(&blob[8..16], &first_sot.to_be_bytes());
    assert_eq!(blob[25], 0x10);
    assert_eq!(&blob[26..], &[0, 0x1f, 0x40, 1, 0x23, 0x28]);
}

#[test]
fn tlm_before_tiles_is_already_indexed() {
    // a TLM marker before any tile-start marker must be its own signal,
    // not an empty index mistaken for success
    let mut f: Vec<u8> = Vec::new();
    f.extend_from_slice(&12u32.to_be_bytes());
    f.extend_from_slice(&0x6a502020u32.to_be_bytes());
    f.extend_from_slice(&[0x0d, 0x0a, 0x87, 0x0a]);
    let mut body: Vec<u8> = Vec::new();
    body.extend_from_slice(&0xff4fu16.to_be_bytes()); // SOC
    body.extend_from_slice(&0xff55u16.to_be_bytes()); // TLM
    body.extend_from_slice(&8u16.to_be_bytes());
    body.extend_from_slice(&[0u8, 0x10, 3, 0, 0, 20]);
    body.extend_from_slice(&0xffd9u16.to_be_bytes()); // EOC
    f.extend_from_slice(&((8 + body.len()) as u32).to_be_bytes());
    f.extend_from_slice(&0x6a703263u32.to_be_bytes());
    f.extend_from_slice(&body);
    assert_eq!(run_index(&f), Err(IndexError::AlreadyIndexed));
}

#[test]
fn multi_part_tile_is_unsupported() {
    // tnsot = 2 must abort the build
    let (mut data, first_sot) = build_jp2(&[(0, 20)]);
    // the tnsot byte is the 8th of the SOT payload, 11 bytes past the code
    let tnsot_at = first_sot as usize + 11;
    assert_eq!(data[tnsot_at], 1);
    data[tnsot_at] = 2;
    assert_eq!(run_index(&data), Err(IndexError::UnsupportedTileLayout));
}

#[test]
fn nonzero_tpsot_is_unsupported() {
    let (mut data, first_sot) = build_jp2(&[(0, 20)]);
    let tpsot_at = first_sot as usize + 10;
    assert_eq!(data[tpsot_at], 0);
    data[tpsot_at] = 1;
    assert_eq!(run_index(&data), Err(IndexError::UnsupportedTileLayout));
}

#[test]
fn missing_signature_box_is_malformed() {
    let (mut data, _) = build_jp2(&[(0, 20)]);
    // corrupt the first box's type
    data[4] = 0x00;
    assert_eq!(run_index(&data), Err(IndexError::MalformedContainer));
}

#[test]
fn missing_soc_is_unexpected_marker() {
    let (mut data, _) = build_jp2(&[(0, 20)]);
    // the codestream starts right after the jp2c box header at 12 + 16 + 8
    let soc_at = 36;
    assert_eq!(&data[soc_at..soc_at + 2], &[0xff, 0x4f]);
    data[soc_at + 1] = 0x51;
    assert_eq!(run_index(&data), Err(IndexError::UnexpectedMarker));
}

#[test]
fn eoc_before_any_tile_is_unexpected_marker() {
    let mut f: Vec<u8> = Vec::new();
    f.extend_from_slice(&12u32.to_be_bytes());
    f.extend_from_slice(&0x6a502020u32.to_be_bytes());
    f.extend_from_slice(&[0x0d, 0x0a, 0x87, 0x0a]);
    let mut body: Vec<u8> = Vec::new();
    body.extend_from_slice(&0xff4fu16.to_be_bytes()); // SOC
    body.extend_from_slice(&0xffd9u16.to_be_bytes()); // EOC, no tile at all
    f.extend_from_slice(&((8 + body.len()) as u32).to_be_bytes());
    f.extend_from_slice(&0x6a703263u32.to_be_bytes());
    f.extend_from_slice(&body);
    assert_eq!(run_index(&f), Err(IndexError::UnexpectedMarker));
}

#[test]
fn truncated_file_is_malformed() {
    let (data, _) = build_jp2(&[(0, 20)]);
    // cut the file inside the first tile-part: the jump lands past the end
    let cut = &data[..data.len() - 4];
    assert_eq!(run_index(cut), Err(IndexError::MalformedContainer));
}

#[test]
fn no_codestream_box_is_malformed() {
    let mut f: Vec<u8> = Vec::new();
    f.extend_from_slice(&12u32.to_be_bytes());
    f.extend_from_slice(&0x6a502020u32.to_be_bytes());
    f.extend_from_slice(&[0x0d, 0x0a, 0x87, 0x0a]);
    // one more box, then the file ends without any jp2c
    f.extend_from_slice(&16u32.to_be_bytes());
    f.extend_from_slice(&0x66747970u32.to_be_bytes());
    f.extend_from_slice(&[0, 0, 0, 0, 0, 0, 0, 0]);
    assert_eq!(run_index(&f), Err(IndexError::MalformedContainer));
}

#[test]
fn extended_box_length_is_followed() {
    // the codestream box uses the 64-bit extended length
    let mut f: Vec<u8> = Vec::new();
    f.extend_from_slice(&12u32.to_be_bytes());
    f.extend_from_slice(&0x6a502020u32.to_be_bytes());
    f.extend_from_slice(&[0x0d, 0x0a, 0x87, 0x0a]);
    let mut body: Vec<u8> = Vec::new();
    body.extend_from_slice(&0xff4fu16.to_be_bytes()); // SOC
    body.extend_from_slice(&0xff90u16.to_be_bytes()); // SOT
    body.extend_from_slice(&10u16.to_be_bytes());
    body.extend_from_slice(&7u16.to_be_bytes()); // isot
    body.extend_from_slice(&20u32.to_be_bytes()); // psot
    body.push(0);
    body.push(1);
    body.extend_from_slice(&0xff93u16.to_be_bytes()); // SOD
    body.extend_from_slice(&[0xBB; 6]);
    body.extend_from_slice(&0xffd9u16.to_be_bytes()); // EOC
    let first_sot = (f.len() + 16 + 2) as u64;
    f.extend_from_slice(&1u32.to_be_bytes()); // length field 1: extended
    f.extend_from_slice(&0x6a703263u32.to_be_bytes());
    f.extend_from_slice(&((16 + body.len()) as u64).to_be_bytes());
    f.extend_from_slice(&body);
    let blob = run_index(&f).unwrap();
    assert_eq!(&blob[8..16], &first_sot.to_be_bytes());
    assert_eq!(&blob[26..], &[7, 0, 20]);
}

#[test]
fn in_memory_build_matches_driver() {
    let (data, _) = build_jp2(&[(4, 30), (1, 25)]);
    let via_machine = run_index(&data).unwrap();
    let via_memory = indexer::walker::make_index_from_bytes(&data).unwrap();
    assert_eq!(via_machine, via_memory);
}

#[test]
fn in_memory_build_reports_errors() {
    let (mut data, first_sot) = build_jp2(&[(0, 20)]);
    data[first_sot as usize + 11] = 3; // tnsot
    assert_eq!(
        indexer::walker::make_index_from_bytes(&data),
        Err(IndexError::UnsupportedTileLayout)
    );
}
