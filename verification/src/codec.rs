//! Parsers for the two header shapes the walk meets: ISO container box
//! headers (4-byte length, 4-byte type, with a 64-bit length extension) and
//! J2K marker segments (2-byte code, optional 2-byte length), plus the fixed
//! 8-byte tile-part header carried by a SOT marker's payload.
//!
//! Each parser is a pure function of the speculatively fetched bytes at the
//! cursor, and is proved equal to its specification function.

use vstd::prelude::*;

use crate::be::be_read;
use crate::be::be_val;
use crate::be::lemma_pow256_values;
use crate::IndexError;
use crate::J2K_MS_EOC;
use crate::J2K_MS_SOC;
use crate::J2K_MS_SOD;

verus! {

/// Header of one ISO container box: its 4-byte type code and the offset of
/// its payload. The box's resolved total length positions the cursor on the
/// next sibling box.
#[derive(Clone, Copy, Debug, PartialEq, Eq, Structural)]
pub struct BoxHeader {
    pub boxtype: u32,
    pub data_start: u64,
}

/// What parsing a box header at offset `cur` yields, given `s`, the bytes
/// at `[cur, cur + 16)` (fewer only at end of file): the header and the
/// cursor moved past the whole box. The 32-bit length field value 1 selects
/// the 64-bit extended length at offset 8, and the payload then starts 16
/// bytes in instead of 8. A header cut short by the end of the file, a
/// length too small to cover the header itself (the payload must start at
/// or before the next box), or a length that overflows the cursor is a
/// malformed container.
pub open spec fn spec_read_box(s: Seq<u8>, cur: u64) -> Result<(BoxHeader, u64), IndexError> {
    if s.len() < 8 {
        Err(IndexError::MalformedContainer)
    } else {
        let l32 = be_val(s.subrange(0, 4));
        let boxtype = be_val(s.subrange(4, 8)) as u32;
        if l32 == 1 {
            if s.len() < 16 {
                Err(IndexError::MalformedContainer)
            } else {
                let l = be_val(s.subrange(8, 16));
                if l < 16 || cur + l > u64::MAX || cur + 16 > u64::MAX {
                    Err(IndexError::MalformedContainer)
                } else {
                    Ok((BoxHeader { boxtype, data_start: (cur + 16) as u64 }, (cur + l) as u64))
                }
            }
        } else {
            if l32 < 8 || cur + l32 > u64::MAX || cur + 8 > u64::MAX {
                Err(IndexError::MalformedContainer)
            } else {
                Ok((BoxHeader { boxtype, data_start: (cur + 8) as u64 }, (cur + l32) as u64))
            }
        }
    }
}

impl BoxHeader {
    /// Parses the box header whose first byte sits at offset `cur` of the
    /// file, from `s`, the up-to-16 bytes fetched there, returning the
    /// header and the cursor past the box.
    pub fn read(s: &[u8], cur: u64) -> (r: Result<(BoxHeader, u64), IndexError>)
        ensures
            r == spec_read_box(s@, cur),
    {
        proof {
            lemma_pow256_values();
        }
        if s.len() < 8 {
            return Err(IndexError::MalformedContainer);
        }
        let l32 = be_read(s, 0, 4);
        let boxtype = be_read(s, 4, 4) as u32;
        if l32 == 1 {
            if s.len() < 16 {
                return Err(IndexError::MalformedContainer);
            }
            let l = be_read(s, 8, 8);
            if l < 16 || l > u64::MAX - cur || cur > u64::MAX - 16 {
                return Err(IndexError::MalformedContainer);
            }
            Ok((BoxHeader { boxtype, data_start: cur + 16 }, cur + l))
        } else {
            if l32 < 8 || l32 > u64::MAX - cur || cur > u64::MAX - 8 {
                return Err(IndexError::MalformedContainer);
            }
            Ok((BoxHeader { boxtype, data_start: cur + 8 }, cur + l32))
        }
    }
}

/// Header of one J2K marker segment: the 2-byte marker code, the offset of
/// its payload, and the payload's byte count. SOC, SOD and EOC carry no
/// length field and no payload; every other marker is followed by a 2-byte
/// big-endian length that includes itself but not the code.
#[derive(Clone, Copy, Debug, PartialEq, Eq, Structural)]
pub struct MarkerHeader {
    pub code: u16,
    pub data_start: u64,
    pub data_length: u64,
}

/// What parsing a marker at offset `cur` yields, given `s`, the bytes at
/// `[cur, cur + 4)` (fewer only at end of file): the header and the cursor
/// moved past the payload. A length field below 2 is impossible (it counts
/// itself), and a truncated header or an overflowing cursor cannot be
/// followed; both are a malformed container.
pub open spec fn spec_read_marker(s: Seq<u8>, cur: u64) -> Result<
    (MarkerHeader, u64),
    IndexError,
> {
    if s.len() < 2 {
        Err(IndexError::MalformedContainer)
    } else {
        let code = be_val(s.subrange(0, 2)) as u16;
        if code == J2K_MS_SOC || code == J2K_MS_SOD || code == J2K_MS_EOC {
            if cur + 2 > u64::MAX {
                Err(IndexError::MalformedContainer)
            } else {
                Ok((MarkerHeader { code, data_start: (cur + 2) as u64, data_length: 0 }, (cur
                    + 2) as u64))
            }
        } else {
            if s.len() < 4 {
                Err(IndexError::MalformedContainer)
            } else {
                let l = be_val(s.subrange(2, 4));
                if l < 2 || cur + 4 + (l - 2) > u64::MAX {
                    Err(IndexError::MalformedContainer)
                } else {
                    Ok(
                        (
                            MarkerHeader {
                                code,
                                data_start: (cur + 4) as u64,
                                data_length: (l - 2) as u64,
                            },
                            (cur + 4 + (l - 2)) as u64,
                        ),
                    )
                }
            }
        }
    }
}

impl MarkerHeader {
    /// Parses the marker whose code sits at offset `cur` of the file, from
    /// `s`, the up-to-4 bytes fetched there, returning the header and the
    /// cursor past the payload.
    pub fn read(s: &[u8], cur: u64) -> (r: Result<(MarkerHeader, u64), IndexError>)
        ensures
            r == spec_read_marker(s@, cur),
    {
        proof {
            lemma_pow256_values();
        }
        if s.len() < 2 {
            return Err(IndexError::MalformedContainer);
        }
        let code = be_read(s, 0, 2) as u16;
        if code == J2K_MS_SOC || code == J2K_MS_SOD || code == J2K_MS_EOC {
            if cur > u64::MAX - 2 {
                return Err(IndexError::MalformedContainer);
            }
            Ok((MarkerHeader { code, data_start: cur + 2, data_length: 0 }, cur + 2))
        } else {
            if s.len() < 4 {
                return Err(IndexError::MalformedContainer);
            }
            let l = be_read(s, 2, 2);
            if l < 2 || cur > u64::MAX - 4 || l - 2 > u64::MAX - (cur + 4) {
                return Err(IndexError::MalformedContainer);
            }
            Ok((MarkerHeader { code, data_start: cur + 4, data_length: l - 2 }, cur + 4 + (l - 2)))
        }
    }
}

/// One tile-part record, read from a SOT marker's payload: the tile index,
/// the tile-part's byte length counted from the marker itself, and the
/// tile-part's sequence number and declared total within its tile.
#[derive(Clone, Copy, Debug, PartialEq, Eq, Structural)]
pub struct SOTMarker {
    pub isot: u16,
    pub psot: u32,
    pub tpsot: u8,
    pub tnsot: u8,
}

/// The fields the fixed 8-byte SOT payload holds: `isot` and `psot` are
/// big-endian, `tpsot` and `tnsot` single bytes.
pub open spec fn spec_from_marker(s: Seq<u8>) -> SOTMarker {
    SOTMarker {
        isot: be_val(s.subrange(0, 2)) as u16,
        psot: be_val(s.subrange(2, 6)) as u32,
        tpsot: s[6],
        tnsot: s[7],
    }
}

impl SOTMarker {
    /// Decodes the fixed 8-byte tile-part header of a SOT marker's payload.
    pub fn from_marker(s: &[u8; 8]) -> (r: SOTMarker)
        ensures
            r == spec_from_marker(s@),
    {
        proof {
            lemma_pow256_values();
        }
        let sl: &[u8] = s.as_slice();
        SOTMarker {
            isot: be_read(sl, 0, 2) as u16,
            psot: be_read(sl, 2, 4) as u32,
            tpsot: sl[6],
            tnsot: sl[7],
        }
    }
}

} // verus!
