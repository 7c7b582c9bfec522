//! The index build as a resumable state machine. Each step needs one byte
//! range; the single-slot cache answers it or names the one fetch the caller
//! must perform. The caller's loop is trivial: while `advance` asks for
//! bytes, fetch them and `feed` them back; the walk itself — box scan,
//! marker scan, tile-part loop, final encoding — happens entirely in here,
//! and every step is proved equal to the transition function
//! `spec_transition`.

use vstd::prelude::*;

use crate::codec::BoxHeader;
use crate::codec::MarkerHeader;
use crate::codec::SOTMarker;
use crate::codec::spec_from_marker;
use crate::codec::spec_read_box;
use crate::codec::spec_read_marker;
use crate::reader::CachedReader;
use crate::tlm::JP2FileMetadata;
use crate::tlm::generate_tlmindex;
use crate::tlm::lemma_sort_tiles_props;
use crate::tlm::lemma_sort_tiles_widths;
use crate::tlm::sort_tiles;
use crate::tlm::sp_width;
use crate::tlm::st_width;
use crate::tlm::tlm_bytes;
use crate::tlm::tlm_segment_len;
use crate::IndexError;
use crate::J2K_MS_EOC;
use crate::J2K_MS_SOC;
use crate::J2K_MS_SOT;
use crate::J2K_MS_TLM;
use crate::JP2_JP;
use crate::JP2_JP2C;

verus! {

/// Where the walk stands.
#[derive(Clone, Copy, Debug, PartialEq, Eq, Structural)]
pub enum Phase {
    /// Nothing read yet: the eager initial fetch is pending.
    Init,
    /// Scanning top-level container boxes at `cur` for the codestream box.
    /// While `first`, the box about to be read is the very first one and
    /// must be the signature box.
    Boxes { cur: u64, first: bool },
    /// Entered the codestream: the marker at `cur` must be SOC.
    Soc { cur: u64 },
    /// Skipping marker segments at `cur` until the first tile-start marker.
    Markers { cur: u64 },
    /// About to read the fixed 8-byte tile-part header at `data_start`;
    /// `cur` already points past the SOT marker's payload and
    /// `data_length` is that payload's length.
    SotPayload { cur: u64, data_start: u64, data_length: u64, first_sot: u64 },
    /// Between tile-parts: the marker at `cur` must be the next tile-start
    /// marker or EOC.
    NextMarker { cur: u64, first_sot: u64 },
    /// EOC was reached: the records are complete and the blob can be built.
    Done { first_sot: u64 },
}

/// `a + b`, stopping at the largest `u64`.
pub open spec fn spec_sat_add(a: u64, b: u64) -> u64 {
    if a + b > u64::MAX {
        u64::MAX
    } else {
        (a + b) as u64
    }
}

/// The byte range a phase needs before it can step: 16 speculative bytes
/// for a box header, 4 for a marker, the fixed 8 for a tile-part header,
/// and the eager first `min(4096, file_length)` bytes before anything else.
pub open spec fn needed_range(p: Phase, file_length: u64) -> (u64, u64) {
    match p {
        Phase::Init => (
            0,
            if 4096 <= file_length {
                4096
            } else {
                file_length
            },
        ),
        Phase::Boxes { cur, .. } => (cur, spec_sat_add(cur, 16)),
        Phase::Soc { cur } => (cur, spec_sat_add(cur, 4)),
        Phase::Markers { cur } => (cur, spec_sat_add(cur, 4)),
        Phase::SotPayload { data_start, .. } => (data_start, spec_sat_add(data_start, 8)),
        Phase::NextMarker { cur, .. } => (cur, spec_sat_add(cur, 4)),
        Phase::Done { .. } => (0, 0),
    }
}

/// The transition function of the walk: from the current phase, the records
/// collected so far, and the bytes the phase asked for, to the next phase
/// and records — or the error that aborts the build.
pub open spec fn spec_transition(p: Phase, tiles: Seq<SOTMarker>, bytes: Seq<u8>) -> Result<
    (Phase, Seq<SOTMarker>),
    IndexError,
> {
    match p {
        Phase::Init => Ok((Phase::Boxes { cur: 0, first: true }, tiles)),
        Phase::Boxes { cur, first } => match spec_read_box(bytes, cur) {
            Result::Err(e) => Err(e),
            Result::Ok((bh, cur2)) => {
                if first && bh.boxtype != JP2_JP {
                    Err(IndexError::MalformedContainer)
                } else if bh.boxtype == JP2_JP2C {
                    Ok((Phase::Soc { cur: bh.data_start }, tiles))
                } else {
                    Ok((Phase::Boxes { cur: cur2, first: false }, tiles))
                }
            },
        },
        Phase::Soc { cur } => match spec_read_marker(bytes, cur) {
            Result::Err(e) => Err(e),
            Result::Ok((mh, cur2)) => {
                if mh.code != J2K_MS_SOC {
                    Err(IndexError::UnexpectedMarker)
                } else {
                    Ok((Phase::Markers { cur: cur2 }, tiles))
                }
            },
        },
        Phase::Markers { cur } => match spec_read_marker(bytes, cur) {
            Result::Err(e) => Err(e),
            Result::Ok((mh, cur2)) => {
                if mh.code == J2K_MS_TLM {
                    Err(IndexError::AlreadyIndexed)
                } else if mh.code == J2K_MS_EOC {
                    Err(IndexError::UnexpectedMarker)
                } else if mh.code == J2K_MS_SOT {
                    Ok(
                        (
                            Phase::SotPayload {
                                cur: cur2,
                                data_start: mh.data_start,
                                data_length: mh.data_length,
                                first_sot: (mh.data_start - 4) as u64,
                            },
                            tiles,
                        ),
                    )
                } else {
                    Ok((Phase::Markers { cur: cur2 }, tiles))
                }
            },
        },
        Phase::SotPayload { cur, data_start, data_length, first_sot } => {
            if bytes.len() < 8 {
                Err(IndexError::MalformedContainer)
            } else {
                let sot = spec_from_marker(bytes.subrange(0, 8));
                if sot.tpsot != 0 || sot.tnsot != 1 {
                    Err(IndexError::UnsupportedTileLayout)
                } else if sot.psot < data_length + 4 {
                    Err(IndexError::MalformedContainer)
                } else if cur + sot.psot - data_length - 4 > u64::MAX {
                    Err(IndexError::MalformedContainer)
                } else {
                    Ok(
                        (
                            Phase::NextMarker {
                                cur: (cur + sot.psot - data_length - 4) as u64,
                                first_sot,
                            },
                            tiles.push(sot),
                        ),
                    )
                }
            }
        },
        Phase::NextMarker { cur, first_sot } => match spec_read_marker(bytes, cur) {
            Result::Err(e) => Err(e),
            Result::Ok((mh, cur2)) => {
                if mh.code == J2K_MS_EOC {
                    Ok((Phase::Done { first_sot }, tiles))
                } else if mh.code == J2K_MS_SOT {
                    Ok(
                        (
                            Phase::SotPayload {
                                cur: cur2,
                                data_start: mh.data_start,
                                data_length: mh.data_length,
                                first_sot,
                            },
                            tiles,
                        ),
                    )
                } else {
                    Err(IndexError::UnexpectedMarker)
                }
            },
        },
        Phase::Done { .. } => Ok((p, tiles)),
    }
}

/// What one call of `advance` did.
pub enum Progress {
    /// The walk cannot step before the caller fetches this byte range from
    /// the underlying source and feeds the result back.
    NeedBytes(u64, u64),
    /// One transition was taken.
    Stepped,
    /// The walk is complete: the index blob.
    Finished(Vec<u8>),
}

/// The index build: the cache over the source, the walk's phase, and the
/// tile-part records collected so far.
pub struct Indexer {
    pub cache: CachedReader,
    pub phase: Phase,
    pub tiles: Vec<SOTMarker>,
}

impl Indexer {
    pub open spec fn wf(self) -> bool {
        self.cache.wf()
    }

    /// Total byte length of the source being indexed.
    pub open spec fn spec_file_length(self) -> u64 {
        self.cache.length
    }

    /// A fresh build over a source of `file_length` bytes.
    pub fn new(file_length: u64) -> (r: Indexer)
        ensures
            r.wf(),
            r.phase == Phase::Init,
            r.tiles@ == Seq::<SOTMarker>::empty(),
            r.spec_file_length() == file_length,
            r.cache.last@ == Seq::<u8>::empty(),
            r.cache.last_offset == 0,
    {
        Indexer { cache: CachedReader::new(file_length), phase: Phase::Init, tiles: Vec::new() }
    }

    /// Hands the bytes of a fetch the walk asked for back to the cache.
    pub fn feed(&mut self, offset: u64, bytes: Vec<u8>)
        requires
            old(self).wf(),
            offset + bytes@.len() <= u64::MAX,
        ensures
            final(self).wf(),
            final(self).phase == old(self).phase,
            final(self).tiles@ == old(self).tiles@,
            final(self).spec_file_length() == old(self).spec_file_length(),
            final(self).cache.last_offset == offset,
            final(self).cache.last@ == bytes@,
    {
        self.cache.install(offset, bytes);
    }

    fn sat_add(a: u64, b: u64) -> (r: u64)
        ensures
            r == spec_sat_add(a, b),
    {
        if a > u64::MAX - b {
            u64::MAX
        } else {
            a + b
        }
    }

    fn needed(&self) -> (r: (u64, u64))
        ensures
            r == needed_range(self.phase, self.spec_file_length()),
    {
        match self.phase {
            Phase::Init => (
                0,
                if 4096 <= self.cache.length {
                    4096
                } else {
                    self.cache.length
                },
            ),
            Phase::Boxes { cur, .. } => (cur, Self::sat_add(cur, 16)),
            Phase::Soc { cur } => (cur, Self::sat_add(cur, 4)),
            Phase::Markers { cur } => (cur, Self::sat_add(cur, 4)),
            Phase::SotPayload { data_start, .. } => (data_start, Self::sat_add(data_start, 8)),
            Phase::NextMarker { cur, .. } => (cur, Self::sat_add(cur, 4)),
            Phase::Done { .. } => (0, 0),
        }
    }

    /// Takes the walk one step forward. Either the cache answers the bytes
    /// the current phase needs and exactly one `spec_transition` step is
    /// taken; or the caller is told which range to fetch, and nothing
    /// changes; or, once the walk is done, the index blob is produced —
    /// unless the records overflow the segment's 16-bit length field, which
    /// caps it at 10921 6-byte entries. On an error the builder is left
    /// unchanged, and calling again returns the same error.
    pub fn advance(&mut self) -> (r: Result<Progress, IndexError>)
        requires
            old(self).wf(),
        ensures
            final(self).wf(),
            final(self).cache == old(self).cache,
            final(self).spec_file_length() == old(self).spec_file_length(),
            ({
                let (a0, b0) = needed_range(old(self).phase, old(self).spec_file_length());
                match r {
                    Result::Ok(Progress::NeedBytes(a, b)) => {
                        &&& *final(self) == *old(self)
                        &&& !old(self).cache.covers(a0, b0)
                        &&& (a, b) == old(self).cache.spec_plan(a0, b0)
                    },
                    Result::Ok(Progress::Stepped) => {
                        &&& !(old(self).phase is Done)
                        &&& old(self).cache.covers(a0, b0)
                        &&& spec_transition(
                            old(self).phase,
                            old(self).tiles@,
                            old(self).cache.bytes_at(a0, b0),
                        ) == Result::<(Phase, Seq<SOTMarker>), IndexError>::Ok(
                            (final(self).phase, final(self).tiles@),
                        )
                    },
                    Result::Ok(Progress::Finished(v)) => {
                        &&& *final(self) == *old(self)
                        &&& old(self).phase is Done
                        &&& tlm_segment_len(sort_tiles(old(self).tiles@)) <= 0xFFFF
                        &&& (old(self).phase matches Phase::Done { first_sot } && v@ == tlm_bytes(
                            old(self).spec_file_length(),
                            first_sot,
                            sort_tiles(old(self).tiles@),
                        ))
                    },
                    Result::Err(e) => {
                        &&& *final(self) == *old(self)
                        &&& if old(self).phase is Done {
                            e == IndexError::MalformedContainer && tlm_segment_len(
                                sort_tiles(old(self).tiles@),
                            ) > 0xFFFF
                        } else {
                            old(self).cache.covers(a0, b0) && spec_transition(
                                old(self).phase,
                                old(self).tiles@,
                                old(self).cache.bytes_at(a0, b0),
                            ) == Result::<(Phase, Seq<SOTMarker>), IndexError>::Err(e)
                        }
                    },
                }
            }),
    {
        let ph = self.phase;
        if let Phase::Done { first_sot } = ph {
            return self.build_blob(first_sot);
        }
        let (a, b) = self.needed();
        let fetched = self.cache.read(a, b);
        match fetched {
            Option::None => {
                let p = self.cache.plan(a, b);
                Ok(Progress::NeedBytes(p.0, p.1))
            },
            Option::Some(bytes) => {
                match ph {
                    Phase::Init => {
                        self.phase = Phase::Boxes { cur: 0, first: true };
                        Ok(Progress::Stepped)
                    },
                    Phase::Boxes { cur, first } => {
                        match BoxHeader::read(bytes.as_slice(), cur) {
                            Result::Err(e) => Err(e),
                            Result::Ok((bh, cur2)) => {
                                if first && bh.boxtype != JP2_JP {
                                    Err(IndexError::MalformedContainer)
                                } else if bh.boxtype == JP2_JP2C {
                                    self.phase = Phase::Soc { cur: bh.data_start };
                                    Ok(Progress::Stepped)
                                } else {
                                    self.phase = Phase::Boxes { cur: cur2, first: false };
                                    Ok(Progress::Stepped)
                                }
                            },
                        }
                    },
                    Phase::Soc { cur } => {
                        match MarkerHeader::read(bytes.as_slice(), cur) {
                            Result::Err(e) => Err(e),
                            Result::Ok((mh, cur2)) => {
                                if mh.code != J2K_MS_SOC {
                                    Err(IndexError::UnexpectedMarker)
                                } else {
                                    self.phase = Phase::Markers { cur: cur2 };
                                    Ok(Progress::Stepped)
                                }
                            },
                        }
                    },
                    Phase::Markers { cur } => {
                        match MarkerHeader::read(bytes.as_slice(), cur) {
                            Result::Err(e) => Err(e),
                            Result::Ok((mh, cur2)) => {
                                if mh.code == J2K_MS_TLM {
                                    Err(IndexError::AlreadyIndexed)
                                } else if mh.code == J2K_MS_EOC {
                                    Err(IndexError::UnexpectedMarker)
                                } else if mh.code == J2K_MS_SOT {
                                    self.phase = Phase::SotPayload {
                                        cur: cur2,
                                        data_start: mh.data_start,
                                        data_length: mh.data_length,
                                        first_sot: mh.data_start - 4,
                                    };
                                    Ok(Progress::Stepped)
                                } else {
                                    self.phase = Phase::Markers { cur: cur2 };
                                    Ok(Progress::Stepped)
                                }
                            },
                        }
                    },
                    Phase::SotPayload { cur, data_start, data_length, first_sot } => {
                        if bytes.len() < 8 {
                            return Err(IndexError::MalformedContainer);
                        }
                        let arr: [u8; 8] = [
                            bytes[0],
                            bytes[1],
                            bytes[2],
                            bytes[3],
                            bytes[4],
                            bytes[5],
                            bytes[6],
                            bytes[7],
                        ];
                        proof {
                            assert(arr@ =~= bytes@.subrange(0, 8));
                        }
                        let sot = SOTMarker::from_marker(&arr);
                        if sot.tpsot != 0 || sot.tnsot != 1 {
                            return Err(IndexError::UnsupportedTileLayout);
                        }
                        let p = sot.psot as u64;
                        if p < 4 || p - 4 < data_length {
                            return Err(IndexError::MalformedContainer);
                        }
                        let jump = p - 4 - data_length;
                        if jump > u64::MAX - cur {
                            return Err(IndexError::MalformedContainer);
                        }
                        self.tiles.push(sot);
                        self.phase = Phase::NextMarker { cur: cur + jump, first_sot };
                        Ok(Progress::Stepped)
                    },
                    Phase::NextMarker { cur, first_sot } => {
                        match MarkerHeader::read(bytes.as_slice(), cur) {
                            Result::Err(e) => Err(e),
                            Result::Ok((mh, cur2)) => {
                                if mh.code == J2K_MS_EOC {
                                    self.phase = Phase::Done { first_sot };
                                    Ok(Progress::Stepped)
                                } else if mh.code == J2K_MS_SOT {
                                    self.phase = Phase::SotPayload {
                                        cur: cur2,
                                        data_start: mh.data_start,
                                        data_length: mh.data_length,
                                        first_sot,
                                    };
                                    Ok(Progress::Stepped)
                                } else {
                                    Err(IndexError::UnexpectedMarker)
                                }
                            },
                        }
                    },
                    Phase::Done { .. } => {
                        // handled before any cache read
                        proof {
                            assert(false);
                        }
                        Err(IndexError::MalformedContainer)
                    },
                }
            },
        }
    }

    /// Builds the final blob once the walk is done: checks that the records
    /// fit the segment's 16-bit length field, then serializes.
    fn build_blob(&mut self, first_sot: u64) -> (r: Result<Progress, IndexError>)
        requires
            old(self).wf(),
            old(self).phase == (Phase::Done { first_sot }),
        ensures
            *final(self) == *old(self),
            match r {
                Result::Ok(pr) => {
                    &&& tlm_segment_len(sort_tiles(old(self).tiles@)) <= 0xFFFF
                    &&& (pr matches Progress::Finished(v) && v@ == tlm_bytes(
                        old(self).spec_file_length(),
                        first_sot,
                        sort_tiles(old(self).tiles@),
                    ))
                },
                Result::Err(e) => {
                    &&& e == IndexError::MalformedContainer
                    &&& tlm_segment_len(sort_tiles(old(self).tiles@)) > 0xFFFF
                },
            },
    {
        let n = self.tiles.len();
        let mut big_isot = false;
        let mut big_psot = false;
        let mut i: usize = 0;
        while i < n
            invariant
                n == self.tiles@.len(),
                *self == *old(self),
                i <= n,
                big_isot == exists|k: int| 0 <= k < i && self.tiles@[k].isot > 254,
                big_psot == exists|k: int| 0 <= k < i && self.tiles@[k].psot > 65534,
            decreases n - i,
        {
            if self.tiles[i].isot > 254 {
                big_isot = true;
            }
            if self.tiles[i].psot > 65534 {
                big_psot = true;
            }
            i = i + 1;
        }
        let st: usize = if n == 0 {
            0
        } else if big_isot {
            2
        } else {
            1
        };
        let sp: usize = if big_psot {
            4
        } else {
            2
        };
        proof {
            assert(st == st_width(self.tiles@));
            assert(sp == sp_width(self.tiles@));
            lemma_sort_tiles_widths(self.tiles@);
            lemma_sort_tiles_props(self.tiles@);
        }
        proof {
            assert((n as int) * ((st + sp) as int) <= (n as int) * 6) by (nonlinear_arith)
                requires
                    ((st + sp) as int) <= 6,
                    (n as int) >= 0,
            ;
        }
        let seg: u128 = 4 + (n as u128) * ((st + sp) as u128);
        proof {
            assert(seg == tlm_segment_len(sort_tiles(self.tiles@)));
        }
        if seg > 0xFFFF {
            return Err(IndexError::MalformedContainer);
        }
        let mut entries: Vec<SOTMarker> = Vec::new();
        let mut i: usize = 0;
        while i < n
            invariant
                n == self.tiles@.len(),
                *self == *old(self),
                i <= n,
                entries@ == self.tiles@.subrange(0, i as int),
            decreases n - i,
        {
            entries.push(self.tiles[i]);
            proof {
                assert(self.tiles@.subrange(0, i + 1) =~= self.tiles@.subrange(0, i as int).push(
                    self.tiles@[i as int],
                ));
            }
            i = i + 1;
        }
        proof {
            assert(entries@ =~= self.tiles@);
        }
        let md = JP2FileMetadata {
            file_length: self.cache.length,
            position_first_sot: first_sot,
        };
        let blob = generate_tlmindex(&md, entries);
        Ok(Progress::Finished(blob))
    }
}

/// The bytes a read of `[a, b)` yields against the file itself: the range
/// clamped to the end of the file.
pub open spec fn spec_file_bytes(file: Seq<u8>, a: u64, b: u64) -> Seq<u8> {
    let ce = if b <= file.len() {
        b as int
    } else {
        file.len() as int
    };
    if ce <= a {
        Seq::empty()
    } else {
        file.subrange(a as int, ce)
    }
}

/// The cache window holds true bytes of `file`, and the source length is the
/// file's.
pub open spec fn cache_models(c: CachedReader, file: Seq<u8>) -> bool {
    &&& c.length == file.len()
    &&& c.last_offset + c.last@.len() <= file.len()
    &&& c.last@ == file.subrange(c.last_offset as int, c.last_offset + c.last@.len())
}

/// A cache whose window holds true bytes of the file answers exactly what
/// the file holds.
proof fn lemma_bytes_at_models(c: CachedReader, file: Seq<u8>, a: u64, b: u64)
    requires
        cache_models(c, file),
        c.covers(a, b),
    ensures
        c.bytes_at(a, b) == spec_file_bytes(file, a, b),
{
    if c.clamp(b) <= a {
    } else {
        assert(c.bytes_at(a, b) =~= spec_file_bytes(file, a, b));
    }
}

/// The offset a phase is working at, for termination: every transition
/// either moves it forward or lowers the phase's rank. `lim` is the file's
/// byte count.
pub open spec fn phase_pos(p: Phase, lim: int) -> int {
    match p {
        Phase::Init => 0,
        Phase::Boxes { cur, .. } => cur as int,
        Phase::Soc { cur } => cur as int,
        Phase::Markers { cur } => cur as int,
        Phase::SotPayload { cur, .. } => cur as int,
        Phase::NextMarker { cur, .. } => cur as int,
        Phase::Done { .. } => lim + 1,
    }
}

/// How far the walk still has to go.
pub open spec fn phase_measure(p: Phase, lim: int) -> nat {
    let pos = phase_pos(p, lim);
    if pos > lim + 1 || lim < 0 {
        0
    } else {
        (lim + 1 - pos) as nat
    }
}

/// Breaks the tie for the two transitions that do not move the offset.
pub open spec fn phase_rank(p: Phase) -> nat {
    match p {
        Phase::Init => 1,
        Phase::SotPayload { .. } => 1,
        _ => 0,
    }
}

/// The whole walk over an in-memory file, as mathematics: transitions are
/// iterated on the true file bytes until the walk is done or fails, giving
/// the first tile-part's position and the collected records.
pub open spec fn spec_run(p: Phase, tiles: Seq<SOTMarker>, file: Seq<u8>, flen: u64) -> Result<
    (u64, Seq<SOTMarker>),
    IndexError,
>
    decreases phase_measure(p, file.len() as int), phase_rank(p),
    via spec_run_decreases
{
    match p {
        Phase::Done { first_sot } => Ok((first_sot, tiles)),
        _ => {
            let (a, b) = needed_range(p, flen);
            match spec_transition(p, tiles, spec_file_bytes(file, a, b)) {
                Result::Err(e) => Err(e),
                Result::Ok((p2, t2)) => spec_run(p2, t2, file, flen),
            }
        },
    }
}

#[via_fn]
proof fn spec_run_decreases(p: Phase, tiles: Seq<SOTMarker>, file: Seq<u8>, flen: u64) {
    lemma_transition_progress(p, tiles, file, flen);
}

/// Every successful transition on true file bytes decreases the walk's
/// termination measure.
proof fn lemma_transition_progress(p: Phase, tiles: Seq<SOTMarker>, file: Seq<u8>, flen: u64)
    ensures
        ({
            let (a, b) = needed_range(p, flen);
            let lim = file.len() as int;
            match spec_transition(p, tiles, spec_file_bytes(file, a, b)) {
                Result::Ok((p2, t2)) => !(p is Done) ==> (phase_measure(p2, lim) < phase_measure(
                    p,
                    lim,
                ) || (phase_measure(p2, lim) == phase_measure(p, lim) && phase_rank(p2)
                    < phase_rank(p))),
                Result::Err(e) => true,
            }
        }),
{
    let (a, b) = needed_range(p, flen);
    let bytes = spec_file_bytes(file, a, b);
    match p {
        Phase::Init => {
        },
        Phase::Boxes { cur, first } => {
            if spec_read_box(bytes, cur) is Ok {
                assert(bytes.len() >= 8);
                assert(cur + 8 <= file.len());
            }
        },
        Phase::Soc { cur } => {
            if spec_read_marker(bytes, cur) is Ok {
                assert(bytes.len() >= 2);
                assert(cur + 2 <= file.len());
            }
        },
        Phase::Markers { cur } => {
            if spec_read_marker(bytes, cur) is Ok {
                assert(bytes.len() >= 2);
                assert(cur + 2 <= file.len());
            }
        },
        Phase::SotPayload { .. } => {
        },
        Phase::NextMarker { cur, .. } => {
            if spec_read_marker(bytes, cur) is Ok {
                assert(bytes.len() >= 2);
                assert(cur + 2 <= file.len());
            }
        },
        Phase::Done { .. } => {
        },
    }
}

/// A record the walk may keep: exactly one tile-part per tile.
pub open spec fn tile_wellformed(e: SOTMarker) -> bool {
    e.tpsot == 0 && e.tnsot == 1
}

/// Every record a successful walk returns satisfies the single-tile-part
/// invariant: the walk rejects anything else before keeping it.
pub proof fn lemma_run_tiles_wellformed(p: Phase, tiles: Seq<SOTMarker>, file: Seq<u8>, flen: u64)
    requires
        forall|k: int| 0 <= k < tiles.len() ==> tile_wellformed(#[trigger] tiles[k]),
    ensures
        spec_run(p, tiles, file, flen) matches Ok((first_sot, ts)) ==> forall|k: int|
            0 <= k < ts.len() ==> tile_wellformed(#[trigger] ts[k]),
    decreases phase_measure(p, file.len() as int), phase_rank(p),
{
    match p {
        Phase::Done { .. } => {
        },
        _ => {
            let (a, b) = needed_range(p, flen);
            let bytes = spec_file_bytes(file, a, b);
            lemma_transition_progress(p, tiles, file, flen);
            match spec_transition(p, tiles, bytes) {
                Result::Err(e) => {
                },
                Result::Ok((p2, t2)) => {
                    assert(forall|k: int|
                        0 <= k < t2.len() ==> tile_wellformed(#[trigger] t2[k]));
                    lemma_run_tiles_wellformed(p2, t2, file, flen);
                },
            }
        },
    }
}

/// Builds the whole index for an in-memory file. This is the end-to-end
/// statement of the library: the result is exactly the mathematical walk
/// `spec_run` over the file's bytes, followed by the encoder — the same
/// machine that `advance` and `feed` expose step by step to callers that
/// fetch from a remote source.
pub fn make_index_from_bytes(data: &Vec<u8>) -> (r: Result<Vec<u8>, IndexError>)
    ensures
        ({
            let run = spec_run(
                Phase::Init,
                Seq::<SOTMarker>::empty(),
                data@,
                data@.len() as u64,
            );
            match run {
                Result::Ok((first_sot, tiles)) => {
                    if tlm_segment_len(sort_tiles(tiles)) <= 0xFFFF {
                        r matches Ok(v) && v@ == tlm_bytes(
                            data@.len() as u64,
                            first_sot,
                            sort_tiles(tiles),
                        )
                    } else {
                        r == Result::<Vec<u8>, IndexError>::Err(IndexError::MalformedContainer)
                    }
                },
                Result::Err(e) => r == Result::<Vec<u8>, IndexError>::Err(e),
            }
        }),
{
    let dlen: usize = data.len();
    let flen: u64 = dlen as u64;
    let ghost file = data@;
    let mut idx = Indexer::new(flen);
    proof {
        assert(file.subrange(0, 0) =~= Seq::<u8>::empty());
    }
    loop
        invariant
            idx.wf(),
            idx.spec_file_length() == flen,
            flen == file.len(),
            file == data@,
            dlen == data@.len(),
            cache_models(idx.cache, file),
            spec_run(idx.phase, idx.tiles@, file, flen) == spec_run(
                Phase::Init,
                Seq::<SOTMarker>::empty(),
                file,
                flen,
            ),
        decreases
                phase_measure(idx.phase, file.len() as int),
                phase_rank(idx.phase),
                (if idx.cache.covers(
                    needed_range(idx.phase, flen).0,
                    needed_range(idx.phase, flen).1,
                ) {
                    0int
                } else {
                    1int
                }),
    {
        let ghost pre = idx;
        match idx.advance() {
            Result::Err(e) => {
                proof {
                    match pre.phase {
                        Phase::Done { first_sot } => {
                            assert(spec_run(pre.phase, pre.tiles@, file, flen) == Result::<
                                (u64, Seq<SOTMarker>),
                                IndexError,
                            >::Ok((first_sot, pre.tiles@)));
                        },
                        _ => {
                            let (a0, b0) = needed_range(pre.phase, flen);
                            lemma_bytes_at_models(pre.cache, file, a0, b0);
                            assert(spec_run(pre.phase, pre.tiles@, file, flen) == Result::<
                                (u64, Seq<SOTMarker>),
                                IndexError,
                            >::Err(e));
                        },
                    }
                }
                return Err(e);
            },
            Result::Ok(Progress::NeedBytes(a, b)) => {
                proof {
                    let (a0, b0) = needed_range(pre.phase, flen);
                    assert(!pre.cache.covers(a0, b0));
                    assert(pre.cache.clamp(b0) > a0);
                    assert(a == a0 && b == pre.cache.spec_plan(a0, b0).1);
                    assert(a < b && b <= flen);
                }
                let mut chunk: Vec<u8> = Vec::new();
                let mut k: u64 = a;
                while k < b
                    invariant
                        a <= k <= b,
                        b <= flen,
                        flen == data@.len(),
                        dlen == data@.len(),
                        chunk@ == data@.subrange(a as int, k as int),
                    decreases b - k,
                {
                    chunk.push(data[k as usize]);
                    proof {
                        assert(data@.subrange(a as int, k + 1) =~= data@.subrange(
                            a as int,
                            k as int,
                        ).push(data@[k as int]));
                    }
                    k = k + 1;
                }
                idx.feed(a, chunk);
                proof {
                    let (a0, b0) = needed_range(pre.phase, flen);
                    assert(idx.cache.covers(a0, b0));
                }
            },
            Result::Ok(Progress::Stepped) => {
                proof {
                    let (a0, b0) = needed_range(pre.phase, flen);
                    lemma_bytes_at_models(pre.cache, file, a0, b0);
                    lemma_transition_progress(pre.phase, pre.tiles@, file, flen);
                    assert(spec_run(pre.phase, pre.tiles@, file, flen) == spec_run(
                        idx.phase,
                        idx.tiles@,
                        file,
                        flen,
                    ));
                }
            },
            Result::Ok(Progress::Finished(v)) => {
                proof {
                    match pre.phase {
                        Phase::Done { first_sot } => {
                            assert(spec_run(pre.phase, pre.tiles@, file, flen) == Result::<
                                (u64, Seq<SOTMarker>),
                                IndexError,
                            >::Ok((first_sot, pre.tiles@)));
                        },
                        _ => {},
                    }
                }
                return Ok(v);
            },
        }
    }
}

} // verus!
