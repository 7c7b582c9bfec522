//! The TLM encoder: given the tile-part records collected by the walk and
//! the file metadata, it sorts the records by tile index, picks the minimal
//! per-field widths, packs the flag byte, and serializes the metadata
//! preamble followed by a standards-conformant TLM marker segment.
//!
//! `tlm_bytes` is the byte-exact specification of the output;
//! `decode_tlm` reads such a segment back per the TLM wire format, and
//! `lemma_tlm_round_trip` proves that it recovers exactly the encoded
//! `(isot, psot)` pairs.

use vstd::prelude::*;

use crate::be::be_bytes;
use crate::be::be_push;
use crate::be::be_val;
use crate::be::lemma_be_bytes_len;
use crate::be::lemma_be_val_be_bytes;
use crate::be::lemma_pow256_values;
use crate::be::pow256;
use crate::codec::SOTMarker;
use crate::J2K_MS_TLM;

verus! {

/// Total length of the original file and the byte offset where its first
/// tile-part marker begins: the positioning metadata the index preamble
/// carries.
#[derive(Clone, Copy, Debug, PartialEq, Eq, Structural)]
pub struct JP2FileMetadata {
    pub file_length: u64,
    pub position_first_sot: u64,
}

/// Width in bytes of the tile-index field: 1 unless some tile index exceeds
/// 254, and 0 for the degenerate empty record list.
pub open spec fn st_width(s: Seq<SOTMarker>) -> nat {
    if s.len() == 0 {
        0
    } else if exists|i: int| 0 <= i < s.len() && s[i].isot > 254 {
        2
    } else {
        1
    }
}

/// Width in bytes of the tile-length field: 2 unless some tile-part length
/// exceeds 65534.
pub open spec fn sp_width(s: Seq<SOTMarker>) -> nat {
    if exists|i: int| 0 <= i < s.len() && s[i].psot > 65534 {
        4
    } else {
        2
    }
}

/// The flag byte: bit 4 set for 1-byte tile indices, bit 5 for 2-byte ones
/// (neither for the empty list), bit 6 set for 4-byte tile lengths.
pub open spec fn stlm_flags(s: Seq<SOTMarker>) -> u8 {
    if s.len() == 0 {
        0
    } else if st_width(s) == 1 && sp_width(s) == 2 {
        0x10
    } else if st_width(s) == 1 {
        0x50
    } else if sp_width(s) == 2 {
        0x20
    } else {
        0x60
    }
}

/// Length of the TLM segment excluding the 2-byte marker code: the 2-byte
/// length field, the instance byte, the flag byte, and one entry per record.
pub open spec fn tlm_segment_len(s: Seq<SOTMarker>) -> nat {
    4 + s.len() * (st_width(s) + sp_width(s))
}

/// The wire encoding of one record: tile index then tile length, in the
/// chosen widths.
pub open spec fn entry_bytes(e: SOTMarker, st: nat, sp: nat) -> Seq<u8> {
    be_bytes(e.isot as nat, st) + be_bytes(e.psot as nat, sp)
}

/// The wire encoding of a record list, in order.
pub open spec fn entries_bytes(s: Seq<SOTMarker>, st: nat, sp: nat) -> Seq<u8>
    decreases s.len(),
{
    if s.len() == 0 {
        Seq::empty()
    } else {
        entry_bytes(s[0], st, sp) + entries_bytes(s.skip(1), st, sp)
    }
}

/// Everything before the per-record entries: the 20-byte metadata preamble
/// (file length, first-SOT position, the segment's total size including the
/// marker code), then the marker code, the segment length, the instance
/// byte (always zero), and the flag byte.
pub open spec fn tlm_header_bytes(
    file_length: u64,
    position_first_sot: u64,
    s: Seq<SOTMarker>,
) -> Seq<u8> {
    be_bytes(file_length as nat, 8) + be_bytes(position_first_sot as nat, 8) + be_bytes(
        tlm_segment_len(s) + 2,
        4,
    ) + be_bytes(J2K_MS_TLM as nat, 2) + be_bytes(tlm_segment_len(s), 2) + seq![0u8, stlm_flags(s)]
}

/// The whole index blob for a record list already sorted by tile index.
pub open spec fn tlm_bytes(file_length: u64, position_first_sot: u64, s: Seq<SOTMarker>) -> Seq<
    u8,
> {
    tlm_header_bytes(file_length, position_first_sot, s) + entries_bytes(
        s,
        st_width(s),
        sp_width(s),
    )
}

/// Every tile index appears no later than any larger one.
pub open spec fn sorted_by_isot(s: Seq<SOTMarker>) -> bool {
    forall|i: int, j: int| 0 <= i < j < s.len() ==> s[i].isot <= s[j].isot
}

/// Stable insertion: `e` goes after every record whose tile index does not
/// exceed `e`'s, and before the rest.
pub open spec fn insert_sorted(s: Seq<SOTMarker>, e: SOTMarker) -> Seq<SOTMarker>
    decreases s.len(),
{
    if s.len() == 0 {
        seq![e]
    } else if s.last().isot <= e.isot {
        s.push(e)
    } else {
        insert_sorted(s.drop_last(), e).push(s.last())
    }
}

/// Stable sort by tile index: records with equal indices keep their
/// discovery order.
pub open spec fn sort_tiles(s: Seq<SOTMarker>) -> Seq<SOTMarker>
    decreases s.len(),
{
    if s.len() == 0 {
        Seq::empty()
    } else {
        insert_sorted(sort_tiles(s.drop_last()), s.last())
    }
}

/// The `(isot, psot)` pairs of a record list, in order.
pub open spec fn tile_pairs(s: Seq<SOTMarker>) -> Seq<(u16, u32)> {
    s.map_values(|e: SOTMarker| (e.isot, e.psot))
}

proof fn lemma_insert_sorted_props(s: Seq<SOTMarker>, e: SOTMarker)
    ensures
        insert_sorted(s, e).len() == s.len() + 1,
        insert_sorted(s, e).to_multiset() == s.to_multiset().insert(e),
        forall|k: int|
            0 <= k < insert_sorted(s, e).len() ==> (#[trigger] insert_sorted(s, e)[k] == e
                || s.contains(insert_sorted(s, e)[k])),
        sorted_by_isot(s) ==> sorted_by_isot(insert_sorted(s, e)),
    decreases s.len(),
{
    broadcast use vstd::seq_lib::group_to_multiset_ensures;

    let r = insert_sorted(s, e);
    if s.len() == 0 {
        assert(r =~= Seq::empty().push(e));
        assert(r.to_multiset() =~= s.to_multiset().insert(e));
    } else if s.last().isot <= e.isot {
        assert(r == s.push(e));
        assert(r.to_multiset() =~= s.to_multiset().insert(e));
        assert forall|k: int| 0 <= k < r.len() implies (#[trigger] r[k] == e || s.contains(
            r[k],
        )) by {
            if k < s.len() {
                assert(r[k] == s[k]);
                assert(s.contains(s[k]));
            }
        }
        if sorted_by_isot(s) {
            assert forall|i: int, j: int| 0 <= i < j < r.len() implies r[i].isot <= r[j].isot by {
                if j < s.len() {
                } else {
                    assert(r[j] == e);
                    if i < s.len() - 1 {
                        assert(s[i].isot <= s[s.len() - 1].isot);
                    }
                }
            }
        }
    } else {
        let s0 = s.drop_last();
        lemma_insert_sorted_props(s0, e);
        let r0 = insert_sorted(s0, e);
        assert(r == r0.push(s.last()));
        assert(s0.push(s.last()) =~= s);
        assert(r.to_multiset() =~= s.to_multiset().insert(e)) by {
            assert(r.to_multiset() == r0.to_multiset().insert(s.last()));
            assert(r0.to_multiset() == s0.to_multiset().insert(e));
            assert(s.to_multiset() == s0.to_multiset().insert(s.last()));
            assert(s0.to_multiset().insert(e).insert(s.last()) =~= s0.to_multiset().insert(
                s.last(),
            ).insert(e));
        }
        assert forall|k: int| 0 <= k < r.len() implies (#[trigger] r[k] == e || s.contains(
            r[k],
        )) by {
            if k < r0.len() {
                assert(r[k] == r0[k]);
                if r0[k] != e {
                    assert(s0.contains(r0[k]));
                    let w = choose|w: int| 0 <= w < s0.len() && s0[w] == r0[k];
                    assert(s[w] == r0[k]);
                }
            } else {
                assert(r[k] == s.last());
                assert(s.contains(s[s.len() - 1]));
            }
        }
        if sorted_by_isot(s) {
            assert(sorted_by_isot(s0)) by {
                assert forall|i: int, j: int| 0 <= i < j < s0.len() implies s0[i].isot
                    <= s0[j].isot by {
                    assert(s0[i] == s[i] && s0[j] == s[j]);
                }
            }
            assert(sorted_by_isot(r0));
            assert forall|i: int, j: int| 0 <= i < j < r.len() implies r[i].isot <= r[j].isot by {
                if j < r0.len() {
                    assert(r[i] == r0[i] && r[j] == r0[j]);
                } else {
                    assert(r[j] == s.last());
                    assert(r[i] == r0[i]);
                    if r0[i] == e {
                    } else {
                        assert(s0.contains(r0[i]));
                        let w = choose|w: int| 0 <= w < s0.len() && s0[w] == r0[i];
                        assert(s[w].isot <= s[s.len() - 1].isot);
                    }
                }
            }
        }
    }
}

/// The stable sort keeps the records (as a multiset) and their count, and
/// orders them by tile index.
pub proof fn lemma_sort_tiles_props(s: Seq<SOTMarker>)
    ensures
        sort_tiles(s).len() == s.len(),
        sort_tiles(s).to_multiset() == s.to_multiset(),
        sorted_by_isot(sort_tiles(s)),
    decreases s.len(),
{
    broadcast use vstd::seq_lib::group_to_multiset_ensures;

    if s.len() == 0 {
        assert(sort_tiles(s) =~= Seq::<SOTMarker>::empty());
        assert(sort_tiles(s).to_multiset() =~= s.to_multiset());
    } else {
        let s0 = s.drop_last();
        lemma_sort_tiles_props(s0);
        lemma_insert_sorted_props(sort_tiles(s0), s.last());
        assert(s0.push(s.last()) =~= s);
        assert(sort_tiles(s).to_multiset() =~= s.to_multiset()) by {
            assert(sort_tiles(s).to_multiset() == sort_tiles(s0).to_multiset().insert(s.last()));
            assert(s.to_multiset() == s0.to_multiset().insert(s.last()));
        }
    }
}

/// Sorting changes neither field width: the widths depend only on which
/// records are present, not on their order.
pub proof fn lemma_sort_tiles_widths(s: Seq<SOTMarker>)
    ensures
        st_width(sort_tiles(s)) == st_width(s),
        sp_width(sort_tiles(s)) == sp_width(s),
{
    broadcast use vstd::seq_lib::group_to_multiset_ensures;

    lemma_sort_tiles_props(s);
    let t = sort_tiles(s);
    assert(t.to_multiset() == s.to_multiset());
    if exists|i: int| 0 <= i < s.len() && s[i].isot > 254 {
        let i = choose|i: int| 0 <= i < s.len() && s[i].isot > 254;
        assert(s.contains(s[i]));
        assert(s.to_multiset().count(s[i]) > 0);
        assert(t.to_multiset().count(s[i]) > 0);
        assert(t.contains(s[i]));
        let j = choose|j: int| 0 <= j < t.len() && t[j] == s[i];
        assert(0 <= j < t.len() && t[j].isot > 254);
    }
    if exists|i: int| 0 <= i < t.len() && t[i].isot > 254 {
        let i = choose|i: int| 0 <= i < t.len() && t[i].isot > 254;
        assert(t.contains(t[i]));
        assert(t.to_multiset().count(t[i]) > 0);
        assert(s.to_multiset().count(t[i]) > 0);
        assert(s.contains(t[i]));
        let j = choose|j: int| 0 <= j < s.len() && s[j] == t[i];
        assert(0 <= j < s.len() && s[j].isot > 254);
    }
    if exists|i: int| 0 <= i < s.len() && s[i].psot > 65534 {
        let i = choose|i: int| 0 <= i < s.len() && s[i].psot > 65534;
        assert(s.contains(s[i]));
        assert(s.to_multiset().count(s[i]) > 0);
        assert(t.to_multiset().count(s[i]) > 0);
        assert(t.contains(s[i]));
        let j = choose|j: int| 0 <= j < t.len() && t[j] == s[i];
        assert(0 <= j < t.len() && t[j].psot > 65534);
    }
    if exists|i: int| 0 <= i < t.len() && t[i].psot > 65534 {
        let i = choose|i: int| 0 <= i < t.len() && t[i].psot > 65534;
        assert(t.contains(t[i]));
        assert(t.to_multiset().count(t[i]) > 0);
        assert(s.to_multiset().count(t[i]) > 0);
        assert(s.contains(t[i]));
        let j = choose|j: int| 0 <= j < s.len() && s[j] == t[i];
        assert(0 <= j < s.len() && s[j].psot > 65534);
    }
}

/// Appending a record with a tile index of 254 or below never forces the
/// 2-byte tile-index width; one above 254 always does.
pub proof fn lemma_st_width_boundary(s: Seq<SOTMarker>, e: SOTMarker)
    ensures
        e.isot <= 254 && st_width(s) == 2 ==> st_width(s.push(e)) == 2,
        e.isot <= 254 && st_width(s) != 2 ==> st_width(s.push(e)) == 1,
        e.isot > 254 ==> st_width(s.push(e)) == 2,
{
    let r = s.push(e);
    assert(r[s.len() as int] == e);
    if exists|i: int| 0 <= i < s.len() && s[i].isot > 254 {
        let i = choose|i: int| 0 <= i < s.len() && s[i].isot > 254;
        assert(r[i] == s[i]);
    }
    if e.isot <= 254 && !(exists|i: int| 0 <= i < s.len() && s[i].isot > 254) {
        assert forall|i: int| 0 <= i < r.len() implies r[i].isot <= 254 by {
            if i < s.len() {
                assert(r[i] == s[i]);
            }
        }
    }
}

/// Appending a record with a tile-part length of 65534 or below never forces
/// the 4-byte tile-length width; one above 65534 always does.
pub proof fn lemma_sp_width_boundary(s: Seq<SOTMarker>, e: SOTMarker)
    ensures
        e.psot <= 65534 ==> sp_width(s.push(e)) == sp_width(s),
        e.psot > 65534 ==> sp_width(s.push(e)) == 4,
{
    let r = s.push(e);
    assert(r[s.len() as int] == e);
    if exists|i: int| 0 <= i < s.len() && s[i].psot > 65534 {
        let i = choose|i: int| 0 <= i < s.len() && s[i].psot > 65534;
        assert(r[i] == s[i]);
    }
    if e.psot <= 65534 && !(exists|i: int| 0 <= i < s.len() && s[i].psot > 65534) {
        assert forall|i: int| 0 <= i < r.len() implies r[i].psot <= 65534 by {
            if i < s.len() {
                assert(r[i] == s[i]);
            }
        }
    }
}

/// Encoding appends entry by entry.
proof fn lemma_entries_bytes_push(s: Seq<SOTMarker>, e: SOTMarker, st: nat, sp: nat)
    ensures
        entries_bytes(s.push(e), st, sp) == entries_bytes(s, st, sp) + entry_bytes(e, st, sp),
    decreases s.len(),
{
    if s.len() == 0 {
        assert(s.push(e)[0] == e);
        assert(s.push(e).skip(1) =~= Seq::<SOTMarker>::empty());
        assert(entries_bytes(s.push(e).skip(1), st, sp) == Seq::<u8>::empty());
        assert(entries_bytes(s, st, sp) == Seq::<u8>::empty());
        assert(entries_bytes(s.push(e), st, sp) =~= entries_bytes(s, st, sp) + entry_bytes(
            e,
            st,
            sp,
        ));
    } else {
        assert(s.push(e).skip(1) =~= s.skip(1).push(e));
        lemma_entries_bytes_push(s.skip(1), e, st, sp);
        assert(s.push(e)[0] == s[0]);
        assert(entries_bytes(s.push(e), st, sp) == entry_bytes(s[0], st, sp) + (entries_bytes(
            s.skip(1),
            st,
            sp,
        ) + entry_bytes(e, st, sp)));
        assert(entry_bytes(s[0], st, sp) + (entries_bytes(s.skip(1), st, sp) + entry_bytes(
            e,
            st,
            sp,
        )) =~= (entry_bytes(s[0], st, sp) + entries_bytes(s.skip(1), st, sp)) + entry_bytes(
            e,
            st,
            sp,
        ));
    }
}

/// The entry section's byte count: one `st + sp` group per record.
pub proof fn lemma_entries_bytes_len(s: Seq<SOTMarker>, st: nat, sp: nat)
    ensures
        entries_bytes(s, st, sp).len() == s.len() * (st + sp),
    decreases s.len(),
{
    if s.len() == 0 {
    } else {
        lemma_entries_bytes_len(s.skip(1), st, sp);
        lemma_be_bytes_len(s[0].isot as nat, st);
        lemma_be_bytes_len(s[0].psot as nat, sp);
        assert(s.len() * (st + sp) == (s.len() - 1) * (st + sp) + (st + sp)) by (nonlinear_arith);
    }
}

/// The header section is always 26 bytes.
pub proof fn lemma_tlm_header_len(file_length: u64, position_first_sot: u64, s: Seq<SOTMarker>)
    ensures
        tlm_header_bytes(file_length, position_first_sot, s).len() == 26,
{
    lemma_be_bytes_len(file_length as nat, 8);
    lemma_be_bytes_len(position_first_sot as nat, 8);
    lemma_be_bytes_len(tlm_segment_len(s) + 2, 4);
    lemma_be_bytes_len(J2K_MS_TLM as nat, 2);
    lemma_be_bytes_len(tlm_segment_len(s), 2);
}

/// The whole blob's byte count: the 26 fixed bytes plus one entry per record.
pub proof fn lemma_tlm_bytes_len(file_length: u64, position_first_sot: u64, s: Seq<SOTMarker>)
    ensures
        tlm_bytes(file_length, position_first_sot, s).len() == 26 + s.len() * (st_width(s)
            + sp_width(s)),
{
    lemma_tlm_header_len(file_length, position_first_sot, s);
    lemma_entries_bytes_len(s, st_width(s), sp_width(s));
}

/// Sorts tile-part records by tile index, records with equal indices keeping
/// their original order.
pub fn sort_entries(v: &Vec<SOTMarker>) -> (r: Vec<SOTMarker>)
    ensures
        r@ == sort_tiles(v@),
{
    let mut out: Vec<SOTMarker> = Vec::new();
    let mut i: usize = 0;
    proof {
        assert(v@.subrange(0, 0) =~= Seq::<SOTMarker>::empty());
    }
    while i < v.len()
        invariant
            i <= v@.len(),
            out@ == sort_tiles(v@.subrange(0, i as int)),
        decreases v@.len() - i,
    {
        let ghost out0 = out@;
        let e = v[i];
        let mut j: usize = out.len();
        while j > 0 && out[j - 1].isot > e.isot
            invariant
                j <= out@.len(),
                out@ == out0,
                forall|k: int| j <= k < out@.len() ==> out@[k].isot > e.isot,
            decreases j,
        {
            j = j - 1;
        }
        out.insert(j, e);
        proof {
            lemma_insert_sorted_at(out0, e, j as int);
            assert(v@.subrange(0, i + 1).drop_last() =~= v@.subrange(0, i as int));
            assert(v@.subrange(0, i + 1).last() == v@[i as int]);
        }
        i = i + 1;
    }
    proof {
        assert(v@.subrange(0, v@.len() as int) =~= v@);
    }
    out
}

proof fn lemma_insert_sorted_at(s: Seq<SOTMarker>, e: SOTMarker, j: int)
    requires
        0 <= j <= s.len(),
        forall|k: int| j <= k < s.len() ==> s[k].isot > e.isot,
        j > 0 ==> s[j - 1].isot <= e.isot,
    ensures
        insert_sorted(s, e) == s.insert(j, e),
    decreases s.len(),
{
    if j == s.len() {
        if s.len() == 0 {
            assert(insert_sorted(s, e) =~= s.insert(j, e));
        } else {
            assert(s.last().isot <= e.isot);
            assert(s.push(e) =~= s.insert(j, e));
        }
    } else {
        assert(s[s.len() - 1].isot > e.isot);
        let s0 = s.drop_last();
        assert(forall|k: int| j <= k < s0.len() ==> s0[k].isot > e.isot);
        assert(j > 0 ==> s0[j - 1].isot <= e.isot);
        lemma_insert_sorted_at(s0, e, j);
        assert(insert_sorted(s, e) == insert_sorted(s0, e).push(s.last()));
        assert(s0.insert(j, e).push(s.last()) =~= s.insert(j, e));
    }
}

/// Serializes the index blob: the 20-byte metadata preamble followed by the
/// synthesized TLM marker segment, with records sorted by tile index and
/// fields written in the minimal widths. The record list must be small
/// enough for the segment's 16-bit length field, which caps it at 10921
/// 6-byte entries.
pub fn generate_tlmindex(file_metadata: &JP2FileMetadata, tile_entries: Vec<SOTMarker>) -> (out:
    Vec<u8>)
    requires
        tlm_segment_len(sort_tiles(tile_entries@)) <= 0xFFFF,
    ensures
        out@ == tlm_bytes(
            file_metadata.file_length,
            file_metadata.position_first_sot,
            sort_tiles(tile_entries@),
        ),
        out@.len() == 26 + tile_entries@.len() * (st_width(tile_entries@) + sp_width(
            tile_entries@,
        )),
{
    let ghost sspec = sort_tiles(tile_entries@);
    let sorted = sort_entries(&tile_entries);
    let n = sorted.len();

    let mut big_isot = false;
    let mut big_psot = false;
    let mut i: usize = 0;
    while i < n
        invariant
            n == sorted@.len(),
            i <= n,
            big_isot == exists|k: int| 0 <= k < i && sorted@[k].isot > 254,
            big_psot == exists|k: int| 0 <= k < i && sorted@[k].psot > 65534,
        decreases n - i,
    {
        if sorted[i].isot > 254 {
            big_isot = true;
        }
        if sorted[i].psot > 65534 {
            big_psot = true;
        }
        i = i + 1;
    }
    let st: usize = if n == 0 {
        0
    } else if big_isot {
        2
    } else {
        1
    };
    let sp: usize = if big_psot {
        4
    } else {
        2
    };
    proof {
        assert(st == st_width(sspec));
        assert(sp == sp_width(sspec));
        lemma_sort_tiles_widths(tile_entries@);
        lemma_sort_tiles_props(tile_entries@);
    }
    let seg: usize = 4 + n * (st + sp);
    proof {
        assert(seg == tlm_segment_len(sspec));
    }

    let stlm: u8 = if n == 0 {
        0
    } else if st == 1 && sp == 2 {
        0x10
    } else if st == 1 {
        0x50
    } else if sp == 2 {
        0x20
    } else {
        0x60
    };
    proof {
        assert(stlm == stlm_flags(sspec));
    }

    let mut out: Vec<u8> = Vec::new();
    be_push(&mut out, file_metadata.file_length, 8);
    be_push(&mut out, file_metadata.position_first_sot, 8);
    be_push(&mut out, (seg + 2) as u64, 4);
    be_push(&mut out, J2K_MS_TLM as u64, 2);
    be_push(&mut out, seg as u64, 2);
    out.push(0);
    out.push(stlm);
    proof {
        assert(out@ =~= tlm_header_bytes(
            file_metadata.file_length,
            file_metadata.position_first_sot,
            sspec,
        ));
        assert(sorted@.subrange(0, 0) =~= Seq::<SOTMarker>::empty());
        assert(out@ =~= tlm_header_bytes(
            file_metadata.file_length,
            file_metadata.position_first_sot,
            sspec,
        ) + entries_bytes(sorted@.subrange(0, 0), st as nat, sp as nat));
    }

    let mut i: usize = 0;
    while i < n
        invariant
            n == sorted@.len(),
            sorted@ == sspec,
            st == st_width(sspec),
            sp == sp_width(sspec),
            i <= n,
            out@ == tlm_header_bytes(
                file_metadata.file_length,
                file_metadata.position_first_sot,
                sspec,
            ) + entries_bytes(sorted@.subrange(0, i as int), st as nat, sp as nat),
        decreases n - i,
    {
        let e = sorted[i];
        be_push(&mut out, e.isot as u64, st);
        be_push(&mut out, e.psot as u64, sp);
        proof {
            lemma_entries_bytes_push(sorted@.subrange(0, i as int), e, st as nat, sp as nat);
            assert(sorted@.subrange(0, i + 1) =~= sorted@.subrange(0, i as int).push(e));
            assert(out@ =~= tlm_header_bytes(
                file_metadata.file_length,
                file_metadata.position_first_sot,
                sspec,
            ) + entries_bytes(sorted@.subrange(0, i + 1), st as nat, sp as nat));
        }
        i = i + 1;
    }
    proof {
        assert(sorted@.subrange(0, n as int) =~= sspec);
        lemma_tlm_bytes_len(file_metadata.file_length, file_metadata.position_first_sot, sspec);
    }
    out
}

/// What the flag byte says the field widths are; `None` for a byte the
/// encoder can never produce.
pub open spec fn flags_widths(f: u8) -> Option<(nat, nat)> {
    if f == 0 {
        Some((0 as nat, 2 as nat))
    } else if f == 0x10 {
        Some((1 as nat, 2 as nat))
    } else if f == 0x50 {
        Some((1 as nat, 4 as nat))
    } else if f == 0x20 {
        Some((2 as nat, 2 as nat))
    } else if f == 0x60 {
        Some((2 as nat, 4 as nat))
    } else {
        None
    }
}

/// Reads the `(isot, psot)` pairs out of an entry section, group by group.
pub open spec fn decode_entries(b: Seq<u8>, st: nat, sp: nat) -> Seq<(u16, u32)>
    decreases b.len(),
{
    if st + sp == 0 || b.len() < st + sp {
        Seq::empty()
    } else {
        seq![
            (
                be_val(b.subrange(0, st as int)) as u16,
                be_val(b.subrange(st as int, (st + sp) as int)) as u32,
            ),
        ] + decode_entries(b.skip((st + sp) as int), st, sp)
    }
}

/// Decodes a TLM marker segment (marker code onward) per the JPEG2000 wire
/// format: `None` where the bytes do not form exactly one well-formed
/// segment.
pub open spec fn decode_tlm(b: Seq<u8>) -> Option<Seq<(u16, u32)>> {
    if b.len() < 6 {
        None
    } else if be_val(b.subrange(0, 2)) != J2K_MS_TLM {
        None
    } else if be_val(b.subrange(2, 4)) + 2 != b.len() {
        None
    } else if b[4] != 0 {
        None
    } else {
        match flags_widths(b[5]) {
            Option::None => None,
            Option::Some((st, sp)) => if st == 0 {
                if b.len() == 6 {
                    Some(Seq::empty())
                } else {
                    None
                }
            } else if (b.len() - 6) % ((st + sp) as int) != 0 {
                None
            } else {
                Some(decode_entries(b.skip(6), st, sp))
            },
        }
    }
}

proof fn lemma_decode_entries(s: Seq<SOTMarker>, st: nat, sp: nat)
    requires
        st == 1 || st == 2,
        sp == 2 || sp == 4,
        forall|k: int|
            0 <= k < s.len() ==> ((#[trigger] s[k]).isot as nat) < pow256(st) && (s[k].psot as nat)
                < pow256(sp),
    ensures
        decode_entries(entries_bytes(s, st, sp), st, sp) == tile_pairs(s),
    decreases s.len(),
{
    lemma_pow256_values();
    if s.len() == 0 {
        assert(entries_bytes(s, st, sp) == Seq::<u8>::empty());
        assert(decode_entries(Seq::<u8>::empty(), st, sp) == Seq::<(u16, u32)>::empty());
        assert(tile_pairs(s) =~= Seq::<(u16, u32)>::empty());
    } else {
        let e = s[0];
        let hi = be_bytes(e.isot as nat, st);
        let hp = be_bytes(e.psot as nat, sp);
        let tail = entries_bytes(s.skip(1), st, sp);
        let b = entries_bytes(s, st, sp);
        lemma_be_bytes_len(e.isot as nat, st);
        lemma_be_bytes_len(e.psot as nat, sp);
        assert(b == (hi + hp) + tail);
        assert(b.len() >= st + sp);
        assert(b.subrange(0, st as int) =~= hi);
        assert(b.subrange(st as int, (st + sp) as int) =~= hp);
        lemma_be_val_be_bytes(e.isot as nat, st);
        lemma_be_val_be_bytes(e.psot as nat, sp);
        assert(be_val(b.subrange(0, st as int)) as u16 == e.isot);
        assert(be_val(b.subrange(st as int, (st + sp) as int)) as u32 == e.psot);
        assert(b.skip((st + sp) as int) =~= tail);
        assert(forall|k: int| 0 <= k < s.skip(1).len() ==> #[trigger] s.skip(1)[k] == s[k + 1]);
        lemma_decode_entries(s.skip(1), st, sp);
        assert(decode_entries(b, st, sp) == seq![(e.isot, e.psot)] + tile_pairs(s.skip(1)));
        assert(tile_pairs(s) =~= seq![(e.isot, e.psot)] + tile_pairs(s.skip(1)));
    }
}

/// Round trip: reading the produced segment back per the TLM wire format
/// yields exactly the encoded `(isot, psot)` pairs, sorted by tile index,
/// and those records are, as a multiset, the very records that were walked.
pub proof fn lemma_tlm_round_trip(
    file_length: u64,
    position_first_sot: u64,
    entries: Seq<SOTMarker>,
)
    requires
        tlm_segment_len(sort_tiles(entries)) <= 0xFFFF,
    ensures
        sorted_by_isot(sort_tiles(entries)),
        sort_tiles(entries).to_multiset() == entries.to_multiset(),
        decode_tlm(tlm_bytes(file_length, position_first_sot, sort_tiles(entries)).skip(20))
            == Some(tile_pairs(sort_tiles(entries))),
{
    lemma_pow256_values();
    lemma_sort_tiles_props(entries);
    let s = sort_tiles(entries);
    let st = st_width(s);
    let sp = sp_width(s);
    let n = s.len();
    let lseg = tlm_segment_len(s);
    let flags = stlm_flags(s);
    let eb = entries_bytes(s, st, sp);
    let blob = tlm_bytes(file_length, position_first_sot, s);
    let seg = be_bytes(J2K_MS_TLM as nat, 2) + be_bytes(lseg, 2) + seq![0u8, flags] + eb;

    lemma_be_bytes_len(file_length as nat, 8);
    lemma_be_bytes_len(position_first_sot as nat, 8);
    lemma_be_bytes_len(lseg + 2, 4);
    lemma_be_bytes_len(J2K_MS_TLM as nat, 2);
    lemma_be_bytes_len(lseg, 2);
    lemma_entries_bytes_len(s, st, sp);
    assert(blob.skip(20) =~= seg);
    assert(seg.len() == 6 + n * (st + sp));

    assert(seg.subrange(0, 2) =~= be_bytes(J2K_MS_TLM as nat, 2));
    lemma_be_val_be_bytes(J2K_MS_TLM as nat, 2);
    assert(be_val(seg.subrange(0, 2)) == J2K_MS_TLM);
    assert(seg.subrange(2, 4) =~= be_bytes(lseg, 2));
    lemma_be_val_be_bytes(lseg, 2);
    assert(be_val(seg.subrange(2, 4)) == lseg);
    assert(lseg + 2 == seg.len());
    assert(seg[4] == 0);
    assert(seg[5] == flags);

    if n == 0 {
        assert(st == 0 && sp == 2 && flags == 0);
        assert(flags_widths(flags) == Some((0 as nat, 2 as nat)));
        assert(seg.len() == 6);
        assert(decode_tlm(seg) == Some(Seq::<(u16, u32)>::empty()));
        assert(tile_pairs(s) =~= Seq::<(u16, u32)>::empty());
    } else {
        assert(flags_widths(flags) == Some((st, sp)));
        assert((seg.len() - 6) % ((st + sp) as int) == 0) by {
            vstd::arithmetic::div_mod::lemma_mod_multiples_basic(n as int, (st + sp) as int);
        }
        assert(seg.skip(6) =~= eb);
        if st == 1 {
            assert forall|k: int| 0 <= k < n implies ((#[trigger] s[k]).isot as nat) < pow256(
                st,
            ) by {
                if s[k].isot > 254 {
                    assert(exists|i: int| 0 <= i < s.len() && s[i].isot > 254);
                    assert(false);
                }
            }
        }
        if sp == 2 {
            assert forall|k: int| 0 <= k < n implies ((#[trigger] s[k]).psot as nat) < pow256(
                sp,
            ) by {
                if s[k].psot > 65534 {
                    assert(exists|i: int| 0 <= i < s.len() && s[i].psot > 65534);
                    assert(false);
                }
            }
        }
        lemma_decode_entries(s, st, sp);
        assert(decode_tlm(seg) == Some(tile_pairs(s)));
    }
}


} // verus!
