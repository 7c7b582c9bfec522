//! A single-slot, forward-biased byte cache. The parser issues many small
//! reads; this cache coalesces them into fewer round-trips against the
//! underlying byte-range source. The cache itself never performs I/O: `read`
//! answers from the retained window or reports a miss, `plan` says which
//! range the caller must fetch, and `install` retains what was fetched.

use vstd::prelude::*;

verus! {

/// The minimum look-ahead, in bytes, that a fetch is topped up toward when
/// the requested range itself is short.
pub const READ_AHEAD: u64 = 128;

/// Retains the bytes of the last fetch as a window `[last_offset,
/// last_offset + last.len())` of the underlying source, whose total byte
/// length is `length`.
pub struct CachedReader {
    pub length: u64,
    pub last: Vec<u8>,
    pub last_offset: u64,
}

impl CachedReader {
    /// The retained window's arithmetic stays in `u64`.
    pub open spec fn wf(self) -> bool {
        self.last_offset + self.last@.len() <= u64::MAX
    }

    /// One past the last offset the retained window holds.
    pub open spec fn window_end(self) -> int {
        self.last_offset + self.last@.len()
    }

    /// Where a read of `[start, end)` actually stops: at `end`, or at the end
    /// of the source if that comes first.
    pub open spec fn clamp(self, end: u64) -> int {
        if end <= self.length {
            end as int
        } else {
            self.length as int
        }
    }

    /// Whether the retained window can answer a read of `[start, end)`
    /// without a fetch. An empty effective range is always answerable.
    pub open spec fn covers(self, start: u64, end: u64) -> bool {
        self.clamp(end) <= start || (self.last_offset <= start && self.clamp(end)
            <= self.window_end())
    }

    /// The bytes a read of `[start, end)` yields from the retained window.
    pub open spec fn bytes_at(self, start: u64, end: u64) -> Seq<u8> {
        if self.clamp(end) <= start {
            Seq::empty()
        } else {
            self.last@.subrange(start - self.last_offset, self.clamp(end) - self.last_offset)
        }
    }

    /// The range a miss on `[start, end)` must fetch: it begins at `start`
    /// and runs to `end` topped up toward `READ_AHEAD` bytes beyond `start`
    /// when the request is short, clamped to the end of the source.
    pub open spec fn spec_plan(self, start: u64, end: u64) -> (u64, u64) {
        let want = if end >= start {
            end - start
        } else {
            0
        };
        let pad = if want >= READ_AHEAD {
            0
        } else {
            READ_AHEAD - want
        };
        let fetch_end = if end + pad <= self.length {
            (end + pad) as u64
        } else {
            self.length
        };
        (start, fetch_end)
    }

    /// An empty cache over a source of `length` bytes: the first read misses.
    pub fn new(length: u64) -> (r: CachedReader)
        ensures
            r.length == length,
            r.last_offset == 0,
            r.last@ == Seq::<u8>::empty(),
            r.wf(),
    {
        CachedReader { length, last: Vec::new(), last_offset: 0 }
    }

    /// Answers `[start, end)` from the retained window, or reports a miss.
    /// A hit copies out exactly the requested bytes, clamped to the end of
    /// the source; no fetch is ever needed for a hit.
    pub fn read(&self, start: u64, end: u64) -> (r: Option<Vec<u8>>)
        requires
            self.wf(),
        ensures
            self.covers(start, end) <==> r is Some,
            r matches Some(v) ==> v@ == self.bytes_at(start, end),
    {
        let ce: u64 = if end <= self.length {
            end
        } else {
            self.length
        };
        if ce <= start {
            return Some(Vec::new());
        }
        if self.last_offset <= start {
            let wend: u64 = self.last_offset + (self.last.len() as u64);
            if ce <= wend {
                let lo: usize = (start - self.last_offset) as usize;
                let hi: usize = (ce - self.last_offset) as usize;
                let mut out: Vec<u8> = Vec::new();
                let mut i: usize = lo;
                while i < hi
                    invariant
                        lo <= i <= hi <= self.last@.len(),
                        out@ == self.last@.subrange(lo as int, i as int),
                    decreases hi - i,
                {
                    out.push(self.last[i]);
                    proof {
                        assert(self.last@.subrange(lo as int, i + 1 as int) =~= self.last@.subrange(
                            lo as int,
                            i as int,
                        ).push(self.last@[i as int]));
                    }
                    i = i + 1;
                }
                return Some(out);
            }
        }
        None
    }

    /// The fetch that a miss on `[start, end)` requires. The fetched range
    /// always covers the request up to the end of the source.
    pub fn plan(&self, start: u64, end: u64) -> (r: (u64, u64))
        ensures
            r == self.spec_plan(start, end),
            r.0 == start,
            r.1 <= self.length,
            end <= self.length ==> r.1 >= end,
            end > self.length ==> r.1 == self.length,
    {
        let want: u64 = if end >= start {
            end - start
        } else {
            0
        };
        let pad: u64 = if want >= READ_AHEAD {
            0
        } else {
            READ_AHEAD - want
        };
        let fetch_end: u64 = if end <= u64::MAX - pad && end + pad <= self.length {
            end + pad
        } else {
            self.length
        };
        proof {
            if !(end <= u64::MAX - pad) {
                assert(end + pad > u64::MAX >= self.length);
            }
        }
        (start, fetch_end)
    }

    /// Replaces the retained window with freshly fetched bytes that start at
    /// `offset` in the underlying source.
    pub fn install(&mut self, offset: u64, bytes: Vec<u8>)
        requires
            offset + bytes@.len() <= u64::MAX,
        ensures
            final(self).length == old(self).length,
            final(self).last_offset == offset,
            final(self).last@ == bytes@,
            final(self).wf(),
    {
        self.last = bytes;
        self.last_offset = offset;
    }
}

} // verus!
