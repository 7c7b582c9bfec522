//! Indexer for JPEG2000 codestreams that lack a tile-part length marker
//! (TLM) segment: it walks the JP2 container and codestream structure and
//! synthesizes the missing TLM segment together with a small positioning
//! preamble, so that a downstream reader can compute the byte range of any
//! tile-part without scanning the whole file.

use vstd::prelude::*;

pub mod be;
pub mod codec;
pub mod manifest;
pub mod reader;
pub mod tlm;
pub mod walker;

verus! {

/// JPEG 2000 signature box type code.
pub const JP2_JP: u32 = 0x6a502020;

/// Contiguous codestream box type code.
pub const JP2_JP2C: u32 = 0x6a703263;

/// SOC (start of codestream) marker value.
pub const J2K_MS_SOC: u16 = 0xff4f;

/// TLM (tile-part length) marker value.
pub const J2K_MS_TLM: u16 = 0xff55;

/// SOT (start of tile-part) marker value.
pub const J2K_MS_SOT: u16 = 0xff90;

/// SOD (start of data) marker value.
pub const J2K_MS_SOD: u16 = 0xff93;

/// EOC (end of codestream) marker value.
pub const J2K_MS_EOC: u16 = 0xffd9;

/// The ways an index build can fail.
#[derive(Clone, Copy, Debug, PartialEq, Eq, Structural)]
pub enum IndexError {
    /// Missing or invalid container signature, codestream box not found, a
    /// truncated box or marker header, or a declared length that cannot be
    /// followed.
    MalformedContainer,
    /// The first codestream marker is not SOC, or the codestream ends before
    /// any tile-part was seen, or a stray marker appears between tile-parts.
    UnexpectedMarker,
    /// A TLM marker was found before any tile-part: the file is already
    /// indexed and must not be re-indexed.
    AlreadyIndexed,
    /// A tile-part with `tpsot != 0` or `tnsot != 1`: multiple tile-parts per
    /// tile are not supported.
    UnsupportedTileLayout,
    /// An underlying byte-range read failed. Never produced by this library's
    /// own logic; reserved for the I/O layer driving it.
    IoFailure,
}

} // verus!
