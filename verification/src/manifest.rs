//! The records a SAFE-archive manifest describes: data objects with a byte
//! stream, a file location and a checksum, and the per-band raster paths
//! collected from them. Reading the manifest XML itself is I/O-layer work
//! and happens outside this library; these are the plain values it hands
//! over.

use vstd::prelude::*;

verus! {

/// One `dataObject` element of a manifest.
#[derive(Debug)]
pub struct DataObject {
    pub id: String,
    pub byte_stream: ByteStream,
}

/// The `byteStream` element of a data object.
#[derive(Debug)]
pub struct ByteStream {
    pub mime_type: String,
    pub size: u64,
    pub file_location: FileLocation,
    pub checksum: Checksum,
}

/// The `fileLocation` element: where a band file lives.
#[derive(Debug)]
pub struct FileLocation {
    pub href: String,
    pub locator_type: String,
}

/// The `checksum` element of a byte stream.
#[derive(Debug)]
pub struct Checksum {
    pub checksum_name: String,
    pub value: String,
}

/// `href` with every leading `./` removed: `strip_dotslash` keeps taking the
/// two characters off while the string starts with them.
pub open spec fn strip_dotslash(s: Seq<char>) -> Seq<char>
    decreases s.len(),
{
    if s.len() >= 2 && s[0] == '.' && s[1] == '/' {
        strip_dotslash(s.skip(2))
    } else {
        s
    }
}

fn strip_dotslash_prefix(s: &str) -> (r: &str)
    ensures
        r@ == strip_dotslash(s@),
    decreases s@.len(),
{
    let n = s.unicode_len();
    if n >= 2 {
        let c0 = s.get_char(0);
        let c1 = s.get_char(1);
        if c0 == '.' && c1 == '/' {
            let rest = s.substring_char(2, n);
            proof {
                assert(rest@ =~= s@.skip(2));
            }
            return strip_dotslash_prefix(rest);
        }
    }
    s
}

impl FileLocation {
    /// The band file's path relative to the archive root: `href` with its
    /// leading `./` prefixes removed.
    pub fn href_without_dotslash(&self) -> (r: &str)
        ensures
            r@ == strip_dotslash(self.href@),
    {
        strip_dotslash_prefix(self.href.as_str())
    }
}

/// Per-band raster paths of a level-1C product, relative to the root of the
/// SAFE folder.
#[derive(Debug)]
pub struct L1CPaths {
    pub b01: String,
    pub b02: String,
    pub b03: String,
    pub b04: String,
    pub b05: String,
    pub b06: String,
    pub b07: String,
    pub b08: String,
    pub b8a: String,
    pub b09: String,
    pub b10: String,
    pub b11: String,
    pub b12: String,
    pub tci: String,
}

/// Per-band raster paths of a level-2A product, relative to the root of the
/// SAFE folder. Only best-resolution rasters are listed, and there is no
/// B10.
#[derive(Debug)]
pub struct L2APaths {
    pub b01: String,
    pub b02: String,
    pub b03: String,
    pub b04: String,
    pub b05: String,
    pub b06: String,
    pub b07: String,
    pub b08: String,
    pub b8a: String,
    pub b09: String,
    pub b11: String,
    pub b12: String,
    pub tci: String,
    pub aot: String,
    pub wvp: String,
    pub scl: String,
}

/// The paths a manifest yields, by product level.
#[derive(Debug)]
pub enum Paths {
    L1C(L1CPaths),
    L2A(L2APaths),
}

} // verus!
