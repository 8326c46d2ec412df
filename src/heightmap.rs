//! The heightmap file: a 16-byte little-endian header (width, height, seed)
//! followed by the elevation grid and the terrain-label grid, one byte per
//! cell each, row-major. Also the signed elevation grid that flow analysis
//! reads.
use vstd::prelude::*;
use crate::bytes::{
    u32_le, u64_le, le_u32, le_u64, push_u32_le, push_u64_le, read_u32_le, read_u64_le,
    push_all, copy_range, lemma_u32_round_trip, lemma_u64_round_trip,
};

verus! {

/// Length of the heightmap header.
pub const HEIGHTMAP_HEADER_LEN: usize = 16;

/// Bytes per cell in each of the two grids that follow the header.
pub const BYTES_PER_CELL: usize = 1;

/// Why a binary buffer is not a well-formed file.
#[derive(Debug, Clone, Copy, PartialEq, Eq, Structural)]
pub enum FormatError {
    /// The buffer is shorter than the header.
    Truncated,
    /// The grids after the header do not have the size the header gives.
    SizeMismatch,
    /// The magic number is wrong.
    BadMagic,
    /// The format version is not one this library reads.
    UnsupportedVersion,
    /// The header announces another number of layers.
    BadLayerCount,
}

/// The contents of a heightmap file.
pub struct HeightmapFile {
    pub width: u32,
    pub height: u32,
    pub seed: u64,
    pub elevation: Vec<u8>,
    pub layers: Vec<u8>,
}

impl HeightmapFile {
    /// Each grid holds one byte per cell.
    pub open spec fn wf(&self) -> bool {
        &&& self.elevation.len() == self.width * self.height
        &&& self.layers.len() == self.width * self.height
    }
}

/// The byte image of a heightmap file.
pub open spec fn heightmap_image(
    width: u32,
    height: u32,
    seed: u64,
    elevation: Seq<u8>,
    layers: Seq<u8>,
) -> Seq<u8> {
    u32_le(width) + u32_le(height) + u64_le(seed) + elevation + layers
}

/// Serializes a heightmap file: header, then elevation, then labels.
pub fn encode_heightmap(file: &HeightmapFile) -> (r: Vec<u8>)
    ensures
        r@ == heightmap_image(file.width, file.height, file.seed, file.elevation@, file.layers@),
{
    let mut out: Vec<u8> = Vec::new();
    push_u32_le(&mut out, file.width);
    push_u32_le(&mut out, file.height);
    push_u64_le(&mut out, file.seed);
    push_all(&mut out, &file.elevation);
    push_all(&mut out, &file.layers);
    out
}

/// The width a heightmap buffer's header gives.
pub open spec fn header_width(b: Seq<u8>) -> u32 {
    le_u32(b.subrange(0, 4))
}

/// The height a heightmap buffer's header gives.
pub open spec fn header_height(b: Seq<u8>) -> u32 {
    le_u32(b.subrange(4, 8))
}

/// The seed a heightmap buffer's header gives.
pub open spec fn header_seed(b: Seq<u8>) -> u64 {
    le_u64(b.subrange(8, 16))
}

/// The format error of a heightmap buffer, if any.
pub open spec fn heightmap_error(b: Seq<u8>) -> Option<FormatError> {
    if b.len() < HEIGHTMAP_HEADER_LEN {
        Some(FormatError::Truncated)
    } else if b.len() - HEIGHTMAP_HEADER_LEN != 2 * BYTES_PER_CELL * (header_width(b)
        * header_height(b)) {
        Some(FormatError::SizeMismatch)
    } else {
        None
    }
}

/// Parses a heightmap buffer. It fails when the buffer is shorter than the
/// header, or when what follows is not exactly two grids of the size the
/// header gives.
pub fn decode_heightmap(bytes: &Vec<u8>) -> (r: Result<HeightmapFile, FormatError>)
    ensures
        match heightmap_error(bytes@) {
            Some(e) => r == Err::<HeightmapFile, FormatError>(e),
            None => {
                let n = header_width(bytes@) * header_height(bytes@);
                &&& r is Ok
                &&& r->Ok_0.width == header_width(bytes@)
                &&& r->Ok_0.height == header_height(bytes@)
                &&& r->Ok_0.seed == header_seed(bytes@)
                &&& r->Ok_0.elevation@ == bytes@.subrange(16, 16 + n)
                &&& r->Ok_0.layers@ == bytes@.subrange(16 + n, 16 + 2 * n)
            },
        },
{
    if bytes.len() < HEIGHTMAP_HEADER_LEN {
        return Err(FormatError::Truncated);
    }
    let width = read_u32_le(bytes, 0);
    let height = read_u32_le(bytes, 4);
    let seed = read_u64_le(bytes, 8);
    assert(width as u128 * height as u128 <= 0xFFFF_FFFF_FFFF_FFFFu128) by (nonlinear_arith)
        requires width <= u32::MAX, height <= u32::MAX;
    let cells: u128 = width as u128 * height as u128;
    if (bytes.len() - HEIGHTMAP_HEADER_LEN) as u128 != 2 * cells {
        return Err(FormatError::SizeMismatch);
    }
    let n = cells as usize;
    let elevation = copy_range(bytes, HEIGHTMAP_HEADER_LEN, HEIGHTMAP_HEADER_LEN + n);
    let layers = copy_range(bytes, HEIGHTMAP_HEADER_LEN + n, HEIGHTMAP_HEADER_LEN + 2 * n);
    Ok(HeightmapFile { width, height, seed, elevation, layers })
}

/// Decoding an encoded heightmap file gives back its header and both grids.
pub proof fn lemma_heightmap_round_trip(
    width: u32,
    height: u32,
    seed: u64,
    elevation: Seq<u8>,
    layers: Seq<u8>,
)
    requires
        elevation.len() == width * height,
        layers.len() == width * height,
    ensures
        ({
            let b = heightmap_image(width, height, seed, elevation, layers);
            let n = width * height;
            &&& heightmap_error(b) is None
            &&& header_width(b) == width
            &&& header_height(b) == height
            &&& header_seed(b) == seed
            &&& b.subrange(16, 16 + n) == elevation
            &&& b.subrange(16 + n, 16 + 2 * n) == layers
        }),
{
    let b = heightmap_image(width, height, seed, elevation, layers);
    let n = width * height;
    assert(b.len() == 16 + 2 * n);
    assert(b.subrange(0, 4) =~= u32_le(width));
    assert(b.subrange(4, 8) =~= u32_le(height));
    assert(b.subrange(8, 16) =~= u64_le(seed));
    assert(b.subrange(16, 16 + n) =~= elevation);
    assert(b.subrange(16 + n, 16 + 2 * n) =~= layers);
    lemma_u32_round_trip(width);
    lemma_u32_round_trip(height);
    lemma_u64_round_trip(seed);
}

/// A grid of signed heights, row-major.
#[derive(Debug, Clone)]
pub struct Heightmap {
    pub width: u32,
    pub height: u32,
    pub data: Vec<i16>,
}

impl Heightmap {
    /// One height per cell.
    pub open spec fn wf(&self) -> bool {
        self.data.len() == self.width * self.height
    }

    /// The height at column `x`, row `y`, or `None` off the grid.
    pub fn get(&self, x: u32, y: u32) -> (r: Option<i16>)
        requires
            self.wf(),
        ensures
            x < self.width && y < self.height ==> r == Some(
                self.data[y * self.width + x],
            ),
            !(x < self.width && y < self.height) ==> r is None,
    {
        if x >= self.width || y >= self.height {
            None
        } else {
            proof {
                crate::grid::lemma_index_join(x as int, y as int, self.width as int, self.height as int);
            }
            let index = y as usize * self.width as usize + x as usize;
            Some(self.data[index])
        }
    }

    /// The elevation grid of a heightmap file, as signed heights.
    pub fn from_file(file: &HeightmapFile) -> (r: Heightmap)
        requires
            file.wf(),
        ensures
            r.wf(),
            r.width == file.width,
            r.height == file.height,
            forall|i: int| 0 <= i < r.data.len() ==> r.data[i] == file.elevation[i] as i16,
    {
        let n = file.elevation.len();
        let mut data: Vec<i16> = Vec::with_capacity(n);
        let mut i: usize = 0;
        while i < n
            invariant
                n == file.elevation.len(),
                i <= n,
                data.len() == i,
                forall|j: int| 0 <= j < i ==> data[j] == file.elevation[j] as i16,
            decreases n - i,
        {
            data.push(file.elevation[i] as i16);
            i = i + 1;
        }
        Heightmap { width: file.width, height: file.height, data }
    }
}

} // verus!
