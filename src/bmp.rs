//! Uncompressed BMP images of the grids, for visual inspection: an 8-bit
//! grayscale image of the elevation bytes and a 24-bit image of the terrain
//! labels. Rows are stored bottom-up, unpadded.
use vstd::prelude::*;
use crate::bytes::{u16_le, u32_le, push_u16_le, push_u32_le};
use crate::grid::{col_of, row_of, index_of, lemma_index_split, lemma_index_join};

verus! {

/// Length of the BMP file header plus the BITMAPINFOHEADER.
pub const BMP_HEADERS_LEN: u32 = 54;

/// Length of the 256-entry grayscale palette.
pub const GRAY_PALETTE_LEN: u32 = 1024;

/// The 14-byte BMP file header.
pub open spec fn bmp_file_header(file_size: u32, pixel_offset: u32) -> Seq<u8> {
    seq![66u8, 77u8] + u32_le(file_size) + seq![0u8, 0u8, 0u8, 0u8] + u32_le(pixel_offset)
}

/// The 40-byte BITMAPINFOHEADER: one plane, no compression.
pub open spec fn dib_header(width: u32, height: u32, bits_per_pixel: u16, image_size: u32) -> Seq<
    u8,
> {
    u32_le(40) + u32_le(width) + u32_le(height) + u16_le(1) + u16_le(bits_per_pixel) + u32_le(0)
        + u32_le(image_size) + Seq::new(16, |i: int| 0u8)
}

/// Palette entry `i / 4` is the gray level `i / 4`, stored as blue, green,
/// red and a zero byte.
pub open spec fn gray_palette() -> Seq<u8> {
    Seq::new(1024, |i: int| if i % 4 == 3 { 0u8 } else { (i / 4) as u8 })
}

/// The cell shown at position `k` of a bottom-up scan of a grid.
pub open spec fn bottom_up_cell(k: int, width: int, height: int) -> int {
    index_of(col_of(k, width), height - 1 - row_of(k, width), width)
}

/// The debug colour of a terrain label, in blue, green, red order.
pub open spec fn layer_colour(label: u8) -> Seq<u8> {
    if label == 0 {
        seq![255u8, 0u8, 0u8]
    } else if label == 1 {
        seq![0u8, 255u8, 0u8]
    } else if label == 2 {
        seq![0u8, 128u8, 0u8]
    } else {
        seq![128u8, 128u8, 128u8]
    }
}

/// The grayscale image of a grid of elevation bytes.
pub open spec fn grayscale_image(width: u32, height: u32, pixels: Seq<u8>) -> Seq<u8> {
    let n = width * height;
    bmp_file_header((54 + 1024 + n) as u32, 1078) + dib_header(width, height, 8, n as u32)
        + gray_palette() + Seq::new(
        n as nat,
        |k: int| pixels[bottom_up_cell(k, width as int, height as int)],
    )
}

/// The colour image of a grid of terrain labels.
pub open spec fn layer_image(width: u32, height: u32, labels: Seq<u8>) -> Seq<u8> {
    let n = width * height;
    bmp_file_header((54 + 3 * n) as u32, 54) + dib_header(width, height, 24, (3 * n) as u32)
        + Seq::new(
        (3 * n) as nat,
        |k: int| layer_colour(labels[bottom_up_cell(k / 3, width as int, height as int)])[k % 3],
    )
}

fn push_headers(
    out: &mut Vec<u8>,
    width: u32,
    height: u32,
    file_size: u32,
    pixel_offset: u32,
    bits_per_pixel: u16,
    image_size: u32,
)
    ensures
        final(out)@ == old(out)@ + bmp_file_header(file_size, pixel_offset) + dib_header(
            width,
            height,
            bits_per_pixel,
            image_size,
        ),
{
    out.push(66);
    out.push(77);
    push_u32_le(out, file_size);
    let mut i: usize = 0;
    while i < 4
        invariant
            i <= 4,
            out@ == old(out)@ + seq![66u8, 77u8] + u32_le(file_size) + Seq::new(
                i as nat,
                |j: int| 0u8,
            ),
        decreases 4 - i,
    {
        out.push(0);
        i = i + 1;
        assert(out@ =~= old(out)@ + seq![66u8, 77u8] + u32_le(file_size) + Seq::new(
            i as nat,
            |j: int| 0u8,
        ));
    }
    push_u32_le(out, pixel_offset);
    assert(out@ =~= old(out)@ + bmp_file_header(file_size, pixel_offset));
    let ghost base = out@;
    push_u32_le(out, 40);
    push_u32_le(out, width);
    push_u32_le(out, height);
    push_u16_le(out, 1);
    push_u16_le(out, bits_per_pixel);
    push_u32_le(out, 0);
    push_u32_le(out, image_size);
    let ghost mid = out@;
    let mut k: usize = 0;
    while k < 16
        invariant
            k <= 16,
            out@ == mid + Seq::new(k as nat, |j: int| 0u8),
        decreases 16 - k,
    {
        out.push(0);
        k = k + 1;
        assert(out@ =~= mid + Seq::new(k as nat, |j: int| 0u8));
    }
    assert(out@ =~= old(out)@ + bmp_file_header(file_size, pixel_offset) + dib_header(
        width,
        height,
        bits_per_pixel,
        image_size,
    ));
}

proof fn lemma_bottom_up_cell(k: int, width: int, height: int)
    requires
        width > 0,
        0 <= k < width * height,
    ensures
        0 <= bottom_up_cell(k, width, height) < width * height,
{
    lemma_index_split(k, width, height);
    lemma_index_join(col_of(k, width), height - 1 - row_of(k, width), width, height);
}

/// An 8-bit grayscale BMP of a grid of elevation bytes.
pub fn grayscale_bmp(width: u32, height: u32, pixels: &Vec<u8>) -> (r: Vec<u8>)
    requires
        pixels.len() == width * height,
        width * height + 1078 <= u32::MAX,
    ensures
        r@ == grayscale_image(width, height, pixels@),
{
    let n = pixels.len();
    let mut out: Vec<u8> = Vec::new();
    push_headers(&mut out, width, height, 1078 + n as u32, 1078, 8, n as u32);
    let ghost head = out@;
    let mut i: u32 = 0;
    while i < 256
        invariant
            i <= 256,
            out@ == head + gray_palette().take(4 * i),
        decreases 256 - i,
    {
        let level = i as u8;
        out.push(level);
        out.push(level);
        out.push(level);
        out.push(0);
        i = i + 1;
        assert(out@ =~= head + gray_palette().take(4 * i));
    }
    assert(gray_palette().take(1024) =~= gray_palette());
    let ghost body = out@;
    let w = width as usize;
    let ghost img = Seq::new(
        n as nat,
        |k: int| pixels@[bottom_up_cell(k, width as int, height as int)],
    );
    let mut k: usize = 0;
    while k < n
        invariant
            n == pixels.len(),
            n == width * height,
            w == width,
            k <= n,
            img == Seq::new(
                n as nat,
                |k: int| pixels@[bottom_up_cell(k, width as int, height as int)],
            ),
            out@ == body + img.take(k as int),
        decreases n - k,
    {
        proof {
            lemma_index_split(k as int, w as int, height as int);
            lemma_bottom_up_cell(k as int, w as int, height as int);
        }
        let row = height as usize - 1 - k / w;
        let col = k % w;
        proof {
            lemma_index_join(col as int, row as int, w as int, height as int);
        }
        out.push(pixels[row * w + col]);
        k = k + 1;
        assert(out@ =~= body + img.take(k as int));
    }
    assert(img.take(n as int) =~= img);
    out
}

fn colour_of(label: u8) -> (r: (u8, u8, u8))
    ensures
        seq![r.0, r.1, r.2] == layer_colour(label),
{
    let r = if label == 0 {
        (255, 0, 0)
    } else if label == 1 {
        (0, 255, 0)
    } else if label == 2 {
        (0, 128, 0)
    } else {
        (128, 128, 128)
    };
    assert(seq![r.0, r.1, r.2] =~= layer_colour(label));
    r
}

/// A 24-bit BMP of a grid of terrain labels: water blue, land green, pine
/// mountain dark green, anything else gray.
pub fn layer_bmp(width: u32, height: u32, labels: &Vec<u8>) -> (r: Vec<u8>)
    requires
        labels.len() == width * height,
        3 * (width * height) + 54 <= u32::MAX,
    ensures
        r@ == layer_image(width, height, labels@),
{
    let n = labels.len();
    let image_size: u32 = 3 * n as u32;
    let mut out: Vec<u8> = Vec::new();
    push_headers(&mut out, width, height, 54 + image_size, 54, 24, image_size);
    let ghost body = out@;
    let w = width as usize;
    let ghost img = Seq::new(
        (3 * n) as nat,
        |k: int| layer_colour(labels@[bottom_up_cell(k / 3, width as int, height as int)])[k % 3],
    );
    let mut k: usize = 0;
    while k < n
        invariant
            n == labels.len(),
            n == width * height,
            w == width,
            k <= n,
            img == Seq::new(
                (3 * n) as nat,
                |k: int|
                    layer_colour(labels@[bottom_up_cell(k / 3, width as int, height as int)])[k
                        % 3],
            ),
            out@ == body + img.take(3 * k),
        decreases n - k,
    {
        proof {
            lemma_index_split(k as int, w as int, height as int);
            lemma_bottom_up_cell(k as int, w as int, height as int);
        }
        let row = height as usize - 1 - k / w;
        let col = k % w;
        proof {
            lemma_index_join(col as int, row as int, w as int, height as int);
        }
        let (b, g, r) = colour_of(labels[row * w + col]);
        out.push(b);
        out.push(g);
        out.push(r);
        proof {
            let kk = k as int;
            assert((3 * kk) / 3 == kk && (3 * kk + 1) / 3 == kk && (3 * kk + 2) / 3 == kk);
            assert((3 * kk) % 3 == 0 && (3 * kk + 1) % 3 == 1 && (3 * kk + 2) % 3 == 2);
        }
        k = k + 1;
        assert(out@ =~= body + img.take(3 * k));
    }
    assert(img.take(3 * n) =~= img);
    out
}

} // verus!
