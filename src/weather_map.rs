//! The weather map: per-cell slope, flow direction and basin id, and its
//! binary file layout.
use vstd::prelude::*;
use crate::bytes::{
    u16_le, u32_le, le_u16, le_u32, push_u16_le, push_u32_le, read_u16_le, read_u32_le, push_all,
    copy_range, lemma_u16_round_trip, lemma_u32_round_trip, lemma_i16_round_trip,
};
use crate::heightmap::FormatError;

verus! {

/// Slope, flow-direction and basin-id layers of a grid, row-major.
pub struct WeatherMap {
    pub width: u32,
    pub height: u32,
    pub slope: Vec<i16>,
    pub flow: Vec<u8>,
    pub basin: Vec<u32>,
}

impl WeatherMap {
    /// Every layer holds one entry per cell.
    pub open spec fn wf(&self) -> bool {
        &&& self.slope.len() == self.width * self.height
        &&& self.flow.len() == self.width * self.height
        &&& self.basin.len() == self.width * self.height
    }

    /// A map of the given size with every layer zero: no slope, every cell a
    /// sink, no basin assigned.
    pub fn new(width: u32, height: u32) -> (r: WeatherMap)
        requires
            width * height <= u32::MAX,
        ensures
            r.wf(),
            r.width == width,
            r.height == height,
            forall|i: int| 0 <= i < r.slope.len() ==> r.slope[i] == 0,
            forall|i: int| 0 <= i < r.flow.len() ==> r.flow[i] == 0,
            forall|i: int| 0 <= i < r.basin.len() ==> r.basin[i] == 0,
    {
        let size = (width * height) as usize;
        let mut slope: Vec<i16> = Vec::with_capacity(size);
        let mut flow: Vec<u8> = Vec::with_capacity(size);
        let mut basin: Vec<u32> = Vec::with_capacity(size);
        let mut i: usize = 0;
        while i < size
            invariant
                i <= size,
                slope.len() == i,
                flow.len() == i,
                basin.len() == i,
                forall|j: int| 0 <= j < i ==> slope[j] == 0,
                forall|j: int| 0 <= j < i ==> flow[j] == 0,
                forall|j: int| 0 <= j < i ==> basin[j] == 0,
            decreases size - i,
        {
            slope.push(0);
            flow.push(0);
            basin.push(0);
            i = i + 1;
        }
        WeatherMap { width, height, slope, flow, basin }
    }
}

/// Magic number that opens a weather-map file.
pub const MAGIC: u32 = 0x57414E41;

/// The weather-map format version this library writes and reads.
pub const VERSION: u16 = 1;

/// Number of layers in a weather-map file: slope, flow and basin.
pub const LAYER_COUNT: u16 = 3;

/// Length of the weather-map header.
pub const WEATHER_HEADER_LEN: usize = 16;

/// The little-endian two's-complement bytes of each slope value in turn.
pub open spec fn i16s_le(s: Seq<i16>) -> Seq<u8>
    decreases s.len(),
{
    if s.len() == 0 {
        Seq::empty()
    } else {
        i16s_le(s.drop_last()) + u16_le(s.last() as u16)
    }
}

/// The little-endian bytes of each basin id in turn.
pub open spec fn u32s_le(s: Seq<u32>) -> Seq<u8>
    decreases s.len(),
{
    if s.len() == 0 {
        Seq::empty()
    } else {
        u32s_le(s.drop_last()) + u32_le(s.last())
    }
}

/// The weather-map header.
pub open spec fn weather_header(width: u32, height: u32) -> Seq<u8> {
    u32_le(MAGIC) + u16_le(VERSION) + u32_le(width) + u32_le(height) + u16_le(LAYER_COUNT)
}

/// The byte image of a weather map: header, then the slope, flow and basin
/// layers.
pub open spec fn weather_image(m: WeatherMap) -> Seq<u8> {
    weather_header(m.width, m.height) + i16s_le(m.slope@) + m.flow@ + u32s_le(m.basin@)
}

proof fn lemma_i16s_le(s: Seq<i16>)
    ensures
        i16s_le(s).len() == 2 * s.len(),
        forall|i: int|
            0 <= i < s.len() ==> #[trigger] i16s_le(s).subrange(2 * i, 2 * i + 2) == u16_le(
                s[i] as u16,
            ),
    decreases s.len(),
{
    if s.len() > 0 {
        let p = s.drop_last();
        lemma_i16s_le(p);
        assert forall|i: int| 0 <= i < s.len() implies #[trigger] i16s_le(s).subrange(
            2 * i,
            2 * i + 2,
        ) == u16_le(s[i] as u16) by {
            if i < s.len() - 1 {
                assert(i16s_le(s).subrange(2 * i, 2 * i + 2) =~= i16s_le(p).subrange(2 * i, 2 * i + 2));
            } else {
                assert(i16s_le(s).subrange(2 * i, 2 * i + 2) =~= u16_le(s.last() as u16));
            }
        }
    }
}

proof fn lemma_u32s_le(s: Seq<u32>)
    ensures
        u32s_le(s).len() == 4 * s.len(),
        forall|i: int|
            0 <= i < s.len() ==> #[trigger] u32s_le(s).subrange(4 * i, 4 * i + 4) == u32_le(s[i]),
    decreases s.len(),
{
    if s.len() > 0 {
        let p = s.drop_last();
        lemma_u32s_le(p);
        assert forall|i: int| 0 <= i < s.len() implies #[trigger] u32s_le(s).subrange(
            4 * i,
            4 * i + 4,
        ) == u32_le(s[i]) by {
            if i < s.len() - 1 {
                assert(u32s_le(s).subrange(4 * i, 4 * i + 4) =~= u32s_le(p).subrange(4 * i, 4 * i + 4));
            } else {
                assert(u32s_le(s).subrange(4 * i, 4 * i + 4) =~= u32_le(s.last()));
            }
        }
    }
}

/// Serializes a weather map.
pub fn encode_weather_map(map: &WeatherMap) -> (r: Vec<u8>)
    ensures
        r@ == weather_image(*map),
{
    let mut out: Vec<u8> = Vec::new();
    push_u32_le(&mut out, MAGIC);
    push_u16_le(&mut out, VERSION);
    push_u32_le(&mut out, map.width);
    push_u32_le(&mut out, map.height);
    push_u16_le(&mut out, LAYER_COUNT);
    let ghost head = out@;
    assert(head =~= weather_header(map.width, map.height));
    let mut i: usize = 0;
    while i < map.slope.len()
        invariant
            i <= map.slope.len(),
            out@ == head + i16s_le(map.slope@.take(i as int)),
        decreases map.slope.len() - i,
    {
        push_u16_le(&mut out, map.slope[i] as u16);
        proof {
            let t = map.slope@.take(i + 1);
            assert(t.drop_last() =~= map.slope@.take(i as int));
        }
        i = i + 1;
        assert(out@ =~= head + i16s_le(map.slope@.take(i as int)));
    }
    assert(map.slope@.take(map.slope.len() as int) =~= map.slope@);
    push_all(&mut out, &map.flow);
    let ghost mid = out@;
    let mut k: usize = 0;
    while k < map.basin.len()
        invariant
            k <= map.basin.len(),
            out@ == mid + u32s_le(map.basin@.take(k as int)),
        decreases map.basin.len() - k,
    {
        push_u32_le(&mut out, map.basin[k]);
        proof {
            let t = map.basin@.take(k + 1);
            assert(t.drop_last() =~= map.basin@.take(k as int));
        }
        k = k + 1;
        assert(out@ =~= mid + u32s_le(map.basin@.take(k as int)));
    }
    assert(map.basin@.take(map.basin.len() as int) =~= map.basin@);
    assert(out@ =~= weather_image(*map));
    out
}

/// The width a weather-map buffer's header gives.
pub open spec fn weather_width(b: Seq<u8>) -> u32 {
    le_u32(b.subrange(6, 10))
}

/// The height a weather-map buffer's header gives.
pub open spec fn weather_height(b: Seq<u8>) -> u32 {
    le_u32(b.subrange(10, 14))
}

/// The format error of a weather-map buffer, if any, in the order the
/// checks are made.
pub open spec fn weather_error(b: Seq<u8>) -> Option<FormatError> {
    if b.len() < WEATHER_HEADER_LEN {
        Some(FormatError::Truncated)
    } else if le_u32(b.subrange(0, 4)) != MAGIC {
        Some(FormatError::BadMagic)
    } else if le_u16(b.subrange(4, 6)) != VERSION {
        Some(FormatError::UnsupportedVersion)
    } else if le_u16(b.subrange(14, 16)) != LAYER_COUNT {
        Some(FormatError::BadLayerCount)
    } else if b.len() - WEATHER_HEADER_LEN != 7 * (weather_width(b) * weather_height(b)) {
        Some(FormatError::SizeMismatch)
    } else {
        None
    }
}

/// The slope stored for cell `i` of a buffer whose layers start at 16.
pub open spec fn stored_slope(b: Seq<u8>, i: int) -> i16 {
    le_u16(b.subrange(16 + 2 * i, 16 + 2 * i + 2)) as i16
}

/// The basin id stored for cell `i` of a buffer of `n` cells.
pub open spec fn stored_basin(b: Seq<u8>, n: int, i: int) -> u32 {
    le_u32(b.subrange(16 + 3 * n + 4 * i, 16 + 3 * n + 4 * i + 4))
}

/// Parses a weather-map buffer. It fails on a short buffer, a wrong magic
/// number, version or layer count, or layers whose length is not the size
/// the header gives times the element size.
pub fn decode_weather_map(bytes: &Vec<u8>) -> (r: Result<WeatherMap, FormatError>)
    ensures
        match weather_error(bytes@) {
            Some(e) => r == Err::<WeatherMap, FormatError>(e),
            None => {
                let n = weather_width(bytes@) * weather_height(bytes@);
                &&& r is Ok
                &&& r->Ok_0.wf()
                &&& r->Ok_0.width == weather_width(bytes@)
                &&& r->Ok_0.height == weather_height(bytes@)
                &&& forall|i: int|
                    0 <= i < n ==> #[trigger] r->Ok_0.slope[i] == stored_slope(bytes@, i)
                &&& r->Ok_0.flow@ == bytes@.subrange(16 + 2 * n, 16 + 3 * n)
                &&& forall|i: int|
                    0 <= i < n ==> #[trigger] r->Ok_0.basin[i] == stored_basin(bytes@, n, i)
            },
        },
{
    if bytes.len() < WEATHER_HEADER_LEN {
        return Err(FormatError::Truncated);
    }
    if read_u32_le(bytes, 0) != MAGIC {
        return Err(FormatError::BadMagic);
    }
    if read_u16_le(bytes, 4) != VERSION {
        return Err(FormatError::UnsupportedVersion);
    }
    if read_u16_le(bytes, 14) != LAYER_COUNT {
        return Err(FormatError::BadLayerCount);
    }
    let width = read_u32_le(bytes, 6);
    let height = read_u32_le(bytes, 10);
    assert(width as u128 * height as u128 <= 0xFFFF_FFFF_FFFF_FFFFu128) by (nonlinear_arith)
        requires width <= u32::MAX, height <= u32::MAX;
    let cells: u128 = width as u128 * height as u128;
    if (bytes.len() - WEATHER_HEADER_LEN) as u128 != 7 * cells {
        return Err(FormatError::SizeMismatch);
    }
    let n = cells as usize;
    let mut slope: Vec<i16> = Vec::with_capacity(n);
    let mut i: usize = 0;
    while i < n
        invariant
            bytes.len() == 16 + 7 * n,
            i <= n,
            slope.len() == i,
            forall|j: int| 0 <= j < i ==> #[trigger] slope[j] == stored_slope(bytes@, j),
        decreases n - i,
    {
        slope.push(read_u16_le(bytes, 16 + 2 * i) as i16);
        i = i + 1;
    }
    let flow = copy_range(bytes, 16 + 2 * n, 16 + 3 * n);
    let mut basin: Vec<u32> = Vec::with_capacity(n);
    let mut k: usize = 0;
    while k < n
        invariant
            bytes.len() == 16 + 7 * n,
            k <= n,
            basin.len() == k,
            forall|j: int| 0 <= j < k ==> #[trigger] basin[j] == stored_basin(bytes@, n as int, j),
        decreases n - k,
    {
        basin.push(read_u32_le(bytes, 16 + 3 * n + 4 * k));
        k = k + 1;
    }
    Ok(WeatherMap { width, height, slope, flow, basin })
}

/// Decoding an encoded weather map gives back its header and all three
/// layers.
pub proof fn lemma_weather_round_trip(m: WeatherMap)
    requires
        m.wf(),
    ensures
        ({
            let b = weather_image(m);
            let n = m.width * m.height;
            &&& weather_error(b) is None
            &&& weather_width(b) == m.width
            &&& weather_height(b) == m.height
            &&& forall|i: int| 0 <= i < n ==> #[trigger] stored_slope(b, i) == m.slope[i]
            &&& b.subrange(16 + 2 * n, 16 + 3 * n) == m.flow@
            &&& forall|i: int| 0 <= i < n ==> #[trigger] stored_basin(b, n, i) == m.basin[i]
        }),
{
    let b = weather_image(m);
    let n = m.width * m.height;
    let head = weather_header(m.width, m.height);
    let sl = i16s_le(m.slope@);
    let bs = u32s_le(m.basin@);
    lemma_i16s_le(m.slope@);
    lemma_u32s_le(m.basin@);
    assert(head.len() == 16);
    assert(b.len() == 16 + 7 * n);
    assert(b.subrange(0, 4) =~= u32_le(MAGIC));
    assert(b.subrange(4, 6) =~= u16_le(VERSION));
    assert(b.subrange(6, 10) =~= u32_le(m.width));
    assert(b.subrange(10, 14) =~= u32_le(m.height));
    assert(b.subrange(14, 16) =~= u16_le(LAYER_COUNT));
    lemma_u32_round_trip(MAGIC);
    lemma_u16_round_trip(VERSION);
    lemma_u32_round_trip(m.width);
    lemma_u32_round_trip(m.height);
    lemma_u16_round_trip(LAYER_COUNT);
    assert forall|i: int| 0 <= i < n implies #[trigger] stored_slope(b, i) == m.slope[i] by {
        assert(b.subrange(16 + 2 * i, 16 + 2 * i + 2) =~= sl.subrange(2 * i, 2 * i + 2));
        lemma_i16_round_trip(m.slope[i]);
    }
    assert(b.subrange(16 + 2 * n, 16 + 3 * n) =~= m.flow@);
    assert forall|i: int| 0 <= i < n implies #[trigger] stored_basin(b, n, i) == m.basin[i] by {
        assert(b.subrange(16 + 3 * n + 4 * i, 16 + 3 * n + 4 * i + 4) =~= bs.subrange(
            4 * i,
            4 * i + 4,
        ));
        lemma_u32_round_trip(m.basin[i]);
    }
}

} // verus!
