use mapgen::heightmap::{
    decode_heightmap, encode_heightmap, FormatError, Heightmap, HeightmapFile,
};
use mapgen::weather_map::{
    decode_weather_map, encode_weather_map, WeatherMap, LAYER_COUNT, MAGIC, VERSION,
};

fn sample_heightmap_file() -> HeightmapFile {
    let elevation: Vec<u8> = vec![0, 40, 80, 120, 160, 200, 240, 255, 79, 159, 219, 220];
    let layers: Vec<u8> = vec![0, 0, 1, 1, 2, 2, 3, 3, 0, 1, 2, 3];
    HeightmapFile { width: 4, height: 3, seed: 0x0123_4567_89AB_CDEF, elevation, layers }
}

#[test]
fn heightmap_round_trip() {
    let file = sample_heightmap_file();
    let bytes = encode_heightmap(&file);
    assert_eq!(bytes.len(), 16 + 2 * 12);
    assert_eq!(&bytes[0..4], &[4, 0, 0, 0]);
    assert_eq!(&bytes[4..8], &[3, 0, 0, 0]);
    assert_eq!(&bytes[8..16], &0x0123_4567_89AB_CDEFu64.to_le_bytes());
    let back = decode_heightmap(&bytes).unwrap();
    assert_eq!(back.width, 4);
    assert_eq!(back.height, 3);
    assert_eq!(back.seed, 0x0123_4567_89AB_CDEF);
    assert_eq!(back.elevation, file.elevation);
    assert_eq!(back.layers, file.layers);
}

#[test]
fn heightmap_decode_errors() {
    assert_eq!(decode_heightmap(&vec![0u8; 10]).err(), Some(FormatError::Truncated));
    let mut bytes = vec![2u8, 0, 0, 0, 2, 0, 0, 0, 0, 0, 0, 0, 0, 0, 0, 0];
    bytes.extend(vec![7u8; 7]);
    assert_eq!(decode_heightmap(&bytes).err(), Some(FormatError::SizeMismatch));
    bytes.push(7);
    assert!(decode_heightmap(&bytes).is_ok());
    // Two bytes per cell of elevation are not the canonical layout.
    bytes.extend(vec![7u8; 4]);
    assert_eq!(decode_heightmap(&bytes).err(), Some(FormatError::SizeMismatch));
}

#[test]
fn heightmap_get_and_from_file() {
    let hm = Heightmap::from_file(&sample_heightmap_file());
    assert_eq!(hm.data.len(), 12);
    assert_eq!(hm.get(0, 0), Some(0));
    assert_eq!(hm.get(3, 0), Some(120));
    assert_eq!(hm.get(3, 1), Some(255));
    assert_eq!(hm.get(2, 2), Some(219));
    assert_eq!(hm.get(4, 0), None);
    assert_eq!(hm.get(0, 3), None);
}

fn sample_weather_map() -> WeatherMap {
    let mut map = WeatherMap::new(4, 3);
    map.slope = vec![0, 1, -1, 300, -300, 32767, -32768, 12, 13, 14, 15, 16];
    map.flow = vec![0, 1, 2, 3, 4, 5, 6, 7, 8, 0, 3, 7];
    map.basin = vec![1, 1, 2, 2, 3, 3, 70000, 70000, 1, 2, 3, 4];
    map
}

#[test]
fn weather_map_new_is_zeroed() {
    let map = WeatherMap::new(3, 2);
    assert_eq!((map.width, map.height), (3, 2));
    assert_eq!(map.slope, vec![0i16; 6]);
    assert_eq!(map.flow, vec![0u8; 6]);
    assert_eq!(map.basin, vec![0u32; 6]);
}

#[test]
fn weather_map_round_trip() {
    let map = sample_weather_map();
    let bytes = encode_weather_map(&map);
    assert_eq!(bytes.len(), 16 + 12 * (2 + 1 + 4));
    assert_eq!(&bytes[0..4], &MAGIC.to_le_bytes());
    assert_eq!(&bytes[4..6], &VERSION.to_le_bytes());
    assert_eq!(&bytes[6..10], &[4, 0, 0, 0]);
    assert_eq!(&bytes[10..14], &[3, 0, 0, 0]);
    assert_eq!(&bytes[14..16], &LAYER_COUNT.to_le_bytes());
    assert_eq!(&bytes[16..18], &[0, 0]);
    assert_eq!(&bytes[20..22], &[0xFF, 0xFF]);
    let back = decode_weather_map(&bytes).unwrap();
    assert_eq!((back.width, back.height), (4, 3));
    assert_eq!(back.slope, map.slope);
    assert_eq!(back.flow, map.flow);
    assert_eq!(back.basin, map.basin);
}

#[test]
fn weather_map_decode_errors() {
    let good = encode_weather_map(&sample_weather_map());
    assert_eq!(decode_weather_map(&good[0..10].to_vec()).err(), Some(FormatError::Truncated));

    let mut bad_magic = good.clone();
    bad_magic[0] ^= 1;
    assert_eq!(decode_weather_map(&bad_magic).err(), Some(FormatError::BadMagic));

    let mut bad_version = good.clone();
    bad_version[4] = 2;
    assert_eq!(decode_weather_map(&bad_version).err(), Some(FormatError::UnsupportedVersion));

    let mut bad_layers = good.clone();
    bad_layers[14] = 4;
    assert_eq!(decode_weather_map(&bad_layers).err(), Some(FormatError::BadLayerCount));

    let mut short = good.clone();
    short.pop();
    assert_eq!(decode_weather_map(&short).err(), Some(FormatError::SizeMismatch));
}
