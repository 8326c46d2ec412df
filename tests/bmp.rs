use mapgen::bmp::{grayscale_bmp, layer_bmp};

fn headers(file_size: u32, offset: u32, w: u32, h: u32, bpp: u16, image: u32) -> Vec<u8> {
    let mut v = vec![b'B', b'M'];
    v.extend_from_slice(&file_size.to_le_bytes());
    v.extend_from_slice(&[0u8; 4]);
    v.extend_from_slice(&offset.to_le_bytes());
    v.extend_from_slice(&40u32.to_le_bytes());
    v.extend_from_slice(&w.to_le_bytes());
    v.extend_from_slice(&h.to_le_bytes());
    v.extend_from_slice(&1u16.to_le_bytes());
    v.extend_from_slice(&bpp.to_le_bytes());
    v.extend_from_slice(&0u32.to_le_bytes());
    v.extend_from_slice(&image.to_le_bytes());
    v.extend_from_slice(&[0u8; 16]);
    v
}

#[test]
fn grayscale_bmp_layout() {
    let bytes = grayscale_bmp(2, 2, &vec![1, 2, 3, 4]);
    let mut expected = headers(1082, 1078, 2, 2, 8, 4);
    for i in 0..256u32 {
        let g = i as u8;
        expected.extend_from_slice(&[g, g, g, 0]);
    }
    expected.extend_from_slice(&[3, 4, 1, 2]);
    assert_eq!(bytes.len(), 1082);
    assert_eq!(bytes, expected);
}

#[test]
fn layer_bmp_layout() {
    let bytes = layer_bmp(2, 2, &vec![0, 1, 2, 3]);
    let mut expected = headers(66, 54, 2, 2, 24, 12);
    expected.extend_from_slice(&[0, 128, 0, 128, 128, 128, 255, 0, 0, 0, 255, 0]);
    assert_eq!(bytes, expected);
}
