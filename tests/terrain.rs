use mapgen::heightmap::{encode_heightmap, HeightmapFile};
use mapgen::terrain::{
    apply_fault_line, classify_terrain_layer, normalize_heights, seed_height_noise,
    smooth_heightmap_box, synthesize_terrain, ConfigError, TerrainLayer, MAX_NOISE_AMPLITUDE,
};

#[test]
fn classification_boundaries() {
    assert_eq!(classify_terrain_layer(0), TerrainLayer::Water);
    assert_eq!(classify_terrain_layer(79), TerrainLayer::Water);
    assert_eq!(classify_terrain_layer(80), TerrainLayer::Land);
    assert_eq!(classify_terrain_layer(159), TerrainLayer::Land);
    assert_eq!(classify_terrain_layer(160), TerrainLayer::PineMountain);
    assert_eq!(classify_terrain_layer(219), TerrainLayer::PineMountain);
    assert_eq!(classify_terrain_layer(220), TerrainLayer::RockMountain);
    assert_eq!(classify_terrain_layer(255), TerrainLayer::RockMountain);
}

#[test]
fn layer_codes() {
    assert_eq!(TerrainLayer::Water.code(), 0);
    assert_eq!(TerrainLayer::Land.code(), 1);
    assert_eq!(TerrainLayer::PineMountain.code(), 2);
    assert_eq!(TerrainLayer::RockMountain.code(), 3);
}

#[test]
fn noise_values_are_exact() {
    let mut values = vec![0i32; 6];
    seed_height_noise(&mut values, 3, 2, 42, 2);
    assert_eq!(values, vec![-2, 2, 1, 2, 0, 1]);

    let mut wide = vec![10i32; 4];
    seed_height_noise(&mut wide, 2, 2, 7, 1000);
    assert_eq!(wide, vec![10 - 378, 10 - 17, 10 + 445, 10 - 774]);
}

#[test]
fn noise_with_zero_amplitude_changes_nothing() {
    let mut values = vec![5i32, -3, 7, 0];
    seed_height_noise(&mut values, 2, 2, 99, 0);
    assert_eq!(values, vec![5, -3, 7, 0]);
}

#[test]
fn noise_depends_on_coordinates_only() {
    let mut a = vec![0i32; 12];
    let mut b = vec![0i32; 12];
    seed_height_noise(&mut a, 4, 3, 1234, 2);
    seed_height_noise(&mut b, 4, 3, 1234, 2);
    assert_eq!(a, b);
    assert!(a.iter().all(|v| (-2..=2).contains(v)));
}

#[test]
fn fault_line_raises_and_lowers() {
    let mut values = vec![0i32, 1, 2, 3];
    apply_fault_line(&mut values, &Some(vec![true, false, true, false]));
    assert_eq!(values, vec![2, -1, 4, 1]);
}

#[test]
fn degenerate_fault_line_is_skipped() {
    let mut values = vec![4i32, -4, 0, 9];
    apply_fault_line(&mut values, &None);
    assert_eq!(values, vec![4, -4, 0, 9]);

    let with_skip = synthesize_terrain(4, 3, 5, 2, &vec![None], 2).unwrap();
    let without = synthesize_terrain(4, 3, 5, 2, &vec![], 2).unwrap();
    assert_eq!(with_skip.elevation, without.elevation);
    assert_eq!(with_skip.layers, without.layers);
}

#[test]
fn smoothing_averages_interior_only() {
    let mut values: Vec<i32> = (1..=9).collect();
    smooth_heightmap_box(&mut values, 3, 3, 1);
    assert_eq!(values, vec![1, 2, 3, 4, 5, 6, 7, 8, 9]);

    let mut spike = vec![0i32, 0, 0, 0, 90, 0, 0, 0, 0];
    smooth_heightmap_box(&mut spike, 3, 3, 1);
    assert_eq!(spike, vec![0, 0, 0, 0, 10, 0, 0, 0, 0]);
}

#[test]
fn smoothing_truncates_toward_zero() {
    let mut values = vec![0i32, 0, 0, 0, -10, 0, 0, 0, 0];
    smooth_heightmap_box(&mut values, 3, 3, 1);
    assert_eq!(values[4], -1);
}

#[test]
fn smoothing_reads_previous_pass_only() {
    // 4x3: two interior cells side by side.
    let mut values = vec![0i32, 0, 0, 0, 0, 90, 0, 0, 0, 0, 0, 0];
    smooth_heightmap_box(&mut values, 4, 3, 1);
    assert_eq!(values[5], 10);
    assert_eq!(values[6], 10);
    smooth_heightmap_box(&mut values, 4, 3, 1);
    assert_eq!(values[5], 2);
    assert_eq!(values[6], 2);
}

#[test]
fn normalization_rounds_to_nearest() {
    let (elevation, layers) = normalize_heights(&vec![0, 1, 2]);
    assert_eq!(elevation, vec![0, 128, 255]);
    assert_eq!(layers, vec![0, 1, 3]);

    let (e2, l2) = normalize_heights(&vec![-10, 10, 0, 5]);
    assert_eq!(e2, vec![0, 255, 128, 191]);
    assert_eq!(l2, vec![0, 3, 1, 2]);
}

#[test]
fn normalization_of_flat_grid() {
    let (elevation, layers) = normalize_heights(&vec![-7, -7, -7]);
    assert_eq!(elevation, vec![128, 128, 128]);
    assert_eq!(layers, vec![1, 1, 1]);
}

#[test]
fn flat_fallback() {
    let terrain = synthesize_terrain(5, 3, 77, 0, &vec![], 2).unwrap();
    assert!(terrain.is_flat());
    assert_eq!(terrain.elevation, vec![128u8; 15]);
    assert_eq!(terrain.layers, vec![TerrainLayer::Land.code(); 15]);
}

#[test]
fn end_to_end_flat_example() {
    let terrain = synthesize_terrain(4, 4, 42, 0, &vec![], 2).unwrap();
    assert_eq!(terrain.elevation, vec![128u8; 16]);
    assert_eq!(terrain.layers, vec![1u8; 16]);
    let file = HeightmapFile {
        width: 4,
        height: 4,
        seed: 42,
        elevation: terrain.elevation,
        layers: terrain.layers,
    };
    let bytes = encode_heightmap(&file);
    let mut expected = vec![4u8, 0, 0, 0, 4, 0, 0, 0];
    expected.extend_from_slice(&42u64.to_le_bytes());
    expected.extend(vec![128u8; 16]);
    expected.extend(vec![1u8; 16]);
    assert_eq!(bytes, expected);
}

fn sample_faults(n: usize) -> Vec<Option<Vec<bool>>> {
    vec![
        Some((0..n).map(|i| i % 3 == 0).collect()),
        None,
        Some((0..n).map(|i| i < n / 2).collect()),
        Some((0..n).map(|i| i % 2 == 1).collect()),
    ]
}

#[test]
fn synthesis_is_deterministic() {
    let a = synthesize_terrain(6, 5, 42, 2, &sample_faults(30), 2).unwrap();
    let b = synthesize_terrain(6, 5, 42, 2, &sample_faults(30), 2).unwrap();
    assert_eq!(a.elevation, b.elevation);
    assert_eq!(a.layers, b.layers);
    assert!(!a.is_flat());
    assert_eq!((a.width, a.height), (6, 5));
    assert_eq!(a.elevation.len(), 30);
    assert!(a.elevation.contains(&0));
    assert!(a.elevation.contains(&255));
    for (e, l) in a.elevation.iter().zip(a.layers.iter()) {
        assert_eq!(*l, classify_terrain_layer(*e).code());
    }
}

#[test]
fn synthesis_follows_the_steps() {
    let faults = sample_faults(12);
    let mut values = vec![0i32; 12];
    seed_height_noise(&mut values, 4, 3, 9, 2);
    for f in &faults {
        apply_fault_line(&mut values, f);
    }
    smooth_heightmap_box(&mut values, 4, 3, 2);
    let (elevation, layers) = normalize_heights(&values);
    let terrain = synthesize_terrain(4, 3, 9, 2, &faults, 2).unwrap();
    assert_eq!(terrain.elevation, elevation);
    assert_eq!(terrain.layers, layers);
}

#[test]
fn synthesis_config_errors() {
    assert_eq!(
        synthesize_terrain(0, 4, 1, 2, &vec![], 2).err(),
        Some(ConfigError::ZeroDimension)
    );
    assert_eq!(
        synthesize_terrain(4, 0, 1, 2, &vec![], 2).err(),
        Some(ConfigError::ZeroDimension)
    );
    assert_eq!(
        synthesize_terrain(65536, 65536, 1, 2, &vec![], 2).err(),
        Some(ConfigError::GridTooLarge)
    );
    assert_eq!(
        synthesize_terrain(2, 2, 1, MAX_NOISE_AMPLITUDE + 1, &vec![], 2).err(),
        Some(ConfigError::AmplitudeTooLarge)
    );
    assert_eq!(
        synthesize_terrain(2, 2, 1, 2, &vec![None, Some(vec![true; 3])], 2).err(),
        Some(ConfigError::FaultMaskSize)
    );
}
