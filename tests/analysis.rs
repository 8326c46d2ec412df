use mapgen::analysis::{analyze_heightmap, calc_slope_and_flow, generate_weather_map};
use mapgen::heightmap::{Heightmap, HeightmapFile};
use mapgen::terrain::ConfigError;

fn grid(width: u32, height: u32, data: Vec<i16>) -> Heightmap {
    Heightmap { width, height, data }
}

#[test]
fn flow_tie_resolves_to_first_direction() {
    // North and east both drop by 5 from the centre.
    let hm = grid(3, 3, vec![10, 5, 10, 10, 10, 5, 10, 10, 10]);
    assert_eq!(calc_slope_and_flow(&hm, 1, 1), (5, 1));
    let map = generate_weather_map(&hm);
    assert_eq!(map.flow[4], 1);
}

#[test]
fn flow_diagonal_tie_resolves_to_first_direction() {
    // North-east and south-east both drop by 6.
    let hm = grid(3, 3, vec![10, 10, 4, 10, 10, 10, 10, 10, 4]);
    assert_eq!(calc_slope_and_flow(&hm, 1, 1), (6, 2));
}

#[test]
fn flow_weighs_diagonals_by_root_two() {
    // North drops 5 (rate 5); north-east drops 7 (rate about 4.95).
    let hm = grid(3, 3, vec![10, 5, 3, 10, 10, 10, 10, 10, 10]);
    assert_eq!(calc_slope_and_flow(&hm, 1, 1), (7, 1));
    // North-east drops 8 (rate about 5.66) and wins.
    let hm2 = grid(3, 3, vec![10, 5, 2, 10, 10, 10, 10, 10, 10]);
    assert_eq!(calc_slope_and_flow(&hm2, 1, 1), (8, 2));
}

#[test]
fn slope_counts_uphill_neighbours() {
    let hm = grid(3, 3, vec![10, 30, 10, 10, 10, 10, 10, 5, 10]);
    assert_eq!(calc_slope_and_flow(&hm, 1, 1), (20, 5));
}

#[test]
fn sink_and_off_grid_cells() {
    let hm = grid(2, 2, vec![1, 1, 1, 1]);
    assert_eq!(calc_slope_and_flow(&hm, 0, 0), (0, 0));
    assert_eq!(calc_slope_and_flow(&hm, 2, 0), (0, 0));
    let map = generate_weather_map(&hm);
    assert_eq!(map.flow, vec![0, 0, 0, 0]);
    assert_eq!(map.basin, vec![1, 2, 3, 4]);
}

#[test]
fn basins_follow_flow_to_one_sink() {
    let hm = grid(4, 1, vec![3, 2, 1, 5]);
    let map = generate_weather_map(&hm);
    assert_eq!(map.flow, vec![3, 3, 0, 7]);
    assert_eq!(map.slope, vec![1, 1, 4, 4]);
    assert_eq!(map.basin, vec![1, 1, 1, 1]);
}

#[test]
fn basins_split_at_ridge() {
    let hm = grid(3, 1, vec![1, 5, 1]);
    let map = generate_weather_map(&hm);
    assert_eq!(map.flow, vec![0, 3, 0]);
    assert_eq!(map.slope, vec![4, 4, 4]);
    assert_eq!(map.basin, vec![1, 2, 2]);
}

#[test]
fn basins_cover_every_cell() {
    let data: Vec<i16> = (0..30).map(|i| ((i * 37) % 11) as i16).collect();
    let hm = grid(6, 5, data);
    let map = generate_weather_map(&hm);
    assert!(map.basin.iter().all(|&b| b != 0));
    let dx = [0i32, 0, 1, 1, 1, 0, -1, -1, -1];
    let dy = [0i32, -1, -1, 0, 1, 1, 1, 0, -1];
    for i in 0..30usize {
        let f = map.flow[i] as usize;
        if f != 0 {
            let x = (i % 6) as i32 + dx[f];
            let y = (i / 6) as i32 + dy[f];
            let t = (y * 6 + x) as usize;
            assert_eq!(map.basin[i], map.basin[t]);
            assert!(hm.data[t] < hm.data[i]);
        }
    }
    let sinks: Vec<u32> = (0..30).filter(|&i| map.flow[i] == 0).map(|i| map.basin[i]).collect();
    let mut unique = sinks.clone();
    unique.sort();
    unique.dedup();
    assert_eq!(unique.len(), sinks.len());
}

#[test]
fn analysis_of_a_heightmap_file() {
    let file = HeightmapFile {
        width: 3,
        height: 1,
        seed: 0,
        elevation: vec![1, 5, 1],
        layers: vec![0, 0, 0],
    };
    let map = analyze_heightmap(&file).unwrap();
    assert_eq!(map.basin, vec![1, 2, 2]);

    let empty = HeightmapFile { width: 0, height: 3, seed: 0, elevation: vec![], layers: vec![] };
    assert_eq!(analyze_heightmap(&empty).err(), Some(ConfigError::ZeroDimension));
}
