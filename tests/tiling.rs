use mcvideo::tiling::{centring_margin, partition, tile_grid_len, BACKGROUND, TILE_LEN};

fn frame(width: u32, height: u32) -> Vec<u8> {
    (0..(width as usize * height as usize)).map(|i| (i % 97) as u8).collect()
}

#[test]
fn grid_len_is_ceiling_of_tile_side() {
    assert_eq!(tile_grid_len(0), 0);
    assert_eq!(tile_grid_len(1), 1);
    assert_eq!(tile_grid_len(127), 1);
    assert_eq!(tile_grid_len(128), 1);
    assert_eq!(tile_grid_len(129), 2);
    assert_eq!(tile_grid_len(200), 2);
    assert_eq!(tile_grid_len(1000), 8);
    assert_eq!(tile_grid_len(u32::MAX), 33554432);
}

#[test]
fn tile_count_is_product_of_grid_sides() {
    let raw = frame(300, 200);
    let tiles = partition(&raw, 300, 200);
    assert_eq!(tiles.len(), 3 * 2);
    for t in &tiles {
        assert_eq!(t.len(), TILE_LEN);
    }
}

#[test]
fn margins_round_down() {
    assert_eq!(centring_margin(200), 28);
    assert_eq!(centring_margin(128), 0);
    assert_eq!(centring_margin(256), 0);
    assert_eq!(centring_margin(129), 63);
    assert_eq!(centring_margin(1), 63);
    assert_eq!(centring_margin(0), 0);
}

#[test]
fn first_sample_is_centred() {
    let mut raw = vec![5u8; 200 * 200];
    raw[0] = 42;
    let tiles = partition(&raw, 200, 200);
    assert_eq!(tiles.len(), 4);
    assert_eq!(tiles[0][28 * 128 + 28], 42);
    assert_eq!(tiles[0][28 * 128 + 29], 5);
}

#[test]
fn margin_keeps_background() {
    let raw = vec![5u8; 200 * 200];
    let tiles = partition(&raw, 200, 200);
    assert_eq!(tiles[0][0], BACKGROUND);
    assert_eq!(tiles[0][27 * 128 + 28], BACKGROUND);
    assert_eq!(tiles[0][28 * 128 + 27], BACKGROUND);
    assert_eq!(tiles[3][127 * 128 + 127], BACKGROUND);
    // last sample (199, 199) lands at placed (227, 227): tile 3, cell (99, 99)
    assert_eq!(tiles[3][99 * 128 + 99], 5);
    assert_eq!(tiles[3][100 * 128 + 100], BACKGROUND);
    let background = tiles
        .iter()
        .map(|t| t.iter().filter(|&&b| b == BACKGROUND).count())
        .sum::<usize>();
    assert_eq!(background, 4 * TILE_LEN - 200 * 200);
}

#[test]
fn every_sample_lands_once() {
    let (w, h) = (300u32, 130u32);
    let raw = frame(w, h);
    let tiles = partition(&raw, w, h);
    let gw = tile_grid_len(w) as usize;
    let (mx, my) = (centring_margin(w) as usize, centring_margin(h) as usize);
    for i in 0..raw.len() {
        let x = i % w as usize + mx;
        let y = i / w as usize + my;
        assert_eq!(tiles[(y / 128) * gw + x / 128][(y % 128) * 128 + x % 128], raw[i]);
    }
}

#[test]
fn partition_is_deterministic() {
    let raw = frame(333, 170);
    assert_eq!(partition(&raw, 333, 170), partition(&raw, 333, 170));
}

#[test]
fn empty_frame_gives_no_tiles() {
    assert!(partition(&[], 0, 0).is_empty());
    assert!(partition(&[], 0, 500).is_empty());
    assert!(partition(&[], 500, 0).is_empty());
}

#[test]
fn exact_tile_is_a_copy() {
    let raw = frame(128, 128);
    let tiles = partition(&raw, 128, 128);
    assert_eq!(tiles.len(), 1);
    assert_eq!(centring_margin(128), 0);
    assert_eq!(&tiles[0][..], &raw[..]);
}

#[test]
fn wide_frame_splits_into_halves() {
    let raw = frame(256, 128);
    assert_eq!(raw.len(), 32768);
    let tiles = partition(&raw, 256, 128);
    assert_eq!(tiles.len(), 2);
    for y in 0..128 {
        for x in 0..128 {
            assert_eq!(tiles[0][y * 128 + x], raw[y * 256 + x]);
            assert_eq!(tiles[1][y * 128 + x], raw[y * 256 + 128 + x]);
        }
    }
}
