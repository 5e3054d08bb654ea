use simple_tile_map::coords::{ChunkCoord, TileCoord};
use simple_tile_map::tile::Tile;
use simple_tile_map::tilemap::{TileMap, TileMapCache};
use simple_tile_map::visibility::{
    chunk_footprint, rects_overlap, visible_chunks, MapTransform, ViewRect, WORLD_BOUND,
};

#[test]
fn footprint_of_origin_chunk() {
    // 64 tiles of 16 pixels at scale 1: the chunk covers 0..1024 pixels,
    // so its center (doubled) is 1024 and its full size is 1024.
    let t = MapTransform::new(0, 0, 0, 1, 1);
    let fp = chunk_footprint(TileCoord::new(0, 0, 0), 16, 16, &t).unwrap();
    assert_eq!(fp, ViewRect::new(1024, 1024, 1024, 1024));
}

#[test]
fn footprint_applies_translation_and_scale() {
    let t = MapTransform::new(100, -50, 0, 2, 3);
    let fp = chunk_footprint(TileCoord::new(64, 0, 0), 16, 16, &t).unwrap();
    // min x = 64 * 16 * 2 + 100 = 2148, width = 64 * 16 * 2 = 2048.
    assert_eq!(fp.width, 2048);
    assert_eq!(fp.center_x2, 2 * 2148 + 2048);
    // min y = -50, height = 64 * 16 * 3 = 3072.
    assert_eq!(fp.height, 3072);
    assert_eq!(fp.center_y2, 2 * -50 + 3072);
}

#[test]
fn footprint_outside_world_bounds_is_none() {
    let t = MapTransform::new(0, 0, 0, 65536, 1);
    // 33_554_430 * 65536 * 65536 is far beyond the world bound.
    let origin = TileCoord::new(33_554_430 * 64, 0, 0);
    assert!(chunk_footprint(origin, 65536, 16, &t).is_none());
    // A modest chunk under the same transform still fits on the y axis but
    // not on x: width alone exceeds the bound.
    assert!(64 * 65536 * 65536_i64 > WORLD_BOUND);
    assert!(chunk_footprint(TileCoord::new(0, 0, 0), 65536, 16, &t).is_none());
}

#[test]
fn overlapping_circles_overlap() {
    // Two unit-ish squares close together.
    let a = ViewRect::new(0, 0, 100, 100);
    let b = ViewRect::new(50, 0, 100, 100);
    assert!(rects_overlap(&a, &b));
    assert!(rects_overlap(&b, &a));
}

#[test]
fn distant_circles_do_not_overlap() {
    let a = ViewRect::new(0, 0, 100, 100);
    let b = ViewRect::new(10_000, 0, 100, 100);
    assert!(!rects_overlap(&a, &b));
}

#[test]
fn circle_test_is_an_over_approximation() {
    // Corner-to-corner diagonal neighbors whose rectangles only touch at a
    // point: the circumscribed circles still overlap.
    let a = ViewRect::new(0, 0, 100, 100);
    let b = ViewRect::new(100, 100, 100, 100);
    assert!(rects_overlap(&a, &b));
}

#[test]
fn coincident_zero_size_rects_do_not_overlap() {
    // Both radii are zero, so the strict comparison fails.
    let a = ViewRect::new(0, 0, 0, 0);
    let b = ViewRect::new(0, 0, 0, 0);
    assert!(!rects_overlap(&a, &b));
}

fn map_with_tiles(tiles: &[(i32, i32, i32)]) -> TileMap {
    let mut map = TileMap::new(0, 0);
    let mut cache = TileMapCache::new();
    for &(x, y, z) in tiles {
        map.set_tile(TileCoord::new(x, y, z), Some(Tile::new(0)));
    }
    map.update_chunks(&mut cache);
    map
}

#[test]
fn visible_chunks_keeps_only_overlapping_chunks() {
    // Chunks at x = 0..1024 and x = 163840..164864 pixels; the view covers
    // only the first.
    let map = map_with_tiles(&[(0, 0, 0), (64 * 160, 0, 0)]);
    let t = MapTransform::new(0, 0, 0, 1, 1);
    let views = vec![ViewRect::new(0, 0, 400, 400)];
    let vis = visible_chunks(&map.chunks, 16, 16, &t, &views);
    assert_eq!(vis, vec![ChunkCoord::new(0, 0, 0)]);
}

#[test]
fn chunk_with_tiles_outside_all_views_is_absent() {
    let map = map_with_tiles(&[(500, 500, 0)]);
    let t = MapTransform::new(0, 0, 0, 1, 1);
    let views = vec![
        ViewRect::new(-30_000_000, 0, 100, 100),
        ViewRect::new(30_000_000, 0, 100, 100),
    ];
    let vis = visible_chunks(&map.chunks, 16, 16, &t, &views);
    assert!(vis.is_empty());
}

#[test]
fn chunk_visible_in_any_of_several_views() {
    let map = map_with_tiles(&[(0, 0, 0)]);
    let t = MapTransform::new(0, 0, 0, 1, 1);
    let views = vec![
        ViewRect::new(30_000_000, 0, 100, 100),
        ViewRect::new(0, 0, 100, 100),
    ];
    let vis = visible_chunks(&map.chunks, 16, 16, &t, &views);
    assert_eq!(vis, vec![ChunkCoord::new(0, 0, 0)]);
}

#[test]
fn no_views_means_nothing_visible() {
    let map = map_with_tiles(&[(0, 0, 0)]);
    let t = MapTransform::new(0, 0, 0, 1, 1);
    let vis = visible_chunks(&map.chunks, 16, 16, &t, &Vec::new());
    assert!(vis.is_empty());
}
