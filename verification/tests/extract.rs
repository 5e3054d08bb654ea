use simple_tile_map::coords::{ChunkCoord, TileCoord};
use simple_tile_map::extract::{
    extract_chunk, extract_tilemap, snapshot_chunk, AtlasLayout, AtlasRect, ExtractionCache,
};
use simple_tile_map::tile::{Tile, TileFlags, FLIP_X};
use simple_tile_map::tilemap::{TileMap, TileMapCache};
use simple_tile_map::visibility::{MapTransform, ViewRect};

fn atlas_with(n: u32) -> AtlasLayout {
    let mut atlas = AtlasLayout::new();
    for i in 0..n {
        atlas.push_texture(AtlasRect::new(16 * i, 0, 16 * i + 16, 16));
    }
    atlas
}

fn map_with_one_tile(pos: TileCoord, tile: Tile) -> TileMap {
    let mut map = TileMap::new(0, 0);
    let mut cache = TileMapCache::new();
    map.set_tile(pos, Some(tile));
    map.update_chunks(&mut cache);
    map
}

#[test]
fn snapshot_lists_occupied_slots_with_world_positions() {
    let map = map_with_one_tile(TileCoord::new(-65, 3, 0), Tile::new(2));
    let atlas = atlas_with(4);
    let (_, chunk) = &map.chunks[0];
    let snap = snapshot_chunk(chunk, &atlas);
    assert_eq!(snap.origin, TileCoord::new(-128, 0, 0));
    assert_eq!(snap.tiles.len(), 1);
    let t = &snap.tiles[0];
    assert_eq!((t.x, t.y), (-65, 3));
    assert_eq!(t.rect, AtlasRect::new(32, 0, 48, 16));
}

#[test]
fn snapshot_keeps_color_and_flags() {
    let mut tile = Tile::new(0);
    tile.flags = TileFlags::from_bits(FLIP_X);
    let map = map_with_one_tile(TileCoord::new(0, 0, 0), tile);
    let atlas = atlas_with(1);
    let (_, chunk) = &map.chunks[0];
    let snap = snapshot_chunk(chunk, &atlas);
    assert_eq!(snap.tiles[0].flags.bits, FLIP_X);
    assert_eq!(snap.tiles[0].color, tile.color);
}

#[test]
fn first_extraction_reports_changed() {
    let map = map_with_one_tile(TileCoord::new(0, 0, 0), Tile::new(0));
    let atlas = atlas_with(1);
    let mut cache = ExtractionCache::new();
    let (coord, chunk) = &map.chunks[0];
    let r = extract_chunk(&mut cache, 7, *coord, chunk, &atlas);
    assert!(r.is_some());
    assert_eq!(r.unwrap().tiles.len(), 1);
}

#[test]
fn second_extraction_without_edit_reports_unchanged() {
    let map = map_with_one_tile(TileCoord::new(0, 0, 0), Tile::new(0));
    let atlas = atlas_with(1);
    let mut cache = ExtractionCache::new();
    let (coord, chunk) = &map.chunks[0];
    assert!(extract_chunk(&mut cache, 7, *coord, chunk, &atlas).is_some());
    assert!(extract_chunk(&mut cache, 7, *coord, chunk, &atlas).is_none());
}

#[test]
fn extraction_after_edit_reports_changed_again() {
    let mut map = map_with_one_tile(TileCoord::new(0, 0, 0), Tile::new(0));
    let atlas = atlas_with(2);
    let mut cache = ExtractionCache::new();
    {
        let (coord, chunk) = &map.chunks[0];
        assert!(extract_chunk(&mut cache, 7, *coord, chunk, &atlas).is_some());
    }
    let mut scratch = TileMapCache::new();
    map.set_tile(TileCoord::new(1, 0, 0), Some(Tile::new(1)));
    map.update_chunks(&mut scratch);
    let (coord, chunk) = &map.chunks[0];
    let r = extract_chunk(&mut cache, 7, *coord, chunk, &atlas);
    assert!(r.is_some());
    assert_eq!(r.unwrap().tiles.len(), 2);
}

#[test]
fn distinct_map_identities_have_separate_cache_entries() {
    let map = map_with_one_tile(TileCoord::new(0, 0, 0), Tile::new(0));
    let atlas = atlas_with(1);
    let mut cache = ExtractionCache::new();
    let (coord, chunk) = &map.chunks[0];
    assert!(extract_chunk(&mut cache, 1, *coord, chunk, &atlas).is_some());
    // A different tile map identity is not fooled by map 1's entry.
    assert!(extract_chunk(&mut cache, 2, *coord, chunk, &atlas).is_some());
    assert!(extract_chunk(&mut cache, 1, *coord, chunk, &atlas).is_none());
    assert!(extract_chunk(&mut cache, 2, *coord, chunk, &atlas).is_none());
}

fn identity_transform() -> MapTransform {
    MapTransform::new(0, 0, 0, 1, 1)
}

fn view_at(center_x2: i64, center_y2: i64, w: i64, h: i64) -> ViewRect {
    ViewRect::new(center_x2, center_y2, w, h)
}

#[test]
fn extract_tilemap_emits_visible_changed_chunk() {
    let map = map_with_one_tile(TileCoord::new(0, 0, 0), Tile::new(0));
    let atlas = atlas_with(1);
    let mut cache = ExtractionCache::new();
    // The chunk covers pixels 0..1024 on both axes; this view overlaps it.
    let views = vec![view_at(0, 0, 200, 200)];
    let out = extract_tilemap(&map, 9, &identity_transform(), 16, 16, &atlas, &views, &mut cache);
    assert_eq!(out.map_id, 9);
    assert_eq!(out.tile_size, (16, 16));
    assert_eq!(out.visible_chunks, vec![ChunkCoord::new(0, 0, 0)]);
    assert_eq!(out.chunks.len(), 1);
    assert_eq!(out.chunks[0].tiles.len(), 1);
}

#[test]
fn chunk_outside_every_view_is_absent_from_visibility_output() {
    // The chunk holds a tile, but it sits far outside the only view, so
    // neither the visible list nor the extracted chunks mention it.
    let map = map_with_one_tile(TileCoord::new(0, 0, 0), Tile::new(0));
    let atlas = atlas_with(1);
    let mut cache = ExtractionCache::new();
    let views = vec![view_at(20_000_000, 0, 100, 100)];
    let out = extract_tilemap(&map, 9, &identity_transform(), 16, 16, &atlas, &views, &mut cache);
    assert!(out.visible_chunks.is_empty());
    assert!(out.chunks.is_empty());
}

#[test]
fn extract_tilemap_skips_unchanged_chunk_but_reports_it_visible() {
    let map = map_with_one_tile(TileCoord::new(0, 0, 0), Tile::new(0));
    let atlas = atlas_with(1);
    let mut cache = ExtractionCache::new();
    let views = vec![view_at(0, 0, 200, 200)];
    let t = identity_transform();
    let first = extract_tilemap(&map, 9, &t, 16, 16, &atlas, &views, &mut cache);
    assert_eq!(first.chunks.len(), 1);
    let second = extract_tilemap(&map, 9, &t, 16, 16, &atlas, &views, &mut cache);
    assert_eq!(second.visible_chunks, vec![ChunkCoord::new(0, 0, 0)]);
    assert!(second.chunks.is_empty());
}
