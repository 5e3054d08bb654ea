use simple_tile_map::chunk::Chunk;
use simple_tile_map::coords::{calc_chunk_pos, ChunkCoord, TileCoord, TILES_PER_CHUNK};
use simple_tile_map::tile::Tile;
use simple_tile_map::tilemap::{TileMap, TileMapCache};

fn chunk_of<'a>(map: &'a TileMap, c: ChunkCoord) -> Option<&'a Chunk> {
    map.chunks.iter().find(|(k, _)| *k == c).map(|(_, ch)| ch)
}

fn slot(map: &TileMap, pos: TileCoord) -> Option<Tile> {
    let c = calc_chunk_pos(pos);
    let chunk = chunk_of(map, c).expect("chunk should exist");
    let lx = (pos.x - chunk.origin.x) as usize;
    let ly = (pos.y - chunk.origin.y) as usize;
    chunk.tiles[lx + ly * 64]
}

#[test]
fn new_map_is_empty() {
    let map = TileMap::new(1, 2);
    assert_eq!(map.image, 1);
    assert_eq!(map.texture_atlas_layout, 2);
    assert!(map.chunks.is_empty());
    assert_eq!(map.change_counter, 0);
}

#[test]
fn set_tile_alone_does_not_touch_chunks() {
    let mut map = TileMap::new(0, 0);
    map.set_tile(TileCoord::new(3, 4, 0), Some(Tile::new(7)));
    assert!(map.chunks.is_empty());
}

#[test]
fn update_materializes_queued_edit() {
    let mut map = TileMap::new(0, 0);
    let mut cache = TileMapCache::new();
    map.set_tile(TileCoord::new(3, 4, 0), Some(Tile::new(7)));
    map.update_chunks(&mut cache);
    assert_eq!(map.chunks.len(), 1);
    let t = slot(&map, TileCoord::new(3, 4, 0)).expect("tile should be set");
    assert_eq!(t.sprite_index, 7);
}

#[test]
fn update_creates_chunk_lazily_with_correct_origin() {
    let mut map = TileMap::new(0, 0);
    let mut cache = TileMapCache::new();
    map.set_tile(TileCoord::new(-65, 0, 2), Some(Tile::new(1)));
    map.update_chunks(&mut cache);
    assert_eq!(map.chunks.len(), 1);
    let (c, chunk) = &map.chunks[0];
    assert_eq!(*c, ChunkCoord::new(-2, 0, 2));
    assert_eq!(chunk.origin, TileCoord::new(-128, 0, 2));
    assert_eq!(chunk.tiles.len(), TILES_PER_CHUNK);
    assert_eq!(chunk.tiles[63].expect("slot 63 should hold the tile").sprite_index, 1);
}

#[test]
fn later_edit_to_same_coordinate_wins() {
    let mut map = TileMap::new(0, 0);
    let mut cache = TileMapCache::new();
    let pos = TileCoord::new(10, 10, 0);
    map.set_tiles(vec![(pos, Some(Tile::new(1))), (pos, Some(Tile::new(2)))]);
    map.update_chunks(&mut cache);
    assert_eq!(slot(&map, pos).expect("tile should be set").sprite_index, 2);
}

#[test]
fn erase_after_set_leaves_slot_empty() {
    let mut map = TileMap::new(0, 0);
    let mut cache = TileMapCache::new();
    let pos = TileCoord::new(0, 0, 0);
    map.set_tiles(vec![(pos, Some(Tile::new(1))), (pos, None)]);
    map.update_chunks(&mut cache);
    assert!(slot(&map, pos).is_none());
}

#[test]
fn edits_preserve_order_across_chunks() {
    let mut map = TileMap::new(0, 0);
    let mut cache = TileMapCache::new();
    map.set_tiles(vec![
        (TileCoord::new(0, 0, 0), Some(Tile::new(1))),
        (TileCoord::new(100, 0, 0), Some(Tile::new(2))),
        (TileCoord::new(0, 0, 0), Some(Tile::new(3))),
    ]);
    map.update_chunks(&mut cache);
    assert_eq!(map.chunks.len(), 2);
    assert_eq!(slot(&map, TileCoord::new(0, 0, 0)).unwrap().sprite_index, 3);
    assert_eq!(slot(&map, TileCoord::new(100, 0, 0)).unwrap().sprite_index, 2);
}

#[test]
fn clear_layer_drops_only_that_layers_queued_edits() {
    // Queue 3 edits on layer 1 and 2 edits on layer 0, then clear layer 1:
    // only the layer-0 edits stay queued, and layer 1 is recorded for
    // clearing.
    let mut map = TileMap::new(0, 0);
    map.set_tiles(vec![
        (TileCoord::new(0, 0, 1), Some(Tile::new(10))),
        (TileCoord::new(1, 0, 1), Some(Tile::new(11))),
        (TileCoord::new(0, 0, 0), Some(Tile::new(20))),
        (TileCoord::new(2, 0, 1), Some(Tile::new(12))),
        (TileCoord::new(1, 0, 0), Some(Tile::new(21))),
    ]);
    map.clear_layer(1);
    assert_eq!(map.tile_changes.len(), 2);
    assert!(map.tile_changes.iter().all(|(pos, _)| pos.z == 0));
    assert_eq!(map.clear_layers, vec![1]);

    // The update pass then clears layer-1 chunks in place and applies the
    // remaining layer-0 edits.
    let mut cache = TileMapCache::new();
    map.update_chunks(&mut cache);
    assert_eq!(slot(&map, TileCoord::new(0, 0, 0)).unwrap().sprite_index, 20);
    assert_eq!(slot(&map, TileCoord::new(1, 0, 0)).unwrap().sprite_index, 21);
    assert!(chunk_of(&map, ChunkCoord::new(0, 0, 1)).is_none());
}

#[test]
fn clear_layer_resets_existing_chunks_of_that_layer() {
    let mut map = TileMap::new(0, 0);
    let mut cache = TileMapCache::new();
    map.set_tile(TileCoord::new(0, 0, 1), Some(Tile::new(5)));
    map.set_tile(TileCoord::new(0, 0, 0), Some(Tile::new(6)));
    map.update_chunks(&mut cache);
    map.clear_layer(1);
    map.update_chunks(&mut cache);
    // Layer 1's chunk still exists but is empty; layer 0 is untouched.
    let layer1 = chunk_of(&map, ChunkCoord::new(0, 0, 1)).unwrap();
    assert!(layer1.tiles.iter().all(|s| s.is_none()));
    assert_eq!(slot(&map, TileCoord::new(0, 0, 0)).unwrap().sprite_index, 6);
}

#[test]
fn clear_empties_everything_and_is_idempotent() {
    let mut map = TileMap::new(0, 0);
    let mut cache = TileMapCache::new();
    map.set_tile(TileCoord::new(1, 1, 0), Some(Tile::new(4)));
    map.set_tile(TileCoord::new(100, 100, 2), Some(Tile::new(5)));
    map.update_chunks(&mut cache);

    map.clear();
    map.update_chunks(&mut cache);
    let after_once: Vec<(ChunkCoord, Vec<Option<Tile>>)> =
        map.chunks.iter().map(|(c, ch)| (*c, ch.tiles.clone())).collect();
    let counter_once = map.change_counter;
    let markers_once: Vec<u64> = map.chunks.iter().map(|(_, ch)| ch.last_change_at).collect();
    for (_, tiles) in &after_once {
        assert!(tiles.iter().all(|s| s.is_none()));
    }

    // A second update pass with nothing pending changes nothing.
    map.update_chunks(&mut cache);
    let after_twice: Vec<(ChunkCoord, Vec<Option<Tile>>)> =
        map.chunks.iter().map(|(c, ch)| (*c, ch.tiles.clone())).collect();
    let markers_twice: Vec<u64> = map.chunks.iter().map(|(_, ch)| ch.last_change_at).collect();
    assert_eq!(after_once, after_twice);
    assert_eq!(markers_once, markers_twice);
    assert_eq!(map.change_counter, counter_once);
}

#[test]
fn clear_supersedes_queued_edits_and_layer_clears() {
    let mut map = TileMap::new(0, 0);
    map.set_tile(TileCoord::new(0, 0, 0), Some(Tile::new(1)));
    map.clear_layer(3);
    map.clear();
    assert!(map.tile_changes.is_empty());
    assert!(map.clear_layers.is_empty());
    assert!(map.clear_all);
}

#[test]
fn touched_chunks_get_strictly_greater_markers() {
    let mut map = TileMap::new(0, 0);
    let mut cache = TileMapCache::new();
    map.set_tile(TileCoord::new(0, 0, 0), Some(Tile::new(1)));
    map.update_chunks(&mut cache);
    let m1 = chunk_of(&map, ChunkCoord::new(0, 0, 0)).unwrap().last_change_at;

    map.set_tile(TileCoord::new(1, 0, 0), Some(Tile::new(2)));
    map.update_chunks(&mut cache);
    let m2 = chunk_of(&map, ChunkCoord::new(0, 0, 0)).unwrap().last_change_at;
    assert!(m2 > m1);

    map.clear();
    map.update_chunks(&mut cache);
    let m3 = chunk_of(&map, ChunkCoord::new(0, 0, 0)).unwrap().last_change_at;
    assert!(m3 > m2);
}

#[test]
fn untouched_chunks_keep_their_marker() {
    let mut map = TileMap::new(0, 0);
    let mut cache = TileMapCache::new();
    map.set_tile(TileCoord::new(0, 0, 0), Some(Tile::new(1)));
    map.set_tile(TileCoord::new(100, 0, 0), Some(Tile::new(2)));
    map.update_chunks(&mut cache);
    let before = chunk_of(&map, ChunkCoord::new(1, 0, 0)).unwrap().last_change_at;

    // Edit only chunk (0, 0, 0).
    map.set_tile(TileCoord::new(1, 1, 0), Some(Tile::new(3)));
    map.update_chunks(&mut cache);
    let after = chunk_of(&map, ChunkCoord::new(1, 0, 0)).unwrap().last_change_at;
    assert_eq!(before, after);
}

#[test]
fn marker_bumped_once_per_batch() {
    let mut map = TileMap::new(0, 0);
    let mut cache = TileMapCache::new();
    map.set_tiles(vec![
        (TileCoord::new(0, 0, 0), Some(Tile::new(1))),
        (TileCoord::new(1, 0, 0), Some(Tile::new(2))),
        (TileCoord::new(2, 0, 0), Some(Tile::new(3))),
    ]);
    map.update_chunks(&mut cache);
    // One update pass advances the counter by exactly one, however many
    // edits land in the batch.
    assert_eq!(map.change_counter, 1);
    assert_eq!(chunk_of(&map, ChunkCoord::new(0, 0, 0)).unwrap().last_change_at, 1);
}

#[test]
fn update_with_nothing_pending_is_a_no_op() {
    let mut map = TileMap::new(0, 0);
    let mut cache = TileMapCache::new();
    map.update_chunks(&mut cache);
    assert!(map.chunks.is_empty());
    assert_eq!(map.change_counter, 0);
}

#[test]
fn same_xy_on_different_layers_are_independent() {
    let mut map = TileMap::new(0, 0);
    let mut cache = TileMapCache::new();
    map.set_tile(TileCoord::new(5, 5, 0), Some(Tile::new(1)));
    map.set_tile(TileCoord::new(5, 5, 1), Some(Tile::new(2)));
    map.update_chunks(&mut cache);
    assert_eq!(map.chunks.len(), 2);
    assert_eq!(slot(&map, TileCoord::new(5, 5, 0)).unwrap().sprite_index, 1);
    assert_eq!(slot(&map, TileCoord::new(5, 5, 1)).unwrap().sprite_index, 2);
}
