use simple_tile_map::batch::{build_chunk_meta, pack_color, sort_batches, TilemapBatch};
use simple_tile_map::coords::{ChunkCoord, TileCoord};
use simple_tile_map::extract::{snapshot_chunk, AtlasLayout, AtlasRect};
use simple_tile_map::tile::{Tile, TileColor, TileFlags, FLIP_X, FLIP_Y};
use simple_tile_map::tilemap::{TileMap, TileMapCache};

fn atlas_16px(n: u32) -> AtlasLayout {
    let mut atlas = AtlasLayout::new();
    for i in 0..n {
        atlas.push_texture(AtlasRect::new(16 * i, 0, 16 * i + 16, 16));
    }
    atlas
}

fn mesh_for_tile(tile: Tile, pos: TileCoord) -> simple_tile_map::batch::ChunkMeta {
    let mut map = TileMap::new(0, 0);
    let mut cache = TileMapCache::new();
    map.set_tile(pos, Some(tile));
    map.update_chunks(&mut cache);
    let atlas = atlas_16px(4);
    let (_, chunk) = &map.chunks[0];
    let snap = snapshot_chunk(chunk, &atlas);
    build_chunk_meta(&snap, (16, 16), (64, 16))
}

#[test]
fn pack_color_packs_r_lowest() {
    assert_eq!(pack_color(TileColor::new(1, 2, 3, 4)), 0x0403_0201);
    assert_eq!(pack_color(TileColor::new(255, 255, 255, 255)), 0xffff_ffff);
    assert_eq!(pack_color(TileColor::new(0, 0, 0, 0)), 0);
}

#[test]
fn quad_has_six_vertices_with_fixed_winding() {
    let mesh = mesh_for_tile(Tile::new(1), TileCoord::new(2, 3, 7));
    assert_eq!(mesh.vertices.len(), 6);
    assert_eq!(mesh.tile_size, (16, 16));
    assert_eq!(mesh.texture_size, (64, 16));

    let v = &mesh.vertices;
    // All six vertices sit on the tile's layer.
    assert!(v.iter().all(|vx| vx.z == 7));
    // Corner order 0, 2, 3, 0, 1, 2: vertex 0 is the bottom-left corner,
    // vertex 1 the top-right corner.
    // Tile (2, 3) with 16-pixel sprites: doubled corner positions are
    // (2 * 2 +- 1) * 16 and (2 * 3 +- 1) * 16.
    assert_eq!((v[0].pos_x2, v[0].pos_y2), (48, 80));
    assert_eq!((v[1].pos_x2, v[1].pos_y2), (80, 112));
    assert_eq!((v[2].pos_x2, v[2].pos_y2), (48, 112));
    assert_eq!((v[3].pos_x2, v[3].pos_y2), (48, 80));
    assert_eq!((v[4].pos_x2, v[4].pos_y2), (80, 80));
    assert_eq!((v[5].pos_x2, v[5].pos_y2), (80, 112));
}

#[test]
fn unflipped_uvs_pick_atlas_corners() {
    // Sprite 1's rectangle is (16, 0)..(32, 16).
    let mesh = mesh_for_tile(Tile::new(1), TileCoord::new(0, 0, 0));
    let v = &mesh.vertices;
    // Vertex 0 = corner 0 (bottom-left): quad uv (0, 1) -> pixel (16, 16).
    assert_eq!((v[0].u, v[0].v), (16, 16));
    assert_eq!((v[0].tile_u, v[0].tile_v), (0, 1));
    // Vertex 1 = corner 2 (top-right): quad uv (1, 0) -> pixel (32, 0).
    assert_eq!((v[1].u, v[1].v), (32, 0));
    assert_eq!((v[1].tile_u, v[1].tile_v), (1, 0));
}

#[test]
fn flip_x_mirrors_u_only() {
    let mut plain = Tile::new(1);
    plain.flags = TileFlags::empty();
    let mut flipped = Tile::new(1);
    flipped.flags = TileFlags::from_bits(FLIP_X);
    let mesh_p = mesh_for_tile(plain, TileCoord::new(0, 0, 0));
    let mesh_f = mesh_for_tile(flipped, TileCoord::new(0, 0, 0));
    for j in 0..6 {
        assert_eq!(mesh_f.vertices[j].tile_u, 1 - mesh_p.vertices[j].tile_u);
        assert_eq!(mesh_f.vertices[j].tile_v, mesh_p.vertices[j].tile_v);
    }
}

#[test]
fn flip_y_mirrors_v_only() {
    let plain = Tile::new(1);
    let mut flipped = Tile::new(1);
    flipped.flags = TileFlags::from_bits(FLIP_Y);
    let mesh_p = mesh_for_tile(plain, TileCoord::new(0, 0, 0));
    let mesh_f = mesh_for_tile(flipped, TileCoord::new(0, 0, 0));
    for j in 0..6 {
        assert_eq!(mesh_f.vertices[j].tile_u, mesh_p.vertices[j].tile_u);
        assert_eq!(mesh_f.vertices[j].tile_v, 1 - mesh_p.vertices[j].tile_v);
    }
}

#[test]
fn both_flips_compose_independently_in_either_order() {
    // A tile with both flags equals flip-x applied to the flip-y result,
    // and equally flip-y applied to the flip-x result.
    let mut both = Tile::new(1);
    both.flags = TileFlags::from_bits(FLIP_X | FLIP_Y);
    let mut x_only = Tile::new(1);
    x_only.flags = TileFlags::from_bits(FLIP_X);
    let mut y_only = Tile::new(1);
    y_only.flags = TileFlags::from_bits(FLIP_Y);

    let mesh_b = mesh_for_tile(both, TileCoord::new(0, 0, 0));
    let mesh_x = mesh_for_tile(x_only, TileCoord::new(0, 0, 0));
    let mesh_y = mesh_for_tile(y_only, TileCoord::new(0, 0, 0));
    for j in 0..6 {
        // Applying flip-x on top of the y-flipped quad...
        assert_eq!(mesh_b.vertices[j].tile_u, 1 - mesh_y.vertices[j].tile_u);
        assert_eq!(mesh_b.vertices[j].tile_v, mesh_y.vertices[j].tile_v);
        // ...equals applying flip-y on top of the x-flipped quad.
        assert_eq!(mesh_b.vertices[j].tile_u, mesh_x.vertices[j].tile_u);
        assert_eq!(mesh_b.vertices[j].tile_v, 1 - mesh_x.vertices[j].tile_v);
    }
}

#[test]
fn empty_snapshot_builds_empty_mesh() {
    let mut map = TileMap::new(0, 0);
    let mut cache = TileMapCache::new();
    map.set_tile(TileCoord::new(0, 0, 0), None);
    map.update_chunks(&mut cache);
    let atlas = atlas_16px(1);
    let (_, chunk) = &map.chunks[0];
    let snap = snapshot_chunk(chunk, &atlas);
    let mesh = build_chunk_meta(&snap, (16, 16), (16, 16));
    assert!(mesh.vertices.is_empty());
}

fn batch(z: i32, image: u64) -> TilemapBatch {
    TilemapBatch {
        image_handle_id: image,
        map_id: 0,
        chunk_pos: ChunkCoord::new(0, 0, z),
        range_start: 0,
        range_end: 0,
    }
}

#[test]
fn batches_sort_by_layer_then_image() {
    let mut batches = vec![batch(1, 5), batch(0, 9), batch(1, 2), batch(0, 1)];
    sort_batches(&mut batches);
    let keys: Vec<(i32, u64)> =
        batches.iter().map(|b| (b.chunk_pos.z, b.image_handle_id)).collect();
    assert_eq!(keys, vec![(0, 1), (0, 9), (1, 2), (1, 5)]);
}

#[test]
fn sort_is_a_permutation() {
    let mut batches = vec![batch(3, 3), batch(3, 3), batch(-1, 0)];
    sort_batches(&mut batches);
    let keys: Vec<(i32, u64)> =
        batches.iter().map(|b| (b.chunk_pos.z, b.image_handle_id)).collect();
    assert_eq!(keys, vec![(-1, 0), (3, 3), (3, 3)]);
}
