use simple_tile_map::coords::{
    calc_chunk_origin, calc_chunk_pos, row_major_index, row_major_pos, ChunkCoord, TileCoord,
    CHUNK_HEIGHT, CHUNK_WIDTH, TILES_PER_CHUNK,
};

#[test]
fn chunk_dimensions() {
    assert_eq!(CHUNK_WIDTH, 64);
    assert_eq!(CHUNK_HEIGHT, 64);
    assert_eq!(TILES_PER_CHUNK, 4096);
}

#[test]
fn chunk_pos_positive() {
    assert_eq!(calc_chunk_pos(TileCoord::new(0, 0, 0)), ChunkCoord::new(0, 0, 0));
    assert_eq!(calc_chunk_pos(TileCoord::new(63, 63, 5)), ChunkCoord::new(0, 0, 5));
    assert_eq!(calc_chunk_pos(TileCoord::new(64, 128, -3)), ChunkCoord::new(1, 2, -3));
}

#[test]
fn chunk_pos_negative_uses_floor_division() {
    // Tile (-1, -1, 0) lands in chunk (-1, -1, 0), not (0, 0, 0).
    assert_eq!(calc_chunk_pos(TileCoord::new(-1, -1, 0)), ChunkCoord::new(-1, -1, 0));
    assert_eq!(calc_chunk_pos(TileCoord::new(-64, -64, 0)), ChunkCoord::new(-1, -1, 0));
    assert_eq!(calc_chunk_pos(TileCoord::new(-65, -129, 0)), ChunkCoord::new(-2, -3, 0));
}

#[test]
fn chunk_pos_extremes() {
    assert_eq!(
        calc_chunk_pos(TileCoord::new(i32::MIN, i32::MAX, 7)),
        ChunkCoord::new(-33554432, 33554431, 7)
    );
}

#[test]
fn chunk_origin_is_minimum_corner() {
    assert_eq!(calc_chunk_origin(ChunkCoord::new(0, 0, 0)), TileCoord::new(0, 0, 0));
    assert_eq!(calc_chunk_origin(ChunkCoord::new(-1, 2, 9)), TileCoord::new(-64, 128, 9));
    assert_eq!(calc_chunk_origin(ChunkCoord::new(-2, 0, 0)), TileCoord::new(-128, 0, 0));
}

#[test]
fn insert_far_negative_tile_chunk_and_index() {
    // A tile at (-65, 0, 0) with 64x64 chunks: chunk (-2, 0, 0), whose
    // origin is -128, so the local index is (-65 - (-128)) + 0 * 64 = 63.
    let tile = TileCoord::new(-65, 0, 0);
    let chunk = calc_chunk_pos(tile);
    assert_eq!(chunk, ChunkCoord::new(-2, 0, 0));
    let origin = calc_chunk_origin(chunk);
    assert_eq!(origin, TileCoord::new(-128, 0, 0));
    let index = row_major_index(tile.x - origin.x, tile.y - origin.y);
    assert_eq!(index, 63);
}

#[test]
fn row_major_round_trip() {
    // chunk_origin(chunk_coord_of(t)) plus the position recovered from the
    // local index gives back t.
    for &(x, y, z) in &[(0, 0, 0), (-1, -1, 0), (-65, 0, 0), (1000, -2000, 3), (63, 64, -1)] {
        let t = TileCoord::new(x, y, z);
        let c = calc_chunk_pos(t);
        let o = calc_chunk_origin(c);
        let index = row_major_index(t.x - o.x, t.y - o.y);
        let (lx, ly) = row_major_pos(index);
        assert_eq!(o.x + lx, t.x);
        assert_eq!(o.y + ly, t.y);
        assert_eq!(o.z, t.z);
    }
}

#[test]
fn row_major_index_and_pos() {
    assert_eq!(row_major_index(0, 0), 0);
    assert_eq!(row_major_index(63, 0), 63);
    assert_eq!(row_major_index(0, 1), 64);
    assert_eq!(row_major_index(63, 63), 4095);
    assert_eq!(row_major_pos(0), (0, 0));
    assert_eq!(row_major_pos(63), (63, 0));
    assert_eq!(row_major_pos(64), (0, 1));
    assert_eq!(row_major_pos(4095), (63, 63));
}
