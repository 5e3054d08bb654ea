//! Coordinate math: mapping tile coordinates to chunk coordinates, chunk
//! origins and row-major in-chunk indices, and back.
//!
//! Chunks are a fixed 64x64 tiles. A tile coordinate is mapped to its chunk
//! by Euclidean floor division, so negative coordinates land in negative
//! chunks rather than being truncated toward chunk `(0, 0)`.

use vstd::prelude::*;
use vstd::arithmetic::div_mod::{
    lemma_fundamental_div_mod, lemma_fundamental_div_mod_converse, lemma_mod_bound,
};

verus! {

/// Width of a chunk, in tiles.
pub const CHUNK_WIDTH: u32 = 64;

/// Height of a chunk, in tiles.
pub const CHUNK_HEIGHT: u32 = 64;

/// Number of tile slots in one chunk (`CHUNK_WIDTH * CHUNK_HEIGHT`).
pub const TILES_PER_CHUNK: usize = 4096;

/// Address of a single tile: grid position `(x, y)` plus the layer `z` it
/// lives on. The same `(x, y)` on different layers are independent tiles.
#[derive(Clone, Copy, Debug, Hash, PartialEq, Eq, Structural)]
pub struct TileCoord {
    pub x: i32,
    pub y: i32,
    pub z: i32,
}

/// Address of a chunk: the chunk grid position `(x, y)` plus the layer `z`.
#[derive(Clone, Copy, Debug, Hash, PartialEq, Eq, Structural)]
pub struct ChunkCoord {
    pub x: i32,
    pub y: i32,
    pub z: i32,
}

impl TileCoord {
    pub fn new(x: i32, y: i32, z: i32) -> (r: TileCoord)
        ensures
            r == (TileCoord { x, y, z }),
    {
        TileCoord { x, y, z }
    }
}

impl ChunkCoord {
    pub fn new(x: i32, y: i32, z: i32) -> (r: ChunkCoord)
        ensures
            r == (ChunkCoord { x, y, z }),
    {
        ChunkCoord { x, y, z }
    }
}

/// The chunk holding a tile: Euclidean floor division of the grid position
/// by the chunk dimensions; the layer is carried through unchanged.
pub open spec fn spec_chunk_pos(tile_pos: TileCoord) -> ChunkCoord {
    ChunkCoord {
        x: (tile_pos.x as int / CHUNK_WIDTH as int) as i32,
        y: (tile_pos.y as int / CHUNK_HEIGHT as int) as i32,
        z: tile_pos.z,
    }
}

/// The minimum corner of a chunk, in tile coordinates.
pub open spec fn spec_chunk_origin(chunk_pos: ChunkCoord) -> TileCoord {
    TileCoord {
        x: (chunk_pos.x * CHUNK_WIDTH as int) as i32,
        y: (chunk_pos.y * CHUNK_HEIGHT as int) as i32,
        z: chunk_pos.z,
    }
}

/// Whether a chunk coordinate is the image of some tile coordinate, which
/// bounds its origin to the `i32` range.
pub open spec fn chunk_pos_in_range(chunk_pos: ChunkCoord) -> bool {
    &&& i32::MIN <= chunk_pos.x * CHUNK_WIDTH as int
    &&& chunk_pos.x * CHUNK_WIDTH as int <= i32::MAX
    &&& i32::MIN <= chunk_pos.y * CHUNK_HEIGHT as int
    &&& chunk_pos.y * CHUNK_HEIGHT as int <= i32::MAX
}

/// Row-major index of a local position inside a chunk: `x + y * 64`,
/// with the chunk height as the stride.
pub open spec fn spec_row_major_index(x: int, y: int) -> int {
    x + y * CHUNK_HEIGHT as int
}

/// Local offset of a tile within the chunk that holds it.
pub open spec fn spec_local_index(tile_pos: TileCoord) -> int {
    spec_row_major_index(
        tile_pos.x - spec_chunk_origin(spec_chunk_pos(tile_pos)).x,
        tile_pos.y - spec_chunk_origin(spec_chunk_pos(tile_pos)).y,
    )
}

/// Calculate chunk position based on tile position.
pub fn calc_chunk_pos(tile_pos: TileCoord) -> (r: ChunkCoord)
    ensures
        r == spec_chunk_pos(tile_pos),
{
    proof {
        lemma_div_64_fits_i32(tile_pos.x as int);
        lemma_div_64_fits_i32(tile_pos.y as int);
    }
    let qx = tile_pos.x.checked_div_euclid(64).unwrap();
    let qy = tile_pos.y.checked_div_euclid(64).unwrap();
    ChunkCoord { x: qx, y: qy, z: tile_pos.z }
}

/// Calculate chunk origin (minimum corner of the chunk) in tile coordinates.
pub fn calc_chunk_origin(chunk_pos: ChunkCoord) -> (r: TileCoord)
    requires
        chunk_pos_in_range(chunk_pos),
    ensures
        r == spec_chunk_origin(chunk_pos),
        r.x == chunk_pos.x * CHUNK_WIDTH as int,
        r.y == chunk_pos.y * CHUNK_HEIGHT as int,
        r.z == chunk_pos.z,
{
    TileCoord { x: chunk_pos.x * 64, y: chunk_pos.y * 64, z: chunk_pos.z }
}

/// Calculate the row-major index of a local tile position.
pub fn row_major_index(x: i32, y: i32) -> (r: usize)
    requires
        0 <= x < CHUNK_WIDTH,
        0 <= y < CHUNK_HEIGHT,
    ensures
        r == spec_row_major_index(x as int, y as int),
        r < TILES_PER_CHUNK,
{
    (x + y * 64) as usize
}

/// Calculate the local tile position `(x, y)` from a row-major index.
pub fn row_major_pos(index: usize) -> (r: (i32, i32))
    requires
        index < TILES_PER_CHUNK,
    ensures
        r.0 == index as int % CHUNK_WIDTH as int,
        r.1 == index as int / CHUNK_WIDTH as int,
        0 <= r.0 < CHUNK_WIDTH,
        0 <= r.1 < CHUNK_HEIGHT,
        spec_row_major_index(r.0 as int, r.1 as int) == index,
{
    let y = index / 64;
    let x = index - y * 64;
    proof {
        lemma_fundamental_div_mod(index as int, 64);
        lemma_mod_bound(index as int, 64);
    }
    (x as i32, y as i32)
}

/// The Euclidean quotient of any `i32` by 64 itself fits in `i32`.
proof fn lemma_div_64_fits_i32(x: int)
    requires
        i32::MIN <= x <= i32::MAX,
    ensures
        i32::MIN <= x / 64 <= i32::MAX,
{
    lemma_fundamental_div_mod(x, 64);
    lemma_mod_bound(x, 64);
}

/// A tile's local offset within its chunk is a valid row-major index, and
/// the local x/y parts are the tile position relative to the chunk origin.
pub proof fn lemma_local_index_bounds(tile_pos: TileCoord)
    ensures
        chunk_pos_in_range(spec_chunk_pos(tile_pos)),
        0 <= tile_pos.x - spec_chunk_origin(spec_chunk_pos(tile_pos)).x < CHUNK_WIDTH,
        0 <= tile_pos.y - spec_chunk_origin(spec_chunk_pos(tile_pos)).y < CHUNK_HEIGHT,
        0 <= spec_local_index(tile_pos) < TILES_PER_CHUNK,
{
    lemma_fundamental_div_mod(tile_pos.x as int, 64);
    lemma_mod_bound(tile_pos.x as int, 64);
    lemma_fundamental_div_mod(tile_pos.y as int, 64);
    lemma_mod_bound(tile_pos.y as int, 64);
    lemma_div_64_fits_i32(tile_pos.x as int);
    lemma_div_64_fits_i32(tile_pos.y as int);
}

/// Round trip: the chunk origin plus the local position recovered from the
/// local index is the original tile coordinate.
pub proof fn lemma_coord_round_trip(tile_pos: TileCoord)
    ensures
        ({
            let origin = spec_chunk_origin(spec_chunk_pos(tile_pos));
            let index = spec_local_index(tile_pos);
            &&& 0 <= index < TILES_PER_CHUNK
            &&& origin.x + index % CHUNK_WIDTH as int == tile_pos.x
            &&& origin.y + index / CHUNK_WIDTH as int == tile_pos.y
            &&& origin.z == tile_pos.z
        }),
{
    lemma_local_index_bounds(tile_pos);
    let origin = spec_chunk_origin(spec_chunk_pos(tile_pos));
    let lx = tile_pos.x - origin.x;
    let ly = tile_pos.y - origin.y;
    let index = spec_local_index(tile_pos);
    lemma_fundamental_div_mod_converse(index, 64, ly, lx);
}

/// An origin sits on the chunk grid: both components are multiples of the
/// chunk dimensions.
pub open spec fn origin_aligned(o: TileCoord) -> bool {
    &&& o.x as int % CHUNK_WIDTH as int == 0
    &&& o.y as int % CHUNK_HEIGHT as int == 0
}

/// A chunk-aligned origin leaves room for every local offset: adding any
/// local position to it stays inside `i32`.
pub proof fn lemma_aligned_origin_bounds(o: TileCoord)
    requires
        origin_aligned(o),
    ensures
        o.x + CHUNK_WIDTH - 1 <= i32::MAX,
        o.y + CHUNK_HEIGHT - 1 <= i32::MAX,
{
    lemma_fundamental_div_mod(o.x as int, 64);
    lemma_fundamental_div_mod(o.y as int, 64);
    lemma_div_64_fits_i32(o.x as int);
    lemma_div_64_fits_i32(o.y as int);
    assert(o.x as int == 64 * (o.x as int / 64));
    assert(o.y as int == 64 * (o.y as int / 64));
    assert(o.x as int / 64 <= 33554431) by {
        if o.x as int / 64 > 33554431 {
            assert(64 * (o.x as int / 64) >= 64 * 33554432);
        }
    }
    assert(o.y as int / 64 <= 33554431) by {
        if o.y as int / 64 > 33554431 {
            assert(64 * (o.y as int / 64) >= 64 * 33554432);
        }
    }
}

/// Distinct tiles of one chunk have distinct local indices.
pub proof fn lemma_local_index_injective(a: TileCoord, b: TileCoord)
    requires
        spec_chunk_pos(a) == spec_chunk_pos(b),
        a != b,
    ensures
        spec_local_index(a) != spec_local_index(b),
{
    lemma_coord_round_trip(a);
    lemma_coord_round_trip(b);
}

/// Euclidean floor division maps every tile of a chunk-aligned 64x64 block
/// to the same chunk; in particular tile x = -1 lands in chunk x = -1.
pub proof fn lemma_chunk_pos_of_origin(chunk_pos: ChunkCoord)
    requires
        chunk_pos_in_range(chunk_pos),
    ensures
        spec_chunk_pos(spec_chunk_origin(chunk_pos)) == chunk_pos,
{
    let origin = spec_chunk_origin(chunk_pos);
    lemma_fundamental_div_mod_converse(origin.x as int, 64, chunk_pos.x as int, 0);
    lemma_fundamental_div_mod_converse(origin.y as int, 64, chunk_pos.y as int, 0);
}

} // verus!
