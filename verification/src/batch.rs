//! Quad and batch building: turning chunk snapshots into vertex data, and
//! ordering draw batches for correct transparency with minimal texture
//! switches.
//!
//! Each occupied tile becomes one quad, emitted as six vertices (two
//! triangles, fixed winding). Vertex positions are in half-pixel units:
//! `pos_x2`/`pos_y2` hold twice the world-space position, which keeps the
//! half-tile corner offsets exact in integers. Texture coordinates are in
//! atlas pixels (`u`/`v`); the raw quad coordinates after flipping are in
//! `tile_u`/`tile_v`. The consumer divides by two, respectively by the
//! texture size, when it uploads.

use vstd::prelude::*;
use vstd::seq_lib::{group_to_multiset_ensures, to_multiset_build, to_multiset_remove};

use crate::coords::ChunkCoord;
use crate::extract::{ExtractedChunk, ExtractedTile};
use crate::tile::{TileColor, TileFlags};

verus! {

/// One vertex of a tile quad.
#[derive(Clone, Copy, Debug, PartialEq, Eq, Structural)]
pub struct TilemapVertex {
    /// Twice the world-space x position, in pixels.
    pub pos_x2: i64,
    /// Twice the world-space y position, in pixels.
    pub pos_y2: i64,
    /// The layer the vertex lives on.
    pub z: i32,
    /// Atlas texture coordinate, in pixels.
    pub u: u32,
    pub v: u32,
    /// Raw quad coordinate after flipping, 0 or 1 per axis.
    pub tile_u: u8,
    pub tile_v: u8,
    /// Color tint packed as `r | g << 8 | b << 16 | a << 24`.
    pub color: u32,
}

/// The vertex data and uniform payload built for one chunk, ready for the
/// rendering collaborator to upload and bind.
#[derive(Debug)]
pub struct ChunkMeta {
    pub vertices: Vec<TilemapVertex>,
    pub tile_size: (u32, u32),
    pub texture_size: (u32, u32),
}

impl Default for ChunkMeta {
    fn default() -> (r: ChunkMeta)
        ensures
            r.vertices@.len() == 0,
            r.tile_size == (0u32, 0u32),
            r.texture_size == (0u32, 0u32),
    {
        ChunkMeta { vertices: Vec::new(), tile_size: (0, 0), texture_size: (0, 0) }
    }
}

/// Corner order of a quad: 0 bottom-left, 1 bottom-right, 2 top-right,
/// 3 top-left (y growing upward). Texture v runs downward, so corners 0
/// and 1 carry v = 1.
pub open spec fn spec_base_u(k: int) -> int {
    if k == 1 || k == 2 {
        1
    } else {
        0
    }
}

pub open spec fn spec_base_v(k: int) -> int {
    if k == 0 || k == 1 {
        1
    } else {
        0
    }
}

/// The unflipped quad texture coordinates of corner `k`.
pub open spec fn spec_base_uv(k: int) -> (int, int) {
    (spec_base_u(k), spec_base_v(k))
}

/// The corner permutation of a horizontal flip: swap left and right.
pub open spec fn spec_flip_x_perm(k: int) -> int {
    if k == 0 {
        1
    } else if k == 1 {
        0
    } else if k == 2 {
        3
    } else {
        2
    }
}

/// The corner permutation of a vertical flip: swap top and bottom.
pub open spec fn spec_flip_y_perm(k: int) -> int {
    if k == 0 {
        3
    } else if k == 1 {
        2
    } else if k == 2 {
        1
    } else {
        0
    }
}

/// The quad texture coordinates of corner `k` with the tile's flip flags
/// applied, as corner permutations: first the horizontal swap, then the
/// vertical swap.
pub open spec fn spec_tile_uv(flags: TileFlags, k: int) -> (int, int) {
    let k1 = if flags.spec_flips_y() {
        spec_flip_y_perm(k)
    } else {
        k
    };
    let k2 = if flags.spec_flips_x() {
        spec_flip_x_perm(k1)
    } else {
        k1
    };
    spec_base_uv(k2)
}

/// Mirroring a texture coordinate horizontally: `u` becomes `1 - u`.
pub open spec fn spec_flip_u(uv: (int, int)) -> (int, int) {
    (1 - uv.0, uv.1)
}

/// Mirroring a texture coordinate vertically: `v` becomes `1 - v`.
pub open spec fn spec_flip_v(uv: (int, int)) -> (int, int) {
    (uv.0, 1 - uv.1)
}

/// Each flip flag acts on the quad texture coordinates as an independent
/// mirroring of its own axis: the corner permutations compose to exactly
/// the two mirrorings, whatever combination of flags is set.
pub proof fn lemma_tile_uv_flips(flags: TileFlags, k: int)
    requires
        0 <= k < 4,
    ensures
        spec_tile_uv(flags, k) == ({
            let uv = spec_base_uv(k);
            let uv_x = if flags.spec_flips_x() {
                spec_flip_u(uv)
            } else {
                uv
            };
            if flags.spec_flips_y() {
                spec_flip_v(uv_x)
            } else {
                uv_x
            }
        }),
{
}

/// Flip composition: with both flags set, the corner texture coordinates
/// equal the horizontal mirroring applied to the vertically mirrored quad,
/// and equally the vertical mirroring applied to the horizontally mirrored
/// quad -- the two flips compose independently, in either order.
pub proof fn lemma_flip_composition(flags: TileFlags, k: int)
    requires
        0 <= k < 4,
        flags.spec_flips_x(),
        flags.spec_flips_y(),
    ensures
        spec_tile_uv(flags, k) == spec_flip_u(spec_flip_v(spec_base_uv(k))),
        spec_tile_uv(flags, k) == spec_flip_v(spec_flip_u(spec_base_uv(k))),
{
}

/// The tint packed into one 32-bit word, `r` in the lowest byte.
pub open spec fn spec_pack_color(c: TileColor) -> u32 {
    (c.r as u32) | ((c.g as u32) << 8) | ((c.b as u32) << 16) | ((c.a as u32) << 24)
}

/// Pack a color tint into one 32-bit word.
pub fn pack_color(c: TileColor) -> (r: u32)
    ensures
        r == spec_pack_color(c),
{
    (c.r as u32) | ((c.g as u32) << 8) | ((c.b as u32) << 16) | ((c.a as u32) << 24)
}

/// The corner of the quad that vertex `j` of the two triangles uses; the
/// winding `0, 2, 3, 0, 1, 2` is fixed so face culling is consistent.
pub open spec fn spec_quad_index(j: int) -> int {
    if j == 0 || j == 3 {
        0
    } else if j == 4 {
        1
    } else if j == 1 || j == 5 {
        2
    } else {
        3
    }
}

/// Which side of the quad's center corner `k` lies on, per axis: -1 or 1.
pub open spec fn spec_corner_dx(k: int) -> int {
    if k == 1 || k == 2 {
        1
    } else {
        -1
    }
}

pub open spec fn spec_corner_dy(k: int) -> int {
    if k == 2 || k == 3 {
        1
    } else {
        -1
    }
}

/// The vertex at corner `k` of a tile's quad. The quad is one sprite
/// large, centered on the tile's grid cell: corner position (doubled) is
/// `(2 * tile_pos + corner_sign) * sprite_size`. Texture coordinates pick
/// the flipped corner of the tile's atlas rectangle.
pub open spec fn spec_corner_vertex(tile: ExtractedTile, z: i32, k: int) -> TilemapVertex {
    let w = tile.rect.max_x - tile.rect.min_x;
    let h = tile.rect.max_y - tile.rect.min_y;
    let uv = spec_tile_uv(tile.flags, k);
    TilemapVertex {
        pos_x2: ((2 * tile.x + spec_corner_dx(k)) * w) as i64,
        pos_y2: ((2 * tile.y + spec_corner_dy(k)) * h) as i64,
        z,
        u: (tile.rect.min_x + uv.0 * w) as u32,
        v: (tile.rect.min_y + uv.1 * h) as u32,
        tile_u: uv.0 as u8,
        tile_v: uv.1 as u8,
        color: spec_pack_color(tile.color),
    }
}

/// The `j`-th of the six vertices emitted for a tile's quad.
pub open spec fn spec_quad_vertex(tile: ExtractedTile, z: i32, j: int) -> TilemapVertex {
    spec_corner_vertex(tile, z, spec_quad_index(j))
}

/// Every tile of a snapshot carries a well-formed atlas rectangle.
pub open spec fn snapshot_rects_wf(chunk: ExtractedChunk) -> bool {
    forall|i: int| 0 <= i < chunk.tiles@.len() ==> (#[trigger] chunk.tiles@[i]).rect.wf()
}

/// Build the vertex at corner `k` of a tile's quad.
fn corner_vertex(tile: &ExtractedTile, z: i32, k: usize) -> (r: TilemapVertex)
    requires
        tile.rect.wf(),
        k < 4,
    ensures
        r == spec_corner_vertex(*tile, z, k as int),
{
    let w = tile.rect.max_x - tile.rect.min_x;
    let h = tile.rect.max_y - tile.rect.min_y;
    let dx: i64 = if k == 1 || k == 2 {
        1
    } else {
        -1
    };
    let dy: i64 = if k == 2 || k == 3 {
        1
    } else {
        -1
    };
    let flags = tile.flags;
    let k1: usize = if flags.flips_y() {
        3 - k
    } else {
        k
    };
    let k2: usize = if flags.flips_x() {
        if k1 == 0 {
            1
        } else if k1 == 1 {
            0
        } else if k1 == 2 {
            3
        } else {
            2
        }
    } else {
        k1
    };
    let tu: u32 = if k2 == 1 || k2 == 2 {
        1
    } else {
        0
    };
    let tv: u32 = if k2 == 0 || k2 == 1 {
        1
    } else {
        0
    };
    proof {
        assert((2 * tile.x + dx as int) * w as int <= 0x2_0000_0000_0000 && (2 * tile.x
            + dx as int) * w as int >= -0x2_0000_0000_0000) by (nonlinear_arith)
            requires
                -0x1_0000_0001 <= 2 * tile.x + dx as int <= 0x1_0000_0001,
                0 <= w as int <= 0x1_0000,
        ;
        assert((2 * tile.y + dy as int) * h as int <= 0x2_0000_0000_0000 && (2 * tile.y
            + dy as int) * h as int >= -0x2_0000_0000_0000) by (nonlinear_arith)
            requires
                -0x1_0000_0001 <= 2 * tile.y + dy as int <= 0x1_0000_0001,
                0 <= h as int <= 0x1_0000,
        ;
    }
    let pos_x2: i64 = (2 * (tile.x as i64) + dx) * (w as i64);
    let pos_y2: i64 = (2 * (tile.y as i64) + dy) * (h as i64);
    TilemapVertex {
        pos_x2,
        pos_y2,
        z,
        u: tile.rect.min_x + tu * w,
        v: tile.rect.min_y + tv * h,
        tile_u: tu as u8,
        tile_v: tv as u8,
        color: pack_color(tile.color),
    }
}

/// Build the vertex data for one chunk snapshot: six vertices per occupied
/// tile, in snapshot order, with the fixed quad winding. Per-chunk work is
/// independent of every other chunk, so a host may fan these calls out
/// across workers.
pub fn build_chunk_meta(chunk: &ExtractedChunk, tile_size: (u32, u32), texture_size: (u32, u32))
    -> (r: ChunkMeta)
    requires
        snapshot_rects_wf(*chunk),
    ensures
        r.tile_size == tile_size,
        r.texture_size == texture_size,
        r.vertices@.len() == 6 * chunk.tiles@.len(),
        forall|i: int, j: int|
            0 <= i < chunk.tiles@.len() && 0 <= j < 6 ==> #[trigger] r.vertices@[6 * i + j]
                == spec_quad_vertex(chunk.tiles@[i], chunk.origin.z, j),
{
    let z = chunk.origin.z;
    let mut vertices: Vec<TilemapVertex> = Vec::new();
    let mut i: usize = 0;
    while i < chunk.tiles.len()
        invariant
            i <= chunk.tiles@.len(),
            snapshot_rects_wf(*chunk),
            z == chunk.origin.z,
            vertices@.len() == 6 * i,
            forall|i2: int, j: int|
                0 <= i2 < i && 0 <= j < 6 ==> #[trigger] vertices@[6 * i2 + j]
                    == spec_quad_vertex(chunk.tiles@[i2], chunk.origin.z, j),
        decreases chunk.tiles@.len() - i,
    {
        let tile = chunk.tiles[i];
        let mut j: usize = 0;
        while j < 6
            invariant
                j <= 6,
                i < chunk.tiles@.len(),
                tile == chunk.tiles@[i as int],
                tile.rect.wf(),
                snapshot_rects_wf(*chunk),
                z == chunk.origin.z,
                vertices@.len() == 6 * i + j,
                forall|i2: int, j2: int|
                    0 <= i2 < i && 0 <= j2 < 6 ==> #[trigger] vertices@[6 * i2 + j2]
                        == spec_quad_vertex(chunk.tiles@[i2], chunk.origin.z, j2),
                forall|j2: int|
                    0 <= j2 < j ==> #[trigger] vertices@[6 * (i as int) + j2]
                        == spec_quad_vertex(chunk.tiles@[i as int], chunk.origin.z, j2),
            decreases 6 - j,
        {
            let k: usize = if j == 0 || j == 3 {
                0
            } else if j == 4 {
                1
            } else if j == 1 || j == 5 {
                2
            } else {
                3
            };
            let vtx = corner_vertex(&tile, z, k);
            vertices.push(vtx);
            j = j + 1;
        }
        i = i + 1;
    }
    ChunkMeta { vertices, tile_size, texture_size }
}

/// One draw batch: the key under which one chunk's quad data is drawn,
/// and its range in the shared vertex buffer.
#[derive(Clone, Copy, Debug, PartialEq, Eq, Structural)]
pub struct TilemapBatch {
    pub image_handle_id: u64,
    pub map_id: u64,
    pub chunk_pos: ChunkCoord,
    pub range_start: u32,
    pub range_end: u32,
}

/// Draw order of two batches: lower layers draw first, so transparency
/// composes back to front; within one layer batches are ordered by image
/// identity, making batches with the same image adjacent to minimize
/// texture switches, and breaking layer ties stably.
pub open spec fn spec_batch_le(a: TilemapBatch, b: TilemapBatch) -> bool {
    ||| a.chunk_pos.z < b.chunk_pos.z
    ||| (a.chunk_pos.z == b.chunk_pos.z && a.image_handle_id <= b.image_handle_id)
}

fn batch_le(a: &TilemapBatch, b: &TilemapBatch) -> (r: bool)
    ensures
        r == spec_batch_le(*a, *b),
{
    a.chunk_pos.z < b.chunk_pos.z || (a.chunk_pos.z == b.chunk_pos.z && a.image_handle_id
        <= b.image_handle_id)
}

/// Sort draw batches into draw order ([`spec_batch_le`]): a permutation of
/// the input, ordered by layer and then image identity.
pub fn sort_batches(batches: &mut Vec<TilemapBatch>)
    ensures
        final(batches)@.len() == old(batches)@.len(),
        forall|i: int, j: int|
            0 <= i <= j < final(batches)@.len() ==> spec_batch_le(
                #[trigger] final(batches)@[i],
                #[trigger] final(batches)@[j],
            ),
        final(batches)@.to_multiset() == old(batches)@.to_multiset(),
{
    broadcast use group_to_multiset_ensures;

    let mut rem: Vec<TilemapBatch> = Vec::new();
    std::mem::swap(&mut rem, batches);
    let ghost orig = rem@;
    let mut out: Vec<TilemapBatch> = Vec::new();
    proof {
        assert(out@.to_multiset().add(rem@.to_multiset()) =~= orig.to_multiset());
    }
    while rem.len() > 0
        invariant
            out@.to_multiset().add(rem@.to_multiset()) == orig.to_multiset(),
            out@.len() + rem@.len() == orig.len(),
            forall|i: int, j: int|
                0 <= i <= j < out@.len() ==> spec_batch_le(
                    #[trigger] out@[i],
                    #[trigger] out@[j],
                ),
            forall|i: int, k: int|
                0 <= i < out@.len() && 0 <= k < rem@.len() ==> spec_batch_le(
                    #[trigger] out@[i],
                    #[trigger] rem@[k],
                ),
        decreases rem@.len(),
    {
        let mut mi: usize = 0;
        let mut k: usize = 1;
        while k < rem.len()
            invariant
                mi < k <= rem@.len(),
                forall|k2: int|
                    0 <= k2 < k ==> spec_batch_le(rem@[mi as int], #[trigger] rem@[k2]),
            decreases rem@.len() - k,
        {
            if batch_le(&rem[k], &rem[mi]) {
                mi = k;
            }
            k = k + 1;
        }
        let ghost out0 = out@;
        let ghost rem0 = rem@;
        let x = rem.remove(mi);
        out.push(x);
        proof {
            broadcast use vstd::multiset::group_multiset_axioms;

            assert(x == rem0[mi as int]);
            assert(rem0.contains(x));
            assert(rem@ == rem0.remove(mi as int));
            assert(out@ == out0.push(x));
            to_multiset_remove(rem0, mi as int);
            to_multiset_build(out0, x);
            rem0.to_multiset_ensures();
            assert(rem0.to_multiset().count(x) > 0);
            assert(rem0.remove(mi as int).to_multiset() == rem0.to_multiset().remove(x));
            assert(out0.push(x).to_multiset() =~= out0.to_multiset().insert(x));
            assert(out@.to_multiset().add(rem@.to_multiset()) =~= orig.to_multiset());
            assert forall|i: int, k2: int|
                0 <= i < out@.len() && 0 <= k2 < rem@.len() implies spec_batch_le(
                #[trigger] out@[i],
                #[trigger] rem@[k2],
            ) by {
                if i < out0.len() {
                    if k2 < mi {
                        assert(rem@[k2] == rem0[k2]);
                    } else {
                        assert(rem@[k2] == rem0[k2 + 1]);
                    }
                } else {
                    assert(out@[i] == x);
                    if k2 < mi {
                        assert(rem@[k2] == rem0[k2]);
                        assert(spec_batch_le(rem0[mi as int], rem0[k2]));
                    } else {
                        assert(rem@[k2] == rem0[k2 + 1]);
                        assert(spec_batch_le(rem0[mi as int], rem0[k2 + 1]));
                    }
                }
            }
        }
    }
    *batches = out;
}

} // verus!
