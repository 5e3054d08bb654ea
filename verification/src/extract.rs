//! Extraction and diffing: snapshotting the live tiles of changed, visible
//! chunks, and the cache of change markers that lets unchanged chunks be
//! skipped.

use vstd::prelude::*;

use crate::chunk::Chunk;
use crate::coords::{
    chunk_pos_in_range, lemma_aligned_origin_bounds, lemma_chunk_pos_of_origin, origin_aligned,
    row_major_pos, spec_chunk_origin, spec_chunk_pos, ChunkCoord, TileCoord, CHUNK_WIDTH,
    TILES_PER_CHUNK,
};
use crate::tile::{Tile, TileColor, TileFlags};
use crate::tilemap::{assoc_get, assoc_has_key, assoc_unique, lemma_assoc_get_index, TileMap};
use crate::visibility::{chunk_visible, spec_chunk_visible, MapTransform, ViewRect, MAX_TILE_DIM};

verus! {

/// Largest atlas dimension the quad builder accepts, in pixels.
pub const MAX_ATLAS_DIM: u32 = 65536;

/// A sprite's sub-rectangle inside its atlas texture, in pixels.
/// `min` is the top-left corner, `max` the exclusive bottom-right corner.
#[derive(Clone, Copy, Debug, PartialEq, Eq, Structural)]
pub struct AtlasRect {
    pub min_x: u32,
    pub min_y: u32,
    pub max_x: u32,
    pub max_y: u32,
}

impl AtlasRect {
    /// The corners are ordered and within the supported texture size.
    pub open spec fn wf(self) -> bool {
        &&& self.min_x <= self.max_x <= MAX_ATLAS_DIM
        &&& self.min_y <= self.max_y <= MAX_ATLAS_DIM
    }

    pub fn new(min_x: u32, min_y: u32, max_x: u32, max_y: u32) -> (r: AtlasRect)
        requires
            min_x <= max_x <= MAX_ATLAS_DIM,
            min_y <= max_y <= MAX_ATLAS_DIM,
        ensures
            r == (AtlasRect { min_x, min_y, max_x, max_y }),
            r.wf(),
    {
        AtlasRect { min_x, min_y, max_x, max_y }
    }

    /// Width of the rectangle in pixels.
    pub fn width(&self) -> (r: u32)
        requires
            self.wf(),
        ensures
            r == self.max_x - self.min_x,
    {
        self.max_x - self.min_x
    }

    /// Height of the rectangle in pixels.
    pub fn height(&self) -> (r: u32)
        requires
            self.wf(),
        ensures
            r == self.max_y - self.min_y,
    {
        self.max_y - self.min_y
    }
}

/// The sprite rectangles of a texture atlas, indexed by sprite index.
/// Stands in for the host's atlas asset: extraction only reads these plain
/// rectangles.
#[derive(Clone, Debug)]
pub struct AtlasLayout {
    pub textures: Vec<AtlasRect>,
}

impl AtlasLayout {
    pub open spec fn wf(self) -> bool {
        forall|i: int| 0 <= i < self.textures@.len() ==> (#[trigger] self.textures@[i]).wf()
    }

    pub fn new() -> (r: AtlasLayout)
        ensures
            r.wf(),
            r.textures@.len() == 0,
    {
        AtlasLayout { textures: Vec::new() }
    }

    /// The pixel size shared by every sprite of the atlas, taken from the
    /// first sprite -- the tile-size convention the quad builder relies
    /// on, which requires all sprites of one atlas to be the same size.
    /// `None` for an empty atlas.
    pub fn tile_size(&self) -> (r: Option<(u32, u32)>)
        requires
            self.wf(),
        ensures
            r is Some <==> self.textures@.len() > 0,
            (r matches Some(s) ==> s.0 == self.textures@[0].max_x - self.textures@[0].min_x
                && s.1 == self.textures@[0].max_y - self.textures@[0].min_y),
    {
        if self.textures.len() == 0 {
            return None;
        }
        let first = &self.textures[0];
        Some((first.width(), first.height()))
    }

    /// Append one sprite rectangle and return its sprite index.
    pub fn push_texture(&mut self, rect: AtlasRect) -> (index: usize)
        requires
            old(self).wf(),
            rect.wf(),
        ensures
            final(self).wf(),
            final(self).textures@ == old(self).textures@.push(rect),
            index == old(self).textures@.len(),
    {
        let index = self.textures.len();
        self.textures.push(rect);
        index
    }
}

/// One occupied tile slot of an extracted chunk: its world tile position,
/// its resolved atlas rectangle, and its tint and flips.
#[derive(Clone, Copy, Debug, PartialEq, Eq, Structural)]
pub struct ExtractedTile {
    pub x: i32,
    pub y: i32,
    pub rect: AtlasRect,
    pub color: TileColor,
    pub flags: TileFlags,
}

/// A renderable snapshot of one chunk: its origin (carrying the layer in
/// `origin.z`) and its occupied tiles in row-major slot order.
#[derive(Clone, Debug)]
pub struct ExtractedChunk {
    pub origin: TileCoord,
    pub tiles: Vec<ExtractedTile>,
}

/// The snapshot entry for the occupied slot `i` holding tile `t`.
pub open spec fn spec_extracted_tile(chunk: Chunk, atlas: AtlasLayout, i: int, t: Tile)
    -> ExtractedTile {
    ExtractedTile {
        x: (chunk.origin.x + i % CHUNK_WIDTH as int) as i32,
        y: (chunk.origin.y + i / CHUNK_WIDTH as int) as i32,
        rect: atlas.textures@[t.sprite_index as int],
        color: t.color,
        flags: t.flags,
    }
}

/// The snapshot of the first `n` slots of a chunk: one entry per occupied
/// slot, in slot order.
pub open spec fn spec_snapshot_tiles(chunk: Chunk, atlas: AtlasLayout, n: int)
    -> Seq<ExtractedTile>
    decreases n,
{
    if n <= 0 {
        Seq::empty()
    } else {
        let rest = spec_snapshot_tiles(chunk, atlas, n - 1);
        match chunk.tiles@[n - 1] {
            Some(t) => rest.push(spec_extracted_tile(chunk, atlas, n - 1, t)),
            None => rest,
        }
    }
}

/// Every tile of a chunk names a sprite that exists in the atlas.
pub open spec fn sprite_indices_valid(chunk: Chunk, atlas: AtlasLayout) -> bool {
    forall|i: int|
        0 <= i < chunk.tiles@.len() ==> ((#[trigger] chunk.tiles@[i]) matches Some(t)
            ==> t.sprite_index < atlas.textures@.len())
}

/// Produce the renderable snapshot of a chunk: world position, atlas
/// rectangle, color and flags of every occupied slot, in slot order.
pub fn snapshot_chunk(chunk: &Chunk, atlas: &AtlasLayout) -> (r: ExtractedChunk)
    requires
        chunk.wf(),
        origin_aligned(chunk.origin),
        sprite_indices_valid(*chunk, *atlas),
    ensures
        r.origin == chunk.origin,
        r.tiles@ == spec_snapshot_tiles(*chunk, *atlas, TILES_PER_CHUNK as int),
{
    proof {
        lemma_aligned_origin_bounds(chunk.origin);
    }
    let mut tiles: Vec<ExtractedTile> = Vec::new();
    let mut i: usize = 0;
    while i < chunk.tiles.len()
        invariant
            i <= chunk.tiles@.len(),
            chunk.tiles@.len() == TILES_PER_CHUNK,
            origin_aligned(chunk.origin),
            chunk.origin.x + CHUNK_WIDTH - 1 <= i32::MAX,
            chunk.origin.y + CHUNK_WIDTH - 1 <= i32::MAX,
            sprite_indices_valid(*chunk, *atlas),
            tiles@ == spec_snapshot_tiles(*chunk, *atlas, i as int),
        decreases chunk.tiles@.len() - i,
    {
        match chunk.tiles[i] {
            Some(t) => {
                let (lx, ly) = row_major_pos(i);
                let rect = atlas.textures[t.sprite_index as usize];
                tiles.push(
                    ExtractedTile {
                        x: chunk.origin.x + lx,
                        y: chunk.origin.y + ly,
                        rect,
                        color: t.color,
                        flags: t.flags,
                    },
                );
            },
            None => {},
        }
        i = i + 1;
    }
    ExtractedChunk { origin: chunk.origin, tiles }
}

/// Remembers, per (tile map identity, chunk coordinate), the change marker
/// seen at the last extraction, so unchanged chunks can be skipped. Entries
/// persist across frames.
#[derive(Debug)]
pub struct ExtractionCache {
    pub entries: Vec<((u64, ChunkCoord), u64)>,
}

impl ExtractionCache {
    /// Cache keys are unique.
    pub open spec fn wf(self) -> bool {
        assoc_unique(self.entries@)
    }

    /// A chunk with marker `marker` counts as changed when the cache has no
    /// entry for it, or only an older marker.
    pub open spec fn spec_changed(self, map_id: u64, coord: ChunkCoord, marker: u64) -> bool {
        ||| !assoc_has_key(self.entries@, (map_id, coord))
        ||| assoc_get(self.entries@, (map_id, coord)) < marker
    }

    pub fn new() -> (r: ExtractionCache)
        ensures
            r.wf(),
            r.entries@.len() == 0,
    {
        ExtractionCache { entries: Vec::new() }
    }

    /// Index of the cache entry for a key, if one exists.
    fn find_entry(&self, map_id: u64, coord: ChunkCoord) -> (r: Option<usize>)
        ensures
            match r {
                Some(i) => i < self.entries@.len() && self.entries@[i as int].0 == (map_id, coord),
                None => !assoc_has_key(self.entries@, (map_id, coord)),
            },
    {
        let mut i: usize = 0;
        while i < self.entries.len()
            invariant
                i <= self.entries@.len(),
                forall|j: int| 0 <= j < i ==> (#[trigger] self.entries@[j]).0 != (map_id, coord),
            decreases self.entries@.len() - i,
        {
            let (id, c) = self.entries[i].0;
            if id == map_id && c == coord {
                return Some(i);
            }
            i = i + 1;
        }
        None
    }
}

impl Default for ExtractionCache {
    fn default() -> (r: ExtractionCache)
        ensures
            r.wf(),
            r.entries@.len() == 0,
    {
        ExtractionCache { entries: Vec::new() }
    }
}

/// How one extraction leaves the cache: when the chunk counted as changed,
/// its entry now holds the chunk's marker and every other entry is as
/// before; otherwise the cache is untouched.
pub open spec fn spec_cache_after_extract(
    pre: ExtractionCache,
    post: ExtractionCache,
    map_id: u64,
    coord: ChunkCoord,
    marker: u64,
) -> bool {
    if pre.spec_changed(map_id, coord, marker) {
        &&& assoc_has_key(post.entries@, (map_id, coord))
        &&& assoc_get(post.entries@, (map_id, coord)) == marker
        &&& forall|k: (u64, ChunkCoord)|
            k != (map_id, coord) ==> (#[trigger] assoc_has_key(post.entries@, k)
                <==> assoc_has_key(pre.entries@, k))
        &&& forall|k: (u64, ChunkCoord)|
            k != (map_id, coord) && assoc_has_key(pre.entries@, k) ==> #[trigger] assoc_get(
                post.entries@,
                k,
            ) == assoc_get(pre.entries@, k)
    } else {
        post.entries == pre.entries
    }
}

/// Extract one visible chunk: if its marker advanced past what the cache
/// remembers (or it was never extracted), emit its snapshot and remember
/// the new marker; otherwise report it unchanged (`None`) and leave the
/// cache alone.
pub fn extract_chunk(
    cache: &mut ExtractionCache,
    map_id: u64,
    coord: ChunkCoord,
    chunk: &Chunk,
    atlas: &AtlasLayout,
) -> (r: Option<ExtractedChunk>)
    requires
        old(cache).wf(),
        chunk.wf(),
        origin_aligned(chunk.origin),
        sprite_indices_valid(*chunk, *atlas),
    ensures
        final(cache).wf(),
        r is Some <==> old(cache).spec_changed(map_id, coord, chunk.last_change_at),
        (r matches Some(s) ==> s.origin == chunk.origin && s.tiles@ == spec_snapshot_tiles(
            *chunk,
            *atlas,
            TILES_PER_CHUNK as int,
        )),
        spec_cache_after_extract(*old(cache), *final(cache), map_id, coord, chunk.last_change_at),
{
    let key = (map_id, coord);
    let marker = chunk.last_change_at;
    let r = cache.find_entry(map_id, coord);
    match r {
        Some(i) => {
            proof {
                lemma_assoc_get_index(cache.entries@, i as int);
            }
            let seen = cache.entries[i].1;
            if seen < marker {
                let ghost entries0 = cache.entries@;
                cache.entries[i].1 = marker;
                proof {
                    let entries1 = cache.entries@;
                    assert(entries1[i as int].0 == key);
                    assert(entries1[i as int].1 == marker);
                    assert(forall|j: int|
                        0 <= j < entries1.len() && j != i ==> entries1[j] == entries0[j]);
                    lemma_assoc_get_index(entries1, i as int);
                    assert forall|k: (u64, ChunkCoord)|
                        k != key implies (#[trigger] assoc_has_key(entries1, k) <==> assoc_has_key(
                        entries0,
                        k,
                    )) by {
                        if assoc_has_key(entries0, k) {
                            let w = choose|w: int| 0 <= w < entries0.len() && entries0[w].0 == k;
                            assert(entries1[w].0 == k);
                        }
                        if assoc_has_key(entries1, k) {
                            let w = choose|w: int| 0 <= w < entries1.len() && entries1[w].0 == k;
                            assert(entries0[w].0 == k);
                        }
                    }
                    assert forall|k: (u64, ChunkCoord)|
                        k != key && assoc_has_key(entries0, k) implies #[trigger] assoc_get(
                        entries1,
                        k,
                    ) == assoc_get(entries0, k) by {
                        let w = choose|w: int| 0 <= w < entries0.len() && entries0[w].0 == k;
                        assert(entries1[w].0 == k);
                        lemma_assoc_get_index(entries0, w);
                        lemma_assoc_get_index(entries1, w);
                    }
                }
                Some(snapshot_chunk(chunk, atlas))
            } else {
                None
            }
        },
        None => {
            let ghost entries0 = cache.entries@;
            cache.entries.push((key, marker));
            proof {
                let entries1 = cache.entries@;
                let last = entries1.len() - 1;
                assert(entries1[last] == (key, marker));
                assert forall|p: int, q2: int|
                    0 <= p < q2 < entries1.len() implies (#[trigger] entries1[p]).0 != (
                #[trigger] entries1[q2]).0 by {
                    if q2 == last {
                        assert(!assoc_has_key(entries0, key));
                        assert(entries0[p].0 == entries1[p].0);
                    }
                }
                lemma_assoc_get_index(entries1, last);
                assert forall|k: (u64, ChunkCoord)|
                    k != key implies (#[trigger] assoc_has_key(entries1, k) <==> assoc_has_key(
                    entries0,
                    k,
                )) by {
                    if assoc_has_key(entries0, k) {
                        let w = choose|w: int| 0 <= w < entries0.len() && entries0[w].0 == k;
                        assert(entries1[w].0 == k);
                    }
                    if assoc_has_key(entries1, k) {
                        let w = choose|w: int| 0 <= w < entries1.len() && entries1[w].0 == k;
                        assert(w != last);
                        assert(entries0[w].0 == k);
                    }
                }
                assert forall|k: (u64, ChunkCoord)|
                    k != key && assoc_has_key(entries0, k) implies #[trigger] assoc_get(
                    entries1,
                    k,
                ) == assoc_get(entries0, k) by {
                    let w = choose|w: int| 0 <= w < entries0.len() && entries0[w].0 == k;
                    assert(entries1[w].0 == k);
                    lemma_assoc_get_index(entries0, w);
                    lemma_assoc_get_index(entries1, w);
                }
            }
            Some(snapshot_chunk(chunk, atlas))
        },
    }
}

/// Everything extracted from one tile map this frame: its identity and
/// uniform data, the snapshots of its visible chunks whose marker advanced,
/// and the coordinates of all its visible chunks.
#[derive(Debug)]
pub struct ExtractedTilemap {
    pub map_id: u64,
    pub transform: MapTransform,
    pub image_handle_id: u64,
    pub tile_size: (u32, u32),
    pub chunks: Vec<ExtractedChunk>,
    pub visible_chunks: Vec<ChunkCoord>,
}

/// The per-frame extraction output over all tile maps.
#[derive(Debug)]
pub struct ExtractedTilemaps {
    pub tilemaps: Vec<ExtractedTilemap>,
}

/// A chunk coordinate occurs among the first `k` chunk entries of a map.
pub open spec fn spec_in_prefix(map: TileMap, k: int, c: ChunkCoord) -> bool {
    exists|j: int| 0 <= j < k && (#[trigger] map.chunks@[j]).0 == c
}

/// Looking at one more chunk entry extends the seen prefix by exactly that
/// entry's coordinate, which (keys being unique) was not seen before.
proof fn lemma_prefix_step(map: TileMap, k: int)
    requires
        assoc_unique(map.chunks@),
        0 <= k < map.chunks@.len(),
    ensures
        forall|c: ChunkCoord| #[trigger]
            spec_in_prefix(map, k + 1, c) <==> (spec_in_prefix(map, k, c) || c == map.chunks@[
                k
            ].0),
        !spec_in_prefix(map, k, map.chunks@[k].0),
{
    assert forall|c: ChunkCoord| #[trigger]
        spec_in_prefix(map, k + 1, c) implies (spec_in_prefix(map, k, c) || c == map.chunks@[
        k
    ].0) by {
        let j = choose|j: int| 0 <= j < k + 1 && (#[trigger] map.chunks@[j]).0 == c;
        if j < k {
            assert(spec_in_prefix(map, k, c));
        }
    }
    assert forall|c: ChunkCoord|
        spec_in_prefix(map, k, c) || c == map.chunks@[k].0 implies #[trigger] spec_in_prefix(
        map,
        k + 1,
        c,
    ) by {
        if spec_in_prefix(map, k, c) {
            let j = choose|j: int| 0 <= j < k && (#[trigger] map.chunks@[j]).0 == c;
            assert(0 <= j < k + 1 && map.chunks@[j].0 == c);
        } else {
            assert(map.chunks@[k].0 == c);
        }
    }
    if spec_in_prefix(map, k, map.chunks@[k].0) {
        let j = choose|j: int| 0 <= j < k && (#[trigger] map.chunks@[j]).0 == map.chunks@[k].0;
        assert(false);
    }
}

/// The chunks one extraction pass of a map emits: stored, visible in some
/// view, and changed since the cache's remembered marker.
pub open spec fn spec_selected(
    map: TileMap,
    cache: ExtractionCache,
    map_id: u64,
    tile_w: u32,
    tile_h: u32,
    t: MapTransform,
    views: Seq<ViewRect>,
    c: ChunkCoord,
) -> bool {
    &&& map.has_chunk(c)
    &&& spec_chunk_visible(spec_chunk_origin(c), tile_w, tile_h, t, views)
    &&& cache.spec_changed(map_id, c, map.chunk_at(c).last_change_at)
}

/// The snapshot `s` is the extraction of chunk `c` of `map`.
pub open spec fn spec_is_snapshot(
    map: TileMap,
    atlas: AtlasLayout,
    c: ChunkCoord,
    s: ExtractedChunk,
) -> bool {
    &&& s.origin == spec_chunk_origin(c)
    &&& s.tiles@ == spec_snapshot_tiles(map.chunk_at(c), atlas, TILES_PER_CHUNK as int)
}

/// Extract one tile map for one frame: find its visible chunks, snapshot
/// those whose marker advanced past the cache (updating the cache), and
/// skip the rest. The emitted `chunks` are exactly the visible, changed
/// ones; `visible_chunks` lists every visible chunk, changed or not.
#[verifier::rlimit(60)]
pub fn extract_tilemap(
    map: &TileMap,
    map_id: u64,
    transform: &MapTransform,
    tile_w: u32,
    tile_h: u32,
    atlas: &AtlasLayout,
    views: &Vec<ViewRect>,
    cache: &mut ExtractionCache,
) -> (r: ExtractedTilemap)
    requires
        map.wf(),
        old(cache).wf(),
        transform.wf(),
        0 < tile_w <= MAX_TILE_DIM,
        0 < tile_h <= MAX_TILE_DIM,
        forall|v: int| 0 <= v < views@.len() ==> (#[trigger] views@[v]).wf(),
        forall|k: int|
            0 <= k < map.chunks@.len() ==> sprite_indices_valid(
                (#[trigger] map.chunks@[k]).1,
                *atlas,
            ),
    ensures
        final(cache).wf(),
        r.map_id == map_id,
        r.transform == *transform,
        r.image_handle_id == map.image,
        r.tile_size == (tile_w, tile_h),
        forall|c: ChunkCoord|
            #[trigger] r.visible_chunks@.contains(c) <==> (map.has_chunk(c) && spec_chunk_visible(
                spec_chunk_origin(c),
                tile_w,
                tile_h,
                *transform,
                views@,
            )),
        forall|i: int|
            0 <= i < r.chunks@.len() ==> spec_selected(
                *map,
                *old(cache),
                map_id,
                tile_w,
                tile_h,
                *transform,
                views@,
                spec_chunk_pos((#[trigger] r.chunks@[i]).origin),
            ) && spec_is_snapshot(
                *map,
                *atlas,
                spec_chunk_pos(r.chunks@[i].origin),
                r.chunks@[i],
            ),
        forall|c: ChunkCoord|
            spec_selected(*map, *old(cache), map_id, tile_w, tile_h, *transform, views@, c)
                ==> (exists|i: int|
                0 <= i < r.chunks@.len() && spec_is_snapshot(
                    *map,
                    *atlas,
                    c,
                    #[trigger] r.chunks@[i],
                )),
        forall|c: ChunkCoord|
            spec_selected(*map, *old(cache), map_id, tile_w, tile_h, *transform, views@, c)
                ==> assoc_has_key(final(cache).entries@, (map_id, c)) && assoc_get(
                final(cache).entries@,
                (map_id, c),
            ) == map.chunk_at(c).last_change_at,
        forall|k2: (u64, ChunkCoord)|
            !(k2.0 == map_id && spec_selected(
                *map,
                *old(cache),
                map_id,
                tile_w,
                tile_h,
                *transform,
                views@,
                k2.1,
            )) ==> (#[trigger] assoc_has_key(final(cache).entries@, k2) <==> assoc_has_key(
                old(cache).entries@,
                k2,
            )) && (assoc_has_key(old(cache).entries@, k2) ==> assoc_get(final(cache).entries@, k2)
                == assoc_get(old(cache).entries@, k2)),
{
    let ghost pre_cache = *old(cache);
    let ghost t = *transform;
    let mut chunks: Vec<ExtractedChunk> = Vec::new();
    let ghost mut snap_coords: Seq<ChunkCoord> = Seq::empty();
    let mut visible_list: Vec<ChunkCoord> = Vec::new();
    let mut k: usize = 0;
    while k < map.chunks.len()
        invariant
            k <= map.chunks@.len(),
            map.wf(),
            cache.wf(),
            t == *transform,
            transform.wf(),
            0 < tile_w <= MAX_TILE_DIM,
            0 < tile_h <= MAX_TILE_DIM,
            forall|v: int| 0 <= v < views@.len() ==> (#[trigger] views@[v]).wf(),
            forall|k2: int|
                0 <= k2 < map.chunks@.len() ==> sprite_indices_valid(
                    (#[trigger] map.chunks@[k2]).1,
                    *atlas,
                ),
            forall|c: ChunkCoord|
                #[trigger] visible_list@.contains(c) <==> (spec_in_prefix(*map, k as int, c)
                    && spec_chunk_visible(spec_chunk_origin(c), tile_w, tile_h, t, views@)),
            snap_coords.len() == chunks@.len(),
            forall|i: int|
                0 <= i < chunks@.len() ==> spec_selected(
                    *map,
                    pre_cache,
                    map_id,
                    tile_w,
                    tile_h,
                    t,
                    views@,
                    #[trigger] snap_coords[i],
                ) && spec_is_snapshot(*map, *atlas, snap_coords[i], chunks@[i]),
            forall|c: ChunkCoord|
                spec_in_prefix(*map, k as int, c) && spec_selected(
                    *map,
                    pre_cache,
                    map_id,
                    tile_w,
                    tile_h,
                    t,
                    views@,
                    c,
                ) ==> snap_coords.contains(c),
            forall|c: ChunkCoord|
                spec_in_prefix(*map, k as int, c) && spec_selected(
                    *map,
                    pre_cache,
                    map_id,
                    tile_w,
                    tile_h,
                    t,
                    views@,
                    c,
                ) ==> assoc_has_key(cache.entries@, (map_id, c)) && assoc_get(
                    cache.entries@,
                    (map_id, c),
                ) == map.chunk_at(c).last_change_at,
            forall|k2: (u64, ChunkCoord)|
                !(k2.0 == map_id && spec_in_prefix(*map, k as int, k2.1) && spec_selected(
                    *map,
                    pre_cache,
                    map_id,
                    tile_w,
                    tile_h,
                    t,
                    views@,
                    k2.1,
                )) ==> (#[trigger] assoc_has_key(cache.entries@, k2) <==> assoc_has_key(
                    pre_cache.entries@,
                    k2,
                )) && (assoc_has_key(pre_cache.entries@, k2) ==> assoc_get(cache.entries@, k2)
                    == assoc_get(pre_cache.entries@, k2)),
        decreases map.chunks@.len() - k,
    {
        let c0 = map.chunks[k].0;
        proof {
            lemma_assoc_get_index(map.chunks@, k as int);
            lemma_prefix_step(*map, k as int);
        }
        let ghost vis0 = visible_list@;
        let ghost chunks0 = chunks@;
        let ghost snap0 = snap_coords;
        let visible = chunk_visible(map.chunks[k].1.origin, tile_w, tile_h, transform, views);
        if visible {
            visible_list.push(c0);
            proof {
                assert forall|c2: ChunkCoord| #[trigger]
                    visible_list@.contains(c2) implies (spec_in_prefix(*map, k + 1, c2)
                    && spec_chunk_visible(spec_chunk_origin(c2), tile_w, tile_h, t, views@)) by {
                    let w = choose|w: int| 0 <= w < visible_list@.len() && visible_list@[w] == c2;
                    if w < vis0.len() {
                        assert(vis0[w] == c2);
                        assert(vis0.contains(c2));
                        let j = choose|j: int|
                            0 <= j < k && (#[trigger] map.chunks@[j]).0 == c2;
                    } else {
                        assert(c2 == c0);
                        assert(map.chunks@[k as int].0 == c2);
                    }
                }
                assert forall|c2: ChunkCoord|
                    spec_in_prefix(*map, k + 1, c2) && spec_chunk_visible(
                        spec_chunk_origin(c2),
                        tile_w,
                        tile_h,
                        t,
                        views@,
                    ) implies #[trigger] visible_list@.contains(c2) by {
                    let j = choose|j: int| 0 <= j < k + 1 && (#[trigger] map.chunks@[j]).0 == c2;
                    if j < k {
                        assert(spec_in_prefix(*map, k as int, c2));
                        assert(vis0.contains(c2));
                        let w = choose|w: int| 0 <= w < vis0.len() && vis0[w] == c2;
                        assert(visible_list@[w] == c2);
                    } else {
                        assert(c2 == c0);
                        assert(visible_list@[visible_list@.len() - 1] == c2);
                    }
                }
                // The chunk at index k was not seen before: its key is fresh.
                if spec_in_prefix(*map, k as int, c0) {
                    let j = choose|j: int| 0 <= j < k && (#[trigger] map.chunks@[j]).0 == c0;
                    assert(map.chunks@[j].0 == map.chunks@[k as int].0);
                    assert(false);
                }
            }
            let ghost cache0 = *cache;
            let ghost m = map.chunks@[k as int].1.last_change_at;
            let r = extract_chunk(cache, map_id, c0, &map.chunks[k].1, atlas);
            let ghost rg = r;
            if let Some(s) = r {
                chunks.push(s);
                proof {
                    snap_coords = snap_coords.push(c0);
                }
            }
            proof {
                let cache1 = *cache;
                // The untouched-keys invariant applies to (map_id, c0), so
                // "changed" against the current cache equals "changed"
                // against the original cache.
                assert(!(spec_in_prefix(*map, k as int, c0)));
                assert((assoc_has_key(cache0.entries@, (map_id, c0)) <==> assoc_has_key(
                    pre_cache.entries@,
                    (map_id, c0),
                )) && (assoc_has_key(pre_cache.entries@, (map_id, c0)) ==> assoc_get(
                    cache0.entries@,
                    (map_id, c0),
                ) == assoc_get(pre_cache.entries@, (map_id, c0))));
                assert(cache0.spec_changed(map_id, c0, m) == pre_cache.spec_changed(
                    map_id,
                    c0,
                    m,
                ));
                assert(map.chunk_at(c0) == map.chunks@[k as int].1);
                // Snapshot soundness and completeness.
                assert forall|i: int|
                    0 <= i < chunks@.len() implies spec_selected(
                    *map,
                    pre_cache,
                    map_id,
                    tile_w,
                    tile_h,
                    t,
                    views@,
                    #[trigger] snap_coords[i],
                ) && spec_is_snapshot(*map, *atlas, snap_coords[i], chunks@[i]) by {
                    if i < chunks0.len() {
                        assert(chunks@[i] == chunks0[i]);
                        assert(snap_coords[i] == snap0[i]);
                    } else {
                        assert(rg is Some && chunks@[i] == rg.unwrap());
                        assert(snap_coords[i] == c0);
                        assert(spec_selected(
                            *map,
                            pre_cache,
                            map_id,
                            tile_w,
                            tile_h,
                            t,
                            views@,
                            c0,
                        ));
                        assert(spec_is_snapshot(*map, *atlas, c0, chunks@[i]));
                    }
                }
                assert forall|c: ChunkCoord|
                    spec_in_prefix(*map, k + 1, c) && spec_selected(
                        *map,
                        pre_cache,
                        map_id,
                        tile_w,
                        tile_h,
                        t,
                        views@,
                        c,
                    ) implies snap_coords.contains(c) by {
                    if c == c0 {
                        assert(cache0.spec_changed(map_id, c0, m));
                        assert(rg is Some);
                        assert(snap_coords[snap_coords.len() - 1] == c0);
                    } else {
                        assert(spec_in_prefix(*map, k as int, c));
                        assert(snap0.contains(c));
                        let w = choose|w: int| 0 <= w < snap0.len() && snap0[w] == c;
                        assert(snap_coords[w] == c);
                    }
                }
                // Cache bookkeeping.
                assert forall|c: ChunkCoord|
                    spec_in_prefix(*map, k + 1, c) && spec_selected(
                        *map,
                        pre_cache,
                        map_id,
                        tile_w,
                        tile_h,
                        t,
                        views@,
                        c,
                    ) implies assoc_has_key(cache1.entries@, (map_id, c)) && assoc_get(
                    cache1.entries@,
                    (map_id, c),
                ) == map.chunk_at(c).last_change_at by {
                    let j = choose|j: int| 0 <= j < k + 1 && (#[trigger] map.chunks@[j]).0 == c;
                    if j < k {
                        assert(spec_in_prefix(*map, k as int, c));
                        assert(assoc_has_key(cache0.entries@, (map_id, c)) && assoc_get(
                            cache0.entries@,
                            (map_id, c),
                        ) == map.chunk_at(c).last_change_at);
                        if c == c0 {
                            assert(false);
                        }
                        assert((map_id, c) != (map_id, c0));
                    } else {
                        assert(c == c0);
                        assert(cache0.spec_changed(map_id, c0, m));
                    }
                }
                assert forall|k2: (u64, ChunkCoord)|
                    !(k2.0 == map_id && spec_in_prefix(*map, k + 1, k2.1) && spec_selected(
                        *map,
                        pre_cache,
                        map_id,
                        tile_w,
                        tile_h,
                        t,
                        views@,
                        k2.1,
                    )) implies (#[trigger] assoc_has_key(cache1.entries@, k2)
                    <==> assoc_has_key(pre_cache.entries@, k2)) && (assoc_has_key(
                    pre_cache.entries@,
                    k2,
                ) ==> assoc_get(cache1.entries@, k2) == assoc_get(pre_cache.entries@, k2)) by {
                    if spec_in_prefix(*map, k as int, k2.1) {
                        assert(spec_in_prefix(*map, k + 1, k2.1));
                    }
                    if k2 == (map_id, c0) {
                        assert(spec_in_prefix(*map, k + 1, c0));
                        assert(!spec_selected(
                            *map,
                            pre_cache,
                            map_id,
                            tile_w,
                            tile_h,
                            t,
                            views@,
                            c0,
                        ));
                        assert(!cache0.spec_changed(map_id, c0, m));
                        assert(cache1.entries == cache0.entries);
                    } else {
                        assert((assoc_has_key(cache1.entries@, k2) <==> assoc_has_key(
                            cache0.entries@,
                            k2,
                        )) && (assoc_has_key(cache0.entries@, k2) ==> assoc_get(
                            cache1.entries@,
                            k2,
                        ) == assoc_get(cache0.entries@, k2)));
                    }
                }
            }
        } else {
            proof {
                assert(map.chunks@[k as int].1.origin == spec_chunk_origin(c0));
                assert(!spec_chunk_visible(spec_chunk_origin(c0), tile_w, tile_h, t, views@));
            }
        }
        k = k + 1;
    }
    proof {
        assert forall|c: ChunkCoord| #[trigger]
            map.has_chunk(c) implies spec_in_prefix(*map, map.chunks@.len() as int, c) by {
            let j = choose|j: int| 0 <= j < map.chunks@.len() && map.chunks@[j].0 == c;
            assert(0 <= j < map.chunks@.len() as int && map.chunks@[j].0 == c);
        }
        assert forall|c: ChunkCoord| #[trigger]
            spec_in_prefix(*map, map.chunks@.len() as int, c) implies map.has_chunk(c) by {
            let j = choose|j: int|
                0 <= j < map.chunks@.len() as int && (#[trigger] map.chunks@[j]).0 == c;
        }
    }
    let result = ExtractedTilemap {
        map_id,
        transform: *transform,
        image_handle_id: map.image,
        tile_size: (tile_w, tile_h),
        chunks,
        visible_chunks: visible_list,
    };
    proof {
        assert forall|i: int|
            0 <= i < result.chunks@.len() implies spec_selected(
            *map,
            pre_cache,
            map_id,
            tile_w,
            tile_h,
            t,
            views@,
            spec_chunk_pos((#[trigger] result.chunks@[i]).origin),
        ) && spec_is_snapshot(
            *map,
            *atlas,
            spec_chunk_pos(result.chunks@[i].origin),
            result.chunks@[i],
        ) by {
            assert(spec_selected(
                *map,
                pre_cache,
                map_id,
                tile_w,
                tile_h,
                t,
                views@,
                snap_coords[i],
            ));
            assert(spec_is_snapshot(*map, *atlas, snap_coords[i], result.chunks@[i]));
            assert(chunk_pos_in_range(snap_coords[i])) by {
                let w = choose|w: int|
                    0 <= w < map.chunks@.len() && (#[trigger] map.chunks@[w]).0 == snap_coords[i];
            }
            lemma_chunk_pos_of_origin(snap_coords[i]);
            assert(spec_chunk_pos(result.chunks@[i].origin) == snap_coords[i]);
        }
        assert forall|c: ChunkCoord|
            spec_selected(*map, pre_cache, map_id, tile_w, tile_h, t, views@, c) implies (exists|
                i: int,
            |
            0 <= i < result.chunks@.len() && spec_is_snapshot(
                *map,
                *atlas,
                c,
                #[trigger] result.chunks@[i],
            )) by {
            assert(map.has_chunk(c));
            assert(spec_in_prefix(*map, map.chunks@.len() as int, c));
            assert(snap_coords.contains(c));
            let w = choose|w: int| 0 <= w < snap_coords.len() && snap_coords[w] == c;
            assert(spec_is_snapshot(*map, *atlas, c, result.chunks@[w]));
        }
    }
    result
}

/// Extraction skip: extracting the same chunk twice with no marker change
/// in between reports it unchanged the second time, and the second
/// extraction leaves the cache exactly as the first did.
pub proof fn lemma_extract_twice_unchanged(
    cache0: ExtractionCache,
    cache1: ExtractionCache,
    map_id: u64,
    coord: ChunkCoord,
    marker: u64,
)
    requires
        spec_cache_after_extract(cache0, cache1, map_id, coord, marker),
    ensures
        !cache1.spec_changed(map_id, coord, marker),
{
    if cache0.spec_changed(map_id, coord, marker) {
        assert(assoc_get(cache1.entries@, (map_id, coord)) == marker);
    }
}

} // verus!
