//! A chunk: a dense, fixed-capacity 64x64 block of optional tiles, the unit
//! of storage, dirty tracking and draw batching.

use vstd::prelude::*;

use crate::coords::{
    lemma_local_index_bounds, spec_chunk_origin, spec_chunk_pos, spec_local_index, row_major_index,
    TileCoord, TILES_PER_CHUNK,
};
use crate::tile::Tile;

verus! {

/// One queued tile change: the target coordinate and the new slot value
/// (`None` erases the tile).
pub type TileEdit = (TileCoord, Option<Tile>);

/// A dense 64x64 block of optional tiles.
///
/// `tiles` is row-major (index `local_x + local_y * 64`) and always holds
/// exactly [`TILES_PER_CHUNK`] slots. `last_change_at` is a monotonic
/// marker stamped from the owning map's change counter whenever the chunk's
/// contents change; extraction uses it to skip unchanged chunks.
#[derive(Clone, Debug)]
pub struct Chunk {
    pub origin: TileCoord,
    pub tiles: Vec<Option<Tile>>,
    pub last_change_at: u64,
}

/// All slots of a chunk's tile array are empty.
pub open spec fn all_empty(tiles: Seq<Option<Tile>>) -> bool {
    forall|i: int| 0 <= i < tiles.len() ==> tiles[i] is None
}

/// The tile array after applying a batch of edits in order. Each edit
/// writes its slot at the tile's local index; later edits to the same
/// coordinate overwrite earlier ones.
pub open spec fn spec_apply_edits(
    tiles: Seq<Option<Tile>>,
    edits: Seq<TileEdit>,
) -> Seq<Option<Tile>>
    decreases edits.len(),
{
    if edits.len() == 0 {
        tiles
    } else {
        spec_apply_edits(tiles, edits.drop_last()).update(
            spec_local_index(edits.last().0),
            edits.last().1,
        )
    }
}

/// Applying edits never changes the length of a full-size tile array.
pub proof fn lemma_apply_edits_len(tiles: Seq<Option<Tile>>, edits: Seq<TileEdit>)
    requires
        tiles.len() == TILES_PER_CHUNK,
    ensures
        spec_apply_edits(tiles, edits).len() == tiles.len(),
    decreases edits.len(),
{
    if edits.len() > 0 {
        lemma_apply_edits_len(tiles, edits.drop_last());
        lemma_local_index_bounds(edits.last().0);
    }
}

impl Chunk {
    /// A chunk is well formed when its tile array has exactly one slot per
    /// cell of the 64x64 grid.
    pub open spec fn wf(self) -> bool {
        self.tiles@.len() == TILES_PER_CHUNK
    }

    /// A fresh, all-empty chunk with the given origin and a zero marker.
    pub fn new(origin: TileCoord) -> (c: Chunk)
        ensures
            c.wf(),
            c.origin == origin,
            c.last_change_at == 0,
            all_empty(c.tiles@),
    {
        let mut tiles: Vec<Option<Tile>> = Vec::new();
        let mut i: usize = 0;
        while i < TILES_PER_CHUNK
            invariant
                i <= TILES_PER_CHUNK,
                tiles@.len() == i,
                all_empty(tiles@),
            decreases TILES_PER_CHUNK - i,
        {
            tiles.push(None);
            i = i + 1;
        }
        Chunk { origin, tiles, last_change_at: 0 }
    }

    /// Reset every slot to empty and stamp the change marker.
    pub fn clear(&mut self, marker: u64)
        requires
            old(self).wf(),
        ensures
            final(self).wf(),
            final(self).origin == old(self).origin,
            final(self).last_change_at == marker,
            all_empty(final(self).tiles@),
    {
        let mut i: usize = 0;
        while i < self.tiles.len()
            invariant
                i <= self.tiles@.len(),
                self.tiles@.len() == old(self).tiles@.len(),
                self.origin == old(self).origin,
                self.last_change_at == old(self).last_change_at,
                forall|j: int| 0 <= j < i ==> self.tiles@[j] is None,
            decreases self.tiles@.len() - i,
        {
            self.tiles.set(i, None);
            i = i + 1;
        }
        self.last_change_at = marker;
    }

    /// Write a batch of edits into the chunk in order and stamp the change
    /// marker once for the whole batch. Every edit must target a tile of
    /// this chunk.
    pub fn set_tiles(&mut self, edits: &Vec<TileEdit>, marker: u64)
        requires
            old(self).wf(),
            forall|i: int|
                0 <= i < edits@.len() ==> spec_chunk_origin(
                    spec_chunk_pos(#[trigger] edits@[i].0),
                ) == old(self).origin,
        ensures
            final(self).wf(),
            final(self).origin == old(self).origin,
            final(self).last_change_at == marker,
            final(self).tiles@ == spec_apply_edits(old(self).tiles@, edits@),
    {
        let ghost old_tiles = self.tiles@;
        let mut i: usize = 0;
        while i < edits.len()
            invariant
                i <= edits@.len(),
                self.origin == old(self).origin,
                self.last_change_at == old(self).last_change_at,
                self.tiles@ == spec_apply_edits(old_tiles, edits@.take(i as int)),
                self.tiles@.len() == TILES_PER_CHUNK,
                old_tiles.len() == TILES_PER_CHUNK,
                forall|k: int|
                    0 <= k < edits@.len() ==> spec_chunk_origin(
                        spec_chunk_pos(#[trigger] edits@[k].0),
                    ) == old(self).origin,
            decreases edits@.len() - i,
        {
            let (pos, tile) = edits[i];
            proof {
                lemma_local_index_bounds(pos);
            }
            let lx = pos.x - self.origin.x;
            let ly = pos.y - self.origin.y;
            let index = row_major_index(lx, ly);
            self.tiles.set(index, tile);
            proof {
                assert(edits@.take(i + 1).drop_last() =~= edits@.take(i as int));
                assert(edits@.take(i + 1).last() == edits@[i as int]);
            }
            i = i + 1;
        }
        proof {
            assert(edits@.take(edits@.len() as int) =~= edits@);
        }
        self.last_change_at = marker;
    }
}

} // verus!
