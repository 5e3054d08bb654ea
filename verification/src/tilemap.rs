//! The sparse tile map: chunks keyed by chunk coordinate plus a buffered
//! edit queue, and the update pass that materializes queued edits.
//!
//! Mutations (`set_tile`, `set_tiles`, `clear_layer`, `clear`) only record
//! intent; chunk storage changes exclusively in [`TileMap::update_chunks`],
//! which drains the queue, groups edits by destination chunk, creates
//! chunks lazily and stamps the change marker of every chunk it touches.

use vstd::prelude::*;
use vstd::seq_lib::group_seq_properties;

use crate::chunk::{all_empty, lemma_apply_edits_len, spec_apply_edits, Chunk, TileEdit};
use crate::coords::{
    calc_chunk_origin, calc_chunk_pos, chunk_pos_in_range, lemma_local_index_bounds,
    lemma_local_index_injective, spec_chunk_origin, spec_chunk_pos, spec_local_index, ChunkCoord,
    TileCoord, TILES_PER_CHUNK,
};
use crate::tile::Tile;

verus! {

/// A sparse collection of chunks addressed by chunk coordinate, plus the
/// pending edits that the next update pass will materialize.
///
/// `image` and `texture_atlas_layout` are opaque identities of the texture
/// and atlas this map draws with; the host supplies and interprets them.
/// The chunk list never holds two entries with the same coordinate.
/// `change_counter` is the map's monotonic change clock: it advances when
/// an update pass changes anything, and every touched chunk's
/// `last_change_at` is stamped from it.
///
/// The fields are public so contracts and callers' proofs can speak about
/// them; mutate through the methods, which maintain [`TileMap::wf`].
#[derive(Debug)]
pub struct TileMap {
    pub image: u64,
    pub texture_atlas_layout: u64,
    pub chunks: Vec<(ChunkCoord, Chunk)>,
    pub tile_changes: Vec<TileEdit>,
    pub clear_all: bool,
    pub clear_layers: Vec<i32>,
    pub change_counter: u64,
}

/// Reusable scratch storage for the update pass: queued edits grouped by
/// destination chunk. Kept across update cycles (groups are emptied, not
/// deallocated) so steady-state updates do not reallocate.
#[derive(Debug)]
pub struct TileMapCache {
    pub tile_changes_by_chunk: Vec<(ChunkCoord, Vec<TileEdit>)>,
}

/// Chains the contracts of the update pass's three stages (clear, group,
/// apply) into the overall [`spec_update`] relation plus strict marker
/// growth for touched chunks. `pre` is the map before the pass, `mid` the
/// map after the clear stage, `post` the map after the apply stage.
proof fn lemma_update_stitch(
    pre: TileMap,
    mid: TileMap,
    post: TileMap,
    groups: Seq<(ChunkCoord, Vec<TileEdit>)>,
    q: Seq<TileEdit>,
    stamp: u64,
)
    requires
        pre.wf(),
        pre.spec_pending_work(),
        pre.change_counter < u64::MAX,
        stamp == pre.change_counter + 1,
        q == pre.tile_changes@,
        mid.chunks@.len() == pre.chunks@.len(),
        forall|k: int|
            0 <= k < mid.chunks@.len() ==> (#[trigger] mid.chunks@[k]).0 == pre.chunks@[k].0,
        forall|k: int|
            0 <= k < mid.chunks@.len() ==> clear_result_ok(
                pre,
                #[trigger] mid.chunks@[k],
                pre.chunks@[k],
                stamp,
            ),
        assoc_unique(groups),
        forall|k: int|
            0 <= k < groups.len() ==> (#[trigger] groups[k]).1@ == edits_for(q, groups[k].0),
        forall|c: ChunkCoord| edits_for(q, c).len() > 0 ==> assoc_has_key(groups, c),
        post.wf(),
        post.chunks@.len() >= mid.chunks@.len(),
        forall|k: int|
            0 <= k < mid.chunks@.len() ==> (#[trigger] post.chunks@[k]).0 == mid.chunks@[k].0,
        forall|k: int|
            0 <= k < mid.chunks@.len() ==> apply_result_ok(
                groups,
                #[trigger] post.chunks@[k],
                mid.chunks@[k],
                stamp,
            ),
        forall|k: int|
            mid.chunks@.len() <= k < post.chunks@.len() ==> new_chunk_ok(
                mid.chunks@,
                groups,
                #[trigger] post.chunks@[k],
                stamp,
            ),
        forall|c: ChunkCoord|
            assoc_has_key(groups, c) && assoc_get(groups, c)@.len() > 0 ==> assoc_has_key(
                post.chunks@,
                c,
            ),
        post.image == pre.image,
        post.texture_atlas_layout == pre.texture_atlas_layout,
        post.tile_changes@.len() == 0,
        !post.clear_all,
        post.clear_layers@.len() == 0,
        post.change_counter == stamp,
    ensures
        spec_update(pre, post),
        forall|c: ChunkCoord|
            pre.has_chunk(c) && pre.spec_chunk_touched(c) ==> post.chunk_at(c).last_change_at
                > pre.chunk_at(c).last_change_at,
{
    let base_len = pre.chunks@.len() as int;

    assert forall|c: ChunkCoord| #[trigger]
        assoc_has_key(groups, c) implies assoc_get(groups, c)@ == edits_for(q, c) by {
        let w = choose|w: int| 0 <= w < groups.len() && groups[w].0 == c;
        lemma_assoc_get_index(groups, w);
    }

    assert forall|c: ChunkCoord| #[trigger]
        post.has_chunk(c) implies (pre.has_chunk(c) || edits_for(q, c).len() > 0) by {
        let k = choose|k: int| 0 <= k < post.chunks@.len() && post.chunks@[k].0 == c;
        if k < base_len {
            assert(pre.chunks@[k].0 == c);
        } else {
            assert(new_chunk_ok(mid.chunks@, groups, post.chunks@[k], stamp));
            assert(assoc_get(groups, c)@ == edits_for(q, c));
        }
    }

    assert forall|c: ChunkCoord|
        pre.has_chunk(c) || edits_for(q, c).len() > 0 implies #[trigger] post.has_chunk(c) by {
        if pre.has_chunk(c) {
            let w = choose|w: int| 0 <= w < pre.chunks@.len() && pre.chunks@[w].0 == c;
            assert(post.chunks@[w].0 == c);
        } else {
            assert(assoc_has_key(groups, c));
            assert(assoc_get(groups, c)@.len() > 0);
            assert(assoc_has_key(post.chunks@, c));
        }
    }

    assert forall|c: ChunkCoord| #[trigger]
        post.has_chunk(c) implies (if pre.spec_chunk_touched(c) {
        &&& post.chunk_at(c).tiles@ == spec_apply_edits(pre.spec_base_tiles(c), edits_for(q, c))
        &&& post.chunk_at(c).last_change_at == pre.change_counter + 1
        &&& post.chunk_at(c).origin == spec_chunk_origin(c)
    } else {
        post.chunk_at(c) == pre.chunk_at(c)
    }) by {
        let k = choose|k: int| 0 <= k < post.chunks@.len() && post.chunks@[k].0 == c;
        lemma_assoc_get_index(post.chunks@, k);
        assert(post.chunk_at(c) == post.chunks@[k].1);
        if k < base_len {
            lemma_assoc_get_index(pre.chunks@, k);
            assert(pre.chunk_at(c) == pre.chunks@[k].1);
            assert(pre.has_chunk(c));
            let mid_e = mid.chunks@[k];
            assert(clear_result_ok(pre, mid_e, pre.chunks@[k], stamp));
            assert(apply_result_ok(groups, post.chunks@[k], mid_e, stamp));
            if edits_for(q, c).len() > 0 {
                assert(assoc_has_key(groups, c));
                assert(assoc_get(groups, c)@ == edits_for(q, c));
                assert(post.chunks@[k].1.tiles@ == spec_apply_edits(
                    mid_e.1.tiles@,
                    edits_for(q, c),
                ));
                if pre.spec_chunk_cleared(c) {
                    assert(mid_e.1.tiles@ =~= empty_tiles());
                    assert(pre.spec_base_tiles(c) == empty_tiles());
                } else {
                    assert(mid_e.1 == pre.chunks@[k].1);
                    assert(pre.spec_base_tiles(c) == pre.chunk_at(c).tiles@);
                }
                assert(post.chunks@[k].1.last_change_at == stamp);
                assert(post.chunks@[k].1.origin == pre.chunks@[k].1.origin);
                assert(pre.chunks@[k].1.origin == spec_chunk_origin(c));
            } else {
                if assoc_has_key(groups, c) {
                    assert(assoc_get(groups, c)@.len() == 0);
                }
                assert(post.chunks@[k].1 == mid_e.1);
                assert(edits_for(q, c).len() == 0);
                if pre.spec_chunk_cleared(c) {
                    assert(pre.spec_chunk_touched(c));
                    assert(spec_apply_edits(pre.spec_base_tiles(c), edits_for(q, c))
                        == pre.spec_base_tiles(c));
                    assert(pre.spec_base_tiles(c) == empty_tiles());
                    assert(mid_e.1.tiles@ =~= empty_tiles());
                    assert(mid_e.1.origin == pre.chunks@[k].1.origin);
                    assert(pre.chunks@[k].1.origin == spec_chunk_origin(c));
                } else {
                    assert(!pre.spec_chunk_touched(c));
                    assert(mid_e.1 == pre.chunks@[k].1);
                }
            }
        } else {
            assert(new_chunk_ok(mid.chunks@, groups, post.chunks@[k], stamp));
            if pre.has_chunk(c) {
                let w = choose|w: int| 0 <= w < pre.chunks@.len() && pre.chunks@[w].0 == c;
                assert(mid.chunks@[w].0 == c);
                assert(assoc_has_key(mid.chunks@, c));
                assert(false);
            }
            assert(assoc_get(groups, c)@ == edits_for(q, c));
            assert(edits_for(q, c).len() > 0);
            assert(pre.spec_chunk_touched(c));
            assert(pre.spec_base_tiles(c) == empty_tiles());
        }
    }

    assert forall|c: ChunkCoord|
        pre.has_chunk(c) && pre.spec_chunk_touched(c) implies post.chunk_at(c).last_change_at
        > pre.chunk_at(c).last_change_at by {
        let w = choose|w: int| 0 <= w < pre.chunks@.len() && pre.chunks@[w].0 == c;
        lemma_assoc_get_index(pre.chunks@, w);
        assert(pre.chunk_at(c).last_change_at <= pre.change_counter);
        assert(post.has_chunk(c));
        assert(post.chunk_at(c).last_change_at == pre.change_counter + 1);
    }
}

/// Appending one more queue entry extends exactly its target chunk's
/// filtered edit sequence and leaves every other chunk's untouched.
proof fn lemma_edits_for_take_step(q: Seq<TileEdit>, j: int)
    requires
        0 <= j < q.len(),
    ensures
        forall|c: ChunkCoord| #[trigger]
            edits_for(q.take(j + 1), c) == (if spec_chunk_pos(q[j].0) == c {
                edits_for(q.take(j), c).push(q[j])
            } else {
                edits_for(q.take(j), c)
            }),
{
    assert forall|c: ChunkCoord| #[trigger]
        edits_for(q.take(j + 1), c) == (if spec_chunk_pos(q[j].0) == c {
            edits_for(q.take(j), c).push(q[j])
        } else {
            edits_for(q.take(j), c)
        }) by {
        reveal(Seq::filter);
        let s = q.take(j + 1);
        assert(s.drop_last() =~= q.take(j));
        assert(s.last() == q[j]);
    }
}

impl TileMapCache {
    /// Between update passes all groups are drained; keys stay unique.
    pub open spec fn wf(self) -> bool {
        &&& assoc_unique(self.tile_changes_by_chunk@)
        &&& forall|i: int|
            0 <= i < self.tile_changes_by_chunk@.len()
                ==> (#[trigger] self.tile_changes_by_chunk@[i]).1@.len() == 0
    }

    pub fn new() -> (r: TileMapCache)
        ensures
            r.wf(),
            r.tile_changes_by_chunk@.len() == 0,
    {
        TileMapCache { tile_changes_by_chunk: Vec::new() }
    }

    /// Index of the group for chunk coordinate `c`, if one exists.
    fn find_group(&self, c: ChunkCoord) -> (r: Option<usize>)
        ensures
            match r {
                Some(i) => i < self.tile_changes_by_chunk@.len()
                    && self.tile_changes_by_chunk@[i as int].0 == c,
                None => !assoc_has_key(self.tile_changes_by_chunk@, c),
            },
    {
        let mut i: usize = 0;
        while i < self.tile_changes_by_chunk.len()
            invariant
                i <= self.tile_changes_by_chunk@.len(),
                forall|j: int| 0 <= j < i ==> (#[trigger] self.tile_changes_by_chunk@[j]).0 != c,
            decreases self.tile_changes_by_chunk@.len() - i,
        {
            if self.tile_changes_by_chunk[i].0 == c {
                return Some(i);
            }
            i = i + 1;
        }
        None
    }

    /// Grouping stage of the update pass: distribute a drained edit queue
    /// into per-chunk groups, preserving queue order within each group.
    /// Groups left over from earlier passes are reused.
    fn group_edits(&mut self, queue: &Vec<TileEdit>)
        requires
            old(self).wf(),
        ensures
            assoc_unique(final(self).tile_changes_by_chunk@),
            forall|k: int|
                0 <= k < final(self).tile_changes_by_chunk@.len()
                    ==> (#[trigger] final(self).tile_changes_by_chunk@[k]).1@ == edits_for(
                    queue@,
                    final(self).tile_changes_by_chunk@[k].0,
                ),
            forall|c: ChunkCoord|
                edits_for(queue@, c).len() > 0 ==> assoc_has_key(
                    final(self).tile_changes_by_chunk@,
                    c,
                ),
    {
        let ghost q = queue@;
        proof {
            reveal(Seq::filter);
            assert forall|c: ChunkCoord| #[trigger] edits_for(q.take(0), c) =~= Seq::empty() by {
                assert(q.take(0).len() == 0);
            }
        }
        let mut j: usize = 0;
        while j < queue.len()
            invariant
                j <= q.len(),
                q == queue@,
                assoc_unique(self.tile_changes_by_chunk@),
                forall|k: int|
                    0 <= k < self.tile_changes_by_chunk@.len()
                        ==> (#[trigger] self.tile_changes_by_chunk@[k]).1@ == edits_for(
                        q.take(j as int),
                        self.tile_changes_by_chunk@[k].0,
                    ),
                forall|c: ChunkCoord|
                    #[trigger] edits_for(q.take(j as int), c).len() > 0 ==> assoc_has_key(
                        self.tile_changes_by_chunk@,
                        c,
                    ),
            decreases q.len() - j,
        {
            let (pos, tile) = queue[j];
            let cpos = calc_chunk_pos(pos);
            proof {
                lemma_edits_for_take_step(q, j as int);
            }
            let ghost groups0 = self.tile_changes_by_chunk@;
            let r = self.find_group(cpos);
            match r {
                Some(gi) => {
                    self.tile_changes_by_chunk[gi].1.push((pos, tile));
                    proof {
                        let groups1 = self.tile_changes_by_chunk@;
                        assert(groups1[gi as int].0 == cpos);
                        assert(groups1[gi as int].1@ == groups0[gi as int].1@.push(
                            (pos, tile),
                        ));
                        assert(forall|k: int|
                            0 <= k < groups1.len() && k != gi ==> groups1[k] == groups0[k]);
                        assert forall|c: ChunkCoord|
                            #[trigger] edits_for(q.take(j + 1), c).len() > 0 implies assoc_has_key(
                            groups1,
                            c,
                        ) by {
                            if c == cpos {
                                assert(groups1[gi as int].0 == c);
                            } else {
                                assert(edits_for(q.take(j + 1), c) == edits_for(
                                    q.take(j as int),
                                    c,
                                ));
                                let w = choose|w: int|
                                    0 <= w < groups0.len() && groups0[w].0 == c;
                                assert(groups1[w].0 == c);
                            }
                        }
                        assert forall|k: int|
                            0 <= k < groups1.len() implies (#[trigger] groups1[k]).1@
                            == edits_for(q.take(j + 1), groups1[k].0) by {
                            if k == gi {
                                assert(edits_for(q.take(j + 1), cpos) == edits_for(
                                    q.take(j as int),
                                    cpos,
                                ).push(q[j as int]));
                            } else {
                                assert(groups1[k].0 != cpos);
                            }
                        }
                    }
                },
                None => {
                    proof {
                        assert(edits_for(q.take(j as int), cpos).len() == 0);
                        assert(edits_for(q.take(j as int), cpos) =~= Seq::empty());
                    }
                    let mut v: Vec<TileEdit> = Vec::new();
                    v.push((pos, tile));
                    self.tile_changes_by_chunk.push((cpos, v));
                    proof {
                        let groups1 = self.tile_changes_by_chunk@;
                        let last = groups1.len() - 1;
                        assert(groups1[last].0 == cpos);
                        assert(groups1[last].1@ == Seq::<TileEdit>::empty().push((pos, tile)));
                        assert(forall|k: int| 0 <= k < last ==> groups1[k] == groups0[k]);
                        assert forall|i: int, k: int|
                            0 <= i < k < groups1.len() implies (#[trigger] groups1[i]).0
                            != (#[trigger] groups1[k]).0 by {
                            if k == last {
                                assert(!assoc_has_key(groups0, cpos));
                                assert(groups0[i].0 == groups1[i].0);
                            }
                        }
                        assert forall|c: ChunkCoord|
                            #[trigger] edits_for(q.take(j + 1), c).len() > 0 implies assoc_has_key(
                            groups1,
                            c,
                        ) by {
                            if c == cpos {
                                assert(groups1[last].0 == c);
                            } else {
                                assert(edits_for(q.take(j + 1), c) == edits_for(
                                    q.take(j as int),
                                    c,
                                ));
                                let w = choose|w: int|
                                    0 <= w < groups0.len() && groups0[w].0 == c;
                                assert(groups1[w].0 == c);
                            }
                        }
                        assert forall|k: int|
                            0 <= k < groups1.len() implies (#[trigger] groups1[k]).1@
                            == edits_for(q.take(j + 1), groups1[k].0) by {
                            if k == last {
                                assert(edits_for(q.take(j + 1), cpos) == edits_for(
                                    q.take(j as int),
                                    cpos,
                                ).push(q[j as int]));
                            } else {
                                assert(groups1[k].0 != cpos);
                            }
                        }
                    }
                },
            }
            j = j + 1;
        }
        proof {
            assert(q.take(q.len() as int) =~= q);
        }
    }
}

impl Default for TileMapCache {
    fn default() -> (r: TileMapCache)
        ensures
            r.wf(),
            r.tile_changes_by_chunk@.len() == 0,
    {
        TileMapCache { tile_changes_by_chunk: Vec::new() }
    }
}

/// A key occurs in an association list.
pub open spec fn assoc_has_key<K, V>(s: Seq<(K, V)>, c: K) -> bool {
    exists|i: int| 0 <= i < s.len() && s[i].0 == c
}

/// Index of a key in an association list (meaningful when the key occurs).
pub open spec fn assoc_index<K, V>(s: Seq<(K, V)>, c: K) -> int {
    choose|i: int| 0 <= i < s.len() && s[i].0 == c
}

/// Value stored under a key (meaningful when the key occurs).
pub open spec fn assoc_get<K, V>(s: Seq<(K, V)>, c: K) -> V {
    s[assoc_index(s, c)].1
}

/// No key occurs twice.
pub open spec fn assoc_unique<K, V>(s: Seq<(K, V)>) -> bool {
    forall|i: int, j: int|
        0 <= i < j < s.len() ==> (#[trigger] s[i]).0 != (#[trigger] s[j]).0
}

/// With unique keys, lookup by the key of entry `i` yields entry `i`.
pub proof fn lemma_assoc_get_index<K, V>(s: Seq<(K, V)>, i: int)
    requires
        assoc_unique(s),
        0 <= i < s.len(),
    ensures
        assoc_has_key(s, s[i].0),
        assoc_index(s, s[i].0) == i,
        assoc_get(s, s[i].0) == s[i].1,
{
    let c = s[i].0;
    assert(assoc_has_key(s, c));
    let j = assoc_index(s, c);
    if i < j {
        assert(s[i].0 != s[j].0);
    } else if j < i {
        assert(s[j].0 != s[i].0);
    }
}

/// The edits of a queue that target one chunk, in queue order.
pub open spec fn edits_for(q: Seq<TileEdit>, c: ChunkCoord) -> Seq<TileEdit> {
    q.filter(|e: TileEdit| spec_chunk_pos(e.0) == c)
}

/// How one chunk entry relates to its pre-pass value after the clear stage:
/// reset in place with the marker stamped if a clear request selects it,
/// untouched otherwise.
pub open spec fn clear_result_ok(
    pre: TileMap,
    entry: (ChunkCoord, Chunk),
    old_entry: (ChunkCoord, Chunk),
    stamp: u64,
) -> bool {
    if pre.spec_chunk_cleared(old_entry.0) {
        &&& entry.1.wf()
        &&& all_empty(entry.1.tiles@)
        &&& entry.1.last_change_at == stamp
        &&& entry.1.origin == old_entry.1.origin
    } else {
        entry.1 == old_entry.1
    }
}

/// How one pre-existing chunk entry relates to its value before the apply
/// stage: if a non-empty edit group targets it, its tiles are the group
/// applied in order and its marker is stamped; otherwise it is untouched.
pub open spec fn apply_result_ok(
    groups: Seq<(ChunkCoord, Vec<TileEdit>)>,
    entry: (ChunkCoord, Chunk),
    old_entry: (ChunkCoord, Chunk),
    stamp: u64,
) -> bool {
    if assoc_has_key(groups, old_entry.0) && assoc_get(groups, old_entry.0)@.len() > 0 {
        &&& entry.1.tiles@ == spec_apply_edits(old_entry.1.tiles@, assoc_get(groups, old_entry.0)@)
        &&& entry.1.last_change_at == stamp
        &&& entry.1.origin == old_entry.1.origin
    } else {
        entry.1 == old_entry.1
    }
}

/// A chunk entry created by the apply stage: its coordinate was not stored
/// before, a non-empty edit group targets it, and its tiles are that group
/// applied to an all-empty chunk.
pub open spec fn new_chunk_ok(
    base: Seq<(ChunkCoord, Chunk)>,
    groups: Seq<(ChunkCoord, Vec<TileEdit>)>,
    entry: (ChunkCoord, Chunk),
    stamp: u64,
) -> bool {
    &&& !assoc_has_key(base, entry.0)
    &&& assoc_has_key(groups, entry.0)
    &&& assoc_get(groups, entry.0)@.len() > 0
    &&& entry.1.tiles@ == spec_apply_edits(empty_tiles(), assoc_get(groups, entry.0)@)
    &&& entry.1.last_change_at == stamp
    &&& entry.1.origin == spec_chunk_origin(entry.0)
}

/// The groups among the first `g` whose key is `c` (used to track which
/// groups the apply stage has consumed).
pub open spec fn group_processed(
    groups: Seq<(ChunkCoord, Vec<TileEdit>)>,
    g: int,
    c: ChunkCoord,
) -> bool {
    exists|k: int| 0 <= k < g && (#[trigger] groups[k]).0 == c
}

/// An all-empty tile array of full chunk size.
pub open spec fn empty_tiles() -> Seq<Option<Tile>> {
    Seq::new(TILES_PER_CHUNK as nat, |i: int| None)
}

/// What one update pass does, relating the map before (`pre`) to the map
/// after (`post`).
///
/// All pending intent is consumed. The change counter advances exactly when
/// there was pending work. A chunk exists afterwards iff it existed before
/// or a queued edit targeted it. Every chunk the pass touches -- existing
/// chunks selected by a clear request, and chunks targeted by at least one
/// edit -- ends up with its base tiles (its old tiles, or all-empty if it
/// was cleared or created) overwritten by its queued edits in queue order,
/// and its marker stamped to the new counter value; every other chunk is
/// untouched.
pub open spec fn spec_update(pre: TileMap, post: TileMap) -> bool {
    &&& post.image == pre.image
    &&& post.texture_atlas_layout == pre.texture_atlas_layout
    &&& post.tile_changes@.len() == 0
    &&& !post.clear_all
    &&& post.clear_layers@.len() == 0
    &&& post.change_counter == pre.change_counter + (if pre.spec_pending_work() {
        1int
    } else {
        0int
    })
    &&& forall|c: ChunkCoord|
        #[trigger] post.has_chunk(c) <==> (pre.has_chunk(c) || edits_for(pre.tile_changes@, c).len()
            > 0)
    &&& forall|c: ChunkCoord|
        #[trigger] post.has_chunk(c) ==> (if pre.spec_chunk_touched(c) {
            &&& post.chunk_at(c).tiles@ == spec_apply_edits(
                pre.spec_base_tiles(c),
                edits_for(pre.tile_changes@, c),
            )
            &&& post.chunk_at(c).last_change_at == pre.change_counter + 1
            &&& post.chunk_at(c).origin == spec_chunk_origin(c)
        } else {
            post.chunk_at(c) == pre.chunk_at(c)
        })
}

impl TileMap {
    /// There is an entry for chunk coordinate `c`.
    pub open spec fn has_chunk(self, c: ChunkCoord) -> bool {
        assoc_has_key(self.chunks@, c)
    }

    /// The chunk stored under coordinate `c` (meaningful when `has_chunk`).
    pub open spec fn chunk_at(self, c: ChunkCoord) -> Chunk {
        assoc_get(self.chunks@, c)
    }

    /// Chunk keys are unique, every chunk is full-size with the origin its
    /// key dictates, markers never run ahead of the change counter, and
    /// layer-clear requests are not duplicated.
    pub open spec fn wf(self) -> bool {
        &&& assoc_unique(self.chunks@)
        &&& forall|i: int|
            0 <= i < self.chunks@.len() ==> (#[trigger] self.chunks@[i]).1.wf()
        &&& forall|i: int|
            0 <= i < self.chunks@.len() ==> chunk_pos_in_range((#[trigger] self.chunks@[i]).0)
        &&& forall|i: int|
            0 <= i < self.chunks@.len()
                ==> (#[trigger] self.chunks@[i]).1.origin == spec_chunk_origin(self.chunks@[i].0)
        &&& forall|i: int|
            0 <= i < self.chunks@.len()
                ==> (#[trigger] self.chunks@[i]).1.last_change_at <= self.change_counter
        &&& forall|i: int, j: int|
            0 <= i < j < self.clear_layers@.len()
                ==> self.clear_layers@[i] != self.clear_layers@[j]
    }

    /// An update pass has something to do.
    pub open spec fn spec_pending_work(self) -> bool {
        self.clear_all || self.clear_layers@.len() > 0 || self.tile_changes@.len() > 0
    }

    /// The next update pass will reset this chunk's tiles before applying
    /// edits.
    pub open spec fn spec_chunk_cleared(self, c: ChunkCoord) -> bool {
        self.clear_all || self.clear_layers@.contains(c.z)
    }

    /// The tiles a chunk holds when the update pass starts applying queued
    /// edits: its current tiles, unless it is cleared first or does not
    /// exist yet.
    pub open spec fn spec_base_tiles(self, c: ChunkCoord) -> Seq<Option<Tile>> {
        if self.has_chunk(c) && !self.spec_chunk_cleared(c) {
            self.chunk_at(c).tiles@
        } else {
            empty_tiles()
        }
    }

    /// The next update pass changes this chunk: it exists and is cleared,
    /// or some queued edit targets it.
    pub open spec fn spec_chunk_touched(self, c: ChunkCoord) -> bool {
        (self.has_chunk(c) && self.spec_chunk_cleared(c)) || edits_for(self.tile_changes@, c).len()
            > 0
    }

    /// An empty map that draws with the given texture and atlas.
    pub fn new(image: u64, texture_atlas_layout: u64) -> (r: TileMap)
        ensures
            r.wf(),
            r.image == image,
            r.texture_atlas_layout == texture_atlas_layout,
            r.chunks@.len() == 0,
            r.tile_changes@.len() == 0,
            !r.clear_all,
            r.clear_layers@.len() == 0,
            r.change_counter == 0,
    {
        TileMap {
            image,
            texture_atlas_layout,
            chunks: Vec::new(),
            tile_changes: Vec::new(),
            clear_all: false,
            clear_layers: Vec::new(),
            change_counter: 0,
        }
    }

    /// Request that everything be emptied: drops the queued edits and the
    /// finer layer-clear requests, which the full clear supersedes. Chunk
    /// storage is untouched until the next update pass.
    pub fn clear(&mut self)
        requires
            old(self).wf(),
        ensures
            final(self).wf(),
            final(self).tile_changes@.len() == 0,
            final(self).clear_layers@.len() == 0,
            final(self).clear_all,
            final(self).chunks == old(self).chunks,
            final(self).change_counter == old(self).change_counter,
            final(self).image == old(self).image,
            final(self).texture_atlas_layout == old(self).texture_atlas_layout,
    {
        self.tile_changes.clear();
        self.clear_layers.clear();
        self.clear_all = true;
    }

    /// Request that one layer be emptied: removes already-queued edits
    /// targeting that layer (they would be wasted work) and records the
    /// layer for in-place clearing during the next update pass.
    pub fn clear_layer(&mut self, layer: i32)
        requires
            old(self).wf(),
        ensures
            final(self).wf(),
            final(self).tile_changes@ == old(self).tile_changes@.filter(
                |e: TileEdit| e.0.z != layer,
            ),
            forall|l: i32|
                final(self).clear_layers@.contains(l) <==> (old(self).clear_layers@.contains(l)
                    || l == layer),
            final(self).clear_all == old(self).clear_all,
            final(self).chunks == old(self).chunks,
            final(self).change_counter == old(self).change_counter,
            final(self).image == old(self).image,
            final(self).texture_atlas_layout == old(self).texture_atlas_layout,
    {
        broadcast use group_seq_properties;

        let ghost pred = |e: TileEdit| e.0.z != layer;
        let mut kept: Vec<TileEdit> = Vec::new();
        proof {
            reveal(Seq::filter);
            assert(self.tile_changes@.take(0).filter(pred) =~= kept@);
        }
        let mut i: usize = 0;
        while i < self.tile_changes.len()
            invariant
                i <= self.tile_changes@.len(),
                kept@ == self.tile_changes@.take(i as int).filter(pred),
                pred == (|e: TileEdit| e.0.z != layer),
            decreases self.tile_changes@.len() - i,
        {
            let e = self.tile_changes[i];
            proof {
                reveal(Seq::filter);
                let s = self.tile_changes@.take(i + 1);
                assert(s.drop_last() =~= self.tile_changes@.take(i as int));
                assert(s.last() == self.tile_changes@[i as int]);
                assert(s.filter(pred) == if pred(s.last()) {
                    s.drop_last().filter(pred).push(s.last())
                } else {
                    s.drop_last().filter(pred)
                });
            }
            if e.0.z != layer {
                kept.push(e);
            }
            i = i + 1;
        }
        proof {
            assert(self.tile_changes@.take(self.tile_changes@.len() as int)
                =~= self.tile_changes@);
        }
        self.tile_changes = kept;

        let already_there = self.contains_layer(layer);
        if !already_there {
            self.clear_layers.push(layer);
        }
    }

    /// Whether a layer-clear request for `layer` is already recorded.
    fn contains_layer(&self, layer: i32) -> (r: bool)
        ensures
            r == self.clear_layers@.contains(layer),
    {
        let mut i: usize = 0;
        while i < self.clear_layers.len()
            invariant
                i <= self.clear_layers@.len(),
                forall|j: int| 0 <= j < i ==> self.clear_layers@[j] != layer,
            decreases self.clear_layers@.len() - i,
        {
            if self.clear_layers[i] == layer {
                return true;
            }
            i = i + 1;
        }
        false
    }

    /// Queue one tile change; `None` erases the slot. O(1), touches no
    /// chunk storage.
    pub fn set_tile(&mut self, pos: TileCoord, tile: Option<Tile>)
        requires
            old(self).wf(),
        ensures
            final(self).wf(),
            final(self).tile_changes@ == old(self).tile_changes@.push((pos, tile)),
            final(self).clear_all == old(self).clear_all,
            final(self).clear_layers == old(self).clear_layers,
            final(self).chunks == old(self).chunks,
            final(self).change_counter == old(self).change_counter,
            final(self).image == old(self).image,
            final(self).texture_atlas_layout == old(self).texture_atlas_layout,
    {
        self.tile_changes.push((pos, tile));
    }

    /// Queue many tile changes, preserving their order: later edits to the
    /// same coordinate win once the update pass runs.
    pub fn set_tiles(&mut self, mut tiles: Vec<TileEdit>)
        requires
            old(self).wf(),
        ensures
            final(self).wf(),
            final(self).tile_changes@ == old(self).tile_changes@ + tiles@,
            final(self).clear_all == old(self).clear_all,
            final(self).clear_layers == old(self).clear_layers,
            final(self).chunks == old(self).chunks,
            final(self).change_counter == old(self).change_counter,
            final(self).image == old(self).image,
            final(self).texture_atlas_layout == old(self).texture_atlas_layout,
    {
        self.tile_changes.append(&mut tiles);
    }

    /// Clear stage of the update pass: reset the tiles of every chunk
    /// selected by the pending clear requests, stamping each cleared
    /// chunk's marker. Does not consume the requests.
    fn apply_clears(&mut self, stamp: u64)
        requires
            old(self).wf(),
            old(self).change_counter == stamp,
        ensures
            final(self).wf(),
            final(self).chunks@.len() == old(self).chunks@.len(),
            forall|k: int|
                0 <= k < final(self).chunks@.len()
                    ==> (#[trigger] final(self).chunks@[k]).0 == old(self).chunks@[k].0,
            forall|k: int|
                0 <= k < final(self).chunks@.len()
                    ==> clear_result_ok(
                    *old(self),
                    #[trigger] final(self).chunks@[k],
                    old(self).chunks@[k],
                    stamp,
                ),
            final(self).tile_changes == old(self).tile_changes,
            final(self).clear_all == old(self).clear_all,
            final(self).clear_layers == old(self).clear_layers,
            final(self).change_counter == old(self).change_counter,
            final(self).image == old(self).image,
            final(self).texture_atlas_layout == old(self).texture_atlas_layout,
    {
        let do_all = self.clear_all;
        let mut i: usize = 0;
        while i < self.chunks.len()
            invariant
                i <= self.chunks@.len(),
                old(self).wf(),
                self.chunks@.len() == old(self).chunks@.len(),
                self.clear_all == old(self).clear_all,
                self.clear_layers == old(self).clear_layers,
                self.tile_changes == old(self).tile_changes,
                self.change_counter == old(self).change_counter,
                self.image == old(self).image,
                self.texture_atlas_layout == old(self).texture_atlas_layout,
                do_all == old(self).clear_all,
                stamp == old(self).change_counter,
                forall|k: int|
                    0 <= k < self.chunks@.len()
                        ==> (#[trigger] self.chunks@[k]).0 == old(self).chunks@[k].0,
                forall|k: int|
                    i <= k < self.chunks@.len()
                        ==> (#[trigger] self.chunks@[k]).1 == old(self).chunks@[k].1,
                forall|k: int|
                    0 <= k < i
                        ==> clear_result_ok(
                        *old(self),
                        #[trigger] self.chunks@[k],
                        old(self).chunks@[k],
                        stamp,
                    ),
            decreases self.chunks@.len() - i,
        {
            let z = self.chunks[i].0.z;
            let need = if do_all {
                true
            } else {
                self.contains_layer(z)
            };
            if need {
                self.chunks[i].1.clear(stamp);
            }
            i = i + 1;
        }
    }

    /// Apply stage of the update pass: write each non-empty edit group into
    /// its destination chunk (creating the chunk lazily), stamp the marker
    /// once per touched chunk, and drain the groups.
    fn apply_groups(&mut self, cache: &mut TileMapCache, stamp: u64)
        requires
            old(self).wf(),
            old(self).change_counter == stamp,
            assoc_unique(old(cache).tile_changes_by_chunk@),
            forall|k: int, i: int|
                0 <= k < old(cache).tile_changes_by_chunk@.len() && 0 <= i < (
                #[trigger] old(cache).tile_changes_by_chunk@[k]).1@.len() ==> spec_chunk_pos(
                    (#[trigger] old(cache).tile_changes_by_chunk@[k].1@[i]).0,
                ) == old(cache).tile_changes_by_chunk@[k].0,
        ensures
            final(self).wf(),
            final(cache).wf(),
            final(cache).tile_changes_by_chunk@.len() == old(cache).tile_changes_by_chunk@.len(),
            forall|k: int|
                0 <= k < final(cache).tile_changes_by_chunk@.len()
                    ==> (#[trigger] final(cache).tile_changes_by_chunk@[k]).0 == old(
                    cache,
                ).tile_changes_by_chunk@[k].0,
            final(self).chunks@.len() >= old(self).chunks@.len(),
            forall|k: int|
                0 <= k < old(self).chunks@.len()
                    ==> (#[trigger] final(self).chunks@[k]).0 == old(self).chunks@[k].0,
            forall|k: int|
                0 <= k < old(self).chunks@.len()
                    ==> apply_result_ok(
                    old(cache).tile_changes_by_chunk@,
                    #[trigger] final(self).chunks@[k],
                    old(self).chunks@[k],
                    stamp,
                ),
            forall|k: int|
                old(self).chunks@.len() <= k < final(self).chunks@.len()
                    ==> new_chunk_ok(
                    old(self).chunks@,
                    old(cache).tile_changes_by_chunk@,
                    #[trigger] final(self).chunks@[k],
                    stamp,
                ),
            forall|c: ChunkCoord|
                assoc_has_key(old(cache).tile_changes_by_chunk@, c) && assoc_get(
                    old(cache).tile_changes_by_chunk@,
                    c,
                )@.len() > 0 ==> assoc_has_key(final(self).chunks@, c),
            final(self).tile_changes == old(self).tile_changes,
            final(self).clear_all == old(self).clear_all,
            final(self).clear_layers == old(self).clear_layers,
            final(self).change_counter == old(self).change_counter,
            final(self).image == old(self).image,
            final(self).texture_atlas_layout == old(self).texture_atlas_layout,
    {
        let ghost base = old(self).chunks@;
        let ghost groups = old(cache).tile_changes_by_chunk@;
        let mut g: usize = 0;
        while g < cache.tile_changes_by_chunk.len()
            invariant
                g <= groups.len(),
                cache.tile_changes_by_chunk@.len() == groups.len(),
                forall|k: int|
                    0 <= k < groups.len()
                        ==> (#[trigger] cache.tile_changes_by_chunk@[k]).0 == groups[k].0,
                forall|k: int|
                    g <= k < groups.len()
                        ==> (#[trigger] cache.tile_changes_by_chunk@[k]).1 == groups[k].1,
                forall|k: int|
                    0 <= k < g ==> (#[trigger] cache.tile_changes_by_chunk@[k]).1@.len() == 0,
                assoc_unique(groups),
                forall|k: int, i: int|
                    0 <= k < groups.len() && 0 <= i < (#[trigger] groups[k]).1@.len()
                        ==> spec_chunk_pos((#[trigger] groups[k].1@[i]).0) == groups[k].0,
                self.tile_changes == old(self).tile_changes,
                self.clear_all == old(self).clear_all,
                self.clear_layers == old(self).clear_layers,
                self.change_counter == stamp,
                self.image == old(self).image,
                self.texture_atlas_layout == old(self).texture_atlas_layout,
                assoc_unique(base),
                forall|k: int|
                    0 <= k < base.len()
                        ==> (#[trigger] base[k]).1.wf() && chunk_pos_in_range(base[k].0)
                        && base[k].1.origin == spec_chunk_origin(base[k].0)
                        && base[k].1.last_change_at <= stamp,
                assoc_unique(self.chunks@),
                self.chunks@.len() >= base.len(),
                forall|k: int|
                    0 <= k < base.len() ==> (#[trigger] self.chunks@[k]).0 == base[k].0,
                forall|k: int|
                    0 <= k < self.chunks@.len()
                        ==> (#[trigger] self.chunks@[k]).1.wf() && chunk_pos_in_range(
                        self.chunks@[k].0,
                    ) && self.chunks@[k].1.origin == spec_chunk_origin(self.chunks@[k].0)
                        && self.chunks@[k].1.last_change_at <= stamp,
                forall|k: int|
                    0 <= k < base.len()
                        ==> (if group_processed(groups, g as int, (#[trigger] base[k]).0) {
                        apply_result_ok(groups, self.chunks@[k], base[k], stamp)
                    } else {
                        self.chunks@[k] == base[k]
                    }),
                forall|k: int|
                    base.len() <= k < self.chunks@.len()
                        ==> new_chunk_ok(base, groups, #[trigger] self.chunks@[k], stamp)
                        && group_processed(groups, g as int, self.chunks@[k].0),
                forall|c: ChunkCoord|
                    group_processed(groups, g as int, c) && assoc_get(groups, c)@.len() > 0
                        ==> assoc_has_key(self.chunks@, c),
            decreases groups.len() - g,
        {
            let ghost chunks0 = self.chunks@;
            if cache.tile_changes_by_chunk[g].1.len() > 0 {
                let cpos = cache.tile_changes_by_chunk[g].0;
                proof {
                    lemma_assoc_get_index(groups, g as int);
                    assert(groups[g as int].1@[0] == cache.tile_changes_by_chunk@[g as int].1@[0]);
                    lemma_local_index_bounds(groups[g as int].1@[0].0);
                    assert(spec_chunk_pos(groups[g as int].1@[0].0) == cpos);
                    assert(chunk_pos_in_range(cpos));
                    if group_processed(groups, g as int, cpos) {
                        let k = choose|k: int| 0 <= k < g && (#[trigger] groups[k]).0 == cpos;
                        assert(groups[k].0 == groups[g as int].0);
                        assert(false);
                    }
                }
                let r = self.find_chunk(cpos);
                match r {
                    Some(ci) => {
                        proof {
                            if ci >= base.len() {
                                assert(group_processed(
                                    groups,
                                    g as int,
                                    self.chunks@[ci as int].0,
                                ));
                                assert(false);
                            }
                            assert(self.chunks@[ci as int] == base[ci as int]);
                        }
                        self.chunks[ci].1.set_tiles(&cache.tile_changes_by_chunk[g].1, stamp);
                        proof {
                            let chunks1 = self.chunks@;
                            assert(chunks1[ci as int].0 == cpos);
                            assert(forall|k: int|
                                0 <= k < chunks1.len() && k != ci ==> chunks1[k] == chunks0[k]);
                            assert(chunks1[ci as int].1.tiles@ == spec_apply_edits(
                                base[ci as int].1.tiles@,
                                assoc_get(groups, cpos)@,
                            ));
                            assert forall|k: int|
                                0 <= k < base.len() implies (if group_processed(
                                groups,
                                g + 1,
                                (#[trigger] base[k]).0,
                            ) {
                                apply_result_ok(groups, chunks1[k], base[k], stamp)
                            } else {
                                chunks1[k] == base[k]
                            }) by {
                                if k == ci {
                                    assert(groups[g as int].0 == base[k].0);
                                    assert(group_processed(groups, g + 1, base[k].0));
                                } else {
                                    if base[k].0 == cpos {
                                        assert(base[ci as int].0 == cpos);
                                        assert(false);
                                    }
                                    if group_processed(groups, g + 1, base[k].0) {
                                        let k2 = choose|k2: int|
                                            0 <= k2 < g + 1 && (#[trigger] groups[k2]).0
                                                == base[k].0;
                                        assert(k2 != g);
                                        assert(group_processed(groups, g as int, base[k].0));
                                    }
                                }
                            }
                            assert forall|c: ChunkCoord|
                                group_processed(groups, g + 1, c) && assoc_get(groups, c)@.len()
                                > 0 implies assoc_has_key(chunks1, c) by {
                                if c == cpos {
                                    assert(chunks1[ci as int].0 == cpos);
                                } else {
                                    let k2 = choose|k2: int|
                                        0 <= k2 < g + 1 && (#[trigger] groups[k2]).0 == c;
                                    assert(k2 != g);
                                    assert(group_processed(groups, g as int, c));
                                    let w = choose|w: int|
                                        0 <= w < chunks0.len() && chunks0[w].0 == c;
                                    assert(chunks1[w].0 == c);
                                }
                            }
                        }
                    },
                    None => {
                        proof {
                            if assoc_has_key(base, cpos) {
                                let k = assoc_index(base, cpos);
                                assert(base[k].0 == cpos);
                                assert(self.chunks@[k].0 == cpos);
                                assert(false);
                            }
                        }
                        let origin = calc_chunk_origin(cpos);
                        let mut chunk = Chunk::new(origin);
                        let ghost fresh_tiles = chunk.tiles@;
                        proof {
                            assert(fresh_tiles =~= empty_tiles());
                        }
                        chunk.set_tiles(&cache.tile_changes_by_chunk[g].1, stamp);
                        self.chunks.push((cpos, chunk));
                        proof {
                            let chunks1 = self.chunks@;
                            let last = chunks1.len() - 1;
                            assert(chunks1[last].0 == cpos);
                            assert(forall|k: int| 0 <= k < last ==> chunks1[k] == chunks0[k]);
                            assert(chunks1[last].1.tiles@ == spec_apply_edits(
                                empty_tiles(),
                                assoc_get(groups, cpos)@,
                            ));
                            assert forall|i: int, k: int|
                                0 <= i < k < chunks1.len() implies (#[trigger] chunks1[i]).0 != (
                            #[trigger] chunks1[k]).0 by {
                                if k == last {
                                    assert(!assoc_has_key(chunks0, cpos));
                                }
                            }
                            assert forall|k: int|
                                0 <= k < base.len() implies (if group_processed(
                                groups,
                                g + 1,
                                (#[trigger] base[k]).0,
                            ) {
                                apply_result_ok(groups, chunks1[k], base[k], stamp)
                            } else {
                                chunks1[k] == base[k]
                            }) by {
                                if base[k].0 == cpos {
                                    assert(chunks0[k].0 == cpos);
                                    assert(assoc_has_key(base, cpos));
                                    assert(false);
                                }
                                if group_processed(groups, g + 1, base[k].0) {
                                    let k2 = choose|k2: int|
                                        0 <= k2 < g + 1 && (#[trigger] groups[k2]).0 == base[k].0;
                                    assert(k2 != g);
                                    assert(group_processed(groups, g as int, base[k].0));
                                }
                            }
                            assert(new_chunk_ok(base, groups, chunks1[last], stamp));
                            assert forall|c: ChunkCoord|
                                group_processed(groups, g + 1, c) && assoc_get(groups, c)@.len()
                                > 0 implies assoc_has_key(chunks1, c) by {
                                if c == cpos {
                                    assert(chunks1[last].0 == cpos);
                                } else {
                                    let k2 = choose|k2: int|
                                        0 <= k2 < g + 1 && (#[trigger] groups[k2]).0 == c;
                                    assert(k2 != g);
                                    assert(group_processed(groups, g as int, c));
                                    let w = choose|w: int|
                                        0 <= w < chunks0.len() && chunks0[w].0 == c;
                                    assert(chunks1[w].0 == c);
                                }
                            }
                        }
                    },
                }
                cache.tile_changes_by_chunk[g].1.clear();
            } else {
                proof {
                    lemma_assoc_get_index(groups, g as int);
                    assert(assoc_get(groups, groups[g as int].0)@.len() == 0);
                    assert forall|k: int|
                        0 <= k < base.len() implies (if group_processed(
                        groups,
                        g + 1,
                        (#[trigger] base[k]).0,
                    ) {
                        apply_result_ok(groups, self.chunks@[k], base[k], stamp)
                    } else {
                        self.chunks@[k] == base[k]
                    }) by {
                        if group_processed(groups, g + 1, base[k].0) && !group_processed(
                            groups,
                            g as int,
                            base[k].0,
                        ) {
                            let k2 = choose|k2: int|
                                0 <= k2 < g + 1 && (#[trigger] groups[k2]).0 == base[k].0;
                            assert(k2 == g);
                            assert(assoc_get(groups, base[k].0)@.len() == 0);
                        }
                    }
                    assert forall|c: ChunkCoord|
                        group_processed(groups, g + 1, c) && assoc_get(groups, c)@.len()
                        > 0 implies assoc_has_key(self.chunks@, c) by {
                        let k2 = choose|k2: int|
                            0 <= k2 < g + 1 && (#[trigger] groups[k2]).0 == c;
                        assert(k2 != g);
                        assert(group_processed(groups, g as int, c));
                    }
                }
            }
            g = g + 1;
        }
        proof {
            let groups_len = groups.len() as int;
            assert forall|c: ChunkCoord| #[trigger]
                assoc_has_key(groups, c) implies group_processed(groups, groups_len, c) by {
                let w = choose|w: int| 0 <= w < groups.len() && groups[w].0 == c;
                assert(0 <= w < groups_len && groups[w].0 == c);
            }
            assert forall|c: ChunkCoord| #[trigger]
                group_processed(groups, groups_len, c) implies assoc_has_key(groups, c) by {
                let w = choose|w: int| 0 <= w < groups_len && (#[trigger] groups[w]).0 == c;
                assert(0 <= w < groups.len() && groups[w].0 == c);
            }
            assert forall|k: int|
                0 <= k < base.len() implies apply_result_ok(
                groups,
                #[trigger] self.chunks@[k],
                base[k],
                stamp,
            ) by {
                if !group_processed(groups, groups_len, base[k].0) {
                    assert(!assoc_has_key(groups, base[k].0));
                    assert(self.chunks@[k] == base[k]);
                }
            }
        }
    }

    /// The update pass: materialize all pending intent, in this order --
    /// full clear, per-layer clears, then queued edits grouped by
    /// destination chunk (created lazily), each touched chunk's marker
    /// stamped once from the advanced change counter.
    ///
    /// `cache` is the reusable grouping scratch; pass the same one each
    /// cycle to avoid reallocation. The relation between the map before
    /// and after is [`spec_update`]; in addition, every chunk that
    /// receives an edit or clear gets a marker strictly greater than it
    /// had before the pass.
    pub fn update_chunks(&mut self, cache: &mut TileMapCache)
        requires
            old(self).wf(),
            old(cache).wf(),
            old(self).spec_pending_work() ==> old(self).change_counter < u64::MAX,
        ensures
            final(self).wf(),
            final(cache).wf(),
            spec_update(*old(self), *final(self)),
            forall|c: ChunkCoord|
                old(self).has_chunk(c) && old(self).spec_chunk_touched(c)
                    ==> final(self).chunk_at(c).last_change_at > old(self).chunk_at(
                    c,
                ).last_change_at,
    {
        let ghost pre = *old(self);
        let pending = self.clear_all || self.clear_layers.len() > 0 || self.tile_changes.len()
            > 0;
        if !pending {
            proof {
                reveal(Seq::filter);
                assert forall|c: ChunkCoord| #[trigger]
                    edits_for(pre.tile_changes@, c).len() == 0 by {
                    assert(pre.tile_changes@.len() == 0);
                }
                assert(!pre.spec_pending_work());
            }
            return ;
        }
        let stamp = self.change_counter + 1;
        self.change_counter = stamp;
        self.apply_clears(stamp);
        let ghost mid = *self;
        let mut queue: Vec<TileEdit> = Vec::new();
        std::mem::swap(&mut queue, &mut self.tile_changes);
        let ghost q = queue@;
        cache.group_edits(&queue);
        let ghost groups = cache.tile_changes_by_chunk@;
        proof {
            assert forall|k: int, i: int|
                0 <= k < groups.len() && 0 <= i < (#[trigger] groups[k]).1@.len()
                implies spec_chunk_pos((#[trigger] groups[k].1@[i]).0) == groups[k].0 by {
                broadcast use vstd::seq_lib::group_filter_ensures;

                assert(groups[k].1@ == q.filter(
                    |e: TileEdit| spec_chunk_pos(e.0) == groups[k].0,
                ));
            }
        }
        self.clear_all = false;
        self.clear_layers.clear();
        self.apply_groups(cache, stamp);
        proof {
            lemma_update_stitch(pre, mid, *self, groups, q, stamp);
        }
    }

    /// Index of the entry for chunk coordinate `c`, if one exists.
    fn find_chunk(&self, c: ChunkCoord) -> (r: Option<usize>)
        ensures
            match r {
                Some(i) => i < self.chunks@.len() && self.chunks@[i as int].0 == c,
                None => !self.has_chunk(c),
            },
    {
        let mut i: usize = 0;
        while i < self.chunks.len()
            invariant
                i <= self.chunks@.len(),
                forall|j: int| 0 <= j < i ==> (#[trigger] self.chunks@[j]).0 != c,
            decreases self.chunks@.len() - i,
        {
            if self.chunks[i].0 == c {
                return Some(i);
            }
            i = i + 1;
        }
        None
    }
}

/// The world of tile arrays after applying a queue one edit at a time, in
/// queue order: each edit writes its slot in its destination chunk,
/// creating the chunk all-empty on first contact.
pub open spec fn spec_apply_queue(
    w: Map<ChunkCoord, Seq<Option<Tile>>>,
    q: Seq<TileEdit>,
) -> Map<ChunkCoord, Seq<Option<Tile>>>
    decreases q.len(),
{
    if q.len() == 0 {
        w
    } else {
        let w1 = spec_apply_queue(w, q.drop_last());
        let e = q.last();
        let c = spec_chunk_pos(e.0);
        let base = if w1.dom().contains(c) {
            w1[c]
        } else {
            empty_tiles()
        };
        w1.insert(c, base.update(spec_local_index(e.0), e.1))
    }
}

/// Grouping edits by destination chunk loses nothing: applying, for each
/// chunk, only the edits that target it (kept in queue order) yields the
/// same world as applying the whole queue one edit at a time.
pub proof fn lemma_grouped_equals_sequential(
    w: Map<ChunkCoord, Seq<Option<Tile>>>,
    q: Seq<TileEdit>,
)
    ensures
        forall|c: ChunkCoord|
            #[trigger] spec_apply_queue(w, q).dom().contains(c) <==> (w.dom().contains(c)
                || edits_for(q, c).len() > 0),
        forall|c: ChunkCoord|
            #[trigger] spec_apply_queue(w, q).dom().contains(c) ==> spec_apply_queue(w, q)[c]
                == spec_apply_edits(
                if w.dom().contains(c) {
                    w[c]
                } else {
                    empty_tiles()
                },
                edits_for(q, c),
            ),
    decreases q.len(),
{
    reveal(Seq::filter);
    if q.len() == 0 {
    } else {
        let qd = q.drop_last();
        let e = q.last();
        let c0 = spec_chunk_pos(e.0);
        lemma_grouped_equals_sequential(w, qd);
        let w1 = spec_apply_queue(w, qd);
        assert forall|c: ChunkCoord| #[trigger]
            edits_for(q, c) == (if spec_chunk_pos(e.0) == c {
                edits_for(qd, c).push(e)
            } else {
                edits_for(qd, c)
            }) by {
            assert(q.drop_last() == qd);
            assert(q.last() == e);
        }
        assert forall|c: ChunkCoord| #[trigger]
            spec_apply_queue(w, q).dom().contains(c) implies spec_apply_queue(w, q)[c]
            == spec_apply_edits(
            if w.dom().contains(c) {
                w[c]
            } else {
                empty_tiles()
            },
            edits_for(q, c),
        ) by {
            let base_orig = if w.dom().contains(c) {
                w[c]
            } else {
                empty_tiles()
            };
            if c == c0 {
                let base1 = if w1.dom().contains(c0) {
                    w1[c0]
                } else {
                    empty_tiles()
                };
                if !w1.dom().contains(c0) {
                    assert(edits_for(qd, c0).len() == 0);
                    assert(edits_for(qd, c0) =~= Seq::<TileEdit>::empty());
                    assert(spec_apply_edits(base_orig, edits_for(qd, c0)) == base_orig);
                    assert(base_orig =~= empty_tiles());
                }
                assert(base1 == spec_apply_edits(base_orig, edits_for(qd, c0)));
                let es = edits_for(qd, c0).push(e);
                assert(es.drop_last() =~= edits_for(qd, c0));
                assert(es.last() == e);
                assert(spec_apply_edits(base_orig, es) == spec_apply_edits(
                    base_orig,
                    edits_for(qd, c0),
                ).update(spec_local_index(e.0), e.1));
            }
        }
    }
}

/// The world view of a map: each stored chunk's tile array under its
/// coordinate.
pub open spec fn spec_world(m: TileMap) -> Map<ChunkCoord, Seq<Option<Tile>>> {
    Map::new(|c: ChunkCoord| m.has_chunk(c), |c: ChunkCoord| m.chunk_at(c).tiles@)
}

/// With no clear requests pending, one update pass leaves exactly the
/// world given by applying the whole queue one edit at a time, in queue
/// order -- the grouped, per-chunk pass implements sequential queue
/// semantics.
pub proof fn lemma_update_applies_queue_in_order(pre: TileMap, post: TileMap)
    requires
        spec_update(pre, post),
        !pre.clear_all,
        pre.clear_layers@.len() == 0,
    ensures
        spec_world(post) =~= spec_apply_queue(spec_world(pre), pre.tile_changes@),
{
    let w = spec_world(pre);
    let q = pre.tile_changes@;
    lemma_grouped_equals_sequential(w, q);
    assert forall|c: ChunkCoord| #[trigger]
        spec_world(post).dom().contains(c) implies spec_world(post)[c] == spec_apply_queue(w, q)[
        c
    ] by {
        assert(post.has_chunk(c));
        assert(!pre.spec_chunk_cleared(c));
        assert(w.dom().contains(c) <==> pre.has_chunk(c));
        assert(spec_apply_queue(w, q).dom().contains(c));
        if edits_for(q, c).len() > 0 {
            assert(pre.spec_chunk_touched(c));
            assert(post.chunk_at(c).tiles@ == spec_apply_edits(
                pre.spec_base_tiles(c),
                edits_for(q, c),
            ));
            if pre.has_chunk(c) {
                assert(pre.spec_base_tiles(c) == w[c]);
            } else {
                assert(pre.spec_base_tiles(c) == empty_tiles());
            }
        } else {
            assert(!pre.spec_chunk_touched(c));
            assert(post.chunk_at(c) == pre.chunk_at(c));
            assert(pre.has_chunk(c));
            assert(edits_for(q, c) =~= Seq::<TileEdit>::empty());
            assert(spec_apply_edits(w[c], edits_for(q, c)) == w[c]);
        }
    }
    assert forall|c: ChunkCoord| #[trigger]
        spec_apply_queue(w, q).dom().contains(c) implies spec_world(post).dom().contains(c) by {
        assert(post.has_chunk(c));
    }
}

/// Applying the edits that target one chunk leaves, in the slot of a
/// coordinate whose last queued edit is `q[i]`, exactly that edit's value.
proof fn lemma_apply_edits_last_wins(tiles: Seq<Option<Tile>>, q: Seq<TileEdit>, i: int)
    requires
        tiles.len() == TILES_PER_CHUNK,
        0 <= i < q.len(),
        forall|j: int| i < j < q.len() ==> (#[trigger] q[j]).0 != q[i].0,
    ensures
        spec_apply_edits(tiles, edits_for(q, spec_chunk_pos(q[i].0)))[spec_local_index(q[i].0)]
            == q[i].1,
    decreases q.len(),
{
    reveal(Seq::filter);
    let pos = q[i].0;
    let c = spec_chunk_pos(pos);
    let qd = q.drop_last();
    lemma_local_index_bounds(pos);
    if i == q.len() - 1 {
        assert(edits_for(q, c) == edits_for(qd, c).push(q[i]));
        lemma_apply_edits_len(tiles, edits_for(qd, c));
        assert(spec_apply_edits(tiles, edits_for(qd, c).push(q[i])) == spec_apply_edits(
            tiles,
            edits_for(qd, c),
        ).update(spec_local_index(pos), q[i].1)) by {
            let es = edits_for(qd, c).push(q[i]);
            assert(es.drop_last() =~= edits_for(qd, c));
            assert(es.last() == q[i]);
        }
    } else {
        assert(qd[i] == q[i]);
        lemma_apply_edits_last_wins(tiles, qd, i);
        let e = q.last();
        assert(e.0 != pos);
        if spec_chunk_pos(e.0) == c {
            assert(edits_for(q, c) == edits_for(qd, c).push(e));
            lemma_apply_edits_len(tiles, edits_for(qd, c));
            lemma_local_index_bounds(e.0);
            lemma_local_index_injective(pos, e.0);
            assert(spec_apply_edits(tiles, edits_for(qd, c).push(e)) == spec_apply_edits(
                tiles,
                edits_for(qd, c),
            ).update(spec_local_index(e.0), e.1)) by {
                let es = edits_for(qd, c).push(e);
                assert(es.drop_last() =~= edits_for(qd, c));
                assert(es.last() == e);
            }
        } else {
            assert(edits_for(q, c) == edits_for(qd, c));
        }
    }
}

/// Edit ordering: when the last queued edit to a coordinate is `q[i]`, the
/// update pass leaves that edit's value in the coordinate's slot -- later
/// edits win over earlier ones.
pub proof fn lemma_edit_ordering(pre: TileMap, post: TileMap, i: int)
    requires
        pre.wf(),
        spec_update(pre, post),
        0 <= i < pre.tile_changes@.len(),
        forall|j: int|
            i < j < pre.tile_changes@.len() ==> (#[trigger] pre.tile_changes@[j]).0
                != pre.tile_changes@[i].0,
    ensures
        post.has_chunk(spec_chunk_pos(pre.tile_changes@[i].0)),
        post.chunk_at(spec_chunk_pos(pre.tile_changes@[i].0)).tiles@[spec_local_index(
            pre.tile_changes@[i].0,
        )] == pre.tile_changes@[i].1,
{
    let q = pre.tile_changes@;
    let pos = q[i].0;
    let c = spec_chunk_pos(pos);
    let pred = |e: TileEdit| spec_chunk_pos(e.0) == c;
    q.lemma_filter_contains(pred, i);
    assert(edits_for(q, c).contains(q[i]));
    assert(edits_for(q, c).len() > 0);
    assert(post.has_chunk(c));
    assert(pre.spec_chunk_touched(c));
    assert(pre.spec_base_tiles(c).len() == TILES_PER_CHUNK) by {
        if pre.has_chunk(c) && !pre.spec_chunk_cleared(c) {
            let w = choose|w: int| 0 <= w < pre.chunks@.len() && pre.chunks@[w].0 == c;
            lemma_assoc_get_index(pre.chunks@, w);
            assert(pre.chunks@[w].1.wf());
        }
    }
    lemma_apply_edits_last_wins(pre.spec_base_tiles(c), q, i);
}

/// Idempotent clear: after a full clear request, one update pass empties
/// every chunk, and a second pass changes nothing more -- not the chunk
/// contents, not the markers, not the change counter.
pub proof fn lemma_clear_update_idempotent(m1: TileMap, m2: TileMap, m3: TileMap)
    requires
        m1.clear_all,
        m1.tile_changes@.len() == 0,
        m1.clear_layers@.len() == 0,
        spec_update(m1, m2),
        spec_update(m2, m3),
    ensures
        forall|c: ChunkCoord| #[trigger] m2.has_chunk(c) ==> all_empty(m2.chunk_at(c).tiles@),
        forall|c: ChunkCoord| #[trigger] m3.has_chunk(c) <==> m2.has_chunk(c),
        forall|c: ChunkCoord| #[trigger] m3.has_chunk(c) ==> m3.chunk_at(c) == m2.chunk_at(c),
        m3.change_counter == m2.change_counter,
{
    reveal(Seq::filter);
    assert forall|c: ChunkCoord| #[trigger] edits_for(m1.tile_changes@, c).len() == 0 by {
        assert(m1.tile_changes@.len() == 0);
    }
    assert forall|c: ChunkCoord| #[trigger] edits_for(m2.tile_changes@, c).len() == 0 by {
        assert(m2.tile_changes@.len() == 0);
    }
    assert(!m2.spec_pending_work());
    assert forall|c: ChunkCoord| #[trigger] m2.has_chunk(c) implies all_empty(
        m2.chunk_at(c).tiles@,
    ) by {
        assert(m1.spec_chunk_touched(c));
        assert(m2.chunk_at(c).tiles@ == spec_apply_edits(
            m1.spec_base_tiles(c),
            edits_for(m1.tile_changes@, c),
        ));
        assert(edits_for(m1.tile_changes@, c) =~= Seq::<TileEdit>::empty());
        assert(m2.chunk_at(c).tiles@ == m1.spec_base_tiles(c));
        assert(m1.spec_base_tiles(c) == empty_tiles());
    }
    assert forall|c: ChunkCoord| #[trigger] m3.has_chunk(c) implies m3.chunk_at(c) == m2.chunk_at(
        c,
    ) by {
        assert(!m2.spec_chunk_touched(c));
    }
}

} // verus!
