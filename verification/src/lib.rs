//! Sparse, chunked 2D/layered tile storage with dirty tracking and
//! draw-batch generation.
//!
//! Tiles live on an effectively infinite integer grid, addressed by
//! `(x, y, layer)` coordinates. Storage is a sparse collection of fixed-size
//! 64x64 chunks. Edits are queued on a [`tilemap::TileMap`] and materialized
//! by an update pass; each chunk carries a monotonic change marker so that
//! extraction can skip chunks that did not change. Visible, changed chunks
//! are snapshotted and turned into vertex quads grouped into draw batches.

pub mod batch;
pub mod chunk;
pub mod coords;
pub mod extract;
pub mod pipeline_key;
pub mod tile;
pub mod tilemap;
pub mod visibility;
