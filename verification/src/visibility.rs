//! Visibility culling: which chunks' world-space footprints overlap a view
//! rectangle, tested as bounding circles.
//!
//! World positions are integers. To keep rectangle centers exact (a
//! rectangle of odd size has a half-integral center), rectangles store
//! their center doubled; widths and heights are stored as-is. The overlap
//! test compares the distance of the two centers against the sum of the
//! circumradii of the two rectangles -- a deliberate over-approximation of
//! exact rectangle overlap that never misses an overlapping pair. The
//! irrational square roots are eliminated by squaring, so the test is
//! exact integer arithmetic.

use vstd::prelude::*;

use crate::coords::{spec_chunk_origin, ChunkCoord, TileCoord, CHUNK_HEIGHT, CHUNK_WIDTH};

verus! {

/// Bound on rectangle coordinates (doubled centers and sizes), chosen so
/// that the squared-out circle test cannot overflow `i128`.
pub const WORLD_BOUND: i64 = 0x4000_0000;

/// Largest scale factor a map transform may carry.
pub const MAX_SCALE: i64 = 0x1_0000;

/// Largest translation magnitude a map transform may carry.
pub const MAX_TRANSLATION: i64 = 0x100_0000_0000;

/// Largest tile dimension, in pixels.
pub const MAX_TILE_DIM: u32 = 0x1_0000;

/// An axis-aligned rectangle in world units: `center_x2`/`center_y2` hold
/// twice the center position, `width` and `height` the full extents.
#[derive(Clone, Copy, Debug, PartialEq, Eq, Structural)]
pub struct ViewRect {
    pub center_x2: i64,
    pub center_y2: i64,
    pub width: i64,
    pub height: i64,
}

impl ViewRect {
    pub open spec fn wf(self) -> bool {
        &&& -WORLD_BOUND <= self.center_x2 <= WORLD_BOUND
        &&& -WORLD_BOUND <= self.center_y2 <= WORLD_BOUND
        &&& 0 <= self.width <= WORLD_BOUND
        &&& 0 <= self.height <= WORLD_BOUND
    }

    /// A rectangle given by its center (doubled) and full size.
    pub fn new(center_x2: i64, center_y2: i64, width: i64, height: i64) -> (r: ViewRect)
        requires
            -WORLD_BOUND <= center_x2 <= WORLD_BOUND,
            -WORLD_BOUND <= center_y2 <= WORLD_BOUND,
            0 <= width <= WORLD_BOUND,
            0 <= height <= WORLD_BOUND,
        ensures
            r == (ViewRect { center_x2, center_y2, width, height }),
            r.wf(),
    {
        ViewRect { center_x2, center_y2, width, height }
    }
}

/// A tile map's world transform: a translation and a per-axis scale.
/// Rotation is out of scope; tiles stay axis-aligned. `translation_z`
/// orders whole maps front to back.
#[derive(Clone, Copy, Debug, PartialEq, Eq, Structural)]
pub struct MapTransform {
    pub translation_x: i64,
    pub translation_y: i64,
    pub translation_z: i64,
    pub scale_x: i64,
    pub scale_y: i64,
}

impl MapTransform {
    pub open spec fn wf(self) -> bool {
        &&& 1 <= self.scale_x <= MAX_SCALE
        &&& 1 <= self.scale_y <= MAX_SCALE
        &&& -MAX_TRANSLATION <= self.translation_x <= MAX_TRANSLATION
        &&& -MAX_TRANSLATION <= self.translation_y <= MAX_TRANSLATION
    }

    pub fn new(translation_x: i64, translation_y: i64, translation_z: i64, scale_x: i64, scale_y: i64) -> (r:
        MapTransform)
        requires
            1 <= scale_x <= MAX_SCALE,
            1 <= scale_y <= MAX_SCALE,
            -MAX_TRANSLATION <= translation_x <= MAX_TRANSLATION,
            -MAX_TRANSLATION <= translation_y <= MAX_TRANSLATION,
        ensures
            r == (MapTransform { translation_x, translation_y, translation_z, scale_x, scale_y }),
            r.wf(),
    {
        MapTransform { translation_x, translation_y, translation_z, scale_x, scale_y }
    }
}

/// Whether two circles with squared radii `ra2` and `rb2` and squared
/// center distance `d2` overlap, that is, whether
/// `sqrt(d2) < sqrt(ra2) + sqrt(rb2)`, written without square roots:
/// squaring both sides twice turns the comparison into the two integer
/// conditions below.
pub open spec fn spec_circles_overlap(d2: int, ra2: int, rb2: int) -> bool {
    if d2 <= ra2 + rb2 {
        d2 < ra2 + rb2 || ra2 * rb2 > 0
    } else {
        (d2 - ra2 - rb2) * (d2 - ra2 - rb2) < 4 * (ra2 * rb2)
    }
}

/// Squared distance of two rectangle centers, in doubled units.
pub open spec fn spec_center_dist2(a: ViewRect, b: ViewRect) -> int {
    (a.center_x2 - b.center_x2) * (a.center_x2 - b.center_x2) + (a.center_y2 - b.center_y2) * (
    a.center_y2 - b.center_y2)
}

/// Squared circumradius of a rectangle, in doubled units: the full width
/// and height are exactly twice the half-extents.
pub open spec fn spec_radius2(a: ViewRect) -> int {
    a.width * a.width + a.height * a.height
}

/// Whether the bounding circles of two rectangles overlap.
pub open spec fn spec_rects_overlap(a: ViewRect, b: ViewRect) -> bool {
    spec_circles_overlap(spec_center_dist2(a, b), spec_radius2(a), spec_radius2(b))
}

/// Bounding-circle overlap test between two rectangles.
pub fn rects_overlap(a: &ViewRect, b: &ViewRect) -> (r: bool)
    requires
        a.wf(),
        b.wf(),
    ensures
        r == spec_rects_overlap(*a, *b),
{
    let dx: i64 = a.center_x2 - b.center_x2;
    let dy: i64 = a.center_y2 - b.center_y2;
    proof {
        assert(dx as int * dx as int <= 0x4000_0000_0000_0000 && dx as int * dx as int >= 0)
            by (nonlinear_arith)
            requires
                -0x8000_0000 <= dx as int <= 0x8000_0000,
        ;
        assert(dy as int * dy as int <= 0x4000_0000_0000_0000 && dy as int * dy as int >= 0)
            by (nonlinear_arith)
            requires
                -0x8000_0000 <= dy as int <= 0x8000_0000,
        ;
    }
    let dx2: i128 = (dx as i128) * (dx as i128);
    let dy2: i128 = (dy as i128) * (dy as i128);
    let d2: i128 = dx2 + dy2;
    let ra2: i128 = radius2(a);
    let rb2: i128 = radius2(b);
    if d2 <= ra2 + rb2 {
        proof {
            assert((ra2 as int * rb2 as int > 0) <==> (ra2 as int > 0 && rb2 as int > 0))
                by (nonlinear_arith)
                requires
                    ra2 as int >= 0 && rb2 as int >= 0,
            ;
        }
        d2 < ra2 + rb2 || (ra2 > 0 && rb2 > 0)
    } else {
        let diff: i128 = d2 - ra2 - rb2;
        proof {
            assert(diff as int * diff as int <= 0x4000_0000_0000_0000_0000_0000_0000_0000
                && diff as int * diff as int >= 0) by (nonlinear_arith)
                requires
                    0 < diff as int <= 0x8000_0000_0000_0000,
            ;
            assert(ra2 as int * rb2 as int <= 0x1000_0000_0000_0000_0000_0000_0000_0000
                && ra2 as int * rb2 as int >= 0) by (nonlinear_arith)
                requires
                    0 <= ra2 as int <= 0x2000_0000_0000_0000,
                    0 <= rb2 as int <= 0x2000_0000_0000_0000,
            ;
        }
        diff * diff < 4 * (ra2 * rb2)
    }
}

/// Squared circumradius of a rectangle, in doubled units.
fn radius2(a: &ViewRect) -> (r: i128)
    requires
        a.wf(),
    ensures
        r == spec_radius2(*a),
        0 <= r <= 0x2000_0000_0000_0000,
{
    proof {
        assert(a.width as int * a.width as int <= 0x1000_0000_0000_0000 && a.width as int
            * a.width as int >= 0) by (nonlinear_arith)
            requires
                0 <= a.width as int <= 0x4000_0000,
        ;
        assert(a.height as int * a.height as int <= 0x1000_0000_0000_0000 && a.height as int
            * a.height as int >= 0) by (nonlinear_arith)
            requires
                0 <= a.height as int <= 0x4000_0000,
        ;
    }
    (a.width as i128) * (a.width as i128) + (a.height as i128) * (a.height as i128)
}

/// Twice the world-space x of a chunk footprint's center: twice the
/// transformed minimum corner plus the footprint width.
pub open spec fn spec_fp_center_x2(origin: TileCoord, tile_w: u32, t: MapTransform) -> int {
    2 * (origin.x * tile_w * t.scale_x + t.translation_x) + spec_fp_width(tile_w, t)
}

/// Twice the world-space y of a chunk footprint's center.
pub open spec fn spec_fp_center_y2(origin: TileCoord, tile_h: u32, t: MapTransform) -> int {
    2 * (origin.y * tile_h * t.scale_y + t.translation_y) + spec_fp_height(tile_h, t)
}

/// World-space width of a chunk footprint: 64 tiles scaled to pixels.
pub open spec fn spec_fp_width(tile_w: u32, t: MapTransform) -> int {
    CHUNK_WIDTH as int * tile_w * t.scale_x
}

/// World-space height of a chunk footprint.
pub open spec fn spec_fp_height(tile_h: u32, t: MapTransform) -> int {
    CHUNK_HEIGHT as int * tile_h * t.scale_y
}

/// The chunk footprint fits inside the world bounds the overlap test
/// accepts.
pub open spec fn spec_fp_in_bounds(
    origin: TileCoord,
    tile_w: u32,
    tile_h: u32,
    t: MapTransform,
) -> bool {
    &&& -WORLD_BOUND <= spec_fp_center_x2(origin, tile_w, t) <= WORLD_BOUND
    &&& -WORLD_BOUND <= spec_fp_center_y2(origin, tile_h, t) <= WORLD_BOUND
    &&& spec_fp_width(tile_w, t) <= WORLD_BOUND
    &&& spec_fp_height(tile_h, t) <= WORLD_BOUND
}

/// The footprint rectangle of a chunk (meaningful when in bounds).
pub open spec fn spec_footprint(origin: TileCoord, tile_w: u32, tile_h: u32, t: MapTransform)
    -> ViewRect {
    ViewRect {
        center_x2: spec_fp_center_x2(origin, tile_w, t) as i64,
        center_y2: spec_fp_center_y2(origin, tile_h, t) as i64,
        width: spec_fp_width(tile_w, t) as i64,
        height: spec_fp_height(tile_h, t) as i64,
    }
}

/// Compute a chunk's world-space footprint under a map transform, or
/// `None` when it falls outside the world bounds the overlap test accepts
/// (such a chunk is treated as not visible).
pub fn chunk_footprint(origin: TileCoord, tile_w: u32, tile_h: u32, t: &MapTransform) -> (r:
    Option<ViewRect>)
    requires
        t.wf(),
        0 < tile_w <= MAX_TILE_DIM,
        0 < tile_h <= MAX_TILE_DIM,
    ensures
        r is Some <==> spec_fp_in_bounds(origin, tile_w, tile_h, *t),
        (r matches Some(rect) ==> rect == spec_footprint(origin, tile_w, tile_h, *t)
            && rect.wf()),
{
    proof {
        assert(-0x8000_0000_0000 <= origin.x as int * tile_w as int <= 0x8000_0000_0000
            && -0x8000_0000_0000_0000 <= (origin.x as int * tile_w as int) * (t.scale_x as int)
            <= 0x8000_0000_0000_0000) by (nonlinear_arith)
            requires
                -0x8000_0000 <= origin.x as int <= 0x8000_0000,
                0 < tile_w as int <= 0x1_0000,
                1 <= t.scale_x as int <= 0x1_0000,
        ;
        assert(-0x8000_0000_0000 <= origin.y as int * tile_h as int <= 0x8000_0000_0000
            && -0x8000_0000_0000_0000 <= (origin.y as int * tile_h as int) * (t.scale_y as int)
            <= 0x8000_0000_0000_0000) by (nonlinear_arith)
            requires
                -0x8000_0000 <= origin.y as int <= 0x8000_0000,
                0 < tile_h as int <= 0x1_0000,
                1 <= t.scale_y as int <= 0x1_0000,
        ;
        assert(0 <= 64 * tile_w as int && 64 * tile_w as int <= 0x40_0000 && 0 <= (64
            * tile_w as int) * (t.scale_x as int) <= 0x40_0000_0000) by (nonlinear_arith)
            requires
                0 < tile_w as int <= 0x1_0000,
                1 <= t.scale_x as int <= 0x1_0000,
        ;
        assert(0 <= 64 * tile_h as int && 64 * tile_h as int <= 0x40_0000 && 0 <= (64
            * tile_h as int) * (t.scale_y as int) <= 0x40_0000_0000) by (nonlinear_arith)
            requires
                0 < tile_h as int <= 0x1_0000,
                1 <= t.scale_y as int <= 0x1_0000,
        ;
    }
    let min_x: i128 = (origin.x as i128) * (tile_w as i128) * (t.scale_x as i128) + (
    t.translation_x as i128);
    let min_y: i128 = (origin.y as i128) * (tile_h as i128) * (t.scale_y as i128) + (
    t.translation_y as i128);
    let width: i128 = 64 * (tile_w as i128) * (t.scale_x as i128);
    let height: i128 = 64 * (tile_h as i128) * (t.scale_y as i128);
    let center_x2: i128 = 2 * min_x + width;
    let center_y2: i128 = 2 * min_y + height;
    let bound: i128 = WORLD_BOUND as i128;
    if -bound <= center_x2 && center_x2 <= bound && -bound <= center_y2 && center_y2 <= bound
        && width <= bound && height <= bound {
        Some(
            ViewRect {
                center_x2: center_x2 as i64,
                center_y2: center_y2 as i64,
                width: width as i64,
                height: height as i64,
            },
        )
    } else {
        None
    }
}

/// A chunk is visible when its footprint is in bounds and its bounding
/// circle overlaps at least one view rectangle.
pub open spec fn spec_chunk_visible(
    origin: TileCoord,
    tile_w: u32,
    tile_h: u32,
    t: MapTransform,
    views: Seq<ViewRect>,
) -> bool {
    &&& spec_fp_in_bounds(origin, tile_w, tile_h, t)
    &&& exists|v: int|
        0 <= v < views.len() && spec_rects_overlap(
            spec_footprint(origin, tile_w, tile_h, t),
            #[trigger] views[v],
        )
}

/// Whether a chunk's footprint overlaps any of the given views.
pub fn chunk_visible(
    origin: TileCoord,
    tile_w: u32,
    tile_h: u32,
    t: &MapTransform,
    views: &Vec<ViewRect>,
) -> (r: bool)
    requires
        t.wf(),
        0 < tile_w <= MAX_TILE_DIM,
        0 < tile_h <= MAX_TILE_DIM,
        forall|v: int| 0 <= v < views@.len() ==> (#[trigger] views@[v]).wf(),
    ensures
        r == spec_chunk_visible(origin, tile_w, tile_h, *t, views@),
{
    let fp = chunk_footprint(origin, tile_w, tile_h, t);
    match fp {
        Some(rect) => {
            let mut v: usize = 0;
            while v < views.len()
                invariant
                    v <= views@.len(),
                    spec_fp_in_bounds(origin, tile_w, tile_h, *t),
                    rect == spec_footprint(origin, tile_w, tile_h, *t),
                    rect.wf(),
                    forall|j: int| 0 <= j < views@.len() ==> (#[trigger] views@[j]).wf(),
                    forall|j: int|
                        0 <= j < v ==> !spec_rects_overlap(rect, #[trigger] views@[j]),
                decreases views@.len() - v,
            {
                if rects_overlap(&rect, &views[v]) {
                    return true;
                }
                v = v + 1;
            }
            false
        },
        None => false,
    }
}

/// The chunk coordinates of a map that are visible in at least one view.
/// A chunk whose footprint falls outside the world bounds is reported not
/// visible.
pub fn visible_chunks(
    chunks: &Vec<(ChunkCoord, crate::chunk::Chunk)>,
    tile_w: u32,
    tile_h: u32,
    t: &MapTransform,
    views: &Vec<ViewRect>,
) -> (r: Vec<ChunkCoord>)
    requires
        t.wf(),
        0 < tile_w <= MAX_TILE_DIM,
        0 < tile_h <= MAX_TILE_DIM,
        forall|v: int| 0 <= v < views@.len() ==> (#[trigger] views@[v]).wf(),
        forall|k: int|
            0 <= k < chunks@.len() ==> (#[trigger] chunks@[k]).1.origin == spec_chunk_origin(
                chunks@[k].0,
            ),
    ensures
        forall|c: ChunkCoord|
            #[trigger] r@.contains(c) <==> (exists|k: int|
                0 <= k < chunks@.len() && (#[trigger] chunks@[k]).0 == c && spec_chunk_visible(
                    spec_chunk_origin(c),
                    tile_w,
                    tile_h,
                    *t,
                    views@,
                )),
{
    let mut out: Vec<ChunkCoord> = Vec::new();
    let mut k: usize = 0;
    while k < chunks.len()
        invariant
            k <= chunks@.len(),
            t.wf(),
            0 < tile_w <= MAX_TILE_DIM,
            0 < tile_h <= MAX_TILE_DIM,
            forall|v: int| 0 <= v < views@.len() ==> (#[trigger] views@[v]).wf(),
            forall|j: int|
                0 <= j < chunks@.len() ==> (#[trigger] chunks@[j]).1.origin == spec_chunk_origin(
                    chunks@[j].0,
                ),
            forall|c: ChunkCoord|
                #[trigger] out@.contains(c) <==> (exists|j: int|
                    0 <= j < k && (#[trigger] chunks@[j]).0 == c && spec_chunk_visible(
                        spec_chunk_origin(c),
                        tile_w,
                        tile_h,
                        *t,
                        views@,
                    )),
        decreases chunks@.len() - k,
    {
        let c = chunks[k].0;
        let ghost out0 = out@;
        let visible = chunk_visible(chunks[k].1.origin, tile_w, tile_h, t, views);
        if visible {
            out.push(c);
            proof {
                assert forall|c2: ChunkCoord| #[trigger]
                    out@.contains(c2) implies (exists|j: int|
                    0 <= j < k + 1 && (#[trigger] chunks@[j]).0 == c2 && spec_chunk_visible(
                        spec_chunk_origin(c2),
                        tile_w,
                        tile_h,
                        *t,
                        views@,
                    )) by {
                    let w = choose|w: int| 0 <= w < out@.len() && out@[w] == c2;
                    if w < out0.len() {
                        assert(out0[w] == c2);
                        assert(out0.contains(c2));
                    } else {
                        assert(c2 == c);
                        assert((chunks@[k as int]).0 == c2);
                    }
                }
                assert forall|c2: ChunkCoord|
                    (exists|j: int|
                        0 <= j < k + 1 && (#[trigger] chunks@[j]).0 == c2 && spec_chunk_visible(
                            spec_chunk_origin(c2),
                            tile_w,
                            tile_h,
                            *t,
                            views@,
                        )) implies #[trigger] out@.contains(c2) by {
                    let j = choose|j: int|
                        0 <= j < k + 1 && (#[trigger] chunks@[j]).0 == c2 && spec_chunk_visible(
                            spec_chunk_origin(c2),
                            tile_w,
                            tile_h,
                            *t,
                            views@,
                        );
                    if j < k {
                        assert(out0.contains(c2));
                        let w = choose|w: int| 0 <= w < out0.len() && out0[w] == c2;
                        assert(out@[w] == c2);
                    } else {
                        assert(out@[out@.len() - 1] == c2);
                    }
                }
            }
        } else {
            proof {
                assert forall|c2: ChunkCoord|
                    (exists|j: int|
                        0 <= j < k + 1 && (#[trigger] chunks@[j]).0 == c2 && spec_chunk_visible(
                            spec_chunk_origin(c2),
                            tile_w,
                            tile_h,
                            *t,
                            views@,
                        )) implies #[trigger] out@.contains(c2) by {
                    let j = choose|j: int|
                        0 <= j < k + 1 && (#[trigger] chunks@[j]).0 == c2 && spec_chunk_visible(
                            spec_chunk_origin(c2),
                            tile_w,
                            tile_h,
                            *t,
                            views@,
                        );
                    if j == k {
                        assert(chunks@[k as int].1.origin == spec_chunk_origin(c2));
                        assert(false);
                    }
                }
            }
        }
        k = k + 1;
    }
    out
}

} // verus!
