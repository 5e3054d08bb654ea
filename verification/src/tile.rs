//! The tile value type: sprite index, color tint and flip flags.

use vstd::prelude::*;

verus! {

/// Bit for mirroring a tile horizontally.
pub const FLIP_X: u32 = 1;

/// Bit for mirroring a tile vertically.
pub const FLIP_Y: u32 = 2;

/// Per-tile flip flags, a small bitset of [`FLIP_X`] and [`FLIP_Y`].
#[derive(Clone, Copy, Debug, PartialEq, Eq, Structural)]
pub struct TileFlags {
    pub bits: u32,
}

impl TileFlags {
    /// Whether the horizontal-mirror bit is set.
    pub open spec fn spec_flips_x(self) -> bool {
        self.bits & FLIP_X != 0
    }

    /// Whether the vertical-mirror bit is set.
    pub open spec fn spec_flips_y(self) -> bool {
        self.bits & FLIP_Y != 0
    }

    pub fn empty() -> (r: TileFlags)
        ensures
            r.bits == 0,
    {
        TileFlags { bits: 0 }
    }

    pub fn from_bits(bits: u32) -> (r: TileFlags)
        ensures
            r.bits == bits,
    {
        TileFlags { bits }
    }

    pub fn flips_x(self) -> (r: bool)
        ensures
            r == self.spec_flips_x(),
    {
        self.bits & FLIP_X != 0
    }

    pub fn flips_y(self) -> (r: bool)
        ensures
            r == self.spec_flips_y(),
    {
        self.bits & FLIP_Y != 0
    }
}

impl Default for TileFlags {
    fn default() -> (r: TileFlags)
        ensures
            r.bits == 0,
    {
        TileFlags { bits: 0 }
    }
}

/// An RGBA color tint with 8-bit channels; `(255, 255, 255, 255)` is
/// opaque white, the neutral tint.
#[derive(Clone, Copy, Debug, PartialEq, Eq, Structural)]
pub struct TileColor {
    pub r: u8,
    pub g: u8,
    pub b: u8,
    pub a: u8,
}

impl TileColor {
    pub fn new(r: u8, g: u8, b: u8, a: u8) -> (c: TileColor)
        ensures
            c == (TileColor { r, g, b, a }),
    {
        TileColor { r, g, b, a }
    }

    pub fn white() -> (c: TileColor)
        ensures
            c == (TileColor { r: 255u8, g: 255u8, b: 255u8, a: 255u8 }),
    {
        TileColor { r: 255, g: 255, b: 255, a: 255 }
    }
}

impl Default for TileColor {
    fn default() -> (c: TileColor)
        ensures
            c == (TileColor { r: 255u8, g: 255u8, b: 255u8, a: 255u8 }),
    {
        TileColor { r: 255, g: 255, b: 255, a: 255 }
    }
}

/// A tile value: which sprite of the atlas to draw, a color tint, and flip
/// flags. Tiles are plain values; a slot in a chunk holds `Option<Tile>`
/// and `None` means the slot is empty.
#[derive(Clone, Copy, Debug, PartialEq, Eq, Structural)]
pub struct Tile {
    pub sprite_index: u32,
    pub color: TileColor,
    pub flags: TileFlags,
}

impl Tile {
    /// A tile showing the given sprite with no tint and no flips.
    pub fn new(sprite_index: u32) -> (t: Tile)
        ensures
            t.sprite_index == sprite_index,
            t.color == (TileColor { r: 255u8, g: 255u8, b: 255u8, a: 255u8 }),
            t.flags.bits == 0,
    {
        Tile { sprite_index, color: TileColor::white(), flags: TileFlags::empty() }
    }
}

impl Default for Tile {
    fn default() -> (t: Tile)
        ensures
            t.sprite_index == 0,
            t.color == (TileColor { r: 255u8, g: 255u8, b: 255u8, a: 255u8 }),
            t.flags.bits == 0,
    {
        Tile { sprite_index: 0, color: TileColor::white(), flags: TileFlags::empty() }
    }
}

} // verus!
