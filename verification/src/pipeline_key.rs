//! The render pipeline key: a bitset that encodes the MSAA sample count in
//! its highest six bits, so one specialized pipeline exists per sample
//! count.

use vstd::prelude::*;
use vstd::std_specs::bits::u32_trailing_zeros;

verus! {

/// How far the MSAA bits are shifted into the key.
pub const MSAA_SHIFT_BITS: u32 = 26;

/// Mask of the MSAA bits before shifting.
pub const MSAA_MASK_BITS: u32 = 0b11_1111;

/// Key for specializing the tile map render pipeline. The sample count is
/// stored as its two's logarithm in the top six bits, supporting up to
/// 64x MSAA.
#[derive(Clone, Copy, Debug, Hash, PartialEq, Eq, Structural)]
pub struct TilemapPipelineKey {
    pub bits: u32,
}

impl TilemapPipelineKey {
    /// The key encoding a sample count: its trailing-zero count (the
    /// logarithm, for a power of two), masked and shifted into the top
    /// bits.
    pub open spec fn spec_from_msaa_samples(msaa_samples: u32) -> TilemapPipelineKey {
        TilemapPipelineKey {
            bits: (u32_trailing_zeros(msaa_samples) & MSAA_MASK_BITS) << MSAA_SHIFT_BITS,
        }
    }

    /// The sample count a key encodes.
    pub open spec fn spec_msaa_samples(self) -> u32 {
        1u32 << ((self.bits >> MSAA_SHIFT_BITS) & MSAA_MASK_BITS)
    }

    pub fn from_msaa_samples(msaa_samples: u32) -> (r: TilemapPipelineKey)
        ensures
            r == TilemapPipelineKey::spec_from_msaa_samples(msaa_samples),
    {
        let msaa_bits = (msaa_samples.trailing_zeros() & MSAA_MASK_BITS) << MSAA_SHIFT_BITS;
        TilemapPipelineKey { bits: msaa_bits }
    }

    /// Decode the sample count. The encoded logarithm must be below the
    /// bit width; every key made by `from_msaa_samples` from a nonzero
    /// sample count satisfies this.
    pub fn msaa_samples(&self) -> (r: u32)
        requires
            (self.bits >> MSAA_SHIFT_BITS) & MSAA_MASK_BITS < 32,
        ensures
            r == self.spec_msaa_samples(),
    {
        1u32 << ((self.bits >> MSAA_SHIFT_BITS) & MSAA_MASK_BITS)
    }
}

} // verus!
