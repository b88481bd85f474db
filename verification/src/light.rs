//! Packed dual-channel illumination values.

use vstd::prelude::*;

verus! {

/// One byte of illumination data: block light in the low four bits and
/// sky light in the high four bits. Each channel ranges over 0..16; a
/// wider channel value simply aliases under the mask when packed.
#[derive(Clone, Copy, PartialEq, Eq, Structural, Debug)]
pub struct LightLevel {
    pub value: u8,
}

impl LightLevel {
    /// The low nibble: light contributed by nearby luminous blocks.
    pub open spec fn spec_block_light(self) -> u8 {
        self.value & 0x0f
    }

    /// The high nibble: light reaching the cell from the open sky.
    pub open spec fn spec_sky_light(self) -> u8 {
        self.value >> 4
    }

    /// The value that packs the channel pair (block, sky), masking each
    /// channel to four bits.
    pub open spec fn spec_pack(block: u8, sky: u8) -> LightLevel {
        LightLevel { value: (sky << 4) | (block & 0x0f) }
    }

    /// Packs a channel pair into one light value. No validation is
    /// performed: channels outside 0..16 alias under the mask.
    pub fn new(block: u8, sky: u8) -> (l: LightLevel)
        ensures
            l == Self::spec_pack(block, sky),
    {
        LightLevel { value: (sky << 4) | (block & 0x0f) }
    }

    /// Reads the block-light channel.
    pub fn block_light(self) -> (r: u8)
        ensures
            r == self.spec_block_light(),
            r < 16,
    {
        let v = self.value;
        proof {
            assert(v & 0x0f < 16) by (bit_vector);
        }
        v & 0x0f
    }

    /// Reads the sky-light channel.
    pub fn sky_light(self) -> (r: u8)
        ensures
            r == self.spec_sky_light(),
            r < 16,
    {
        let v = self.value;
        proof {
            assert(v >> 4 < 16) by (bit_vector);
        }
        v >> 4
    }
}

/// Law: packing a channel pair and reading both channels back returns
/// the original pair, for every block and sky value in 0..16.
pub proof fn lemma_light_round_trip(block: u8, sky: u8)
    requires
        block < 16,
        sky < 16,
    ensures
        LightLevel::spec_pack(block, sky).spec_block_light() == block,
        LightLevel::spec_pack(block, sky).spec_sky_light() == sky,
{
    assert((((sky << 4) | (block & 0x0f)) & 0x0f) == block) by (bit_vector)
        requires
            block < 16,
            sky < 16,
    ;
    assert((((sky << 4) | (block & 0x0f)) >> 4) == sky) by (bit_vector)
        requires
            block < 16,
            sky < 16,
    ;
}

} // verus!
