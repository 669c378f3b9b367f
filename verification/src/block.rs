//! Block kinds and their place in the texture atlas.

use vstd::prelude::*;

verus! {

/// Width and height of the texture atlas, in texels.
pub const ATLAS_SIZE: (usize, usize) = (32, 32);

/// Edge length of one block texture, in texels.
pub const TEXTURE_SIZE: u32 = 16;

/// The material of one voxel.
#[derive(PartialEq, Eq, Structural, Clone, Copy, Debug)]
pub enum Block {
    Grass,
    Dirt,
    Stone,
    Water,
    Air,
}

/// Texel coordinates of the corner of a block's texture that lies nearest the
/// atlas origin.
#[derive(PartialEq, Eq, Structural, Clone, Copy, Debug)]
pub struct BlockTextureConfig {
    pub starting_x: u32,
    pub starting_y: u32,
}

impl BlockTextureConfig {
    pub fn new(starting_x: u32, starting_y: u32) -> (config: Self)
        ensures
            config == (BlockTextureConfig { starting_x, starting_y }),
    {
        Self { starting_x, starting_y }
    }
}

impl Block {
    /// Every block but `Air` blocks the view of what lies behind it.
    pub open spec fn spec_is_opaque(self) -> bool {
        self != Block::Air
    }

    /// Where each block's tile starts in the atlas. `Air` has no texture.
    pub open spec fn spec_texture_config(self) -> Option<BlockTextureConfig> {
        match self {
            Block::Dirt => Some(BlockTextureConfig { starting_x: 0, starting_y: 16 }),
            Block::Grass => Some(BlockTextureConfig { starting_x: 0, starting_y: 0 }),
            Block::Stone => Some(BlockTextureConfig { starting_x: 16, starting_y: 0 }),
            Block::Water => Some(BlockTextureConfig { starting_x: 16, starting_y: 16 }),
            Block::Air => None,
        }
    }

    /// The atlas tile of a textured block.
    pub fn get_texture_config(self) -> (config: BlockTextureConfig)
        requires
            self != Block::Air,
        ensures
            Some(config) == self.spec_texture_config(),
    {
        match self {
            Block::Dirt => BlockTextureConfig::new(0, 16),
            Block::Grass => BlockTextureConfig::new(0, 0),
            Block::Stone => BlockTextureConfig::new(16, 0),
            _ => BlockTextureConfig::new(16, 16),
        }
    }

    #[verifier::when_used_as_spec(spec_is_opaque)]
    pub fn is_opaque(self) -> (opaque: bool)
        ensures
            opaque == self.spec_is_opaque(),
    {
        self != Block::Air
    }
}

} // verus!
