use voxel_terrain::block::{Block, BlockTextureConfig, ATLAS_SIZE, TEXTURE_SIZE};

#[test]
fn only_air_is_transparent() {
    assert!(Block::Grass.is_opaque());
    assert!(Block::Dirt.is_opaque());
    assert!(Block::Stone.is_opaque());
    assert!(Block::Water.is_opaque());
    assert!(!Block::Air.is_opaque());
}

#[test]
fn texture_config_new_keeps_its_arguments() {
    let config = BlockTextureConfig::new(3, 9);
    assert_eq!(config.starting_x, 3);
    assert_eq!(config.starting_y, 9);
}

#[test]
fn each_textured_block_has_its_tile() {
    assert_eq!(Block::Grass.get_texture_config(), BlockTextureConfig::new(0, 0));
    assert_eq!(Block::Dirt.get_texture_config(), BlockTextureConfig::new(0, 16));
    assert_eq!(Block::Stone.get_texture_config(), BlockTextureConfig::new(16, 0));
    assert_eq!(Block::Water.get_texture_config(), BlockTextureConfig::new(16, 16));
}

#[test]
fn tiles_lie_inside_the_atlas() {
    for block in [Block::Grass, Block::Dirt, Block::Stone, Block::Water] {
        let config = block.get_texture_config();
        assert!((config.starting_x + TEXTURE_SIZE) as usize <= ATLAS_SIZE.0);
        assert!((config.starting_y + TEXTURE_SIZE) as usize <= ATLAS_SIZE.1);
    }
}
