use voxel_terrain::block::Block;
use voxel_terrain::terrain::is_occluded;

fn grass_below_zero(_x: i64, y: i64, _z: i64) -> Block {
    if y < 0 {
        Block::Grass
    } else {
        Block::Air
    }
}

fn hollow_at_origin(x: i64, y: i64, z: i64) -> Block {
    if x == 0 && y == 0 && z == 0 {
        Block::Air
    } else {
        Block::Stone
    }
}

fn open_towards_negative_z(x: i64, y: i64, z: i64) -> Block {
    if x == 4 && y == 4 && z == 3 {
        Block::Air
    } else {
        Block::Dirt
    }
}

#[test]
fn deep_underground_is_occluded() {
    assert!(is_occluded(&grass_below_zero, 0, -10, 0));
    assert!(is_occluded(&grass_below_zero, 5, -2, -7));
}

#[test]
fn the_surface_layer_is_open_to_the_sky() {
    assert!(!is_occluded(&grass_below_zero, 0, -1, 0));
    assert!(!is_occluded(&grass_below_zero, 0, 0, 0));
    assert!(!is_occluded(&grass_below_zero, 0, 10, 0));
}

#[test]
fn occlusion_looks_at_the_neighbors_only() {
    assert!(is_occluded(&hollow_at_origin, 0, 0, 0));
    assert!(!is_occluded(&hollow_at_origin, 1, 0, 0));
    assert!(!is_occluded(&hollow_at_origin, 0, -1, 0));
    assert!(!is_occluded(&hollow_at_origin, 0, 0, 1));
    assert!(is_occluded(&hollow_at_origin, 1, 1, 0));
}

#[test]
fn one_open_side_is_enough() {
    assert!(!is_occluded(&open_towards_negative_z, 4, 4, 4));
    assert!(is_occluded(&open_towards_negative_z, 4, 4, 5));
}
