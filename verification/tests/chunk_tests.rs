use voxel_terrain::block::Block;
use voxel_terrain::chunk::{Chunk, CHUNK_SIZE};

fn grass_below_zero(_x: i64, y: i64, _z: i64) -> Block {
    if y < 0 {
        Block::Grass
    } else {
        Block::Air
    }
}

fn all_air(_x: i64, _y: i64, _z: i64) -> Block {
    Block::Air
}

fn stone_at_world_origin(x: i64, y: i64, z: i64) -> Block {
    if x == 0 && y == 0 && z == 0 {
        Block::Stone
    } else {
        Block::Air
    }
}

fn striped(x: i64, y: i64, z: i64) -> Block {
    match (x + 2 * y + 3 * z).rem_euclid(5) {
        0 => Block::Grass,
        1 => Block::Dirt,
        2 => Block::Stone,
        3 => Block::Water,
        _ => Block::Air,
    }
}

#[test]
fn fresh_chunk_is_empty_and_all_air() {
    let chunk = Chunk::empty((3, -4, 5));
    assert!(chunk.is_empty());
    assert_eq!(chunk.pos(), (3, -4, 5));
    for x in 0..CHUNK_SIZE {
        for y in 0..CHUNK_SIZE {
            for z in 0..CHUNK_SIZE {
                assert_eq!(chunk.voxel(x, y, z), Block::Air);
            }
        }
    }
}

#[test]
fn chunk_of_air_generates_empty() {
    let mut chunk = Chunk::empty((1, 2, 3));
    chunk.generate(&all_air);
    assert!(chunk.is_empty());
}

#[test]
fn chunk_above_ground_is_empty() {
    let mut chunk = Chunk::empty((0, 0, 0));
    chunk.generate(&grass_below_zero);
    assert!(chunk.is_empty());
}

#[test]
fn chunk_below_ground_is_full_of_grass() {
    let mut chunk = Chunk::empty((0, -1, 0));
    chunk.generate(&grass_below_zero);
    assert!(!chunk.is_empty());
    for x in 0..CHUNK_SIZE {
        for y in 0..CHUNK_SIZE {
            for z in 0..CHUNK_SIZE {
                assert_eq!(chunk.voxel(x, y, z), Block::Grass);
            }
        }
    }
}

#[test]
fn generation_samples_world_positions() {
    let mut chunk = Chunk::empty((-2, 1, 3));
    chunk.generate(&striped);
    assert_eq!(chunk.pos(), (-2, 1, 3));
    assert_eq!(chunk.world_origin(), (-32, 16, 48));
    for x in 0..CHUNK_SIZE {
        for y in 0..CHUNK_SIZE {
            for z in 0..CHUNK_SIZE {
                let expected = striped(-32 + x as i64, 16 + y as i64, 48 + z as i64);
                assert_eq!(chunk.voxel(x, y, z), expected);
            }
        }
    }
}

#[test]
fn one_solid_voxel_makes_a_chunk_non_empty() {
    let mut chunk = Chunk::empty((0, 0, 0));
    chunk.generate(&stone_at_world_origin);
    assert!(!chunk.is_empty());
    assert_eq!(chunk.voxel(0, 0, 0), Block::Stone);
    assert_eq!(chunk.voxel(0, 0, 1), Block::Air);

    let mut neighbor = Chunk::empty((1, 0, 0));
    neighbor.generate(&stone_at_world_origin);
    assert!(neighbor.is_empty());
}

#[test]
fn world_origin_at_the_far_corners_of_the_grid() {
    assert_eq!(
        Chunk::empty((i32::MAX, i32::MIN, 0)).world_origin(),
        (i32::MAX as i64 * 16, i32::MIN as i64 * 16, 0)
    );
}

#[test]
fn generating_twice_gives_the_same_voxels() {
    let mut one = Chunk::empty((4, -1, 7));
    one.generate(&striped);
    let mut other = Chunk::empty((4, -1, 7));
    other.generate(&striped);
    other.generate(&striped);
    assert_eq!(one.is_empty(), other.is_empty());
    for x in 0..CHUNK_SIZE {
        for y in 0..CHUNK_SIZE {
            for z in 0..CHUNK_SIZE {
                assert_eq!(one.voxel(x, y, z), other.voxel(x, y, z));
            }
        }
    }
}

#[test]
fn chunks_are_equal_where_their_coordinates_are() {
    let mut full = Chunk::empty((0, -1, 0));
    full.generate(&grass_below_zero);
    let blank = Chunk::empty((0, -1, 0));
    let elsewhere = Chunk::empty((0, 1, 0));
    assert!(full == blank);
    assert!(blank != elsewhere);
}
