use voxel_terrain::block::Block;
use voxel_terrain::chunk::Chunk;
use voxel_terrain::region::{despawn_old_chunks, spawn_chunks_in_region};
use voxel_terrain::store::{GeneratedChunks, LoadedChunks};

fn grass_below_zero(_x: i64, y: i64, _z: i64) -> Block {
    if y < 0 {
        Block::Grass
    } else {
        Block::Air
    }
}

fn positions_of(spawned: &[voxel_terrain::loading::ChunkMesh]) -> Vec<(i32, i32, i32)> {
    spawned.iter().map(|chunk| chunk.pos).collect()
}

#[test]
fn region_pass_waits_for_the_timer() {
    let mut chunks = GeneratedChunks::new();
    let mut loaded = LoadedChunks::new();
    let spawned = spawn_chunks_in_region(
        &mut chunks,
        &mut loaded,
        &grass_below_zero,
        false,
        (0, 0, 0),
        &vec![-1, 0, 1],
        &vec![-1, 0],
        &vec![0],
    );
    assert!(spawned.is_empty());
    assert!(chunks.coordinates().is_empty());
    assert!(!loaded.contains((0, -1, 0)));
}

#[test]
fn region_pass_generates_all_and_loads_what_is_solid() {
    let mut chunks = GeneratedChunks::new();
    let mut loaded = LoadedChunks::new();
    let spawned = spawn_chunks_in_region(
        &mut chunks,
        &mut loaded,
        &grass_below_zero,
        true,
        (10, 0, -10),
        &vec![-1, 0, 1],
        &vec![-1, 0],
        &vec![0, 5],
    );
    assert_eq!(
        positions_of(&spawned),
        vec![(9, -1, -10), (9, -1, -5), (10, -1, -10), (10, -1, -5), (11, -1, -10), (11, -1, -5)]
    );
    assert_eq!(chunks.coordinates().len(), 12);
    for x in 9..=11 {
        for z in [-10, -5] {
            assert!(loaded.contains((x, -1, z)));
            assert!(!chunks.get((x, -1, z)).unwrap().is_empty());
            assert!(!loaded.contains((x, 0, z)));
            assert!(chunks.get((x, 0, z)).unwrap().is_empty());
        }
    }
    for chunk in &spawned {
        assert_eq!(chunk.mesh.positions.len(), 6 * 256 * 4);
    }
}

#[test]
fn region_pass_stops_at_the_limit_and_goes_on_next_time() {
    let mut chunks = GeneratedChunks::new();
    let mut loaded = LoadedChunks::new();
    let xs: Vec<i32> = (0..20).collect();
    let first = spawn_chunks_in_region(
        &mut chunks, &mut loaded, &grass_below_zero, true, (0, 0, 0), &xs, &vec![-1], &vec![0],
    );
    let expected: Vec<(i32, i32, i32)> = (0..16).map(|x| (x, -1, 0)).collect();
    assert_eq!(positions_of(&first), expected);
    // What lies behind the sixteenth chunk was not visited.
    assert_eq!(chunks.coordinates().len(), 16);
    assert!(!chunks.contains((16, -1, 0)));
    let second = spawn_chunks_in_region(
        &mut chunks, &mut loaded, &grass_below_zero, true, (0, 0, 0), &xs, &vec![-1], &vec![0],
    );
    assert_eq!(positions_of(&second), vec![(16, -1, 0), (17, -1, 0), (18, -1, 0), (19, -1, 0)]);
    let third = spawn_chunks_in_region(
        &mut chunks, &mut loaded, &grass_below_zero, true, (0, 0, 0), &xs, &vec![-1], &vec![0],
    );
    assert!(third.is_empty());
    assert_eq!(chunks.coordinates().len(), 20);
}

#[test]
fn region_pass_visits_a_repeated_coordinate_once() {
    let mut chunks = GeneratedChunks::new();
    let mut loaded = LoadedChunks::new();
    let spawned = spawn_chunks_in_region(
        &mut chunks,
        &mut loaded,
        &grass_below_zero,
        true,
        (0, 0, 0),
        &vec![2, 2],
        &vec![-3, -3, 1],
        &vec![4],
    );
    assert_eq!(positions_of(&spawned), vec![(2, -3, 4)]);
    let mut coordinates = chunks.coordinates();
    coordinates.sort();
    assert_eq!(coordinates, vec![(2, -3, 4), (2, 1, 4)]);
}

#[test]
fn region_pass_keeps_cached_chunks_and_never_meshes_empty_ones() {
    let mut chunks = GeneratedChunks::new();
    // A blank chunk where the sampler would give grass.
    chunks.insert((0, -1, 0), Chunk::empty((0, -1, 0)));
    let mut loaded = LoadedChunks::new();
    loaded.insert((1, -1, 0));
    let spawned = spawn_chunks_in_region(
        &mut chunks,
        &mut loaded,
        &grass_below_zero,
        true,
        (0, 0, 0),
        &vec![0, 1, 2],
        &vec![-1],
        &vec![0],
    );
    assert_eq!(positions_of(&spawned), vec![(2, -1, 0)]);
    assert!(chunks.get((0, -1, 0)).unwrap().is_empty());
    assert!(!loaded.contains((0, -1, 0)));
    // What was loaded is not even generated.
    assert!(!chunks.contains((1, -1, 0)));
    assert!(loaded.contains((1, -1, 0)));
}

#[test]
fn region_pass_over_no_offsets_does_nothing() {
    let mut chunks = GeneratedChunks::new();
    let mut loaded = LoadedChunks::new();
    let spawned = spawn_chunks_in_region(
        &mut chunks,
        &mut loaded,
        &grass_below_zero,
        true,
        (0, 0, 0),
        &vec![0, 1],
        &Vec::new(),
        &vec![0],
    );
    assert!(spawned.is_empty());
    assert!(chunks.coordinates().is_empty());
}

#[test]
fn old_chunks_are_despawned_when_the_timer_finishes() {
    let mut loaded = LoadedChunks::new();
    loaded.insert((0, 0, 0));
    loaded.insert((20, 0, 0));
    let entities = vec![(0, 0, 0), (320, 0, 0)];
    let waiting = despawn_old_chunks(&mut loaded, &entities, false, (0, 0, 0));
    assert!(waiting.is_empty());
    assert!(loaded.contains((20, 0, 0)));
    let despawned = despawn_old_chunks(&mut loaded, &entities, true, (0, 0, 0));
    assert_eq!(despawned, vec![1]);
    assert!(loaded.contains((0, 0, 0)));
    assert!(!loaded.contains((20, 0, 0)));
}
