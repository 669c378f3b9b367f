use voxel_terrain::block::Block;
use voxel_terrain::chunk::Chunk;
use voxel_terrain::generation::{generate_chunk_if_absent, MAX_CHUNKS_PROCESSED_PER_ITER};
use voxel_terrain::loading::{
    chunk_coordinate_of, is_in_view_distance, load_generated_chunks, spawn_initial_chunks,
    unload_chunks, INITIAL_BOX_WIDTH, INITIAL_VIEW_DISTANCE,
};
use voxel_terrain::store::{GeneratedChunks, LoadedChunks};

fn grass_below_zero(_x: i64, y: i64, _z: i64) -> Block {
    if y < 0 {
        Block::Grass
    } else {
        Block::Air
    }
}

fn cache_of(coordinates: &[(i32, i32, i32)]) -> GeneratedChunks {
    let mut chunks = GeneratedChunks::new();
    for pos in coordinates {
        assert!(generate_chunk_if_absent(&mut chunks, *pos, &grass_below_zero));
    }
    chunks
}

fn origin_of(pos: (i32, i32, i32)) -> (i32, i32, i32) {
    (pos.0 * 16, pos.1 * 16, pos.2 * 16)
}

#[test]
fn chunk_coordinate_rounds_towards_zero() {
    assert_eq!(chunk_coordinate_of((0, 15, 16)), (0, 0, 1));
    assert_eq!(chunk_coordinate_of((-1, -15, -16)), (0, 0, -1));
    assert_eq!(chunk_coordinate_of((-17, 31, 32)), (-1, 1, 2));
    assert_eq!(chunk_coordinate_of((160, -160, -175)), (10, -10, -10));
    assert_eq!(
        chunk_coordinate_of((i32::MIN, i32::MAX, 0)),
        (-134217728, 134217727, 0)
    );
}

#[test]
fn view_distance_reaches_sixteen_chunks_each_way() {
    assert!(is_in_view_distance((0, 0, 0), (0, 0, 0)));
    assert!(is_in_view_distance((0, 0, 0), (16, -16, 16)));
    assert!(!is_in_view_distance((0, 0, 0), (17, 0, 0)));
    assert!(!is_in_view_distance((0, 0, 0), (0, -17, 0)));
    assert!(!is_in_view_distance((0, 0, 0), (0, 0, 17)));
    assert!(is_in_view_distance((10, 20, 30), (26, 4, 46)));
    assert!(!is_in_view_distance((10, 20, 30), (27, 4, 46)));
    assert!(!is_in_view_distance((i32::MIN, 0, 0), (i32::MAX, 0, 0)));
    assert!(is_in_view_distance((i32::MAX, 0, 0), (i32::MAX - 16, 0, 0)));
}

#[test]
fn load_meshes_what_is_generated_solid_and_in_view() {
    let chunks = cache_of(&[(0, -1, 0), (0, 0, 0), (40, -1, 0), (1, -2, 1)]);
    let mut loaded = LoadedChunks::new();
    let spawned = load_generated_chunks(&mut loaded, &chunks, (0, 0, 0));
    let mut positions: Vec<(i32, i32, i32)> = spawned.iter().map(|chunk| chunk.pos).collect();
    positions.sort();
    assert_eq!(positions, vec![(0, -1, 0), (1, -2, 1)]);
    assert!(loaded.contains((0, -1, 0)));
    assert!(loaded.contains((1, -2, 1)));
    // Empty: generated, never loaded.
    assert!(!loaded.contains((0, 0, 0)));
    // Out of view.
    assert!(!loaded.contains((40, -1, 0)));
    for chunk in &spawned {
        let expected = chunks.get(chunk.pos).unwrap().get_mesh();
        assert_eq!(chunk.mesh.positions, expected.positions);
        assert_eq!(chunk.mesh.normals, expected.normals);
        assert_eq!(chunk.mesh.uvs, expected.uvs);
        assert_eq!(chunk.mesh.indices, expected.indices);
        assert_eq!(chunk.mesh.positions.len(), 6 * 256 * 4);
    }
}

#[test]
fn load_skips_what_is_loaded() {
    let chunks = cache_of(&[(0, -1, 0), (1, -1, 0)]);
    let mut loaded = LoadedChunks::new();
    loaded.insert((0, -1, 0));
    let spawned = load_generated_chunks(&mut loaded, &chunks, (0, 0, 0));
    assert_eq!(spawned.len(), 1);
    assert_eq!(spawned[0].pos, (1, -1, 0));
}

#[test]
fn second_load_pass_changes_nothing() {
    let chunks = cache_of(&[(0, -1, 0), (1, -1, 0), (2, -1, 0), (0, 3, 0)]);
    let mut loaded = LoadedChunks::new();
    let first = load_generated_chunks(&mut loaded, &chunks, (0, 0, 0));
    assert_eq!(first.len(), 3);
    let second = load_generated_chunks(&mut loaded, &chunks, (0, 0, 0));
    assert!(second.is_empty());
    for pos in [(0, -1, 0), (1, -1, 0), (2, -1, 0)] {
        assert!(loaded.contains(pos));
    }
    assert!(!loaded.contains((0, 3, 0)));
}

#[test]
fn load_stops_at_the_limit_and_goes_on_next_pass() {
    let coordinates: Vec<(i32, i32, i32)> = (0..20).map(|x| (x - 10, -1, 0)).collect();
    let chunks = cache_of(&coordinates);
    let mut loaded = LoadedChunks::new();
    let first = load_generated_chunks(&mut loaded, &chunks, (0, 0, 0));
    assert_eq!(first.len(), MAX_CHUNKS_PROCESSED_PER_ITER);
    let second = load_generated_chunks(&mut loaded, &chunks, (0, 0, 0));
    assert_eq!(second.len(), 4);
    let third = load_generated_chunks(&mut loaded, &chunks, (0, 0, 0));
    assert!(third.is_empty());
    let mut all: Vec<(i32, i32, i32)> =
        first.iter().chain(second.iter()).map(|chunk| chunk.pos).collect();
    all.sort();
    assert_eq!(all, coordinates);
}

#[test]
fn load_checks_the_range_against_the_observer_of_the_moment() {
    let chunks = cache_of(&[(0, -1, 0), (30, -1, 0)]);
    let mut loaded = LoadedChunks::new();
    let near_origin = load_generated_chunks(&mut loaded, &chunks, (0, 0, 0));
    assert_eq!(near_origin.len(), 1);
    assert_eq!(near_origin[0].pos, (0, -1, 0));
    let moved = load_generated_chunks(&mut loaded, &chunks, (20, 0, 0));
    assert_eq!(moved.len(), 1);
    assert_eq!(moved[0].pos, (30, -1, 0));
}

#[test]
fn unload_drops_what_is_out_of_view() {
    let mut loaded = LoadedChunks::new();
    let represented = [(0, -1, 0), (17, -1, 0), (16, -1, 0), (0, -18, 0), (-3, 2, 40)];
    for pos in represented {
        loaded.insert(pos);
    }
    let entities: Vec<(i32, i32, i32)> = represented.iter().map(|pos| origin_of(*pos)).collect();
    let despawned = unload_chunks(&mut loaded, &entities, (0, 0, 0));
    assert_eq!(despawned, vec![1, 3, 4]);
    assert!(loaded.contains((0, -1, 0)));
    assert!(loaded.contains((16, -1, 0)));
    assert!(!loaded.contains((17, -1, 0)));
    assert!(!loaded.contains((0, -18, 0)));
    assert!(!loaded.contains((-3, 2, 40)));
}

#[test]
fn after_unload_every_loaded_chunk_is_in_view() {
    let chunks = cache_of(&[(0, -1, 0), (5, -1, 5), (-12, -1, 3), (9, -2, -9)]);
    let mut loaded = LoadedChunks::new();
    let spawned = load_generated_chunks(&mut loaded, &chunks, (0, 0, 0));
    assert_eq!(spawned.len(), 4);
    let entities: Vec<(i32, i32, i32)> = spawned.iter().map(|chunk| origin_of(chunk.pos)).collect();
    let camera = (20, 0, 0);
    let despawned = unload_chunks(&mut loaded, &entities, camera);
    for (i, chunk) in spawned.iter().enumerate() {
        let in_view = is_in_view_distance(camera, chunk.pos);
        assert_eq!(loaded.contains(chunk.pos), in_view);
        assert_eq!(despawned.contains(&i), !in_view);
    }
    assert!(loaded.contains((5, -1, 5)));
    assert!(loaded.contains((9, -2, -9)));
    assert!(!loaded.contains((0, -1, 0)));
    assert!(!loaded.contains((-12, -1, 3)));
    // The cache keeps what was unloaded.
    assert!(chunks.contains((0, -1, 0)));
    assert!(chunks.contains((-12, -1, 3)));
}

#[test]
fn unload_stops_at_the_limit() {
    let mut loaded = LoadedChunks::new();
    let mut entities = Vec::new();
    for x in 0..40 {
        loaded.insert((100 + x, 0, 0));
        entities.push(origin_of((100 + x, 0, 0)));
    }
    let despawned = unload_chunks(&mut loaded, &entities, (0, 0, 0));
    let expected: Vec<usize> = (0..16).collect();
    assert_eq!(despawned, expected);
    for x in 0..40 {
        assert_eq!(loaded.contains((100 + x, 0, 0)), x >= 16);
    }
}

#[test]
fn unload_without_entities_changes_nothing() {
    let mut loaded = LoadedChunks::new();
    loaded.insert((99, 0, 0));
    let despawned = unload_chunks(&mut loaded, &Vec::new(), (0, 0, 0));
    assert!(despawned.is_empty());
    assert!(loaded.contains((99, 0, 0)));
}

#[test]
fn initial_chunks_fill_the_box_around_the_origin() {
    assert_eq!(INITIAL_VIEW_DISTANCE, 2);
    assert_eq!(INITIAL_BOX_WIDTH, 5);
    let mut chunks = GeneratedChunks::new();
    let mut loaded = LoadedChunks::new();
    let spawned = spawn_initial_chunks(&mut chunks, &mut loaded, &grass_below_zero);
    assert_eq!(chunks.coordinates().len(), 125);
    let mut expected = Vec::new();
    for x in -2..=2 {
        for y in -2..=2 {
            for z in -2..=2 {
                let chunk = chunks.get((x, y, z)).unwrap();
                assert_eq!(chunk.pos(), (x, y, z));
                assert_eq!(chunk.is_empty(), y >= 0);
                // Only what is not empty is loaded.
                assert_eq!(loaded.contains((x, y, z)), y < 0);
                if y < 0 {
                    expected.push((x, y, z));
                }
            }
        }
    }
    let positions: Vec<(i32, i32, i32)> = spawned.iter().map(|chunk| chunk.pos).collect();
    assert_eq!(positions, expected);
    for chunk in &spawned {
        assert_eq!(chunk.mesh.positions.len(), 6 * 256 * 4);
        assert_eq!(chunk.mesh.indices.len(), 6 * 256 * 6);
    }
}

#[test]
fn initial_chunks_keep_what_the_cache_holds() {
    let mut chunks = GeneratedChunks::new();
    // A blank chunk where the sampler would give grass, and a loaded one.
    chunks.insert((0, -1, 0), Chunk::empty((0, -1, 0)));
    generate_chunk_if_absent(&mut chunks, (1, -1, 1), &grass_below_zero);
    let mut loaded = LoadedChunks::new();
    loaded.insert((1, -1, 1));
    let spawned = spawn_initial_chunks(&mut chunks, &mut loaded, &grass_below_zero);
    assert!(chunks.get((0, -1, 0)).unwrap().is_empty());
    assert!(!loaded.contains((0, -1, 0)));
    assert!(loaded.contains((1, -1, 1)));
    assert_eq!(spawned.len(), 48);
    assert!(spawned.iter().all(|chunk| chunk.pos != (0, -1, 0) && chunk.pos != (1, -1, 1)));
}
