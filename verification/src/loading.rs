//! Reconciling what is generated with what is represented: chunks in view
//! are meshed and marked as loaded, chunks out of view are unmarked.

use vstd::prelude::*;
use vstd::arithmetic::div_mod::lemma_fundamental_div_mod_converse;
use vstd::set_lib::{lemma_len_subset, lemma_subset_equality};
use crate::block::Block;
use crate::chunk::{
    lemma_total_sampler_covers,
    sampler_total,
    Chunk,
    ChunkCoordinate,
    CHUNK_SIZE,
};
use crate::generation::{
    generate_chunk_if_absent,
    grown_by_generation,
    in_view_distance,
    lemma_generation_composes,
    MAX_CHUNKS_PROCESSED_PER_ITER,
    VIEW_DISTANCE,
};
use crate::limit::{
    first_passing,
    lemma_filter_agrees,
    lemma_first_passing_complete,
    lemma_passing_cut,
    lemma_passing_start,
    lemma_passing_step,
};
use crate::mesh::Mesh;
use crate::store::{GeneratedChunks, LoadedChunks};

verus! {

/// A chunk that is to be represented: its coordinate and its surface mesh.
#[derive(Debug)]
pub struct ChunkMesh {
    pub pos: ChunkCoordinate,
    pub mesh: Mesh,
}

/// The coordinates of a sequence of chunk meshes.
pub open spec fn positions(spawned: Seq<ChunkMesh>) -> Seq<ChunkCoordinate> {
    Seq::new(spawned.len(), |i: int| spawned[i].pos)
}

/// `a / b` rounded towards zero, for a positive `b`.
pub open spec fn truncating_div(a: int, b: int) -> int {
    if a >= 0 {
        a / b
    } else {
        -((-a) / b)
    }
}

/// The coordinate of the chunk that a world position lies in, taken as the
/// position divided by the chunk size and rounded towards zero.
pub open spec fn spec_chunk_coordinate_of(world: (i32, i32, i32)) -> ChunkCoordinate {
    (
        truncating_div(world.0 as int, CHUNK_SIZE as int) as i32,
        truncating_div(world.1 as int, CHUNK_SIZE as int) as i32,
        truncating_div(world.2 as int, CHUNK_SIZE as int) as i32,
    )
}

#[verifier::when_used_as_spec(spec_chunk_coordinate_of)]
pub fn chunk_coordinate_of(world: (i32, i32, i32)) -> (pos: ChunkCoordinate)
    ensures
        pos == spec_chunk_coordinate_of(world),
{
    (world.0 / 16, world.1 / 16, world.2 / 16)
}

/// Whether `pos` lies in the view box around `camera`.
pub fn is_in_view_distance(camera: ChunkCoordinate, pos: ChunkCoordinate) -> (inside: bool)
    ensures
        inside == in_view_distance(camera, pos),
{
    let dx: i64 = pos.0 as i64 - camera.0 as i64;
    let dy: i64 = pos.1 as i64 - camera.1 as i64;
    let dz: i64 = pos.2 as i64 - camera.2 as i64;
    let range: i64 = VIEW_DISTANCE as i64;
    -range <= dx && dx <= range && -range <= dy && dy <= range && -range <= dz && dz <= range
}

/// Every loaded coordinate has a chunk in the cache, and that chunk is not
/// empty.
pub open spec fn loaded_are_generated(
    chunks: Map<ChunkCoordinate, Chunk>,
    loaded: Set<ChunkCoordinate>,
) -> bool {
    forall|pos: ChunkCoordinate| #[trigger]
        loaded.contains(pos) ==> chunks.dom().contains(pos) && !chunks[pos].is_empty()
}

/// Whether the chunk at `pos` is to be loaded: it is generated, in view, not
/// empty and not loaded.
pub open spec fn loadable(
    chunks: Map<ChunkCoordinate, Chunk>,
    loaded: Set<ChunkCoordinate>,
    camera: ChunkCoordinate,
    pos: ChunkCoordinate,
) -> bool {
    &&& chunks.dom().contains(pos)
    &&& in_view_distance(camera, pos)
    &&& !chunks[pos].is_empty()
    &&& !loaded.contains(pos)
}

/// What a load pass does to the set of loaded chunks. It loads chunks that
/// are to be loaded, each once and at most the limit per pass, and marks
/// them as loaded. Which ones it picks is open; a pass that stays under the
/// limit has loaded them all.
pub open spec fn load_pass(
    chunks: Map<ChunkCoordinate, Chunk>,
    camera: ChunkCoordinate,
    before: Set<ChunkCoordinate>,
    after: Set<ChunkCoordinate>,
    spawned: Seq<ChunkCoordinate>,
) -> bool {
    &&& spawned.len() <= MAX_CHUNKS_PROCESSED_PER_ITER
    &&& spawned.no_duplicates()
    &&& forall|i: int|
        0 <= i < spawned.len() ==> loadable(chunks, before, camera, #[trigger] spawned[i])
    &&& after == before.union(spawned.to_set())
    &&& spawned.len() < MAX_CHUNKS_PROCESSED_PER_ITER ==> forall|pos: ChunkCoordinate|
        loadable(chunks, before, camera, pos) ==> #[trigger] spawned.contains(pos)
}

/// Loads generated chunks: meshes the chunks of the cache that are in view
/// of the observer, not empty and not loaded yet, up to the limit per pass,
/// marks them as loaded and returns their meshes.
pub fn load_generated_chunks(
    loaded_chunks: &mut LoadedChunks,
    generated_chunks: &GeneratedChunks,
    camera_chunk_pos: ChunkCoordinate,
) -> (spawned: Vec<ChunkMesh>)
    ensures
        load_pass(
            generated_chunks@,
            camera_chunk_pos,
            old(loaded_chunks)@,
            final(loaded_chunks)@,
            positions(spawned@),
        ),
        forall|i: int|
            0 <= i < spawned.len() ==> (#[trigger] spawned[i]).mesh@
                == generated_chunks@[spawned[i].pos].spec_mesh(),
        loaded_are_generated(generated_chunks@, old(loaded_chunks)@) ==> loaded_are_generated(
            generated_chunks@,
            final(loaded_chunks)@,
        ),
{
    let coordinates = generated_chunks.coordinates();
    let mut spawned: Vec<ChunkMesh> = Vec::new();
    let mut i: usize = 0;
    proof {
        assert(positions(spawned@).to_set() =~= Set::<ChunkCoordinate>::empty());
        assert(loaded_chunks@ =~= loaded_chunks@.union(positions(spawned@).to_set()));
    }
    while i < coordinates.len()
        invariant
            i <= coordinates.len(),
            coordinates@.to_set() == generated_chunks@.dom(),
            spawned.len() <= MAX_CHUNKS_PROCESSED_PER_ITER,
            positions(spawned@).no_duplicates(),
            forall|j: int|
                0 <= j < spawned.len() ==> loadable(
                    generated_chunks@,
                    old(loaded_chunks)@,
                    camera_chunk_pos,
                    #[trigger] positions(spawned@)[j],
                ),
            forall|j: int|
                0 <= j < spawned.len() ==> (#[trigger] spawned[j]).mesh@
                    == generated_chunks@[spawned[j].pos].spec_mesh(),
            loaded_chunks@ == old(loaded_chunks)@.union(positions(spawned@).to_set()),
            forall|j: int|
                0 <= j < i && loadable(
                    generated_chunks@,
                    old(loaded_chunks)@,
                    camera_chunk_pos,
                    #[trigger] coordinates[j],
                ) ==> positions(spawned@).contains(coordinates[j]),
        decreases coordinates.len() - i,
    {
        if spawned.len() == MAX_CHUNKS_PROCESSED_PER_ITER {
            return spawned;
        }
        let chunk_pos = coordinates[i];
        i += 1;

        // Only load the chunk if it's in the view distance
        // This is required to prevent this function from loading
        // chunks that the unload pass has just dropped.
        if !is_in_view_distance(camera_chunk_pos, chunk_pos) {
            continue ;
        }
        let chunk = match generated_chunks.get(chunk_pos) {
            Some(chunk) => chunk,
            None => {
                assert(coordinates@.to_set().contains(coordinates[i - 1]));
                continue ;
            },
        };

        // If the chunk is empty or already loaded, don't bother loading it
        if chunk.is_empty() || loaded_chunks.contains(chunk_pos) {
            proof {
                if loaded_chunks@.contains(chunk_pos) && !old(loaded_chunks)@.contains(chunk_pos) {
                    assert(positions(spawned@).to_set().contains(chunk_pos));
                }
            }
            continue ;
        }
        let mesh = chunk.get_mesh();
        let ghost earlier = spawned@;
        let _ = loaded_chunks.insert(chunk_pos);
        spawned.push(ChunkMesh { pos: chunk_pos, mesh });
        proof {
            assert(positions(spawned@) =~= positions(earlier).push(chunk_pos));
            positions(earlier).lemma_push_to_set_commute(chunk_pos);
            assert(!positions(earlier).to_set().contains(chunk_pos));
            assert(!positions(earlier).contains(chunk_pos));
            assert(loaded_chunks@ =~= old(loaded_chunks)@.union(positions(spawned@).to_set()));
            assert forall|j: int|
                0 <= j < i && loadable(
                    generated_chunks@,
                    old(loaded_chunks)@,
                    camera_chunk_pos,
                    #[trigger] coordinates[j],
                ) implies positions(spawned@).contains(coordinates[j]) by {
                if j < i - 1 {
                    let at = choose|at: int|
                        0 <= at < positions(earlier).len() && positions(earlier)[at]
                            == coordinates[j];
                    assert(positions(spawned@)[at] == coordinates[j]);
                } else {
                    assert(positions(spawned@)[earlier.len() as int] == coordinates[j]);
                }
            }
        }
    }
    proof {
        assert forall|pos: ChunkCoordinate|
            loadable(
                generated_chunks@,
                old(loaded_chunks)@,
                camera_chunk_pos,
                pos,
            ) implies #[trigger] positions(spawned@).contains(pos) by {
            assert(coordinates@.to_set().contains(pos));
            let j = choose|j: int| 0 <= j < coordinates@.len() && coordinates@[j] == pos;
            assert(loadable(
                generated_chunks@,
                old(loaded_chunks)@,
                camera_chunk_pos,
                coordinates[j],
            ));
        }
    }
    spawned
}

/// How far, in chunks along each axis, the chunks that are generated at the
/// start reach from the origin of the chunk grid.
pub const INITIAL_VIEW_DISTANCE: i32 = 2;

/// Number of coordinates along one edge of the box of initial chunks.
pub const INITIAL_BOX_WIDTH: i32 = 5;

/// The `k`-th coordinate of the box of initial chunks, going through the box
/// by `x`, then `y`, then `z`, each from low to high.
pub open spec fn initial_box_coordinate(k: int) -> ChunkCoordinate {
    (
        (k / (INITIAL_BOX_WIDTH * INITIAL_BOX_WIDTH) - INITIAL_VIEW_DISTANCE) as i32,
        ((k / (INITIAL_BOX_WIDTH as int)) % (INITIAL_BOX_WIDTH as int)
            - INITIAL_VIEW_DISTANCE) as i32,
        (k % (INITIAL_BOX_WIDTH as int) - INITIAL_VIEW_DISTANCE) as i32,
    )
}

/// The coordinates of the chunks that are generated at the start: the box of
/// half-width `INITIAL_VIEW_DISTANCE` around the origin, in scan order.
pub open spec fn initial_box() -> Seq<ChunkCoordinate> {
    Seq::new(
        (INITIAL_BOX_WIDTH * INITIAL_BOX_WIDTH * INITIAL_BOX_WIDTH) as nat,
        |k: int| initial_box_coordinate(k),
    )
}

/// The test for a coordinate whose chunk is to be meshed at the start: the
/// chunk is not empty and not loaded.
pub open spec fn to_spawn(
    chunks: Map<ChunkCoordinate, Chunk>,
    loaded: Set<ChunkCoordinate>,
) -> spec_fn(ChunkCoordinate) -> bool {
    |pos: ChunkCoordinate| !chunks[pos].is_empty() && !loaded.contains(pos)
}

/// Place in scan order of the coordinate `(x, y, z)` of the box of initial
/// chunks.
spec fn initial_box_index(x: int, y: int, z: int) -> int {
    ((x + INITIAL_VIEW_DISTANCE) * INITIAL_BOX_WIDTH + (y + INITIAL_VIEW_DISTANCE))
        * INITIAL_BOX_WIDTH + (z + INITIAL_VIEW_DISTANCE)
}

/// The coordinate `(x, y, z)` stands in the box of initial chunks at the
/// place that `initial_box_index` gives.
proof fn lemma_initial_box_index(x: int, y: int, z: int)
    requires
        -INITIAL_VIEW_DISTANCE <= x <= INITIAL_VIEW_DISTANCE,
        -INITIAL_VIEW_DISTANCE <= y <= INITIAL_VIEW_DISTANCE,
        -INITIAL_VIEW_DISTANCE <= z <= INITIAL_VIEW_DISTANCE,
    ensures
        0 <= initial_box_index(x, y, z) < initial_box().len(),
        initial_box()[initial_box_index(x, y, z)] == (x as i32, y as i32, z as i32),
{
    let k = initial_box_index(x, y, z);
    assert(INITIAL_BOX_WIDTH == 2 * INITIAL_VIEW_DISTANCE + 1);
    assert(k == (x + 2) * 25 + (y + 2) * 5 + (z + 2));
    lemma_fundamental_div_mod_converse(k, 25, x + 2, (y + 2) * 5 + (z + 2));
    lemma_fundamental_div_mod_converse(k, 5, (x + 2) * 5 + (y + 2), z + 2);
    lemma_fundamental_div_mod_converse((x + 2) * 5 + (y + 2), 5, x + 2, y + 2);
}

/// What the start has done after the first `k` coordinates of the box of
/// initial chunks.
spec fn initial_chunks_spawned<F: Fn(i64, i64, i64) -> Block>(
    old_chunks: Map<ChunkCoordinate, Chunk>,
    chunks: Map<ChunkCoordinate, Chunk>,
    old_loaded: Set<ChunkCoordinate>,
    loaded: Set<ChunkCoordinate>,
    spawned: Seq<ChunkMesh>,
    sampler: &F,
    k: int,
) -> bool {
    let done = initial_box().take(k);
    &&& grown_by_generation(old_chunks, chunks, done.to_set(), sampler)
    &&& loaded == old_loaded.union(done.filter(to_spawn(chunks, old_loaded)).to_set())
    &&& positions(spawned) == done.filter(to_spawn(chunks, old_loaded))
    &&& forall|i: int|
        0 <= i < spawned.len() ==> (#[trigger] spawned[i]).mesh@
            == chunks[spawned[i].pos].spec_mesh()
}

/// Generates the chunks around the origin of the chunk grid that the world
/// starts with, stores those that the cache lacks, and meshes and marks as
/// loaded those that are not empty and not loaded yet. Returns the meshes in
/// scan order.
pub fn spawn_initial_chunks<F: Fn(i64, i64, i64) -> Block>(
    generated_chunks: &mut GeneratedChunks,
    loaded_chunks: &mut LoadedChunks,
    sampler: &F,
) -> (spawned: Vec<ChunkMesh>)
    requires
        sampler_total(sampler),
    ensures
        grown_by_generation(
            old(generated_chunks)@,
            final(generated_chunks)@,
            initial_box().to_set(),
            sampler,
        ),
        positions(spawned@) == initial_box().filter(
            to_spawn(final(generated_chunks)@, old(loaded_chunks)@),
        ),
        forall|i: int|
            0 <= i < spawned.len() ==> (#[trigger] spawned[i]).mesh@
                == final(generated_chunks)@[spawned[i].pos].spec_mesh(),
        final(loaded_chunks)@ == old(loaded_chunks)@.union(positions(spawned@).to_set()),
        loaded_are_generated(old(generated_chunks)@, old(loaded_chunks)@) ==> loaded_are_generated(
            final(generated_chunks)@,
            final(loaded_chunks)@,
        ),
{
    let mut spawned: Vec<ChunkMesh> = Vec::new();
    proof {
        lemma_passing_start(initial_box(), to_spawn(generated_chunks@, loaded_chunks@));
        assert(initial_box().take(0).to_set() =~= Set::<ChunkCoordinate>::empty());
        assert(generated_chunks@.dom() =~= generated_chunks@.dom().union(
            initial_box().take(0).to_set(),
        ));
        assert(positions(spawned@) =~= Seq::<ChunkCoordinate>::empty());
        assert(loaded_chunks@ =~= loaded_chunks@.union(positions(spawned@).to_set()));
    }
    let mut x: i32 = -INITIAL_VIEW_DISTANCE;
    while x <= INITIAL_VIEW_DISTANCE
        invariant
            sampler_total(sampler),
            -INITIAL_VIEW_DISTANCE <= x <= INITIAL_VIEW_DISTANCE + 1,
            initial_chunks_spawned(
                old(generated_chunks)@,
                generated_chunks@,
                old(loaded_chunks)@,
                loaded_chunks@,
                spawned@,
                sampler,
                initial_box_index(
                    x as int,
                    -INITIAL_VIEW_DISTANCE as int,
                    -INITIAL_VIEW_DISTANCE as int,
                ),
            ),
        decreases INITIAL_VIEW_DISTANCE + 1 - x,
    {
        let mut y: i32 = -INITIAL_VIEW_DISTANCE;
        while y <= INITIAL_VIEW_DISTANCE
            invariant
                sampler_total(sampler),
                -INITIAL_VIEW_DISTANCE <= x <= INITIAL_VIEW_DISTANCE,
                -INITIAL_VIEW_DISTANCE <= y <= INITIAL_VIEW_DISTANCE + 1,
                initial_chunks_spawned(
                    old(generated_chunks)@,
                    generated_chunks@,
                    old(loaded_chunks)@,
                    loaded_chunks@,
                    spawned@,
                    sampler,
                    initial_box_index(x as int, y as int, -INITIAL_VIEW_DISTANCE as int),
                ),
            decreases INITIAL_VIEW_DISTANCE + 1 - y,
        {
            let mut z: i32 = -INITIAL_VIEW_DISTANCE;
            while z <= INITIAL_VIEW_DISTANCE
                invariant
                    sampler_total(sampler),
                    -INITIAL_VIEW_DISTANCE <= x <= INITIAL_VIEW_DISTANCE,
                    -INITIAL_VIEW_DISTANCE <= y <= INITIAL_VIEW_DISTANCE,
                    -INITIAL_VIEW_DISTANCE <= z <= INITIAL_VIEW_DISTANCE + 1,
                    initial_chunks_spawned(
                        old(generated_chunks)@,
                        generated_chunks@,
                        old(loaded_chunks)@,
                        loaded_chunks@,
                        spawned@,
                        sampler,
                        initial_box_index(x as int, y as int, z as int),
                    ),
                decreases INITIAL_VIEW_DISTANCE + 1 - z,
            {
                proof {
                    lemma_initial_box_index(x as int, y as int, z as int);
                }
                spawn_initial_chunk(
                    generated_chunks,
                    loaded_chunks,
                    &mut spawned,
                    sampler,
                    (x, y, z),
                    Ghost(old(generated_chunks)@),
                    Ghost(old(loaded_chunks)@),
                    Ghost(initial_box_index(x as int, y as int, z as int)),
                );
                z += 1;
            }
            y += 1;
        }
        x += 1;
    }
    proof {
        assert(initial_box().take(initial_box().len() as int) =~= initial_box());
        let test = to_spawn(generated_chunks@, old(loaded_chunks)@);
        if loaded_are_generated(old(generated_chunks)@, old(loaded_chunks)@) {
            assert forall|pos: ChunkCoordinate| #[trigger]
                loaded_chunks@.contains(pos) implies generated_chunks@.dom().contains(pos)
                && !generated_chunks@[pos].is_empty() by {
                if old(loaded_chunks)@.contains(pos) {
                    assert(old(generated_chunks)@.dom().contains(pos));
                } else {
                    let found = initial_box().filter(test);
                    let i = choose|i: int| 0 <= i < found.len() && found[i] == pos;
                    initial_box().lemma_filter_pred(test, i);
                    initial_box().lemma_filter_contains_rev(test, pos);
                    assert(initial_box().to_set().contains(pos));
                }
            }
        }
    }
    spawned
}

/// Handles the `k`-th coordinate of the box of initial chunks.
fn spawn_initial_chunk<F: Fn(i64, i64, i64) -> Block>(
    generated_chunks: &mut GeneratedChunks,
    loaded_chunks: &mut LoadedChunks,
    spawned: &mut Vec<ChunkMesh>,
    sampler: &F,
    pos: ChunkCoordinate,
    Ghost(old_chunks): Ghost<Map<ChunkCoordinate, Chunk>>,
    Ghost(old_loaded): Ghost<Set<ChunkCoordinate>>,
    Ghost(k): Ghost<int>,
)
    requires
        sampler_total(sampler),
        0 <= k < initial_box().len(),
        initial_box()[k] == pos,
        initial_chunks_spawned(
            old_chunks,
            old(generated_chunks)@,
            old_loaded,
            old(loaded_chunks)@,
            old(spawned)@,
            sampler,
            k,
        ),
    ensures
        initial_chunks_spawned(
            old_chunks,
            final(generated_chunks)@,
            old_loaded,
            final(loaded_chunks)@,
            final(spawned)@,
            sampler,
            k + 1,
        ),
{
    let ghost done = initial_box().take(k);
    let ghost held = generated_chunks@;
    proof {
        lemma_total_sampler_covers(sampler, pos);
    }
    let _ = generate_chunk_if_absent(generated_chunks, pos, sampler);
    let ghost test = to_spawn(generated_chunks@, old_loaded);
    proof {
        assert(initial_box().take(k + 1) =~= done.push(pos));
        done.lemma_push_to_set_commute(pos);
        assert(done.push(pos).to_set() =~= done.to_set().union(set![pos]));
        lemma_generation_composes(
            old_chunks,
            held,
            generated_chunks@,
            done.to_set(),
            set![pos],
            sampler,
        );
        assert forall|i: int| 0 <= i < done.len() implies to_spawn(held, old_loaded)(
            #[trigger] done[i],
        ) == test(done[i]) by {
            assert(done.to_set().contains(done[i]));
            assert(held.dom().contains(done[i]));
        }
        lemma_filter_agrees(done, to_spawn(held, old_loaded), test);
        lemma_passing_step(initial_box(), test, k);
        lemma_initial_box_has_no_duplicates();
        assert(!done.contains(pos));
        assert(!done.filter(test).contains(pos)) by {
            if done.filter(test).contains(pos) {
                done.lemma_filter_contains_rev(test, pos);
            }
        }
        assert(!done.filter(test).to_set().contains(pos));
        assert forall|i: int| 0 <= i < spawned.len() implies (#[trigger] spawned[i]).mesh@
            == generated_chunks@[spawned[i].pos].spec_mesh() by {
            assert(positions(spawned@)[i] == spawned[i].pos);
            assert(done.filter(test).contains(spawned[i].pos));
            done.lemma_filter_contains_rev(test, spawned[i].pos);
            assert(done.to_set().contains(spawned[i].pos));
            assert(held.dom().contains(spawned[i].pos));
        }
    }
    match generated_chunks.get(pos) {
        Some(chunk) => {
            // Skip the whole mesh-making-process for empty chunks
            if !chunk.is_empty() && !loaded_chunks.contains(pos) {
                let mesh = chunk.get_mesh();
                let ghost earlier = spawned@;
                let _ = loaded_chunks.insert(pos);
                spawned.push(ChunkMesh { pos, mesh });
                proof {
                    assert(positions(spawned@) =~= positions(earlier).push(pos));
                    done.filter(test).lemma_push_to_set_commute(pos);
                    assert(loaded_chunks@ =~= old_loaded.union(
                        done.filter(test).push(pos).to_set(),
                    ));
                }
            }
        },
        None => {},
    }
}

/// No coordinate stands twice in the box of initial chunks.
proof fn lemma_initial_box_has_no_duplicates()
    ensures
        initial_box().no_duplicates(),
{
    assert forall|i: int, j: int|
        0 <= i < initial_box().len() && 0 <= j < initial_box().len() && i != j implies initial_box()[i]
        != initial_box()[j] by {
        assert(i == 25 * (i / 25) + 5 * ((i / 5) % 5) + i % 5);
        assert(j == 25 * (j / 25) + 5 * ((j / 5) % 5) + j % 5);
    }
}

/// The test for an entity whose chunk is out of view of the observer.
/// `entities` holds the world position of each represented chunk.
pub open spec fn out_of_view(entities: Seq<(i32, i32, i32)>, camera: ChunkCoordinate) -> spec_fn(
    int,
) -> bool {
    |i: int| !in_view_distance(camera, chunk_coordinate_of(entities[i]))
}

/// The places `0, 1, ..` of `n` entities.
pub open spec fn entity_indices(n: nat) -> Seq<int> {
    Seq::new(n, |i: int| i)
}

/// The places in a list of entities that a pass returns, as integers.
pub open spec fn places(despawned: Seq<usize>) -> Seq<int> {
    Seq::new(despawned.len(), |j: int| despawned[j] as int)
}

/// The entities that an unload pass removes: those whose chunk is out of
/// view, in the order given, up to the limit per pass.
pub open spec fn entities_to_despawn(
    entities: Seq<(i32, i32, i32)>,
    camera: ChunkCoordinate,
) -> Seq<int> {
    first_passing(
        entity_indices(entities.len()),
        out_of_view(entities, camera),
        MAX_CHUNKS_PROCESSED_PER_ITER as int,
    )
}

/// The chunk coordinates of the entities at the given places.
pub open spec fn chunks_of(entities: Seq<(i32, i32, i32)>, indices: Seq<int>) -> Set<
    ChunkCoordinate,
> {
    indices.map_values(|i: int| chunk_coordinate_of(entities[i])).to_set()
}

/// Unloads chunks: picks the represented chunks that are out of view of the
/// observer, up to the limit per pass, unmarks them as loaded and returns
/// their places in `chunk_entities`, which holds the world position of each
/// represented chunk. The cache of generated chunks is not touched.
pub fn unload_chunks(
    loaded_chunks: &mut LoadedChunks,
    chunk_entities: &Vec<(i32, i32, i32)>,
    camera_chunk_pos: ChunkCoordinate,
) -> (despawned: Vec<usize>)
    ensures
        places(despawned@) == entities_to_despawn(
            chunk_entities@,
            camera_chunk_pos,
        ),
        final(loaded_chunks)@ == old(loaded_chunks)@.difference(
            chunks_of(chunk_entities@, entities_to_despawn(chunk_entities@, camera_chunk_pos)),
        ),
{
    let mut despawned: Vec<usize> = Vec::new();
    let ghost indices = entity_indices(chunk_entities@.len());
    let ghost test = out_of_view(chunk_entities@, camera_chunk_pos);
    let mut i: usize = 0;
    proof {
        lemma_passing_start(indices, test);
        assert(places(despawned@) =~= Seq::<int>::empty());
        assert(chunks_of(chunk_entities@, Seq::<int>::empty()) =~= Set::<
            ChunkCoordinate,
        >::empty());
        assert(loaded_chunks@ =~= loaded_chunks@.difference(
            chunks_of(chunk_entities@, Seq::<int>::empty()),
        ));
    }
    while i < chunk_entities.len()
        invariant
            i <= chunk_entities.len(),
            indices == entity_indices(chunk_entities@.len()),
            test == out_of_view(chunk_entities@, camera_chunk_pos),
            despawned.len() <= MAX_CHUNKS_PROCESSED_PER_ITER,
            places(despawned@) == indices.take(i as int).filter(test),
            loaded_chunks@ == old(loaded_chunks)@.difference(
                chunks_of(chunk_entities@, indices.take(i as int).filter(test)),
            ),
        decreases chunk_entities.len() - i,
    {
        if despawned.len() == MAX_CHUNKS_PROCESSED_PER_ITER {
            proof {
                lemma_passing_cut(indices, test, i as int, MAX_CHUNKS_PROCESSED_PER_ITER as int);
            }
            return despawned;
        }
        let chunk_position = chunk_coordinate_of(chunk_entities[i]);
        proof {
            lemma_passing_step(indices, test, i as int);
        }

        // If the chunk isn't in the view distance, despawn it
        if !is_in_view_distance(camera_chunk_pos, chunk_position) {
            let ghost found = indices.take(i as int).filter(test);
            let ghost earlier = despawned@;
            let _ = loaded_chunks.remove(chunk_position);
            despawned.push(i);
            proof {
                assert(places(despawned@) =~= places(earlier).push(i as int));
                let chunk_at = |i: int| chunk_coordinate_of(chunk_entities@[i]);
                assert(found.push(i as int).map_values(chunk_at) =~= found.map_values(
                    chunk_at,
                ).push(chunk_position));
                found.map_values(chunk_at).lemma_push_to_set_commute(chunk_position);
                assert(loaded_chunks@ =~= old(loaded_chunks)@.difference(
                    chunks_of(chunk_entities@, found.push(i as int)),
                ));
            }
        }
        i += 1;
    }
    proof {
        assert(indices.take(i as int) =~= indices);
        lemma_passing_cut(indices, test, i as int, MAX_CHUNKS_PROCESSED_PER_ITER as int);
    }
    despawned
}

/// Loading marks only chunks that are generated and not empty: a load pass
/// keeps the loaded chunks among the generated ones.
pub proof fn lemma_load_keeps_loaded_generated(
    chunks: Map<ChunkCoordinate, Chunk>,
    camera: ChunkCoordinate,
    before: Set<ChunkCoordinate>,
    after: Set<ChunkCoordinate>,
    spawned: Seq<ChunkCoordinate>,
)
    requires
        load_pass(chunks, camera, before, after, spawned),
        loaded_are_generated(chunks, before),
    ensures
        loaded_are_generated(chunks, after),
{
}

/// Unmarking chunks keeps the loaded chunks among the generated ones.
pub proof fn lemma_unload_keeps_loaded_generated(
    chunks: Map<ChunkCoordinate, Chunk>,
    before: Set<ChunkCoordinate>,
    after: Set<ChunkCoordinate>,
)
    requires
        after.subset_of(before),
        loaded_are_generated(chunks, before),
    ensures
        loaded_are_generated(chunks, after),
{
}

/// Generation adds chunks and changes none, so it keeps the loaded chunks
/// among the generated ones.
pub proof fn lemma_generation_keeps_loaded_generated<F: Fn(i64, i64, i64) -> Block>(
    before: Map<ChunkCoordinate, Chunk>,
    after: Map<ChunkCoordinate, Chunk>,
    requested: Set<ChunkCoordinate>,
    sampler: &F,
    loaded: Set<ChunkCoordinate>,
)
    requires
        grown_by_generation(before, after, requested, sampler),
        loaded_are_generated(before, loaded),
    ensures
        loaded_are_generated(after, loaded),
{
    assert forall|pos: ChunkCoordinate| #[trigger] loaded.contains(pos) implies after.dom().contains(
        pos,
    ) && !after[pos].is_empty() by {
        assert(before.dom().contains(pos));
    }
}

/// The chunks that are to be loaded.
pub open spec fn loadable_chunks(
    chunks: Map<ChunkCoordinate, Chunk>,
    loaded: Set<ChunkCoordinate>,
    camera: ChunkCoordinate,
) -> Set<ChunkCoordinate> {
    Set::new(|pos: ChunkCoordinate| loadable(chunks, loaded, camera, pos))
}

/// Where no more chunks are to be loaded than one pass loads, a load pass
/// loads them all: the next pass, with the cache and the observer unchanged,
/// loads nothing and leaves the set of loaded chunks as it is.
pub proof fn lemma_load_is_idempotent(
    chunks: Map<ChunkCoordinate, Chunk>,
    camera: ChunkCoordinate,
    before: Set<ChunkCoordinate>,
    between: Set<ChunkCoordinate>,
    first: Seq<ChunkCoordinate>,
    after: Set<ChunkCoordinate>,
    second: Seq<ChunkCoordinate>,
)
    requires
        load_pass(chunks, camera, before, between, first),
        load_pass(chunks, camera, between, after, second),
        loadable_chunks(chunks, before, camera).finite(),
        loadable_chunks(chunks, before, camera).len() <= MAX_CHUNKS_PROCESSED_PER_ITER,
    ensures
        second.len() == 0,
        after == between,
{
    let wanted = loadable_chunks(chunks, before, camera);
    assert(first.to_set().subset_of(wanted)) by {
        assert forall|pos: ChunkCoordinate| first.to_set().contains(pos) implies wanted.contains(
            pos,
        ) by {
            let i = choose|i: int| 0 <= i < first.len() && first[i] == pos;
            assert(loadable(chunks, before, camera, first[i]));
        }
    }
    if first.len() == MAX_CHUNKS_PROCESSED_PER_ITER {
        first.unique_seq_to_set();
        lemma_len_subset(first.to_set(), wanted);
        lemma_subset_equality(first.to_set(), wanted);
    }
    if second.len() > 0 {
        let pos = second[0];
        assert(loadable(chunks, between, camera, pos));
        assert(loadable(chunks, before, camera, pos));
        assert(wanted.contains(pos));
        assert(first.contains(pos));
        assert(first.to_set().contains(pos));
    }
    assert(second.to_set() =~= Set::<ChunkCoordinate>::empty());
    assert(after =~= between);
}

/// After an unload pass no loaded chunk is out of view of the observer,
/// provided that every loaded chunk is represented by an entity and that no
/// more entities are out of view than one pass removes.
pub proof fn lemma_unload_leaves_chunks_in_view(
    entities: Seq<(i32, i32, i32)>,
    camera: ChunkCoordinate,
    before: Set<ChunkCoordinate>,
    after: Set<ChunkCoordinate>,
)
    requires
        after == before.difference(chunks_of(entities, entities_to_despawn(entities, camera))),
        forall|pos: ChunkCoordinate| #[trigger]
            before.contains(pos) ==> exists|i: int|
                0 <= i < entities.len() && chunk_coordinate_of(#[trigger] entities[i]) == pos,
        entity_indices(entities.len()).filter(out_of_view(entities, camera)).len()
            <= MAX_CHUNKS_PROCESSED_PER_ITER,
    ensures
        forall|pos: ChunkCoordinate| #[trigger]
            after.contains(pos) ==> in_view_distance(camera, pos),
{
    let indices = entity_indices(entities.len());
    let test = out_of_view(entities, camera);
    let removed = entities_to_despawn(entities, camera);
    let chunk_at = |i: int| chunk_coordinate_of(entities[i]);
    assert forall|pos: ChunkCoordinate| #[trigger] after.contains(pos) implies in_view_distance(
        camera,
        pos,
    ) by {
        let i = choose|i: int|
            0 <= i < entities.len() && chunk_coordinate_of(#[trigger] entities[i]) == pos;
        if !in_view_distance(camera, pos) {
            assert(test(indices[i]));
            lemma_first_passing_complete(indices, test, MAX_CHUNKS_PROCESSED_PER_ITER as int, i);
            let at = choose|at: int| 0 <= at < removed.len() && removed[at] == indices[i];
            assert(removed.map_values(chunk_at)[at] == pos);
            assert(chunks_of(entities, removed).contains(pos));
        }
    }
}

} // verus!
