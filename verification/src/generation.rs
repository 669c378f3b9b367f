//! Filling the queue with the coordinates around the observer that have no
//! chunk yet, and draining it into the cache of generated chunks.

use vstd::prelude::*;
use vstd::arithmetic::div_mod::lemma_fundamental_div_mod_converse;
use crate::block::Block;
use crate::chunk::{
    lemma_total_sampler_covers,
    sampler_covers,
    sampler_total,
    Chunk,
    ChunkCoordinate,
};
use crate::limit::{first_passing, lemma_passing_cut, lemma_passing_start, lemma_passing_step};
use crate::store::{ChunkQueue, GeneratedChunks};

verus! {

/// How far, in chunks along each axis, the observer sees.
pub const VIEW_DISTANCE: i32 = 16;

/// How many chunks one pass queues, loads or unloads at most.
pub const MAX_CHUNKS_PROCESSED_PER_ITER: usize = 16;

/// Whether `pos` lies in the box of half-width `VIEW_DISTANCE` around
/// `camera`.
pub open spec fn in_view_distance(camera: ChunkCoordinate, pos: ChunkCoordinate) -> bool {
    &&& -VIEW_DISTANCE <= pos.0 - camera.0 <= VIEW_DISTANCE
    &&& -VIEW_DISTANCE <= pos.1 - camera.1 <= VIEW_DISTANCE
    &&& -VIEW_DISTANCE <= pos.2 - camera.2 <= VIEW_DISTANCE
}

/// Whether every coordinate of the view box around `camera` is a chunk
/// coordinate.
pub open spec fn view_box_fits(camera: ChunkCoordinate) -> bool {
    &&& i32::MIN <= camera.0 - VIEW_DISTANCE && camera.0 + VIEW_DISTANCE <= i32::MAX
    &&& i32::MIN <= camera.1 - VIEW_DISTANCE && camera.1 + VIEW_DISTANCE <= i32::MAX
    &&& i32::MIN <= camera.2 - VIEW_DISTANCE && camera.2 + VIEW_DISTANCE <= i32::MAX
}

/// Number of coordinates along one edge of a view box: the observer's own
/// and `VIEW_DISTANCE` to either side.
pub const VIEW_BOX_WIDTH: i32 = 33;

/// Number of coordinates in a view box.
pub open spec fn view_box_volume() -> int {
    VIEW_BOX_WIDTH * VIEW_BOX_WIDTH * VIEW_BOX_WIDTH
}

/// The `k`-th coordinate of the view box around `camera`, going through the
/// box by `x`, then `y`, then `z`, each from low to high.
pub open spec fn view_box_coordinate(camera: ChunkCoordinate, k: int) -> ChunkCoordinate {
    (
        (camera.0 - VIEW_DISTANCE + k / (VIEW_BOX_WIDTH * VIEW_BOX_WIDTH)) as i32,
        (camera.1 - VIEW_DISTANCE + (k / (VIEW_BOX_WIDTH as int)) % (VIEW_BOX_WIDTH as int)) as i32,
        (camera.2 - VIEW_DISTANCE + k % (VIEW_BOX_WIDTH as int)) as i32,
    )
}

/// The coordinates of the view box around `camera`, in scan order.
pub open spec fn view_box(camera: ChunkCoordinate) -> Seq<ChunkCoordinate> {
    Seq::new(view_box_volume() as nat, |k: int| view_box_coordinate(camera, k))
}

/// The test for a coordinate that has no chunk in the cache.
pub open spec fn not_generated(chunks: Map<ChunkCoordinate, Chunk>) -> spec_fn(
    ChunkCoordinate,
) -> bool {
    |pos: ChunkCoordinate| !chunks.dom().contains(pos)
}

/// What one pass adds to the queue: the coordinates of the view box that
/// have no chunk yet, in scan order, up to the limit per pass.
pub open spec fn chunks_to_queue(
    chunks: Map<ChunkCoordinate, Chunk>,
    camera: ChunkCoordinate,
) -> Seq<ChunkCoordinate> {
    first_passing(
        view_box(camera),
        not_generated(chunks),
        MAX_CHUNKS_PROCESSED_PER_ITER as int,
    )
}

/// Place in scan order of the coordinate at offset `(x, y, z)` from the
/// observer.
spec fn view_box_index(x: int, y: int, z: int) -> int {
    ((x + VIEW_DISTANCE) * VIEW_BOX_WIDTH + (y + VIEW_DISTANCE)) * VIEW_BOX_WIDTH + (z
        + VIEW_DISTANCE)
}

/// The missing coordinates among the first `k` of the view box.
spec fn missing_before(
    chunks: Map<ChunkCoordinate, Chunk>,
    camera: ChunkCoordinate,
    k: int,
) -> Seq<ChunkCoordinate> {
    view_box(camera).take(k).filter(not_generated(chunks))
}

/// The coordinate at offset `(x, y, z)` from the observer stands in the view
/// box at the place that `view_box_index` gives.
proof fn lemma_view_box_index(camera: ChunkCoordinate, x: int, y: int, z: int)
    requires
        view_box_fits(camera),
        -VIEW_DISTANCE <= x <= VIEW_DISTANCE,
        -VIEW_DISTANCE <= y <= VIEW_DISTANCE,
        -VIEW_DISTANCE <= z <= VIEW_DISTANCE,
    ensures
        0 <= view_box_index(x, y, z) < view_box_volume(),
        view_box_coordinate(camera, view_box_index(x, y, z)) == (
            (camera.0 + x) as i32,
            (camera.1 + y) as i32,
            (camera.2 + z) as i32,
        ),
{
    let k = view_box_index(x, y, z);
    assert(VIEW_BOX_WIDTH == 2 * VIEW_DISTANCE + 1);
    assert(k == (x + 16) * 1089 + (y + 16) * 33 + (z + 16));
    lemma_fundamental_div_mod_converse(k, 1089, x + 16, (y + 16) * 33 + (z + 16));
    lemma_fundamental_div_mod_converse(k, 33, (x + 16) * 33 + (y + 16), z + 16);
    lemma_fundamental_div_mod_converse((x + 16) * 33 + (y + 16), 33, x + 16, y + 16);
}

/// Fills the chunk queue with the coordinates in the current view distance
/// that have no chunk yet, up to the limit per pass. Does nothing unless the
/// generation timer has just finished.
pub fn fill_chunk_queue(
    generated_chunks: &GeneratedChunks,
    chunk_queue: &mut ChunkQueue,
    camera_chunk_pos: ChunkCoordinate,
    timer_just_finished: bool,
)
    requires
        view_box_fits(camera_chunk_pos),
    ensures
        final(chunk_queue)@ == old(chunk_queue)@ + if timer_just_finished {
            chunks_to_queue(generated_chunks@, camera_chunk_pos)
        } else {
            Seq::empty()
        },
{
    if !timer_just_finished {
        assert(chunk_queue@ + Seq::<ChunkCoordinate>::empty() =~= chunk_queue@);
        return ;
    }
    let mut num_chunks_added: usize = 0;
    proof {
        lemma_passing_start(view_box(camera_chunk_pos), not_generated(generated_chunks@));
        assert(chunk_queue@ + missing_before(generated_chunks@, camera_chunk_pos, 0)
            =~= chunk_queue@);
    }

    let mut x: i32 = -VIEW_DISTANCE;
    while x <= VIEW_DISTANCE
        invariant
            timer_just_finished,
            view_box_fits(camera_chunk_pos),
            -VIEW_DISTANCE <= x <= VIEW_DISTANCE + 1,
            num_chunks_added <= MAX_CHUNKS_PROCESSED_PER_ITER,
            num_chunks_added == missing_before(
                generated_chunks@,
                camera_chunk_pos,
                view_box_index(x as int, -VIEW_DISTANCE as int, -VIEW_DISTANCE as int),
            ).len(),
            chunk_queue@ == old(chunk_queue)@ + missing_before(
                generated_chunks@,
                camera_chunk_pos,
                view_box_index(x as int, -VIEW_DISTANCE as int, -VIEW_DISTANCE as int),
            ),
        decreases VIEW_DISTANCE + 1 - x,
    {
        let mut y: i32 = -VIEW_DISTANCE;
        while y <= VIEW_DISTANCE
            invariant
                timer_just_finished,
                view_box_fits(camera_chunk_pos),
                -VIEW_DISTANCE <= x <= VIEW_DISTANCE,
                -VIEW_DISTANCE <= y <= VIEW_DISTANCE + 1,
                num_chunks_added <= MAX_CHUNKS_PROCESSED_PER_ITER,
                num_chunks_added == missing_before(
                    generated_chunks@,
                    camera_chunk_pos,
                    view_box_index(x as int, y as int, -VIEW_DISTANCE as int),
                ).len(),
                chunk_queue@ == old(chunk_queue)@ + missing_before(
                    generated_chunks@,
                    camera_chunk_pos,
                    view_box_index(x as int, y as int, -VIEW_DISTANCE as int),
                ),
            decreases VIEW_DISTANCE + 1 - y,
        {
            let mut z: i32 = -VIEW_DISTANCE;
            while z <= VIEW_DISTANCE
                invariant
                    timer_just_finished,
                    view_box_fits(camera_chunk_pos),
                    -VIEW_DISTANCE <= x <= VIEW_DISTANCE,
                    -VIEW_DISTANCE <= y <= VIEW_DISTANCE,
                    -VIEW_DISTANCE <= z <= VIEW_DISTANCE + 1,
                    num_chunks_added <= MAX_CHUNKS_PROCESSED_PER_ITER,
                    num_chunks_added == missing_before(
                        generated_chunks@,
                        camera_chunk_pos,
                        view_box_index(x as int, y as int, z as int),
                    ).len(),
                    chunk_queue@ == old(chunk_queue)@ + missing_before(
                        generated_chunks@,
                        camera_chunk_pos,
                        view_box_index(x as int, y as int, z as int),
                    ),
                decreases VIEW_DISTANCE + 1 - z,
            {
                let ghost k = view_box_index(x as int, y as int, z as int);
                proof {
                    lemma_view_box_index(camera_chunk_pos, x as int, y as int, z as int);
                }
                if num_chunks_added == MAX_CHUNKS_PROCESSED_PER_ITER {
                    proof {
                        lemma_passing_cut(
                            view_box(camera_chunk_pos),
                            not_generated(generated_chunks@),
                            k,
                            MAX_CHUNKS_PROCESSED_PER_ITER as int,
                        );
                    }
                    return ;
                }
                let pos = (camera_chunk_pos.0 + x, camera_chunk_pos.1 + y, camera_chunk_pos.2 + z);
                proof {
                    lemma_passing_step(
                        view_box(camera_chunk_pos),
                        not_generated(generated_chunks@),
                        k,
                    );
                }

                // A chunk was already generated, don't add it to the queue
                if !generated_chunks.contains(pos) {
                    let ghost found = missing_before(generated_chunks@, camera_chunk_pos, k);
                    chunk_queue.push(pos);
                    assert((old(chunk_queue)@ + found).push(pos) =~= old(chunk_queue)@
                        + found.push(pos));
                    num_chunks_added += 1;
                }
                z += 1;
            }
            y += 1;
        }
        x += 1;
    }
    proof {
        lemma_passing_cut(
            view_box(camera_chunk_pos),
            not_generated(generated_chunks@),
            view_box_volume(),
            MAX_CHUNKS_PROCESSED_PER_ITER as int,
        );
    }
}

/// That a cache grew from `before` to `after` by generating the requested
/// chunks that it lacked: it holds the chunks it held, unchanged, and for
/// each requested coordinate that had none a chunk at that coordinate whose
/// voxels the sampler may have produced.
pub open spec fn grown_by_generation<F: Fn(i64, i64, i64) -> Block>(
    before: Map<ChunkCoordinate, Chunk>,
    after: Map<ChunkCoordinate, Chunk>,
    requested: Set<ChunkCoordinate>,
    sampler: &F,
) -> bool {
    &&& after.dom() == before.dom().union(requested)
    &&& forall|pos: ChunkCoordinate| #[trigger]
        before.dom().contains(pos) ==> after[pos] == before[pos]
    &&& forall|pos: ChunkCoordinate|
        requested.contains(pos) && !before.dom().contains(pos) ==> (#[trigger] after[pos]).pos()
            == pos && after[pos].sampled_from(sampler)
}

/// `num_cpus::get`, the number of processors that this process may use, which
/// is at least one.
#[verifier::external_body]
fn available_processors() -> (count: usize)
    ensures
        count >= 1,
{
    num_cpus::get()
}

/// One step of a worker: generates the chunk at `pos` and stores it, unless
/// the cache holds a chunk there already. Says whether it generated one.
///
/// The cache is borrowed exclusively from the test to the insertion, so no
/// other worker can generate the same chunk in between.
pub fn generate_chunk_if_absent<F: Fn(i64, i64, i64) -> Block>(
    chunks: &mut GeneratedChunks,
    pos: ChunkCoordinate,
    sampler: &F,
) -> (generated: bool)
    requires
        sampler_covers(sampler, pos),
    ensures
        generated == !old(chunks)@.dom().contains(pos),
        grown_by_generation(old(chunks)@, final(chunks)@, set![pos], sampler),
{
    // Chunk has already been generated
    if chunks.contains(pos) {
        assert(chunks@.dom() =~= chunks@.dom().union(set![pos]));
        return false;
    }
    let mut chunk = Chunk::empty(pos);
    chunk.generate(sampler);
    let inserted = chunks.insert(pos, chunk);
    assert(chunks@.dom() =~= old(chunks)@.dom().union(set![pos]));
    true
}

/// Drains the queue into the cache: takes coordinates from the queue until
/// it is empty and generates the chunk of each one that has none.
pub fn generate_chunks_worker<F: Fn(i64, i64, i64) -> Block>(
    chunks: &mut GeneratedChunks,
    queue: &mut ChunkQueue,
    sampler: &F,
)
    requires
        sampler_total(sampler),
    ensures
        final(queue)@.len() == 0,
        grown_by_generation(old(chunks)@, final(chunks)@, old(queue)@.to_set(), sampler),
{
    let ghost taken: Seq<ChunkCoordinate> = Seq::empty();
    proof {
        assert(chunks@.dom() =~= chunks@.dom().union(taken.to_set()));
        assert(taken + queue@ =~= queue@);
    }
    loop
        invariant_except_break
            sampler_total(sampler),
            taken + queue@ == old(queue)@,
            grown_by_generation(old(chunks)@, chunks@, taken.to_set(), sampler),
        ensures
            queue@.len() == 0,
            grown_by_generation(old(chunks)@, chunks@, old(queue)@.to_set(), sampler),
        decreases queue@.len(),
    {
        let ghost waiting = queue@;
        let ghost held = chunks@;
        match queue.pop() {
            None => {
                proof {
                    assert(taken + waiting =~= taken);
                }
                break ;
            },
            Some(pos) => {
                proof {
                    lemma_total_sampler_covers(sampler, pos);
                }
                let _ = generate_chunk_if_absent(chunks, pos, sampler);
                proof {
                    let grown = taken.push(pos);
                    assert(grown + queue@ =~= taken + waiting);
                    taken.lemma_push_to_set_commute(pos);
                    assert(grown.to_set() =~= taken.to_set().union(set![pos]));
                    lemma_generation_composes(
                        old(chunks)@,
                        held,
                        chunks@,
                        taken.to_set(),
                        set![pos],
                        sampler,
                    );
                    taken = grown;
                }
            },
        }
    }
}

/// Runs `num_threads` worker passes, one after another on the exclusive
/// borrow of the cache and the queue. The first pass drains the queue and
/// the others find it empty; without a worker nothing happens.
pub fn generate_chunks_with_workers<F: Fn(i64, i64, i64) -> Block>(
    generated_chunks: &mut GeneratedChunks,
    chunk_queue: &mut ChunkQueue,
    sampler: &F,
    num_threads: usize,
)
    requires
        sampler_total(sampler),
    ensures
        num_threads == 0 ==> final(chunk_queue)@ == old(chunk_queue)@ && final(generated_chunks)@
            == old(generated_chunks)@,
        num_threads > 0 ==> final(chunk_queue)@.len() == 0 && grown_by_generation(
            old(generated_chunks)@,
            final(generated_chunks)@,
            old(chunk_queue)@.to_set(),
            sampler,
        ),
{
    let mut started: usize = 0;
    while started < num_threads
        invariant
            sampler_total(sampler),
            started <= num_threads,
            started == 0 ==> chunk_queue@ == old(chunk_queue)@ && generated_chunks@ == old(
                generated_chunks,
            )@,
            started > 0 ==> chunk_queue@.len() == 0 && grown_by_generation(
                old(generated_chunks)@,
                generated_chunks@,
                old(chunk_queue)@.to_set(),
                sampler,
            ),
        decreases num_threads - started,
    {
        let ghost held = generated_chunks@;
        let ghost waiting = chunk_queue@;
        generate_chunks_worker(generated_chunks, chunk_queue, sampler);
        proof {
            if started > 0 {
                assert(waiting.to_set() =~= Set::<ChunkCoordinate>::empty());
                lemma_generated_once(held, generated_chunks@, waiting.to_set(), sampler);
            }
        }
        started += 1;
    }
}

/// Runs a generation pass with one worker for each processor that this
/// process may use, as `generate_chunks_with_workers` does. There is always
/// a worker, so the pass ends with the queue empty and every queued
/// coordinate generated.
pub fn generate_chunks_multithreaded<F: Fn(i64, i64, i64) -> Block>(
    generated_chunks: &mut GeneratedChunks,
    chunk_queue: &mut ChunkQueue,
    sampler: &F,
)
    requires
        sampler_total(sampler),
    ensures
        final(chunk_queue)@.len() == 0,
        grown_by_generation(
            old(generated_chunks)@,
            final(generated_chunks)@,
            old(chunk_queue)@.to_set(),
            sampler,
        ),
{
    let num_threads = available_processors();
    generate_chunks_with_workers(generated_chunks, chunk_queue, sampler, num_threads);
}

/// Two generation passes in a row are one pass for what both were asked.
pub proof fn lemma_generation_composes<F: Fn(i64, i64, i64) -> Block>(
    before: Map<ChunkCoordinate, Chunk>,
    between: Map<ChunkCoordinate, Chunk>,
    after: Map<ChunkCoordinate, Chunk>,
    first: Set<ChunkCoordinate>,
    second: Set<ChunkCoordinate>,
    sampler: &F,
)
    requires
        grown_by_generation(before, between, first, sampler),
        grown_by_generation(between, after, second, sampler),
    ensures
        grown_by_generation(before, after, first.union(second), sampler),
{
    assert(after.dom() =~= before.dom().union(first.union(second)));
    assert forall|pos: ChunkCoordinate| #[trigger] before.dom().contains(pos) implies after[pos]
        == before[pos] by {
        assert(between.dom().contains(pos));
    }
    assert forall|pos: ChunkCoordinate|
        first.union(second).contains(pos) && !before.dom().contains(pos) implies (
    #[trigger] after[pos]).pos() == pos && after[pos].sampled_from(sampler) by {
        if between.dom().contains(pos) {
            assert(first.contains(pos));
            assert(between[pos].pos() == pos);
        }
    }
}

/// What a cache has generated it never generates again: a pass that is asked
/// only for coordinates that the cache holds leaves the cache as it is.
pub proof fn lemma_generated_once<F: Fn(i64, i64, i64) -> Block>(
    before: Map<ChunkCoordinate, Chunk>,
    after: Map<ChunkCoordinate, Chunk>,
    requested: Set<ChunkCoordinate>,
    sampler: &F,
)
    requires
        grown_by_generation(before, after, requested, sampler),
        requested.subset_of(before.dom()),
    ensures
        after == before,
{
    assert(after.dom() =~= before.dom());
    assert(after =~= before);
}

} // verus!
