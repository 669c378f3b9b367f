//! Streaming without a queue: one pass generates, meshes and marks as loaded
//! the chunks of a region around the observer, and one pass unloads what has
//! left the view.

use vstd::prelude::*;
use crate::block::Block;
use crate::chunk::{lemma_total_sampler_covers, sampler_total, Chunk, ChunkCoordinate};
use crate::generation::{
    generate_chunk_if_absent,
    grown_by_generation,
    lemma_generation_composes,
    MAX_CHUNKS_PROCESSED_PER_ITER,
};
use crate::limit::{lemma_filter_agrees, lemma_filter_keeps_distinct};
use crate::loading::{
    chunks_of,
    entities_to_despawn,
    loaded_are_generated,
    places,
    positions,
    to_spawn,
    unload_chunks,
    ChunkMesh,
};
use crate::store::{GeneratedChunks, LoadedChunks};

verus! {

/// Whether the observer's coordinate moved by any of the offsets along an
/// axis is a chunk coordinate still.
pub open spec fn offsets_fit(camera: int, offsets: Seq<i32>) -> bool {
    forall|i: int| 0 <= i < offsets.len() ==> i32::MIN <= camera + #[trigger] offsets[i] <= i32::MAX
}

/// The coordinates at offset `x`, `y` and each of `zs` in turn from the
/// observer.
pub open spec fn region_column(
    camera: ChunkCoordinate,
    x: i32,
    y: i32,
    zs: Seq<i32>,
) -> Seq<ChunkCoordinate> {
    Seq::new(
        zs.len(),
        |k: int| ((camera.0 + x) as i32, (camera.1 + y) as i32, (camera.2 + zs[k]) as i32),
    )
}

/// The columns at offset `x` and each of `ys` in turn, one after another.
pub open spec fn region_slab(
    camera: ChunkCoordinate,
    x: i32,
    ys: Seq<i32>,
    zs: Seq<i32>,
) -> Seq<ChunkCoordinate>
    decreases ys.len(),
{
    if ys.len() == 0 {
        Seq::empty()
    } else {
        region_slab(camera, x, ys.drop_last(), zs) + region_column(camera, x, ys.last(), zs)
    }
}

/// The coordinates of a region around the observer in the order in which a
/// pass visits them: for each offset of `xs`, each of `ys`, each of `zs`.
pub open spec fn region(
    camera: ChunkCoordinate,
    xs: Seq<i32>,
    ys: Seq<i32>,
    zs: Seq<i32>,
) -> Seq<ChunkCoordinate>
    decreases xs.len(),
{
    if xs.len() == 0 {
        Seq::empty()
    } else {
        region(camera, xs.drop_last(), ys, zs) + region_slab(camera, xs.last(), ys, zs)
    }
}

/// The coordinates of `visited` in the order of their first visit, each
/// once.
pub open spec fn first_visits(visited: Seq<ChunkCoordinate>) -> Seq<ChunkCoordinate>
    decreases visited.len(),
{
    if visited.len() == 0 {
        Seq::empty()
    } else if visited.drop_last().contains(visited.last()) {
        first_visits(visited.drop_last())
    } else {
        first_visits(visited.drop_last()).push(visited.last())
    }
}

/// What a pass over a region has done when it has visited `visited`. For
/// each visited coordinate that was not loaded, the cache holds a chunk,
/// generated where there was none. Of those chunks the ones that are not
/// empty have been meshed, in the order of their first visit, and are marked
/// as loaded.
pub open spec fn region_visited<F: Fn(i64, i64, i64) -> Block>(
    old_chunks: Map<ChunkCoordinate, Chunk>,
    chunks: Map<ChunkCoordinate, Chunk>,
    old_loaded: Set<ChunkCoordinate>,
    loaded: Set<ChunkCoordinate>,
    spawned: Seq<ChunkMesh>,
    visited: Seq<ChunkCoordinate>,
    sampler: &F,
) -> bool {
    &&& grown_by_generation(old_chunks, chunks, visited.to_set().difference(old_loaded), sampler)
    &&& spawned.len() <= MAX_CHUNKS_PROCESSED_PER_ITER
    &&& positions(spawned) == first_visits(visited).filter(to_spawn(chunks, old_loaded))
    &&& forall|i: int|
        0 <= i < spawned.len() ==> (#[trigger] spawned[i]).mesh@
            == chunks[spawned[i].pos].spec_mesh()
    &&& loaded == old_loaded.union(positions(spawned).to_set())
}

/// What a pass over a region has done at its end: it has visited the region
/// from its start, and stopped short of its end only when, with the chunk
/// that it visited last, as many chunks were meshed as the limit per pass
/// allows.
pub open spec fn region_pass<F: Fn(i64, i64, i64) -> Block>(
    old_chunks: Map<ChunkCoordinate, Chunk>,
    chunks: Map<ChunkCoordinate, Chunk>,
    old_loaded: Set<ChunkCoordinate>,
    loaded: Set<ChunkCoordinate>,
    spawned: Seq<ChunkMesh>,
    visited: Seq<ChunkCoordinate>,
    all: Seq<ChunkCoordinate>,
    sampler: &F,
) -> bool {
    &&& region_visited(old_chunks, chunks, old_loaded, loaded, spawned, visited, sampler)
    &&& visited.is_prefix_of(all)
    &&& visited == all || (spawned.len() == MAX_CHUNKS_PROCESSED_PER_ITER && visited.len() > 0
        && visited.last() == spawned.last().pos)
}

/// A coordinate has a first visit exactly if it was visited.
pub proof fn lemma_first_visits_contains(visited: Seq<ChunkCoordinate>, pos: ChunkCoordinate)
    ensures
        first_visits(visited).contains(pos) <==> visited.contains(pos),
    decreases visited.len(),
{
    if visited.len() > 0 {
        let rest = visited.drop_last();
        let last = visited.last();
        lemma_first_visits_contains(rest, pos);
        lemma_first_visits_contains(rest, last);
        assert(visited =~= rest.push(last));
        rest.lemma_push_to_set_commute(last);
        assert(visited.contains(pos) <==> visited.to_set().contains(pos));
        assert(rest.contains(pos) <==> rest.to_set().contains(pos));
        if !rest.contains(last) {
            let firsts = first_visits(rest);
            firsts.lemma_push_to_set_commute(last);
            assert(firsts.push(last).contains(pos) <==> firsts.push(last).to_set().contains(pos));
            assert(firsts.contains(pos) <==> firsts.to_set().contains(pos));
        }
    }
}

/// A pass over a region meshes no chunk twice, however often it visits the
/// chunk's coordinate.
pub proof fn lemma_region_meshes_each_chunk_once<F: Fn(i64, i64, i64) -> Block>(
    old_chunks: Map<ChunkCoordinate, Chunk>,
    chunks: Map<ChunkCoordinate, Chunk>,
    old_loaded: Set<ChunkCoordinate>,
    loaded: Set<ChunkCoordinate>,
    spawned: Seq<ChunkMesh>,
    visited: Seq<ChunkCoordinate>,
    sampler: &F,
)
    requires
        region_visited(old_chunks, chunks, old_loaded, loaded, spawned, visited, sampler),
    ensures
        positions(spawned).no_duplicates(),
        forall|i: int|
            0 <= i < spawned.len() ==> visited.contains(#[trigger] positions(spawned)[i])
                && !old_loaded.contains(positions(spawned)[i]),
{
    let firsts = first_visits(visited);
    let test = to_spawn(chunks, old_loaded);
    lemma_first_visits_are_distinct(visited);
    lemma_filter_keeps_distinct(firsts, test);
    assert forall|i: int| 0 <= i < spawned.len() implies visited.contains(
        #[trigger] positions(spawned)[i],
    ) && !old_loaded.contains(positions(spawned)[i]) by {
        let pos = positions(spawned)[i];
        firsts.lemma_filter_pred(test, i);
        assert(firsts.filter(test).contains(pos));
        firsts.lemma_filter_contains_rev(test, pos);
        lemma_first_visits_contains(visited, pos);
    }
}

/// No coordinate stands twice among the first visits.
pub proof fn lemma_first_visits_are_distinct(visited: Seq<ChunkCoordinate>)
    ensures
        first_visits(visited).no_duplicates(),
    decreases visited.len(),
{
    if visited.len() > 0 {
        let rest = visited.drop_last();
        lemma_first_visits_are_distinct(rest);
        lemma_first_visits_contains(rest, visited.last());
    }
}

/// Visiting one more coordinate adds a first visit if the coordinate is new.
proof fn lemma_first_visits_push(visited: Seq<ChunkCoordinate>, pos: ChunkCoordinate)
    ensures
        first_visits(visited.push(pos)) == if visited.contains(pos) {
            first_visits(visited)
        } else {
            first_visits(visited).push(pos)
        },
{
    assert(visited.push(pos).drop_last() =~= visited);
}

/// A pass over part of the offsets visits the start of the region.
proof fn lemma_region_prefix(
    camera: ChunkCoordinate,
    xs: Seq<i32>,
    ys: Seq<i32>,
    zs: Seq<i32>,
    i: int,
    j: int,
    k: int,
)
    requires
        0 <= i < xs.len(),
        0 <= j < ys.len(),
        0 <= k <= zs.len(),
    ensures
        (region(camera, xs.take(i), ys, zs) + region_slab(camera, xs[i], ys.take(j), zs)
            + region_column(camera, xs[i], ys[j], zs).take(k)).is_prefix_of(
            region(camera, xs, ys, zs),
        ),
{
    let column = region_column(camera, xs[i], ys[j], zs);
    let slab_before = region_slab(camera, xs[i], ys.take(j), zs);
    let before = region(camera, xs.take(i), ys, zs);
    lemma_slab_prefix(camera, xs[i], ys, zs, j + 1);
    lemma_slab_step(camera, xs[i], ys, zs, j);
    lemma_region_step(camera, xs, ys, zs, i);
    lemma_region_take_prefix(camera, xs, ys, zs, i + 1);
    let slab = region_slab(camera, xs[i], ys, zs);
    let slab_after = region_slab(camera, xs[i], ys.take(j + 1), zs);
    assert(slab_after == slab_before + column);
    assert(slab_after.is_prefix_of(slab));
    let all = region(camera, xs, ys, zs);
    let visited = before + slab_before + column.take(k);
    assert(visited.is_prefix_of(before + slab_after));
    assert((before + slab_after).is_prefix_of(before + slab));
    assert((before + slab).is_prefix_of(all));
}

/// The first `j + 1` columns of a slab are its first `j` and one more.
proof fn lemma_slab_step(camera: ChunkCoordinate, x: i32, ys: Seq<i32>, zs: Seq<i32>, j: int)
    requires
        0 <= j < ys.len(),
    ensures
        region_slab(camera, x, ys.take(j + 1), zs) == region_slab(camera, x, ys.take(j), zs)
            + region_column(camera, x, ys[j], zs),
{
    assert(ys.take(j + 1).drop_last() =~= ys.take(j));
}

/// The first `i + 1` slabs of a region are its first `i` and one more.
proof fn lemma_region_step(
    camera: ChunkCoordinate,
    xs: Seq<i32>,
    ys: Seq<i32>,
    zs: Seq<i32>,
    i: int,
)
    requires
        0 <= i < xs.len(),
    ensures
        region(camera, xs.take(i + 1), ys, zs) == region(camera, xs.take(i), ys, zs)
            + region_slab(camera, xs[i], ys, zs),
{
    assert(xs.take(i + 1).drop_last() =~= xs.take(i));
}

/// The first `j` columns of a slab stand at its start.
proof fn lemma_slab_prefix(camera: ChunkCoordinate, x: i32, ys: Seq<i32>, zs: Seq<i32>, j: int)
    requires
        0 <= j <= ys.len(),
    ensures
        region_slab(camera, x, ys.take(j), zs).is_prefix_of(region_slab(camera, x, ys, zs)),
    decreases ys.len() - j,
{
    if j == ys.len() {
        assert(ys.take(j) =~= ys);
    } else {
        lemma_slab_prefix(camera, x, ys, zs, j + 1);
        lemma_slab_step(camera, x, ys, zs, j);
    }
}

/// The first `i` slabs of a region stand at its start.
proof fn lemma_region_take_prefix(
    camera: ChunkCoordinate,
    xs: Seq<i32>,
    ys: Seq<i32>,
    zs: Seq<i32>,
    i: int,
)
    requires
        0 <= i <= xs.len(),
    ensures
        region(camera, xs.take(i), ys, zs).is_prefix_of(region(camera, xs, ys, zs)),
    decreases xs.len() - i,
{
    if i == xs.len() {
        assert(xs.take(i) =~= xs);
    } else {
        lemma_region_take_prefix(camera, xs, ys, zs, i + 1);
        lemma_region_step(camera, xs, ys, zs, i);
    }
}

/// Generates, meshes and marks as loaded the chunks of a region around the
/// observer, in one pass and without a queue. The pass visits the
/// coordinates at the given offsets from the observer in order. Where a
/// coordinate is not loaded, it generates the chunk if the cache has none,
/// and meshes and marks it as loaded if it is not empty. It ends when as
/// many chunks are meshed as the limit per pass allows. Does nothing unless
/// the generation timer has just finished.
pub fn spawn_chunks_in_region<F: Fn(i64, i64, i64) -> Block>(
    generated_chunks: &mut GeneratedChunks,
    loaded_chunks: &mut LoadedChunks,
    sampler: &F,
    timer_just_finished: bool,
    camera_chunk_pos: ChunkCoordinate,
    region_bounds_x: &Vec<i32>,
    region_bounds_y: &Vec<i32>,
    region_bounds_z: &Vec<i32>,
) -> (spawned: Vec<ChunkMesh>)
    requires
        sampler_total(sampler),
        offsets_fit(camera_chunk_pos.0 as int, region_bounds_x@),
        offsets_fit(camera_chunk_pos.1 as int, region_bounds_y@),
        offsets_fit(camera_chunk_pos.2 as int, region_bounds_z@),
    ensures
        timer_just_finished ==> exists|visited: Seq<ChunkCoordinate>| #[trigger]
            region_pass(
                old(generated_chunks)@,
                final(generated_chunks)@,
                old(loaded_chunks)@,
                final(loaded_chunks)@,
                spawned@,
                visited,
                region(camera_chunk_pos, region_bounds_x@, region_bounds_y@, region_bounds_z@),
                sampler,
            ),
        !timer_just_finished ==> spawned@.len() == 0 && final(generated_chunks)@
            == old(generated_chunks)@ && final(loaded_chunks)@ == old(loaded_chunks)@,
        loaded_are_generated(old(generated_chunks)@, old(loaded_chunks)@) ==> loaded_are_generated(
            final(generated_chunks)@,
            final(loaded_chunks)@,
        ),
{
    let mut spawned: Vec<ChunkMesh> = Vec::new();
    if !timer_just_finished {
        return spawned;
    }
    let ghost xs = region_bounds_x@;
    let ghost ys = region_bounds_y@;
    let ghost zs = region_bounds_z@;
    let ghost all = region(camera_chunk_pos, xs, ys, zs);
    let ghost visited: Seq<ChunkCoordinate> = Seq::empty();
    proof {
        assert(visited.to_set().difference(loaded_chunks@) =~= Set::<ChunkCoordinate>::empty());
        assert(generated_chunks@.dom() =~= generated_chunks@.dom().union(
            Set::<ChunkCoordinate>::empty(),
        ));
        assert(positions(spawned@) =~= Seq::<ChunkCoordinate>::empty());
        first_visits(visited).lemma_filter_len(to_spawn(generated_chunks@, loaded_chunks@));
        assert(positions(spawned@) =~= first_visits(visited).filter(
            to_spawn(generated_chunks@, loaded_chunks@),
        ));
        assert(loaded_chunks@ =~= loaded_chunks@.union(positions(spawned@).to_set()));
        assert(xs.take(0) =~= Seq::<i32>::empty());
    }
    let mut i: usize = 0;
    while i < region_bounds_x.len()
        invariant
            timer_just_finished,
            sampler_total(sampler),
            xs == region_bounds_x@,
            ys == region_bounds_y@,
            zs == region_bounds_z@,
            all == region(camera_chunk_pos, xs, ys, zs),
            offsets_fit(camera_chunk_pos.0 as int, xs),
            offsets_fit(camera_chunk_pos.1 as int, ys),
            offsets_fit(camera_chunk_pos.2 as int, zs),
            i <= xs.len(),
            visited == region(camera_chunk_pos, xs.take(i as int), ys, zs),
            region_visited(
                old(generated_chunks)@,
                generated_chunks@,
                old(loaded_chunks)@,
                loaded_chunks@,
                spawned@,
                visited,
                sampler,
            ),
            stopped_at_limit(spawned@, visited),
            loaded_are_generated(old(generated_chunks)@, old(loaded_chunks)@)
                ==> loaded_are_generated(generated_chunks@, loaded_chunks@),
        decreases xs.len() - i,
    {
        let x = region_bounds_x[i];
        let ghost before = visited;
        proof {
            assert(ys.take(0) =~= Seq::<i32>::empty());
            assert(before + region_slab(camera_chunk_pos, x, ys.take(0), zs) =~= before);
        }
        let mut j: usize = 0;
        while j < region_bounds_y.len()
            invariant
                timer_just_finished,
                sampler_total(sampler),
                xs == region_bounds_x@,
                ys == region_bounds_y@,
                zs == region_bounds_z@,
                all == region(camera_chunk_pos, xs, ys, zs),
                offsets_fit(camera_chunk_pos.0 as int, xs),
                offsets_fit(camera_chunk_pos.1 as int, ys),
                offsets_fit(camera_chunk_pos.2 as int, zs),
                i < xs.len(),
                x == xs[i as int],
                j <= ys.len(),
                before == region(camera_chunk_pos, xs.take(i as int), ys, zs),
                visited == before + region_slab(camera_chunk_pos, x, ys.take(j as int), zs),
                region_visited(
                    old(generated_chunks)@,
                    generated_chunks@,
                    old(loaded_chunks)@,
                    loaded_chunks@,
                    spawned@,
                    visited,
                    sampler,
                ),
                stopped_at_limit(spawned@, visited),
                loaded_are_generated(old(generated_chunks)@, old(loaded_chunks)@)
                    ==> loaded_are_generated(generated_chunks@, loaded_chunks@),
            decreases ys.len() - j,
        {
            let y = region_bounds_y[j];
            let ghost slab_before = visited;
            let ghost column = region_column(camera_chunk_pos, x, y, zs);
            proof {
                assert(slab_before + column.take(0) =~= slab_before);
            }
            let mut k: usize = 0;
            while k < region_bounds_z.len()
                invariant
                    timer_just_finished,
                    sampler_total(sampler),
                    xs == region_bounds_x@,
                    ys == region_bounds_y@,
                    zs == region_bounds_z@,
                    all == region(camera_chunk_pos, xs, ys, zs),
                    offsets_fit(camera_chunk_pos.0 as int, xs),
                    offsets_fit(camera_chunk_pos.1 as int, ys),
                    offsets_fit(camera_chunk_pos.2 as int, zs),
                    i < xs.len(),
                    x == xs[i as int],
                    j < ys.len(),
                    y == ys[j as int],
                    k <= zs.len(),
                    before == region(camera_chunk_pos, xs.take(i as int), ys, zs),
                    slab_before == before + region_slab(
                        camera_chunk_pos,
                        x,
                        ys.take(j as int),
                        zs,
                    ),
                    column == region_column(camera_chunk_pos, x, y, zs),
                    visited == slab_before + column.take(k as int),
                    region_visited(
                        old(generated_chunks)@,
                        generated_chunks@,
                        old(loaded_chunks)@,
                        loaded_chunks@,
                        spawned@,
                        visited,
                        sampler,
                    ),
                    stopped_at_limit(spawned@, visited),
                    loaded_are_generated(old(generated_chunks)@, old(loaded_chunks)@)
                        ==> loaded_are_generated(generated_chunks@, loaded_chunks@),
                decreases zs.len() - k,
            {
                if spawned.len() == MAX_CHUNKS_PROCESSED_PER_ITER {
                    proof {
                        lemma_region_prefix(
                            camera_chunk_pos,
                            xs,
                            ys,
                            zs,
                            i as int,
                            j as int,
                            k as int,
                        );
                        assert(positions(spawned@).last() == spawned@.last().pos);
                        assert(region_pass(
                            old(generated_chunks)@,
                            generated_chunks@,
                            old(loaded_chunks)@,
                            loaded_chunks@,
                            spawned@,
                            visited,
                            all,
                            sampler,
                        ));
                    }
                    return spawned;
                }
                let z = region_bounds_z[k];
                let pos = (camera_chunk_pos.0 + x, camera_chunk_pos.1 + y, camera_chunk_pos.2 + z);
                proof {
                    assert(column.take(k as int + 1) =~= column.take(k as int).push(pos));
                    assert(slab_before + column.take(k as int + 1) =~= visited.push(pos));
                }
                spawn_chunk_in_region(
                    generated_chunks,
                    loaded_chunks,
                    &mut spawned,
                    sampler,
                    pos,
                    Ghost(old(generated_chunks)@),
                    Ghost(old(loaded_chunks)@),
                    Ghost(visited),
                );
                proof {
                    visited = visited.push(pos);
                }
                k += 1;
            }
            proof {
                assert(column.take(k as int) =~= column);
                lemma_slab_step(camera_chunk_pos, x, ys, zs, j as int);
                assert(visited =~= before + region_slab(
                    camera_chunk_pos,
                    x,
                    ys.take(j as int + 1),
                    zs,
                ));
            }
            j += 1;
        }
        proof {
            assert(ys.take(j as int) =~= ys);
            lemma_region_step(camera_chunk_pos, xs, ys, zs, i as int);
        }
        i += 1;
    }
    proof {
        assert(xs.take(i as int) =~= xs);
        assert(region_pass(
            old(generated_chunks)@,
            generated_chunks@,
            old(loaded_chunks)@,
            loaded_chunks@,
            spawned@,
            visited,
            all,
            sampler,
        ));
    }
    spawned
}

/// With the limit reached, the chunk that was visited last is the one that
/// was meshed last.
spec fn stopped_at_limit(spawned: Seq<ChunkMesh>, visited: Seq<ChunkCoordinate>) -> bool {
    spawned.len() == MAX_CHUNKS_PROCESSED_PER_ITER ==> visited.len() > 0 && visited.last()
        == spawned.last().pos
}

/// Visits one coordinate of a region.
fn spawn_chunk_in_region<F: Fn(i64, i64, i64) -> Block>(
    generated_chunks: &mut GeneratedChunks,
    loaded_chunks: &mut LoadedChunks,
    spawned: &mut Vec<ChunkMesh>,
    sampler: &F,
    pos: ChunkCoordinate,
    Ghost(old_chunks): Ghost<Map<ChunkCoordinate, Chunk>>,
    Ghost(old_loaded): Ghost<Set<ChunkCoordinate>>,
    Ghost(visited): Ghost<Seq<ChunkCoordinate>>,
)
    requires
        sampler_total(sampler),
        old(spawned).len() < MAX_CHUNKS_PROCESSED_PER_ITER,
        region_visited(
            old_chunks,
            old(generated_chunks)@,
            old_loaded,
            old(loaded_chunks)@,
            old(spawned)@,
            visited,
            sampler,
        ),
        loaded_are_generated(old_chunks, old_loaded) ==> loaded_are_generated(
            old(generated_chunks)@,
            old(loaded_chunks)@,
        ),
    ensures
        region_visited(
            old_chunks,
            final(generated_chunks)@,
            old_loaded,
            final(loaded_chunks)@,
            final(spawned)@,
            visited.push(pos),
            sampler,
        ),
        stopped_at_limit(final(spawned)@, visited.push(pos)),
        loaded_are_generated(old_chunks, old_loaded) ==> loaded_are_generated(
            final(generated_chunks)@,
            final(loaded_chunks)@,
        ),
{
    let ghost held = generated_chunks@;
    let ghost earlier = spawned@;
    let ghost requested = visited.to_set().difference(old_loaded);
    let ghost firsts = first_visits(visited);
    proof {
        visited.lemma_push_to_set_commute(pos);
        lemma_first_visits_push(visited, pos);
        lemma_first_visits_contains(visited, pos);
        // What is meshed was visited.
        assert forall|p: ChunkCoordinate| positions(earlier).contains(p) implies visited.contains(
            p,
        ) by {
            firsts.lemma_filter_contains_rev(to_spawn(held, old_loaded), p);
            lemma_first_visits_contains(visited, p);
        }
    }

    // Chunk is already loaded, don't load it again
    if loaded_chunks.contains(pos) {
        proof {
            if !old_loaded.contains(pos) {
                assert(positions(earlier).to_set().contains(pos));
                assert(positions(earlier).contains(pos));
            }
            assert(visited.push(pos).to_set().difference(old_loaded) =~= requested);
            if !visited.contains(pos) {
                firsts.lemma_filter_push(pos, to_spawn(held, old_loaded));
            }
        }
        return ;
    }
    proof {
        assert(!old_loaded.contains(pos));
        assert(!positions(earlier).contains(pos)) by {
            if positions(earlier).contains(pos) {
                assert(positions(earlier).to_set().contains(pos));
            }
        }
        lemma_total_sampler_covers(sampler, pos);
    }
    let _ = generate_chunk_if_absent(generated_chunks, pos, sampler);
    let ghost test = to_spawn(generated_chunks@, old_loaded);
    proof {
        lemma_generation_composes(
            old_chunks,
            held,
            generated_chunks@,
            requested,
            set![pos],
            sampler,
        );
        assert(visited.push(pos).to_set().difference(old_loaded) =~= requested.union(set![pos]));
        // What was visited before keeps its chunk.
        assert forall|p: ChunkCoordinate|
            visited.contains(p) && !old_loaded.contains(p) implies held.dom().contains(p)
            && #[trigger] generated_chunks@[p] == held[p] by {
            assert(requested.contains(p));
        }
        assert forall|i: int| 0 <= i < firsts.len() implies to_spawn(held, old_loaded)(
            #[trigger] firsts[i],
        ) == test(firsts[i]) by {
            assert(firsts.contains(firsts[i]));
            lemma_first_visits_contains(visited, firsts[i]);
        }
        lemma_filter_agrees(firsts, to_spawn(held, old_loaded), test);
        firsts.lemma_filter_push(pos, test);
        assert forall|i: int| 0 <= i < earlier.len() implies (#[trigger] earlier[i]).mesh@
            == generated_chunks@[earlier[i].pos].spec_mesh() by {
            assert(positions(earlier)[i] == earlier[i].pos);
            assert(positions(earlier).contains(earlier[i].pos));
        }
        if loaded_are_generated(old_chunks, old_loaded) {
            assert forall|p: ChunkCoordinate| #[trigger]
                loaded_chunks@.contains(p) implies generated_chunks@.dom().contains(p)
                && !generated_chunks@[p].is_empty() by {
                assert(held.dom().contains(p));
            }
        }
        assert(generated_chunks@.dom().contains(pos));
        if visited.contains(pos) {
            // It was visited and not meshed, so its chunk is empty.
            assert(generated_chunks@[pos] == held[pos]);
            let at = choose|at: int| 0 <= at < firsts.len() && firsts[at] == pos;
            if to_spawn(held, old_loaded)(pos) {
                firsts.lemma_filter_contains(to_spawn(held, old_loaded), at);
            }
            assert(generated_chunks@[pos].is_empty());
        }
    }
    let chunk = match generated_chunks.get(pos) {
        Some(chunk) => chunk,
        None => { return ; },
    };

    // An empty chunk has no mesh: it stays in the cache and is never loaded
    if chunk.is_empty() {
        return ;
    }
    let mesh = chunk.get_mesh();
    let _ = loaded_chunks.insert(pos);
    spawned.push(ChunkMesh { pos, mesh });
    proof {
        assert(positions(spawned@) =~= positions(earlier).push(pos));
        positions(earlier).lemma_push_to_set_commute(pos);
        assert(loaded_chunks@ =~= old_loaded.union(positions(spawned@).to_set()));
    }
}

/// Unloads the chunks that have left the view, as `unload_chunks` does. Does
/// nothing unless the generation timer has just finished.
pub fn despawn_old_chunks(
    loaded_chunks: &mut LoadedChunks,
    chunk_entities: &Vec<(i32, i32, i32)>,
    timer_just_finished: bool,
    camera_chunk_pos: ChunkCoordinate,
) -> (despawned: Vec<usize>)
    ensures
        places(despawned@) == if timer_just_finished {
            entities_to_despawn(chunk_entities@, camera_chunk_pos)
        } else {
            Seq::empty()
        },
        final(loaded_chunks)@ == if timer_just_finished {
            old(loaded_chunks)@.difference(
                chunks_of(
                    chunk_entities@,
                    entities_to_despawn(chunk_entities@, camera_chunk_pos),
                ),
            )
        } else {
            old(loaded_chunks)@
        },
{
    if !timer_just_finished {
        let despawned: Vec<usize> = Vec::new();
        assert(places(despawned@) =~= Seq::<int>::empty());
        return despawned;
    }
    unload_chunks(loaded_chunks, chunk_entities, camera_chunk_pos)
}

} // verus!
