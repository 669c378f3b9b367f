//! A cube of voxels, its place in the chunk grid, and its generation.

use vstd::prelude::*;
use crate::block::Block;

verus! {

/// The size, in x, y, and z, of each chunk.
pub const CHUNK_SIZE: usize = 16;

/// Position of a chunk in the chunk grid: the chunk's world origin divided by
/// the chunk size.
pub type ChunkCoordinate = (i32, i32, i32);

/// Whether `(x, y, z)` names a voxel of a chunk.
pub open spec fn in_chunk(x: int, y: int, z: int) -> bool {
    0 <= x < CHUNK_SIZE && 0 <= y < CHUNK_SIZE && 0 <= z < CHUNK_SIZE
}

/// World position of the voxel at local offset `(x, y, z)` of the chunk at
/// grid coordinate `pos`: the chunk's origin, which is its coordinate times
/// the chunk size, plus the offset.
pub open spec fn world_position(pos: ChunkCoordinate, x: int, y: int, z: int) -> (i64, i64, i64) {
    (
        (pos.0 * CHUNK_SIZE + x) as i64,
        (pos.1 * CHUNK_SIZE + y) as i64,
        (pos.2 * CHUNK_SIZE + z) as i64,
    )
}

/// World position of the voxel at local offset `(0, 0, 0)` of the chunk at
/// grid coordinate `pos`.
pub fn world_origin(pos: ChunkCoordinate) -> (origin: (i64, i64, i64))
    ensures
        origin == world_position(pos, 0, 0, 0),
{
    let size = CHUNK_SIZE as i64;
    (pos.0 as i64 * size, pos.1 as i64 * size, pos.2 as i64 * size)
}

/// That a sampler accepts every world position of the chunk at `pos`.
pub open spec fn sampler_covers<F: Fn(i64, i64, i64) -> Block>(
    sampler: &F,
    pos: ChunkCoordinate,
) -> bool {
    forall|x: int, y: int, z: int|
        in_chunk(x, y, z) ==> #[trigger] sampler.requires(world_position(pos, x, y, z))
}

/// That a sampler accepts every world position.
pub open spec fn sampler_total<F: Fn(i64, i64, i64) -> Block>(sampler: &F) -> bool {
    forall|x: i64, y: i64, z: i64| #[trigger] sampler.requires((x, y, z))
}

/// A sampler that accepts every world position accepts those of any chunk.
pub proof fn lemma_total_sampler_covers<F: Fn(i64, i64, i64) -> Block>(
    sampler: &F,
    pos: ChunkCoordinate,
)
    requires
        sampler_total(sampler),
    ensures
        sampler_covers(sampler, pos),
{
    assert forall|x: int, y: int, z: int| in_chunk(x, y, z) implies #[trigger] sampler.requires(
        world_position(pos, x, y, z),
    ) by {}
}

/// A cube of `CHUNK_SIZE`³ voxels at a coordinate of the chunk grid.
#[derive(Debug)]
pub struct Chunk {
    pub(crate) pos: ChunkCoordinate,
    pub(crate) voxels: [[[Block; CHUNK_SIZE]; CHUNK_SIZE]; CHUNK_SIZE],
    pub(crate) empty: bool,
}

impl Chunk {
    /// The chunk's coordinate in the chunk grid.
    pub closed spec fn spec_pos(&self) -> ChunkCoordinate {
        self.pos
    }

    /// The block at local offset `(x, y, z)`.
    pub closed spec fn voxel_at(&self, x: int, y: int, z: int) -> Block {
        grid_block(self.voxels, x, y, z)
    }

    /// Every voxel is `Air`.
    pub open spec fn spec_is_empty(&self) -> bool {
        forall|x: int, y: int, z: int| in_chunk(x, y, z) ==> self.voxel_at(x, y, z) == Block::Air
    }

    /// That a sampler may have produced this chunk's voxels: each voxel is a
    /// block that the sampler can return for the voxel's world position.
    pub open spec fn sampled_from<F: Fn(i64, i64, i64) -> Block>(&self, sampler: &F) -> bool {
        forall|x: int, y: int, z: int|
            in_chunk(x, y, z) ==> sampler.ensures(
                world_position(self.spec_pos(), x, y, z),
                #[trigger] self.voxel_at(x, y, z),
            )
    }

    /// The cached flag says whether every voxel is `Air`.
    #[verifier::type_invariant]
    spec fn flag_matches_voxels(&self) -> bool {
        self.empty == self.spec_is_empty()
    }

    /// An all-`Air` chunk at grid coordinate `pos`.
    pub fn empty(pos: ChunkCoordinate) -> (chunk: Self)
        ensures
            chunk.spec_pos() == pos,
            chunk.spec_is_empty(),
    {
        Self { pos, voxels: [[[Block::Air; CHUNK_SIZE]; CHUNK_SIZE]; CHUNK_SIZE], empty: true }
    }

    #[verifier::when_used_as_spec(spec_pos)]
    pub fn pos(&self) -> (pos: ChunkCoordinate)
        ensures
            pos == self.spec_pos(),
    {
        self.pos
    }

    /// World position of the voxel at local offset `(0, 0, 0)`.
    pub fn world_origin(&self) -> (origin: (i64, i64, i64))
        ensures
            origin == world_position(self.spec_pos(), 0, 0, 0),
    {
        world_origin(self.pos)
    }

    pub fn voxel(&self, x: usize, y: usize, z: usize) -> (block: Block)
        requires
            in_chunk(x as int, y as int, z as int),
        ensures
            block == self.voxel_at(x as int, y as int, z as int),
    {
        self.voxels[x][y][z]
    }

    /// Whether every voxel is `Air`. The answer was computed when the voxels
    /// were written and is read here in constant time.
    #[verifier::when_used_as_spec(spec_is_empty)]
    pub fn is_empty(&self) -> (empty: bool)
        ensures
            empty == self.spec_is_empty(),
    {
        proof {
            use_type_invariant(self);
        }
        self.empty
    }

    /// Fills every voxel with what `sampler` returns for the voxel's world
    /// position.
    pub fn generate<F: Fn(i64, i64, i64) -> Block>(&mut self, sampler: &F)
        requires
            sampler_covers(sampler, old(self).spec_pos()),
        ensures
            final(self).spec_pos() == old(self).spec_pos(),
            final(self).sampled_from(sampler),
    {
        let pos = self.pos;
        let origin = self.world_origin();
        let mut voxels = [[[Block::Air; CHUNK_SIZE]; CHUNK_SIZE]; CHUNK_SIZE];
        let mut empty = true;
        let mut x: usize = 0;
        while x < CHUNK_SIZE
            invariant
                x <= CHUNK_SIZE,
                sampler_covers(sampler, pos),
                origin == world_position(pos, 0, 0, 0),
                sampled_below(voxels, sampler, pos, voxel_index(x as int, 0, 0)),
                empty == air_below(voxels, voxel_index(x as int, 0, 0)),
            decreases CHUNK_SIZE - x,
        {
            let mut y: usize = 0;
            while y < CHUNK_SIZE
                invariant
                    x < CHUNK_SIZE,
                    y <= CHUNK_SIZE,
                    sampler_covers(sampler, pos),
                    origin == world_position(pos, 0, 0, 0),
                    sampled_below(voxels, sampler, pos, voxel_index(x as int, y as int, 0)),
                    empty == air_below(voxels, voxel_index(x as int, y as int, 0)),
                decreases CHUNK_SIZE - y,
            {
                let mut z: usize = 0;
                while z < CHUNK_SIZE
                    invariant
                        x < CHUNK_SIZE,
                        y < CHUNK_SIZE,
                        z <= CHUNK_SIZE,
                        sampler_covers(sampler, pos),
                        origin == world_position(pos, 0, 0, 0),
                        sampled_below(
                            voxels,
                            sampler,
                            pos,
                            voxel_index(x as int, y as int, z as int),
                        ),
                        empty == air_below(voxels, voxel_index(x as int, y as int, z as int)),
                    decreases CHUNK_SIZE - z,
                {
                    let wx: i64 = origin.0 + x as i64;
                    let wy: i64 = origin.1 + y as i64;
                    let wz: i64 = origin.2 + z as i64;
                    assert((wx, wy, wz) == world_position(pos, x as int, y as int, z as int));
                    let block = sampler(wx, wy, wz);
                    let ghost before = voxels;
                    voxels[x][y][z] = block;
                    proof {
                        assert forall|i: int, j: int, k: int|
                            in_chunk(i, j, k) && !(i == x && j == y && k == z) implies grid_block(
                            voxels,
                            i,
                            j,
                            k,
                        ) == grid_block(before, i, j, k) by {}
                        assert(grid_block(voxels, x as int, y as int, z as int) == block);
                        let n = voxel_index(x as int, y as int, z as int);
                        assert(air_below(voxels, n + 1) == (air_below(before, n) && block
                            == Block::Air)) by {
                            if air_below(voxels, n + 1) {
                                assert forall|i: int, j: int, k: int|
                                    in_chunk(i, j, k) && voxel_index(i, j, k) < n implies grid_block(
                                    before,
                                    i,
                                    j,
                                    k,
                                ) == Block::Air by {
                                    assert(grid_block(voxels, i, j, k) == Block::Air);
                                }
                            }
                            if air_below(before, n) && block == Block::Air {
                                assert forall|i: int, j: int, k: int|
                                    in_chunk(i, j, k) && voxel_index(i, j, k) < n + 1 implies grid_block(
                                    voxels,
                                    i,
                                    j,
                                    k,
                                ) == Block::Air by {
                                    if !(i == x && j == y && k == z) {
                                        assert(grid_block(before, i, j, k) == Block::Air);
                                    }
                                }
                            }
                        }
                        assert forall|i: int, j: int, k: int|
                            in_chunk(i, j, k) && voxel_index(i, j, k) < n + 1 implies sampler.ensures(
                            world_position(pos, i, j, k),
                            #[trigger] grid_block(voxels, i, j, k),
                        ) by {
                            if !(i == x && j == y && k == z) {
                                assert(grid_block(before, i, j, k) == grid_block(voxels, i, j, k));
                            }
                        }
                    }
                    empty = empty && block == Block::Air;
                    z += 1;
                }
                y += 1;
            }
            x += 1;
        }
        proof {
            assert forall|i: int, j: int, k: int| in_chunk(i, j, k) implies voxel_index(i, j, k)
                < voxel_index(CHUNK_SIZE as int, 0, 0) by {}
        }
        *self = Self { pos, voxels, empty };
        proof {
            assert forall|i: int, j: int, k: int| in_chunk(i, j, k) implies sampler.ensures(
                world_position(self.spec_pos(), i, j, k),
                #[trigger] self.voxel_at(i, j, k),
            ) by {
                assert(self.voxel_at(i, j, k) == grid_block(voxels, i, j, k));
            }
        }
    }
}

impl PartialEq for Chunk {
    /// Two chunks are the same chunk where they stand at the same coordinate.
    fn eq(&self, other: &Self) -> (equal: bool) {
        self.pos.0 == other.pos.0 && self.pos.1 == other.pos.1 && self.pos.2 == other.pos.2
    }
}

impl Eq for Chunk {

}

impl vstd::std_specs::cmp::PartialEqSpecImpl for Chunk {
    open spec fn obeys_eq_spec() -> bool {
        true
    }

    open spec fn eq_spec(&self, other: &Self) -> bool {
        self.spec_pos() == other.spec_pos()
    }
}

/// A sampler that can return only one block for each position yields the
/// same voxels, and so the same emptiness, whenever it fills a chunk at the
/// same coordinate.
pub proof fn lemma_generation_is_deterministic<F: Fn(i64, i64, i64) -> Block>(
    sampler: &F,
    one: Chunk,
    other: Chunk,
)
    requires
        one.spec_pos() == other.spec_pos(),
        one.sampled_from(sampler),
        other.sampled_from(sampler),
        forall|at: (i64, i64, i64), a: Block, b: Block|
            #![trigger sampler.ensures(at, a), sampler.ensures(at, b)]
            sampler.ensures(at, a) && sampler.ensures(at, b) ==> a == b,
    ensures
        forall|x: int, y: int, z: int|
            in_chunk(x, y, z) ==> #[trigger] one.voxel_at(x, y, z) == other.voxel_at(x, y, z),
        one.spec_is_empty() == other.spec_is_empty(),
{
    assert forall|x: int, y: int, z: int| in_chunk(x, y, z) implies #[trigger] one.voxel_at(
        x,
        y,
        z,
    ) == other.voxel_at(x, y, z) by {
        let at = world_position(one.spec_pos(), x, y, z);
        assert(sampler.ensures(at, one.voxel_at(x, y, z)));
        assert(sampler.ensures(at, other.voxel_at(x, y, z)));
    }
}

/// Position of a voxel in the order in which a chunk's voxels are visited:
/// by `x`, then `y`, then `z`.
pub open spec fn voxel_index(x: int, y: int, z: int) -> int {
    (x * CHUNK_SIZE + y) * CHUNK_SIZE + z
}

/// The block at `(x, y, z)` of a voxel grid.
pub open spec fn grid_block(
    voxels: [[[Block; CHUNK_SIZE]; CHUNK_SIZE]; CHUNK_SIZE],
    x: int,
    y: int,
    z: int,
) -> Block {
    voxels[x][y][z]
}

/// Every voxel visited before position `n` holds a block that the sampler can
/// return for it.
spec fn sampled_below<F: Fn(i64, i64, i64) -> Block>(
    voxels: [[[Block; CHUNK_SIZE]; CHUNK_SIZE]; CHUNK_SIZE],
    sampler: &F,
    pos: ChunkCoordinate,
    n: int,
) -> bool {
    forall|i: int, j: int, k: int|
        in_chunk(i, j, k) && voxel_index(i, j, k) < n ==> sampler.ensures(
            world_position(pos, i, j, k),
            #[trigger] grid_block(voxels, i, j, k),
        )
}

/// Every voxel visited before position `n` is `Air`.
spec fn air_below(voxels: [[[Block; CHUNK_SIZE]; CHUNK_SIZE]; CHUNK_SIZE], n: int) -> bool {
    forall|i: int, j: int, k: int|
        in_chunk(i, j, k) && voxel_index(i, j, k) < n ==> #[trigger] grid_block(voxels, i, j, k)
            == Block::Air
}

} // verus!
