//! Questions about the terrain that are answered by sampling it.

use vstd::prelude::*;
use crate::block::Block;
use crate::chunk::sampler_total;

verus! {

/// The six positions next to `(x, y, z)`: towards +x, -x, +y, -y, +z, -z.
pub open spec fn neighbors(x: i64, y: i64, z: i64) -> Seq<(i64, i64, i64)> {
    seq![
        ((x + 1) as i64, y, z),
        ((x - 1) as i64, y, z),
        (x, (y + 1) as i64, z),
        (x, (y - 1) as i64, z),
        (x, y, (z + 1) as i64),
        (x, y, (z - 1) as i64),
    ]
}

/// That `blocks` are blocks which the sampler can return for the six
/// positions next to `(x, y, z)`, in the order of `neighbors`.
pub open spec fn sampled_neighbors<F: Fn(i64, i64, i64) -> Block>(
    sampler: &F,
    x: i64,
    y: i64,
    z: i64,
    blocks: Seq<Block>,
) -> bool {
    &&& blocks.len() == 6
    &&& forall|i: int| 0 <= i < 6 ==> sampler.ensures(neighbors(x, y, z)[i], #[trigger] blocks[i])
}

/// Whether the position `(x, y, z)` is hidden from every side: the terrain
/// is opaque at each of the six positions next to it.
pub fn is_occluded<F: Fn(i64, i64, i64) -> Block>(sampler: &F, x: i64, y: i64, z: i64) -> (occluded:
    bool)
    requires
        sampler_total(sampler),
        i64::MIN < x < i64::MAX,
        i64::MIN < y < i64::MAX,
        i64::MIN < z < i64::MAX,
    ensures
        exists|blocks: Seq<Block>| #[trigger]
            sampled_neighbors(sampler, x, y, z, blocks) && occluded == forall|i: int|
                0 <= i < 6 ==> (#[trigger] blocks[i]).is_opaque(),
{
    let pos_x = sampler(x + 1, y, z);
    let neg_x = sampler(x - 1, y, z);
    let pos_y = sampler(x, y + 1, z);
    let neg_y = sampler(x, y - 1, z);
    let pos_z = sampler(x, y, z + 1);
    let neg_z = sampler(x, y, z - 1);

    let occluded = pos_x.is_opaque() && neg_x.is_opaque() && pos_y.is_opaque()
        && neg_y.is_opaque() && pos_z.is_opaque() && neg_z.is_opaque();

    proof {
        let blocks = seq![pos_x, neg_x, pos_y, neg_y, pos_z, neg_z];
        assert(sampled_neighbors(sampler, x, y, z, blocks));
        if occluded {
            assert forall|i: int| 0 <= i < 6 implies (#[trigger] blocks[i]).is_opaque() by {}
        } else {
            assert(!blocks[0].is_opaque() || !blocks[1].is_opaque() || !blocks[2].is_opaque()
                || !blocks[3].is_opaque() || !blocks[4].is_opaque() || !blocks[5].is_opaque());
        }
    }
    occluded
}

} // verus!
