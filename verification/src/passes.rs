//! What a pass over the dirty blocks does to the distance field: all dirty
//! blocks are swept, then the distances of all of them cross their faces.

use vstd::prelude::*;
use crate::block_set::sorted_insert;
use crate::index::BlockIndex;
use crate::propagate::{neighbour_block, propagated_block, propagation_changes, spec_face};
use crate::relax::OpDir;
use crate::sweep::swept_block;
use crate::voxel::{Esdf, Real};

verus! {

/// The layer after one allocated block has been swept in a direction.
pub open spec fn spec_sweep<const VPS: usize>(
    layer: Map<BlockIndex<VPS>, Seq<Esdf>>,
    index: BlockIndex<VPS>,
    dir: OpDir,
    voxel_size: Real,
) -> Map<BlockIndex<VPS>, Seq<Esdf>> {
    layer.insert(index, swept_block::<VPS>(layer[index], dir, voxel_size))
}

/// The layer after the distances of a pivot block have crossed the face of
/// a direction: nothing changes where the neighbour is not allocated.
pub open spec fn spec_propagate<const VPS: usize>(
    layer: Map<BlockIndex<VPS>, Seq<Esdf>>,
    pivot: BlockIndex<VPS>,
    dir: OpDir,
    voxel_size: Real,
) -> Map<BlockIndex<VPS>, Seq<Esdf>> {
    let n = neighbour_block(pivot, dir);
    if layer.contains_key(n) {
        layer.insert(
            n,
            propagated_block::<VPS>(spec_face::<VPS>(layer[pivot], dir), layer[n], dir, voxel_size),
        )
    } else {
        layer
    }
}

/// The neighbour block that a propagation wrote to, if it wrote.
pub open spec fn spec_propagate_dirty<const VPS: usize>(
    layer: Map<BlockIndex<VPS>, Seq<Esdf>>,
    pivot: BlockIndex<VPS>,
    dir: OpDir,
    voxel_size: Real,
) -> Option<BlockIndex<VPS>> {
    let n = neighbour_block(pivot, dir);
    if layer.contains_key(n) && propagation_changes::<VPS>(
        spec_face::<VPS>(layer[pivot], dir),
        layer[n],
        dir,
        voxel_size,
    ) {
        Some(n)
    } else {
        None
    }
}

/// The layer after one block has been swept in the four directions along
/// x and y: x+, x-, y+, y-.
pub open spec fn spec_sweep_xy<const VPS: usize>(
    layer: Map<BlockIndex<VPS>, Seq<Esdf>>,
    index: BlockIndex<VPS>,
    voxel_size: Real,
) -> Map<BlockIndex<VPS>, Seq<Esdf>> {
    let a = spec_sweep(layer, index, OpDir::XPlus, voxel_size);
    let b = spec_sweep(a, index, OpDir::XMinus, voxel_size);
    let c = spec_sweep(b, index, OpDir::YPlus, voxel_size);
    spec_sweep(c, index, OpDir::YMinus, voxel_size)
}

/// The layer after each of the blocks has been swept along x and y, one
/// block after the other.
pub open spec fn spec_sweep_all<const VPS: usize>(
    layer: Map<BlockIndex<VPS>, Seq<Esdf>>,
    blocks: Seq<BlockIndex<VPS>>,
    voxel_size: Real,
) -> Map<BlockIndex<VPS>, Seq<Esdf>>
    decreases blocks.len(),
{
    if blocks.len() == 0 {
        layer
    } else {
        spec_sweep_xy(spec_sweep_all(layer, blocks.drop_last(), voxel_size), blocks.last(), voxel_size)
    }
}

/// The layer and the dirty blocks after the distances of a pivot block have
/// crossed the face of one direction: the neighbour is dirty if it was
/// written to.
pub open spec fn spec_propagate_dir<const VPS: usize>(
    state: (Map<BlockIndex<VPS>, Seq<Esdf>>, Seq<BlockIndex<VPS>>),
    pivot: BlockIndex<VPS>,
    dir: OpDir,
    voxel_size: Real,
) -> (Map<BlockIndex<VPS>, Seq<Esdf>>, Seq<BlockIndex<VPS>>) {
    (
        spec_propagate(state.0, pivot, dir, voxel_size),
        match spec_propagate_dirty(state.0, pivot, dir, voxel_size) {
            Some(n) => sorted_insert(state.1, n),
            None => state.1,
        },
    )
}

/// The layer and the dirty blocks after the distances of a pivot block have
/// crossed its faces along x and y: x+, x-, y+, y-.
pub open spec fn spec_propagate_xy<const VPS: usize>(
    state: (Map<BlockIndex<VPS>, Seq<Esdf>>, Seq<BlockIndex<VPS>>),
    pivot: BlockIndex<VPS>,
    voxel_size: Real,
) -> (Map<BlockIndex<VPS>, Seq<Esdf>>, Seq<BlockIndex<VPS>>) {
    let a = spec_propagate_dir(state, pivot, OpDir::XPlus, voxel_size);
    let b = spec_propagate_dir(a, pivot, OpDir::XMinus, voxel_size);
    let c = spec_propagate_dir(b, pivot, OpDir::YPlus, voxel_size);
    spec_propagate_dir(c, pivot, OpDir::YMinus, voxel_size)
}

/// The layer and the dirty blocks after the distances of each of the blocks
/// have crossed its faces along x and y, one block after the other.
pub open spec fn spec_propagate_all<const VPS: usize>(
    state: (Map<BlockIndex<VPS>, Seq<Esdf>>, Seq<BlockIndex<VPS>>),
    blocks: Seq<BlockIndex<VPS>>,
    voxel_size: Real,
) -> (Map<BlockIndex<VPS>, Seq<Esdf>>, Seq<BlockIndex<VPS>>)
    decreases blocks.len(),
{
    if blocks.len() == 0 {
        state
    } else {
        spec_propagate_xy(
            spec_propagate_all(state, blocks.drop_last(), voxel_size),
            blocks.last(),
            voxel_size,
        )
    }
}

/// One pass over the dirty blocks: all of them are swept, then the
/// distances of all of them cross their faces. The pass gives the layer
/// and the blocks that are dirty after it.
pub open spec fn spec_pass<const VPS: usize>(
    state: (Map<BlockIndex<VPS>, Seq<Esdf>>, Seq<BlockIndex<VPS>>),
    voxel_size: Real,
) -> (Map<BlockIndex<VPS>, Seq<Esdf>>, Seq<BlockIndex<VPS>>) {
    spec_propagate_all(
        (spec_sweep_all(state.0, state.1, voxel_size), Seq::<BlockIndex<VPS>>::empty()),
        state.1,
        voxel_size,
    )
}

/// The layer and the dirty blocks after `n` passes.
pub open spec fn spec_passes<const VPS: usize>(
    state: (Map<BlockIndex<VPS>, Seq<Esdf>>, Seq<BlockIndex<VPS>>),
    voxel_size: Real,
    n: nat,
) -> (Map<BlockIndex<VPS>, Seq<Esdf>>, Seq<BlockIndex<VPS>>)
    decreases n,
{
    if n == 0 {
        state
    } else {
        spec_pass(spec_passes(state, voxel_size, (n - 1) as nat), voxel_size)
    }
}

/// The passes come to rest after exactly `n` of them: no block is dirty
/// after `n` passes, and some block is dirty after each smaller number of
/// passes.
pub open spec fn comes_to_rest_after<const VPS: usize>(
    state: (Map<BlockIndex<VPS>, Seq<Esdf>>, Seq<BlockIndex<VPS>>),
    voxel_size: Real,
    n: nat,
) -> bool {
    &&& spec_passes(state, voxel_size, n).1.len() == 0
    &&& forall|k: nat| k < n ==> (#[trigger] spec_passes(state, voxel_size, k)).1.len() > 0
}

} // verus!
