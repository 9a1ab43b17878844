//! Every fixed voxel names a site block, and sweeps and propagations only
//! hand on the sites that fixed voxels already name: a distance field whose
//! sites are all allocated keeps that property.

use vstd::prelude::*;
use crate::passes::{
    spec_pass,
    spec_propagate,
    spec_propagate_all,
    spec_propagate_dir,
    spec_sweep,
    spec_sweep_all,
    spec_sweep_xy,
};
use crate::propagate::{lemma_face_place, neighbour_block, pivot_side, propagated_block, spec_face};
use crate::relax::{axis_coords, axis_lin, lemma_axis_of_linear, lemma_axis_round_trip, OpDir};
use crate::sweep::{swept_block, swept_voxel};
use crate::index::{BlockIndex, VoxelIndex};
use crate::invalidation::site_of;
use crate::settle::{all_allocated, blocks_full, lemma_relax_settles};
use crate::voxel::{Esdf, Real};

verus! {

/// Every fixed voxel of the sequence names a site block of the given set.
pub open spec fn sites_within<const VPS: usize>(voxels: Seq<Esdf>, allowed: Set<BlockIndex<VPS>>) -> bool {
    forall|i: int|
        0 <= i < voxels.len() && (#[trigger] voxels[i]).is_fixed() ==> allowed.contains(
            site_of::<VPS>(voxels[i]),
        )
}

/// Every fixed voxel of the layer names an allocated block as the block of
/// its site.
pub open spec fn sites_allocated<const VPS: usize>(layer: Map<BlockIndex<VPS>, Seq<Esdf>>) -> bool {
    forall|b: BlockIndex<VPS>| #[trigger] layer.contains_key(b) ==> sites_within(layer[b], layer.dom())
}

/// A swept voxel that is fixed names a site that a fixed voxel of the block
/// named before the sweep.
pub proof fn lemma_swept_voxel_site<const VPS: usize>(
    voxels: Seq<Esdf>,
    dir: OpDir,
    voxel_size: Real,
    u: int,
    v: int,
    w: int,
    allowed: Set<BlockIndex<VPS>>,
)
    requires
        voxels.len() == VPS * VPS * VPS,
        sites_within(voxels, allowed),
        0 <= u < VPS,
        0 <= v < VPS,
        0 <= w < VPS,
    ensures
        swept_voxel::<VPS>(voxels, dir, voxel_size, u, v, w).is_fixed() ==> allowed.contains(
            site_of::<VPS>(swept_voxel::<VPS>(voxels, dir, voxel_size, u, v, w)),
        ),
    decreases
            (if dir.is_forward() {
                w
            } else {
                VPS - 1 - w
            }),
{
    lemma_axis_round_trip::<VPS>(dir, u, v, w);
    let cur = voxels[axis_lin::<VPS>(dir, u, v, w)];
    if dir.is_forward() {
        if w > 0 {
            lemma_swept_voxel_site::<VPS>(voxels, dir, voxel_size, u, v, w - 1, allowed);
            lemma_relax_settles(
                swept_voxel::<VPS>(voxels, dir, voxel_size, u, v, w - 1),
                cur,
                voxel_size,
            );
        }
    } else {
        if w < VPS - 1 {
            lemma_swept_voxel_site::<VPS>(voxels, dir, voxel_size, u, v, w + 1, allowed);
            lemma_relax_settles(
                swept_voxel::<VPS>(voxels, dir, voxel_size, u, v, w + 1),
                cur,
                voxel_size,
            );
        }
    }
}

/// A sweep keeps the sites of a block within the given set.
pub proof fn lemma_swept_block_sites<const VPS: usize>(
    voxels: Seq<Esdf>,
    dir: OpDir,
    voxel_size: Real,
    allowed: Set<BlockIndex<VPS>>,
)
    requires
        0 < VPS,
        voxels.len() == VPS * VPS * VPS,
        sites_within(voxels, allowed),
    ensures
        sites_within(swept_block::<VPS>(voxels, dir, voxel_size), allowed),
{
    let swept = swept_block::<VPS>(voxels, dir, voxel_size);
    assert forall|i: int| 0 <= i < swept.len() && (#[trigger] swept[i]).is_fixed() implies allowed.contains(
        site_of::<VPS>(swept[i]),
    ) by {
        lemma_axis_of_linear::<VPS>(dir, i);
        let (u, v, w) = axis_coords(dir, VoxelIndex::<VPS>::spec_from_linear(i));
        lemma_swept_voxel_site::<VPS>(voxels, dir, voxel_size, u, v, w, allowed);
    }
}

/// A propagation keeps the sites of the neighbour block within the given
/// set, if the sites of the pivot block lie within it.
pub proof fn lemma_propagated_block_sites<const VPS: usize>(
    pivot: Seq<Esdf>,
    voxels: Seq<Esdf>,
    dir: OpDir,
    voxel_size: Real,
    allowed: Set<BlockIndex<VPS>>,
)
    requires
        0 < VPS,
        pivot.len() == VPS * VPS * VPS,
        voxels.len() == VPS * VPS * VPS,
        sites_within(pivot, allowed),
        sites_within(voxels, allowed),
    ensures
        sites_within(
            propagated_block::<VPS>(spec_face::<VPS>(pivot, dir), voxels, dir, voxel_size),
            allowed,
        ),
{
    let face = spec_face::<VPS>(pivot, dir);
    let after = propagated_block::<VPS>(face, voxels, dir, voxel_size);
    assert forall|i: int| 0 <= i < after.len() && (#[trigger] after[i]).is_fixed() implies allowed.contains(
        site_of::<VPS>(after[i]),
    ) by {
        lemma_axis_of_linear::<VPS>(dir, i);
        let (u, v, w) = axis_coords(dir, VoxelIndex::<VPS>::spec_from_linear(i));
        lemma_face_place(u, v, VPS as int);
        lemma_axis_round_trip::<VPS>(dir, u, v, pivot_side::<VPS>(dir));
        let k = u * VPS + v;
        assert(face[k] == pivot[axis_lin::<VPS>(dir, u, v, pivot_side::<VPS>(dir))]);
        lemma_relax_settles(face[k], voxels[i], voxel_size);
        assert(voxels[i].is_fixed() ==> allowed.contains(site_of::<VPS>(voxels[i])));
    }
}

/// One sweep of one block keeps the sites of the layer allocated.
pub proof fn lemma_sweep_sites<const VPS: usize>(
    layer: Map<BlockIndex<VPS>, Seq<Esdf>>,
    index: BlockIndex<VPS>,
    dir: OpDir,
    voxel_size: Real,
)
    requires
        0 < VPS,
        blocks_full(layer),
        layer.contains_key(index),
        sites_allocated(layer),
    ensures
        sites_allocated(spec_sweep(layer, index, dir, voxel_size)),
        blocks_full(spec_sweep(layer, index, dir, voxel_size)),
        spec_sweep(layer, index, dir, voxel_size).dom() == layer.dom(),
{
    let after = spec_sweep(layer, index, dir, voxel_size);
    assert(after.dom() =~= layer.dom());
    lemma_swept_block_sites::<VPS>(layer[index], dir, voxel_size, layer.dom());
    assert forall|b: BlockIndex<VPS>| #[trigger] after.contains_key(b) implies sites_within(
        after[b],
        after.dom(),
    ) by {
        if b != index {
            assert(layer.contains_key(b));
        }
    }
}

/// The four sweeps of one block keep the sites of the layer allocated.
pub proof fn lemma_sweep_xy_sites<const VPS: usize>(
    layer: Map<BlockIndex<VPS>, Seq<Esdf>>,
    index: BlockIndex<VPS>,
    voxel_size: Real,
)
    requires
        0 < VPS,
        blocks_full(layer),
        layer.contains_key(index),
        sites_allocated(layer),
    ensures
        sites_allocated(spec_sweep_xy(layer, index, voxel_size)),
        blocks_full(spec_sweep_xy(layer, index, voxel_size)),
        spec_sweep_xy(layer, index, voxel_size).dom() == layer.dom(),
{
    let a = spec_sweep(layer, index, OpDir::XPlus, voxel_size);
    let b = spec_sweep(a, index, OpDir::XMinus, voxel_size);
    let c = spec_sweep(b, index, OpDir::YPlus, voxel_size);
    lemma_sweep_sites(layer, index, OpDir::XPlus, voxel_size);
    lemma_sweep_sites(a, index, OpDir::XMinus, voxel_size);
    lemma_sweep_sites(b, index, OpDir::YPlus, voxel_size);
    lemma_sweep_sites(c, index, OpDir::YMinus, voxel_size);
}

/// The sweeps of a list of blocks keep the sites of the layer allocated.
pub proof fn lemma_sweep_all_sites<const VPS: usize>(
    layer: Map<BlockIndex<VPS>, Seq<Esdf>>,
    blocks: Seq<BlockIndex<VPS>>,
    voxel_size: Real,
)
    requires
        0 < VPS,
        blocks_full(layer),
        all_allocated(blocks, layer),
        sites_allocated(layer),
    ensures
        sites_allocated(spec_sweep_all(layer, blocks, voxel_size)),
        blocks_full(spec_sweep_all(layer, blocks, voxel_size)),
        spec_sweep_all(layer, blocks, voxel_size).dom() == layer.dom(),
    decreases blocks.len(),
{
    if blocks.len() > 0 {
        let rest = blocks.drop_last();
        assert forall|b: BlockIndex<VPS>| #[trigger] rest.contains(b) implies layer.contains_key(b) by {
            let k = choose|k: int| 0 <= k < rest.len() && rest[k] == b;
            assert(blocks[k] == b);
            assert(blocks.contains(b));
        }
        lemma_sweep_all_sites(layer, rest, voxel_size);
        assert(blocks.contains(blocks.last()));
        lemma_sweep_xy_sites(spec_sweep_all(layer, rest, voxel_size), blocks.last(), voxel_size);
    }
}

/// One crossing of one face keeps the sites of the layer allocated.
pub proof fn lemma_propagate_sites<const VPS: usize>(
    layer: Map<BlockIndex<VPS>, Seq<Esdf>>,
    pivot: BlockIndex<VPS>,
    dir: OpDir,
    voxel_size: Real,
)
    requires
        0 < VPS,
        blocks_full(layer),
        layer.contains_key(pivot),
        sites_allocated(layer),
    ensures
        sites_allocated(spec_propagate(layer, pivot, dir, voxel_size)),
        blocks_full(spec_propagate(layer, pivot, dir, voxel_size)),
        spec_propagate(layer, pivot, dir, voxel_size).dom() == layer.dom(),
{
    let after = spec_propagate(layer, pivot, dir, voxel_size);
    let n = neighbour_block(pivot, dir);
    assert(after.dom() =~= layer.dom());
    if layer.contains_key(n) {
        lemma_propagated_block_sites::<VPS>(layer[pivot], layer[n], dir, voxel_size, layer.dom());
        assert forall|b: BlockIndex<VPS>| #[trigger] after.contains_key(b) implies sites_within(
            after[b],
            after.dom(),
        ) by {
            if b != n {
                assert(layer.contains_key(b));
            }
        }
    }
}

/// The crossings of the faces of a list of allocated blocks keep the sites
/// of the layer allocated.
pub proof fn lemma_propagate_all_sites<const VPS: usize>(
    state: (Map<BlockIndex<VPS>, Seq<Esdf>>, Seq<BlockIndex<VPS>>),
    blocks: Seq<BlockIndex<VPS>>,
    voxel_size: Real,
)
    requires
        0 < VPS,
        blocks_full(state.0),
        all_allocated(blocks, state.0),
        sites_allocated(state.0),
    ensures
        sites_allocated(spec_propagate_all(state, blocks, voxel_size).0),
        blocks_full(spec_propagate_all(state, blocks, voxel_size).0),
        spec_propagate_all(state, blocks, voxel_size).0.dom() == state.0.dom(),
    decreases blocks.len(),
{
    if blocks.len() > 0 {
        let rest = blocks.drop_last();
        assert forall|b: BlockIndex<VPS>| #[trigger] rest.contains(b) implies state.0.contains_key(b) by {
            let k = choose|k: int| 0 <= k < rest.len() && rest[k] == b;
            assert(blocks[k] == b);
            assert(blocks.contains(b));
        }
        lemma_propagate_all_sites(state, rest, voxel_size);
        let mid = spec_propagate_all(state, rest, voxel_size);
        let pivot = blocks.last();
        assert(blocks.contains(pivot));
        assert(mid.0.contains_key(pivot));
        let a = spec_propagate_dir(mid, pivot, OpDir::XPlus, voxel_size);
        let b = spec_propagate_dir(a, pivot, OpDir::XMinus, voxel_size);
        let c = spec_propagate_dir(b, pivot, OpDir::YPlus, voxel_size);
        lemma_propagate_sites(mid.0, pivot, OpDir::XPlus, voxel_size);
        lemma_propagate_sites(a.0, pivot, OpDir::XMinus, voxel_size);
        lemma_propagate_sites(b.0, pivot, OpDir::YPlus, voxel_size);
        lemma_propagate_sites(c.0, pivot, OpDir::YMinus, voxel_size);
    }
}

/// A pass keeps the sites of the layer allocated.
pub proof fn lemma_pass_sites<const VPS: usize>(
    state: (Map<BlockIndex<VPS>, Seq<Esdf>>, Seq<BlockIndex<VPS>>),
    voxel_size: Real,
)
    requires
        0 < VPS,
        blocks_full(state.0),
        all_allocated(state.1, state.0),
        sites_allocated(state.0),
    ensures
        sites_allocated(spec_pass(state, voxel_size).0),
{
    lemma_sweep_all_sites(state.0, state.1, voxel_size);
    let swept = spec_sweep_all(state.0, state.1, voxel_size);
    lemma_propagate_all_sites((swept, Seq::<BlockIndex<VPS>>::empty()), state.1, voxel_size);
}

} // verus!
