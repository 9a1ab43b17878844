//! What sweeps and propagations do to a distance field, whatever the blocks
//! and directions: distances only settle downwards, sites stay put, and a
//! measure of the work that is left shrinks with every write.

use vstd::prelude::*;
use crate::passes::{
    spec_pass,
    spec_passes,
    spec_propagate_all,
    spec_propagate_dir,
    spec_propagate_dirty,
    spec_propagate_xy,
    spec_sweep,
    spec_sweep_all,
    spec_sweep_xy,
};
use crate::propagate::{
    lemma_face_place,
    line_changes,
    neighbour_block,
    neighbour_side,
    pivot_side,
    propagated_block,
    propagation_changes,
    spec_face,
};
use crate::relax::{
    axis_coords,
    axis_lin,
    lemma_axis_of_linear,
    lemma_axis_round_trip,
    relax_changes,
    spec_relax,
    spec_step,
    OpDir,
};
use crate::sweep::{swept_block, swept_voxel};
use crate::block_set::{is_sorted, lemma_sorted_insert};
use crate::index::{BlockIndex, VoxelIndex};
use crate::voxel::{Esdf, Real};

verus! {

/// The flags of a voxel that has just become fixed: the bits for "fixed" and
/// "has a site" are set, the other flags are as before.
pub proof fn lemma_fixed_bits(bits: u32)
    ensures
        (bits | 6) & 2 == 2,
        (bits | 6) & 4 == 4,
        ((bits | 6) & 1 == 1) == (bits & 1 == 1),
        ((bits | 6) & 8 == 8) == (bits & 8 == 8),
        bits & 2 != 2 ==> (bits | 6) != bits,
        (2u32 | 4u32) == 6u32,
{
    assert((2u32 | 4u32) == 6u32) by (bit_vector);
    assert((bits | 6) & 2 == 2) by (bit_vector);
    assert((bits | 6) & 4 == 4) by (bit_vector);
    assert(((bits | 6) & 1 == 1) == (bits & 1 == 1)) by (bit_vector);
    assert(((bits | 6) & 8 == 8) == (bits & 8 == 8)) by (bit_vector);
    assert(bits & 2 != 2 ==> (bits | 6) != bits) by (bit_vector);
}

/// How much a voxel can still settle: a fixed voxel by its distance above
/// the least distance there is, a voxel that is not fixed by more than any
/// fixed voxel.
pub open spec fn voxel_potential(v: Esdf) -> nat {
    if v.is_fixed() {
        (v.distance - Real::MIN) as nat
    } else {
        0x1_0000_0000
    }
}

/// The voxel `b` is what the voxel `a` may have become under sweeps and
/// propagations: a site is untouched, no voxel becomes or ceases to be a
/// site, a fixed voxel stays fixed and its distance does not grow.
pub open spec fn voxel_settles(a: Esdf, b: Esdf) -> bool {
    &&& a.is_observed() ==> b == a
    &&& b.is_observed() == a.is_observed()
    &&& a.is_fixed() ==> b.is_fixed() && b.distance <= a.distance
    &&& voxel_potential(b) <= voxel_potential(a)
}

/// Each voxel of `b` is what the voxel of `a` at its place may have become.
pub open spec fn block_settles(a: Seq<Esdf>, b: Seq<Esdf>) -> bool {
    &&& a.len() == b.len()
    &&& forall|i: int| 0 <= i < a.len() ==> voxel_settles(#[trigger] a[i], b[i])
}

/// The same blocks are allocated, and each block of `b` is what the block
/// of `a` may have become.
pub open spec fn layer_settles<const VPS: usize>(
    a: Map<BlockIndex<VPS>, Seq<Esdf>>,
    b: Map<BlockIndex<VPS>, Seq<Esdf>>,
) -> bool {
    &&& forall|k: BlockIndex<VPS>| a.contains_key(k) <==> b.contains_key(k)
    &&& forall|k: BlockIndex<VPS>| #[trigger] a.contains_key(k) ==> block_settles(a[k], b[k])
}

/// What one relaxation does to a voxel.
pub proof fn lemma_relax_settles(parent: Esdf, cur: Esdf, voxel_size: Real)
    ensures
        voxel_settles(cur, spec_relax(parent, cur, voxel_size)),
        !relax_changes(parent, cur, voxel_size) ==> spec_relax(parent, cur, voxel_size) == cur,
        relax_changes(parent, cur, voxel_size) ==> {
            let r = spec_relax(parent, cur, voxel_size);
            &&& parent.is_fixed()
            &&& r.is_fixed()
            &&& r.site_block_index == parent.site_block_index
            &&& r.distance == spec_step(parent.distance, voxel_size)
            &&& voxel_potential(r) < voxel_potential(cur)
        },
        spec_relax(parent, cur, voxel_size).is_fixed() ==> cur.is_fixed() || parent.is_fixed(),
        spec_relax(parent, cur, voxel_size).is_fixed() ==> spec_relax(
            parent,
            cur,
            voxel_size,
        ).site_block_index == cur.site_block_index && cur.is_fixed() || spec_relax(
            parent,
            cur,
            voxel_size,
        ).site_block_index == parent.site_block_index && parent.is_fixed(),
{
    lemma_fixed_bits(cur.flags.bits);
}

/// Settling is reflexive.
pub proof fn lemma_block_settles_refl(a: Seq<Esdf>)
    ensures
        block_settles(a, a),
{
}

/// Settling is transitive.
pub proof fn lemma_block_settles_trans(a: Seq<Esdf>, b: Seq<Esdf>, c: Seq<Esdf>)
    requires
        block_settles(a, b),
        block_settles(b, c),
    ensures
        block_settles(a, c),
{
    assert forall|i: int| 0 <= i < a.len() implies voxel_settles(#[trigger] a[i], c[i]) by {
        assert(voxel_settles(a[i], b[i]));
        assert(voxel_settles(b[i], c[i]));
    }
}

/// Settling of layers is reflexive.
pub proof fn lemma_layer_settles_refl<const VPS: usize>(a: Map<BlockIndex<VPS>, Seq<Esdf>>)
    ensures
        layer_settles(a, a),
{
}

/// Settling of layers is transitive.
pub proof fn lemma_layer_settles_trans<const VPS: usize>(
    a: Map<BlockIndex<VPS>, Seq<Esdf>>,
    b: Map<BlockIndex<VPS>, Seq<Esdf>>,
    c: Map<BlockIndex<VPS>, Seq<Esdf>>,
)
    requires
        layer_settles(a, b),
        layer_settles(b, c),
    ensures
        layer_settles(a, c),
{
    assert forall|k: BlockIndex<VPS>| #[trigger] a.contains_key(k) implies block_settles(a[k], c[k]) by {
        assert(b.contains_key(k));
        lemma_block_settles_trans(a[k], b[k], c[k]);
    }
}

/// A sweep lets every voxel of the block settle.
pub proof fn lemma_swept_block_settles<const VPS: usize>(voxels: Seq<Esdf>, dir: OpDir, voxel_size: Real)
    requires
        0 < VPS,
        voxels.len() == VPS * VPS * VPS,
    ensures
        block_settles(voxels, swept_block::<VPS>(voxels, dir, voxel_size)),
{
    let swept = swept_block::<VPS>(voxels, dir, voxel_size);
    assert forall|i: int| 0 <= i < voxels.len() implies voxel_settles(#[trigger] voxels[i], swept[i]) by {
        lemma_axis_of_linear::<VPS>(dir, i);
        let (u, v, w) = axis_coords(dir, VoxelIndex::<VPS>::spec_from_linear(i));
        if dir.is_forward() {
            if w > 0 {
                lemma_relax_settles(
                    swept_voxel::<VPS>(voxels, dir, voxel_size, u, v, w - 1),
                    voxels[i],
                    voxel_size,
                );
            }
        } else {
            if w < VPS - 1 {
                lemma_relax_settles(
                    swept_voxel::<VPS>(voxels, dir, voxel_size, u, v, w + 1),
                    voxels[i],
                    voxel_size,
                );
            }
        }
    }
}

/// A propagation lets every voxel of the neighbour block settle.
pub proof fn lemma_propagated_block_settles<const VPS: usize>(
    face: Seq<Esdf>,
    voxels: Seq<Esdf>,
    dir: OpDir,
    voxel_size: Real,
)
    requires
        0 < VPS,
        voxels.len() == VPS * VPS * VPS,
    ensures
        block_settles(voxels, propagated_block::<VPS>(face, voxels, dir, voxel_size)),
{
    let after = propagated_block::<VPS>(face, voxels, dir, voxel_size);
    assert forall|i: int| 0 <= i < voxels.len() implies voxel_settles(#[trigger] voxels[i], after[i]) by {
        let (u, v, w) = axis_coords(dir, VoxelIndex::<VPS>::spec_from_linear(i));
        lemma_relax_settles(face[u * VPS + v], voxels[i], voxel_size);
    }
}

/// After a sweep, no voxel of a line can be improved from the voxel before
/// it on the line: where that voxel is fixed and the voxel itself is no
/// site, the voxel is fixed and its distance is at most the distance of
/// the voxel before it plus one voxel.
pub proof fn lemma_sweep_relaxes_lines<const VPS: usize>(
    voxels: Seq<Esdf>,
    dir: OpDir,
    voxel_size: Real,
    u: int,
    v: int,
    w: int,
)
    requires
        voxels.len() == VPS * VPS * VPS,
        0 <= u < VPS,
        0 <= v < VPS,
        0 <= w < VPS,
        if dir.is_forward() {
            w >= 1
        } else {
            w <= VPS - 2
        },
    ensures
        ({
            let after = swept_block::<VPS>(voxels, dir, voxel_size);
            let before_w = if dir.is_forward() {
                w - 1
            } else {
                w + 1
            };
            let c = after[axis_lin::<VPS>(dir, u, v, w)];
            let p = after[axis_lin::<VPS>(dir, u, v, before_w)];
            p.is_fixed() && !c.is_observed() ==> c.is_fixed() && c.distance <= spec_step(
                p.distance,
                voxel_size,
            )
        }),
{
    let before_w = if dir.is_forward() {
        w - 1
    } else {
        w + 1
    };
    lemma_axis_round_trip::<VPS>(dir, u, v, w);
    lemma_axis_round_trip::<VPS>(dir, u, v, before_w);
    let p = swept_voxel::<VPS>(voxels, dir, voxel_size, u, v, before_w);
    let cur = voxels[axis_lin::<VPS>(dir, u, v, w)];
    lemma_relax_settles(p, cur, voxel_size);
}

/// After a propagation, no voxel at the facing side of the neighbour block
/// can be improved from the voxel of the pivot's face on its line: where
/// that voxel is fixed and the voxel itself is no site, the voxel is fixed
/// and its distance is at most the distance of the pivot's voxel plus one
/// voxel.
pub proof fn lemma_propagation_relaxes_face<const VPS: usize>(
    pivot: Seq<Esdf>,
    voxels: Seq<Esdf>,
    dir: OpDir,
    voxel_size: Real,
    u: int,
    v: int,
)
    requires
        pivot.len() == VPS * VPS * VPS,
        voxels.len() == VPS * VPS * VPS,
        0 <= u < VPS,
        0 <= v < VPS,
    ensures
        ({
            let after = propagated_block::<VPS>(spec_face::<VPS>(pivot, dir), voxels, dir, voxel_size);
            let c = after[axis_lin::<VPS>(dir, u, v, neighbour_side::<VPS>(dir))];
            let p = pivot[axis_lin::<VPS>(dir, u, v, pivot_side::<VPS>(dir))];
            p.is_fixed() && !c.is_observed() ==> c.is_fixed() && c.distance <= spec_step(
                p.distance,
                voxel_size,
            )
        }),
{
    let face = spec_face::<VPS>(pivot, dir);
    lemma_axis_round_trip::<VPS>(dir, u, v, neighbour_side::<VPS>(dir));
    lemma_axis_round_trip::<VPS>(dir, u, v, pivot_side::<VPS>(dir));
    lemma_face_place(u, v, VPS as int);
    let k = u * VPS + v;
    assert(face[k] == pivot[axis_lin::<VPS>(dir, u, v, pivot_side::<VPS>(dir))]);
    lemma_relax_settles(face[k], voxels[axis_lin::<VPS>(dir, u, v, neighbour_side::<VPS>(dir))], voxel_size);
}

/// The sum of the potentials of the voxels of a block.
pub open spec fn block_potential(voxels: Seq<Esdf>) -> nat
    decreases voxels.len(),
{
    if voxels.len() == 0 {
        0
    } else {
        block_potential(voxels.drop_last()) + voxel_potential(voxels.last())
    }
}

/// A block that has settled has no more potential than before, and less if
/// the potential of one voxel has shrunk.
pub proof fn lemma_block_potential_settles(a: Seq<Esdf>, b: Seq<Esdf>)
    requires
        block_settles(a, b),
    ensures
        block_potential(b) <= block_potential(a),
        (exists|j: int| 0 <= j < a.len() && voxel_potential(#[trigger] b[j]) < voxel_potential(a[j]))
            ==> block_potential(b) < block_potential(a),
    decreases a.len(),
{
    if a.len() > 0 {
        let a1 = a.drop_last();
        let b1 = b.drop_last();
        assert forall|i: int| 0 <= i < a1.len() implies voxel_settles(#[trigger] a1[i], b1[i]) by {
            assert(voxel_settles(a[i], b[i]));
        }
        lemma_block_potential_settles(a1, b1);
        assert(voxel_settles(a[a.len() - 1], b[a.len() - 1]));
        if exists|j: int| 0 <= j < a.len() && voxel_potential(#[trigger] b[j]) < voxel_potential(a[j]) {
            let j = choose|j: int|
                0 <= j < a.len() && voxel_potential(#[trigger] b[j]) < voxel_potential(a[j]);
            if j < a.len() - 1 {
                assert(voxel_potential(b1[j]) < voxel_potential(a1[j]));
            }
        }
    }
}

/// A propagation that writes takes potential away from the neighbour block.
pub proof fn lemma_propagation_shrinks<const VPS: usize>(
    face: Seq<Esdf>,
    voxels: Seq<Esdf>,
    dir: OpDir,
    voxel_size: Real,
)
    requires
        0 < VPS,
        voxels.len() == VPS * VPS * VPS,
        propagation_changes::<VPS>(face, voxels, dir, voxel_size),
    ensures
        block_potential(propagated_block::<VPS>(face, voxels, dir, voxel_size)) < block_potential(
            voxels,
        ),
{
    let after = propagated_block::<VPS>(face, voxels, dir, voxel_size);
    lemma_propagated_block_settles::<VPS>(face, voxels, dir, voxel_size);
    let (u, v) = choose|u: int, v: int|
        0 <= u < VPS && 0 <= v < VPS && (u < VPS || (u == VPS && v < 0)) && #[trigger] line_changes::<VPS>(
            face,
            voxels,
            dir,
            voxel_size,
            u,
            v,
        );
    let w = neighbour_side::<VPS>(dir);
    lemma_axis_round_trip::<VPS>(dir, u, v, w);
    let j = axis_lin::<VPS>(dir, u, v, w);
    lemma_relax_settles(face[u * VPS + v], voxels[j], voxel_size);
    assert(after[j] == spec_relax(face[u * VPS + v], voxels[j], voxel_size));
    assert(voxel_potential(after[j]) < voxel_potential(voxels[j]));
    lemma_block_potential_settles(voxels, after);
}

/// The sum of the potentials of the blocks of a layer, block by block as
/// they were allocated.
pub open spec fn layer_potential<const VPS: usize>(
    indices: Seq<BlockIndex<VPS>>,
    layer: Map<BlockIndex<VPS>, Seq<Esdf>>,
) -> nat
    decreases indices.len(),
{
    if indices.len() == 0 {
        0
    } else {
        layer_potential(indices.drop_last(), layer) + block_potential(layer[indices.last()])
    }
}

/// A layer that has settled has no more potential than before, and less if
/// the potential of one block has shrunk.
pub proof fn lemma_layer_potential_settles<const VPS: usize>(
    indices: Seq<BlockIndex<VPS>>,
    a: Map<BlockIndex<VPS>, Seq<Esdf>>,
    b: Map<BlockIndex<VPS>, Seq<Esdf>>,
)
    requires
        layer_settles(a, b),
        forall|i: int| 0 <= i < indices.len() ==> a.contains_key(#[trigger] indices[i]),
    ensures
        layer_potential(indices, b) <= layer_potential(indices, a),
        (exists|j: int|
            0 <= j < indices.len() && block_potential(b[#[trigger] indices[j]]) < block_potential(
                a[indices[j]],
            )) ==> layer_potential(indices, b) < layer_potential(indices, a),
    decreases indices.len(),
{
    if indices.len() > 0 {
        let rest = indices.drop_last();
        assert forall|i: int| 0 <= i < rest.len() implies a.contains_key(#[trigger] rest[i]) by {
            assert(rest[i] == indices[i]);
        }
        lemma_layer_potential_settles(rest, a, b);
        let last = indices[indices.len() - 1];
        assert(a.contains_key(last));
        lemma_block_potential_settles(a[last], b[last]);
        if exists|j: int|
            0 <= j < indices.len() && block_potential(b[#[trigger] indices[j]]) < block_potential(
                a[indices[j]],
            ) {
            let j = choose|j: int|
                0 <= j < indices.len() && block_potential(b[#[trigger] indices[j]])
                    < block_potential(a[indices[j]]);
            if j < indices.len() - 1 {
                assert(rest[j] == indices[j]);
            }
        }
    }
}

/// Every allocated block holds one voxel for each place.
pub open spec fn blocks_full<const VPS: usize>(layer: Map<BlockIndex<VPS>, Seq<Esdf>>) -> bool {
    forall|b: BlockIndex<VPS>| #[trigger] layer.contains_key(b) ==> layer[b].len() == VPS * VPS * VPS
}

/// The sequence names every allocated block, and allocated blocks only.
pub open spec fn names_blocks<const VPS: usize>(
    indices: Seq<BlockIndex<VPS>>,
    layer: Map<BlockIndex<VPS>, Seq<Esdf>>,
) -> bool {
    forall|b: BlockIndex<VPS>| layer.contains_key(b) <==> indices.contains(b)
}

/// Every block of the sequence is allocated.
pub open spec fn all_allocated<const VPS: usize>(
    blocks: Seq<BlockIndex<VPS>>,
    layer: Map<BlockIndex<VPS>, Seq<Esdf>>,
) -> bool {
    forall|b: BlockIndex<VPS>| #[trigger] blocks.contains(b) ==> layer.contains_key(b)
}

/// A layer in which one block has settled has no more potential than
/// before, and less if the block has less.
pub proof fn lemma_layer_potential_insert<const VPS: usize>(
    indices: Seq<BlockIndex<VPS>>,
    layer: Map<BlockIndex<VPS>, Seq<Esdf>>,
    k: BlockIndex<VPS>,
    block: Seq<Esdf>,
)
    requires
        names_blocks(indices, layer),
        layer.contains_key(k),
        block_settles(layer[k], block),
    ensures
        layer_settles(layer, layer.insert(k, block)),
        layer_potential(indices, layer.insert(k, block)) <= layer_potential(indices, layer),
        block_potential(block) < block_potential(layer[k]) ==> layer_potential(
            indices,
            layer.insert(k, block),
        ) < layer_potential(indices, layer),
{
    let after = layer.insert(k, block);
    assert forall|i: int| 0 <= i < indices.len() implies layer.contains_key(#[trigger] indices[i]) by {
        assert(indices.contains(indices[i]));
    }
    lemma_layer_potential_settles(indices, layer, after);
    if block_potential(block) < block_potential(layer[k]) {
        assert(indices.contains(k));
        let j = choose|j: int| 0 <= j < indices.len() && indices[j] == k;
        assert(block_potential(after[indices[j]]) < block_potential(layer[indices[j]]));
    }
}

/// What one sweep of one block does to the layer.
pub proof fn lemma_sweep_step<const VPS: usize>(
    indices: Seq<BlockIndex<VPS>>,
    layer: Map<BlockIndex<VPS>, Seq<Esdf>>,
    index: BlockIndex<VPS>,
    dir: OpDir,
    voxel_size: Real,
)
    requires
        0 < VPS,
        blocks_full(layer),
        names_blocks(indices, layer),
        layer.contains_key(index),
    ensures
        blocks_full(spec_sweep(layer, index, dir, voxel_size)),
        names_blocks(indices, spec_sweep(layer, index, dir, voxel_size)),
        layer_settles(layer, spec_sweep(layer, index, dir, voxel_size)),
        layer_potential(indices, spec_sweep(layer, index, dir, voxel_size)) <= layer_potential(
            indices,
            layer,
        ),
{
    lemma_swept_block_settles::<VPS>(layer[index], dir, voxel_size);
    lemma_layer_potential_insert(indices, layer, index, swept_block::<VPS>(layer[index], dir, voxel_size));
}

/// What the four sweeps of one block do to the layer.
pub proof fn lemma_sweep_xy_step<const VPS: usize>(
    indices: Seq<BlockIndex<VPS>>,
    layer: Map<BlockIndex<VPS>, Seq<Esdf>>,
    index: BlockIndex<VPS>,
    voxel_size: Real,
)
    requires
        0 < VPS,
        blocks_full(layer),
        names_blocks(indices, layer),
        layer.contains_key(index),
    ensures
        blocks_full(spec_sweep_xy(layer, index, voxel_size)),
        names_blocks(indices, spec_sweep_xy(layer, index, voxel_size)),
        layer_settles(layer, spec_sweep_xy(layer, index, voxel_size)),
        layer_potential(indices, spec_sweep_xy(layer, index, voxel_size)) <= layer_potential(
            indices,
            layer,
        ),
{
    let a = spec_sweep(layer, index, OpDir::XPlus, voxel_size);
    let b = spec_sweep(a, index, OpDir::XMinus, voxel_size);
    let c = spec_sweep(b, index, OpDir::YPlus, voxel_size);
    let d = spec_sweep(c, index, OpDir::YMinus, voxel_size);
    lemma_sweep_step(indices, layer, index, OpDir::XPlus, voxel_size);
    lemma_sweep_step(indices, a, index, OpDir::XMinus, voxel_size);
    lemma_sweep_step(indices, b, index, OpDir::YPlus, voxel_size);
    lemma_sweep_step(indices, c, index, OpDir::YMinus, voxel_size);
    lemma_layer_settles_trans(layer, a, b);
    lemma_layer_settles_trans(layer, b, c);
    lemma_layer_settles_trans(layer, c, d);
}

/// What the sweeps of a list of blocks do to the layer.
pub proof fn lemma_sweep_all<const VPS: usize>(
    indices: Seq<BlockIndex<VPS>>,
    layer: Map<BlockIndex<VPS>, Seq<Esdf>>,
    blocks: Seq<BlockIndex<VPS>>,
    voxel_size: Real,
)
    requires
        0 < VPS,
        blocks_full(layer),
        names_blocks(indices, layer),
        all_allocated(blocks, layer),
    ensures
        blocks_full(spec_sweep_all(layer, blocks, voxel_size)),
        names_blocks(indices, spec_sweep_all(layer, blocks, voxel_size)),
        layer_settles(layer, spec_sweep_all(layer, blocks, voxel_size)),
        layer_potential(indices, spec_sweep_all(layer, blocks, voxel_size)) <= layer_potential(
            indices,
            layer,
        ),
    decreases blocks.len(),
{
    if blocks.len() > 0 {
        let rest = blocks.drop_last();
        assert forall|b: BlockIndex<VPS>| #[trigger] rest.contains(b) implies layer.contains_key(b) by {
            let k = choose|k: int| 0 <= k < rest.len() && rest[k] == b;
            assert(blocks[k] == b);
            assert(blocks.contains(b));
        }
        lemma_sweep_all(indices, layer, rest, voxel_size);
        let mid = spec_sweep_all(layer, rest, voxel_size);
        assert(blocks.contains(blocks.last()));
        assert(layer.contains_key(blocks.last()));
        lemma_sweep_xy_step(indices, mid, blocks.last(), voxel_size);
        lemma_layer_settles_trans(layer, mid, spec_sweep_xy(mid, blocks.last(), voxel_size));
    }
}

/// What holds of the dirty blocks and of the potential while distances
/// cross faces, measured against the layer at the start: the dirty blocks
/// are sorted and allocated, the layer has settled, and it has lost
/// potential as soon as a block is dirty.
pub open spec fn crossing_state<const VPS: usize>(
    indices: Seq<BlockIndex<VPS>>,
    start: Map<BlockIndex<VPS>, Seq<Esdf>>,
    state: (Map<BlockIndex<VPS>, Seq<Esdf>>, Seq<BlockIndex<VPS>>),
) -> bool {
    &&& blocks_full(state.0)
    &&& names_blocks(indices, state.0)
    &&& layer_settles(start, state.0)
    &&& is_sorted(state.1)
    &&& all_allocated(state.1, state.0)
    &&& layer_potential(indices, state.0) <= layer_potential(indices, start)
    &&& state.1.len() > 0 ==> layer_potential(indices, state.0) < layer_potential(indices, start)
}

/// What one crossing of one face does.
pub proof fn lemma_propagate_dir_step<const VPS: usize>(
    indices: Seq<BlockIndex<VPS>>,
    start: Map<BlockIndex<VPS>, Seq<Esdf>>,
    state: (Map<BlockIndex<VPS>, Seq<Esdf>>, Seq<BlockIndex<VPS>>),
    pivot: BlockIndex<VPS>,
    dir: OpDir,
    voxel_size: Real,
)
    requires
        0 < VPS,
        crossing_state(indices, start, state),
    ensures
        crossing_state(indices, start, spec_propagate_dir(state, pivot, dir, voxel_size)),
{
    let layer = state.0;
    let after = spec_propagate_dir(state, pivot, dir, voxel_size);
    let n = neighbour_block(pivot, dir);
    if layer.contains_key(n) {
        let face = spec_face::<VPS>(layer[pivot], dir);
        let block = propagated_block::<VPS>(face, layer[n], dir, voxel_size);
        lemma_propagated_block_settles::<VPS>(face, layer[n], dir, voxel_size);
        lemma_layer_potential_insert(indices, layer, n, block);
        lemma_layer_settles_trans(start, layer, after.0);
        if propagation_changes::<VPS>(face, layer[n], dir, voxel_size) {
            lemma_propagation_shrinks::<VPS>(face, layer[n], dir, voxel_size);
            lemma_sorted_insert(state.1, n);
            assert(after.1.contains(n));
        }
    }
    if spec_propagate_dirty(layer, pivot, dir, voxel_size) is Some {
        lemma_sorted_insert(state.1, n);
    }
    assert forall|b: BlockIndex<VPS>| #[trigger] after.1.contains(b) implies after.0.contains_key(b) by {
        if !state.1.contains(b) {
            assert(b == n);
        } else {
            assert(layer.contains_key(b));
        }
    }
}

/// What the crossings of the four faces of one block do.
pub proof fn lemma_propagate_xy_step<const VPS: usize>(
    indices: Seq<BlockIndex<VPS>>,
    start: Map<BlockIndex<VPS>, Seq<Esdf>>,
    state: (Map<BlockIndex<VPS>, Seq<Esdf>>, Seq<BlockIndex<VPS>>),
    pivot: BlockIndex<VPS>,
    voxel_size: Real,
)
    requires
        0 < VPS,
        crossing_state(indices, start, state),
    ensures
        crossing_state(indices, start, spec_propagate_xy(state, pivot, voxel_size)),
{
    let a = spec_propagate_dir(state, pivot, OpDir::XPlus, voxel_size);
    let b = spec_propagate_dir(a, pivot, OpDir::XMinus, voxel_size);
    let c = spec_propagate_dir(b, pivot, OpDir::YPlus, voxel_size);
    lemma_propagate_dir_step(indices, start, state, pivot, OpDir::XPlus, voxel_size);
    lemma_propagate_dir_step(indices, start, a, pivot, OpDir::XMinus, voxel_size);
    lemma_propagate_dir_step(indices, start, b, pivot, OpDir::YPlus, voxel_size);
    lemma_propagate_dir_step(indices, start, c, pivot, OpDir::YMinus, voxel_size);
}

/// What the crossings of the faces of a list of blocks do.
pub proof fn lemma_propagate_all<const VPS: usize>(
    indices: Seq<BlockIndex<VPS>>,
    start: Map<BlockIndex<VPS>, Seq<Esdf>>,
    state: (Map<BlockIndex<VPS>, Seq<Esdf>>, Seq<BlockIndex<VPS>>),
    blocks: Seq<BlockIndex<VPS>>,
    voxel_size: Real,
)
    requires
        0 < VPS,
        crossing_state(indices, start, state),
    ensures
        crossing_state(indices, start, spec_propagate_all(state, blocks, voxel_size)),
    decreases blocks.len(),
{
    if blocks.len() > 0 {
        lemma_propagate_all(indices, start, state, blocks.drop_last(), voxel_size);
        lemma_propagate_xy_step(
            indices,
            start,
            spec_propagate_all(state, blocks.drop_last(), voxel_size),
            blocks.last(),
            voxel_size,
        );
    }
}

/// Within one update, a pass lets every distance settle: once a voxel is
/// fixed it stays fixed and its distance does not grow from one pass to the
/// next, and sites are not touched. The potential of the layer does not
/// grow, and it shrinks whenever a block is dirty after the pass.
pub proof fn lemma_pass_settles<const VPS: usize>(
    indices: Seq<BlockIndex<VPS>>,
    state: (Map<BlockIndex<VPS>, Seq<Esdf>>, Seq<BlockIndex<VPS>>),
    voxel_size: Real,
)
    requires
        0 < VPS,
        blocks_full(state.0),
        names_blocks(indices, state.0),
        all_allocated(state.1, state.0),
    ensures
        crossing_state(indices, state.0, spec_pass(state, voxel_size)),
{
    let swept = spec_sweep_all(state.0, state.1, voxel_size);
    lemma_sweep_all(indices, state.0, state.1, voxel_size);
    let empty = Seq::<BlockIndex<VPS>>::empty();
    assert(crossing_state(indices, state.0, (swept, empty)));
    lemma_propagate_all(indices, state.0, (swept, empty), state.1, voxel_size);
}

/// Within one update, distances settle over any number of passes: a voxel
/// that is fixed after `m` passes is fixed after `n >= m` passes, with a
/// distance that is no larger.
pub proof fn lemma_passes_settle<const VPS: usize>(
    indices: Seq<BlockIndex<VPS>>,
    state: (Map<BlockIndex<VPS>, Seq<Esdf>>, Seq<BlockIndex<VPS>>),
    voxel_size: Real,
    m: nat,
    n: nat,
)
    requires
        0 < VPS,
        blocks_full(state.0),
        names_blocks(indices, state.0),
        all_allocated(state.1, state.0),
        m <= n,
    ensures
        blocks_full(spec_passes(state, voxel_size, n).0),
        names_blocks(indices, spec_passes(state, voxel_size, n).0),
        all_allocated(spec_passes(state, voxel_size, n).1, spec_passes(state, voxel_size, n).0),
        is_sorted(state.1) || n > 0 ==> is_sorted(spec_passes(state, voxel_size, n).1),
        layer_settles(spec_passes(state, voxel_size, m).0, spec_passes(state, voxel_size, n).0),
    decreases n,
{
    if n == 0 {
        lemma_layer_settles_refl(state.0);
    } else {
        let before = spec_passes(state, voxel_size, (n - 1) as nat);
        if m == n {
            lemma_passes_settle(indices, state, voxel_size, (n - 1) as nat, (n - 1) as nat);
            lemma_pass_settles(indices, before, voxel_size);
            lemma_layer_settles_refl(spec_passes(state, voxel_size, n).0);
        } else {
            lemma_passes_settle(indices, state, voxel_size, m, (n - 1) as nat);
            lemma_pass_settles(indices, before, voxel_size);
            lemma_layer_settles_trans(
                spec_passes(state, voxel_size, m).0,
                before.0,
                spec_passes(state, voxel_size, n).0,
            );
        }
    }
}

} // verus!
