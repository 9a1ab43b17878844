//! What holds of the distance field when the passes have come to rest: in
//! the blocks of the last pass no distance can be improved along y inside
//! the block, nor along x or y across a face into the block next to it.

use vstd::prelude::*;
use crate::block_set::{is_sorted, lemma_sorted_insert, lemma_sorted_no_duplicates};
use crate::index::BlockIndex;
use crate::passes::{
    comes_to_rest_after,
    spec_pass,
    spec_passes,
    spec_propagate,
    spec_propagate_all,
    spec_propagate_dir,
    spec_propagate_dirty,
    spec_propagate_xy,
    spec_sweep_all,
};
use crate::propagate::{
    changes_before,
    lemma_face_place,
    line_changes,
    neighbour_block,
    neighbour_side,
    pivot_side,
    propagated_block,
    propagation_changes,
    spec_face,
};
use crate::relax::{
    axis_coords,
    axis_lin,
    lemma_axis_of_linear,
    lemma_axis_round_trip,
    spec_relax,
    spec_step,
    OpDir,
};
use crate::index::VoxelIndex;
use crate::settle::{
    all_allocated,
    blocks_full,
    lemma_passes_settle,
    lemma_relax_settles,
    lemma_sweep_relaxes_lines,
    names_blocks,
};
use crate::sweep::{swept_block, swept_voxel};
use crate::voxel::{Esdf, Real};

verus! {

/// The voxel `c` cannot be improved from the voxel `p` before it: where
/// `p` is fixed and `c` is no site, `c` is fixed and its distance is at
/// most the distance of `p` plus one voxel.
pub open spec fn is_relaxed(p: Esdf, c: Esdf, voxel_size: Real) -> bool {
    p.is_fixed() && !c.is_observed() ==> c.is_fixed() && c.distance <= spec_step(p.distance, voxel_size)
}

/// The place that lies before the place `w` on a line in a direction.
pub open spec fn place_before(dir: OpDir, w: int) -> int {
    if dir.is_forward() {
        w - 1
    } else {
        w + 1
    }
}

/// The voxel at the place `w` of the line `(u, v)` cannot be improved from
/// the voxel before it on the line.
pub open spec fn line_place_relaxed<const VPS: usize>(
    voxels: Seq<Esdf>,
    dir: OpDir,
    voxel_size: Real,
    u: int,
    v: int,
    w: int,
) -> bool {
    is_relaxed(
        voxels[axis_lin::<VPS>(dir, u, v, place_before(dir, w))],
        voxels[axis_lin::<VPS>(dir, u, v, w)],
        voxel_size,
    )
}

/// No voxel of the block can be improved from the voxel before it on its
/// line in the direction.
pub open spec fn lines_relaxed<const VPS: usize>(voxels: Seq<Esdf>, dir: OpDir, voxel_size: Real) -> bool {
    forall|u: int, v: int, w: int|
        0 <= u < VPS && 0 <= v < VPS && 0 <= w < VPS && 0 <= place_before(dir, w) < VPS
            ==> #[trigger] line_place_relaxed::<VPS>(voxels, dir, voxel_size, u, v, w)
}

/// The voxel of the neighbour block at the face, on the line `(u, v)`,
/// cannot be improved from the voxel of the pivot block that faces it.
pub open spec fn face_place_relaxed<const VPS: usize>(
    pivot: Seq<Esdf>,
    neighbour: Seq<Esdf>,
    dir: OpDir,
    voxel_size: Real,
    u: int,
    v: int,
) -> bool {
    is_relaxed(
        pivot[axis_lin::<VPS>(dir, u, v, pivot_side::<VPS>(dir))],
        neighbour[axis_lin::<VPS>(dir, u, v, neighbour_side::<VPS>(dir))],
        voxel_size,
    )
}

/// No voxel of the neighbour block at the face can be improved from the
/// voxel of the pivot block that faces it.
pub open spec fn face_relaxed<const VPS: usize>(
    pivot: Seq<Esdf>,
    neighbour: Seq<Esdf>,
    dir: OpDir,
    voxel_size: Real,
) -> bool {
    forall|u: int, v: int|
        0 <= u < VPS && 0 <= v < VPS ==> #[trigger] face_place_relaxed::<VPS>(
            pivot,
            neighbour,
            dir,
            voxel_size,
            u,
            v,
        )
}

/// The direction against a direction.
pub open spec fn opposite(dir: OpDir) -> OpDir {
    match dir {
        OpDir::XPlus => OpDir::XMinus,
        OpDir::XMinus => OpDir::XPlus,
        OpDir::YPlus => OpDir::YMinus,
        OpDir::YMinus => OpDir::YPlus,
        OpDir::ZPlus => OpDir::ZMinus,
        OpDir::ZMinus => OpDir::ZPlus,
    }
}

/// After a sweep in a direction no voxel of the block can be improved from
/// the voxel before it on its line in that direction.
pub proof fn lemma_sweep_leaves_lines_relaxed<const VPS: usize>(
    voxels: Seq<Esdf>,
    dir: OpDir,
    voxel_size: Real,
)
    requires
        voxels.len() == VPS * VPS * VPS,
    ensures
        lines_relaxed::<VPS>(swept_block::<VPS>(voxels, dir, voxel_size), dir, voxel_size),
{
    let after = swept_block::<VPS>(voxels, dir, voxel_size);
    assert forall|u: int, v: int, w: int|
        0 <= u < VPS && 0 <= v < VPS && 0 <= w < VPS && 0 <= place_before(dir, w)
            < VPS implies #[trigger] line_place_relaxed::<VPS>(after, dir, voxel_size, u, v, w) by {
        lemma_sweep_relaxes_lines::<VPS>(voxels, dir, voxel_size, u, v, w);
    }
}

/// A sweep against a direction keeps the lines relaxed in that direction,
/// if the voxel size is not negative.
pub proof fn lemma_sweep_back_keeps_lines_relaxed<const VPS: usize>(
    voxels: Seq<Esdf>,
    dir: OpDir,
    voxel_size: Real,
)
    requires
        voxels.len() == VPS * VPS * VPS,
        voxel_size >= 0,
        lines_relaxed::<VPS>(voxels, dir, voxel_size),
    ensures
        lines_relaxed::<VPS>(swept_block::<VPS>(voxels, opposite(dir), voxel_size), dir, voxel_size),
{
    let back = opposite(dir);
    let after = swept_block::<VPS>(voxels, back, voxel_size);
    assert forall|u: int, v: int, w: int|
        0 <= u < VPS && 0 <= v < VPS && 0 <= w < VPS && 0 <= place_before(dir, w)
            < VPS implies #[trigger] line_place_relaxed::<VPS>(after, dir, voxel_size, u, v, w) by {
        let wp = place_before(dir, w);
        // the same line, seen in the direction back
        assert(axis_lin::<VPS>(back, u, v, w) == axis_lin::<VPS>(dir, u, v, w));
        assert(axis_lin::<VPS>(back, u, v, wp) == axis_lin::<VPS>(dir, u, v, wp));
        lemma_axis_round_trip::<VPS>(back, u, v, w);
        lemma_axis_round_trip::<VPS>(back, u, v, wp);
        let a_c = voxels[axis_lin::<VPS>(dir, u, v, w)];
        let a_p = voxels[axis_lin::<VPS>(dir, u, v, wp)];
        let b_c = swept_voxel::<VPS>(voxels, back, voxel_size, u, v, w);
        let b_p = swept_voxel::<VPS>(voxels, back, voxel_size, u, v, wp);
        assert(after[axis_lin::<VPS>(dir, u, v, w)] == b_c);
        assert(after[axis_lin::<VPS>(dir, u, v, wp)] == b_p);
        assert(line_place_relaxed::<VPS>(voxels, dir, voxel_size, u, v, w));
        // in the sweep back, the voxel at `w` lies before the voxel at `wp`
        assert(b_p == spec_relax(b_c, a_p, voxel_size));
        lemma_relax_settles(b_c, a_p, voxel_size);
        if back.is_forward() {
            if w > 0 {
                lemma_relax_settles(
                    swept_voxel::<VPS>(voxels, back, voxel_size, u, v, w - 1),
                    a_c,
                    voxel_size,
                );
            }
        } else {
            if w < VPS - 1 {
                lemma_relax_settles(
                    swept_voxel::<VPS>(voxels, back, voxel_size, u, v, w + 1),
                    a_c,
                    voxel_size,
                );
            }
        }
    }
}

/// A propagation that writes nothing leaves the neighbour block as it is,
/// and no voxel at its face can be improved from the pivot block.
pub proof fn lemma_quiet_propagation<const VPS: usize>(
    pivot: Seq<Esdf>,
    voxels: Seq<Esdf>,
    dir: OpDir,
    voxel_size: Real,
)
    requires
        0 < VPS,
        pivot.len() == VPS * VPS * VPS,
        voxels.len() == VPS * VPS * VPS,
        !propagation_changes::<VPS>(spec_face::<VPS>(pivot, dir), voxels, dir, voxel_size),
    ensures
        propagated_block::<VPS>(spec_face::<VPS>(pivot, dir), voxels, dir, voxel_size) == voxels,
        face_relaxed::<VPS>(pivot, voxels, dir, voxel_size),
{
    let face = spec_face::<VPS>(pivot, dir);
    let after = propagated_block::<VPS>(face, voxels, dir, voxel_size);
    assert forall|u: int, v: int| 0 <= u < VPS && 0 <= v < VPS implies !line_changes::<VPS>(
        face,
        voxels,
        dir,
        voxel_size,
        u,
        v,
    ) by {
        if line_changes::<VPS>(face, voxels, dir, voxel_size, u, v) {
            assert(changes_before::<VPS>(face, voxels, dir, voxel_size, VPS as int, 0));
        }
    }
    assert forall|i: int| 0 <= i < voxels.len() implies after[i] == voxels[i] by {
        lemma_axis_of_linear::<VPS>(dir, i);
        let (u, v, w) = axis_coords(dir, VoxelIndex::<VPS>::spec_from_linear(i));
        if w == neighbour_side::<VPS>(dir) {
            assert(!line_changes::<VPS>(face, voxels, dir, voxel_size, u, v));
            lemma_relax_settles(face[u * VPS + v], voxels[i], voxel_size);
        }
    }
    assert(after =~= voxels);
    assert forall|u: int, v: int| 0 <= u < VPS && 0 <= v < VPS implies #[trigger] face_place_relaxed::<
        VPS,
    >(pivot, voxels, dir, voxel_size, u, v) by {
        lemma_face_place(u, v, VPS as int);
        assert(face[u * VPS + v] == pivot[axis_lin::<VPS>(dir, u, v, pivot_side::<VPS>(dir))]);
        assert(!line_changes::<VPS>(face, voxels, dir, voxel_size, u, v));
    }
}

/// While distances cross faces the list of dirty blocks does not get
/// shorter. If a crossing leaves no block dirty, none was dirty before, the
/// layer is as it was, and no voxel at the face can be improved from the
/// pivot block.
pub proof fn lemma_quiet_crossing<const VPS: usize>(
    state: (Map<BlockIndex<VPS>, Seq<Esdf>>, Seq<BlockIndex<VPS>>),
    pivot: BlockIndex<VPS>,
    dir: OpDir,
    voxel_size: Real,
)
    requires
        0 < VPS,
        blocks_full(state.0),
        state.0.contains_key(pivot),
        is_sorted(state.1),
        spec_propagate_dir(state, pivot, dir, voxel_size).1.len() == 0,
    ensures
        state.1.len() == 0,
        spec_propagate_dir(state, pivot, dir, voxel_size).0 == state.0,
        state.0.contains_key(neighbour_block(pivot, dir)) ==> face_relaxed::<VPS>(
            state.0[pivot],
            state.0[neighbour_block(pivot, dir)],
            dir,
            voxel_size,
        ),
{
    let n = neighbour_block(pivot, dir);
    if spec_propagate_dirty(state.0, pivot, dir, voxel_size) is Some {
        lemma_sorted_insert(state.1, n);
        let s = crate::block_set::sorted_insert(state.1, n);
        assert(s.contains(n));
    }
    if state.0.contains_key(n) {
        lemma_quiet_propagation::<VPS>(state.0[pivot], state.0[n], dir, voxel_size);
        assert(spec_propagate(state.0, pivot, dir, voxel_size) =~= state.0);
    }
}

/// The faces along x and y of a block into allocated blocks next to it are
/// relaxed.
pub open spec fn faces_relaxed_xy<const VPS: usize>(
    layer: Map<BlockIndex<VPS>, Seq<Esdf>>,
    b: BlockIndex<VPS>,
    voxel_size: Real,
) -> bool {
    &&& layer.contains_key(neighbour_block(b, OpDir::XPlus)) ==> face_relaxed::<VPS>(
        layer[b],
        layer[neighbour_block(b, OpDir::XPlus)],
        OpDir::XPlus,
        voxel_size,
    )
    &&& layer.contains_key(neighbour_block(b, OpDir::XMinus)) ==> face_relaxed::<VPS>(
        layer[b],
        layer[neighbour_block(b, OpDir::XMinus)],
        OpDir::XMinus,
        voxel_size,
    )
    &&& layer.contains_key(neighbour_block(b, OpDir::YPlus)) ==> face_relaxed::<VPS>(
        layer[b],
        layer[neighbour_block(b, OpDir::YPlus)],
        OpDir::YPlus,
        voxel_size,
    )
    &&& layer.contains_key(neighbour_block(b, OpDir::YMinus)) ==> face_relaxed::<VPS>(
        layer[b],
        layer[neighbour_block(b, OpDir::YMinus)],
        OpDir::YMinus,
        voxel_size,
    )
}

/// If the crossings of the four faces of a block leave no block dirty,
/// none was dirty before, the layer is as it was, and its faces are
/// relaxed.
pub proof fn lemma_quiet_crossing_xy<const VPS: usize>(
    state: (Map<BlockIndex<VPS>, Seq<Esdf>>, Seq<BlockIndex<VPS>>),
    pivot: BlockIndex<VPS>,
    voxel_size: Real,
)
    requires
        0 < VPS,
        blocks_full(state.0),
        state.0.contains_key(pivot),
        is_sorted(state.1),
        spec_propagate_xy(state, pivot, voxel_size).1.len() == 0,
    ensures
        state.1.len() == 0,
        spec_propagate_xy(state, pivot, voxel_size).0 == state.0,
        faces_relaxed_xy(state.0, pivot, voxel_size),
{
    let a = spec_propagate_dir(state, pivot, OpDir::XPlus, voxel_size);
    let b = spec_propagate_dir(a, pivot, OpDir::XMinus, voxel_size);
    let c = spec_propagate_dir(b, pivot, OpDir::YPlus, voxel_size);
    lemma_dirty_stays_sorted(state, pivot, OpDir::XPlus, voxel_size);
    lemma_dirty_stays_sorted(a, pivot, OpDir::XMinus, voxel_size);
    lemma_dirty_stays_sorted(b, pivot, OpDir::YPlus, voxel_size);
    lemma_quiet_crossing(c, pivot, OpDir::YMinus, voxel_size);
    lemma_quiet_crossing(b, pivot, OpDir::YPlus, voxel_size);
    lemma_quiet_crossing(a, pivot, OpDir::XMinus, voxel_size);
    lemma_quiet_crossing(state, pivot, OpDir::XPlus, voxel_size);
}

/// A crossing keeps the blocks full, the pivot allocated and the dirty
/// blocks sorted.
pub proof fn lemma_dirty_stays_sorted<const VPS: usize>(
    state: (Map<BlockIndex<VPS>, Seq<Esdf>>, Seq<BlockIndex<VPS>>),
    pivot: BlockIndex<VPS>,
    dir: OpDir,
    voxel_size: Real,
)
    requires
        blocks_full(state.0),
        is_sorted(state.1),
    ensures
        blocks_full(spec_propagate_dir(state, pivot, dir, voxel_size).0),
        is_sorted(spec_propagate_dir(state, pivot, dir, voxel_size).1),
        forall|b: BlockIndex<VPS>|
            state.0.contains_key(b) <==> spec_propagate_dir(state, pivot, dir, voxel_size).0.contains_key(
                b,
            ),
{
    let n = neighbour_block(pivot, dir);
    lemma_sorted_insert(state.1, n);
}

/// If the crossings of the faces of a list of allocated blocks leave no
/// block dirty, none was dirty before, the layer is as it was, and the
/// faces of each block of the list are relaxed.
pub proof fn lemma_quiet_crossings<const VPS: usize>(
    state: (Map<BlockIndex<VPS>, Seq<Esdf>>, Seq<BlockIndex<VPS>>),
    blocks: Seq<BlockIndex<VPS>>,
    voxel_size: Real,
)
    requires
        0 < VPS,
        blocks_full(state.0),
        all_allocated(blocks, state.0),
        is_sorted(state.1),
        spec_propagate_all(state, blocks, voxel_size).1.len() == 0,
    ensures
        state.1.len() == 0,
        spec_propagate_all(state, blocks, voxel_size).0 == state.0,
        forall|b: BlockIndex<VPS>| #[trigger] blocks.contains(b) ==> faces_relaxed_xy(state.0, b, voxel_size),
    decreases blocks.len(),
{
    if blocks.len() > 0 {
        let rest = blocks.drop_last();
        let last = blocks.last();
        let mid = spec_propagate_all(state, rest, voxel_size);
        assert forall|b: BlockIndex<VPS>| #[trigger] rest.contains(b) implies state.0.contains_key(b) by {
            let k = choose|k: int| 0 <= k < rest.len() && rest[k] == b;
            assert(blocks[k] == b);
            assert(blocks.contains(b));
        }
        lemma_crossings_keep_shape(state, rest, voxel_size);
        assert(blocks.contains(last));
        lemma_quiet_crossing_xy(mid, last, voxel_size);
        lemma_quiet_crossings(state, rest, voxel_size);
        assert forall|b: BlockIndex<VPS>| #[trigger] blocks.contains(b) implies faces_relaxed_xy(
            state.0,
            b,
            voxel_size,
        ) by {
            if b != last {
                let k = choose|k: int| 0 <= k < blocks.len() && blocks[k] == b;
                assert(rest[k] == b);
                assert(rest.contains(b));
            }
        }
    }
}

/// Crossings keep the blocks full and allocated and the dirty blocks
/// sorted.
pub proof fn lemma_crossings_keep_shape<const VPS: usize>(
    state: (Map<BlockIndex<VPS>, Seq<Esdf>>, Seq<BlockIndex<VPS>>),
    blocks: Seq<BlockIndex<VPS>>,
    voxel_size: Real,
)
    requires
        blocks_full(state.0),
        is_sorted(state.1),
    ensures
        blocks_full(spec_propagate_all(state, blocks, voxel_size).0),
        is_sorted(spec_propagate_all(state, blocks, voxel_size).1),
        forall|b: BlockIndex<VPS>|
            state.0.contains_key(b) <==> spec_propagate_all(state, blocks, voxel_size).0.contains_key(b),
    decreases blocks.len(),
{
    if blocks.len() > 0 {
        let mid = spec_propagate_all(state, blocks.drop_last(), voxel_size);
        let last = blocks.last();
        lemma_crossings_keep_shape(state, blocks.drop_last(), voxel_size);
        let a = spec_propagate_dir(mid, last, OpDir::XPlus, voxel_size);
        let b = spec_propagate_dir(a, last, OpDir::XMinus, voxel_size);
        let c = spec_propagate_dir(b, last, OpDir::YPlus, voxel_size);
        lemma_dirty_stays_sorted(mid, last, OpDir::XPlus, voxel_size);
        lemma_dirty_stays_sorted(a, last, OpDir::XMinus, voxel_size);
        lemma_dirty_stays_sorted(b, last, OpDir::YPlus, voxel_size);
        lemma_dirty_stays_sorted(c, last, OpDir::YMinus, voxel_size);
    }
}

/// The voxels of a block after the four sweeps along x and y.
pub open spec fn swept_xy<const VPS: usize>(voxels: Seq<Esdf>, voxel_size: Real) -> Seq<Esdf> {
    swept_block::<VPS>(
        swept_block::<VPS>(
            swept_block::<VPS>(
                swept_block::<VPS>(voxels, OpDir::XPlus, voxel_size),
                OpDir::XMinus,
                voxel_size,
            ),
            OpDir::YPlus,
            voxel_size,
        ),
        OpDir::YMinus,
        voxel_size,
    )
}

/// The sweeps of a list of blocks in which no block stands twice sweep each
/// block of the list once and leave every other block as it is.
pub proof fn lemma_sweep_all_blocks<const VPS: usize>(
    layer: Map<BlockIndex<VPS>, Seq<Esdf>>,
    blocks: Seq<BlockIndex<VPS>>,
    voxel_size: Real,
    b: BlockIndex<VPS>,
)
    requires
        blocks.no_duplicates(),
        layer.contains_key(b),
    ensures
        spec_sweep_all(layer, blocks, voxel_size).contains_key(b),
        spec_sweep_all(layer, blocks, voxel_size)[b] == (if blocks.contains(b) {
            swept_xy::<VPS>(layer[b], voxel_size)
        } else {
            layer[b]
        }),
    decreases blocks.len(),
{
    if blocks.len() > 0 {
        let rest = blocks.drop_last();
        let last = blocks.last();
        lemma_sweep_all_blocks(layer, rest, voxel_size, b);
        assert(blocks.contains(last));
        if b == last {
            assert(!rest.contains(b)) by {
                if rest.contains(b) {
                    let k = choose|k: int| 0 <= k < rest.len() && rest[k] == b;
                    assert(blocks[k] == blocks[blocks.len() - 1]);
                }
            }
        } else {
            if blocks.contains(b) {
                let k = choose|k: int| 0 <= k < blocks.len() && blocks[k] == b;
                assert(rest[k] == b);
            }
            if rest.contains(b) {
                let k = choose|k: int| 0 <= k < rest.len() && rest[k] == b;
                assert(blocks[k] == b);
            }
        }
    }
}

/// When a pass leaves no block dirty, the blocks of the pass are at rest in
/// the layer that it leaves: no voxel of such a block can be improved from
/// the voxel before it along y, towards smaller y and, if the voxel size is
/// not negative, towards larger y; and no voxel at a face along x or y of
/// an allocated block next to it can be improved from the block.
pub proof fn lemma_pass_at_rest<const VPS: usize>(
    state: (Map<BlockIndex<VPS>, Seq<Esdf>>, Seq<BlockIndex<VPS>>),
    voxel_size: Real,
    b: BlockIndex<VPS>,
)
    requires
        0 < VPS,
        blocks_full(state.0),
        all_allocated(state.1, state.0),
        is_sorted(state.1),
        spec_pass(state, voxel_size).1.len() == 0,
        state.1.contains(b),
    ensures
        spec_pass(state, voxel_size).0.contains_key(b),
        lines_relaxed::<VPS>(spec_pass(state, voxel_size).0[b], OpDir::YMinus, voxel_size),
        voxel_size >= 0 ==> lines_relaxed::<VPS>(
            spec_pass(state, voxel_size).0[b],
            OpDir::YPlus,
            voxel_size,
        ),
        faces_relaxed_xy(spec_pass(state, voxel_size).0, b, voxel_size),
{
    let swept = spec_sweep_all(state.0, state.1, voxel_size);
    let empty = Seq::<BlockIndex<VPS>>::empty();
    let indices = Seq::<BlockIndex<VPS>>::empty();
    lemma_sweeps_keep_shape(state.0, state.1, voxel_size);
    lemma_quiet_crossings((swept, empty), state.1, voxel_size);
    lemma_sorted_no_duplicates(state.1);
    lemma_sweep_all_blocks(state.0, state.1, voxel_size, b);
    let v0 = state.0[b];
    let v1 = swept_block::<VPS>(v0, OpDir::XPlus, voxel_size);
    let v2 = swept_block::<VPS>(v1, OpDir::XMinus, voxel_size);
    let v3 = swept_block::<VPS>(v2, OpDir::YPlus, voxel_size);
    lemma_sweep_leaves_lines_relaxed::<VPS>(v3, OpDir::YMinus, voxel_size);
    if voxel_size >= 0 {
        lemma_sweep_leaves_lines_relaxed::<VPS>(v2, OpDir::YPlus, voxel_size);
        lemma_sweep_back_keeps_lines_relaxed::<VPS>(v3, OpDir::YPlus, voxel_size);
    }
}

/// Sweeps keep the blocks full and allocated.
pub proof fn lemma_sweeps_keep_shape<const VPS: usize>(
    layer: Map<BlockIndex<VPS>, Seq<Esdf>>,
    blocks: Seq<BlockIndex<VPS>>,
    voxel_size: Real,
)
    requires
        blocks_full(layer),
        all_allocated(blocks, layer),
    ensures
        blocks_full(spec_sweep_all(layer, blocks, voxel_size)),
        forall|b: BlockIndex<VPS>|
            layer.contains_key(b) <==> spec_sweep_all(layer, blocks, voxel_size).contains_key(b),
    decreases blocks.len(),
{
    if blocks.len() > 0 {
        let rest = blocks.drop_last();
        assert forall|b: BlockIndex<VPS>| #[trigger] rest.contains(b) implies layer.contains_key(b) by {
            let k = choose|k: int| 0 <= k < rest.len() && rest[k] == b;
            assert(blocks[k] == b);
            assert(blocks.contains(b));
        }
        lemma_sweeps_keep_shape(layer, rest, voxel_size);
        assert(blocks.contains(blocks.last()));
    }
}

/// When the passes have come to rest after at least one pass, the blocks
/// that were dirty before the last pass are at rest in the layer that the
/// passes leave.
pub proof fn lemma_passes_at_rest<const VPS: usize>(
    indices: Seq<BlockIndex<VPS>>,
    state: (Map<BlockIndex<VPS>, Seq<Esdf>>, Seq<BlockIndex<VPS>>),
    voxel_size: Real,
    n: nat,
    b: BlockIndex<VPS>,
)
    requires
        0 < VPS,
        blocks_full(state.0),
        names_blocks(indices, state.0),
        all_allocated(state.1, state.0),
        is_sorted(state.1),
        comes_to_rest_after(state, voxel_size, n),
        n >= 1,
        spec_passes(state, voxel_size, (n - 1) as nat).1.contains(b),
    ensures
        spec_passes(state, voxel_size, n).0.contains_key(b),
        lines_relaxed::<VPS>(spec_passes(state, voxel_size, n).0[b], OpDir::YMinus, voxel_size),
        voxel_size >= 0 ==> lines_relaxed::<VPS>(
            spec_passes(state, voxel_size, n).0[b],
            OpDir::YPlus,
            voxel_size,
        ),
        faces_relaxed_xy(spec_passes(state, voxel_size, n).0, b, voxel_size),
{
    let before = spec_passes(state, voxel_size, (n - 1) as nat);
    lemma_passes_settle(indices, state, voxel_size, (n - 1) as nat, (n - 1) as nat);
    lemma_pass_at_rest(before, voxel_size, b);
}

} // verus!
