//! The first steps of an update, which every integrator shares: the
//! distance field gets the blocks of the truncated field, the blocks that
//! hold a withdrawn distance are found, cleared and seeded again.

use vstd::prelude::*;
use crate::block_set::{lemma_precedes_total_order, precedes, sorted_seq, BlockSet};
use crate::index::BlockIndex;
use crate::invalidation::{
    collect_sites,
    invalidated_blocks,
    must_clear,
    referenced_sites,
    stays_valid,
    Invalidation,
};
use crate::layer::{allocated_with, lemma_push_missing_present, push_missing, Layer};
use crate::passes::{comes_to_rest_after, spec_passes};
use crate::progress::{ProgressCallback, UPDATE_REPORT_MILLIS};
use crate::seeding::{
    has_observed,
    lemma_transfer_after_reset,
    reset_blocks,
    seed_blocks,
    spec_reset,
    spec_seed,
};
use crate::settle::all_allocated;
use crate::voxel::{Esdf, Real, Tsdf};

verus! {

/// The distance field with a block of empty voxels for every block of the
/// truncated field and every updated block that it lacked.
pub open spec fn spec_mirrored<const VPS: usize>(
    tsdf: Map<BlockIndex<VPS>, Seq<Tsdf>>,
    esdf: Map<BlockIndex<VPS>, Seq<Esdf>>,
    updated: Seq<BlockIndex<VPS>>,
) -> Map<BlockIndex<VPS>, Seq<Esdf>> {
    allocated_with(esdf, tsdf.dom().union(updated.to_set()))
}

/// The sites whose distances an update withdraws: the blocks that the
/// voxels of the updated blocks name as the block of their site.
pub open spec fn spec_withdrawn_sites<const VPS: usize>(
    tsdf: Map<BlockIndex<VPS>, Seq<Tsdf>>,
    esdf: Map<BlockIndex<VPS>, Seq<Esdf>>,
    updated: Seq<BlockIndex<VPS>>,
) -> Set<BlockIndex<VPS>> {
    referenced_sites(spec_mirrored(tsdf, esdf, updated), updated)
}

/// The blocks that an update clears and seeds again: the updated blocks,
/// and the blocks with a distance to a withdrawn site that the walk over
/// face neighbours reaches from them.
pub open spec fn spec_cleared<const VPS: usize>(
    tsdf: Map<BlockIndex<VPS>, Seq<Tsdf>>,
    esdf: Map<BlockIndex<VPS>, Seq<Esdf>>,
    updated: Seq<BlockIndex<VPS>>,
) -> Set<BlockIndex<VPS>> {
    Set::new(
        |b: BlockIndex<VPS>|
            must_clear(
                spec_mirrored(tsdf, esdf, updated),
                spec_withdrawn_sites(tsdf, esdf, updated),
                updated,
                b,
            ),
    )
}

/// The blocks that are dirty when the passes of an update start: the
/// blocks that the walk reached and left as they were, and the cleared
/// blocks that were seeded with a site.
pub open spec fn spec_first_dirty<const VPS: usize>(
    tsdf: Map<BlockIndex<VPS>, Seq<Tsdf>>,
    esdf: Map<BlockIndex<VPS>, Seq<Esdf>>,
    updated: Seq<BlockIndex<VPS>>,
) -> Set<BlockIndex<VPS>> {
    Set::new(
        |b: BlockIndex<VPS>|
            stays_valid(
                spec_mirrored(tsdf, esdf, updated),
                spec_withdrawn_sites(tsdf, esdf, updated),
                updated,
                b,
            ) || (spec_cleared(tsdf, esdf, updated).contains(b) && has_observed(tsdf[b])),
    )
}

/// The distance field and the dirty blocks when the passes of an update
/// start: the cleared blocks are seeded from the truncated field, all other
/// blocks are as they were.
pub open spec fn spec_prepared<const VPS: usize>(
    tsdf: Map<BlockIndex<VPS>, Seq<Tsdf>>,
    esdf: Map<BlockIndex<VPS>, Seq<Esdf>>,
    updated: Seq<BlockIndex<VPS>>,
) -> (Map<BlockIndex<VPS>, Seq<Esdf>>, Seq<BlockIndex<VPS>>) {
    (
        spec_seed(tsdf, spec_mirrored(tsdf, esdf, updated), spec_cleared(tsdf, esdf, updated)),
        sorted_seq(spec_first_dirty(tsdf, esdf, updated)),
    )
}

/// Whether the update can seed every block that it clears: each of them is
/// allocated in the truncated field.
pub open spec fn can_update<const VPS: usize>(
    tsdf: Map<BlockIndex<VPS>, Seq<Tsdf>>,
    esdf: Map<BlockIndex<VPS>, Seq<Esdf>>,
    updated: Seq<BlockIndex<VPS>>,
) -> bool {
    forall|b: BlockIndex<VPS>| #[trigger]
        spec_cleared(tsdf, esdf, updated).contains(b) ==> tsdf.contains_key(b)
}

/// Whether `result` is the distance field that an update leaves: the field
/// after the passes have come to rest, started from the prepared field.
pub open spec fn is_update_result<const VPS: usize>(
    tsdf: Map<BlockIndex<VPS>, Seq<Tsdf>>,
    esdf: Map<BlockIndex<VPS>, Seq<Esdf>>,
    updated: Seq<BlockIndex<VPS>>,
    voxel_size: Real,
    result: Map<BlockIndex<VPS>, Seq<Esdf>>,
) -> bool {
    exists|n: nat|
        comes_to_rest_after(spec_prepared(tsdf, esdf, updated), voxel_size, n) && result == (
        #[trigger] spec_passes(spec_prepared(tsdf, esdf, updated), voxel_size, n)).0
}

/// The first steps of an update: reports the updated blocks, gives the
/// distance field a block for every block of the truncated field and every
/// updated block, and finds the blocks to clear and the blocks that stay
/// valid next to them.
pub fn plan_update<const VPS: usize, C: ProgressCallback<VPS>>(
    tsdf_layer: &Layer<Tsdf, VPS>,
    esdf_layer: &mut Layer<Esdf, VPS>,
    updated_blocks: &BlockSet<VPS>,
    callback: &mut C,
) -> (plan: Invalidation<VPS>)
    requires
        tsdf_layer.wf(),
        old(esdf_layer).wf(),
        updated_blocks.wf(),
    ensures
        final(esdf_layer).wf(),
        final(esdf_layer).spec_voxel_size() == old(esdf_layer).spec_voxel_size(),
        final(esdf_layer).spec_indices() == push_missing(
            push_missing(old(esdf_layer).spec_indices(), tsdf_layer.spec_indices()),
            updated_blocks@,
        ),
        final(esdf_layer)@ == spec_mirrored(tsdf_layer@, old(esdf_layer)@, updated_blocks@),
        plan.blocks_to_clear.wf(),
        plan.dirty.wf(),
        plan.closed.wf(),
        forall|b: BlockIndex<VPS>|
            plan.blocks_to_clear@.contains(b) <==> spec_cleared(
                tsdf_layer@,
                old(esdf_layer)@,
                updated_blocks@,
            ).contains(b),
        forall|b: BlockIndex<VPS>|
            plan.dirty@.contains(b) <==> stays_valid(
                spec_mirrored(tsdf_layer@, old(esdf_layer)@, updated_blocks@),
                spec_withdrawn_sites(tsdf_layer@, old(esdf_layer)@, updated_blocks@),
                updated_blocks@,
                b,
            ),
        forall|b: BlockIndex<VPS>|
            plan.blocks_to_clear@.contains(b) || plan.dirty@.contains(b) ==> final(esdf_layer)@.contains_key(b),
{
    let ghost tsdf = tsdf_layer@;
    let ghost before = esdf_layer@;
    let ghost updated = updated_blocks@;
    callback.report(
        "tsdf updated",
        tsdf_layer,
        esdf_layer,
        updated_blocks.as_slice(),
        UPDATE_REPORT_MILLIS,
    );
    esdf_layer.allocate_all(tsdf_layer.allocated_blocks_iter());
    esdf_layer.allocate_all(updated_blocks.as_slice());
    let ghost mirrored = esdf_layer@;
    proof {
        assert(tsdf_layer.spec_indices().to_set() =~= tsdf.dom());
        assert(mirrored =~= spec_mirrored(tsdf, before, updated));
    }
    let sites_indices_to_clear = collect_sites(esdf_layer, updated_blocks.as_slice());
    proof {
        assert(sites_indices_to_clear@.to_set() =~= spec_withdrawn_sites(tsdf, before, updated));
    }
    let plan = invalidated_blocks(esdf_layer, updated_blocks, &sites_indices_to_clear);
    proof {
        assert forall|b: BlockIndex<VPS>|
            plan.blocks_to_clear@.contains(b) || plan.dirty@.contains(b) implies mirrored.contains_key(
            b,
        ) by {
            if !updated.contains(b) {
                assert(plan.closed@.contains(b));
            }
        }
    }
    plan
}

/// Whether `b` is the first of the blocks, in walking order, that is not
/// allocated in the layer.
pub open spec fn is_first_missing<const VPS: usize>(
    tsdf: Map<BlockIndex<VPS>, Seq<Tsdf>>,
    blocks: Set<BlockIndex<VPS>>,
    b: BlockIndex<VPS>,
) -> bool {
    &&& blocks.contains(b)
    &&& !tsdf.contains_key(b)
    &&& forall|c: BlockIndex<VPS>| blocks.contains(c) && precedes(c, b) ==> tsdf.contains_key(c)
}

/// The first of the blocks, in walking order, that is not allocated in the
/// layer, if there is one.
pub fn first_missing_block<const VPS: usize>(
    tsdf_layer: &Layer<Tsdf, VPS>,
    blocks: &BlockSet<VPS>,
) -> (r: Option<BlockIndex<VPS>>)
    requires
        tsdf_layer.wf(),
        blocks.wf(),
    ensures
        r is None <==> (forall|b: BlockIndex<VPS>| blocks@.contains(b) ==> tsdf_layer@.contains_key(b)),
        r matches Some(b) ==> is_first_missing(tsdf_layer@, blocks@.to_set(), b),
{
    let list = blocks.as_slice();
    let mut i: usize = 0;
    while i < list.len()
        invariant
            tsdf_layer.wf(),
            blocks.wf(),
            list@ == blocks@,
            i <= list@.len(),
            forall|j: int| 0 <= j < i ==> tsdf_layer@.contains_key(list@[j]),
        decreases list@.len() - i,
    {
        if !tsdf_layer.contains(&list[i]) {
            proof {
                assert(list@.contains(list@[i as int]));
                lemma_precedes_total_order::<VPS>();
                assert forall|c: BlockIndex<VPS>|
                    list@.to_set().contains(c) && precedes(c, list@[i as int]) implies tsdf_layer@.contains_key(
                    c,
                ) by {
                    let j = choose|j: int| 0 <= j < list@.len() && list@[j] == c;
                    if j > i {
                        assert(precedes(list@[i as int], list@[j]));
                    }
                }
            }
            return Some(list[i]);
        }
        i += 1;
    }
    None
}

/// Clears the blocks that the plan names and seeds them again from the
/// truncated field. Returns the blocks that are dirty when the passes
/// start: the valid blocks of the plan, and the cleared blocks that got a
/// site.
pub fn rebuild<const VPS: usize, C: ProgressCallback<VPS>>(
    tsdf_layer: &Layer<Tsdf, VPS>,
    esdf_layer: &mut Layer<Esdf, VPS>,
    plan: Invalidation<VPS>,
    callback: &mut C,
) -> (dirty_blocks: BlockSet<VPS>)
    requires
        tsdf_layer.wf(),
        old(esdf_layer).wf(),
        plan.blocks_to_clear.wf(),
        plan.dirty.wf(),
        forall|b: BlockIndex<VPS>|
            plan.blocks_to_clear@.contains(b) ==> tsdf_layer@.contains_key(b) && old(esdf_layer)@.contains_key(b),
        forall|b: BlockIndex<VPS>| plan.dirty@.contains(b) ==> old(esdf_layer)@.contains_key(b),
    ensures
        final(esdf_layer).wf(),
        final(esdf_layer).spec_indices() == old(esdf_layer).spec_indices(),
        final(esdf_layer).spec_voxel_size() == old(esdf_layer).spec_voxel_size(),
        final(esdf_layer)@ == spec_seed(tsdf_layer@, old(esdf_layer)@, plan.blocks_to_clear@.to_set()),
        dirty_blocks.wf(),
        forall|b: BlockIndex<VPS>|
            dirty_blocks@.contains(b) <==> (plan.dirty@.contains(b) || (plan.blocks_to_clear@.contains(
                b,
            ) && has_observed(tsdf_layer@[b]))),
        all_allocated(dirty_blocks@, final(esdf_layer)@),
{
    let ghost start = esdf_layer@;
    let Invalidation { blocks_to_clear, dirty, closed } = plan;
    let mut dirty_blocks = dirty;
    reset_blocks(tsdf_layer, esdf_layer, &blocks_to_clear, callback);
    seed_blocks(tsdf_layer, esdf_layer, &blocks_to_clear, &mut dirty_blocks);
    proof {
        tsdf_layer.lemma_view_is_valid();
        lemma_push_missing_present(old(esdf_layer).spec_indices(), blocks_to_clear@);
        assert(allocated_with(start, blocks_to_clear@.to_set()) =~= start);
        let reset = spec_reset(start, blocks_to_clear@.to_set());
        assert(allocated_with(reset, blocks_to_clear@.to_set()) =~= reset);
        lemma_transfer_after_reset(tsdf_layer@, start, blocks_to_clear@.to_set());
    }
    dirty_blocks
}

} // verus!
