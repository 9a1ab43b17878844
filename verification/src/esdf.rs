//! The distance field integrator that runs on the host: it brings the
//! distance field up to date after the truncated field has changed.

use vstd::prelude::*;
use crate::block_set::{lemma_sorted_seq, BlockSet};
use crate::index::{neighbour_at, BlockIndex};
use crate::invalidation::{stays_valid, Invalidation};
use crate::laws::{lemma_update_guarantees, update_guarantees};
use crate::layer::{is_layer_view, lemma_push_missing_present, push_missing, Layer};
use crate::passes::{
    comes_to_rest_after,
    spec_pass,
    spec_passes,
    spec_propagate,
    spec_propagate_all,
    spec_propagate_dir,
    spec_propagate_dirty,
    spec_propagate_xy,
    spec_sweep,
    spec_sweep_all,
    spec_sweep_xy,
};
use crate::prepare::{
    can_update,
    first_missing_block,
    is_first_missing,
    is_update_result,
    plan_update,
    rebuild,
    spec_cleared,
    spec_first_dirty,
    spec_mirrored,
    spec_prepared,
    spec_withdrawn_sites,
};
use crate::progress::{ProgressCallback, STEP_REPORT_MILLIS};
use crate::propagate::{face_of, neighbour_block, propagate_voxels};
use crate::relax::OpDir;
use crate::settle::{all_allocated, crossing_state, layer_potential, lemma_pass_settles};
use crate::sweep::sweep_voxels;
use crate::voxel::{Esdf, Tsdf};

verus! {

/// The block that an update would have to clear and cannot seed, because
/// the truncated field does not hold it.
#[derive(Debug, Clone, Copy, PartialEq, Eq)]
pub struct MissingBlock<const VPS: usize> {
    pub index: BlockIndex<VPS>,
}

/// Settings of the integrator. There are none so far.
#[derive(Debug)]
pub struct EsdfIntegratorConfig {}

impl Default for EsdfIntegratorConfig {
    fn default() -> Self {
        EsdfIntegratorConfig {}
    }
}

/// The distance field integrator that runs on the host.
#[derive(Debug)]
pub struct EsdfIntegrator {
    config: EsdfIntegratorConfig,
}

impl EsdfIntegrator {
    /// An integrator with the given settings.
    pub fn new(config: EsdfIntegratorConfig) -> Self {
        Self { config }
    }

    /// Sweeps one allocated block of the layer in a direction.
    pub fn sweep_block<const VPS: usize>(
        dir: OpDir,
        index: &BlockIndex<VPS>,
        esdf_layer: &mut Layer<Esdf, VPS>,
    )
        requires
            old(esdf_layer).wf(),
            old(esdf_layer)@.contains_key(*index),
        ensures
            final(esdf_layer).wf(),
            final(esdf_layer).spec_indices() == old(esdf_layer).spec_indices(),
            final(esdf_layer).spec_voxel_size() == old(esdf_layer).spec_voxel_size(),
            final(esdf_layer)@ == spec_sweep(
                old(esdf_layer)@,
                *index,
                dir,
                old(esdf_layer).spec_voxel_size(),
            ),
    {
        let voxel_size = esdf_layer.voxel_size();
        match esdf_layer.block_by_index_mut(index) {
            Some(block) => {
                sweep_voxels::<VPS>(block.as_mut_slice(), dir, voxel_size);
            },
            None => {},
        }
    }

    /// Lets the distances of a pivot block cross the face of a direction
    /// into the neighbour block, if that block is allocated. Returns the
    /// neighbour when a voxel of it was written.
    pub fn propagate_to_neighbour<const VPS: usize>(
        dir: OpDir,
        pivot_index: &BlockIndex<VPS>,
        esdf_layer: &mut Layer<Esdf, VPS>,
    ) -> (r: Option<BlockIndex<VPS>>)
        requires
            old(esdf_layer).wf(),
            old(esdf_layer)@.contains_key(neighbour_block(*pivot_index, dir)) ==> old(esdf_layer)@.contains_key(*pivot_index),
        ensures
            final(esdf_layer).wf(),
            final(esdf_layer).spec_indices() == old(esdf_layer).spec_indices(),
            final(esdf_layer).spec_voxel_size() == old(esdf_layer).spec_voxel_size(),
            final(esdf_layer)@ == spec_propagate(
                old(esdf_layer)@,
                *pivot_index,
                dir,
                old(esdf_layer).spec_voxel_size(),
            ),
            r == spec_propagate_dirty(
                old(esdf_layer)@,
                *pivot_index,
                dir,
                old(esdf_layer).spec_voxel_size(),
            ),
    {
        let voxel_size = esdf_layer.voxel_size();
        let nblock_index = neighbour_at(pivot_index, dir.table_index()).index;
        let face = match esdf_layer.block_by_index(pivot_index) {
            Some(pivot_block) => face_of::<VPS>(pivot_block.as_slice(), dir),
            None => {
                return None;
            },
        };
        match esdf_layer.block_by_index_mut(&nblock_index) {
            Some(neighbour_block) => {
                let dirty = propagate_voxels::<VPS>(
                    face.as_slice(),
                    neighbour_block.as_mut_slice(),
                    dir,
                    voxel_size,
                );
                if dirty {
                    Some(nblock_index)
                } else {
                    None
                }
            },
            None => None,
        }
    }

    /// Sweeps one allocated block along x and y, in the order x+, x-, y+,
    /// y-, and reports each sweep.
    pub fn sweep_block_xy<const VPS: usize, C: ProgressCallback<VPS>>(
        index: &BlockIndex<VPS>,
        tsdf_layer: &Layer<Tsdf, VPS>,
        esdf_layer: &mut Layer<Esdf, VPS>,
        callback: &mut C,
    )
        requires
            tsdf_layer.wf(),
            old(esdf_layer).wf(),
            old(esdf_layer)@.contains_key(*index),
        ensures
            final(esdf_layer).wf(),
            final(esdf_layer).spec_indices() == old(esdf_layer).spec_indices(),
            final(esdf_layer).spec_voxel_size() == old(esdf_layer).spec_voxel_size(),
            final(esdf_layer)@ == spec_sweep_xy(
                old(esdf_layer)@,
                *index,
                old(esdf_layer).spec_voxel_size(),
            ),
    {
        let one = [*index];
        Self::sweep_block(OpDir::XPlus, index, esdf_layer);
        callback.report("sweep: x+", tsdf_layer, esdf_layer, one.as_slice(), STEP_REPORT_MILLIS);
        Self::sweep_block(OpDir::XMinus, index, esdf_layer);
        callback.report("sweep: x-", tsdf_layer, esdf_layer, one.as_slice(), STEP_REPORT_MILLIS);
        Self::sweep_block(OpDir::YPlus, index, esdf_layer);
        callback.report("sweep: y+", tsdf_layer, esdf_layer, one.as_slice(), STEP_REPORT_MILLIS);
        Self::sweep_block(OpDir::YMinus, index, esdf_layer);
        callback.report("sweep: y-", tsdf_layer, esdf_layer, one.as_slice(), STEP_REPORT_MILLIS);
    }

    /// Lets the distances of a pivot block cross one face; a neighbour that
    /// was written to becomes dirty and is reported.
    pub fn propagate_block_dir<const VPS: usize, C: ProgressCallback<VPS>>(
        dir: OpDir,
        op: &str,
        index: &BlockIndex<VPS>,
        tsdf_layer: &Layer<Tsdf, VPS>,
        esdf_layer: &mut Layer<Esdf, VPS>,
        dirty_blocks: &mut BlockSet<VPS>,
        callback: &mut C,
    )
        requires
            tsdf_layer.wf(),
            old(esdf_layer).wf(),
            old(dirty_blocks).wf(),
            old(esdf_layer)@.contains_key(*index),
        ensures
            final(esdf_layer).wf(),
            final(dirty_blocks).wf(),
            final(esdf_layer).spec_indices() == old(esdf_layer).spec_indices(),
            final(esdf_layer).spec_voxel_size() == old(esdf_layer).spec_voxel_size(),
            (final(esdf_layer)@, final(dirty_blocks)@) == spec_propagate_dir(
                (old(esdf_layer)@, old(dirty_blocks)@),
                *index,
                dir,
                old(esdf_layer).spec_voxel_size(),
            ),
    {
        match Self::propagate_to_neighbour(dir, index, esdf_layer) {
            Some(dirty_block_index) => {
                let _ = dirty_blocks.insert(dirty_block_index);
                let one = [dirty_block_index];
                callback.report(op, tsdf_layer, esdf_layer, one.as_slice(), STEP_REPORT_MILLIS);
            },
            None => {},
        }
    }

    /// Lets the distances of a pivot block cross its faces along x and y,
    /// in the order x+, x-, y+, y-.
    pub fn propagate_block_xy<const VPS: usize, C: ProgressCallback<VPS>>(
        index: &BlockIndex<VPS>,
        tsdf_layer: &Layer<Tsdf, VPS>,
        esdf_layer: &mut Layer<Esdf, VPS>,
        dirty_blocks: &mut BlockSet<VPS>,
        callback: &mut C,
    )
        requires
            tsdf_layer.wf(),
            old(esdf_layer).wf(),
            old(dirty_blocks).wf(),
            old(esdf_layer)@.contains_key(*index),
        ensures
            final(esdf_layer).wf(),
            final(dirty_blocks).wf(),
            final(esdf_layer).spec_indices() == old(esdf_layer).spec_indices(),
            final(esdf_layer).spec_voxel_size() == old(esdf_layer).spec_voxel_size(),
            (final(esdf_layer)@, final(dirty_blocks)@) == spec_propagate_xy(
                (old(esdf_layer)@, old(dirty_blocks)@),
                *index,
                old(esdf_layer).spec_voxel_size(),
            ),
    {
        Self::propagate_block_dir(
            OpDir::XPlus,
            "prop.: x+",
            index,
            tsdf_layer,
            esdf_layer,
            dirty_blocks,
            callback,
        );
        Self::propagate_block_dir(
            OpDir::XMinus,
            "prop.: x-",
            index,
            tsdf_layer,
            esdf_layer,
            dirty_blocks,
            callback,
        );
        Self::propagate_block_dir(
            OpDir::YPlus,
            "prop.: y+",
            index,
            tsdf_layer,
            esdf_layer,
            dirty_blocks,
            callback,
        );
        Self::propagate_block_dir(
            OpDir::YMinus,
            "prop.: y-",
            index,
            tsdf_layer,
            esdf_layer,
            dirty_blocks,
            callback,
        );
    }

    /// One pass over the dirty blocks: sweeps each of them, then lets the
    /// distances of each of them cross its faces. Returns the blocks that
    /// are dirty after the pass.
    pub fn run_pass<const VPS: usize, C: ProgressCallback<VPS>>(
        tsdf_layer: &Layer<Tsdf, VPS>,
        esdf_layer: &mut Layer<Esdf, VPS>,
        dirty_blocks: &BlockSet<VPS>,
        callback: &mut C,
    ) -> (next: BlockSet<VPS>)
        requires
            tsdf_layer.wf(),
            old(esdf_layer).wf(),
            dirty_blocks.wf(),
            all_allocated(dirty_blocks@, old(esdf_layer)@),
        ensures
            final(esdf_layer).wf(),
            next.wf(),
            final(esdf_layer).spec_indices() == old(esdf_layer).spec_indices(),
            final(esdf_layer).spec_voxel_size() == old(esdf_layer).spec_voxel_size(),
            (final(esdf_layer)@, next@) == spec_pass(
                (old(esdf_layer)@, dirty_blocks@),
                old(esdf_layer).spec_voxel_size(),
            ),
            crossing_state(
                old(esdf_layer).spec_indices(),
                old(esdf_layer)@,
                (final(esdf_layer)@, next@),
            ),
    {
        let ghost start = esdf_layer@;
        let ghost voxel_size = esdf_layer.spec_voxel_size();
        let list = dirty_blocks.as_slice();
        let mut i: usize = 0;
        proof {
            assert(list@.take(0).len() == 0);
        }
        while i < list.len()
            invariant
                tsdf_layer.wf(),
                esdf_layer.wf(),
                list@ == dirty_blocks@,
                i <= list@.len(),
                esdf_layer.spec_indices() == old(esdf_layer).spec_indices(),
                esdf_layer.spec_voxel_size() == voxel_size,
                all_allocated(list@, start),
                forall|b: BlockIndex<VPS>| start.contains_key(b) <==> esdf_layer@.contains_key(b),
                esdf_layer@ == spec_sweep_all(start, list@.take(i as int), voxel_size),
            decreases list@.len() - i,
        {
            let block_index = list[i];
            proof {
                assert(list@.contains(block_index));
                assert(list@.take(i + 1).drop_last() =~= list@.take(i as int));
            }
            Self::sweep_block_xy(&block_index, tsdf_layer, esdf_layer, callback);
            i += 1;
        }
        let ghost swept = esdf_layer@;
        proof {
            assert(list@.take(i as int) =~= list@);
        }
        let mut next = BlockSet::<VPS>::new();
        let mut j: usize = 0;
        proof {
            assert(list@.take(0).len() == 0);
            assert(next@ =~= Seq::<BlockIndex<VPS>>::empty());
        }
        while j < list.len()
            invariant
                tsdf_layer.wf(),
                esdf_layer.wf(),
                next.wf(),
                list@ == dirty_blocks@,
                j <= list@.len(),
                esdf_layer.spec_indices() == old(esdf_layer).spec_indices(),
                esdf_layer.spec_voxel_size() == voxel_size,
                all_allocated(list@, start),
                forall|b: BlockIndex<VPS>| start.contains_key(b) <==> esdf_layer@.contains_key(b),
                (esdf_layer@, next@) == spec_propagate_all(
                    (swept, Seq::<BlockIndex<VPS>>::empty()),
                    list@.take(j as int),
                    voxel_size,
                ),
            decreases list@.len() - j,
        {
            let block_index = list[j];
            proof {
                assert(list@.contains(block_index));
                assert(list@.take(j + 1).drop_last() =~= list@.take(j as int));
            }
            Self::propagate_block_xy(&block_index, tsdf_layer, esdf_layer, &mut next, callback);
            proof {
                let before = spec_propagate_all(
                    (swept, Seq::<BlockIndex<VPS>>::empty()),
                    list@.take(j as int),
                    voxel_size,
                );
                let after = spec_propagate_xy(before, block_index, voxel_size);
                assert(after.0.dom() =~= before.0.dom());
            }
            j += 1;
        }
        proof {
            assert(list@.take(j as int) =~= list@);
            lemma_pass_settles(old(esdf_layer).spec_indices(), (start, dirty_blocks@), voxel_size);
        }
        next
    }

    /// Runs passes over the dirty blocks until no block is dirty.
    pub fn run_passes<const VPS: usize, C: ProgressCallback<VPS>>(
        tsdf_layer: &Layer<Tsdf, VPS>,
        esdf_layer: &mut Layer<Esdf, VPS>,
        dirty_blocks: BlockSet<VPS>,
        callback: &mut C,
    )
        requires
            tsdf_layer.wf(),
            old(esdf_layer).wf(),
            dirty_blocks.wf(),
            all_allocated(dirty_blocks@, old(esdf_layer)@),
        ensures
            final(esdf_layer).wf(),
            final(esdf_layer).spec_indices() == old(esdf_layer).spec_indices(),
            final(esdf_layer).spec_voxel_size() == old(esdf_layer).spec_voxel_size(),
            exists|n: nat|
                comes_to_rest_after((old(esdf_layer)@, dirty_blocks@), old(esdf_layer).spec_voxel_size(), n)
                    && final(esdf_layer)@ == (#[trigger] spec_passes(
                    (old(esdf_layer)@, dirty_blocks@),
                    old(esdf_layer).spec_voxel_size(),
                    n,
                )).0,
    {
        let ghost start = (esdf_layer@, dirty_blocks@);
        let ghost voxel_size = esdf_layer.spec_voxel_size();
        let ghost indices = esdf_layer.spec_indices();
        let ghost mut n: nat = 0;
        let mut dirty_blocks = dirty_blocks;
        while !dirty_blocks.is_empty()
            invariant
                tsdf_layer.wf(),
                esdf_layer.wf(),
                dirty_blocks.wf(),
                all_allocated(dirty_blocks@, esdf_layer@),
                esdf_layer.spec_indices() == indices,
                esdf_layer.spec_voxel_size() == voxel_size,
                (esdf_layer@, dirty_blocks@) == spec_passes(start, voxel_size, n),
                forall|k: nat| k < n ==> (#[trigger] spec_passes(start, voxel_size, k)).1.len() > 0,
            decreases
                    layer_potential(esdf_layer.spec_indices(), esdf_layer@),
                    (if dirty_blocks@.len() > 0 {
                        1int
                    } else {
                        0int
                    }),
        {
            let next = Self::run_pass(tsdf_layer, esdf_layer, &dirty_blocks, callback);
            dirty_blocks = next;
            proof {
                n = n + 1;
            }
        }
        proof {
            assert(comes_to_rest_after(start, voxel_size, n));
        }
    }

    /// Brings the distance field up to date after the truncated field has
    /// changed in the updated blocks. Every block of the truncated field
    /// gets a block in the distance field. The blocks that hold a distance
    /// to a site in an updated block are cleared and seeded again from the
    /// truncated field, and sweeps and propagations along x and y run over
    /// the dirty blocks, pass after pass, until no block is dirty.
    ///
    /// Every block that has to be cleared must be allocated in the truncated
    /// field; `try_update_blocks` tests that.
    pub fn update_blocks<const VPS: usize, C: ProgressCallback<VPS>>(
        &mut self,
        tsdf_layer: &Layer<Tsdf, VPS>,
        esdf_layer: &mut Layer<Esdf, VPS>,
        updated_blocks: &BlockSet<VPS>,
        callback: &mut C,
    )
        requires
            tsdf_layer.wf(),
            old(esdf_layer).wf(),
            updated_blocks.wf(),
            can_update(tsdf_layer@, old(esdf_layer)@, updated_blocks@),
        ensures
            final(esdf_layer).wf(),
            final(esdf_layer).spec_voxel_size() == old(esdf_layer).spec_voxel_size(),
            final(esdf_layer).spec_indices() == push_missing(
                push_missing(old(esdf_layer).spec_indices(), tsdf_layer.spec_indices()),
                updated_blocks@,
            ),
            is_update_result(
                tsdf_layer@,
                old(esdf_layer)@,
                updated_blocks@,
                old(esdf_layer).spec_voxel_size(),
                final(esdf_layer)@,
            ),
            update_guarantees(
                tsdf_layer@,
                old(esdf_layer)@,
                updated_blocks@,
                final(esdf_layer)@,
            ),
            updated_blocks@.len() == 0 && (forall|b: BlockIndex<VPS>|
                tsdf_layer@.contains_key(b) ==> old(esdf_layer)@.contains_key(b)) ==> final(esdf_layer).spec_indices()
                == old(esdf_layer).spec_indices(),
    {
        let ghost before = esdf_layer@;
        let ghost indices = esdf_layer.spec_indices();
        proof {
            old(esdf_layer).lemma_view_is_valid();
        }
        let plan = plan_update(tsdf_layer, esdf_layer, updated_blocks, callback);
        Self::finish_update(
            tsdf_layer,
            esdf_layer,
            plan,
            callback,
            Ghost(before),
            Ghost(updated_blocks@),
        );
        proof {
            if updated_blocks@.len() == 0 && (forall|b: BlockIndex<VPS>|
                tsdf_layer@.contains_key(b) ==> before.contains_key(b)) {
                lemma_push_missing_present(indices, tsdf_layer.spec_indices());
            }
        }
    }

    /// Brings the distance field up to date like `update_blocks`, if every
    /// block that has to be cleared is allocated in the truncated field.
    /// Otherwise it names one block that is not, and leaves the distance
    /// field with the blocks of the truncated field and the updated blocks
    /// allocated, and with no voxel changed.
    pub fn try_update_blocks<const VPS: usize, C: ProgressCallback<VPS>>(
        &mut self,
        tsdf_layer: &Layer<Tsdf, VPS>,
        esdf_layer: &mut Layer<Esdf, VPS>,
        updated_blocks: &BlockSet<VPS>,
        callback: &mut C,
    ) -> (r: Result<(), MissingBlock<VPS>>)
        requires
            tsdf_layer.wf(),
            old(esdf_layer).wf(),
            updated_blocks.wf(),
        ensures
            final(esdf_layer).wf(),
            final(esdf_layer).spec_voxel_size() == old(esdf_layer).spec_voxel_size(),
            final(esdf_layer).spec_indices() == push_missing(
                push_missing(old(esdf_layer).spec_indices(), tsdf_layer.spec_indices()),
                updated_blocks@,
            ),
            r is Ok <==> can_update(tsdf_layer@, old(esdf_layer)@, updated_blocks@),
            r is Ok ==> is_update_result(
                tsdf_layer@,
                old(esdf_layer)@,
                updated_blocks@,
                old(esdf_layer).spec_voxel_size(),
                final(esdf_layer)@,
            ) && update_guarantees(
                tsdf_layer@,
                old(esdf_layer)@,
                updated_blocks@,
                final(esdf_layer)@,
            ),
            r matches Err(e) ==> {
                &&& is_first_missing(
                    tsdf_layer@,
                    spec_cleared(tsdf_layer@, old(esdf_layer)@, updated_blocks@),
                    e.index,
                )
                &&& final(esdf_layer)@ == spec_mirrored(
                    tsdf_layer@,
                    old(esdf_layer)@,
                    updated_blocks@,
                )
            },
    {
        let ghost before = esdf_layer@;
        proof {
            old(esdf_layer).lemma_view_is_valid();
        }
        let plan = plan_update(tsdf_layer, esdf_layer, updated_blocks, callback);
        let ghost cleared = spec_cleared(tsdf_layer@, before, updated_blocks@);
        match first_missing_block(tsdf_layer, &plan.blocks_to_clear) {
            Some(index) => {
                proof {
                    assert(plan.blocks_to_clear@.to_set() =~= cleared);
                }
                Err(MissingBlock { index })
            },
            None => {
                proof {
                    assert forall|b: BlockIndex<VPS>| #[trigger] cleared.contains(b) implies tsdf_layer@.contains_key(
                        b,
                    ) by {
                        assert(plan.blocks_to_clear@.contains(b));
                    }
                }
                Self::finish_update(
                    tsdf_layer,
                    esdf_layer,
                    plan,
                    callback,
                    Ghost(before),
                    Ghost(updated_blocks@),
                );
                Ok(())
            },
        }
    }

    /// The steps of an update that follow the plan: clears and seeds the
    /// blocks that the plan names, and runs passes until no block is dirty.
    fn finish_update<const VPS: usize, C: ProgressCallback<VPS>>(
        tsdf_layer: &Layer<Tsdf, VPS>,
        esdf_layer: &mut Layer<Esdf, VPS>,
        plan: Invalidation<VPS>,
        callback: &mut C,
        Ghost(before): Ghost<Map<BlockIndex<VPS>, Seq<Esdf>>>,
        Ghost(updated): Ghost<Seq<BlockIndex<VPS>>>,
    )
        requires
            tsdf_layer.wf(),
            old(esdf_layer).wf(),
            is_layer_view(before),
            can_update(tsdf_layer@, before, updated),
            old(esdf_layer)@ == spec_mirrored(tsdf_layer@, before, updated),
            plan.blocks_to_clear.wf(),
            plan.dirty.wf(),
            forall|b: BlockIndex<VPS>|
                plan.blocks_to_clear@.contains(b) <==> spec_cleared(tsdf_layer@, before, updated).contains(b),
            forall|b: BlockIndex<VPS>|
                plan.dirty@.contains(b) <==> stays_valid(
                    spec_mirrored(tsdf_layer@, before, updated),
                    spec_withdrawn_sites(tsdf_layer@, before, updated),
                    updated,
                    b,
                ),
            forall|b: BlockIndex<VPS>|
                plan.blocks_to_clear@.contains(b) || plan.dirty@.contains(b) ==> old(esdf_layer)@.contains_key(b),
        ensures
            final(esdf_layer).wf(),
            final(esdf_layer).spec_indices() == old(esdf_layer).spec_indices(),
            final(esdf_layer).spec_voxel_size() == old(esdf_layer).spec_voxel_size(),
            is_update_result(
                tsdf_layer@,
                before,
                updated,
                old(esdf_layer).spec_voxel_size(),
                final(esdf_layer)@,
            ),
            update_guarantees(tsdf_layer@, before, updated, final(esdf_layer)@),
    {
        let ghost tsdf = tsdf_layer@;
        let ghost voxel_size = esdf_layer.spec_voxel_size();
        let ghost clear = plan.blocks_to_clear@;
        proof {
            assert(clear.to_set() =~= spec_cleared(tsdf, before, updated));
        }
        let dirty_blocks = rebuild(tsdf_layer, esdf_layer, plan, callback);
        let ghost prepared = (esdf_layer@, dirty_blocks@);
        proof {
            lemma_sorted_seq(dirty_blocks@, spec_first_dirty(tsdf, before, updated));
            assert(prepared == spec_prepared(tsdf, before, updated));
        }
        Self::run_passes(tsdf_layer, esdf_layer, dirty_blocks, callback);
        proof {
            let n = choose|n: nat|
                comes_to_rest_after(prepared, voxel_size, n) && esdf_layer@ == (#[trigger] spec_passes(
                    prepared,
                    voxel_size,
                    n,
                )).0;
            assert(comes_to_rest_after(spec_prepared(tsdf, before, updated), voxel_size, n)
                && esdf_layer@ == spec_passes(spec_prepared(tsdf, before, updated), voxel_size, n).0);
            tsdf_layer.lemma_view_is_valid();
            lemma_update_guarantees(tsdf, before, updated, voxel_size, esdf_layer@);
        }
    }
}

} // verus!
