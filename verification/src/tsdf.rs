//! The truncated field integrator: it takes observations of single voxels
//! into the truncated field and notes which blocks have changed.

use vstd::prelude::*;
use crate::block_set::{sorted_insert, BlockSet};
use crate::index::{lemma_linear_index_round_trip, GlobalIndex};
use crate::layer::{allocated_with, Layer};
use crate::voxel::{Real, Tsdf};

verus! {

/// Settings of the integrator: the distance that a voxel gets when it is
/// first observed as occupied.
#[derive(Debug, Clone, Copy)]
pub struct TsdfIntegratorConfig {
    pub default_truncation_distance: Real,
}

/// The truncated field integrator.
#[derive(Debug)]
pub struct TsdfIntegrator {
    config: TsdfIntegratorConfig,
}

/// A voxel after an observation. An occupied place that was not observed
/// gets the truncation distance and the weight 1; a free place that was
/// observed with the weight 1 loses distance and weight; every other voxel
/// stays as it is.
pub open spec fn spec_observed_voxel(voxel: Tsdf, occupied: bool, truncation: Real) -> Tsdf {
    if occupied {
        if voxel.weight == 0 {
            Tsdf { distance: truncation, weight: 1 }
        } else {
            voxel
        }
    } else if voxel.weight == 1 {
        Tsdf { distance: 0, weight: 0 }
    } else {
        voxel
    }
}

impl TsdfIntegrator {
    /// An integrator with the given settings.
    pub fn new(config: TsdfIntegratorConfig) -> (r: Self)
        ensures
            r.spec_truncation() == config.default_truncation_distance,
    {
        Self { config }
    }

    /// The distance that a voxel gets when it is first observed as
    /// occupied.
    pub closed spec fn spec_truncation(&self) -> Real {
        self.config.default_truncation_distance
    }

    /// Takes the observation of one voxel into the truncated field: the
    /// block of the voxel is allocated if it was not, the voxel changes as
    /// the observation says, and the block is added to the updated blocks
    /// if the voxel has changed. Says whether it has.
    pub fn integrate_observation<const VPS: usize>(
        &mut self,
        layer: &mut Layer<Tsdf, VPS>,
        global_index: &GlobalIndex<VPS>,
        occupied: bool,
        updated_block_indices: &mut BlockSet<VPS>,
    ) -> (changed: bool)
        requires
            old(layer).wf(),
            old(updated_block_indices).wf(),
        ensures
            final(self).spec_truncation() == old(self).spec_truncation(),
            final(layer).wf(),
            final(updated_block_indices).wf(),
            final(layer).spec_voxel_size() == old(layer).spec_voxel_size(),
            ({
                let b = global_index.spec_block_index();
                let i = global_index.spec_local_voxel_index().spec_linear_index();
                let before = allocated_with(old(layer)@, set![b]);
                let voxel = spec_observed_voxel(before[b][i], occupied, old(self).spec_truncation());
                &&& final(layer)@ == before.insert(b, before[b].update(i, voxel))
                &&& changed == (voxel != before[b][i])
                &&& final(updated_block_indices)@ == (if changed {
                    sorted_insert(old(updated_block_indices)@, b)
                } else {
                    old(updated_block_indices)@
                })
            }),
    {
        let (block_index, voxel_index) = global_index.block_voxel_index();
        let ghost before = allocated_with(layer@, set![block_index]);
        let truncation = self.config.default_truncation_distance;
        let block = layer.allocate_block_by_index(&block_index);
        let ghost block_before = block@;
        proof {
            lemma_linear_index_round_trip(voxel_index);
        }
        let voxel = block.voxel_from_index_mut(&voxel_index);
        let mut changed = false;
        if occupied {
            if voxel.weight == 0 {
                voxel.distance = truncation;
                voxel.weight = 1;
                changed = true;
            }
        } else if voxel.weight == 1 {
            voxel.distance = 0;
            voxel.weight = 0;
            changed = true;
        }
        if changed {
            let _ = updated_block_indices.insert(block_index);
        }
        proof {
            assert(block_before == before[block_index]);
            assert(layer@ =~= before.insert(
                block_index,
                before[block_index].update(
                    voxel_index.spec_linear_index(),
                    spec_observed_voxel(
                        before[block_index][voxel_index.spec_linear_index()],
                        occupied,
                        truncation,
                    ),
                ),
            ));
        }
        changed
    }
}

} // verus!
