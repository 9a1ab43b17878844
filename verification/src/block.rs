//! A block: a cube of `VPS` voxels per side, stored densely.

use vstd::prelude::*;
use crate::index::{
    div_rem_usize,
    lemma_from_linear_wf,
    side_is_valid,
    GlobalIndex,
    VoxelIndex,
};
use crate::storage::VoxelStorage;
use crate::voxel::{Real, Voxel};

verus! {

/// A cube of `VPS * VPS * VPS` voxels. It knows the size of its voxels and
/// its origin: the global index of its voxel `(0, 0, 0)`.
#[derive(Debug)]
pub struct Block<VoxelType: Voxel, const VPS: usize> {
    voxel_size: Real,
    origin: GlobalIndex<VPS>,
    voxels: VoxelStorage<VoxelType, VPS, VPS, VPS>,
}

impl<VoxelType: Voxel, const VPS: usize> View for Block<VoxelType, VPS> {
    type V = Seq<VoxelType>;

    closed spec fn view(&self) -> Seq<VoxelType> {
        self.voxels@
    }
}

impl<VoxelType: Voxel, const VPS: usize> Block<VoxelType, VPS> {
    /// The side is valid and the block holds one voxel for each place.
    pub open spec fn wf(&self) -> bool {
        &&& side_is_valid(VPS)
        &&& self@.len() == VPS * VPS * VPS
    }

    /// The global index of the voxel `(0, 0, 0)` of the block.
    pub closed spec fn spec_origin(&self) -> GlobalIndex<VPS> {
        self.origin
    }

    /// The size of a voxel of the block.
    pub closed spec fn spec_voxel_size(&self) -> Real {
        self.voxel_size
    }

    /// A block of empty voxels.
    pub fn new(voxel_size: Real, origin: GlobalIndex<VPS>) -> (b: Self)
        requires
            side_is_valid(VPS),
        ensures
            b.wf(),
            b.spec_origin() == origin,
            b.spec_voxel_size() == voxel_size,
            forall|i: int| 0 <= i < VPS * VPS * VPS ==> b@[i] == VoxelType::spec_empty(),
    {
        Block { voxel_size, origin, voxels: VoxelStorage::filled(VoxelType::empty()) }
    }

    /// The global index of the voxel `(0, 0, 0)` of the block.
    pub fn origin(&self) -> (o: &GlobalIndex<VPS>)
        ensures
            *o == self.spec_origin(),
    {
        &self.origin
    }

    /// The size of a voxel of the block.
    pub fn voxel_size(&self) -> (s: Real)
        ensures
            s == self.spec_voxel_size(),
    {
        self.voxel_size
    }

    /// The position of a voxel in the block's array, x fastest.
    pub fn lin_index_from_voxel_index(index: &VoxelIndex<VPS>) -> (i: usize)
        requires
            side_is_valid(VPS),
            index.wf(),
        ensures
            i == index.spec_linear_index(),
            i < VPS * VPS * VPS,
    {
        index.linear_index()
    }

    /// The voxel index that stands at a position of the block's array.
    pub fn voxel_index_from_lin_index(index: usize) -> (v: VoxelIndex<VPS>)
        requires
            0 < VPS,
            VPS * VPS <= usize::MAX,
        ensures
            v == VoxelIndex::<VPS>::spec_from_linear(index as int),
            index < VPS * VPS * VPS ==> v.wf(),
    {
        proof {
            lemma_from_linear_wf(index as int, VPS as int);
            assert(VPS * VPS > 0) by (nonlinear_arith)
                requires
                    VPS > 0,
            ;
        }
        let (z, rem) = div_rem_usize(index, VPS * VPS);
        let (y, x) = div_rem_usize(rem, VPS);
        VoxelIndex { x, y, z }
    }

    /// The voxels of the block, x fastest.
    pub fn as_slice(&self) -> (s: &[VoxelType])
        ensures
            s@ == self@,
    {
        self.voxels.as_slice()
    }

    /// The voxels of the block, x fastest, to write to.
    pub fn as_mut_slice(&mut self) -> (s: &mut [VoxelType])
        ensures
            s@ == old(self)@,
            final(self)@ == final(s)@,
            final(self).spec_origin() == old(self).spec_origin(),
            final(self).spec_voxel_size() == old(self).spec_voxel_size(),
    {
        self.voxels.as_mut_slice()
    }

    /// The voxel at a position of the block's array.
    pub fn voxel_from_lin_index(&self, index: usize) -> (v: &VoxelType)
        requires
            index < self@.len(),
        ensures
            *v == self@[index as int],
    {
        self.voxels.get(index)
    }

    /// The voxel at a position of the block's array, to write to.
    pub fn voxel_from_lin_index_mut(&mut self, index: usize) -> (v: &mut VoxelType)
        requires
            index < old(self)@.len(),
        ensures
            *v == old(self)@[index as int],
            final(self)@ == old(self)@.update(index as int, *final(v)),
            final(self).spec_origin() == old(self).spec_origin(),
            final(self).spec_voxel_size() == old(self).spec_voxel_size(),
    {
        self.voxels.get_mut(index)
    }

    /// The voxel at a voxel index.
    pub fn voxel_from_index(&self, index: &VoxelIndex<VPS>) -> (v: &VoxelType)
        requires
            self.wf(),
            index.wf(),
        ensures
            *v == self@[index.spec_linear_index()],
    {
        let lin_index = Self::lin_index_from_voxel_index(index);
        self.voxels.get(lin_index)
    }

    /// The voxel at a voxel index, to write to.
    pub fn voxel_from_index_mut(&mut self, index: &VoxelIndex<VPS>) -> (v: &mut VoxelType)
        requires
            old(self).wf(),
            index.wf(),
        ensures
            *v == old(self)@[index.spec_linear_index()],
            final(self)@ == old(self)@.update(index.spec_linear_index(), *final(v)),
            final(self).spec_origin() == old(self).spec_origin(),
            final(self).spec_voxel_size() == old(self).spec_voxel_size(),
    {
        let lin_index = Self::lin_index_from_voxel_index(index);
        self.voxels.get_mut(lin_index)
    }

    /// Makes every voxel empty again.
    pub fn reset_voxels(&mut self)
        ensures
            final(self)@.len() == old(self)@.len(),
            forall|i: int| 0 <= i < final(self)@.len() ==> final(self)@[i] == VoxelType::spec_empty(),
            final(self).spec_origin() == old(self).spec_origin(),
            final(self).spec_voxel_size() == old(self).spec_voxel_size(),
    {
        let slice = self.voxels.as_mut_slice();
        let count = slice.len();
        let mut i: usize = 0;
        while i < count
            invariant
                count == slice@.len(),
                i <= count,
                forall|j: int| 0 <= j < i ==> slice@[j] == VoxelType::spec_empty(),
            decreases count - i,
        {
            slice[i] = VoxelType::empty();
            i += 1;
        }
    }
}

} // verus!
