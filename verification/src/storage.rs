//! Dense storage of the voxels of one block.

use vstd::prelude::*;

verus! {

/// A dense array of `H * W * D` voxels in one piece, stored x fastest: the
/// voxel `(x, y, z)` stands at `x + H * (y + W * z)`.
#[derive(Debug)]
pub struct VoxelStorage<T, const H: usize, const W: usize, const D: usize> {
    data: Vec<T>,
}

impl<T, const H: usize, const W: usize, const D: usize> View for VoxelStorage<T, H, W, D> {
    type V = Seq<T>;

    closed spec fn view(&self) -> Seq<T> {
        self.data@
    }
}

impl<T, const H: usize, const W: usize, const D: usize> VoxelStorage<T, H, W, D> {
    /// The storage holds one voxel for each place.
    pub open spec fn wf(&self) -> bool {
        self@.len() == H * W * D
    }

    /// A storage whose voxels all equal `value`.
    pub fn filled(value: T) -> (s: Self) where T: Copy
        requires
            H * W * D <= usize::MAX,
        ensures
            s.wf(),
            forall|i: int| 0 <= i < H * W * D ==> s@[i] == value,
    {
        let ghost total: int = H * W * D;
        proof {
            assert(0 <= H * W <= H * W * D || D == 0) by (nonlinear_arith);
        }
        let count: usize = if D == 0 {
            0
        } else {
            H * W * D
        };
        assert(count == total) by (nonlinear_arith)
            requires
                D == 0 ==> count == 0,
                D != 0 ==> count == H * W * D,
                total == H * W * D,
        ;
        let mut data: Vec<T> = Vec::with_capacity(count);
        let mut i: usize = 0;
        while i < count
            invariant
                i <= count,
                data@.len() == i,
                forall|j: int| 0 <= j < i ==> data@[j] == value,
            decreases count - i,
        {
            data.push(value);
            i += 1;
        }
        VoxelStorage { data }
    }

    /// The voxels in one piece.
    pub fn as_slice(&self) -> (s: &[T])
        ensures
            s@ == self@,
    {
        self.data.as_slice()
    }

    /// The voxels in one piece, to write to.
    pub fn as_mut_slice(&mut self) -> (s: &mut [T])
        ensures
            s@ == old(self)@,
            final(self)@ == final(s)@,
    {
        self.data.as_mut_slice()
    }

    /// The voxel at a position of the array.
    pub fn get(&self, i: usize) -> (v: &T)
        requires
            i < self@.len(),
        ensures
            *v == self@[i as int],
    {
        &self.data[i]
    }

    /// The voxel at a position of the array, to write to.
    pub fn get_mut(&mut self, i: usize) -> (v: &mut T)
        requires
            i < old(self)@.len(),
        ensures
            *v == old(self)@[i as int],
            final(self)@ == old(self)@.update(i as int, *final(v)),
    {
        &mut self.data[i]
    }
}

} // verus!
