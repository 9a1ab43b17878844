//! The relaxation of one voxel against the voxel before it, the rule that
//! sweeps and propagations apply, and the lines of a block along an axis.

use vstd::prelude::*;
use crate::index::{lemma_from_linear_round_trip, lemma_linear_index_round_trip, VoxelIndex};
use crate::voxel::{Esdf, EsdfFlags, Real, FIXED, HAS_SITE_INDEX, OBSERVED};

verus! {

/// The six directions along the axes in which a block can be swept and in
/// which distances cross a face.
#[derive(Debug, Clone, Copy, PartialEq, Eq, Structural)]
pub enum OpDir {
    XPlus,
    XMinus,
    YPlus,
    YMinus,
    ZPlus,
    ZMinus,
}

impl OpDir {
    /// Whether the direction runs towards larger coordinates.
    pub open spec fn spec_is_forward(self) -> bool {
        self is XPlus || self is YPlus || self is ZPlus
    }

    /// Whether the direction runs towards larger coordinates.
    #[verifier::when_used_as_spec(spec_is_forward)]
    pub fn is_forward(self) -> (r: bool)
        ensures
            r == self.spec_is_forward(),
    {
        match self {
            OpDir::XPlus | OpDir::YPlus | OpDir::ZPlus => true,
            _ => false,
        }
    }
}

/// The distance one voxel further: `d + voxel_size`, kept inside the range
/// of the scalar.
pub open spec fn spec_step(d: Real, voxel_size: Real) -> Real {
    let s = d + voxel_size;
    if s > Real::MAX {
        Real::MAX
    } else if s < Real::MIN {
        Real::MIN
    } else {
        s as Real
    }
}

/// The distance one voxel further.
pub fn step(d: Real, voxel_size: Real) -> (r: Real)
    ensures
        r == spec_step(d, voxel_size),
{
    let s: i64 = d as i64 + voxel_size as i64;
    if s > Real::MAX as i64 {
        Real::MAX
    } else if s < Real::MIN as i64 {
        Real::MIN
    } else {
        s as Real
    }
}

/// Whether relaxing `cur` against `parent` writes to `cur`: the parent has
/// a distance, `cur` is no site, and `cur` has no distance yet or a larger
/// one than the parent's plus one voxel.
pub open spec fn relax_changes(parent: Esdf, cur: Esdf, voxel_size: Real) -> bool {
    &&& parent.is_fixed()
    &&& !cur.is_observed()
    &&& (!cur.is_fixed() || cur.distance > spec_step(parent.distance, voxel_size))
}

/// The voxel `cur` after it has been relaxed against `parent`, the voxel
/// before it on the way of a sweep or across a face. Where the relaxation
/// writes, `cur` takes the parent's distance plus one voxel and the
/// parent's site, and becomes fixed.
pub open spec fn spec_relax(parent: Esdf, cur: Esdf, voxel_size: Real) -> Esdf {
    if relax_changes(parent, cur, voxel_size) {
        Esdf {
            distance: spec_step(parent.distance, voxel_size),
            flags: if cur.is_fixed() {
                cur.flags
            } else {
                EsdfFlags { bits: cur.flags.bits | (FIXED | HAS_SITE_INDEX) }
            },
            site_block_index: parent.site_block_index,
        }
    } else {
        cur
    }
}

/// Relaxes `cur` against `parent` and says whether it wrote.
pub fn relax(parent: &Esdf, cur: &mut Esdf, voxel_size: Real) -> (changed: bool)
    ensures
        *final(cur) == spec_relax(*parent, *old(cur), voxel_size),
        changed == relax_changes(*parent, *old(cur), voxel_size),
{
    let parent_fixed = parent.flags.contains(EsdfFlags { bits: FIXED });
    let observed = cur.flags.contains(EsdfFlags { bits: OBSERVED });
    if parent_fixed && !observed {
        let d = step(parent.distance, voxel_size);
        if !cur.flags.contains(EsdfFlags { bits: FIXED }) {
            cur.distance = d;
            cur.flags.insert(EsdfFlags { bits: FIXED | HAS_SITE_INDEX });
            cur.site_block_index = parent.site_block_index;
            true
        } else if cur.distance > d {
            cur.distance = d;
            cur.site_block_index = parent.site_block_index;
            true
        } else {
            false
        }
    } else {
        false
    }
}

/// The voxel at the place `w` of the line `(u, v)` of a direction. For the
/// x axis a line is a row of constant `z = u` and `y = v`; for the y axis
/// `z = u` and `x = v` are constant; for the z axis `y = u` and `x = v`.
pub open spec fn axis_voxel<const VPS: usize>(dir: OpDir, u: int, v: int, w: int) -> VoxelIndex<VPS> {
    match dir {
        OpDir::XPlus | OpDir::XMinus => VoxelIndex { x: w as usize, y: v as usize, z: u as usize },
        OpDir::YPlus | OpDir::YMinus => VoxelIndex { x: v as usize, y: w as usize, z: u as usize },
        OpDir::ZPlus | OpDir::ZMinus => VoxelIndex { x: v as usize, y: u as usize, z: w as usize },
    }
}

/// The position in the block's array of the voxel at the place `w` of the
/// line `(u, v)`.
pub open spec fn axis_lin<const VPS: usize>(dir: OpDir, u: int, v: int, w: int) -> int {
    axis_voxel::<VPS>(dir, u, v, w).spec_linear_index()
}

/// The line `(u, v)` of a direction that a voxel lies on, and its place `w`
/// on that line.
pub open spec fn axis_coords<const VPS: usize>(dir: OpDir, p: VoxelIndex<VPS>) -> (int, int, int) {
    match dir {
        OpDir::XPlus | OpDir::XMinus => (p.z as int, p.y as int, p.x as int),
        OpDir::YPlus | OpDir::YMinus => (p.z as int, p.x as int, p.y as int),
        OpDir::ZPlus | OpDir::ZMinus => (p.y as int, p.x as int, p.z as int),
    }
}

/// The voxel at the place `w` of the line `(u, v)` of a direction.
pub fn voxel_on_axis<const VPS: usize>(dir: OpDir, u: usize, v: usize, w: usize) -> (p: VoxelIndex<VPS>)
    requires
        u < VPS,
        v < VPS,
        w < VPS,
    ensures
        p == axis_voxel::<VPS>(dir, u as int, v as int, w as int),
        p.wf(),
{
    match dir {
        OpDir::XPlus | OpDir::XMinus => VoxelIndex { x: w, y: v, z: u },
        OpDir::YPlus | OpDir::YMinus => VoxelIndex { x: v, y: w, z: u },
        OpDir::ZPlus | OpDir::ZMinus => VoxelIndex { x: v, y: u, z: w },
    }
}

/// A place on a line lies inside the block's array, and the array position
/// leads back to the line and the place.
pub proof fn lemma_axis_round_trip<const VPS: usize>(dir: OpDir, u: int, v: int, w: int)
    requires
        0 <= u < VPS,
        0 <= v < VPS,
        0 <= w < VPS,
    ensures
        axis_voxel::<VPS>(dir, u, v, w).wf(),
        0 <= axis_lin::<VPS>(dir, u, v, w) < VPS * VPS * VPS,
        axis_coords(dir, VoxelIndex::<VPS>::spec_from_linear(axis_lin::<VPS>(dir, u, v, w))) == (
            u,
            v,
            w,
        ),
{
    lemma_linear_index_round_trip(axis_voxel::<VPS>(dir, u, v, w));
}

/// Every position of the block's array is a place on one line of a
/// direction.
pub proof fn lemma_axis_of_linear<const VPS: usize>(dir: OpDir, i: int)
    requires
        0 < VPS,
        0 <= i < VPS * VPS * VPS,
    ensures
        ({
            let (u, v, w) = axis_coords(dir, VoxelIndex::<VPS>::spec_from_linear(i));
            &&& 0 <= u < VPS
            &&& 0 <= v < VPS
            &&& 0 <= w < VPS
            &&& axis_lin::<VPS>(dir, u, v, w) == i
        }),
{
    lemma_from_linear_round_trip::<VPS>(i);
    let p = VoxelIndex::<VPS>::spec_from_linear(i);
    let (u, v, w) = axis_coords(dir, p);
    assert(axis_voxel::<VPS>(dir, u, v, w) == p);
}

} // verus!
