//! Propagations: the relaxation of the voxels at a face of a block against
//! the voxels that face them in the block next to it.

use vstd::prelude::*;
use crate::index::{side_is_valid, spec_neighbour, BlockIndex, VoxelIndex};
use crate::relax::{
    axis_coords,
    axis_lin,
    lemma_axis_of_linear,
    lemma_axis_round_trip,
    relax,
    relax_changes,
    spec_relax,
    voxel_on_axis,
    OpDir,
};
use crate::voxel::{Esdf, Real};

verus! {

impl OpDir {
    /// The place of the direction's step in the table of neighbour steps.
    pub open spec fn spec_table_index(self) -> int {
        match self {
            OpDir::XMinus => 0,
            OpDir::XPlus => 1,
            OpDir::YMinus => 2,
            OpDir::YPlus => 3,
            OpDir::ZMinus => 4,
            OpDir::ZPlus => 5,
        }
    }

    /// The place of the direction's step in the table of neighbour steps.
    pub fn table_index(self) -> (k: usize)
        ensures
            k == self.spec_table_index(),
            k < 6,
    {
        match self {
            OpDir::XMinus => 0,
            OpDir::XPlus => 1,
            OpDir::YMinus => 2,
            OpDir::YPlus => 3,
            OpDir::ZMinus => 4,
            OpDir::ZPlus => 5,
        }
    }
}

/// The block next to `b` in a direction. Coordinates wrap at the limits of
/// their type.
pub open spec fn neighbour_block<const VPS: usize>(b: BlockIndex<VPS>, dir: OpDir) -> BlockIndex<VPS> {
    spec_neighbour(b, dir.spec_table_index()).index
}

/// The place on a line, in the pivot block, of the voxels at the face
/// through which a direction leaves the block.
pub open spec fn pivot_side<const VPS: usize>(dir: OpDir) -> int {
    if dir.is_forward() {
        VPS - 1
    } else {
        0
    }
}

/// The place on a line, in the neighbour block, of the voxels at the face
/// through which a direction enters the block.
pub open spec fn neighbour_side<const VPS: usize>(dir: OpDir) -> int {
    if dir.is_forward() {
        0
    } else {
        VPS - 1
    }
}

/// The voxels of a block at the face through which a direction leaves it:
/// the voxel of the line `(u, v)` stands at `u * VPS + v`.
pub open spec fn spec_face<const VPS: usize>(voxels: Seq<Esdf>, dir: OpDir) -> Seq<Esdf> {
    Seq::new(
        (VPS * VPS) as nat,
        |k: int| voxels[axis_lin::<VPS>(dir, k / (VPS as int), k % (VPS as int), pivot_side::<VPS>(dir))],
    )
}

/// The voxels of the neighbour block after the distances of the pivot
/// block's face have crossed into it: each voxel at the facing side is
/// relaxed against the voxel of the pivot's face on the same line.
pub open spec fn propagated_block<const VPS: usize>(
    face: Seq<Esdf>,
    voxels: Seq<Esdf>,
    dir: OpDir,
    voxel_size: Real,
) -> Seq<Esdf> {
    Seq::new(
        voxels.len(),
        |i: int|
            {
                let (u, v, w) = axis_coords(dir, VoxelIndex::<VPS>::spec_from_linear(i));
                if w == neighbour_side::<VPS>(dir) {
                    spec_relax(face[u * VPS + v], voxels[i], voxel_size)
                } else {
                    voxels[i]
                }
            },
    )
}

/// Whether the propagation writes to the voxel of the neighbour block on
/// the line `(u, v)`.
pub open spec fn line_changes<const VPS: usize>(
    face: Seq<Esdf>,
    voxels: Seq<Esdf>,
    dir: OpDir,
    voxel_size: Real,
    u: int,
    v: int,
) -> bool {
    relax_changes(
        face[u * VPS + v],
        voxels[axis_lin::<VPS>(dir, u, v, neighbour_side::<VPS>(dir))],
        voxel_size,
    )
}

/// Whether the propagation writes to a voxel of the neighbour block on a
/// line before `(u0, v0)`.
pub open spec fn changes_before<const VPS: usize>(
    face: Seq<Esdf>,
    voxels: Seq<Esdf>,
    dir: OpDir,
    voxel_size: Real,
    u0: int,
    v0: int,
) -> bool {
    exists|u: int, v: int|
        0 <= u < VPS && 0 <= v < VPS && (u < u0 || (u == u0 && v < v0)) && #[trigger] line_changes::<VPS>(
            face,
            voxels,
            dir,
            voxel_size,
            u,
            v,
        )
}

/// Whether the propagation writes to any voxel of the neighbour block.
pub open spec fn propagation_changes<const VPS: usize>(
    face: Seq<Esdf>,
    voxels: Seq<Esdf>,
    dir: OpDir,
    voxel_size: Real,
) -> bool {
    changes_before::<VPS>(face, voxels, dir, voxel_size, VPS as int, 0)
}

/// The place of the line `(u, v)` in a face.
pub proof fn lemma_face_place(u: int, v: int, n: int)
    requires
        0 <= u < n,
        0 <= v < n,
    ensures
        0 <= u * n + v < n * n,
        (u * n + v) / n == u,
        (u * n + v) % n == v,
{
    assert(0 <= u * n <= (n - 1) * n) by (nonlinear_arith)
        requires
            0 <= u < n,
    ;
    assert((n - 1) * n == n * n - n) by (nonlinear_arith);
    assert(u * n == n * u) by (nonlinear_arith);
    vstd::arithmetic::div_mod::lemma_fundamental_div_mod_converse(u * n + v, n, u, v);
}

/// The voxels of a block at the face through which a direction leaves it.
pub fn face_of<const VPS: usize>(voxels: &[Esdf], dir: OpDir) -> (face: Vec<Esdf>)
    requires
        side_is_valid(VPS),
        voxels@.len() == VPS * VPS * VPS,
    ensures
        face@ == spec_face::<VPS>(voxels@, dir),
{
    let side: usize = if dir.is_forward() {
        VPS - 1
    } else {
        0
    };
    let mut face: Vec<Esdf> = Vec::new();
    let mut u: usize = 0;
    while u < VPS
        invariant
            side_is_valid(VPS),
            voxels@.len() == VPS * VPS * VPS,
            side == pivot_side::<VPS>(dir),
            u <= VPS,
            face@.len() == u * VPS,
            forall|k: int|
                0 <= k < face@.len() ==> face@[k] == voxels@[axis_lin::<VPS>(
                    dir,
                    k / (VPS as int),
                    k % (VPS as int),
                    side as int,
                )],
        decreases VPS - u,
    {
        let mut v: usize = 0;
        while v < VPS
            invariant
                side_is_valid(VPS),
                voxels@.len() == VPS * VPS * VPS,
                side == pivot_side::<VPS>(dir),
                u < VPS,
                v <= VPS,
                face@.len() == u * VPS + v,
                forall|k: int|
                    0 <= k < face@.len() ==> face@[k] == voxels@[axis_lin::<VPS>(
                        dir,
                        k / (VPS as int),
                        k % (VPS as int),
                        side as int,
                    )],
            decreases VPS - v,
        {
            let p = voxel_on_axis::<VPS>(dir, u, v, side);
            let i = p.linear_index();
            proof {
                lemma_face_place(u as int, v as int, VPS as int);
            }
            face.push(voxels[i]);
            v += 1;
        }
        proof {
            assert(u * VPS + VPS == (u + 1) * VPS) by (nonlinear_arith);
        }
        u += 1;
    }
    proof {
        assert(face@.len() == VPS * VPS);
        assert(face@ =~= spec_face::<VPS>(voxels@, dir));
    }
    face
}

/// Which places of the neighbour block a propagation has dealt with when it
/// stands at the line `(u0, v0)`, and what they hold.
pub open spec fn propagate_state<const VPS: usize>(
    now: Seq<Esdf>,
    before: Seq<Esdf>,
    face: Seq<Esdf>,
    dir: OpDir,
    voxel_size: Real,
    u0: int,
    v0: int,
) -> bool {
    &&& now.len() == before.len()
    &&& forall|u: int, v: int, w: int|
        0 <= u < VPS && 0 <= v < VPS && 0 <= w < VPS ==> now[#[trigger] axis_lin::<VPS>(dir, u, v, w)]
            == (if w == neighbour_side::<VPS>(dir) && (u < u0 || (u == u0 && v < v0)) {
            spec_relax(face[u * VPS + v], before[axis_lin::<VPS>(dir, u, v, w)], voxel_size)
        } else {
            before[axis_lin::<VPS>(dir, u, v, w)]
        })
}

/// Lets the distances of a pivot block's face cross into the voxels of the
/// neighbour block, and says whether any voxel was written.
pub fn propagate_voxels<const VPS: usize>(
    face: &[Esdf],
    voxels: &mut [Esdf],
    dir: OpDir,
    voxel_size: Real,
) -> (dirty: bool)
    requires
        side_is_valid(VPS),
        face@.len() == VPS * VPS,
        old(voxels)@.len() == VPS * VPS * VPS,
    ensures
        final(voxels)@ == propagated_block::<VPS>(face@, old(voxels)@, dir, voxel_size),
        dirty == propagation_changes::<VPS>(face@, old(voxels)@, dir, voxel_size),
{
    let ghost before = voxels@;
    let side: usize = if dir.is_forward() {
        0
    } else {
        VPS - 1
    };
    let mut dirty = false;
    let mut u: usize = 0;
    while u < VPS
        invariant
            side_is_valid(VPS),
            face@.len() == VPS * VPS,
            before.len() == VPS * VPS * VPS,
            side == neighbour_side::<VPS>(dir),
            u <= VPS,
            propagate_state::<VPS>(voxels@, before, face@, dir, voxel_size, u as int, 0),
            dirty == changes_before::<VPS>(face@, before, dir, voxel_size, u as int, 0),
        decreases VPS - u,
    {
        let mut v: usize = 0;
        while v < VPS
            invariant
                side_is_valid(VPS),
                face@.len() == VPS * VPS,
                before.len() == VPS * VPS * VPS,
                side == neighbour_side::<VPS>(dir),
                u < VPS,
                v <= VPS,
                propagate_state::<VPS>(voxels@, before, face@, dir, voxel_size, u as int, v as int),
                dirty == changes_before::<VPS>(face@, before, dir, voxel_size, u as int, v as int),
            decreases VPS - v,
        {
            let p = voxel_on_axis::<VPS>(dir, u, v, side);
            let ni = p.linear_index();
            proof {
                lemma_face_place(u as int, v as int, VPS as int);
                lemma_axis_round_trip::<VPS>(dir, u as int, v as int, side as int);
                assert(0 <= u * VPS && VPS * VPS <= VPS * VPS * VPS) by (nonlinear_arith)
                    requires
                        VPS >= 1,
                        u >= 0,
                ;
            }
            let ghost now = voxels@;
            let pivot = face[u * VPS + v];
            let changed = relax(&pivot, &mut voxels[ni], voxel_size);
            proof {
                assert(now[ni as int] == before[ni as int]);
                assert(changed == line_changes::<VPS>(face@, before, dir, voxel_size, u as int, v as int));
                assert forall|u1: int, v1: int, w1: int|
                    0 <= u1 < VPS && 0 <= v1 < VPS && 0 <= w1 < VPS implies voxels@[#[trigger] axis_lin::<
                    VPS,
                >(dir, u1, v1, w1)] == (if w1 == neighbour_side::<VPS>(dir) && (u1 < u || (u1 == u
                    && v1 < v + 1)) {
                    spec_relax(face@[u1 * VPS + v1], before[axis_lin::<VPS>(dir, u1, v1, w1)], voxel_size)
                } else {
                    before[axis_lin::<VPS>(dir, u1, v1, w1)]
                }) by {
                    lemma_axis_round_trip::<VPS>(dir, u1, v1, w1);
                    lemma_face_place(u1, v1, VPS as int);
                    if axis_lin::<VPS>(dir, u1, v1, w1) == ni {
                        assert(u1 == u && v1 == v && w1 == side);
                    }
                }
                let old_dirty = changes_before::<VPS>(face@, before, dir, voxel_size, u as int, v as int);
                let new_dirty = changes_before::<VPS>(face@, before, dir, voxel_size, u as int, v + 1);
                if old_dirty {
                    let (u1, v1) = choose|u1: int, v1: int|
                        0 <= u1 < VPS && 0 <= v1 < VPS && (u1 < u || (u1 == u && v1 < v))
                            && #[trigger] line_changes::<VPS>(face@, before, dir, voxel_size, u1, v1);
                    assert(line_changes::<VPS>(face@, before, dir, voxel_size, u1, v1));
                    assert(new_dirty);
                }
                if changed {
                    assert(line_changes::<VPS>(face@, before, dir, voxel_size, u as int, v as int));
                    assert(new_dirty);
                }
                if new_dirty {
                    let (u1, v1) = choose|u1: int, v1: int|
                        0 <= u1 < VPS && 0 <= v1 < VPS && (u1 < u || (u1 == u && v1 < v + 1))
                            && #[trigger] line_changes::<VPS>(face@, before, dir, voxel_size, u1, v1);
                    if u1 == u && v1 == v {
                        assert(changed);
                    } else {
                        assert(line_changes::<VPS>(face@, before, dir, voxel_size, u1, v1));
                        assert(old_dirty);
                    }
                }
            }
            dirty = dirty || changed;
            v += 1;
        }
        proof {
            let a = changes_before::<VPS>(face@, before, dir, voxel_size, u as int, VPS as int);
            let b = changes_before::<VPS>(face@, before, dir, voxel_size, u + 1, 0);
            if a {
                let (u1, v1) = choose|u1: int, v1: int|
                    0 <= u1 < VPS && 0 <= v1 < VPS && (u1 < u || (u1 == u && v1 < VPS))
                        && #[trigger] line_changes::<VPS>(face@, before, dir, voxel_size, u1, v1);
                assert(line_changes::<VPS>(face@, before, dir, voxel_size, u1, v1));
                assert(b);
            }
            if b {
                let (u1, v1) = choose|u1: int, v1: int|
                    0 <= u1 < VPS && 0 <= v1 < VPS && (u1 < u + 1 || (u1 == u + 1 && v1 < 0))
                        && #[trigger] line_changes::<VPS>(face@, before, dir, voxel_size, u1, v1);
                assert(line_changes::<VPS>(face@, before, dir, voxel_size, u1, v1));
                assert(a);
            }
        }
        u += 1;
    }
    proof {
        let after = voxels@;
        let target = propagated_block::<VPS>(face@, before, dir, voxel_size);
        assert forall|i: int| 0 <= i < after.len() implies after[i] == target[i] by {
            lemma_axis_of_linear::<VPS>(dir, i);
            let (u1, v1, w1) = axis_coords(dir, VoxelIndex::<VPS>::spec_from_linear(i));
            assert(after[axis_lin::<VPS>(dir, u1, v1, w1)] == target[i]);
        }
        assert(after =~= target);
    }
    dirty
}

} // verus!
