//! Sweeps: one pass through a block that relaxes each voxel against the
//! voxel before it on its line, in one direction along one axis.

use vstd::prelude::*;
use crate::index::{side_is_valid, VoxelIndex};
use crate::relax::{
    axis_coords,
    axis_lin,
    lemma_axis_of_linear,
    lemma_axis_round_trip,
    relax,
    spec_relax,
    voxel_on_axis,
    OpDir,
};
use crate::voxel::{Esdf, Real};

verus! {

/// The numbers from `a` to `b`, both included: upwards when `a <= b`,
/// downwards otherwise.
pub open spec fn spec_range_chain(a: usize, b: usize) -> Seq<usize> {
    if a <= b {
        Seq::new((b - a + 1) as nat, |k: int| (a + k) as usize)
    } else {
        Seq::new((a - b + 1) as nat, |k: int| (a - k) as usize)
    }
}

/// The numbers from `a` to `b`, both included: upwards when `a <= b`,
/// downwards otherwise.
pub fn create_range_chain(a: usize, b: usize) -> (chain: Vec<usize>)
    requires
        a < usize::MAX,
        b < usize::MAX,
    ensures
        chain@ == spec_range_chain(a, b),
{
    let mut chain: Vec<usize> = Vec::new();
    if a <= b {
        let mut w: usize = a;
        while w <= b
            invariant
                a <= w <= b + 1,
                b < usize::MAX,
                chain@.len() == w - a,
                forall|k: int| 0 <= k < chain@.len() ==> chain@[k] == a + k,
            decreases b + 1 - w,
        {
            chain.push(w);
            w += 1;
        }
    } else {
        let mut w: usize = a;
        while w > b
            invariant
                b <= w <= a,
                chain@.len() == a - w,
                forall|k: int| 0 <= k < chain@.len() ==> chain@[k] == a - k,
            decreases w,
        {
            chain.push(w);
            w -= 1;
        }
        chain.push(b);
    }
    assert(chain@ =~= spec_range_chain(a, b));
    chain
}

/// The voxel at the place `w` of the line `(u, v)` after a sweep of the
/// block in a direction. The first voxel of the line stays as it is; each
/// later one is relaxed against the voxel before it, as the sweep left it.
pub open spec fn swept_voxel<const VPS: usize>(
    voxels: Seq<Esdf>,
    dir: OpDir,
    voxel_size: Real,
    u: int,
    v: int,
    w: int,
) -> Esdf
    decreases
            (if dir.is_forward() {
                w
            } else {
                VPS - 1 - w
            }),
{
    let cur = voxels[axis_lin::<VPS>(dir, u, v, w)];
    if dir.is_forward() {
        if w <= 0 {
            cur
        } else {
            spec_relax(swept_voxel::<VPS>(voxels, dir, voxel_size, u, v, w - 1), cur, voxel_size)
        }
    } else {
        if w >= VPS - 1 {
            cur
        } else {
            spec_relax(swept_voxel::<VPS>(voxels, dir, voxel_size, u, v, w + 1), cur, voxel_size)
        }
    }
}

/// The voxels of a block after a sweep in a direction.
pub open spec fn swept_block<const VPS: usize>(voxels: Seq<Esdf>, dir: OpDir, voxel_size: Real) -> Seq<
    Esdf,
> {
    Seq::new(
        voxels.len(),
        |i: int|
            {
                let (u, v, w) = axis_coords(dir, VoxelIndex::<VPS>::spec_from_linear(i));
                swept_voxel::<VPS>(voxels, dir, voxel_size, u, v, w)
            },
    )
}

/// Which places of the block a sweep has dealt with when it stands at the
/// line `(u0, v0)` and has made `k` steps on it.
pub open spec fn sweep_done<const VPS: usize>(
    dir: OpDir,
    u0: int,
    v0: int,
    k: int,
    u: int,
    v: int,
    w: int,
) -> bool {
    u < u0 || (u == u0 && (v < v0 || (v == v0 && (if dir.is_forward() {
        w <= k
    } else {
        w >= VPS - 1 - k
    }))))
}

/// The voxels of a block in the middle of a sweep: the places that have
/// been dealt with hold the swept voxel, the others the voxel from before
/// the sweep.
pub open spec fn sweep_state<const VPS: usize>(
    now: Seq<Esdf>,
    before: Seq<Esdf>,
    dir: OpDir,
    voxel_size: Real,
    u0: int,
    v0: int,
    k: int,
) -> bool {
    &&& now.len() == before.len()
    &&& forall|u: int, v: int, w: int|
        0 <= u < VPS && 0 <= v < VPS && 0 <= w < VPS ==> now[#[trigger] axis_lin::<VPS>(dir, u, v, w)]
            == (if sweep_done::<VPS>(dir, u0, v0, k, u, v, w) {
            swept_voxel::<VPS>(before, dir, voxel_size, u, v, w)
        } else {
            before[axis_lin::<VPS>(dir, u, v, w)]
        })
}

/// Sweeps the voxels of one block in a direction.
pub fn sweep_voxels<const VPS: usize>(voxels: &mut [Esdf], dir: OpDir, voxel_size: Real)
    requires
        side_is_valid(VPS),
        old(voxels)@.len() == VPS * VPS * VPS,
    ensures
        final(voxels)@ == swept_block::<VPS>(old(voxels)@, dir, voxel_size),
{
    let ghost before = voxels@;
    let forward = dir.is_forward();
    let chain: Vec<usize> = if VPS < 2 {
        Vec::new()
    } else if forward {
        create_range_chain(1, VPS - 1)
    } else {
        create_range_chain(VPS - 2, 0)
    };
    assert(VPS >= 2 ==> chain@.len() == VPS - 1);
    assert(VPS < 2 ==> chain@.len() == 0);
    let mut u: usize = 0;
    while u < VPS
        invariant
            side_is_valid(VPS),
            u <= VPS,
            forward == dir.is_forward(),
            chain@.len() == VPS - 1,
            forall|k: int|
                0 <= k < chain@.len() ==> chain@[k] == (if forward {
                    k + 1
                } else {
                    VPS - 2 - k
                }),
            before.len() == VPS * VPS * VPS,
            sweep_state::<VPS>(voxels@, before, dir, voxel_size, u as int, 0, 0),
        decreases VPS - u,
    {
        let mut v: usize = 0;
        while v < VPS
            invariant
                side_is_valid(VPS),
                u < VPS,
                v <= VPS,
                forward == dir.is_forward(),
                chain@.len() == VPS - 1,
                forall|k: int|
                    0 <= k < chain@.len() ==> chain@[k] == (if forward {
                        k + 1
                    } else {
                        VPS - 2 - k
                    }),
                before.len() == VPS * VPS * VPS,
                sweep_state::<VPS>(voxels@, before, dir, voxel_size, u as int, v as int, 0),
            decreases VPS - v,
        {
            let mut k: usize = 0;
            while k < chain.len()
                invariant
                    side_is_valid(VPS),
                    u < VPS,
                    v < VPS,
                    k <= chain@.len(),
                    forward == dir.is_forward(),
                    chain@.len() == VPS - 1,
                    forall|k: int|
                        0 <= k < chain@.len() ==> chain@[k] == (if forward {
                            k + 1
                        } else {
                            VPS - 2 - k
                        }),
                    before.len() == VPS * VPS * VPS,
                    sweep_state::<VPS>(voxels@, before, dir, voxel_size, u as int, v as int, k as int),
                decreases chain@.len() - k,
            {
                let w = chain[k];
                let parent_w = if forward {
                    w - 1
                } else {
                    w + 1
                };
                let voxel_index = voxel_on_axis::<VPS>(dir, u, v, w);
                let parent_index = voxel_on_axis::<VPS>(dir, u, v, parent_w);
                let ci = voxel_index.linear_index();
                let pi = parent_index.linear_index();
                let ghost now = voxels@;
                let parent = voxels[pi];
                let _ = relax(&parent, &mut voxels[ci], voxel_size);
                proof {
                    lemma_axis_round_trip::<VPS>(dir, u as int, v as int, w as int);
                    lemma_axis_round_trip::<VPS>(dir, u as int, v as int, parent_w as int);
                    assert(now[pi as int] == swept_voxel::<VPS>(
                        before,
                        dir,
                        voxel_size,
                        u as int,
                        v as int,
                        parent_w as int,
                    ));
                    assert(now[ci as int] == before[ci as int]);
                    assert forall|u1: int, v1: int, w1: int|
                        0 <= u1 < VPS && 0 <= v1 < VPS && 0 <= w1 < VPS implies voxels@[#[trigger] axis_lin::<
                        VPS,
                    >(dir, u1, v1, w1)] == (if sweep_done::<VPS>(
                        dir,
                        u as int,
                        v as int,
                        k + 1,
                        u1,
                        v1,
                        w1,
                    ) {
                        swept_voxel::<VPS>(before, dir, voxel_size, u1, v1, w1)
                    } else {
                        before[axis_lin::<VPS>(dir, u1, v1, w1)]
                    }) by {
                        lemma_axis_round_trip::<VPS>(dir, u1, v1, w1);
                        if axis_lin::<VPS>(dir, u1, v1, w1) == ci {
                            assert(u1 == u && v1 == v && w1 == w);
                        }
                    }
                }
                k += 1;
            }
            proof {
                assert forall|u1: int, v1: int, w1: int|
                    0 <= u1 < VPS && 0 <= v1 < VPS && 0 <= w1 < VPS implies voxels@[#[trigger] axis_lin::<
                    VPS,
                >(dir, u1, v1, w1)] == (if sweep_done::<VPS>(dir, u as int, v + 1, 0, u1, v1, w1) {
                    swept_voxel::<VPS>(before, dir, voxel_size, u1, v1, w1)
                } else {
                    before[axis_lin::<VPS>(dir, u1, v1, w1)]
                }) by {
                    assert(sweep_done::<VPS>(dir, u as int, v as int, k as int, u1, v1, w1) || !sweep_done::<
                        VPS,
                    >(dir, u as int, v as int, k as int, u1, v1, w1));
                }
            }
            v += 1;
        }
        proof {
            assert forall|u1: int, v1: int, w1: int|
                0 <= u1 < VPS && 0 <= v1 < VPS && 0 <= w1 < VPS implies voxels@[#[trigger] axis_lin::<
                VPS,
            >(dir, u1, v1, w1)] == (if sweep_done::<VPS>(dir, u + 1, 0, 0, u1, v1, w1) {
                swept_voxel::<VPS>(before, dir, voxel_size, u1, v1, w1)
            } else {
                before[axis_lin::<VPS>(dir, u1, v1, w1)]
            }) by {
                assert(sweep_done::<VPS>(dir, u as int, v as int, 0, u1, v1, w1) || !sweep_done::<VPS>(
                    dir,
                    u as int,
                    v as int,
                    0,
                    u1,
                    v1,
                    w1,
                ));
            }
        }
        u += 1;
    }
    proof {
        let after = voxels@;
        let target = swept_block::<VPS>(before, dir, voxel_size);
        assert forall|i: int| 0 <= i < after.len() implies after[i] == target[i] by {
            lemma_axis_of_linear::<VPS>(dir, i);
            let (u1, v1, w1) = axis_coords(dir, VoxelIndex::<VPS>::spec_from_linear(i));
            assert(after[axis_lin::<VPS>(dir, u1, v1, w1)] == swept_voxel::<VPS>(
                before,
                dir,
                voxel_size,
                u1,
                v1,
                w1,
            ));
        }
        assert(after =~= target);
    }
}

} // verus!
