//! The distance field integrator for an accelerator. An accelerator sweeps
//! all dirty blocks at once and lets the distances of all of them cross
//! their faces at once; this module prepares what is sent to it for each of
//! the two steps and takes over what comes back. The driver of the
//! accelerator runs the loop: sweep, propagate, and again while blocks are
//! dirty.

use vstd::prelude::*;
use crate::block_set::BlockSet;
use crate::esdf::MissingBlock;
use crate::index::{spec_neighbour, BlockIndex, FACE_NEIGHBOUR_COUNT};

use crate::layer::{push_missing, Layer};
use crate::prepare::{
    can_update,
    first_missing_block,
    is_first_missing,
    plan_update,
    rebuild,
    spec_cleared,
    spec_mirrored,
    spec_prepared,
};
use crate::progress::ProgressCallback;
use crate::settle::{all_allocated, block_settles, layer_settles, voxel_settles};
use crate::voxel::{Esdf, EsdfFlags, FIXED, OBSERVED, Tsdf, UPDATED};
use crate::wire::BlockInfo;

verus! {

/// The index that stands for "no block" in the list of block indices of a
/// propagation.
pub const INVALID_BLOCK: u32 = 0xffff_ffff;

/// The number of entries that each dirty block has in the list of block
/// indices of a propagation: the block itself and its six face neighbours.
pub const WORKGROUP_ENTRIES: usize = 7;

/// The selector of a propagation along x.
pub const PROPAGATE_X: u32 = 1;

/// The selector of a propagation along y.
pub const PROPAGATE_Y: u32 = 3;

/// The selector of a propagation along z.
pub const PROPAGATE_Z: u32 = 5;

/// How long a viewer may show the state after the report of one step of
/// the accelerator, in milliseconds.
pub const ACCELERATOR_REPORT_MILLIS: u64 = 1000;

/// Settings of the integrator. There are none so far.
#[derive(Debug)]
pub struct EsdfIntegratorConfig {}

impl Default for EsdfIntegratorConfig {
    fn default() -> Self {
        EsdfIntegratorConfig {}
    }
}

/// Why what an accelerator sent back was not taken over.
#[derive(Debug, Clone, Copy, PartialEq, Eq, Structural)]
pub enum GpuSubmissionFailure {
    /// The number of voxels or of block states is not the number that was
    /// sent.
    WrongLength,
    /// A voxel that came back is not what the voxel that was sent can have
    /// settled to: a site was touched, a fixed voxel is no longer fixed, or
    /// a distance has grown.
    NotSettled,
}

/// What is sent to the accelerator for a propagation: the blocks of
/// interest, which are the dirty blocks and their allocated face
/// neighbours, in walking order; their voxels, block after block; and for
/// each dirty block the places, among the blocks of interest, of the block
/// and of its six face neighbours.
#[derive(Debug)]
pub struct PropagateJob<const VPS: usize> {
    pub blocks: BlockSet<VPS>,
    pub voxels: Vec<Esdf>,
    pub workgroup_block_indices: Vec<u32>,
}

/// The distance field integrator that works with an accelerator.
#[derive(Debug)]
pub struct EsdfIntegrator {
    config: EsdfIntegratorConfig,
}

/// The voxels of the given blocks, block after block.
pub open spec fn is_gathered<const VPS: usize>(
    layer: Map<BlockIndex<VPS>, Seq<Esdf>>,
    blocks: Seq<BlockIndex<VPS>>,
    voxels: Seq<Esdf>,
) -> bool {
    &&& voxels.len() == blocks.len() * (VPS * VPS * VPS)
    &&& forall|k: int, i: int|
        0 <= k < blocks.len() && 0 <= i < VPS * VPS * VPS ==> #[trigger] voxels[k * (VPS * VPS * VPS)
            + i] == layer[blocks[k]][i]
}

/// The voxels of the `k`-th block in a sequence that holds the voxels of
/// blocks, block after block.
pub open spec fn chunk_of<const VPS: usize>(voxels: Seq<Esdf>, k: int) -> Seq<Esdf> {
    voxels.subrange(k * (VPS * VPS * VPS), k * (VPS * VPS * VPS) + VPS * VPS * VPS)
}

/// Whether the block is a dirty block or shares a face with one.
pub open spec fn is_of_interest<const VPS: usize>(dirty: Seq<BlockIndex<VPS>>, b: BlockIndex<VPS>) -> bool {
    dirty.contains(b) || exists|d: BlockIndex<VPS>, k: int|
        dirty.contains(d) && 0 <= k < FACE_NEIGHBOUR_COUNT && (#[trigger] spec_neighbour(d, k)).index == b
}

/// The place of a block among the blocks of interest as the accelerator
/// gets it: the sentinel if the block is not among them.
pub open spec fn spec_slot<const VPS: usize>(blocks: Seq<BlockIndex<VPS>>, b: BlockIndex<VPS>) -> u32 {
    if blocks.contains(b) && blocks.index_of(b) < INVALID_BLOCK {
        blocks.index_of(b) as u32
    } else {
        INVALID_BLOCK
    }
}

/// The block that the `j`-th entry of a dirty block stands for: the block
/// itself, then its face neighbours in the order of the table of steps.
pub open spec fn workgroup_block<const VPS: usize>(d: BlockIndex<VPS>, j: int) -> BlockIndex<VPS> {
    if j == 0 {
        d
    } else {
        spec_neighbour(d, j - 1).index
    }
}

/// The list of block indices of a propagation: seven entries for each dirty
/// block.
pub open spec fn is_workgroup_list<const VPS: usize>(
    blocks: Seq<BlockIndex<VPS>>,
    dirty: Seq<BlockIndex<VPS>>,
    list: Seq<u32>,
) -> bool {
    &&& list.len() == dirty.len() * 7
    &&& forall|i: int, j: int|
        0 <= i < dirty.len() && 0 <= j < 7 ==> #[trigger] list[i * 7 + j] == spec_slot(
            blocks,
            workgroup_block(dirty[i], j),
        )
}

/// Whether the accelerator reports the block at place `i` as updated.
pub open spec fn reported_updated(infos: Seq<BlockInfo>, i: int) -> bool {
    0 <= i < infos.len() && infos[i].flags.bits & UPDATED == UPDATED
}

/// Whether the voxel that came back is what the voxel that was sent can
/// have settled to.
pub fn settles(sent: &Esdf, back: &Esdf) -> (r: bool)
    ensures
        r == voxel_settles(*sent, *back),
{
    let sent_observed = sent.flags.contains(EsdfFlags { bits: OBSERVED });
    let back_observed = back.flags.contains(EsdfFlags { bits: OBSERVED });
    let sent_fixed = sent.flags.contains(EsdfFlags { bits: FIXED });
    let back_fixed = back.flags.contains(EsdfFlags { bits: FIXED });
    if sent_observed && !(*sent == *back) {
        return false;
    }
    if sent_observed != back_observed {
        return false;
    }
    if sent_fixed && !(back_fixed && back.distance <= sent.distance) {
        return false;
    }
    true
}

/// The voxels of the given allocated blocks, block after block.
pub fn gather_blocks<const VPS: usize>(
    esdf_layer: &Layer<Esdf, VPS>,
    blocks: &BlockSet<VPS>,
) -> (voxels: Vec<Esdf>)
    requires
        esdf_layer.wf(),
        all_allocated(blocks@, esdf_layer@),
    ensures
        is_gathered(esdf_layer@, blocks@, voxels@),
{
    let ghost n: int = VPS * VPS * VPS;
    let list = blocks.as_slice();
    let mut voxels: Vec<Esdf> = Vec::new();
    let mut k: usize = 0;
    while k < list.len()
        invariant
            esdf_layer.wf(),
            list@ == blocks@,
            all_allocated(blocks@, esdf_layer@),
            n == VPS * VPS * VPS,
            k <= list@.len(),
            voxels@.len() == k * n,
            forall|k1: int, i: int|
                0 <= k1 < k && 0 <= i < n ==> #[trigger] voxels@[k1 * n + i] == esdf_layer@[list@[k1]][i],
        decreases list@.len() - k,
    {
        proof {
            assert(list@.contains(list@[k as int]));
        }
        match esdf_layer.block_by_index(&list[k]) {
            Some(block) => {
                let source = block.as_slice();
                let ghost before = voxels@;
                let mut i: usize = 0;
                while i < source.len()
                    invariant
                        source@.len() == n,
                        i <= n,
                        voxels@.len() == k * n + i,
                        forall|j: int| 0 <= j < k * n ==> voxels@[j] == before[j],
                        before.len() == k * n,
                        forall|j: int| 0 <= j < i ==> voxels@[k * n + j] == source@[j],
                    decreases source@.len() - i,
                {
                    voxels.push(source[i]);
                    i += 1;
                }
                proof {
                    assert(k * n + n == (k + 1) * n) by (nonlinear_arith);
                    assert forall|k1: int, i1: int| 0 <= k1 < k + 1 && 0 <= i1 < n implies #[trigger] voxels@[k1
                        * n + i1] == esdf_layer@[list@[k1]][i1] by {
                        if k1 < k {
                            assert(k1 * n + i1 < k * n) by (nonlinear_arith)
                                requires
                                    k1 < k,
                                    0 <= i1 < n,
                                    0 <= k1,
                            ;
                            assert(voxels@[k1 * n + i1] == before[k1 * n + i1]);
                        }
                    }
                }
            },
            None => {},
        }
        k += 1;
    }
    voxels
}

/// Whether each voxel that came back is what the voxel of the layer at its
/// place can have settled to.
fn all_settle<const VPS: usize>(
    esdf_layer: &Layer<Esdf, VPS>,
    blocks: &BlockSet<VPS>,
    voxels: &[Esdf],
) -> (r: bool)
    requires
        esdf_layer.wf(),
        all_allocated(blocks@, esdf_layer@),
        voxels@.len() == blocks@.len() * (VPS * VPS * VPS),
    ensures
        r == (forall|k: int|
            0 <= k < blocks@.len() ==> block_settles(
                esdf_layer@[#[trigger] blocks@[k]],
                chunk_of::<VPS>(voxels@, k),
            )),
{
    let ghost n: int = VPS * VPS * VPS;
    let list = blocks.as_slice();
    let total = voxels.len();
    let mut k: usize = 0;
    while k < list.len()
        invariant
            esdf_layer.wf(),
            list@ == blocks@,
            all_allocated(blocks@, esdf_layer@),
            n == VPS * VPS * VPS,
            voxels@.len() == list@.len() * n,
            voxels@.len() <= usize::MAX,
            k <= list@.len(),
            forall|k1: int|
                0 <= k1 < k ==> block_settles(
                    esdf_layer@[#[trigger] list@[k1]],
                    chunk_of::<VPS>(voxels@, k1),
                ),
        decreases list@.len() - k,
    {
        proof {
            assert(list@.contains(list@[k as int]));
            assert(k * n + n <= list@.len() * n) by (nonlinear_arith)
                requires
                    k < list@.len(),
                    0 <= n,
            ;
            assert(0 <= k * n) by (nonlinear_arith)
                requires
                    0 <= n,
                    0 <= k,
            ;
        }
        match esdf_layer.block_by_index(&list[k]) {
            Some(block) => {
                let source = block.as_slice();
                let count = source.len();
                let base = k * count;
                let ghost chunk = chunk_of::<VPS>(voxels@, k as int);
                let mut i: usize = 0;
                while i < count
                    invariant
                        count == n,
                        source@.len() == n,
                        source@ == esdf_layer@[list@[k as int]],
                        list@ == blocks@,
                        k < list@.len(),
                        base == k * n,
                        base + n <= voxels@.len(),
                        voxels@.len() <= usize::MAX,
                        chunk == voxels@.subrange(k * n, k * n + n),
                        chunk == chunk_of::<VPS>(voxels@, k as int),
                        i <= n,
                        forall|j: int| 0 <= j < i ==> voxel_settles(#[trigger] source@[j], chunk[j]),
                    decreases count - i,
                {
                    if !settles(&source[i], &voxels[base + i]) {
                        proof {
                            assert(chunk[i as int] == voxels@[base + i]);
                            assert(!voxel_settles(source@[i as int], chunk[i as int]));
                            assert(!block_settles(
                                esdf_layer@[blocks@[k as int]],
                                chunk_of::<VPS>(voxels@, k as int),
                            ));
                        }
                        return false;
                    }
                    proof {
                        assert(chunk[i as int] == voxels@[base + i]);
                    }
                    i += 1;
                }
                assert(block_settles(esdf_layer@[list@[k as int]], chunk));
            },
            None => {},
        }
        k += 1;
    }
    true
}

/// Writes the voxels that came back into the given allocated blocks, block
/// after block.
fn scatter_blocks<const VPS: usize>(esdf_layer: &mut Layer<Esdf, VPS>, blocks: &BlockSet<VPS>, voxels: &[Esdf])
    requires
        old(esdf_layer).wf(),
        blocks.wf(),
        all_allocated(blocks@, old(esdf_layer)@),
        voxels@.len() == blocks@.len() * (VPS * VPS * VPS),
    ensures
        final(esdf_layer).wf(),
        final(esdf_layer).spec_indices() == old(esdf_layer).spec_indices(),
        final(esdf_layer).spec_voxel_size() == old(esdf_layer).spec_voxel_size(),
        forall|b: BlockIndex<VPS>|
            final(esdf_layer)@.contains_key(b) <==> old(esdf_layer)@.contains_key(b),
        forall|b: BlockIndex<VPS>|
            old(esdf_layer)@.contains_key(b) && !blocks@.contains(b) ==> final(esdf_layer)@[b] == old(esdf_layer)@[b],
        forall|k: int|
            0 <= k < blocks@.len() ==> final(esdf_layer)@[#[trigger] blocks@[k]] == chunk_of::<VPS>(
                voxels@,
                k,
            ),
{
    let ghost n: int = VPS * VPS * VPS;
    let ghost start = esdf_layer@;
    let list = blocks.as_slice();
    let total = voxels.len();
    let mut k: usize = 0;
    proof {
        crate::block_set::lemma_sorted_no_duplicates(blocks@);
    }
    while k < list.len()
        invariant
            esdf_layer.wf(),
            list@ == blocks@,
            list@.no_duplicates(),
            all_allocated(blocks@, start),
            n == VPS * VPS * VPS,
            voxels@.len() == list@.len() * n,
            voxels@.len() <= usize::MAX,
            k <= list@.len(),
            esdf_layer.spec_indices() == old(esdf_layer).spec_indices(),
            esdf_layer.spec_voxel_size() == old(esdf_layer).spec_voxel_size(),
            forall|b: BlockIndex<VPS>| esdf_layer@.contains_key(b) <==> start.contains_key(b),
            forall|b: BlockIndex<VPS>|
                start.contains_key(b) && !list@.take(k as int).contains(b) ==> esdf_layer@[b] == start[b],
            forall|k1: int|
                0 <= k1 < k ==> esdf_layer@[#[trigger] list@[k1]] == chunk_of::<VPS>(voxels@, k1),
        decreases list@.len() - k,
    {
        let ghost before = esdf_layer@;
        proof {
            assert(list@.contains(list@[k as int]));
            crate::seeding::lemma_take_step(list@, k as int);
            assert(k * n + n <= list@.len() * n) by (nonlinear_arith)
                requires
                    k < list@.len(),
                    0 <= n,
            ;
            assert(0 <= k * n) by (nonlinear_arith)
                requires
                    0 <= n,
                    0 <= k,
            ;
        }
        match esdf_layer.block_by_index_mut(&list[k]) {
            Some(block) => {
                let target = block.as_mut_slice();
                let count = target.len();
                let base = k * count;
                let mut i: usize = 0;
                while i < count
                    invariant
                        count == n,
                        target@.len() == n,
                        base == k * n,
                        base + n <= voxels@.len(),
                        voxels@.len() <= usize::MAX,
                        i <= n,
                        forall|j: int| 0 <= j < i ==> target@[j] == voxels@[base + j],
                    decreases count - i,
                {
                    target[i] = voxels[base + i];
                    i += 1;
                }
                proof {
                    assert(target@ =~= chunk_of::<VPS>(voxels@, k as int));
                }
            },
            None => {},
        }
        proof {
            assert forall|k1: int| 0 <= k1 < k + 1 implies esdf_layer@[#[trigger] list@[k1]]
                == chunk_of::<VPS>(voxels@, k1) by {
                if k1 < k {
                    assert(list@[k1] != list@[k as int]);
                    assert(before[list@[k1]] == chunk_of::<VPS>(voxels@, k1));
                }
            }
        }
        k += 1;
    }
    proof {
        assert(list@.take(k as int) =~= list@);
    }
}

/// The dirty blocks and their face neighbours, as far as they are
/// allocated.
pub fn blocks_of_interest<const VPS: usize>(
    esdf_layer: &Layer<Esdf, VPS>,
    dirty_blocks: &BlockSet<VPS>,
) -> (r: BlockSet<VPS>)
    requires
        esdf_layer.wf(),
    ensures
        r.wf(),
        forall|b: BlockIndex<VPS>| #[trigger]
            r@.contains(b) <==> (esdf_layer@.contains_key(b) && is_of_interest(dirty_blocks@, b)),
{
    let list = dirty_blocks.as_slice();
    let mut r = BlockSet::<VPS>::new();
    let mut i: usize = 0;
    while i < list.len()
        invariant
            esdf_layer.wf(),
            list@ == dirty_blocks@,
            i <= list@.len(),
            r.wf(),
            forall|b: BlockIndex<VPS>| #[trigger]
                r@.contains(b) <==> (esdf_layer@.contains_key(b) && is_of_interest(list@.take(i as int), b)),
        decreases list@.len() - i,
    {
        let ghost before = r@;
        let ghost done = list@.take(i as int);
        let ghost next = list@.take(i + 1);
        let d = list[i];
        let around = d.neighbors6_include_self();
        let mut j: usize = 0;
        while j < around.len()
            invariant
                esdf_layer.wf(),
                r.wf(),
                j <= around@.len(),
                around@.len() == 7,
                around@[0].index == d,
                forall|k: int| 0 <= k < 6 ==> around@[k + 1] == spec_neighbour(d, k),
                forall|b: BlockIndex<VPS>| #[trigger]
                    r@.contains(b) <==> (before.contains(b) || (esdf_layer@.contains_key(b) && exists|k: int|
                        0 <= k < j && (#[trigger] around@[k]).index == b)),
            decreases around@.len() - j,
        {
            let ghost inner = r@;
            if esdf_layer.contains(&around[j].index) {
                let _ = r.insert(around[j].index);
            }
            proof {
                assert forall|b: BlockIndex<VPS>| #[trigger]
                    r@.contains(b) <==> (before.contains(b) || (esdf_layer@.contains_key(b) && exists|k: int|
                        0 <= k < j + 1 && (#[trigger] around@[k]).index == b)) by {
                    let e0 = exists|k: int| 0 <= k < j && (#[trigger] around@[k]).index == b;
                    let e1 = exists|k: int| 0 <= k < j + 1 && (#[trigger] around@[k]).index == b;
                    assert(inner.contains(b) <==> (before.contains(b) || (esdf_layer@.contains_key(b)
                        && e0)));
                    if e0 {
                        let k = choose|k: int| 0 <= k < j && (#[trigger] around@[k]).index == b;
                        assert(0 <= k < j + 1 && around@[k].index == b);
                    }
                    if around@[j as int].index == b {
                        assert(e1);
                    }
                    if e1 {
                        let k = choose|k: int| 0 <= k < j + 1 && (#[trigger] around@[k]).index == b;
                        if k < j {
                            assert(e0);
                        }
                    }
                }
            }
            j += 1;
        }
        proof {
            crate::seeding::lemma_take_step(list@, i as int);
            assert forall|b: BlockIndex<VPS>| #[trigger]
                r@.contains(b) <==> (esdf_layer@.contains_key(b) && is_of_interest(next, b)) by {
                let near = exists|k: int| 0 <= k < 7 && (#[trigger] around@[k]).index == b;
                assert(before.contains(b) <==> (esdf_layer@.contains_key(b) && is_of_interest(done, b)));
                if near {
                    let k = choose|k: int| 0 <= k < 7 && (#[trigger] around@[k]).index == b;
                    assert(next.contains(d));
                    if k > 0 {
                        assert(around@[k - 1 + 1] == spec_neighbour(d, k - 1));
                        assert(spec_neighbour(d, k - 1).index == b);
                    }
                    assert(is_of_interest(next, b));
                }
                if is_of_interest(done, b) {
                    if !done.contains(b) {
                        let (d1, k1) = choose|d1: BlockIndex<VPS>, k1: int|
                            done.contains(d1) && 0 <= k1 < FACE_NEIGHBOUR_COUNT && (#[trigger] spec_neighbour(
                                d1,
                                k1,
                            )).index == b;
                        assert(next.contains(d1));
                    }
                    assert(is_of_interest(next, b));
                }
                if is_of_interest(next, b) && !is_of_interest(done, b) {
                    if next.contains(b) {
                        assert(b == d);
                        assert(around@[0].index == b);
                        assert(near);
                    } else {
                        let (d1, k1) = choose|d1: BlockIndex<VPS>, k1: int|
                            next.contains(d1) && 0 <= k1 < FACE_NEIGHBOUR_COUNT && (#[trigger] spec_neighbour(
                                d1,
                                k1,
                            )).index == b;
                        if d1 != d {
                            assert(done.contains(d1));
                            assert(is_of_interest(done, b));
                        }
                        assert(around@[k1 + 1] == spec_neighbour(d, k1));
                        assert(around@[k1 + 1].index == b);
                        assert(near);
                    }
                }
            }
        }
        i += 1;
    }
    proof {
        assert(list@.take(i as int) =~= list@);
    }
    r
}

/// The place of a block among the blocks of interest as the accelerator
/// gets it.
pub fn slot<const VPS: usize>(blocks: &BlockSet<VPS>, b: &BlockIndex<VPS>) -> (r: u32)
    requires
        blocks.wf(),
    ensures
        r == spec_slot(blocks@, *b),
{
    proof {
        crate::block_set::lemma_sorted_no_duplicates(blocks@);
    }
    match blocks.position(b) {
        Some(i) => {
            proof {
                blocks@.index_of_first_ensures(*b);
                let k = blocks@.index_of(*b);
                assert(0 <= k < blocks@.len() && blocks@[k] == *b);
                assert(k == i);
            }
            if i < INVALID_BLOCK as usize {
                i as u32
            } else {
                INVALID_BLOCK
            }
        },
        None => INVALID_BLOCK,
    }
}

/// The list of block indices of a propagation: for each dirty block, the
/// places of the block and of its six face neighbours among the blocks of
/// interest.
pub fn workgroup_block_indices<const VPS: usize>(
    blocks: &BlockSet<VPS>,
    dirty_blocks: &BlockSet<VPS>,
) -> (list: Vec<u32>)
    requires
        blocks.wf(),
    ensures
        is_workgroup_list(blocks@, dirty_blocks@, list@),
{
    let dirty = dirty_blocks.as_slice();
    let mut list: Vec<u32> = Vec::new();
    let mut i: usize = 0;
    while i < dirty.len()
        invariant
            blocks.wf(),
            dirty@ == dirty_blocks@,
            i <= dirty@.len(),
            list@.len() == i * 7,
            forall|i1: int, j1: int|
                0 <= i1 < i && 0 <= j1 < 7 ==> #[trigger] list@[i1 * 7 + j1] == spec_slot(
                    blocks@,
                    workgroup_block(dirty@[i1], j1),
                ),
        decreases dirty@.len() - i,
    {
        let around = dirty[i].neighbors6_include_self();
        let ghost before = list@;
        let mut j: usize = 0;
        while j < around.len()
            invariant
                blocks.wf(),
                i < dirty@.len(),
                j <= 7,
                around@.len() == 7,
                around@[0].index == dirty@[i as int],
                forall|k: int| 0 <= k < 6 ==> around@[k + 1] == spec_neighbour(dirty@[i as int], k),
                before.len() == i * 7,
                list@.len() == i * 7 + j,
                forall|k: int| 0 <= k < i * 7 ==> list@[k] == before[k],
                forall|j1: int|
                    0 <= j1 < j ==> list@[i * 7 + j1] == spec_slot(
                        blocks@,
                        workgroup_block(dirty@[i as int], j1),
                    ),
            decreases around@.len() - j,
        {
            proof {
                if j > 0 {
                    assert(around@[j - 1 + 1] == spec_neighbour(dirty@[i as int], j - 1));
                }
            }
            list.push(slot(blocks, &around[j].index));
            j += 1;
        }
        proof {
            assert forall|i1: int, j1: int| 0 <= i1 < i + 1 && 0 <= j1 < 7 implies #[trigger] list@[i1 * 7
                + j1] == spec_slot(blocks@, workgroup_block(dirty@[i1], j1)) by {
                if i1 < i {
                    assert(list@[i1 * 7 + j1] == before[i1 * 7 + j1]);
                }
            }
        }
        i += 1;
    }
    list
}

/// The blocks that the accelerator reports as updated: the block at a
/// place is dirty when the state at that place has the flag `Updated`.
pub fn updated_from_status<const VPS: usize>(
    blocks: &BlockSet<VPS>,
    block_info: &[BlockInfo],
) -> (r: BlockSet<VPS>)
    requires
        blocks.wf(),
    ensures
        r.wf(),
        forall|b: BlockIndex<VPS>| #[trigger]
            r@.contains(b) <==> exists|i: int|
                0 <= i < blocks@.len() && blocks@[i] == b && #[trigger] reported_updated(block_info@, i),
{
    let list = blocks.as_slice();
    let mut r = BlockSet::<VPS>::new();
    let mut i: usize = 0;
    while i < list.len() && i < block_info.len()
        invariant
            list@ == blocks@,
            r.wf(),
            i <= list@.len(),
            i <= block_info@.len(),
            forall|b: BlockIndex<VPS>| #[trigger]
                r@.contains(b) <==> exists|k: int|
                    0 <= k < i && list@[k] == b && #[trigger] reported_updated(block_info@, k),
        decreases list@.len() - i,
    {
        let ghost before = r@;
        if block_info[i].flags.contains(EsdfFlags { bits: UPDATED }) {
            let _ = r.insert(list[i]);
        }
        proof {
            assert forall|b: BlockIndex<VPS>| #[trigger]
                r@.contains(b) <==> exists|k: int|
                    0 <= k < i + 1 && list@[k] == b && #[trigger] reported_updated(block_info@, k) by {
                let e0 = exists|k: int|
                    0 <= k < i && list@[k] == b && #[trigger] reported_updated(block_info@, k);
                let e1 = exists|k: int|
                    0 <= k < i + 1 && list@[k] == b && #[trigger] reported_updated(block_info@, k);
                assert(before.contains(b) <==> e0);
                if e0 {
                    let k = choose|k: int|
                        0 <= k < i && list@[k] == b && #[trigger] reported_updated(block_info@, k);
                    assert(0 <= k < i + 1 && list@[k] == b && reported_updated(block_info@, k));
                }
                if list@[i as int] == b && reported_updated(block_info@, i as int) {
                    assert(e1);
                }
                if e1 {
                    let k = choose|k: int|
                        0 <= k < i + 1 && list@[k] == b && #[trigger] reported_updated(block_info@, k);
                    if k < i {
                        assert(e0);
                    }
                }
            }
        }
        i += 1;
    }
    proof {
        assert forall|b: BlockIndex<VPS>| #[trigger]
            r@.contains(b) <==> exists|k: int|
                0 <= k < blocks@.len() && blocks@[k] == b && #[trigger] reported_updated(block_info@, k) by {
            if exists|k: int|
                0 <= k < blocks@.len() && blocks@[k] == b && #[trigger] reported_updated(block_info@, k) {
                let k = choose|k: int|
                    0 <= k < blocks@.len() && blocks@[k] == b && #[trigger] reported_updated(
                        block_info@,
                        k,
                    );
                assert(0 <= k < i && list@[k] == b && reported_updated(block_info@, k));
            }
            if r@.contains(b) {
                let k = choose|k: int|
                    0 <= k < i && list@[k] == b && #[trigger] reported_updated(block_info@, k);
                assert(0 <= k < blocks@.len() && blocks@[k] == b && reported_updated(block_info@, k));
            }
        }
    }
    r
}

/// Takes over the voxels that came back for the given blocks, if there is
/// one voxel for each voxel of the blocks and each is what the voxel of the
/// layer at its place can have settled to.
pub fn take_over<const VPS: usize>(
    esdf_layer: &mut Layer<Esdf, VPS>,
    blocks: &BlockSet<VPS>,
    voxels: &[Esdf],
) -> (r: Result<(), GpuSubmissionFailure>)
    requires
        old(esdf_layer).wf(),
        blocks.wf(),
        all_allocated(blocks@, old(esdf_layer)@),
    ensures
        final(esdf_layer).wf(),
        final(esdf_layer).spec_indices() == old(esdf_layer).spec_indices(),
        final(esdf_layer).spec_voxel_size() == old(esdf_layer).spec_voxel_size(),
        r == Err::<(), GpuSubmissionFailure>(GpuSubmissionFailure::WrongLength) <==> voxels@.len()
            != blocks@.len() * (VPS * VPS * VPS),
        r == Err::<(), GpuSubmissionFailure>(GpuSubmissionFailure::NotSettled) <==> voxels@.len()
            == blocks@.len() * (VPS * VPS * VPS) && !(forall|k: int|
            0 <= k < blocks@.len() ==> block_settles(
                old(esdf_layer)@[#[trigger] blocks@[k]],
                chunk_of::<VPS>(voxels@, k),
            )),
        r is Err ==> final(esdf_layer)@ == old(esdf_layer)@,
        r is Ok ==> {
            &&& layer_settles(old(esdf_layer)@, final(esdf_layer)@)
            &&& forall|b: BlockIndex<VPS>|
                old(esdf_layer)@.contains_key(b) && !blocks@.contains(b) ==> final(esdf_layer)@[b] == old(esdf_layer)@[b]
            &&& forall|k: int|
                0 <= k < blocks@.len() ==> final(esdf_layer)@[#[trigger] blocks@[k]] == chunk_of::<VPS>(
                    voxels@,
                    k,
                )
        },
{
    let ghost n: int = VPS * VPS * VPS;
    let ghost start = esdf_layer@;
    proof {
        assert(VPS * VPS <= VPS * VPS * VPS) by (nonlinear_arith)
            requires
                VPS >= 1,
        ;
    }
    let per_block: usize = VPS * VPS * VPS;
    let total = voxels.len();
    let length_fits = match blocks.len().checked_mul(per_block) {
        Some(expected) => total == expected,
        None => false,
    };
    assert(length_fits <==> voxels@.len() == blocks@.len() * (VPS * VPS * VPS));
    if !length_fits {
        return Err(GpuSubmissionFailure::WrongLength);
    }
    if !all_settle(esdf_layer, blocks, voxels) {
        return Err(GpuSubmissionFailure::NotSettled);
    }
    scatter_blocks(esdf_layer, blocks, voxels);
    proof {
        assert forall|b: BlockIndex<VPS>| #[trigger] start.contains_key(b) implies block_settles(
            start[b],
            esdf_layer@[b],
        ) by {
            if blocks@.contains(b) {
                let k = choose|k: int| 0 <= k < blocks@.len() && blocks@[k] == b;
                assert(esdf_layer@[blocks@[k]] == chunk_of::<VPS>(voxels@, k));
                assert(block_settles(start[blocks@[k]], chunk_of::<VPS>(voxels@, k)));
            } else {
                crate::settle::lemma_block_settles_refl(start[b]);
            }
        }
    }
    Ok(())
}

impl EsdfIntegrator {
    /// An integrator with the given settings.
    pub fn new(config: EsdfIntegratorConfig) -> Self {
        Self { config }
    }

    /// The first steps of an update, which run on the host: every block of
    /// the truncated field gets a block in the distance field, and the
    /// blocks that hold a distance to a site in an updated block are
    /// cleared and seeded again. Returns the blocks that are dirty, or the
    /// block that would have to be cleared and is not allocated in the
    /// truncated field; in that case no voxel has changed.
    pub fn begin_update<const VPS: usize, C: ProgressCallback<VPS>>(
        &mut self,
        tsdf_layer: &Layer<Tsdf, VPS>,
        esdf_layer: &mut Layer<Esdf, VPS>,
        updated_blocks: &BlockSet<VPS>,
        callback: &mut C,
    ) -> (r: Result<BlockSet<VPS>, MissingBlock<VPS>>)
        requires
            tsdf_layer.wf(),
            old(esdf_layer).wf(),
            updated_blocks.wf(),
        ensures
            final(esdf_layer).wf(),
            final(esdf_layer).spec_voxel_size() == old(esdf_layer).spec_voxel_size(),
            final(esdf_layer).spec_indices() == push_missing(
                push_missing(old(esdf_layer).spec_indices(), tsdf_layer.spec_indices()),
                updated_blocks@,
            ),
            r is Ok <==> can_update(tsdf_layer@, old(esdf_layer)@, updated_blocks@),
            r matches Ok(dirty) ==> {
                &&& dirty.wf()
                &&& all_allocated(dirty@, final(esdf_layer)@)
                &&& (final(esdf_layer)@, dirty@) == spec_prepared(
                    tsdf_layer@,
                    old(esdf_layer)@,
                    updated_blocks@,
                )
            },
            r matches Err(e) ==> {
                &&& is_first_missing(
                    tsdf_layer@,
                    spec_cleared(tsdf_layer@, old(esdf_layer)@, updated_blocks@),
                    e.index,
                )
                &&& final(esdf_layer)@ == spec_mirrored(
                    tsdf_layer@,
                    old(esdf_layer)@,
                    updated_blocks@,
                )
            },
    {
        let ghost tsdf = tsdf_layer@;
        let ghost before = esdf_layer@;
        let ghost updated = updated_blocks@;
        let ghost cleared = spec_cleared(tsdf, before, updated);
        let plan = plan_update(tsdf_layer, esdf_layer, updated_blocks, callback);
        match first_missing_block(tsdf_layer, &plan.blocks_to_clear) {
            Some(index) => {
                proof {
                    assert(plan.blocks_to_clear@.to_set() =~= cleared);
                }
                Err(MissingBlock { index })
            },
            None => {
                proof {
                    assert forall|b: BlockIndex<VPS>| #[trigger] cleared.contains(b) implies tsdf.contains_key(
                        b,
                    ) by {
                        assert(plan.blocks_to_clear@.contains(b));
                    }
                    assert(plan.blocks_to_clear@.to_set() =~= cleared);
                }
                let dirty = rebuild(tsdf_layer, esdf_layer, plan, callback);
                proof {
                    crate::block_set::lemma_sorted_seq(
                        dirty@,
                        crate::prepare::spec_first_dirty(tsdf, before, updated),
                    );
                }
                Ok(dirty)
            },
        }
    }

    /// What is sent to the accelerator for a sweep: the voxels of the dirty
    /// blocks, block after block in walking order.
    pub fn sweep_job<const VPS: usize>(
        esdf_layer: &Layer<Esdf, VPS>,
        dirty_blocks: &BlockSet<VPS>,
    ) -> (voxels: Vec<Esdf>)
        requires
            esdf_layer.wf(),
            all_allocated(dirty_blocks@, esdf_layer@),
        ensures
            is_gathered(esdf_layer@, dirty_blocks@, voxels@),
    {
        gather_blocks(esdf_layer, dirty_blocks)
    }

    /// Takes over the voxels of the dirty blocks that came back from a
    /// sweep, and reports the sweep. Nothing is taken over unless there is
    /// one voxel for each voxel of the dirty blocks, and each is what the
    /// voxel that was sent can have settled to.
    pub fn finish_sweep<const VPS: usize, C: ProgressCallback<VPS>>(
        tsdf_layer: &Layer<Tsdf, VPS>,
        esdf_layer: &mut Layer<Esdf, VPS>,
        dirty_blocks: &BlockSet<VPS>,
        voxels: &[Esdf],
        callback: &mut C,
    ) -> (r: Result<(), GpuSubmissionFailure>)
        requires
            tsdf_layer.wf(),
            old(esdf_layer).wf(),
            dirty_blocks.wf(),
            all_allocated(dirty_blocks@, old(esdf_layer)@),
        ensures
            final(esdf_layer).wf(),
            final(esdf_layer).spec_indices() == old(esdf_layer).spec_indices(),
            final(esdf_layer).spec_voxel_size() == old(esdf_layer).spec_voxel_size(),
            r == Err::<(), GpuSubmissionFailure>(GpuSubmissionFailure::WrongLength) <==> voxels@.len()
                != dirty_blocks@.len() * (VPS * VPS * VPS),
            r == Err::<(), GpuSubmissionFailure>(GpuSubmissionFailure::NotSettled) <==> voxels@.len()
                == dirty_blocks@.len() * (VPS * VPS * VPS) && !(forall|k: int|
                0 <= k < dirty_blocks@.len() ==> block_settles(
                    old(esdf_layer)@[#[trigger] dirty_blocks@[k]],
                    chunk_of::<VPS>(voxels@, k),
                )),
            r is Err ==> final(esdf_layer)@ == old(esdf_layer)@,
            r is Ok ==> {
                &&& layer_settles(old(esdf_layer)@, final(esdf_layer)@)
                &&& forall|b: BlockIndex<VPS>|
                    old(esdf_layer)@.contains_key(b) && !dirty_blocks@.contains(b) ==> final(esdf_layer)@[b] == old(esdf_layer)@[b]
                &&& forall|k: int|
                    0 <= k < dirty_blocks@.len() ==> final(esdf_layer)@[#[trigger] dirty_blocks@[k]]
                        == chunk_of::<VPS>(voxels@, k)
            },
    {
        let r = take_over(esdf_layer, dirty_blocks, voxels);
        if r.is_ok() {
            callback.report(
                "sweep: xy (GPU)",
                tsdf_layer,
                esdf_layer,
                dirty_blocks.as_slice(),
                ACCELERATOR_REPORT_MILLIS,
            );
        }
        r
    }

    /// What is sent to the accelerator for a propagation.
    pub fn propagate_job<const VPS: usize>(
        esdf_layer: &Layer<Esdf, VPS>,
        dirty_blocks: &BlockSet<VPS>,
    ) -> (job: PropagateJob<VPS>)
        requires
            esdf_layer.wf(),
        ensures
            job.blocks.wf(),
            forall|b: BlockIndex<VPS>| #[trigger]
                job.blocks@.contains(b) <==> (esdf_layer@.contains_key(b) && is_of_interest(
                    dirty_blocks@,
                    b,
                )),
            is_gathered(esdf_layer@, job.blocks@, job.voxels@),
            is_workgroup_list(job.blocks@, dirty_blocks@, job.workgroup_block_indices@),
    {
        let blocks = blocks_of_interest(esdf_layer, dirty_blocks);
        let voxels = gather_blocks(esdf_layer, &blocks);
        let workgroup_block_indices = workgroup_block_indices(&blocks, dirty_blocks);
        PropagateJob { blocks, voxels, workgroup_block_indices }
    }

    /// Takes over the voxels of the blocks of interest that came back from
    /// a propagation, and reports the propagation. Returns the blocks that
    /// the accelerator reports as updated: they are dirty now. Nothing is
    /// taken over unless there is one state for each block of interest and
    /// one voxel for each of their voxels, and each voxel is what the voxel
    /// that was sent can have settled to.
    pub fn finish_propagate<const VPS: usize, C: ProgressCallback<VPS>>(
        tsdf_layer: &Layer<Tsdf, VPS>,
        esdf_layer: &mut Layer<Esdf, VPS>,
        blocks: &BlockSet<VPS>,
        voxels: &[Esdf],
        block_info: &[BlockInfo],
        callback: &mut C,
    ) -> (r: Result<BlockSet<VPS>, GpuSubmissionFailure>)
        requires
            tsdf_layer.wf(),
            old(esdf_layer).wf(),
            blocks.wf(),
            all_allocated(blocks@, old(esdf_layer)@),
        ensures
            final(esdf_layer).wf(),
            final(esdf_layer).spec_indices() == old(esdf_layer).spec_indices(),
            final(esdf_layer).spec_voxel_size() == old(esdf_layer).spec_voxel_size(),
            r matches Err(e) ==> final(esdf_layer)@ == old(esdf_layer)@ && (e
                == GpuSubmissionFailure::WrongLength <==> (block_info@.len() != blocks@.len()
                || voxels@.len() != blocks@.len() * (VPS * VPS * VPS))),
            r is Ok <==> {
                &&& block_info@.len() == blocks@.len()
                &&& voxels@.len() == blocks@.len() * (VPS * VPS * VPS)
                &&& forall|k: int|
                    0 <= k < blocks@.len() ==> block_settles(
                        old(esdf_layer)@[#[trigger] blocks@[k]],
                        chunk_of::<VPS>(voxels@, k),
                    )
            },
            r matches Ok(dirty) ==> {
                &&& dirty.wf()
                &&& all_allocated(dirty@, final(esdf_layer)@)
                &&& forall|b: BlockIndex<VPS>| #[trigger]
                    dirty@.contains(b) <==> exists|i: int|
                        0 <= i < blocks@.len() && blocks@[i] == b && #[trigger] reported_updated(
                            block_info@,
                            i,
                        )
                &&& layer_settles(old(esdf_layer)@, final(esdf_layer)@)
                &&& forall|b: BlockIndex<VPS>|
                    old(esdf_layer)@.contains_key(b) && !blocks@.contains(b) ==> final(esdf_layer)@[b]
                        == old(esdf_layer)@[b]
                &&& forall|k: int|
                    0 <= k < blocks@.len() ==> final(esdf_layer)@[#[trigger] blocks@[k]] == chunk_of::<
                        VPS,
                    >(voxels@, k)
            },
    {
        if block_info.len() != blocks.len() {
            return Err(GpuSubmissionFailure::WrongLength);
        }
        match take_over(esdf_layer, blocks, voxels) {
            Err(e) => Err(e),
            Ok(()) => {
                let dirty = updated_from_status(blocks, block_info);
                proof {
                    assert forall|b: BlockIndex<VPS>| #[trigger] dirty@.contains(b) implies esdf_layer@.contains_key(
                        b,
                    ) by {
                        let i = choose|i: int|
                            0 <= i < blocks@.len() && blocks@[i] == b && #[trigger] reported_updated(
                                block_info@,
                                i,
                            );
                        assert(blocks@.contains(b));
                    }
                }
                callback.report(
                    "prop.: xy (GPU)",
                    tsdf_layer,
                    esdf_layer,
                    dirty.as_slice(),
                    ACCELERATOR_REPORT_MILLIS,
                );
                Ok(dirty)
            },
        }
    }
}

} // verus!
