//! Clearing invalidated blocks of the distance field and seeding them again
//! from the observed voxels of the truncated field.

use vstd::prelude::*;
use crate::block_set::BlockSet;
use crate::index::BlockIndex;
use crate::layer::{allocated_with, empty_voxels, push_missing, Layer};
use crate::progress::{ProgressCallback, STEP_REPORT_MILLIS};
use crate::voxel::{
    Esdf,
    EsdfFlags,
    SiteIndex,
    Tsdf,
    Voxel,
    ALL_FLAGS,
    FIXED,
    HAS_SITE_INDEX,
    OBSERVED,
};

verus! {

/// The flags of a voxel that is seeded from an observed voxel: fixed,
/// observed, and with a site.
pub const SEED_FLAGS: u32 = 0x7;

/// The distance voxel that is seeded from a voxel of the truncated field in
/// a block: a site with the observed distance where the voxel is observed,
/// and an empty voxel where it is not.
pub open spec fn seeded_voxel<const VPS: usize>(t: Tsdf, block: BlockIndex<VPS>) -> Esdf {
    if t.is_observed() {
        Esdf {
            distance: t.distance,
            flags: EsdfFlags { bits: SEED_FLAGS },
            site_block_index: SiteIndex::spec_of(block),
        }
    } else {
        Esdf::spec_empty()
    }
}

/// The distance voxels that are seeded from the voxels of a block of the
/// truncated field.
pub open spec fn seeded_block<const VPS: usize>(tsdf: Seq<Tsdf>, block: BlockIndex<VPS>) -> Seq<Esdf> {
    Seq::new(tsdf.len(), |i: int| seeded_voxel(tsdf[i], block))
}

/// What the transfer from the truncated field makes of a distance voxel,
/// whatever it held before. Where the voxel of the truncated field is
/// observed, the distance voxel takes the observed distance, the block as
/// its site and the flags of a seed. Where it is not, the distance voxel
/// loses its distance and its flags.
pub open spec fn transferred_voxel<const VPS: usize>(before: Esdf, t: Tsdf, block: BlockIndex<VPS>) -> Esdf {
    if t.is_observed() {
        Esdf {
            distance: t.distance,
            flags: EsdfFlags { bits: before.flags.bits | SEED_FLAGS },
            site_block_index: SiteIndex::spec_of(block),
        }
    } else {
        Esdf {
            distance: 0,
            flags: EsdfFlags { bits: before.flags.bits & !ALL_FLAGS },
            site_block_index: before.site_block_index,
        }
    }
}

/// What the transfer from a block of the truncated field makes of the
/// voxels of a block of the distance field.
pub open spec fn transferred_block<const VPS: usize>(
    tsdf: Seq<Tsdf>,
    before: Seq<Esdf>,
    block: BlockIndex<VPS>,
) -> Seq<Esdf> {
    Seq::new(before.len(), |i: int| transferred_voxel(before[i], tsdf[i], block))
}

/// The transfer makes a seeded voxel of an empty voxel.
pub proof fn lemma_transfer_to_empty<const VPS: usize>(t: Tsdf, block: BlockIndex<VPS>)
    ensures
        transferred_voxel(Esdf::spec_empty(), t, block) == seeded_voxel(t, block),
{
    assert(0u32 | 7u32 == 7u32) by (bit_vector);
    assert(0u32 & !0x3ffu32 == 0u32) by (bit_vector);
}

/// Whether a voxel of the sequence is observed.
pub open spec fn has_observed(tsdf: Seq<Tsdf>) -> bool {
    exists|i: int| 0 <= i < tsdf.len() && (#[trigger] tsdf[i]).is_observed()
}

/// The layer after the given blocks have been cleared.
pub open spec fn spec_reset<const VPS: usize>(
    esdf: Map<BlockIndex<VPS>, Seq<Esdf>>,
    clear: Set<BlockIndex<VPS>>,
) -> Map<BlockIndex<VPS>, Seq<Esdf>> {
    Map::new(
        |b: BlockIndex<VPS>| esdf.contains_key(b),
        |b: BlockIndex<VPS>|
            if clear.contains(b) {
                empty_voxels::<Esdf, VPS>()
            } else {
                esdf[b]
            },
    )
}

/// The layer after the given blocks have been seeded from the truncated
/// field.
pub open spec fn spec_seed<const VPS: usize>(
    tsdf: Map<BlockIndex<VPS>, Seq<Tsdf>>,
    esdf: Map<BlockIndex<VPS>, Seq<Esdf>>,
    clear: Set<BlockIndex<VPS>>,
) -> Map<BlockIndex<VPS>, Seq<Esdf>> {
    Map::new(
        |b: BlockIndex<VPS>| esdf.contains_key(b),
        |b: BlockIndex<VPS>|
            if clear.contains(b) {
                seeded_block(tsdf[b], b)
            } else {
                esdf[b]
            },
    )
}

/// The layer after the transfer from the truncated field to the given
/// blocks.
pub open spec fn spec_transfer<const VPS: usize>(
    tsdf: Map<BlockIndex<VPS>, Seq<Tsdf>>,
    esdf: Map<BlockIndex<VPS>, Seq<Esdf>>,
    clear: Set<BlockIndex<VPS>>,
) -> Map<BlockIndex<VPS>, Seq<Esdf>> {
    Map::new(
        |b: BlockIndex<VPS>| esdf.contains_key(b),
        |b: BlockIndex<VPS>|
            if clear.contains(b) {
                transferred_block(tsdf[b], esdf[b], b)
            } else {
                esdf[b]
            },
    )
}

/// The transfer to blocks that have been cleared seeds them.
pub proof fn lemma_transfer_after_reset<const VPS: usize>(
    tsdf: Map<BlockIndex<VPS>, Seq<Tsdf>>,
    esdf: Map<BlockIndex<VPS>, Seq<Esdf>>,
    clear: Set<BlockIndex<VPS>>,
)
    requires
        forall|b: BlockIndex<VPS>| #[trigger]
            clear.contains(b) ==> tsdf.contains_key(b) && tsdf[b].len() == VPS * VPS * VPS,
    ensures
        spec_transfer(tsdf, spec_reset(esdf, clear), clear) == spec_seed(tsdf, esdf, clear),
{
    let reset = spec_reset(esdf, clear);
    assert forall|b: BlockIndex<VPS>| esdf.contains_key(b) implies #[trigger] spec_transfer(
        tsdf,
        reset,
        clear,
    )[b] == spec_seed(tsdf, esdf, clear)[b] by {
        if clear.contains(b) {
            assert forall|i: int| 0 <= i < VPS * VPS * VPS implies transferred_voxel(
                reset[b][i],
                tsdf[b][i],
                b,
            ) == seeded_voxel(tsdf[b][i], b) by {
                lemma_transfer_to_empty(tsdf[b][i], b);
            }
            assert(transferred_block(tsdf[b], reset[b], b) =~= seeded_block(tsdf[b], b));
        }
    }
    assert(spec_transfer(tsdf, reset, clear) =~= spec_seed(tsdf, esdf, clear));
}

/// The flags of a seed: fixed, observed and with a site.
proof fn lemma_seed_bits()
    ensures
        (2u32 | 1u32 | 4u32) == 7u32,
{
    assert((2u32 | 1u32 | 4u32) == 7u32) by (bit_vector);
}

/// What the first blocks of a list are when one more is counted in.
pub proof fn lemma_take_step<A>(s: Seq<A>, i: int)
    requires
        0 <= i < s.len(),
    ensures
        forall|x: A| #[trigger] s.take(i + 1).contains(x) <==> (s.take(i).contains(x) || x == s[i]),
        forall|x: A| #[trigger] s.take(i).contains(x) ==> s.contains(x),
        s.contains(s[i]),
{
    let done = s.take(i);
    let next = s.take(i + 1);
    assert forall|x: A| #[trigger] next.contains(x) <==> (done.contains(x) || x == s[i]) by {
        if next.contains(x) {
            let k = choose|k: int| 0 <= k < next.len() && next[k] == x;
            if k < i {
                assert(done[k] == x);
            }
        }
        if done.contains(x) {
            let k = choose|k: int| 0 <= k < done.len() && done[k] == x;
            assert(next[k] == x);
        }
        if x == s[i] {
            assert(next[i] == x);
        }
    }
    assert forall|x: A| #[trigger] done.contains(x) implies s.contains(x) by {
        let k = choose|k: int| 0 <= k < done.len() && done[k] == x;
        assert(s[k] == x);
    }
}

/// Transfers the voxels of a block of the truncated field to the voxels of
/// a block of the distance field, and says whether one of them is
/// observed.
pub fn seed_voxels<const VPS: usize>(
    tsdf: &[Tsdf],
    esdf: &mut [Esdf],
    block_index: &BlockIndex<VPS>,
) -> (any: bool)
    requires
        tsdf@.len() == old(esdf)@.len(),
    ensures
        final(esdf)@ == transferred_block(tsdf@, old(esdf)@, *block_index),
        any == has_observed(tsdf@),
{
    let ghost before = esdf@;
    let mut any = false;
    let mut i: usize = 0;
    proof {
        lemma_seed_bits();
    }
    while i < tsdf.len()
        invariant
            tsdf@.len() == esdf@.len(),
            before.len() == esdf@.len(),
            i <= tsdf@.len(),
            forall|j: int|
                0 <= j < i ==> esdf@[j] == transferred_voxel(before[j], tsdf@[j], *block_index),
            forall|j: int| i <= j < esdf@.len() ==> esdf@[j] == before[j],
            any == has_observed(tsdf@.take(i as int)),
            (2u32 | 1u32 | 4u32) == 7u32,
        decreases tsdf@.len() - i,
    {
        let tsdf_voxel = tsdf[i];
        let esdf_voxel = &mut esdf[i];
        if tsdf_voxel.weight > 0 {
            esdf_voxel.distance = tsdf_voxel.distance;
            esdf_voxel.flags.insert(EsdfFlags { bits: FIXED | OBSERVED | HAS_SITE_INDEX });
            esdf_voxel.site_block_index = SiteIndex::of(block_index);
            any = true;
        } else {
            esdf_voxel.distance = 0;
            esdf_voxel.flags.remove(EsdfFlags::all());
        }
        proof {
            let done = tsdf@.take(i as int);
            let next = tsdf@.take(i + 1);
            if has_observed(done) {
                let k = choose|k: int| 0 <= k < done.len() && (#[trigger] done[k]).is_observed();
                assert(next[k].is_observed());
            }
            if tsdf_voxel.is_observed() {
                assert(next[i as int].is_observed());
            }
            if has_observed(next) {
                let k = choose|k: int| 0 <= k < next.len() && (#[trigger] next[k]).is_observed();
                if k < i {
                    assert(done[k].is_observed());
                }
            }
        }
        i += 1;
    }
    proof {
        assert(tsdf@.take(i as int) =~= tsdf@);
        assert(esdf@ =~= transferred_block(tsdf@, before, *block_index));
    }
    any
}

/// Clears the given blocks of the distance field, allocating those that
/// were missing, and reports each.
pub fn reset_blocks<const VPS: usize, C: ProgressCallback<VPS>>(
    tsdf_layer: &Layer<Tsdf, VPS>,
    esdf_layer: &mut Layer<Esdf, VPS>,
    blocks: &BlockSet<VPS>,
    callback: &mut C,
)
    requires
        tsdf_layer.wf(),
        old(esdf_layer).wf(),
    ensures
        final(esdf_layer).wf(),
        final(esdf_layer).spec_indices() == push_missing(old(esdf_layer).spec_indices(), blocks@),
        final(esdf_layer).spec_voxel_size() == old(esdf_layer).spec_voxel_size(),
        final(esdf_layer)@ == spec_reset(
            allocated_with(old(esdf_layer)@, blocks@.to_set()),
            blocks@.to_set(),
        ),
{
    esdf_layer.allocate_all(blocks.as_slice());
    reset_allocated(tsdf_layer, esdf_layer, blocks, callback);
}

/// Clears the given allocated blocks of the distance field, and reports
/// each.
fn reset_allocated<const VPS: usize, C: ProgressCallback<VPS>>(
    tsdf_layer: &Layer<Tsdf, VPS>,
    esdf_layer: &mut Layer<Esdf, VPS>,
    blocks: &BlockSet<VPS>,
    callback: &mut C,
)
    requires
        tsdf_layer.wf(),
        old(esdf_layer).wf(),
        forall|b: BlockIndex<VPS>| blocks@.contains(b) ==> old(esdf_layer)@.contains_key(b),
    ensures
        final(esdf_layer).wf(),
        final(esdf_layer).spec_indices() == old(esdf_layer).spec_indices(),
        final(esdf_layer).spec_voxel_size() == old(esdf_layer).spec_voxel_size(),
        final(esdf_layer)@ == spec_reset(old(esdf_layer)@, blocks@.to_set()),
{
    let ghost start = esdf_layer@;
    let list = blocks.as_slice();
    let mut i: usize = 0;
    proof {
        assert(esdf_layer@ =~= spec_reset(start, list@.take(0).to_set()));
    }
    while i < list.len()
        invariant
            tsdf_layer.wf(),
            esdf_layer.wf(),
            list@ == blocks@,
            i <= list@.len(),
            esdf_layer.spec_indices() == old(esdf_layer).spec_indices(),
            esdf_layer.spec_voxel_size() == old(esdf_layer).spec_voxel_size(),
            forall|b: BlockIndex<VPS>| list@.contains(b) ==> start.contains_key(b),
            esdf_layer@ == spec_reset(start, list@.take(i as int).to_set()),
        decreases list@.len() - i,
    {
        let block_index = list[i];
        proof {
            lemma_take_step(list@, i as int);
        }
        match esdf_layer.block_by_index_mut(&block_index) {
            Some(esdf_block) => {
                esdf_block.reset_voxels();
            },
            None => {},
        }
        proof {
            assert(esdf_layer@[block_index] =~= empty_voxels::<Esdf, VPS>());
            assert(esdf_layer@ =~= spec_reset(start, list@.take(i + 1).to_set()));
        }
        let one = [block_index];
        callback.report("clear site", tsdf_layer, esdf_layer, one.as_slice(), STEP_REPORT_MILLIS);
        i += 1;
    }
    proof {
        assert(list@.take(i as int) =~= list@);
    }
}

/// Transfers the truncated field to the given blocks of the distance field,
/// allocating those that were missing, and adds each block that got a site
/// to the dirty blocks. The blocks must be allocated in the truncated
/// field.
pub fn seed_blocks<const VPS: usize>(
    tsdf_layer: &Layer<Tsdf, VPS>,
    esdf_layer: &mut Layer<Esdf, VPS>,
    blocks: &BlockSet<VPS>,
    dirty_blocks: &mut BlockSet<VPS>,
)
    requires
        tsdf_layer.wf(),
        old(esdf_layer).wf(),
        blocks.wf(),
        old(dirty_blocks).wf(),
        forall|b: BlockIndex<VPS>| blocks@.contains(b) ==> tsdf_layer@.contains_key(b),
    ensures
        final(esdf_layer).wf(),
        final(dirty_blocks).wf(),
        final(esdf_layer).spec_indices() == push_missing(old(esdf_layer).spec_indices(), blocks@),
        final(esdf_layer).spec_voxel_size() == old(esdf_layer).spec_voxel_size(),
        final(esdf_layer)@ == spec_transfer(
            tsdf_layer@,
            allocated_with(old(esdf_layer)@, blocks@.to_set()),
            blocks@.to_set(),
        ),
        forall|b: BlockIndex<VPS>| #[trigger]
            final(dirty_blocks)@.contains(b) <==> (old(dirty_blocks)@.contains(b) || (blocks@.contains(b)
                && has_observed(tsdf_layer@[b]))),
{
    esdf_layer.allocate_all(blocks.as_slice());
    transfer_allocated(tsdf_layer, esdf_layer, blocks, dirty_blocks);
}

/// Transfers the truncated field to the given allocated blocks of the
/// distance field, and adds each block that got a site to the dirty blocks.
fn transfer_allocated<const VPS: usize>(
    tsdf_layer: &Layer<Tsdf, VPS>,
    esdf_layer: &mut Layer<Esdf, VPS>,
    blocks: &BlockSet<VPS>,
    dirty_blocks: &mut BlockSet<VPS>,
)
    requires
        tsdf_layer.wf(),
        old(esdf_layer).wf(),
        blocks.wf(),
        old(dirty_blocks).wf(),
        forall|b: BlockIndex<VPS>|
            blocks@.contains(b) ==> tsdf_layer@.contains_key(b) && old(esdf_layer)@.contains_key(b),
    ensures
        final(esdf_layer).wf(),
        final(dirty_blocks).wf(),
        final(esdf_layer).spec_indices() == old(esdf_layer).spec_indices(),
        final(esdf_layer).spec_voxel_size() == old(esdf_layer).spec_voxel_size(),
        final(esdf_layer)@ == spec_transfer(tsdf_layer@, old(esdf_layer)@, blocks@.to_set()),
        forall|b: BlockIndex<VPS>| #[trigger]
            final(dirty_blocks)@.contains(b) <==> (old(dirty_blocks)@.contains(b) || (blocks@.contains(b)
                && has_observed(tsdf_layer@[b]))),
{
    let ghost start = esdf_layer@;
    let list = blocks.as_slice();
    let mut i: usize = 0;
    proof {
        assert(esdf_layer@ =~= spec_transfer(tsdf_layer@, start, list@.take(0).to_set()));
    }
    while i < list.len()
        invariant
            tsdf_layer.wf(),
            esdf_layer.wf(),
            dirty_blocks.wf(),
            blocks.wf(),
            list@ == blocks@,
            i <= list@.len(),
            esdf_layer.spec_indices() == old(esdf_layer).spec_indices(),
            esdf_layer.spec_voxel_size() == old(esdf_layer).spec_voxel_size(),
            forall|b: BlockIndex<VPS>|
                list@.contains(b) ==> tsdf_layer@.contains_key(b) && start.contains_key(b),
            esdf_layer@ == spec_transfer(tsdf_layer@, start, list@.take(i as int).to_set()),
            forall|b: BlockIndex<VPS>| #[trigger]
                dirty_blocks@.contains(b) <==> (old(dirty_blocks)@.contains(b) || (list@.take(
                    i as int,
                ).contains(b) && has_observed(tsdf_layer@[b]))),
        decreases list@.len() - i,
    {
        let block_index = list[i];
        let ghost dirty_before = dirty_blocks@;
        let ghost layer_before = esdf_layer@;
        proof {
            lemma_take_step(list@, i as int);
            crate::block_set::lemma_sorted_no_duplicates(list@);
            assert(!list@.take(i as int).contains(block_index)) by {
                if list@.take(i as int).contains(block_index) {
                    let k = choose|k: int|
                        0 <= k < list@.take(i as int).len() && list@.take(i as int)[k] == block_index;
                    assert(list@[k] == list@[i as int]);
                }
            }
            assert(layer_before[block_index] == start[block_index]);
        }
        let any = match tsdf_layer.block_by_index(&block_index) {
            Some(tsdf_block) => {
                match esdf_layer.block_by_index_mut(&block_index) {
                    Some(esdf_block) => seed_voxels::<VPS>(
                        tsdf_block.as_slice(),
                        esdf_block.as_mut_slice(),
                        &block_index,
                    ),
                    None => false,
                }
            },
            None => false,
        };
        if any {
            let _ = dirty_blocks.insert(block_index);
        }
        proof {
            assert(esdf_layer@ =~= spec_transfer(tsdf_layer@, start, list@.take(i + 1).to_set()));
            assert forall|b: BlockIndex<VPS>| #[trigger]
                dirty_blocks@.contains(b) <==> (old(dirty_blocks)@.contains(b) || (list@.take(
                    i + 1,
                ).contains(b) && has_observed(tsdf_layer@[b]))) by {
                assert(dirty_before.contains(b) <==> (old(dirty_blocks)@.contains(b) || (list@.take(
                    i as int,
                ).contains(b) && has_observed(tsdf_layer@[b]))));
            }
        }
        i += 1;
    }
    proof {
        assert(list@.take(i as int) =~= list@);
    }
}

} // verus!
