//! What an update guarantees of the distance field that it leaves.

use vstd::prelude::*;
use crate::block_set::{is_sorted, lemma_sorted_seq, lemma_sorted_seq_exists};
use crate::passes::{comes_to_rest_after, spec_passes};
use crate::prepare::{
    can_update,
    is_update_result,
    spec_cleared,
    spec_first_dirty,
    spec_mirrored,
    spec_prepared,
    spec_withdrawn_sites,
};
use crate::index::BlockIndex;
use crate::invalidation::{is_wave_path, is_wave_step, reached, site_of, stays_valid};
use crate::layer::{empty_voxels, is_layer_view};
use crate::seeding::{seeded_block, seeded_voxel};
use crate::settle::{
    all_allocated,
    blocks_full,
    layer_settles,
    lemma_passes_settle,
    names_blocks,
    voxel_settles,
};
use crate::sites::{lemma_pass_sites, sites_allocated, sites_within};
use crate::voxel::{Esdf, Real, Tsdf, Voxel};

verus! {

/// The blocks of a finite map can be listed.
pub proof fn lemma_enumerate<VoxelType, const VPS: usize>(
    layer: Map<BlockIndex<VPS>, Seq<VoxelType>>,
) -> (indices: Seq<BlockIndex<VPS>>)
    requires
        layer.dom().finite(),
    ensures
        forall|b: BlockIndex<VPS>| layer.contains_key(b) <==> indices.contains(b),
{
    let indices = layer.dom().to_seq();
    layer.dom().lemma_to_seq_to_set_id();
    assert forall|b: BlockIndex<VPS>| layer.contains_key(b) <==> indices.contains(b) by {
        assert(indices.to_set().contains(b) <==> layer.dom().contains(b));
    }
    indices
}

/// A voxel that was seeded from an observed voxel is a site: it is
/// observed and fixed, has the observed distance, and names its own block.
pub proof fn lemma_seeded_voxel<const VPS: usize>(t: Tsdf, block: BlockIndex<VPS>)
    ensures
        t.is_observed() ==> {
            let v = seeded_voxel(t, block);
            &&& v.is_observed()
            &&& v.is_fixed()
            &&& v.has_site_index()
            &&& v.distance == t.distance
            &&& site_of::<VPS>(v) == block
        },
        !t.is_observed() ==> {
            let v = seeded_voxel(t, block);
            &&& !v.is_observed()
            &&& !v.is_fixed()
            &&& v == Esdf::spec_empty()
        },
{
    assert(7u32 & 1u32 == 1u32) by (bit_vector);
    assert(7u32 & 2u32 == 2u32) by (bit_vector);
    assert(7u32 & 4u32 == 4u32) by (bit_vector);
    assert(0u32 & 1u32 == 0u32) by (bit_vector);
    assert(0u32 & 2u32 == 0u32) by (bit_vector);
}

/// The walk of an update only reaches allocated blocks.
pub proof fn lemma_reached_allocated<const VPS: usize>(
    layer: Map<BlockIndex<VPS>, Seq<Esdf>>,
    sites: Set<BlockIndex<VPS>>,
    start: Seq<BlockIndex<VPS>>,
    b: BlockIndex<VPS>,
)
    requires
        forall|x: BlockIndex<VPS>| start.contains(x) ==> layer.contains_key(x),
        reached(layer, sites, start, b),
    ensures
        layer.contains_key(b),
{
    let path = choose|path: Seq<BlockIndex<VPS>>| #[trigger]
        is_wave_path(layer, sites, start, path) && path.last() == b;
    if path.len() > 1 {
        assert(is_wave_step(layer, sites, path, path.len() - 2));
    }
}

/// An update can seed every block that it clears when the truncated field
/// holds every updated block and every block of the distance field, as it
/// does when the distance field only ever got its blocks from updates.
pub proof fn lemma_mirror_can_update<const VPS: usize>(
    tsdf: Map<BlockIndex<VPS>, Seq<Tsdf>>,
    esdf: Map<BlockIndex<VPS>, Seq<Esdf>>,
    updated: Seq<BlockIndex<VPS>>,
)
    requires
        forall|b: BlockIndex<VPS>| updated.contains(b) ==> tsdf.contains_key(b),
        forall|b: BlockIndex<VPS>| esdf.contains_key(b) ==> tsdf.contains_key(b),
    ensures
        can_update(tsdf, esdf, updated),
{
    let mirrored = spec_mirrored(tsdf, esdf, updated);
    let sites = spec_withdrawn_sites(tsdf, esdf, updated);
    assert forall|b: BlockIndex<VPS>| #[trigger]
        spec_cleared(tsdf, esdf, updated).contains(b) implies tsdf.contains_key(b) by {
        if !updated.contains(b) {
            lemma_reached_allocated(mirrored, sites, updated, b);
        }
    }
}

/// What the prepared state of an update is like: every block of either
/// field and every updated block is allocated, the cleared blocks hold the
/// seeds of the truncated field, every other block is as it was, and the
/// dirty blocks are allocated.
pub proof fn lemma_prepared<const VPS: usize>(
    tsdf: Map<BlockIndex<VPS>, Seq<Tsdf>>,
    esdf: Map<BlockIndex<VPS>, Seq<Esdf>>,
    updated: Seq<BlockIndex<VPS>>,
)
    requires
        is_layer_view(tsdf),
        is_layer_view(esdf),
        can_update(tsdf, esdf, updated),
    ensures
        is_layer_view(spec_prepared(tsdf, esdf, updated).0),
        forall|b: BlockIndex<VPS>|
            spec_prepared(tsdf, esdf, updated).0.contains_key(b) <==> (esdf.contains_key(b)
                || tsdf.contains_key(b) || updated.contains(b)),
        forall|b: BlockIndex<VPS>| #[trigger]
            spec_cleared(tsdf, esdf, updated).contains(b) ==> spec_prepared(
                tsdf,
                esdf,
                updated,
            ).0.contains_key(b) && spec_prepared(tsdf, esdf, updated).0[b] == seeded_block(tsdf[b], b),
        forall|b: BlockIndex<VPS>| #[trigger]
            esdf.contains_key(b) && !spec_cleared(tsdf, esdf, updated).contains(b) ==> spec_prepared(
                tsdf,
                esdf,
                updated,
            ).0[b] == esdf[b],
        forall|b: BlockIndex<VPS>| #[trigger]
            spec_prepared(tsdf, esdf, updated).0.contains_key(b) && !esdf.contains_key(b)
                && !spec_cleared(tsdf, esdf, updated).contains(b) ==> spec_prepared(
                tsdf,
                esdf,
                updated,
            ).0[b] == empty_voxels::<Esdf, VPS>(),
        is_sorted(spec_prepared(tsdf, esdf, updated).1),
        forall|b: BlockIndex<VPS>|
            spec_prepared(tsdf, esdf, updated).1.contains(b) <==> spec_first_dirty(
                tsdf,
                esdf,
                updated,
            ).contains(b),
        all_allocated(spec_prepared(tsdf, esdf, updated).1, spec_prepared(tsdf, esdf, updated).0),
{
    let mirrored = spec_mirrored(tsdf, esdf, updated);
    let sites = spec_withdrawn_sites(tsdf, esdf, updated);
    let cleared = spec_cleared(tsdf, esdf, updated);
    let dirty = spec_first_dirty(tsdf, esdf, updated);
    let prepared = spec_prepared(tsdf, esdf, updated);
    vstd::seq_lib::seq_to_set_is_finite(updated);
    vstd::set::axiom_set_union_finite(tsdf.dom(), updated.to_set());
    vstd::set::axiom_set_union_finite(esdf.dom(), tsdf.dom().union(updated.to_set()));
    assert(mirrored.dom() =~= esdf.dom().union(tsdf.dom().union(updated.to_set())));
    assert(prepared.0.dom() =~= mirrored.dom());
    assert forall|b: BlockIndex<VPS>| #[trigger] cleared.contains(b) implies mirrored.contains_key(b) by {
        if !updated.contains(b) {
            lemma_reached_allocated(mirrored, sites, updated, b);
        }
    }
    assert forall|b: BlockIndex<VPS>| #[trigger] prepared.0.contains_key(b) implies prepared.0[b].len()
        == VPS * VPS * VPS by {
        if cleared.contains(b) {
            assert(tsdf.contains_key(b));
        }
    }
    assert forall|b: BlockIndex<VPS>| #[trigger] dirty.contains(b) implies mirrored.contains_key(b) by {
        if stays_valid(mirrored, sites, updated, b) {
            lemma_reached_allocated(mirrored, sites, updated, b);
        }
    }
    assert(dirty.subset_of(mirrored.dom()));
    vstd::set_lib::lemma_len_subset(dirty, mirrored.dom());
    lemma_sorted_seq_exists(dirty);
}

/// The field that an update leaves is a valid layer view with the blocks of
/// the prepared field, and every voxel of it is what the voxel of the
/// prepared field has settled to.
pub proof fn lemma_update_settles<const VPS: usize>(
    tsdf: Map<BlockIndex<VPS>, Seq<Tsdf>>,
    esdf: Map<BlockIndex<VPS>, Seq<Esdf>>,
    updated: Seq<BlockIndex<VPS>>,
    voxel_size: Real,
    result: Map<BlockIndex<VPS>, Seq<Esdf>>,
)
    requires
        is_layer_view(tsdf),
        is_layer_view(esdf),
        can_update(tsdf, esdf, updated),
        is_update_result(tsdf, esdf, updated, voxel_size, result),
    ensures
        is_layer_view(result),
        layer_settles(spec_prepared(tsdf, esdf, updated).0, result),
{
    let prepared = spec_prepared(tsdf, esdf, updated);
    lemma_prepared(tsdf, esdf, updated);
    let indices = lemma_enumerate(prepared.0);
    let n = choose|n: nat|
        comes_to_rest_after(prepared, voxel_size, n) && result == (#[trigger] spec_passes(
            prepared,
            voxel_size,
            n,
        )).0;
    lemma_passes_settle(indices, prepared, voxel_size, 0, n);
    assert(result.dom() =~= prepared.0.dom());
}

/// After an update every block of the truncated field is allocated in the
/// distance field, and no block of the distance field has gone.
pub proof fn lemma_update_mirrors_blocks<const VPS: usize>(
    tsdf: Map<BlockIndex<VPS>, Seq<Tsdf>>,
    esdf: Map<BlockIndex<VPS>, Seq<Esdf>>,
    updated: Seq<BlockIndex<VPS>>,
    voxel_size: Real,
    result: Map<BlockIndex<VPS>, Seq<Esdf>>,
)
    requires
        is_layer_view(tsdf),
        is_layer_view(esdf),
        can_update(tsdf, esdf, updated),
        is_update_result(tsdf, esdf, updated, voxel_size, result),
    ensures
        forall|b: BlockIndex<VPS>| tsdf.contains_key(b) ==> result.contains_key(b),
        forall|b: BlockIndex<VPS>| esdf.contains_key(b) ==> result.contains_key(b),
        forall|b: BlockIndex<VPS>|
            result.contains_key(b) <==> (esdf.contains_key(b) || tsdf.contains_key(b)
                || updated.contains(b)),
{
    lemma_prepared(tsdf, esdf, updated);
    lemma_update_settles(tsdf, esdf, updated, voxel_size, result);
}

/// Whether the distance field holds, at every observed voxel of a block of
/// the truncated field, the site that is seeded from that voxel: observed
/// and fixed, with the observed distance and the block as its site.
pub open spec fn holds_sites_of<const VPS: usize>(
    tsdf: Map<BlockIndex<VPS>, Seq<Tsdf>>,
    esdf: Map<BlockIndex<VPS>, Seq<Esdf>>,
    b: BlockIndex<VPS>,
) -> bool {
    &&& esdf.contains_key(b)
    &&& esdf[b].len() == tsdf[b].len()
    &&& forall|i: int|
        0 <= i < tsdf[b].len() && (#[trigger] tsdf[b][i]).is_observed() ==> esdf[b][i] == seeded_voxel(
            tsdf[b][i],
            b,
        )
}

/// After an update the distance field holds the sites of every block of the
/// truncated field that was cleared, the updated blocks among them, and of
/// every other block whose sites it held before.
pub proof fn lemma_update_holds_sites<const VPS: usize>(
    tsdf: Map<BlockIndex<VPS>, Seq<Tsdf>>,
    esdf: Map<BlockIndex<VPS>, Seq<Esdf>>,
    updated: Seq<BlockIndex<VPS>>,
    voxel_size: Real,
    result: Map<BlockIndex<VPS>, Seq<Esdf>>,
    b: BlockIndex<VPS>,
)
    requires
        is_layer_view(tsdf),
        is_layer_view(esdf),
        can_update(tsdf, esdf, updated),
        is_update_result(tsdf, esdf, updated, voxel_size, result),
        tsdf.contains_key(b),
        updated.contains(b) || spec_cleared(tsdf, esdf, updated).contains(b) || holds_sites_of(
            tsdf,
            esdf,
            b,
        ),
    ensures
        holds_sites_of(tsdf, result, b),
{
    let prepared = spec_prepared(tsdf, esdf, updated);
    lemma_prepared(tsdf, esdf, updated);
    lemma_update_settles(tsdf, esdf, updated, voxel_size, result);
    assert(prepared.0.contains_key(b));
    assert forall|i: int| 0 <= i < tsdf[b].len() && (#[trigger] tsdf[b][i]).is_observed() implies result[b][i]
        == seeded_voxel(tsdf[b][i], b) by {
        lemma_seeded_voxel(tsdf[b][i], b);
        assert(voxel_settles(prepared.0[b][i], result[b][i]));
        if spec_cleared(tsdf, esdf, updated).contains(b) {
            assert(prepared.0[b][i] == seeded_voxel(tsdf[b][i], b));
        } else {
            assert(prepared.0[b] == esdf[b]);
        }
    }
}

/// If every fixed voxel named an allocated block as the block of its site
/// before an update, every fixed voxel does so after it.
pub proof fn lemma_update_keeps_sites_allocated<const VPS: usize>(
    tsdf: Map<BlockIndex<VPS>, Seq<Tsdf>>,
    esdf: Map<BlockIndex<VPS>, Seq<Esdf>>,
    updated: Seq<BlockIndex<VPS>>,
    voxel_size: Real,
    result: Map<BlockIndex<VPS>, Seq<Esdf>>,
)
    requires
        is_layer_view(tsdf),
        is_layer_view(esdf),
        can_update(tsdf, esdf, updated),
        is_update_result(tsdf, esdf, updated, voxel_size, result),
        sites_allocated(esdf),
    ensures
        sites_allocated(result),
{
    let prepared = spec_prepared(tsdf, esdf, updated);
    lemma_prepared(tsdf, esdf, updated);
    let indices = lemma_enumerate(prepared.0);
    assert(sites_allocated(prepared.0)) by {
        assert forall|b: BlockIndex<VPS>| #[trigger] prepared.0.contains_key(b) implies sites_within(
            prepared.0[b],
            prepared.0.dom(),
        ) by {
            assert forall|i: int|
                0 <= i < prepared.0[b].len() && (#[trigger] prepared.0[b][i]).is_fixed() implies prepared.0.dom().contains(
                site_of::<VPS>(prepared.0[b][i]),
            ) by {
                if spec_cleared(tsdf, esdf, updated).contains(b) {
                    lemma_seeded_voxel(tsdf[b][i], b);
                } else if esdf.contains_key(b) {
                    assert(sites_within(esdf[b], esdf.dom()));
                    assert(esdf.contains_key(site_of::<VPS>(esdf[b][i])));
                } else {
                    assert(0u32 & 2u32 == 0u32) by (bit_vector);
                }
            }
        }
    }
    let n = choose|n: nat|
        comes_to_rest_after(prepared, voxel_size, n) && result == (#[trigger] spec_passes(
            prepared,
            voxel_size,
            n,
        )).0;
    lemma_passes_keep_sites(indices, prepared, voxel_size, n);
}

/// Passes keep the sites of the layer allocated.
pub proof fn lemma_passes_keep_sites<const VPS: usize>(
    indices: Seq<BlockIndex<VPS>>,
    state: (Map<BlockIndex<VPS>, Seq<Esdf>>, Seq<BlockIndex<VPS>>),
    voxel_size: Real,
    n: nat,
)
    requires
        0 < VPS,
        blocks_full(state.0),
        names_blocks(indices, state.0),
        all_allocated(state.1, state.0),
        sites_allocated(state.0),
    ensures
        sites_allocated(spec_passes(state, voxel_size, n).0),
    decreases n,
{
    if n > 0 {
        lemma_passes_keep_sites(indices, state, voxel_size, (n - 1) as nat);
        lemma_passes_settle(indices, state, voxel_size, (n - 1) as nat, (n - 1) as nat);
        lemma_pass_sites(spec_passes(state, voxel_size, (n - 1) as nat), voxel_size);
    }
}

/// An update with no updated block, on a distance field that has every
/// block of the truncated field, leaves the distance field as it is. So a
/// second update with no updated block changes nothing of what a first
/// update left.
pub proof fn lemma_empty_update_changes_nothing<const VPS: usize>(
    tsdf: Map<BlockIndex<VPS>, Seq<Tsdf>>,
    esdf: Map<BlockIndex<VPS>, Seq<Esdf>>,
    voxel_size: Real,
    result: Map<BlockIndex<VPS>, Seq<Esdf>>,
)
    requires
        forall|b: BlockIndex<VPS>| tsdf.contains_key(b) ==> esdf.contains_key(b),
        is_update_result(tsdf, esdf, Seq::<BlockIndex<VPS>>::empty(), voxel_size, result),
    ensures
        result == esdf,
        can_update(tsdf, esdf, Seq::<BlockIndex<VPS>>::empty()),
{
    let updated = Seq::<BlockIndex<VPS>>::empty();
    let mirrored = spec_mirrored(tsdf, esdf, updated);
    let sites = spec_withdrawn_sites(tsdf, esdf, updated);
    let cleared = spec_cleared(tsdf, esdf, updated);
    let dirty = spec_first_dirty(tsdf, esdf, updated);
    let prepared = spec_prepared(tsdf, esdf, updated);
    assert(mirrored =~= esdf);
    assert forall|b: BlockIndex<VPS>| !reached(mirrored, sites, updated, b) by {
        if reached(mirrored, sites, updated, b) {
            let path = choose|path: Seq<BlockIndex<VPS>>| #[trigger]
                is_wave_path(mirrored, sites, updated, path) && path.last() == b;
            assert(updated.contains(path[0]));
        }
    }
    assert(cleared =~= Set::<BlockIndex<VPS>>::empty());
    assert(dirty =~= Set::<BlockIndex<VPS>>::empty());
    lemma_sorted_seq(updated, dirty);
    assert(prepared.0 =~= esdf);
    let n = choose|n: nat|
        comes_to_rest_after(prepared, voxel_size, n) && result == (#[trigger] spec_passes(
            prepared,
            voxel_size,
            n,
        )).0;
    if n > 0 {
        assert(spec_passes(prepared, voxel_size, 0).1.len() > 0);
    }
}

/// What an update guarantees of the distance field `result` that it
/// leaves, given the truncated field, the distance field before the update
/// and the updated blocks:
/// - every block of the truncated field is allocated in it, and every block
///   that the distance field had;
/// - it holds the sites of every block of the truncated field that was
///   updated or cleared, and of every block whose sites the distance field
///   held before;
/// - every fixed voxel names an allocated block as the block of its site,
///   if that was so before;
/// - every voxel is what the voxel of the prepared field has settled to;
/// - nothing has changed, if no block was updated and the distance field
///   had every block of the truncated field.
pub open spec fn update_guarantees<const VPS: usize>(
    tsdf: Map<BlockIndex<VPS>, Seq<Tsdf>>,
    esdf: Map<BlockIndex<VPS>, Seq<Esdf>>,
    updated: Seq<BlockIndex<VPS>>,
    result: Map<BlockIndex<VPS>, Seq<Esdf>>,
) -> bool {
    &&& forall|b: BlockIndex<VPS>| tsdf.contains_key(b) ==> result.contains_key(b)
    &&& forall|b: BlockIndex<VPS>| esdf.contains_key(b) ==> result.contains_key(b)
    &&& forall|b: BlockIndex<VPS>|
        tsdf.contains_key(b) && (updated.contains(b) || spec_cleared(tsdf, esdf, updated).contains(b)
            || holds_sites_of(tsdf, esdf, b)) ==> #[trigger] holds_sites_of(tsdf, result, b)
    &&& sites_allocated(esdf) ==> sites_allocated(result)
    &&& layer_settles(spec_prepared(tsdf, esdf, updated).0, result)
    &&& updated.len() == 0 && (forall|b: BlockIndex<VPS>| tsdf.contains_key(b) ==> esdf.contains_key(b))
        ==> result == esdf
}

/// The field that an update leaves meets the guarantees of an update.
pub proof fn lemma_update_guarantees<const VPS: usize>(
    tsdf: Map<BlockIndex<VPS>, Seq<Tsdf>>,
    esdf: Map<BlockIndex<VPS>, Seq<Esdf>>,
    updated: Seq<BlockIndex<VPS>>,
    voxel_size: Real,
    result: Map<BlockIndex<VPS>, Seq<Esdf>>,
)
    requires
        is_layer_view(tsdf),
        is_layer_view(esdf),
        can_update(tsdf, esdf, updated),
        is_update_result(tsdf, esdf, updated, voxel_size, result),
    ensures
        update_guarantees(tsdf, esdf, updated, result),
{
    lemma_update_settles(tsdf, esdf, updated, voxel_size, result);
    lemma_update_mirrors_blocks(tsdf, esdf, updated, voxel_size, result);
    assert forall|b: BlockIndex<VPS>|
        tsdf.contains_key(b) && (updated.contains(b) || spec_cleared(tsdf, esdf, updated).contains(b)
            || holds_sites_of(tsdf, esdf, b)) implies #[trigger] holds_sites_of(tsdf, result, b) by {
        lemma_update_holds_sites(tsdf, esdf, updated, voxel_size, result, b);
    }
    if sites_allocated(esdf) {
        lemma_update_keeps_sites_allocated(tsdf, esdf, updated, voxel_size, result);
    }
    if updated.len() == 0 && (forall|b: BlockIndex<VPS>| tsdf.contains_key(b) ==> esdf.contains_key(b)) {
        assert(updated =~= Seq::<BlockIndex<VPS>>::empty());
        lemma_empty_update_changes_nothing(tsdf, esdf, voxel_size, result);
    }
}

} // verus!
