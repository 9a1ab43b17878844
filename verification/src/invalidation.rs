//! Which blocks of the distance field a change of the truncated field
//! invalidates: the blocks that hold a distance to a site in a changed
//! block, found by a walk over face neighbours that starts at the changed
//! blocks.

use vstd::prelude::*;
use crate::block_set::{is_sorted, lemma_sorted_subset_len, BlockSet};
use crate::index::{spec_neighbour, BlockIndex, FACE_NEIGHBOUR_COUNT};
use crate::layer::Layer;
use crate::voxel::{Esdf, EsdfFlags, HAS_SITE_INDEX};

verus! {

/// The block that a voxel names as the block of its site.
pub open spec fn site_of<const VPS: usize>(v: Esdf) -> BlockIndex<VPS> {
    v.site_block_index.spec_block::<VPS>()
}

/// Whether a voxel of the sequence has a site in one of the given blocks.
pub open spec fn voxels_refer_to<const VPS: usize>(voxels: Seq<Esdf>, sites: Set<BlockIndex<VPS>>) -> bool {
    exists|i: int|
        0 <= i < voxels.len() && (#[trigger] voxels[i]).has_site_index() && sites.contains(
            site_of::<VPS>(voxels[i]),
        )
}

/// The blocks that the voxels of the given blocks name as the block of
/// their site.
pub open spec fn referenced_sites<const VPS: usize>(
    layer: Map<BlockIndex<VPS>, Seq<Esdf>>,
    blocks: Seq<BlockIndex<VPS>>,
) -> Set<BlockIndex<VPS>> {
    Set::new(
        |s: BlockIndex<VPS>|
            exists|b: BlockIndex<VPS>|
                blocks.contains(b) && layer.contains_key(b) && #[trigger] voxels_refer_to(
                    layer[b],
                    set![s],
                ),
    )
}

/// Whether the block is allocated and holds a voxel with a site in one of
/// the given blocks.
pub open spec fn block_flagged<const VPS: usize>(
    layer: Map<BlockIndex<VPS>, Seq<Esdf>>,
    sites: Set<BlockIndex<VPS>>,
    b: BlockIndex<VPS>,
) -> bool {
    layer.contains_key(b) && voxels_refer_to(layer[b], sites)
}

/// Whether `b` shares a face with `a`.
pub open spec fn is_face_neighbour<const VPS: usize>(a: BlockIndex<VPS>, b: BlockIndex<VPS>) -> bool {
    exists|k: int| 0 <= k < FACE_NEIGHBOUR_COUNT && (#[trigger] spec_neighbour(a, k)).index == b
}

/// A step of the walk: it leaves a flagged block for an allocated block
/// that shares a face with it.
pub open spec fn is_wave_step<const VPS: usize>(
    layer: Map<BlockIndex<VPS>, Seq<Esdf>>,
    sites: Set<BlockIndex<VPS>>,
    path: Seq<BlockIndex<VPS>>,
    i: int,
) -> bool {
    &&& block_flagged(layer, sites, path[i])
    &&& is_face_neighbour(path[i], path[i + 1])
    &&& layer.contains_key(path[i + 1])
}

/// A way of the walk: it starts at one of the start blocks and goes on by
/// steps of the walk.
pub open spec fn is_wave_path<const VPS: usize>(
    layer: Map<BlockIndex<VPS>, Seq<Esdf>>,
    sites: Set<BlockIndex<VPS>>,
    start: Seq<BlockIndex<VPS>>,
    path: Seq<BlockIndex<VPS>>,
) -> bool {
    &&& path.len() > 0
    &&& start.contains(path[0])
    &&& forall|i: int| 0 <= i < path.len() - 1 ==> #[trigger] is_wave_step(layer, sites, path, i)
}

/// Whether the walk reaches the block.
pub open spec fn reached<const VPS: usize>(
    layer: Map<BlockIndex<VPS>, Seq<Esdf>>,
    sites: Set<BlockIndex<VPS>>,
    start: Seq<BlockIndex<VPS>>,
    b: BlockIndex<VPS>,
) -> bool {
    exists|path: Seq<BlockIndex<VPS>>| #[trigger]
        is_wave_path(layer, sites, start, path) && path.last() == b
}

/// Whether the block has to be cleared: it is a start block, or the walk
/// reaches it and it is flagged.
pub open spec fn must_clear<const VPS: usize>(
    layer: Map<BlockIndex<VPS>, Seq<Esdf>>,
    sites: Set<BlockIndex<VPS>>,
    start: Seq<BlockIndex<VPS>>,
    b: BlockIndex<VPS>,
) -> bool {
    start.contains(b) || (reached(layer, sites, start, b) && block_flagged(layer, sites, b))
}

/// Whether the block keeps its distances and lets them flow into the
/// cleared blocks: the walk reaches it, it is allocated and it is not
/// flagged.
pub open spec fn stays_valid<const VPS: usize>(
    layer: Map<BlockIndex<VPS>, Seq<Esdf>>,
    sites: Set<BlockIndex<VPS>>,
    start: Seq<BlockIndex<VPS>>,
    b: BlockIndex<VPS>,
) -> bool {
    reached(layer, sites, start, b) && layer.contains_key(b) && !block_flagged(layer, sites, b)
}

/// Whether a voxel of the slice has a site in one of the given blocks.
pub fn refers_to<const VPS: usize>(voxels: &[Esdf], sites: &BlockSet<VPS>) -> (r: bool)
    requires
        sites.wf(),
    ensures
        r == voxels_refer_to(voxels@, sites@.to_set()),
{
    let mut i: usize = 0;
    while i < voxels.len()
        invariant
            sites.wf(),
            i <= voxels@.len(),
            forall|j: int|
                0 <= j < i ==> !((#[trigger] voxels@[j]).has_site_index() && sites@.to_set().contains(
                    site_of::<VPS>(voxels@[j]),
                )),
        decreases voxels@.len() - i,
    {
        let voxel = &voxels[i];
        if voxel.flags.contains(EsdfFlags { bits: HAS_SITE_INDEX }) && sites.contains(
            &voxel.site_block_index.block::<VPS>(),
        ) {
            return true;
        }
        i += 1;
    }
    false
}

/// Whether one of the first `n` voxels names `s` as the block of its site.
pub open spec fn site_among<const VPS: usize>(voxels: Seq<Esdf>, n: int, s: BlockIndex<VPS>) -> bool {
    exists|k: int|
        0 <= k < n && k < voxels.len() && (#[trigger] voxels[k]).has_site_index() && site_of::<VPS>(
            voxels[k],
        ) == s
}

/// Looking at one voxel more.
proof fn lemma_site_among_step<const VPS: usize>(voxels: Seq<Esdf>, n: int, s: BlockIndex<VPS>)
    requires
        0 <= n < voxels.len(),
    ensures
        site_among(voxels, n + 1, s) <==> (site_among(voxels, n, s) || (voxels[n].has_site_index()
            && site_of::<VPS>(voxels[n]) == s)),
{
    if site_among(voxels, n + 1, s) {
        let k = choose|k: int|
            0 <= k < n + 1 && k < voxels.len() && (#[trigger] voxels[k]).has_site_index() && site_of::<VPS>(
                voxels[k],
            ) == s;
        if k < n {
            assert(site_among(voxels, n, s));
        }
    }
    if site_among(voxels, n, s) {
        let k = choose|k: int|
            0 <= k < n && k < voxels.len() && (#[trigger] voxels[k]).has_site_index() && site_of::<VPS>(
                voxels[k],
            ) == s;
        assert(0 <= k < n + 1 && voxels[k].has_site_index());
    }
    if voxels[n].has_site_index() && site_of::<VPS>(voxels[n]) == s {
        assert(site_among(voxels, n + 1, s));
    }
}

/// A block refers to a site when one of its voxels names it.
proof fn lemma_site_among_all<const VPS: usize>(voxels: Seq<Esdf>, s: BlockIndex<VPS>)
    ensures
        site_among(voxels, voxels.len() as int, s) <==> voxels_refer_to(voxels, set![s]),
{
    if site_among(voxels, voxels.len() as int, s) {
        let k = choose|k: int|
            0 <= k < voxels.len() && k < voxels.len() && (#[trigger] voxels[k]).has_site_index()
                && site_of::<VPS>(voxels[k]) == s;
        assert(set![s].contains(site_of::<VPS>(voxels[k])));
    }
    if voxels_refer_to(voxels, set![s]) {
        let k = choose|k: int|
            0 <= k < voxels.len() && (#[trigger] voxels[k]).has_site_index() && set![s].contains(
                site_of::<VPS>(voxels[k]),
            );
        assert(site_of::<VPS>(voxels[k]) == s);
        assert(site_among(voxels, voxels.len() as int, s));
    }
}

/// The sites that the blocks of a longer list refer to.
proof fn lemma_referenced_sites_step<const VPS: usize>(
    layer: Map<BlockIndex<VPS>, Seq<Esdf>>,
    blocks: Seq<BlockIndex<VPS>>,
    j: int,
    s: BlockIndex<VPS>,
)
    requires
        0 <= j < blocks.len(),
    ensures
        referenced_sites(layer, blocks.take(j + 1)).contains(s) <==> (referenced_sites(
            layer,
            blocks.take(j),
        ).contains(s) || (layer.contains_key(blocks[j]) && voxels_refer_to(layer[blocks[j]], set![s]))),
{
    let done = blocks.take(j);
    let next = blocks.take(j + 1);
    let key = blocks[j];
    assert forall|b: BlockIndex<VPS>| next.contains(b) <==> (done.contains(b) || b == key) by {
        if next.contains(b) {
            let k = choose|k: int| 0 <= k < next.len() && next[k] == b;
            if k < j {
                assert(done[k] == b);
            }
        }
        if done.contains(b) {
            let k = choose|k: int| 0 <= k < done.len() && done[k] == b;
            assert(next[k] == b);
        }
        if b == key {
            assert(next[j] == b);
        }
    }
    if referenced_sites(layer, next).contains(s) {
        let b = choose|b: BlockIndex<VPS>|
            next.contains(b) && layer.contains_key(b) && #[trigger] voxels_refer_to(layer[b], set![s]);
        if b != key {
            assert(done.contains(b));
            assert(referenced_sites(layer, done).contains(s));
        }
    }
    if referenced_sites(layer, done).contains(s) {
        let b = choose|b: BlockIndex<VPS>|
            done.contains(b) && layer.contains_key(b) && #[trigger] voxels_refer_to(layer[b], set![s]);
        assert(next.contains(b));
        assert(referenced_sites(layer, next).contains(s));
    }
    if layer.contains_key(key) && voxels_refer_to(layer[key], set![s]) {
        assert(next.contains(key));
        assert(referenced_sites(layer, next).contains(s));
    }
}

/// The blocks that the voxels of the given blocks name as the block of
/// their site.
pub fn collect_sites<const VPS: usize>(
    esdf_layer: &Layer<Esdf, VPS>,
    blocks: &[BlockIndex<VPS>],
) -> (sites: BlockSet<VPS>)
    requires
        esdf_layer.wf(),
    ensures
        sites.wf(),
        forall|s: BlockIndex<VPS>|
            sites@.contains(s) <==> referenced_sites(esdf_layer@, blocks@).contains(s),
{
    let mut sites = BlockSet::<VPS>::new();
    let mut j: usize = 0;
    while j < blocks.len()
        invariant
            esdf_layer.wf(),
            sites.wf(),
            j <= blocks@.len(),
            forall|s: BlockIndex<VPS>| #[trigger]
                sites@.contains(s) <==> referenced_sites(esdf_layer@, blocks@.take(j as int)).contains(s),
        decreases blocks@.len() - j,
    {
        let ghost sites_before = sites@;
        match esdf_layer.block_by_index(&blocks[j]) {
            Some(block) => {
                let voxels = block.as_slice();
                let mut i: usize = 0;
                while i < voxels.len()
                    invariant
                        sites.wf(),
                        i <= voxels@.len(),
                        forall|s: BlockIndex<VPS>| #[trigger]
                            sites@.contains(s) <==> (sites_before.contains(s) || site_among(
                                voxels@,
                                i as int,
                                s,
                            )),
                    decreases voxels@.len() - i,
                {
                    let voxel = &voxels[i];
                    let ghost inner_before = sites@;
                    if voxel.flags.contains(EsdfFlags { bits: HAS_SITE_INDEX }) {
                        let _ = sites.insert(voxel.site_block_index.block::<VPS>());
                    }
                    proof {
                        assert forall|s: BlockIndex<VPS>| #[trigger]
                            sites@.contains(s) <==> (sites_before.contains(s) || site_among(
                                voxels@,
                                i + 1,
                                s,
                            )) by {
                            lemma_site_among_step(voxels@, i as int, s);
                            assert(inner_before.contains(s) <==> (sites_before.contains(s) || site_among(
                                voxels@,
                                i as int,
                                s,
                            )));
                        }
                    }
                    i += 1;
                }
                proof {
                    assert forall|s: BlockIndex<VPS>| #[trigger]
                        sites@.contains(s) <==> referenced_sites(esdf_layer@, blocks@.take(j + 1)).contains(
                            s,
                        ) by {
                        lemma_site_among_all(voxels@, s);
                        lemma_referenced_sites_step(esdf_layer@, blocks@, j as int, s);
                        assert(sites_before.contains(s) <==> referenced_sites(
                            esdf_layer@,
                            blocks@.take(j as int),
                        ).contains(s));
                    }
                }
            },
            None => {
                proof {
                    assert forall|s: BlockIndex<VPS>| #[trigger]
                        sites@.contains(s) <==> referenced_sites(esdf_layer@, blocks@.take(j + 1)).contains(
                            s,
                        ) by {
                        lemma_referenced_sites_step(esdf_layer@, blocks@, j as int, s);
                    }
                }
            },
        }
        j += 1;
    }
    proof {
        assert(blocks@.take(j as int) =~= blocks@);
    }
    sites
}

/// The blocks that a walk found: those to clear, those that stay valid and
/// lie next to a cleared block, and all the blocks that were visited.
#[derive(Debug)]
pub struct Invalidation<const VPS: usize> {
    pub blocks_to_clear: BlockSet<VPS>,
    pub dirty: BlockSet<VPS>,
    pub closed: BlockSet<VPS>,
}

/// Puts the allocated face neighbours of a block that have not been visited
/// on the list of blocks to visit.
fn enqueue_neighbours<const VPS: usize>(
    index: &BlockIndex<VPS>,
    esdf_layer: &Layer<Esdf, VPS>,
    closed: &BlockSet<VPS>,
    open: &mut BlockSet<VPS>,
)
    requires
        esdf_layer.wf(),
        closed.wf(),
        old(open).wf(),
    ensures
        final(open).wf(),
        forall|b: BlockIndex<VPS>| #[trigger]
            final(open)@.contains(b) <==> (old(open)@.contains(b) || (is_face_neighbour(*index, b)
                && !closed@.contains(b) && esdf_layer@.contains_key(b))),
{
    let mut it = index.neighbors6();
    let mut k: usize = 0;
    while k < FACE_NEIGHBOUR_COUNT
        invariant
            esdf_layer.wf(),
            closed.wf(),
            open.wf(),
            k <= FACE_NEIGHBOUR_COUNT,
            it.pivot() == *index,
            it.count() == FACE_NEIGHBOUR_COUNT,
            it.position() == k,
            forall|b: BlockIndex<VPS>| #[trigger]
                open@.contains(b) <==> (old(open)@.contains(b) || ((exists|j: int|
                    0 <= j < k && (#[trigger] spec_neighbour(*index, j)).index == b) && !closed@.contains(
                    b,
                ) && esdf_layer@.contains_key(b))),
        decreases FACE_NEIGHBOUR_COUNT - k,
    {
        let ghost before = open@;
        match it.next() {
            Some(neighbour) => {
                if !closed.contains(&neighbour.index) && esdf_layer.contains(&neighbour.index) {
                    let _ = open.insert(neighbour.index);
                }
            },
            None => {},
        }
        proof {
            let n = spec_neighbour(*index, k as int).index;
            assert forall|b: BlockIndex<VPS>| #[trigger]
                open@.contains(b) <==> (old(open)@.contains(b) || ((exists|j: int|
                    0 <= j < k + 1 && (#[trigger] spec_neighbour(*index, j)).index == b)
                    && !closed@.contains(b) && esdf_layer@.contains_key(b))) by {
                let a0 = exists|j: int| 0 <= j < k && (#[trigger] spec_neighbour(*index, j)).index == b;
                let a1 = exists|j: int|
                    0 <= j < k + 1 && (#[trigger] spec_neighbour(*index, j)).index == b;
                assert(before.contains(b) <==> (old(open)@.contains(b) || (a0 && !closed@.contains(b)
                    && esdf_layer@.contains_key(b))));
                if a0 {
                    let j = choose|j: int|
                        0 <= j < k && (#[trigger] spec_neighbour(*index, j)).index == b;
                    assert(0 <= j < k + 1 && spec_neighbour(*index, j).index == b);
                }
                if b == n {
                    assert(spec_neighbour(*index, k as int).index == b);
                    assert(a1);
                }
                if a1 {
                    let j = choose|j: int|
                        0 <= j < k + 1 && (#[trigger] spec_neighbour(*index, j)).index == b;
                    if j < k {
                        assert(a0);
                    } else {
                        assert(b == n);
                    }
                }
            }
        }
        k += 1;
    }
}

/// What holds of the lists of the walk while it runs.
pub open spec fn walk_inv<const VPS: usize>(
    layer: Map<BlockIndex<VPS>, Seq<Esdf>>,
    sites: Set<BlockIndex<VPS>>,
    start: Seq<BlockIndex<VPS>>,
    open: Seq<BlockIndex<VPS>>,
    closed: Seq<BlockIndex<VPS>>,
) -> bool {
    &&& forall|b: BlockIndex<VPS>| #[trigger]
        open.contains(b) ==> (layer.contains_key(b) || start.contains(b)) && reached(
            layer,
            sites,
            start,
            b,
        ) && !closed.contains(b)
    &&& forall|b: BlockIndex<VPS>| #[trigger]
        closed.contains(b) ==> (layer.contains_key(b) || start.contains(b)) && reached(
            layer,
            sites,
            start,
            b,
        )
    &&& forall|b: BlockIndex<VPS>| #[trigger]
        start.contains(b) ==> open.contains(b) || closed.contains(b)
    &&& forall|b: BlockIndex<VPS>, n: BlockIndex<VPS>|
        closed.contains(b) && block_flagged(layer, sites, b) && #[trigger] is_face_neighbour(b, n)
            && layer.contains_key(n) ==> open.contains(n) || closed.contains(n)
}

/// A start block is reached.
proof fn lemma_start_reached<const VPS: usize>(
    layer: Map<BlockIndex<VPS>, Seq<Esdf>>,
    sites: Set<BlockIndex<VPS>>,
    start: Seq<BlockIndex<VPS>>,
    b: BlockIndex<VPS>,
)
    requires
        start.contains(b),
    ensures
        reached(layer, sites, start, b),
{
    let path = seq![b];
    assert(path[0] == b);
    assert(is_wave_path(layer, sites, start, path));
    assert(path.last() == b);
}

/// An allocated face neighbour of a flagged block that is reached is
/// reached.
proof fn lemma_step_reached<const VPS: usize>(
    layer: Map<BlockIndex<VPS>, Seq<Esdf>>,
    sites: Set<BlockIndex<VPS>>,
    start: Seq<BlockIndex<VPS>>,
    b: BlockIndex<VPS>,
    n: BlockIndex<VPS>,
)
    requires
        reached(layer, sites, start, b),
        block_flagged(layer, sites, b),
        is_face_neighbour(b, n),
        layer.contains_key(n),
    ensures
        reached(layer, sites, start, n),
{
    let path = choose|path: Seq<BlockIndex<VPS>>| #[trigger]
        is_wave_path(layer, sites, start, path) && path.last() == b;
    let longer = path.push(n);
    assert(longer[0] == path[0]);
    assert forall|i: int| 0 <= i < longer.len() - 1 implies #[trigger] is_wave_step(
        layer,
        sites,
        longer,
        i,
    ) by {
        if i < path.len() - 1 {
            assert(longer[i] == path[i] && longer[i + 1] == path[i + 1]);
            assert(is_wave_step(layer, sites, path, i));
        } else {
            assert(longer[i] == b && longer[i + 1] == n);
        }
    }
    assert(is_wave_path(layer, sites, start, longer));
    assert(longer.last() == n);
}

/// When no block is left to visit, every block on a way of the walk has
/// been visited.
proof fn lemma_walk_complete<const VPS: usize>(
    layer: Map<BlockIndex<VPS>, Seq<Esdf>>,
    sites: Set<BlockIndex<VPS>>,
    start: Seq<BlockIndex<VPS>>,
    closed: Seq<BlockIndex<VPS>>,
    path: Seq<BlockIndex<VPS>>,
    j: int,
)
    requires
        walk_inv(layer, sites, start, Seq::<BlockIndex<VPS>>::empty(), closed),
        is_wave_path(layer, sites, start, path),
        0 <= j < path.len(),
    ensures
        closed.contains(path[j]),
    decreases j,
{
    let open = Seq::<BlockIndex<VPS>>::empty();
    if j == 0 {
        assert(start.contains(path[0]));
        assert(open.contains(path[0]) || closed.contains(path[0]));
    } else {
        lemma_walk_complete(layer, sites, start, closed, path, j - 1);
        assert(is_wave_step(layer, sites, path, j - 1));
        assert(block_flagged(layer, sites, path[j - 1]));
        assert(is_face_neighbour(path[j - 1], path[j]));
        assert(open.contains(path[j]) || closed.contains(path[j]));
    }
}

/// The lists of the walk after a block has been taken from the list of
/// blocks to visit: it has been visited, and if it is flagged its
/// allocated face neighbours that had not been visited are to be visited.
proof fn lemma_walk_step<const VPS: usize>(
    layer: Map<BlockIndex<VPS>, Seq<Esdf>>,
    sites: Set<BlockIndex<VPS>>,
    start: Seq<BlockIndex<VPS>>,
    open: Seq<BlockIndex<VPS>>,
    closed: Seq<BlockIndex<VPS>>,
    index: BlockIndex<VPS>,
    open_after: Seq<BlockIndex<VPS>>,
    closed_after: Seq<BlockIndex<VPS>>,
)
    requires
        walk_inv(layer, sites, start, open, closed),
        open.contains(index),
        forall|b: BlockIndex<VPS>| #[trigger]
            closed_after.contains(b) <==> (closed.contains(b) || b == index),
        block_flagged(layer, sites, index) ==> forall|b: BlockIndex<VPS>| #[trigger]
            open_after.contains(b) <==> ((open.contains(b) && b != index) || (is_face_neighbour(index, b)
                && !closed_after.contains(b) && layer.contains_key(b))),
        !block_flagged(layer, sites, index) ==> forall|b: BlockIndex<VPS>| #[trigger]
            open_after.contains(b) <==> (open.contains(b) && b != index),
    ensures
        walk_inv(layer, sites, start, open_after, closed_after),
{
    assert forall|b: BlockIndex<VPS>| #[trigger] open_after.contains(b) implies (layer.contains_key(b)
        || start.contains(b)) && reached(layer, sites, start, b) && !closed_after.contains(b) by {
        if !(open.contains(b) && b != index) {
            lemma_step_reached(layer, sites, start, index, b);
        }
    }
    assert forall|b: BlockIndex<VPS>| #[trigger] closed_after.contains(b) implies (layer.contains_key(
        b,
    ) || start.contains(b)) && reached(layer, sites, start, b) by {
        if !closed.contains(b) {
            assert(b == index);
        }
    }
    assert forall|b: BlockIndex<VPS>| #[trigger] start.contains(b) implies open_after.contains(b)
        || closed_after.contains(b) by {
        assert(open.contains(b) || closed.contains(b));
        if open.contains(b) && b == index {
            assert(closed_after.contains(b));
        }
    }
    assert forall|b: BlockIndex<VPS>, n: BlockIndex<VPS>|
        closed_after.contains(b) && block_flagged(layer, sites, b) && #[trigger] is_face_neighbour(b, n)
            && layer.contains_key(n) implies open_after.contains(n) || closed_after.contains(n) by {
        if closed.contains(b) {
            assert(open.contains(n) || closed.contains(n));
            if open.contains(n) && n == index {
                assert(closed_after.contains(n));
            }
        } else {
            assert(b == index);
        }
    }
}

/// What taking the first block out of a sorted list does to the list.
proof fn lemma_pop_first_members<const VPS: usize>(s: Seq<BlockIndex<VPS>>)
    requires
        is_sorted(s),
        s.len() > 0,
    ensures
        s.contains(s[0]),
        forall|b: BlockIndex<VPS>| #[trigger] s.drop_first().contains(b) <==> (s.contains(b) && b != s[0]),
{
    let t = s.drop_first();
    crate::block_set::lemma_sorted_no_duplicates(s);
    assert forall|b: BlockIndex<VPS>| #[trigger] t.contains(b) <==> (s.contains(b) && b != s[0]) by {
        if t.contains(b) {
            let j = choose|j: int| 0 <= j < t.len() && t[j] == b;
            assert(s[j + 1] == b);
        }
        if s.contains(b) && b != s[0] {
            let j = choose|j: int| 0 <= j < s.len() && s[j] == b;
            assert(t[j - 1] == b);
        }
    }
}

/// The walk visits no more blocks than there are allocated blocks and start
/// blocks.
proof fn lemma_visited_bound<const VPS: usize>(
    closed: Seq<BlockIndex<VPS>>,
    indices: Seq<BlockIndex<VPS>>,
    start: Seq<BlockIndex<VPS>>,
)
    requires
        is_sorted(closed),
        forall|b: BlockIndex<VPS>| closed.contains(b) ==> indices.contains(b) || start.contains(b),
    ensures
        closed.len() <= indices.len() + start.len(),
{
    let all = indices + start;
    assert forall|b: BlockIndex<VPS>| closed.contains(b) implies all.contains(b) by {
        if indices.contains(b) {
            let k = choose|k: int| 0 <= k < indices.len() && indices[k] == b;
            assert(all[k] == b);
        } else {
            let k = choose|k: int| 0 <= k < start.len() && start[k] == b;
            assert(all[indices.len() + k] == b);
        }
    }
    lemma_sorted_subset_len(closed, all);
}

/// Walks from the updated blocks over face neighbours, as long as the
/// blocks hold a distance to one of the given sites, and sorts the blocks
/// that it visits into those to clear and those that stay valid.
pub fn invalidated_blocks<const VPS: usize>(
    esdf_layer: &Layer<Esdf, VPS>,
    updated_blocks: &BlockSet<VPS>,
    sites: &BlockSet<VPS>,
) -> (r: Invalidation<VPS>)
    requires
        esdf_layer.wf(),
        updated_blocks.wf(),
        sites.wf(),
    ensures
        r.blocks_to_clear.wf(),
        r.dirty.wf(),
        r.closed.wf(),
        forall|b: BlockIndex<VPS>| #[trigger]
            r.closed@.contains(b) <==> reached(esdf_layer@, sites@.to_set(), updated_blocks@, b),
        forall|b: BlockIndex<VPS>| #[trigger]
            r.blocks_to_clear@.contains(b) <==> must_clear(
                esdf_layer@,
                sites@.to_set(),
                updated_blocks@,
                b,
            ),
        forall|b: BlockIndex<VPS>| #[trigger]
            r.dirty@.contains(b) <==> stays_valid(esdf_layer@, sites@.to_set(), updated_blocks@, b),
        forall|b: BlockIndex<VPS>| #[trigger]
            r.closed@.contains(b) ==> esdf_layer@.contains_key(b) || updated_blocks@.contains(b),
{
    let ghost layer = esdf_layer@;
    let ghost site_set = sites@.to_set();
    let ghost start = updated_blocks@;
    let mut open_list = updated_blocks.clone();
    let mut closed_list = BlockSet::<VPS>::new();
    let mut blocks_to_clear = updated_blocks.clone();
    let mut dirty_blocks = BlockSet::<VPS>::new();
    proof {
        assert forall|b: BlockIndex<VPS>| #[trigger] start.contains(b) implies reached(
            layer,
            site_set,
            start,
            b,
        ) by {
            lemma_start_reached(layer, site_set, start, b);
        }
    }
    while !open_list.is_empty()
        invariant
            esdf_layer.wf(),
            sites.wf(),
            layer == esdf_layer@,
            site_set == sites@.to_set(),
            start == updated_blocks@,
            open_list.wf(),
            closed_list.wf(),
            blocks_to_clear.wf(),
            dirty_blocks.wf(),
            walk_inv(layer, site_set, start, open_list@, closed_list@),
            forall|b: BlockIndex<VPS>| #[trigger]
                blocks_to_clear@.contains(b) <==> (start.contains(b) || (closed_list@.contains(b)
                    && block_flagged(layer, site_set, b))),
            forall|b: BlockIndex<VPS>| #[trigger]
                dirty_blocks@.contains(b) <==> (closed_list@.contains(b) && layer.contains_key(b)
                    && !block_flagged(layer, site_set, b)),
            closed_list@.len() <= esdf_layer.spec_indices().len() + start.len(),
        decreases esdf_layer.spec_indices().len() + start.len() - closed_list@.len(),
    {
        let ghost open_before = open_list@;
        let ghost closed_before = closed_list@;
        let ghost clear_before = blocks_to_clear@;
        let ghost dirty_before = dirty_blocks@;
        proof {
            lemma_pop_first_members(open_before);
        }
        let index = match open_list.pop_first() {
            Some(index) => index,
            None => {
                return Invalidation { blocks_to_clear, dirty: dirty_blocks, closed: closed_list };
            },
        };
        let ghost open_mid = open_list@;
        assert(open_before.contains(index) && !closed_before.contains(index));
        let _ = closed_list.insert(index);
        proof {
            assert forall|b: BlockIndex<VPS>| closed_list@.contains(b) implies esdf_layer.spec_indices().contains(
                b,
            ) || start.contains(b) by {
                if b != index {
                    assert(closed_before.contains(b));
                }
            }
            lemma_visited_bound(closed_list@, esdf_layer.spec_indices(), start);
        }
        let mut flagged = false;
        match esdf_layer.block_by_index(&index) {
            Some(esdf_block) => {
                flagged = refers_to(esdf_block.as_slice(), sites);
                if flagged {
                    let _ = blocks_to_clear.insert(index);
                    enqueue_neighbours(&index, esdf_layer, &closed_list, &mut open_list);
                } else {
                    let _ = dirty_blocks.insert(index);
                }
            },
            None => {},
        }
        assert(flagged == block_flagged(layer, site_set, index));
        proof {
            let open_after = open_list@;
            let closed_after = closed_list@;
            if flagged {
                assert forall|b: BlockIndex<VPS>| #[trigger]
                    open_after.contains(b) <==> ((open_before.contains(b) && b != index) || (
                    is_face_neighbour(index, b) && !closed_after.contains(b) && layer.contains_key(b))) by {
                    assert(open_mid.contains(b) <==> (open_before.contains(b) && b != index));
                }
            } else {
                assert forall|b: BlockIndex<VPS>| #[trigger]
                    open_after.contains(b) <==> (open_before.contains(b) && b != index) by {
                    assert(open_mid.contains(b) <==> (open_before.contains(b) && b != index));
                }
            }
            lemma_walk_step(
                layer,
                site_set,
                start,
                open_before,
                closed_before,
                index,
                open_after,
                closed_after,
            );
            assert forall|b: BlockIndex<VPS>| #[trigger]
                blocks_to_clear@.contains(b) <==> (start.contains(b) || (closed_after.contains(b)
                    && block_flagged(layer, site_set, b))) by {
                assert(clear_before.contains(b) <==> (start.contains(b) || (closed_before.contains(b)
                    && block_flagged(layer, site_set, b))));
            }
            assert forall|b: BlockIndex<VPS>| #[trigger]
                dirty_blocks@.contains(b) <==> (closed_after.contains(b) && layer.contains_key(b)
                    && !block_flagged(layer, site_set, b)) by {
                assert(dirty_before.contains(b) <==> (closed_before.contains(b) && layer.contains_key(b)
                    && !block_flagged(layer, site_set, b)));
            }
        }
    }
    proof {
        assert(open_list@ =~= Seq::<BlockIndex<VPS>>::empty());
        assert forall|b: BlockIndex<VPS>| #[trigger]
            closed_list@.contains(b) <==> reached(layer, site_set, start, b) by {
            if reached(layer, site_set, start, b) {
                let path = choose|path: Seq<BlockIndex<VPS>>| #[trigger]
                    is_wave_path(layer, site_set, start, path) && path.last() == b;
                lemma_walk_complete(layer, site_set, start, closed_list@, path, path.len() - 1);
            }
        }
    }
    Invalidation { blocks_to_clear, dirty: dirty_blocks, closed: closed_list }
}

} // verus!
