//! A layer: the sparse map from block indices to blocks.

use vstd::prelude::*;
use std::collections::HashMap;
use crate::block::Block;
use crate::index::{side_is_valid, BlockIndex, GlobalIndex, VoxelIndex};
use crate::voxel::{Real, Voxel};

verus! {

/// A sparse volume of one voxel flavour: the blocks that have been
/// allocated so far, each under its block index, and the size of a voxel.
/// Blocks are allocated when they are first asked for, and stay until the
/// layer is cleared.
#[derive(Debug)]
pub struct Layer<VoxelType: Voxel, const VPS: usize> {
    voxel_size: Real,
    indices: Vec<BlockIndex<VPS>>,
    blocks: Vec<Block<VoxelType, VPS>>,
    lookup: HashMap<u128, usize>,
}

impl<VoxelType: Voxel, const VPS: usize> View for Layer<VoxelType, VPS> {
    type V = Map<BlockIndex<VPS>, Seq<VoxelType>>;

    /// The voxels of each allocated block, x fastest.
    closed spec fn view(&self) -> Map<BlockIndex<VPS>, Seq<VoxelType>> {
        view_of(self.indices@, self.blocks@)
    }
}

/// A number that stands for a block index in the table that finds the place
/// of a block: no two block indices have the same number.
pub open spec fn block_key<const VPS: usize>(b: BlockIndex<VPS>) -> u128 {
    ((b.x - i32::MIN) * 0x1_0000_0000_0000_0000 + (b.y - i32::MIN) * 0x1_0000_0000 + (b.z
        - i32::MIN)) as u128
}

/// No two block indices have the same number.
pub proof fn lemma_block_key_injective<const VPS: usize>(a: BlockIndex<VPS>, b: BlockIndex<VPS>)
    requires
        block_key(a) == block_key(b),
    ensures
        a == b,
{
}

/// The number that stands for a block index.
fn key_of<const VPS: usize>(b: &BlockIndex<VPS>) -> (k: u128)
    ensures
        k == block_key(*b),
{
    let xs: u128 = (b.x as i64 + 0x8000_0000i64) as u128;
    let ys: u128 = (b.y as i64 + 0x8000_0000i64) as u128;
    let zs: u128 = (b.z as i64 + 0x8000_0000i64) as u128;
    xs * 0x1_0000_0000_0000_0000u128 + ys * 0x1_0000_0000u128 + zs
}

/// The table finds, for the number of each allocated block, the place of
/// the block, and holds nothing else.
pub closed spec fn lookup_fits<const VPS: usize>(
    indices: Seq<BlockIndex<VPS>>,
    lookup: Map<u128, usize>,
) -> bool {
    &&& forall|i: int|
        0 <= i < indices.len() ==> lookup.contains_key(block_key(#[trigger] indices[i]))
            && lookup[block_key(indices[i])] == i
    &&& forall|k: u128| #[trigger]
        lookup.contains_key(k) ==> lookup[k] < indices.len() && block_key(indices[lookup[k] as int]) == k
}

/// The map from each index to the voxels of the block at the same place.
pub closed spec fn view_of<VoxelType: Voxel, const VPS: usize>(
    indices: Seq<BlockIndex<VPS>>,
    blocks: Seq<Block<VoxelType, VPS>>,
) -> Map<BlockIndex<VPS>, Seq<VoxelType>> {
    Map::new(
        |b: BlockIndex<VPS>| indices.contains(b),
        |b: BlockIndex<VPS>| blocks[indices.index_of(b)]@,
    )
}

/// Each block is well formed, starts where its index says, and has voxels of
/// the given size.
pub closed spec fn blocks_fit<VoxelType: Voxel, const VPS: usize>(
    voxel_size: Real,
    indices: Seq<BlockIndex<VPS>>,
    blocks: Seq<Block<VoxelType, VPS>>,
) -> bool {
    &&& indices.len() == blocks.len()
    &&& forall|i: int|
        0 <= i < blocks.len() ==> {
            &&& (#[trigger] blocks[i]).wf()
            &&& blocks[i].spec_origin() == block_origin(indices[i])
            &&& blocks[i].spec_voxel_size() == voxel_size
        }
}

/// What a sequence of indices and blocks must meet to be a layer.
pub closed spec fn parts_wf<VoxelType: Voxel, const VPS: usize>(
    voxel_size: Real,
    indices: Seq<BlockIndex<VPS>>,
    blocks: Seq<Block<VoxelType, VPS>>,
) -> bool {
    &&& side_is_valid(VPS)
    &&& blocks_fit(voxel_size, indices, blocks)
    &&& indices.no_duplicates()
}

/// The view at the block that stands at a place.
proof fn lemma_slot_view<VoxelType: Voxel, const VPS: usize>(
    voxel_size: Real,
    indices: Seq<BlockIndex<VPS>>,
    blocks: Seq<Block<VoxelType, VPS>>,
    slot: int,
)
    requires
        parts_wf(voxel_size, indices, blocks),
        0 <= slot < indices.len(),
    ensures
        indices.index_of(indices[slot]) == slot,
        view_of(indices, blocks).contains_key(indices[slot]),
        view_of(indices, blocks)[indices[slot]] == blocks[slot]@,
        blocks[slot].wf(),
        blocks[slot].spec_origin() == block_origin(indices[slot]),
        blocks[slot].spec_voxel_size() == voxel_size,
{
    let b = indices[slot];
    assert(indices.contains(b));
    indices.index_of_first_ensures(b);
    let k = indices.index_of(b);
    assert(0 <= k < indices.len() && indices[k] == b);
}

/// Well formed parts give a view whose keys are the indices and whose
/// values hold one voxel for each place of a block.
proof fn lemma_parts_view<VoxelType: Voxel, const VPS: usize>(
    voxel_size: Real,
    indices: Seq<BlockIndex<VPS>>,
    blocks: Seq<Block<VoxelType, VPS>>,
)
    requires
        parts_wf(voxel_size, indices, blocks),
    ensures
        forall|b: BlockIndex<VPS>| view_of(indices, blocks).contains_key(b) <==> indices.contains(b),
        forall|b: BlockIndex<VPS>| #[trigger]
            view_of(indices, blocks).contains_key(b) ==> view_of(indices, blocks)[b].len() == VPS
                * VPS * VPS,
{
    assert forall|b: BlockIndex<VPS>| #[trigger]
        view_of(indices, blocks).contains_key(b) implies view_of(indices, blocks)[b].len() == VPS
        * VPS * VPS by {
        indices.index_of_first_ensures(b);
        let k = indices.index_of(b);
        assert(0 <= k < indices.len() && indices[k] == b);
        lemma_slot_view(voxel_size, indices, blocks, k);
    }
}

/// What a new block at the end does to the view.
proof fn lemma_push_slot<VoxelType: Voxel, const VPS: usize>(
    voxel_size: Real,
    indices: Seq<BlockIndex<VPS>>,
    blocks: Seq<Block<VoxelType, VPS>>,
    index: BlockIndex<VPS>,
    block: Block<VoxelType, VPS>,
)
    requires
        parts_wf(voxel_size, indices, blocks),
        !indices.contains(index),
        block.wf(),
        block.spec_origin() == block_origin(index),
        block.spec_voxel_size() == voxel_size,
    ensures
        parts_wf(voxel_size, indices.push(index), blocks.push(block)),
        view_of(indices.push(index), blocks.push(block)) == view_of(indices, blocks).insert(
            index,
            block@,
        ),
{
    let indices2 = indices.push(index);
    let blocks2 = blocks.push(block);
    assert(indices2.no_duplicates()) by {
        assert forall|i: int, j: int| 0 <= i < indices2.len() && 0 <= j < indices2.len() && i != j implies indices2[i]
            != indices2[j] by {
            if i < indices.len() {
                assert(indices.contains(indices[i]));
            }
            if j < indices.len() {
                assert(indices.contains(indices[j]));
            }
        }
    }
    assert forall|i: int| 0 <= i < blocks2.len() implies {
        &&& (#[trigger] blocks2[i]).wf()
        &&& blocks2[i].spec_origin() == block_origin(indices2[i])
        &&& blocks2[i].spec_voxel_size() == voxel_size
    } by {
        if i < blocks.len() {
            assert(blocks2[i] == blocks[i]);
            assert(blocks[i].wf());
        }
    }
    assert forall|b: BlockIndex<VPS>| indices2.contains(b) <==> (indices.contains(b) || b
        == index) by {
        if indices.contains(b) {
            let k = choose|k: int| 0 <= k < indices.len() && indices[k] == b;
            assert(indices2[k] == b);
        }
        if b == index {
            assert(indices2[indices.len() as int] == b);
        }
        if indices2.contains(b) {
            let k = choose|k: int| 0 <= k < indices2.len() && indices2[k] == b;
            if k < indices.len() {
                assert(indices[k] == b);
            }
        }
    }
    assert forall|b: BlockIndex<VPS>| indices2.contains(b) implies #[trigger] view_of(indices2, blocks2)[b]
        == (if b == index {
        block@
    } else {
        view_of(indices, blocks)[b]
    }) by {
        indices2.index_of_first_ensures(b);
        let k = indices2.index_of(b);
        assert(0 <= k < indices2.len() && indices2[k] == b);
        if b != index {
            indices.index_of_first_ensures(b);
            let k1 = indices.index_of(b);
            assert(0 <= k1 < indices.len() && indices[k1] == b);
            assert(indices2[k1] == b);
            assert(k == k1);
        } else {
            assert(indices2[indices.len() as int] == b);
            assert(k == indices.len());
        }
    }
    assert(view_of(indices2, blocks2) =~= view_of(indices, blocks).insert(index, block@));
}

/// What replacing the block at one place does to the view.
proof fn lemma_update_slot<VoxelType: Voxel, const VPS: usize>(
    voxel_size: Real,
    indices: Seq<BlockIndex<VPS>>,
    blocks: Seq<Block<VoxelType, VPS>>,
    slot: int,
    block: Block<VoxelType, VPS>,
)
    requires
        parts_wf(voxel_size, indices, blocks),
        0 <= slot < indices.len(),
    ensures
        view_of(indices, blocks.update(slot, block)) == view_of(indices, blocks).insert(
            indices[slot],
            block@,
        ),
        block.wf() && block.spec_origin() == blocks[slot].spec_origin() && block.spec_voxel_size()
            == blocks[slot].spec_voxel_size() ==> parts_wf(
            voxel_size,
            indices,
            blocks.update(slot, block),
        ),
{
    let key = indices[slot];
    let after = blocks.update(slot, block);
    lemma_slot_view(voxel_size, indices, blocks, slot);
    assert forall|b: BlockIndex<VPS>| indices.contains(b) implies #[trigger] view_of(indices, after)[b]
        == (if b == key {
        block@
    } else {
        view_of(indices, blocks)[b]
    }) by {
        let k = indices.index_of(b);
        indices.index_of_first_ensures(b);
        assert(0 <= k < indices.len() && indices[k] == b);
        if b != key {
            assert(k != slot);
        }
    }
    assert(view_of(indices, after) =~= view_of(indices, blocks).insert(key, block@));
    if block.wf() && block.spec_origin() == blocks[slot].spec_origin() && block.spec_voxel_size()
        == blocks[slot].spec_voxel_size() {
        assert forall|i: int| 0 <= i < after.len() implies {
            &&& (#[trigger] after[i]).wf()
            &&& after[i].spec_origin() == block_origin(indices[i])
            &&& after[i].spec_voxel_size() == voxel_size
        } by {
            if i != slot {
                assert(after[i] == blocks[i]);
                assert(blocks[i].wf());
            }
        }
    }
}

/// The voxels of a block that nothing has been written to.
pub open spec fn empty_voxels<VoxelType: Voxel, const VPS: usize>() -> Seq<VoxelType> {
    Seq::new((VPS * VPS * VPS) as nat, |i: int| VoxelType::spec_empty())
}

/// The sequence `s` with each block of `keys` that was missing added at the
/// end, in the order of `keys`.
pub open spec fn push_missing<const VPS: usize>(s: Seq<BlockIndex<VPS>>, keys: Seq<BlockIndex<VPS>>) -> Seq<
    BlockIndex<VPS>,
>
    decreases keys.len(),
{
    if keys.len() == 0 {
        s
    } else {
        let t = push_missing(s, keys.drop_last());
        if t.contains(keys.last()) {
            t
        } else {
            t.push(keys.last())
        }
    }
}

/// Adding blocks that are all there adds nothing.
pub proof fn lemma_push_missing_present<const VPS: usize>(s: Seq<BlockIndex<VPS>>, keys: Seq<BlockIndex<VPS>>)
    requires
        forall|k: BlockIndex<VPS>| keys.contains(k) ==> s.contains(k),
    ensures
        push_missing(s, keys) == s,
    decreases keys.len(),
{
    if keys.len() > 0 {
        let rest = keys.drop_last();
        assert forall|k: BlockIndex<VPS>| rest.contains(k) implies s.contains(k) by {
            let i = choose|i: int| 0 <= i < rest.len() && rest[i] == k;
            assert(keys[i] == k);
            assert(keys.contains(k));
        }
        lemma_push_missing_present(s, rest);
        assert(keys.contains(keys.last()));
    }
}

/// The blocks of `layer`, and a block of empty voxels for each block of
/// `keys` that `layer` does not hold.
pub open spec fn allocated_with<VoxelType: Voxel, const VPS: usize>(
    layer: Map<BlockIndex<VPS>, Seq<VoxelType>>,
    keys: Set<BlockIndex<VPS>>,
) -> Map<BlockIndex<VPS>, Seq<VoxelType>> {
    Map::new(
        |b: BlockIndex<VPS>| layer.contains_key(b) || keys.contains(b),
        |b: BlockIndex<VPS>|
            if layer.contains_key(b) {
                layer[b]
            } else {
                empty_voxels::<VoxelType, VPS>()
            },
    )
}

/// Whether a map can be the view of a layer: the side is not empty,
/// finitely many blocks are allocated, and each holds one voxel for each
/// place.
pub open spec fn is_layer_view<VoxelType, const VPS: usize>(
    layer: Map<BlockIndex<VPS>, Seq<VoxelType>>,
) -> bool {
    &&& 0 < VPS
    &&& layer.dom().finite()
    &&& forall|b: BlockIndex<VPS>| #[trigger] layer.contains_key(b) ==> layer[b].len() == VPS * VPS * VPS
}

/// Whether `x` is a value that `pred` gives for the voxel at place `i` of
/// the block `b`.
pub open spec fn value_at<VoxelType, F: Fn(&VoxelType) -> Real, const VPS: usize>(
    layer: Map<BlockIndex<VPS>, Seq<VoxelType>>,
    pred: F,
    b: BlockIndex<VPS>,
    i: int,
    x: Real,
) -> bool {
    &&& layer.contains_key(b)
    &&& 0 <= i < layer[b].len()
    &&& call_ensures(pred, (&layer[b][i],), x)
}

/// Whether `pred` gives a value between `lo` and `hi` for the voxel at
/// place `i` of the block `b`.
pub open spec fn bounded_at<VoxelType, F: Fn(&VoxelType) -> Real, const VPS: usize>(
    layer: Map<BlockIndex<VPS>, Seq<VoxelType>>,
    pred: F,
    b: BlockIndex<VPS>,
    i: int,
    lo: Real,
    hi: Real,
) -> bool {
    exists|x: Real| #[trigger] value_at(layer, pred, b, i, x) && lo <= x <= hi
}

/// The global index of the first voxel of a block.
pub open spec fn block_origin<const VPS: usize>(b: BlockIndex<VPS>) -> GlobalIndex<VPS> {
    GlobalIndex::spec_from_block_and_voxel_index(b, VoxelIndex { x: 0, y: 0, z: 0 })
}

impl<VoxelType: Voxel, const VPS: usize> Layer<VoxelType, VPS> {
    /// The allocated blocks in the order in which they were allocated.
    pub closed spec fn spec_indices(&self) -> Seq<BlockIndex<VPS>> {
        self.indices@
    }

    /// The size of a voxel of the layer.
    pub closed spec fn spec_voxel_size(&self) -> Real {
        self.voxel_size
    }

    /// What holds of the parts of the layer that its users do not see.
    pub closed spec fn inv(&self) -> bool {
        &&& blocks_fit(self.voxel_size, self.indices@, self.blocks@)
        &&& lookup_fits(self.indices@, self.lookup@)
    }

    /// The layer is well formed: no block is allocated twice, the allocated
    /// blocks are the keys of the view, and each holds `VPS * VPS * VPS`
    /// voxels.
    pub open spec fn wf(&self) -> bool {
        &&& side_is_valid(VPS)
        &&& self.inv()
        &&& self.spec_indices().no_duplicates()
        &&& forall|b: BlockIndex<VPS>| self@.contains_key(b) <==> self.spec_indices().contains(b)
        &&& forall|b: BlockIndex<VPS>| #[trigger]
            self@.contains_key(b) ==> self@[b].len() == VPS * VPS * VPS
    }

    /// The view of a well formed layer is a valid layer view.
    pub proof fn lemma_view_is_valid(&self)
        requires
            self.wf(),
        ensures
            is_layer_view(self@),
    {
        vstd::seq_lib::seq_to_set_is_finite(self.spec_indices());
        assert(self@.dom() =~= self.spec_indices().to_set());
    }

    /// An empty layer of voxels of the given size.
    pub fn new(voxel_size: Real) -> (l: Self)
        requires
            side_is_valid(VPS),
        ensures
            l.wf(),
            l.spec_voxel_size() == voxel_size,
            l.spec_indices().len() == 0,
            l@ == Map::<BlockIndex<VPS>, Seq<VoxelType>>::empty(),
    {
        let l = Layer { voxel_size, indices: Vec::new(), blocks: Vec::new(), lookup: HashMap::new() };
        assert(l@ =~= Map::<BlockIndex<VPS>, Seq<VoxelType>>::empty());
        l
    }

    /// The size of a voxel of the layer.
    #[inline]
    pub fn voxel_size(&self) -> (s: Real)
        ensures
            s == self.spec_voxel_size(),
    {
        self.voxel_size
    }

    /// The number of voxels along a side of a block.
    #[inline]
    pub fn voxels_per_side(&self) -> (n: usize)
        ensures
            n == VPS,
    {
        VPS
    }

    /// The length of a block's side, in the unit of the voxel size.
    #[inline]
    pub fn block_size(&self) -> (s: i64)
        requires
            side_is_valid(VPS),
        ensures
            s == self.spec_voxel_size() * VPS,
    {
        assert(-0x4000_0000_0000_0000 <= self.voxel_size * VPS <= 0x4000_0000_0000_0000)
            by (nonlinear_arith)
            requires
                -0x8000_0000 <= self.voxel_size <= 0x7fff_ffff,
                0 < VPS <= 0x7fff_ffff,
        ;
        (self.voxel_size as i64) * (VPS as i64)
    }

    /// The place of a block among the allocated blocks.
    pub fn slot_of(&self, index: &BlockIndex<VPS>) -> (r: Option<usize>)
        requires
            self.wf(),
        ensures
            match r {
                Some(slot) => slot < self.spec_indices().len() && self.spec_indices()[slot as int]
                    == *index && self@.contains_key(*index),
                None => !self@.contains_key(*index),
            },
    {
        let key = key_of(index);
        match self.lookup.get(&key) {
            Some(slot) => {
                proof {
                    assert(self.lookup@.contains_key(key));
                    lemma_block_key_injective(self.indices@[*slot as int], *index);
                    assert(self.indices@.contains(*index));
                }
                Some(*slot)
            },
            None => {
                proof {
                    if self.indices@.contains(*index) {
                        let i = choose|i: int| 0 <= i < self.indices@.len() && self.indices@[i] == *index;
                        assert(self.lookup@.contains_key(block_key(self.indices@[i])));
                    }
                }
                None
            },
        }
    }

    /// Whether the block is allocated.
    pub fn contains(&self, index: &BlockIndex<VPS>) -> (r: bool)
        requires
            self.wf(),
        ensures
            r == self@.contains_key(*index),
    {
        self.slot_of(index).is_some()
    }

    /// The allocated blocks, in the order in which they were allocated.
    pub fn allocated_blocks_iter(&self) -> (r: &[BlockIndex<VPS>])
        ensures
            r@ == self.spec_indices(),
    {
        self.indices.as_slice()
    }

    /// Forgets every block.
    pub fn clear(&mut self)
        requires
            old(self).wf(),
        ensures
            final(self).wf(),
            final(self).spec_voxel_size() == old(self).spec_voxel_size(),
            final(self).spec_indices().len() == 0,
            final(self)@ == Map::<BlockIndex<VPS>, Seq<VoxelType>>::empty(),
    {
        self.indices.clear();
        self.blocks.clear();
        self.lookup.clear();
        assert(self@ =~= Map::<BlockIndex<VPS>, Seq<VoxelType>>::empty());
    }

    /// The block at a place among the allocated blocks.
    pub fn block_at(&self, slot: usize) -> (b: &Block<VoxelType, VPS>)
        requires
            self.wf(),
            slot < self.spec_indices().len(),
        ensures
            b.wf(),
            b@ == self@[self.spec_indices()[slot as int]],
            b.spec_origin() == block_origin(self.spec_indices()[slot as int]),
            b.spec_voxel_size() == self.spec_voxel_size(),
    {
        proof {
            lemma_slot_view(self.voxel_size, self.indices@, self.blocks@, slot as int);
        }
        &self.blocks[slot]
    }

    /// The block at a place among the allocated blocks, to write to. The
    /// layer stays well formed when the block does and keeps its origin and
    /// voxel size; the operations of a block see to that.
    pub fn block_at_mut(&mut self, slot: usize) -> (b: &mut Block<VoxelType, VPS>)
        requires
            old(self).wf(),
            slot < old(self).spec_indices().len(),
        ensures
            b.wf(),
            b@ == old(self)@[old(self).spec_indices()[slot as int]],
            b.spec_origin() == block_origin(old(self).spec_indices()[slot as int]),
            b.spec_voxel_size() == old(self).spec_voxel_size(),
            final(self).spec_indices() == old(self).spec_indices(),
            final(self).spec_voxel_size() == old(self).spec_voxel_size(),
            final(self)@ == old(self)@.insert(old(self).spec_indices()[slot as int], final(b)@),
            final(b).wf() && final(b).spec_origin() == b.spec_origin() && final(b).spec_voxel_size()
                == b.spec_voxel_size() ==> final(self).wf(),
    {
        proof {
            lemma_slot_view(self.voxel_size, self.indices@, self.blocks@, slot as int);
        }
        let ghost voxel_size = self.voxel_size;
        let ghost indices = self.indices@;
        let ghost blocks = self.blocks@;
        let b = &mut self.blocks[slot];
        proof {
            assert forall|block: Block<VoxelType, VPS>| #![trigger blocks.update(slot as int, block)]
                {
                    let after = blocks.update(slot as int, block);
                    &&& view_of(indices, after) == view_of(indices, blocks).insert(
                        indices[slot as int],
                        block@,
                    )
                    &&& block.wf() && block.spec_origin() == blocks[slot as int].spec_origin()
                        && block.spec_voxel_size() == blocks[slot as int].spec_voxel_size() ==> {
                        &&& parts_wf(voxel_size, indices, after)
                        &&& forall|k: BlockIndex<VPS>|
                            view_of(indices, after).contains_key(k) <==> indices.contains(k)
                        &&& forall|k: BlockIndex<VPS>| #[trigger]
                            view_of(indices, after).contains_key(k) ==> view_of(indices, after)[k].len()
                                == VPS * VPS * VPS
                    }
                } by {
                let after = blocks.update(slot as int, block);
                lemma_update_slot(voxel_size, indices, blocks, slot as int, block);
                if parts_wf(voxel_size, indices, after) {
                    lemma_parts_view(voxel_size, indices, after);
                }
            }
        }
        b
    }

    /// The block under an index, if it is allocated.
    pub fn block_by_index(&self, index: &BlockIndex<VPS>) -> (r: Option<&Block<VoxelType, VPS>>)
        requires
            self.wf(),
        ensures
            r is Some <==> self@.contains_key(*index),
            r matches Some(b) ==> b.wf() && b@ == self@[*index] && b.spec_origin() == block_origin(
                *index,
            ) && b.spec_voxel_size() == self.spec_voxel_size(),
    {
        match self.slot_of(index) {
            Some(slot) => Some(self.block_at(slot)),
            None => None,
        }
    }

    /// The block under an index, to write to, if it is allocated. The layer
    /// stays well formed when the block does and keeps its origin and voxel
    /// size; the operations of a block see to that.
    pub fn block_by_index_mut(
        &mut self,
        index: &BlockIndex<VPS>,
    ) -> (r: Option<&mut Block<VoxelType, VPS>>)
        requires
            old(self).wf(),
        ensures
            r is Some <==> old(self)@.contains_key(*index),
            final(self).spec_indices() == old(self).spec_indices(),
            final(self).spec_voxel_size() == old(self).spec_voxel_size(),
            r is None ==> final(self)@ == old(self)@ && final(self).wf(),
            r matches Some(b) ==> {
                &&& b.wf()
                &&& b@ == old(self)@[*index]
                &&& b.spec_origin() == block_origin(*index)
                &&& b.spec_voxel_size() == old(self).spec_voxel_size()
                &&& final(self)@ == old(self)@.insert(*index, final(b)@)
                &&& final(b).wf() && final(b).spec_origin() == b.spec_origin()
                    && final(b).spec_voxel_size() == b.spec_voxel_size() ==> final(self).wf()
            },
    {
        match self.slot_of(index) {
            Some(slot) => Some(self.block_at_mut(slot)),
            None => None,
        }
    }

    /// Makes sure that the block is allocated, with empty voxels if it is
    /// new, and says at which place it stands.
    pub fn allocate_slot(&mut self, index: &BlockIndex<VPS>) -> (slot: usize)
        requires
            old(self).wf(),
        ensures
            final(self).wf(),
            final(self).spec_voxel_size() == old(self).spec_voxel_size(),
            slot < final(self).spec_indices().len(),
            final(self).spec_indices()[slot as int] == *index,
            old(self)@.contains_key(*index) ==> final(self)@ == old(self)@
                && final(self).spec_indices() == old(self).spec_indices(),
            !old(self)@.contains_key(*index) ==> final(self)@ == old(self)@.insert(
                *index,
                empty_voxels::<VoxelType, VPS>(),
            ) && final(self).spec_indices() == old(self).spec_indices().push(*index),
    {
        match self.slot_of(index) {
            Some(slot) => slot,
            None => {
                let origin = self.origin_from_index(index);
                let block = Block::<VoxelType, VPS>::new(self.voxel_size, origin);
                proof {
                    lemma_push_slot(self.voxel_size, self.indices@, self.blocks@, *index, block);
                    lemma_parts_view(
                        self.voxel_size,
                        self.indices@.push(*index),
                        self.blocks@.push(block),
                    );
                    assert(block@ =~= empty_voxels::<VoxelType, VPS>());
                }
                let slot = self.indices.len();
                let ghost indices_before = self.indices@;
                let ghost lookup_before = self.lookup@;
                let key = key_of(index);
                self.indices.push(*index);
                self.blocks.push(block);
                let _ = self.lookup.insert(key, slot);
                proof {
                    let indices_after = self.indices@;
                    let lookup_after = self.lookup@;
                    assert forall|i: int| 0 <= i < indices_after.len() implies lookup_after.contains_key(
                        block_key(#[trigger] indices_after[i]),
                    ) && lookup_after[block_key(indices_after[i])] == i by {
                        if i < indices_before.len() {
                            assert(indices_after[i] == indices_before[i]);
                            assert(indices_before.contains(indices_before[i]));
                            if block_key(indices_before[i]) == key {
                                lemma_block_key_injective(indices_before[i], *index);
                            }
                        }
                    }
                    assert forall|k: u128| #[trigger] lookup_after.contains_key(k) implies lookup_after[k]
                        < indices_after.len() && block_key(indices_after[lookup_after[k] as int])
                        == k by {
                        if k != key {
                            assert(lookup_before.contains_key(k));
                            assert(indices_after[lookup_before[k] as int]
                                == indices_before[lookup_before[k] as int]);
                        }
                    }
                }
                slot
            },
        }
    }

    /// Makes sure that every block of `keys` is allocated; the new ones hold
    /// empty voxels.
    pub fn allocate_all(&mut self, keys: &[BlockIndex<VPS>])
        requires
            old(self).wf(),
        ensures
            final(self).wf(),
            final(self).spec_voxel_size() == old(self).spec_voxel_size(),
            final(self)@ == allocated_with(old(self)@, keys@.to_set()),
            final(self).spec_indices() == push_missing(old(self).spec_indices(), keys@),
    {
        let ghost start = self@;
        let ghost start_indices = self.spec_indices();
        let mut i: usize = 0;
        proof {
            assert(keys@.take(0).len() == 0);
            assert(self@ =~= allocated_with(start, keys@.take(0).to_set()));
        }
        while i < keys.len()
            invariant
                i <= keys@.len(),
                self.wf(),
                self.spec_voxel_size() == old(self).spec_voxel_size(),
                self@ == allocated_with(start, keys@.take(i as int).to_set()),
                self.spec_indices() == push_missing(start_indices, keys@.take(i as int)),
            decreases keys@.len() - i,
        {
            let ghost before = self@;
            let _ = self.allocate_slot(&keys[i]);
            proof {
                let k0 = keys@.take(i as int);
                let k1 = keys@.take(i + 1);
                let key = keys@[i as int];
                assert(k1.drop_last() =~= k0);
                assert(k1.last() == key);
                assert forall|b: BlockIndex<VPS>| k1.contains(b) <==> (k0.contains(b) || b == key) by {
                    if k1.contains(b) {
                        let j = choose|j: int| 0 <= j < k1.len() && k1[j] == b;
                        if j < i {
                            assert(k0[j] == b);
                        }
                    }
                    if k0.contains(b) {
                        let j = choose|j: int| 0 <= j < k0.len() && k0[j] == b;
                        assert(k1[j] == b);
                    }
                    if b == key {
                        assert(k1[i as int] == b);
                    }
                }
                assert(self@ =~= allocated_with(start, k1.to_set()));
            }
            i += 1;
        }
        proof {
            assert(keys@.take(i as int) =~= keys@);
        }
    }

    /// The block under an index, to write to; it is allocated with empty
    /// voxels if it was not there.
    pub fn allocate_block_by_index(
        &mut self,
        index: &BlockIndex<VPS>,
    ) -> (b: &mut Block<VoxelType, VPS>)
        requires
            old(self).wf(),
        ensures
            b.wf(),
            b@ == (if old(self)@.contains_key(*index) {
                old(self)@[*index]
            } else {
                empty_voxels::<VoxelType, VPS>()
            }),
            b.spec_origin() == block_origin(*index),
            b.spec_voxel_size() == old(self).spec_voxel_size(),
            final(self).spec_indices() == (if old(self)@.contains_key(*index) {
                old(self).spec_indices()
            } else {
                old(self).spec_indices().push(*index)
            }),
            final(self).spec_voxel_size() == old(self).spec_voxel_size(),
            final(self)@ == old(self)@.insert(*index, final(b)@),
            final(b).wf() && final(b).spec_origin() == b.spec_origin() && final(b).spec_voxel_size()
                == b.spec_voxel_size() ==> final(self).wf(),
    {
        let slot = self.allocate_slot(index);
        self.block_at_mut(slot)
    }

    /// The least and the greatest value that `pred` gives for a voxel of the
    /// layer, or nothing if the layer holds no block.
    pub fn min_max_pred<F: Fn(&VoxelType) -> Real>(&self, pred: F) -> (r: (Option<Real>, Option<Real>))
        requires
            self.wf(),
            forall|v: VoxelType| call_requires(pred, (&v,)),
        ensures
            self.spec_indices().len() == 0 ==> r.0 is None && r.1 is None,
            self.spec_indices().len() > 0 ==> r.0 is Some && r.1 is Some,
            r.0 matches Some(lo) ==> r.1 matches Some(hi) ==> {
                &&& lo <= hi
                &&& exists|b: BlockIndex<VPS>, i: int| #[trigger] value_at(self@, pred, b, i, lo)
                &&& exists|b: BlockIndex<VPS>, i: int| #[trigger] value_at(self@, pred, b, i, hi)
                &&& forall|b: BlockIndex<VPS>, i: int|
                    self@.contains_key(b) && 0 <= i < self@[b].len() ==> #[trigger] bounded_at(
                        self@,
                        pred,
                        b,
                        i,
                        lo,
                        hi,
                    )
            },
    {
        let mut curr_min: Option<Real> = None;
        let mut curr_max: Option<Real> = None;
        let mut k: usize = 0;
        while k < self.indices.len()
            invariant
                self.wf(),
                forall|v: VoxelType| call_requires(pred, (&v,)),
                k <= self.spec_indices().len(),
                k == 0 ==> curr_min is None && curr_max is None,
                k > 0 ==> curr_min is Some && curr_max is Some,
                curr_min matches Some(lo) ==> curr_max matches Some(hi) ==> {
                    &&& lo <= hi
                    &&& exists|b: BlockIndex<VPS>, i: int| #[trigger] value_at(self@, pred, b, i, lo)
                    &&& exists|b: BlockIndex<VPS>, i: int| #[trigger] value_at(self@, pred, b, i, hi)
                    &&& forall|k1: int, i: int|
                        0 <= k1 < k && 0 <= i < VPS * VPS * VPS ==> #[trigger] bounded_at(
                            self@,
                            pred,
                            self.spec_indices()[k1],
                            i,
                            lo,
                            hi,
                        )
                },
            decreases self.spec_indices().len() - k,
        {
            let block = self.block_at(k);
            let voxels = block.as_slice();
            let ghost key = self.spec_indices()[k as int];
            proof {
                assert(self.spec_indices().contains(key));
                assert(VPS * VPS * VPS >= 1) by (nonlinear_arith)
                    requires
                        VPS >= 1,
                ;
            }
            let mut i: usize = 0;
            while i < voxels.len()
                invariant
                    self.wf(),
                    forall|v: VoxelType| call_requires(pred, (&v,)),
                    k < self.spec_indices().len(),
                    key == self.spec_indices()[k as int],
                    self@.contains_key(key),
                    voxels@ == self@[key],
                    voxels@.len() == VPS * VPS * VPS,
                    i <= voxels@.len(),
                    k == 0 && i == 0 ==> curr_min is None && curr_max is None,
                    k > 0 || i > 0 ==> curr_min is Some && curr_max is Some,
                    curr_min matches Some(lo) ==> curr_max matches Some(hi) ==> {
                        &&& lo <= hi
                        &&& exists|b: BlockIndex<VPS>, j: int| #[trigger] value_at(self@, pred, b, j, lo)
                        &&& exists|b: BlockIndex<VPS>, j: int| #[trigger] value_at(self@, pred, b, j, hi)
                        &&& forall|k1: int, j: int|
                            0 <= k1 < k && 0 <= j < VPS * VPS * VPS ==> #[trigger] bounded_at(
                                self@,
                                pred,
                                self.spec_indices()[k1],
                                j,
                                lo,
                                hi,
                            )
                        &&& forall|j: int| 0 <= j < i ==> #[trigger] bounded_at(self@, pred, key, j, lo, hi)
                    },
                decreases voxels@.len() - i,
            {
                let p = pred(&voxels[i]);
                let ghost old_min = curr_min;
                let ghost old_max = curr_max;
                proof {
                    assert(value_at(self@, pred, key, i as int, p));
                }
                match curr_max {
                    Some(hi) => {
                        if hi < p {
                            curr_max = Some(p);
                        }
                    },
                    None => {
                        curr_max = Some(p);
                    },
                }
                match curr_min {
                    Some(lo) => {
                        if lo > p {
                            curr_min = Some(p);
                        }
                    },
                    None => {
                        curr_min = Some(p);
                    },
                }
                proof {
                    let lo = curr_min->Some_0;
                    let hi = curr_max->Some_0;
                    assert forall|k1: int, j: int|
                        0 <= k1 < k && 0 <= j < VPS * VPS * VPS implies #[trigger] bounded_at(
                        self@,
                        pred,
                        self.spec_indices()[k1],
                        j,
                        lo,
                        hi,
                    ) by {
                        assert(bounded_at(
                            self@,
                            pred,
                            self.spec_indices()[k1],
                            j,
                            old_min->Some_0,
                            old_max->Some_0,
                        ));
                        let x = choose|x: Real| #[trigger]
                            value_at(self@, pred, self.spec_indices()[k1], j, x) && old_min->Some_0 <= x
                                <= old_max->Some_0;
                        assert(value_at(self@, pred, self.spec_indices()[k1], j, x) && lo <= x <= hi);
                    }
                    assert forall|j: int| 0 <= j < i + 1 implies #[trigger] bounded_at(
                        self@,
                        pred,
                        key,
                        j,
                        lo,
                        hi,
                    ) by {
                        if j < i {
                            assert(bounded_at(self@, pred, key, j, old_min->Some_0, old_max->Some_0));
                            let x = choose|x: Real| #[trigger]
                                value_at(self@, pred, key, j, x) && old_min->Some_0 <= x
                                    <= old_max->Some_0;
                            assert(value_at(self@, pred, key, j, x) && lo <= x <= hi);
                        } else {
                            assert(value_at(self@, pred, key, j, p) && lo <= p <= hi);
                        }
                    }
                }
                i += 1;
            }
            k += 1;
        }
        proof {
            if curr_min is Some {
                let lo = curr_min->Some_0;
                let hi = curr_max->Some_0;
                assert forall|b: BlockIndex<VPS>, i: int|
                    self@.contains_key(b) && 0 <= i < self@[b].len() implies #[trigger] bounded_at(
                    self@,
                    pred,
                    b,
                    i,
                    lo,
                    hi,
                ) by {
                    assert(self.spec_indices().contains(b));
                    let k1 = choose|k1: int|
                        0 <= k1 < self.spec_indices().len() && self.spec_indices()[k1] == b;
                    assert(bounded_at(self@, pred, self.spec_indices()[k1], i, lo, hi));
                }
            }
        }
        (curr_min, curr_max)
    }

    /// The global index of the first voxel of a block.
    pub fn origin_from_index(&self, index: &BlockIndex<VPS>) -> (o: GlobalIndex<VPS>)
        requires
            side_is_valid(VPS),
        ensures
            o == block_origin(*index),
    {
        GlobalIndex::from_block_and_voxel_index(index, &VoxelIndex { x: 0, y: 0, z: 0 })
    }
}

} // verus!
