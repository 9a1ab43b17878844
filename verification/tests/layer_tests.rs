use incremental_esdf::index::{BlockIndex, GlobalIndex, VoxelIndex};
use incremental_esdf::layer::Layer;
use incremental_esdf::voxel::{Esdf, Tsdf};

#[test]
fn blocks_are_allocated_when_asked_for() {
    let mut layer: Layer<Tsdf, 4> = Layer::new(20);
    assert_eq!(layer.voxel_size(), 20);
    assert_eq!(layer.voxels_per_side(), 4);
    assert_eq!(layer.block_size(), 80);
    assert!(layer.allocated_blocks_iter().is_empty());
    let a = BlockIndex::new(1, -2, 3);
    let b = BlockIndex::new(0, 0, 0);
    assert!(!layer.contains(&a));
    assert!(layer.block_by_index(&a).is_none());
    assert!(layer.block_by_index_mut(&a).is_none());
    {
        let block = layer.allocate_block_by_index(&a);
        assert_eq!(block.as_slice().len(), 64);
        assert_eq!(*block.origin(), GlobalIndex { x: 4, y: -8, z: 12 });
        assert_eq!(block.voxel_size(), 20);
        block.voxel_from_lin_index_mut(3).weight = 2;
    }
    assert!(layer.contains(&a));
    assert_eq!(layer.allocate_block_by_index(&a).voxel_from_lin_index(3).weight, 2);
    layer.allocate_block_by_index(&b);
    assert_eq!(layer.allocated_blocks_iter(), &[a, b]);
    assert_eq!(layer.slot_of(&b), Some(1));
    assert_eq!(layer.slot_of(&BlockIndex::new(7, 7, 7)), None);
    assert_eq!(layer.allocate_slot(&a), 0);
    assert_eq!(layer.allocate_slot(&BlockIndex::new(7, 7, 7)), 2);
    assert_eq!(layer.block_at(0).voxel_from_lin_index(3).weight, 2);
    layer.block_at_mut(1).voxel_from_index_mut(&VoxelIndex { x: 1, y: 1, z: 1 }).distance = 5;
    assert_eq!(layer.block_by_index(&b).unwrap().voxel_from_lin_index(21).distance, 5);
    layer.block_by_index_mut(&b).unwrap().reset_voxels();
    assert_eq!(layer.block_by_index(&b).unwrap().voxel_from_lin_index(21).distance, 0);
    assert_eq!(layer.origin_from_index(&BlockIndex::new(-1, 0, 2)), GlobalIndex { x: -4, y: 0, z: 8 });
    layer.allocate_all(&[BlockIndex::new(9, 9, 9), a, BlockIndex::new(8, 8, 8)]);
    assert_eq!(layer.allocated_blocks_iter().len(), 5);
    assert_eq!(layer.allocated_blocks_iter()[3], BlockIndex::new(9, 9, 9));
    assert_eq!(layer.allocated_blocks_iter()[4], BlockIndex::new(8, 8, 8));
    layer.clear();
    assert!(layer.allocated_blocks_iter().is_empty());
    assert!(!layer.contains(&a));
    assert_eq!(layer.voxel_size(), 20);
}

#[test]
fn range_of_a_value_over_all_voxels() {
    let mut layer: Layer<Esdf, 2> = Layer::new(1);
    assert_eq!(layer.min_max_pred(|v| v.distance), (None, None));
    layer.allocate_block_by_index(&BlockIndex::new(0, 0, 0));
    assert_eq!(layer.min_max_pred(|v| v.distance), (Some(0), Some(0)));
    layer.allocate_block_by_index(&BlockIndex::new(0, 0, 0)).voxel_from_lin_index_mut(2).distance = -7;
    layer.allocate_block_by_index(&BlockIndex::new(1, 0, 0)).voxel_from_lin_index_mut(7).distance = 12;
    layer.allocate_block_by_index(&BlockIndex::new(1, 0, 0)).voxel_from_lin_index_mut(0).distance = 3;
    assert_eq!(layer.min_max_pred(|v| v.distance), (Some(-7), Some(12)));
    assert_eq!(layer.min_max_pred(|v| -v.distance), (Some(-12), Some(7)));
    assert_eq!(layer.min_max_pred(|_| 4), (Some(4), Some(4)));
}
