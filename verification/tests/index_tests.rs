use incremental_esdf::index::{BlockIndex, GlobalIndex, GridIndex, VoxelIndex};

#[test]
fn test_block_index_from_global_index() {
    let global_index: GlobalIndex<3> = GlobalIndex { x: -1, y: -2, z: -3 };

    assert_eq!(global_index.block_index(), BlockIndex::new(-1, -1, -1));

    let global_index: GlobalIndex<3> = GlobalIndex { x: 1, y: 2, z: 3 };

    assert_eq!(global_index.block_index(), BlockIndex::new(0, 0, 1));
}

/// The voxel that holds a point, found with floating point arithmetic as a
/// driver of the library does it before it hands indices to the library.
fn from_point<const VPS: usize>(p: (f32, f32, f32), grid_size_inv: f32) -> GlobalIndex<VPS> {
    GlobalIndex {
        x: (p.0 * grid_size_inv + f32::EPSILON).floor() as i64,
        y: (p.1 * grid_size_inv + f32::EPSILON).floor() as i64,
        z: (p.2 * grid_size_inv + f32::EPSILON).floor() as i64,
    }
}

#[test]
fn test_global_index() {
    let global_index: GlobalIndex<3> = from_point((1.0, 2.0, 3.0), 1.0 / 0.5);
    assert_eq!(global_index, GlobalIndex { x: 2, y: 4, z: 6 });

    let global_index: GlobalIndex<3> = GlobalIndex { x: 5, y: 5, z: 5 };
    let block_index = global_index.block_index();
    assert_eq!(block_index, BlockIndex::new(1, 1, 1));

    let global_index: GlobalIndex<3> = GlobalIndex { x: -5, y: -5, z: -5 };
    let block_index = global_index.block_index();
    assert_eq!(block_index, BlockIndex::new(-2, -2, -2));

    let global_index: GlobalIndex<3> = GlobalIndex { x: -1, y: -4, z: -5 };
    let voxel_index = global_index.local_voxel_index();
    assert_eq!(voxel_index, VoxelIndex { x: 2, y: 2, z: 1 });
    assert_eq!(global_index.block_index(), BlockIndex::new(-1, -2, -2));

    let global_index: GlobalIndex<32> = GlobalIndex { x: -4, y: 19, z: 0 };
    let voxel_index = global_index.local_voxel_index();
    assert_eq!(voxel_index, VoxelIndex { x: 28, y: 19, z: 0 });

    let global_index: GlobalIndex<4> = GlobalIndex { x: 0, y: -4, z: 0 };
    let voxel_index = global_index.local_voxel_index();
    assert_eq!(voxel_index, VoxelIndex { x: 0, y: 0, z: 0 });
}

#[test]
fn test_block_from_lin_index() {
    let block_index = BlockIndex::new(0, 0, 0);
    let global_index: GlobalIndex<3> =
        GlobalIndex::from_block_and_local_lin_index(&block_index, (3 * 3 * 3) - 1);

    assert_eq!(global_index, GlobalIndex { x: 2, y: 2, z: 2 });

    let global_index: GlobalIndex<3> =
        GlobalIndex::from_block_and_local_lin_index(&block_index, (1 * 2 * 3) - 1);

    assert_eq!(global_index, GlobalIndex { x: 2, y: 1, z: 0 });
}

#[test]
fn global_index_splits_and_joins_for_all_signs() {
    for &(x, y, z) in &[
        (0i64, 0i64, 0i64),
        (7, -7, 1),
        (-1, -4, -5),
        (-8, 8, -9),
        (23, -24, 25),
        (-1000, 999, -1),
        (i32::MAX as i64 * 8 + 7, i32::MIN as i64 * 8, 0),
    ] {
        let g: GlobalIndex<8> = GlobalIndex { x, y, z };
        let (b, v) = g.block_voxel_index();
        assert_eq!(b, g.block_index());
        assert_eq!(v, g.local_voxel_index());
        assert!(v.x < 8 && v.y < 8 && v.z < 8);
        assert_eq!(GlobalIndex::from_block_and_voxel_index(&b, &v), g);
        assert_eq!(GlobalIndex::from_block_and_local_lin_index(&b, v.linear_index()), g);
    }
    let g: GlobalIndex<3> = GlobalIndex { x: -1, y: -4, z: -5 };
    assert_eq!(g.block_index(), BlockIndex::new(-1, -2, -2));
    assert_eq!(g.local_voxel_index(), VoxelIndex { x: 2, y: 2, z: 1 });
    let joined: GlobalIndex<3> =
        GlobalIndex::from_block_and_voxel_index(&BlockIndex::new(-1, -2, -2), &VoxelIndex { x: 2, y: 2, z: 1 });
    assert_eq!(joined, g);
}

#[test]
fn block_index_keeps_low_bits_of_wide_quotients() {
    let g: GlobalIndex<1> = GlobalIndex { x: 1i64 << 32, y: (1i64 << 31) + 5, z: -(1i64 << 31) - 1 };
    assert_eq!(g.block_index(), BlockIndex::new(0, i32::MIN + 5, i32::MAX));
}

#[test]
fn neighbours_come_in_table_order() {
    let pivot: GlobalIndex<8> = GlobalIndex { x: 10, y: 20, z: 30 };
    let mut it = pivot.neighbors();
    let mut all = Vec::new();
    while let Some(n) = it.next() {
        all.push(n);
    }
    assert!(it.next().is_none());
    assert_eq!(all.len(), 26);
    let faces: Vec<(i64, i64, i64)> = all[..6].iter().map(|n| (n.dir.x, n.dir.y, n.dir.z)).collect();
    assert_eq!(faces, vec![(-1, 0, 0), (1, 0, 0), (0, -1, 0), (0, 1, 0), (0, 0, -1), (0, 0, 1)]);
    assert_eq!((all[6].dir.x, all[6].dir.y, all[6].dir.z), (-1, -1, 0));
    assert_eq!((all[17].dir.x, all[17].dir.y, all[17].dir.z), (0, 1, 1));
    assert_eq!((all[18].dir.x, all[18].dir.y, all[18].dir.z), (-1, -1, -1));
    assert_eq!((all[25].dir.x, all[25].dir.y, all[25].dir.z), (1, 1, 1));
    for (k, n) in all.iter().enumerate() {
        let expected = if k < 6 { 1 } else if k < 18 { 2 } else { 3 };
        assert_eq!(n.grid_dist_sq, expected);
        let nonzero = [n.dir.x, n.dir.y, n.dir.z].iter().filter(|c| **c != 0).count();
        assert_eq!(nonzero as u8, n.grid_dist_sq);
        assert_eq!(n.index, GlobalIndex { x: 10 + n.dir.x, y: 20 + n.dir.y, z: 30 + n.dir.z });
        for m in &all[..k] {
            assert!(m.index != n.index);
        }
    }
    let mut six = pivot.neighbors6();
    let mut count = 0;
    while let Some(n) = six.next() {
        assert_eq!(n.grid_dist_sq, 1);
        count += 1;
    }
    assert_eq!(count, 6);
}

#[test]
fn block_neighbours_wrap_at_the_limits() {
    let pivot: BlockIndex<8> = BlockIndex::new(i32::MAX, 0, i32::MIN);
    let mut it = pivot.neighbors6();
    let mut found = Vec::new();
    while let Some(n) = it.next() {
        found.push(n.index);
    }
    assert_eq!(
        found,
        vec![
            BlockIndex::new(i32::MAX - 1, 0, i32::MIN),
            BlockIndex::new(i32::MIN, 0, i32::MIN),
            BlockIndex::new(i32::MAX, -1, i32::MIN),
            BlockIndex::new(i32::MAX, 1, i32::MIN),
            BlockIndex::new(i32::MAX, 0, i32::MAX),
            BlockIndex::new(i32::MAX, 0, i32::MIN + 1),
        ]
    );
    let with_self = BlockIndex::<8>::new(1, 2, 3).neighbors6_include_self();
    assert_eq!(with_self.len(), 7);
    assert_eq!(with_self[0].index, BlockIndex::new(1, 2, 3));
    assert_eq!(with_self[0].grid_dist_sq, 0);
    assert_eq!((with_self[0].dir.x, with_self[0].dir.y, with_self[0].dir.z), (0, 0, 0));
    assert_eq!(with_self[1].index, BlockIndex::new(0, 2, 3));
    assert_eq!(with_self[2].index, BlockIndex::new(2, 2, 3));
    assert_eq!(with_self[3].index, BlockIndex::new(1, 1, 3));
    assert_eq!(with_self[4].index, BlockIndex::new(1, 3, 3));
    assert_eq!(with_self[5].index, BlockIndex::new(1, 2, 2));
    assert_eq!(with_self[6].index, BlockIndex::new(1, 2, 4));
    let origin = BlockIndex::<8>::new(0, 0, 0);
    let mut all = origin.neighbors();
    let mut count = 0;
    while let Some(_) = all.next() {
        count += 1;
    }
    assert_eq!(count, 26);
}

#[test]
fn indices_add_and_subtract_by_component() {
    let a: GlobalIndex<8> = GlobalIndex { x: 1, y: -2, z: 3 };
    let b: GlobalIndex<8> = GlobalIndex { x: 10, y: 20, z: -30 };
    assert_eq!(a + b, GlobalIndex { x: 11, y: 18, z: -27 });
    assert_eq!(a - b, GlobalIndex { x: -9, y: -22, z: 33 });
    let c: BlockIndex<8> = BlockIndex::new(1, -2, 3);
    let d: BlockIndex<8> = BlockIndex::new(10, 20, -30);
    assert_eq!(c + d, BlockIndex::new(11, 18, -27));
    assert_eq!(c - d, BlockIndex::new(-9, -22, 33));
}

#[test]
fn grid_indices_are_made_from_coordinates() {
    let g: GlobalIndex<8> = GlobalIndex::from_coords(1, -2, 1 << 40);
    assert_eq!(g, GlobalIndex { x: 1, y: -2, z: 1 << 40 });
    assert_eq!(g.coords(), (1, -2, 1 << 40));
    let b: BlockIndex<8> = BlockIndex::from_coords(1, -2, (1 << 32) + 3);
    assert_eq!(b, BlockIndex::new(1, -2, 3));
    assert_eq!(b.coords(), (1, -2, 3));
    let wrapped: BlockIndex<8> = BlockIndex::from_coords(i32::MAX as i64 + 1, i32::MIN as i64 - 1, -1);
    assert_eq!(wrapped, BlockIndex::new(i32::MIN, i32::MAX, -1));
}

#[test]
fn point_on_a_boundary_belongs_to_the_upper_voxel() {
    let global_index: GlobalIndex<8> = from_point((0.5, 0.5, 0.5), 1.0 / 0.5);
    assert_eq!(global_index, GlobalIndex { x: 1, y: 1, z: 1 });
    assert_eq!(global_index.block_index(), BlockIndex::new(0, 0, 0));
    let below: GlobalIndex<8> = from_point((0.49, -0.01, 0.0), 1.0 / 0.5);
    assert_eq!(below, GlobalIndex { x: 0, y: -1, z: 0 });
    assert_eq!(below.block_index(), BlockIndex::new(0, -1, 0));
}
