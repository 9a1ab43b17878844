use incremental_esdf::block::Block;
use incremental_esdf::index::{GlobalIndex, VoxelIndex};
use incremental_esdf::storage::VoxelStorage;
use incremental_esdf::voxel::{
    Esdf, EsdfFlags, IntensityVoxel, Occupancy, SiteIndex, Tsdf, Voxel, ALL_FLAGS, FIXED,
    HAS_SITE_INDEX, OBSERVED, UPDATED,
};

#[derive(Debug, Default, Clone, Copy)]
struct TestVoxel {
    distance: f32,
}

impl Voxel for TestVoxel {
    fn spec_empty() -> Self {
        TestVoxel { distance: 0.0 }
    }

    fn empty() -> Self {
        TestVoxel { distance: 0.0 }
    }
}

#[test]
fn test_block_index() {
    assert_eq!(
        Block::<TestVoxel, 3>::lin_index_from_voxel_index(&VoxelIndex { x: 2, y: 2, z: 2 }),
        26
    );
    assert_eq!(
        Block::<TestVoxel, 3>::voxel_index_from_lin_index(26),
        VoxelIndex { x: 2, y: 2, z: 2 }
    );

    assert_eq!(
        Block::<TestVoxel, 3>::voxel_index_from_lin_index(0),
        VoxelIndex { x: 0, y: 0, z: 0 }
    );
}

#[test]
fn linear_index_is_x_fastest() {
    for z in 0..4usize {
        for y in 0..4usize {
            for x in 0..4usize {
                let v: VoxelIndex<4> = VoxelIndex { x, y, z };
                let lin = v.linear_index();
                assert_eq!(lin, x + 4 * (y + 4 * z));
                assert_eq!(Block::<Tsdf, 4>::lin_index_from_voxel_index(&v), lin);
                assert_eq!(Block::<Tsdf, 4>::voxel_index_from_lin_index(lin), v);
            }
        }
    }
    assert_eq!(
        Block::<Tsdf, 4>::voxel_index_from_lin_index(7),
        VoxelIndex { x: 3, y: 1, z: 0 }
    );
}

#[test]
fn new_block_holds_empty_voxels() {
    let origin: GlobalIndex<4> = GlobalIndex { x: 4, y: -8, z: 0 };
    let block: Block<Esdf, 4> = Block::new(25, origin);
    assert_eq!(block.as_slice().len(), 64);
    assert_eq!(*block.origin(), origin);
    assert_eq!(block.voxel_size(), 25);
    for v in block.as_slice() {
        assert_eq!(*v, Esdf::default());
        assert_eq!(v.distance, 0);
        assert_eq!(v.flags.bits, 0);
    }
    test_voxel_defaults();
}

fn test_voxel_defaults() {
    assert_eq!(Tsdf::default(), Tsdf { distance: 0, weight: 0 });
    assert_eq!(Tsdf::empty(), Tsdf::default());
    assert_eq!(Occupancy::empty(), Occupancy { probability: 0, observed: false });
    assert_eq!(Occupancy::default(), Occupancy::empty());
    assert_eq!(IntensityVoxel::empty(), IntensityVoxel { intensity: 0, weight: 0 });
    assert_eq!(IntensityVoxel::default(), IntensityVoxel::empty());
    assert_eq!(
        Esdf::empty(),
        Esdf { distance: 0, flags: EsdfFlags { bits: 0 }, site_block_index: SiteIndex { x: 0, y: 0, z: 0 } }
    );
    assert_eq!(TestVoxel::empty().distance, 0.0);
}

#[test]
fn voxels_are_read_and_written_by_index() {
    let mut block: Block<Tsdf, 3> = Block::new(1, GlobalIndex { x: 0, y: 0, z: 0 });
    let index: VoxelIndex<3> = VoxelIndex { x: 1, y: 2, z: 0 };
    block.voxel_from_index_mut(&index).weight = 9;
    block.voxel_from_lin_index_mut(26).distance = -4;
    assert_eq!(block.voxel_from_index(&index).weight, 9);
    assert_eq!(block.voxel_from_lin_index(7).weight, 9);
    assert_eq!(block.as_slice()[7], Tsdf { distance: 0, weight: 9 });
    assert_eq!(block.as_slice()[26], Tsdf { distance: -4, weight: 0 });
    assert!(Tsdf { distance: 0, weight: 9 }.is_observed());
    assert!(!Tsdf { distance: 3, weight: 0 }.is_observed());
    assert!(!Tsdf { distance: 3, weight: -1 }.is_observed());
    block.as_mut_slice()[0].weight = 5;
    assert_eq!(block.voxel_from_lin_index(0).weight, 5);
    block.reset_voxels();
    for v in block.as_slice() {
        assert_eq!(*v, Tsdf::default());
    }
    assert_eq!(block.as_slice().len(), 27);
}

#[test]
fn storage_is_one_piece() {
    let mut storage: VoxelStorage<u8, 2, 3, 4> = VoxelStorage::filled(7);
    assert_eq!(storage.as_slice().len(), 24);
    assert!(storage.as_slice().iter().all(|v| *v == 7));
    storage.as_mut_slice()[5] = 1;
    *storage.get_mut(6) = 2;
    assert_eq!(*storage.get(5), 1);
    assert_eq!(storage.as_slice()[6], 2);
    assert_eq!(storage.as_slice()[4], 7);
}

#[test]
fn flag_sets() {
    let mut flags = EsdfFlags::empty();
    assert!(flags.is_empty());
    flags.insert(EsdfFlags { bits: FIXED | HAS_SITE_INDEX });
    assert_eq!(flags.bits(), 6);
    assert!(flags.contains(EsdfFlags { bits: FIXED }));
    assert!(flags.contains(EsdfFlags { bits: HAS_SITE_INDEX }));
    assert!(!flags.contains(EsdfFlags { bits: OBSERVED }));
    assert!(!flags.contains(EsdfFlags { bits: FIXED | OBSERVED }));
    flags.remove(EsdfFlags { bits: FIXED });
    assert_eq!(flags.bits(), 4);
    assert_eq!(flags.union(EsdfFlags { bits: UPDATED }).bits(), 12);
    assert_eq!(EsdfFlags::all().bits(), ALL_FLAGS);
    assert_eq!(ALL_FLAGS, 0x3ff);
    assert_eq!(EsdfFlags::from_bits_truncate(0xffff_ffff).bits(), 0x3ff);
    assert_eq!(EsdfFlags::default(), EsdfFlags::empty());
    flags.remove(EsdfFlags::all());
    assert!(flags.is_empty());
    let site = SiteIndex { x: -1, y: 2, z: 3 };
    assert_eq!(SiteIndex::of(&site.block::<8>()), site);
}
