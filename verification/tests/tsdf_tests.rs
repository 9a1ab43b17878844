use incremental_esdf::block_set::BlockSet;
use incremental_esdf::index::{is_valid_side, BlockIndex, GlobalIndex};
use incremental_esdf::layer::Layer;
use incremental_esdf::tsdf::{TsdfIntegrator, TsdfIntegratorConfig};
use incremental_esdf::voxel::Tsdf;

#[test]
fn observations_switch_voxels_on_and_off() {
    let mut layer: Layer<Tsdf, 8> = Layer::new(1000);
    let mut updated: BlockSet<8> = BlockSet::new();
    let mut integrator = TsdfIntegrator::new(TsdfIntegratorConfig { default_truncation_distance: 200 });
    let g: GlobalIndex<8> = GlobalIndex { x: 9, y: -1, z: 0 };
    let b = BlockIndex::new(1, -1, 0);

    // a free place that was never observed stays as it is, but its block is allocated
    assert!(!integrator.integrate_observation(&mut layer, &g, false, &mut updated));
    assert!(layer.contains(&b));
    assert!(updated.is_empty());
    assert_eq!(layer.block_by_index(&b).unwrap().as_slice()[1 + 8 * 7], Tsdf { distance: 0, weight: 0 });

    // an occupied place gets the truncation distance and the weight 1
    assert!(integrator.integrate_observation(&mut layer, &g, true, &mut updated));
    assert_eq!(updated.as_slice(), &[b]);
    assert_eq!(layer.block_by_index(&b).unwrap().as_slice()[1 + 8 * 7], Tsdf { distance: 200, weight: 1 });
    assert_eq!(
        layer.block_by_index(&b).unwrap().as_slice().iter().filter(|v| v.weight != 0).count(),
        1
    );

    // seen again as occupied, nothing changes
    let mut again: BlockSet<8> = BlockSet::new();
    assert!(!integrator.integrate_observation(&mut layer, &g, true, &mut again));
    assert!(again.is_empty());

    // seen as free, it loses distance and weight
    assert!(integrator.integrate_observation(&mut layer, &g, false, &mut again));
    assert_eq!(again.as_slice(), &[b]);
    assert_eq!(layer.block_by_index(&b).unwrap().as_slice()[1 + 8 * 7], Tsdf { distance: 0, weight: 0 });

    // a voxel with another weight is left alone
    layer.allocate_block_by_index(&b).voxel_from_lin_index_mut(0).weight = 5;
    let origin: GlobalIndex<8> = GlobalIndex { x: 8, y: -8, z: 0 };
    let mut none: BlockSet<8> = BlockSet::new();
    assert!(!integrator.integrate_observation(&mut layer, &origin, false, &mut none));
    assert!(!integrator.integrate_observation(&mut layer, &origin, true, &mut none));
    assert_eq!(layer.block_by_index(&b).unwrap().as_slice()[0], Tsdf { distance: 0, weight: 5 });
    assert!(none.is_empty());
}

#[test]
fn valid_sides() {
    assert!(!is_valid_side(0));
    assert!(is_valid_side(1));
    assert!(is_valid_side(8));
    assert!(is_valid_side(16));
    assert!(is_valid_side(1024));
    assert!(!is_valid_side(0x8000_0000));
    assert!(!is_valid_side(usize::MAX));
    if usize::BITS == 64 {
        assert!(is_valid_side(2_000_000));
        assert!(!is_valid_side(3_000_000));
    }
}
