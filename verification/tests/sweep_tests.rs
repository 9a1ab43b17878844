use incremental_esdf::block_set::BlockSet;
use incremental_esdf::esdf::{EsdfIntegrator, EsdfIntegratorConfig, MissingBlock};
use incremental_esdf::index::{BlockIndex, VoxelIndex};
use incremental_esdf::layer::Layer;
use incremental_esdf::progress::NoProgress;
use incremental_esdf::propagate::{face_of, propagate_voxels};
use incremental_esdf::relax::{relax, step, voxel_on_axis, OpDir};
use incremental_esdf::sweep::{create_range_chain, sweep_voxels};
use incremental_esdf::voxel::{Esdf, EsdfFlags, SiteIndex, Tsdf, FIXED, HAS_SITE_INDEX, OBSERVED, UPDATED};

fn free() -> Esdf {
    Esdf::default()
}

fn fixed(distance: i32, site: i32) -> Esdf {
    Esdf {
        distance,
        flags: EsdfFlags { bits: FIXED | HAS_SITE_INDEX },
        site_block_index: SiteIndex { x: site, y: 0, z: 0 },
    }
}

fn site(distance: i32, block: i32) -> Esdf {
    Esdf {
        distance,
        flags: EsdfFlags { bits: FIXED | HAS_SITE_INDEX | OBSERVED },
        site_block_index: SiteIndex { x: block, y: 0, z: 0 },
    }
}

#[test]
fn steps_stay_in_range() {
    assert_eq!(step(5, 3), 8);
    assert_eq!(step(-5, 3), -2);
    assert_eq!(step(5, -3), 2);
    assert_eq!(step(i32::MAX, 1), i32::MAX);
    assert_eq!(step(i32::MAX - 1, 1), i32::MAX);
    assert_eq!(step(i32::MAX - 1, 5), i32::MAX);
    assert_eq!(step(i32::MIN, -1), i32::MIN);
    assert_eq!(step(i32::MIN, i32::MAX), -1);
}

#[test]
fn relaxation_rule() {
    // a voxel without a distance takes the parent's distance plus one voxel
    let mut cur = free();
    assert!(relax(&fixed(4, 9), &mut cur, 10));
    assert_eq!(cur, fixed(14, 9));
    // the other flags stay
    let mut cur = Esdf { distance: 77, flags: EsdfFlags { bits: UPDATED }, ..free() };
    assert!(relax(&site(0, 3), &mut cur, 1));
    assert_eq!(cur.flags.bits, UPDATED | FIXED | HAS_SITE_INDEX);
    assert_eq!(cur.distance, 1);
    assert_eq!(cur.site_block_index.x, 3);
    // a larger distance is improved, the flags stay as they are
    let mut cur = Esdf { distance: 20, flags: EsdfFlags { bits: FIXED }, ..free() };
    assert!(relax(&fixed(4, 9), &mut cur, 10));
    assert_eq!(cur.distance, 14);
    assert_eq!(cur.flags.bits, FIXED);
    assert_eq!(cur.site_block_index.x, 9);
    // an equal distance is kept: only a smaller one is written
    let mut cur = fixed(14, 1);
    assert!(!relax(&fixed(4, 9), &mut cur, 10));
    assert_eq!(cur, fixed(14, 1));
    let mut cur = fixed(13, 1);
    assert!(!relax(&fixed(4, 9), &mut cur, 10));
    assert_eq!(cur, fixed(13, 1));
    // a site is never written
    let mut cur = site(100, 1);
    assert!(!relax(&fixed(4, 9), &mut cur, 10));
    assert_eq!(cur, site(100, 1));
    // a parent without a distance gives nothing
    let mut cur = free();
    assert!(!relax(&free(), &mut cur, 10));
    assert_eq!(cur, free());
    let mut cur = fixed(50, 1);
    assert!(!relax(&Esdf { distance: 1, ..free() }, &mut cur, 10));
    assert_eq!(cur, fixed(50, 1));
}

#[test]
fn range_chains() {
    assert_eq!(create_range_chain(1, 4), vec![1, 2, 3, 4]);
    assert_eq!(create_range_chain(4, 1), vec![4, 3, 2, 1]);
    assert_eq!(create_range_chain(3, 3), vec![3]);
    assert_eq!(create_range_chain(6, 0), vec![6, 5, 4, 3, 2, 1, 0]);
    assert_eq!(create_range_chain(0, 0), vec![0]);
}

#[test]
fn lines_of_a_block() {
    let x: VoxelIndex<4> = voxel_on_axis(OpDir::XPlus, 1, 2, 3);
    assert_eq!(x, VoxelIndex { x: 3, y: 2, z: 1 });
    let y: VoxelIndex<4> = voxel_on_axis(OpDir::YMinus, 1, 2, 3);
    assert_eq!(y, VoxelIndex { x: 2, y: 3, z: 1 });
    let z: VoxelIndex<4> = voxel_on_axis(OpDir::ZPlus, 1, 2, 3);
    assert_eq!(z, VoxelIndex { x: 2, y: 1, z: 3 });
    assert!(OpDir::XPlus.is_forward() && OpDir::YPlus.is_forward() && OpDir::ZPlus.is_forward());
    assert!(!OpDir::XMinus.is_forward() && !OpDir::YMinus.is_forward() && !OpDir::ZMinus.is_forward());
    assert_eq!(OpDir::XMinus.table_index(), 0);
    assert_eq!(OpDir::XPlus.table_index(), 1);
    assert_eq!(OpDir::YMinus.table_index(), 2);
    assert_eq!(OpDir::YPlus.table_index(), 3);
    assert_eq!(OpDir::ZMinus.table_index(), 4);
    assert_eq!(OpDir::ZPlus.table_index(), 5);
}

#[test]
fn sweep_along_x_in_both_directions() {
    // one row of a block of side 4: x = 0..4 at y = 1, z = 2
    let mut voxels = vec![free(); 64];
    let row = 4 * (1 + 4 * 2);
    voxels[row + 1] = site(0, 5);
    sweep_voxels::<4>(&mut voxels, OpDir::XPlus, 10);
    assert_eq!(voxels[row], free());
    assert_eq!(voxels[row + 1], site(0, 5));
    assert_eq!(voxels[row + 2], fixed(10, 5));
    assert_eq!(voxels[row + 3], fixed(20, 5));
    assert!(voxels.iter().enumerate().all(|(i, v)| (row..row + 4).contains(&i) || *v == free()));
    sweep_voxels::<4>(&mut voxels, OpDir::XMinus, 10);
    assert_eq!(voxels[row], fixed(10, 5));
    assert_eq!(voxels[row + 2], fixed(10, 5));
    assert!(voxels.iter().enumerate().all(|(i, v)| (row..row + 4).contains(&i) || *v == free()));
}

#[test]
fn sweep_along_y_and_z() {
    let mut voxels = vec![free(); 27];
    // the voxel (1, 0, 1) of a block of side 3
    voxels[1 + 3 * (0 + 3 * 1)] = site(2, 0);
    sweep_voxels::<3>(&mut voxels, OpDir::YPlus, 1);
    assert_eq!(voxels[1 + 3 * (1 + 3 * 1)], fixed(3, 0));
    assert_eq!(voxels[1 + 3 * (2 + 3 * 1)], fixed(4, 0));
    assert_eq!(voxels.iter().filter(|v| **v != free()).count(), 3);
    sweep_voxels::<3>(&mut voxels, OpDir::ZMinus, 1);
    assert_eq!(voxels[1 + 3 * (0 + 3 * 0)], fixed(3, 0));
    assert_eq!(voxels[1 + 3 * (2 + 3 * 0)], fixed(5, 0));
    assert_eq!(voxels.iter().filter(|v| **v != free()).count(), 6);
    sweep_voxels::<3>(&mut voxels, OpDir::ZPlus, 1);
    assert_eq!(voxels[1 + 3 * (2 + 3 * 2)], fixed(5, 0));
    assert_eq!(voxels.iter().filter(|v| **v != free()).count(), 9);
}

#[test]
fn sweep_of_a_block_of_one_voxel_changes_nothing() {
    let mut voxels = vec![site(3, 1)];
    sweep_voxels::<1>(&mut voxels, OpDir::XPlus, 1);
    sweep_voxels::<1>(&mut voxels, OpDir::XMinus, 1);
    assert_eq!(voxels, vec![site(3, 1)]);
    let mut two = vec![free(), site(3, 1), free(), free(), free(), free(), free(), free()];
    sweep_voxels::<2>(&mut two, OpDir::XMinus, 1);
    assert_eq!(two[0], fixed(4, 1));
    sweep_voxels::<2>(&mut two, OpDir::YPlus, 1);
    assert_eq!(two[2], fixed(5, 1));
    assert_eq!(two[3], fixed(4, 1));
}

#[test]
fn faces_and_propagation() {
    let mut pivot = vec![free(); 27];
    // the face x = 2 of the pivot: the voxel (2, 1, 0) is fixed
    pivot[2 + 3 * (1 + 3 * 0)] = fixed(7, 4);
    pivot[0 + 3 * (1 + 3 * 0)] = fixed(1, 4);
    let face = face_of::<3>(&pivot, OpDir::XPlus);
    assert_eq!(face.len(), 9);
    // the line (u, v) = (z, y) = (0, 1) stands at u * 3 + v
    assert_eq!(face[1], fixed(7, 4));
    assert_eq!(face.iter().filter(|v| **v != free()).count(), 1);
    let other_face = face_of::<3>(&pivot, OpDir::XMinus);
    assert_eq!(other_face[1], fixed(1, 4));

    let mut neighbour = vec![free(); 27];
    assert!(propagate_voxels::<3>(&face, &mut neighbour, OpDir::XPlus, 10));
    assert_eq!(neighbour[0 + 3 * (1 + 3 * 0)], fixed(17, 4));
    assert_eq!(neighbour.iter().filter(|v| **v != free()).count(), 1);
    // a second time nothing is written
    assert!(!propagate_voxels::<3>(&face, &mut neighbour, OpDir::XPlus, 10));
    // towards smaller x the far side of the neighbour is written
    let mut left = vec![free(); 27];
    assert!(propagate_voxels::<3>(&other_face, &mut left, OpDir::XMinus, 10));
    assert_eq!(left[2 + 3 * (1 + 3 * 0)], fixed(11, 4));
    // a site at the facing voxel is left alone
    let mut with_site = vec![free(); 27];
    with_site[0 + 3 * (1 + 3 * 0)] = site(500, 1);
    assert!(!propagate_voxels::<3>(&face, &mut with_site, OpDir::XPlus, 10));
    assert_eq!(with_site[3], site(500, 1));
}

#[test]
fn sweeps_and_propagations_on_a_layer() {
    let mut esdf: Layer<Esdf, 2> = Layer::new(1);
    let a = BlockIndex::new(0, 0, 0);
    let b = BlockIndex::new(1, 0, 0);
    *esdf.allocate_block_by_index(&a).voxel_from_lin_index_mut(0) = site(0, 0);
    esdf.allocate_block_by_index(&b);
    EsdfIntegrator::sweep_block(OpDir::XPlus, &a, &mut esdf);
    assert_eq!(esdf.block_by_index(&a).unwrap().as_slice()[1], fixed(1, 0));
    assert_eq!(EsdfIntegrator::propagate_to_neighbour(OpDir::XPlus, &a, &mut esdf), Some(b));
    assert_eq!(esdf.block_by_index(&b).unwrap().as_slice()[0], fixed(2, 0));
    assert_eq!(EsdfIntegrator::propagate_to_neighbour(OpDir::XPlus, &a, &mut esdf), None);
    // no block on the other side
    assert_eq!(EsdfIntegrator::propagate_to_neighbour(OpDir::XMinus, &a, &mut esdf), None);
    assert_eq!(EsdfIntegrator::propagate_to_neighbour(OpDir::YPlus, &a, &mut esdf), None);
    assert_eq!(EsdfIntegrator::propagate_to_neighbour(OpDir::ZMinus, &a, &mut esdf), None);
    // the pass over both blocks brings every voxel of the plane z = 0 to rest
    let mut dirty: BlockSet<2> = BlockSet::new();
    dirty.insert(a);
    dirty.insert(b);
    let tsdf: Layer<Tsdf, 2> = Layer::new(1);
    let next = EsdfIntegrator::run_pass(&tsdf, &mut esdf, &dirty, &mut NoProgress::default());
    assert!(next.is_empty());
    let block_b = esdf.block_by_index(&b).unwrap().as_slice();
    assert_eq!(block_b[0].distance, 2);
    assert_eq!(block_b[1].distance, 3);
    assert_eq!(block_b[2].distance, 3);
    assert_eq!(block_b[3].distance, 4);
    assert_eq!(block_b[4], free());
}

#[test]
fn update_names_a_block_that_the_truncated_field_lacks() {
    let mut tsdf: Layer<Tsdf, 4> = Layer::new(1);
    let mut esdf: Layer<Esdf, 4> = Layer::new(1);
    tsdf.allocate_block_by_index(&BlockIndex::new(0, 0, 0)).voxel_from_lin_index_mut(0).weight = 1;
    let mut updated: BlockSet<4> = BlockSet::new();
    updated.insert(BlockIndex::new(0, 0, 0));
    updated.insert(BlockIndex::new(5, 5, 5));
    let mut integrator = EsdfIntegrator::new(EsdfIntegratorConfig::default());
    let r = integrator.try_update_blocks(&tsdf, &mut esdf, &updated, &mut NoProgress::default());
    match r {
        Err(MissingBlock { index }) => assert_eq!(index, BlockIndex::new(5, 5, 5)),
        Ok(()) => panic!("the update went through"),
    }
    // the blocks are allocated, and no voxel has changed
    assert!(esdf.contains(&BlockIndex::new(0, 0, 0)));
    assert!(esdf.contains(&BlockIndex::new(5, 5, 5)));
    for b in esdf.allocated_blocks_iter() {
        assert!(esdf.block_by_index(b).unwrap().as_slice().iter().all(|v| *v == free()));
    }
    let mut only_known: BlockSet<4> = BlockSet::new();
    only_known.insert(BlockIndex::new(0, 0, 0));
    // the distance field has a block that the truncated field lacks, but it need not be cleared
    assert!(integrator
        .try_update_blocks(&tsdf, &mut esdf, &only_known, &mut NoProgress::default())
        .is_ok());
    assert_eq!(esdf.block_by_index(&BlockIndex::new(0, 0, 0)).unwrap().as_slice()[3].distance, 3);
}
