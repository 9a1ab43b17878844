use incremental_esdf::block_set::BlockSet;
use incremental_esdf::esdf::{EsdfIntegrator, EsdfIntegratorConfig};
use incremental_esdf::index::{BlockIndex, GlobalIndex};
use incremental_esdf::layer::Layer;
use incremental_esdf::progress::{NoProgress, ProgressCallback};
use incremental_esdf::voxel::{Esdf, SiteIndex, Tsdf, FIXED, HAS_SITE_INDEX, OBSERVED};

fn observe<const VPS: usize>(tsdf: &mut Layer<Tsdf, VPS>, x: i64, y: i64, z: i64, distance: i32) {
    let g: GlobalIndex<VPS> = GlobalIndex { x, y, z };
    let (b, v) = g.block_voxel_index();
    let voxel = tsdf.allocate_block_by_index(&b).voxel_from_index_mut(&v);
    voxel.distance = distance;
    voxel.weight = 1;
}

fn forget<const VPS: usize>(tsdf: &mut Layer<Tsdf, VPS>, x: i64, y: i64, z: i64) {
    let g: GlobalIndex<VPS> = GlobalIndex { x, y, z };
    let (b, v) = g.block_voxel_index();
    let voxel = tsdf.allocate_block_by_index(&b).voxel_from_index_mut(&v);
    voxel.distance = 0;
    voxel.weight = 0;
}

fn voxel_at<const VPS: usize>(esdf: &Layer<Esdf, VPS>, x: i64, y: i64, z: i64) -> Esdf {
    let g: GlobalIndex<VPS> = GlobalIndex { x, y, z };
    let (b, v) = g.block_voxel_index();
    *esdf.block_by_index(&b).unwrap().voxel_from_index(&v)
}

fn set_of<const VPS: usize>(blocks: &[BlockIndex<VPS>]) -> BlockSet<VPS> {
    let mut set = BlockSet::new();
    for b in blocks {
        set.insert(*b);
    }
    set
}

fn is_fixed(v: &Esdf) -> bool {
    v.flags.bits & FIXED == FIXED
}

#[test]
fn single_site_gives_manhattan_distances_in_its_plane() {
    let mut tsdf: Layer<Tsdf, 8> = Layer::new(1);
    let mut esdf: Layer<Esdf, 8> = Layer::new(1);
    observe(&mut tsdf, 0, 0, 4, 0);
    tsdf.allocate_block_by_index(&BlockIndex::new(-1, 0, 0));
    tsdf.allocate_block_by_index(&BlockIndex::new(0, -1, 0));
    tsdf.allocate_block_by_index(&BlockIndex::new(-1, -1, 0));
    let updated = set_of(&[BlockIndex::new(0, 0, 0)]);
    let mut integrator = EsdfIntegrator::new(EsdfIntegratorConfig::default());
    integrator.update_blocks(&tsdf, &mut esdf, &updated, &mut NoProgress::default());
    for x in -8i64..8 {
        for y in -8i64..8 {
            let v = voxel_at(&esdf, x, y, 4);
            assert!(is_fixed(&v), "voxel ({}, {}) is not fixed", x, y);
            assert_eq!(v.distance as i64, x.abs() + y.abs());
            assert_eq!(v.site_block_index, SiteIndex { x: 0, y: 0, z: 0 });
        }
    }
    let seed = voxel_at(&esdf, 0, 0, 4);
    assert_eq!(seed.flags.bits, FIXED | OBSERVED | HAS_SITE_INDEX);
    let off_plane = voxel_at(&esdf, 0, 0, 3);
    assert!(!is_fixed(&off_plane));
    assert_eq!(off_plane, Esdf::default());
}

#[test]
fn distances_are_multiples_of_the_voxel_size() {
    let mut tsdf: Layer<Tsdf, 8> = Layer::new(250);
    let mut esdf: Layer<Esdf, 8> = Layer::new(250);
    observe(&mut tsdf, 2, 3, 0, 100);
    let updated = set_of(&[BlockIndex::new(0, 0, 0)]);
    let mut integrator = EsdfIntegrator::new(EsdfIntegratorConfig::default());
    integrator.update_blocks(&tsdf, &mut esdf, &updated, &mut NoProgress::default());
    assert_eq!(voxel_at(&esdf, 2, 3, 0).distance, 100);
    assert_eq!(voxel_at(&esdf, 3, 3, 0).distance, 350);
    assert_eq!(voxel_at(&esdf, 0, 3, 0).distance, 600);
    assert_eq!(voxel_at(&esdf, 7, 7, 0).distance, 100 + 9 * 250);
}

#[test]
fn two_sites_tie_goes_to_the_first_sweep() {
    let mut tsdf: Layer<Tsdf, 8> = Layer::new(1);
    let mut esdf: Layer<Esdf, 8> = Layer::new(1);
    observe(&mut tsdf, 0, 0, 4, 0);
    observe(&mut tsdf, 10, 0, 4, 0);
    let updated = set_of(&[BlockIndex::new(0, 0, 0), BlockIndex::new(1, 0, 0)]);
    let mut integrator = EsdfIntegrator::new(EsdfIntegratorConfig::default());
    integrator.update_blocks(&tsdf, &mut esdf, &updated, &mut NoProgress::default());
    let v = voxel_at(&esdf, 5, 0, 4);
    assert!(is_fixed(&v));
    assert_eq!(v.distance, 5);
    assert_eq!(v.site_block_index, SiteIndex { x: 0, y: 0, z: 0 });
    assert_eq!(voxel_at(&esdf, 6, 0, 4).distance, 4);
    assert_eq!(voxel_at(&esdf, 6, 0, 4).site_block_index, SiteIndex { x: 1, y: 0, z: 0 });
}

#[test]
fn line_of_sites_and_a_single_site() {
    let mut tsdf: Layer<Tsdf, 8> = Layer::new(1);
    let mut esdf: Layer<Esdf, 8> = Layer::new(1);
    for x in 0..=20 {
        observe(&mut tsdf, x, 0, 4, 0);
    }
    observe(&mut tsdf, 10, 10, 4, 3);
    let mut blocks = Vec::new();
    for bx in 0..3 {
        for by in 0..2 {
            let b = BlockIndex::new(bx, by, 0);
            tsdf.allocate_block_by_index(&b);
            blocks.push(b);
        }
    }
    let updated = set_of(&blocks);
    let mut integrator = EsdfIntegrator::new(EsdfIntegratorConfig::default());
    integrator.update_blocks(&tsdf, &mut esdf, &updated, &mut NoProgress::default());
    assert_eq!(voxel_at(&esdf, 10, 5, 4).distance, 5);
    let site = voxel_at(&esdf, 10, 10, 4);
    assert_eq!(site.distance, 3);
    assert_eq!(site.flags.bits, FIXED | OBSERVED | HAS_SITE_INDEX);
    assert_eq!(site.site_block_index, SiteIndex { x: 1, y: 1, z: 0 });
}

#[test]
fn retraction_leaves_no_fixed_voxel() {
    let mut tsdf: Layer<Tsdf, 8> = Layer::new(1);
    let mut esdf: Layer<Esdf, 8> = Layer::new(1);
    observe(&mut tsdf, 0, 0, 4, 0);
    tsdf.allocate_block_by_index(&BlockIndex::new(1, 0, 0));
    tsdf.allocate_block_by_index(&BlockIndex::new(0, 1, 0));
    tsdf.allocate_block_by_index(&BlockIndex::new(1, 1, 0));
    let updated = set_of(&[BlockIndex::new(0, 0, 0)]);
    let mut integrator = EsdfIntegrator::new(EsdfIntegratorConfig::default());
    integrator.update_blocks(&tsdf, &mut esdf, &updated, &mut NoProgress::default());
    assert!(is_fixed(&voxel_at(&esdf, 15, 15, 4)));
    assert_eq!(voxel_at(&esdf, 15, 15, 4).distance, 30);

    forget(&mut tsdf, 0, 0, 4);
    integrator.update_blocks(&tsdf, &mut esdf, &updated, &mut NoProgress::default());
    for b in esdf.allocated_blocks_iter() {
        for v in esdf.block_by_index(b).unwrap().as_slice() {
            assert!(!is_fixed(v));
            assert_eq!(*v, Esdf::default());
        }
    }
    assert_eq!(esdf.allocated_blocks_iter().len(), 4);
}

#[test]
fn distances_cross_into_the_next_block() {
    let mut tsdf: Layer<Tsdf, 4> = Layer::new(1);
    let mut esdf: Layer<Esdf, 4> = Layer::new(1);
    observe(&mut tsdf, 0, 0, 0, 0);
    tsdf.allocate_block_by_index(&BlockIndex::new(1, 0, 0));
    let updated = set_of(&[BlockIndex::new(0, 0, 0)]);
    let mut integrator = EsdfIntegrator::new(EsdfIntegratorConfig::default());
    integrator.update_blocks(&tsdf, &mut esdf, &updated, &mut NoProgress::default());
    let v = voxel_at(&esdf, 7, 0, 0);
    assert!(is_fixed(&v));
    assert_eq!(v.distance, 7);
    assert_eq!(v.site_block_index, SiteIndex { x: 0, y: 0, z: 0 });
    assert_eq!(v.flags.bits, FIXED | HAS_SITE_INDEX);
}

struct PassCounter {
    passes: usize,
    in_sweeps: bool,
    reports: usize,
}

impl ProgressCallback<8> for PassCounter {
    fn report(
        &mut self,
        op: &str,
        _tsdf_layer: &Layer<Tsdf, 8>,
        _esdf_layer: &Layer<Esdf, 8>,
        _blocks: &[BlockIndex<8>],
        _millis: u64,
    ) {
        self.reports += 1;
        if op.starts_with("sweep") {
            if !self.in_sweeps {
                self.passes += 1;
            }
            self.in_sweeps = true;
        } else {
            self.in_sweeps = false;
        }
    }
}

#[test]
fn chain_of_five_blocks_comes_to_rest() {
    let mut tsdf: Layer<Tsdf, 8> = Layer::new(1);
    let mut esdf: Layer<Esdf, 8> = Layer::new(1);
    observe(&mut tsdf, 0, 0, 0, 0);
    for bx in 1..5 {
        tsdf.allocate_block_by_index(&BlockIndex::new(bx, 0, 0));
    }
    let updated = set_of(&[BlockIndex::new(0, 0, 0)]);
    let mut integrator = EsdfIntegrator::new(EsdfIntegratorConfig::default());
    let mut counter = PassCounter { passes: 0, in_sweeps: false, reports: 0 };
    integrator.update_blocks(&tsdf, &mut esdf, &updated, &mut counter);
    assert_eq!(voxel_at(&esdf, 39, 7, 0).distance, 46);
    assert!(counter.reports > 0);
    // the widest span between two blocks is 32 voxels, that is 4 blocks: 4 + 1 passes suffice
    assert!(counter.passes <= 5);
    assert_eq!(counter.passes, 5);
}

#[test]
fn empty_update_changes_nothing() {
    let mut tsdf: Layer<Tsdf, 8> = Layer::new(1);
    let mut esdf: Layer<Esdf, 8> = Layer::new(1);
    observe(&mut tsdf, 3, 4, 0, 2);
    tsdf.allocate_block_by_index(&BlockIndex::new(1, 0, 0));
    let updated = set_of(&[BlockIndex::new(0, 0, 0)]);
    let mut integrator = EsdfIntegrator::new(EsdfIntegratorConfig::default());
    integrator.update_blocks(&tsdf, &mut esdf, &updated, &mut NoProgress::default());
    let before: Vec<(BlockIndex<8>, Vec<Esdf>)> = esdf
        .allocated_blocks_iter()
        .iter()
        .map(|b| (*b, esdf.block_by_index(b).unwrap().as_slice().to_vec()))
        .collect();
    let nothing: BlockSet<8> = BlockSet::new();
    integrator.update_blocks(&tsdf, &mut esdf, &nothing, &mut NoProgress::default());
    let after: Vec<(BlockIndex<8>, Vec<Esdf>)> = esdf
        .allocated_blocks_iter()
        .iter()
        .map(|b| (*b, esdf.block_by_index(b).unwrap().as_slice().to_vec()))
        .collect();
    assert_eq!(before, after);
}

#[test]
fn every_block_of_the_truncated_field_is_mirrored() {
    let mut tsdf: Layer<Tsdf, 8> = Layer::new(1);
    let mut esdf: Layer<Esdf, 8> = Layer::new(1);
    observe(&mut tsdf, 0, 0, 0, 0);
    tsdf.allocate_block_by_index(&BlockIndex::new(5, -3, 2));
    let updated = set_of(&[BlockIndex::new(0, 0, 0)]);
    let mut integrator = EsdfIntegrator::new(EsdfIntegratorConfig::default());
    integrator.update_blocks(&tsdf, &mut esdf, &updated, &mut NoProgress::default());
    for b in tsdf.allocated_blocks_iter() {
        assert!(esdf.contains(b));
    }
    assert_eq!(esdf.allocated_blocks_iter().len(), 2);
}

#[test]
fn a_far_site_shadows_its_row() {
    // the sweeps run along x first and along y after that, once for each dirty block, so a voxel
    // behind a site with a large distance keeps the distance that it got along its row
    let mut tsdf: Layer<Tsdf, 8> = Layer::new(1);
    let mut esdf: Layer<Esdf, 8> = Layer::new(1);
    observe(&mut tsdf, 0, 0, 0, 0);
    observe(&mut tsdf, 1, 0, 0, 100);
    let updated = set_of(&[BlockIndex::new(0, 0, 0)]);
    let mut integrator = EsdfIntegrator::new(EsdfIntegratorConfig::default());
    integrator.update_blocks(&tsdf, &mut esdf, &updated, &mut NoProgress::default());
    assert_eq!(voxel_at(&esdf, 2, 0, 0).distance, 101);
    assert_eq!(voxel_at(&esdf, 0, 1, 0).distance, 1);
    assert_eq!(voxel_at(&esdf, 1, 1, 0).distance, 101);
    // along y no voxel can be improved from the voxel before it
    for x in 0..8 {
        for y in 1..8 {
            let below = voxel_at(&esdf, x, y - 1, 0);
            let here = voxel_at(&esdf, x, y, 0);
            assert!(is_fixed(&below) && is_fixed(&here));
            assert!(here.distance <= below.distance + 1);
            if here.flags.bits & OBSERVED == 0 {
                assert!(below.distance <= here.distance + 1 || below.flags.bits & OBSERVED != 0);
            }
        }
    }
}

#[test]
fn distances_only_settle_from_pass_to_pass() {
    struct Watch {
        last: Option<Vec<Esdf>>,
        seeded: bool,
    }
    impl ProgressCallback<8> for Watch {
        fn report(
            &mut self,
            op: &str,
            _tsdf_layer: &Layer<Tsdf, 8>,
            esdf_layer: &Layer<Esdf, 8>,
            _blocks: &[BlockIndex<8>],
            _millis: u64,
        ) {
            if op.starts_with("sweep") || op.starts_with("prop") {
                self.seeded = true;
            }
            if !self.seeded {
                return;
            }
            let mut now = Vec::new();
            for b in esdf_layer.allocated_blocks_iter() {
                now.extend_from_slice(esdf_layer.block_by_index(b).unwrap().as_slice());
            }
            if let Some(last) = &self.last {
                assert_eq!(last.len(), now.len());
                for (a, b) in last.iter().zip(now.iter()) {
                    if a.flags.bits & FIXED != 0 {
                        assert!(b.flags.bits & FIXED != 0);
                        assert!(b.distance <= a.distance);
                    }
                    if a.flags.bits & OBSERVED != 0 {
                        assert_eq!(a, b);
                    }
                }
            }
            self.last = Some(now);
        }
    }
    let mut tsdf: Layer<Tsdf, 8> = Layer::new(2);
    let mut esdf: Layer<Esdf, 8> = Layer::new(2);
    observe(&mut tsdf, 3, 3, 0, 0);
    observe(&mut tsdf, 20, 9, 0, 7);
    observe(&mut tsdf, 12, 1, 0, 1);
    let mut blocks = Vec::new();
    for bx in 0..3 {
        for by in 0..2 {
            let b = BlockIndex::new(bx, by, 0);
            tsdf.allocate_block_by_index(&b);
            blocks.push(b);
        }
    }
    let mut watch = Watch { last: None, seeded: false };
    EsdfIntegrator::new(EsdfIntegratorConfig::default()).update_blocks(
        &tsdf,
        &mut esdf,
        &set_of(&blocks),
        &mut watch,
    );
    assert!(watch.last.is_some());
    // every site of the truncated field stands in the distance field
    assert_eq!(voxel_at(&esdf, 20, 9, 0).distance, 7);
    assert_eq!(voxel_at(&esdf, 20, 9, 0).flags.bits, FIXED | OBSERVED | HAS_SITE_INDEX);
    assert_eq!(voxel_at(&esdf, 20, 9, 0).site_block_index, SiteIndex { x: 2, y: 1, z: 0 });
    // every fixed voxel names an allocated block
    for b in esdf.allocated_blocks_iter() {
        for v in esdf.block_by_index(b).unwrap().as_slice() {
            if is_fixed(v) {
                assert!(esdf.contains(&v.site_block_index.block()));
            }
        }
    }
}
