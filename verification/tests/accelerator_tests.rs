use incremental_esdf::block_set::BlockSet;
use incremental_esdf::esdf::{EsdfIntegrator, EsdfIntegratorConfig};
use incremental_esdf::esdf_gpu;
use incremental_esdf::esdf_gpu::{GpuSubmissionFailure, INVALID_BLOCK, PROPAGATE_X, PROPAGATE_Y, PROPAGATE_Z};
use incremental_esdf::index::{BlockIndex, GlobalIndex};
use incremental_esdf::layer::Layer;
use incremental_esdf::progress::NoProgress;
use incremental_esdf::propagate::{face_of, propagate_voxels};
use incremental_esdf::relax::OpDir;
use incremental_esdf::sweep::sweep_voxels;
use incremental_esdf::voxel::{Esdf, EsdfFlags, SiteIndex, Tsdf, FIXED, HAS_SITE_INDEX, OBSERVED, UPDATED};
use incremental_esdf::wire::{decode_voxels, encode_voxels, BlockInfo};

const VPS: usize = 4;
const N: usize = VPS * VPS * VPS;

fn observe(tsdf: &mut Layer<Tsdf, VPS>, x: i64, y: i64, z: i64, distance: i32) {
    let g: GlobalIndex<VPS> = GlobalIndex { x, y, z };
    let (b, v) = g.block_voxel_index();
    let voxel = tsdf.allocate_block_by_index(&b).voxel_from_index_mut(&v);
    voxel.distance = distance;
    voxel.weight = 1;
}

fn set_of(blocks: &[BlockIndex<VPS>]) -> BlockSet<VPS> {
    let mut set = BlockSet::new();
    for b in blocks {
        set.insert(*b);
    }
    set
}

/// What an accelerator does in a sweep: the four sweeps on each block.
fn accelerator_sweep(bytes: &[u8], voxel_size: i32) -> Vec<u8> {
    let mut voxels = decode_voxels(bytes).unwrap();
    for chunk in voxels.chunks_mut(N) {
        for dir in [OpDir::XPlus, OpDir::XMinus, OpDir::YPlus, OpDir::YMinus] {
            sweep_voxels::<VPS>(chunk, dir, voxel_size);
        }
    }
    encode_voxels(&voxels)
}

/// What an accelerator does in a propagation: for each dirty block, along
/// x and then along y, the distances cross both faces.
fn accelerator_propagate(bytes: &[u8], work: &[u32], voxel_size: i32) -> (Vec<u8>, Vec<BlockInfo>) {
    let mut voxels = decode_voxels(bytes).unwrap();
    let mut infos = vec![BlockInfo::default(); voxels.len() / N];
    for (minus, plus, dir_minus, dir_plus) in
        [(1, 2, OpDir::XMinus, OpDir::XPlus), (3, 4, OpDir::YMinus, OpDir::YPlus)]
    {
        for group in work.chunks(7) {
            let pivot = group[0] as usize;
            for (entry, dir) in [(plus, dir_plus), (minus, dir_minus)] {
                if group[entry] == INVALID_BLOCK {
                    continue;
                }
                let neighbour = group[entry] as usize;
                let face = face_of::<VPS>(&voxels[pivot * N..pivot * N + N], dir);
                if propagate_voxels::<VPS>(&face, &mut voxels[neighbour * N..neighbour * N + N], dir, voxel_size) {
                    infos[neighbour].flags.insert(EsdfFlags { bits: UPDATED });
                    infos[neighbour].updated_voxels += 1;
                }
            }
        }
    }
    (encode_voxels(&voxels), infos)
}

fn update_with_accelerator(tsdf: &Layer<Tsdf, VPS>, esdf: &mut Layer<Esdf, VPS>, updated: &BlockSet<VPS>) -> usize {
    let mut integrator = esdf_gpu::EsdfIntegrator::new(esdf_gpu::EsdfIntegratorConfig::default());
    let mut callback = NoProgress::default();
    let mut dirty = integrator.begin_update(tsdf, esdf, updated, &mut callback).unwrap();
    let mut passes = 0;
    while !dirty.is_empty() {
        let sent = esdf_gpu::EsdfIntegrator::sweep_job(esdf, &dirty);
        assert_eq!(sent.len(), dirty.len() * N);
        let back = decode_voxels(&accelerator_sweep(&encode_voxels(&sent), esdf.voxel_size())).unwrap();
        esdf_gpu::EsdfIntegrator::finish_sweep(tsdf, esdf, &dirty, &back, &mut callback).unwrap();
        let job = esdf_gpu::EsdfIntegrator::propagate_job(esdf, &dirty);
        assert_eq!(job.voxels.len(), job.blocks.len() * N);
        assert_eq!(job.workgroup_block_indices.len(), 7 * dirty.len());
        let (bytes, infos) = accelerator_propagate(
            &encode_voxels(&job.voxels),
            &job.workgroup_block_indices,
            esdf.voxel_size(),
        );
        let back = decode_voxels(&bytes).unwrap();
        dirty = esdf_gpu::EsdfIntegrator::finish_propagate(tsdf, esdf, &job.blocks, &back, &infos, &mut callback)
            .unwrap();
        passes += 1;
        assert!(passes < 100);
    }
    passes
}

#[test]
fn accelerator_and_host_agree() {
    let mut tsdf: Layer<Tsdf, VPS> = Layer::new(3);
    observe(&mut tsdf, 1, 2, 0, 5);
    observe(&mut tsdf, 9, 6, 0, 0);
    observe(&mut tsdf, -3, 7, 0, 1);
    let mut blocks = Vec::new();
    for bx in -1..3 {
        for by in 0..2 {
            let b = BlockIndex::new(bx, by, 0);
            tsdf.allocate_block_by_index(&b);
            blocks.push(b);
        }
    }
    let updated = set_of(&blocks);
    let mut on_host: Layer<Esdf, VPS> = Layer::new(3);
    EsdfIntegrator::new(EsdfIntegratorConfig::default()).update_blocks(
        &tsdf,
        &mut on_host,
        &updated,
        &mut NoProgress::default(),
    );
    let mut on_accelerator: Layer<Esdf, VPS> = Layer::new(3);
    let passes = update_with_accelerator(&tsdf, &mut on_accelerator, &updated);
    assert!(passes >= 2);
    assert_eq!(on_host.allocated_blocks_iter(), on_accelerator.allocated_blocks_iter());
    for b in on_host.allocated_blocks_iter() {
        let host = on_host.block_by_index(b).unwrap().as_slice();
        let accelerator = on_accelerator.block_by_index(b).unwrap().as_slice();
        for i in 0..N {
            assert_eq!(host[i].distance, accelerator[i].distance);
            assert_eq!(host[i].flags, accelerator[i].flags);
        }
    }
    let g: GlobalIndex<VPS> = GlobalIndex { x: 5, y: 2, z: 0 };
    let (b, v) = g.block_voxel_index();
    assert_eq!(on_accelerator.block_by_index(&b).unwrap().voxel_from_index(&v).distance, 5 + 4 * 3);
}

#[test]
fn jobs_hold_blocks_in_walking_order() {
    let mut esdf: Layer<Esdf, VPS> = Layer::new(1);
    let a = BlockIndex::new(0, 0, 0);
    let right = BlockIndex::new(1, 0, 0);
    let up = BlockIndex::new(0, 1, 0);
    let far = BlockIndex::new(3, 3, 3);
    esdf.allocate_block_by_index(&up).voxel_from_lin_index_mut(0).distance = 30;
    esdf.allocate_block_by_index(&far).voxel_from_lin_index_mut(0).distance = 40;
    esdf.allocate_block_by_index(&right).voxel_from_lin_index_mut(0).distance = 20;
    esdf.allocate_block_by_index(&a).voxel_from_lin_index_mut(1).distance = 10;
    let dirty = set_of(&[right, a]);
    let sent = esdf_gpu::EsdfIntegrator::sweep_job(&esdf, &dirty);
    assert_eq!(sent.len(), 2 * N);
    assert_eq!(sent[1].distance, 10);
    assert_eq!(sent[N].distance, 20);
    let job = esdf_gpu::EsdfIntegrator::propagate_job(&esdf, &dirty);
    assert_eq!(job.blocks.as_slice(), &[a, right, up]);
    assert_eq!(job.voxels.len(), 3 * N);
    assert_eq!(job.voxels[1].distance, 10);
    assert_eq!(job.voxels[N].distance, 20);
    assert_eq!(job.voxels[2 * N].distance, 30);
    let x = INVALID_BLOCK;
    assert_eq!(x, u32::MAX);
    assert_eq!(
        job.workgroup_block_indices,
        vec![
            // the block (0, 0, 0): itself, -x, +x, -y, +y, -z, +z
            0, x, 1, x, 2, x, x,
            // the block (1, 0, 0)
            1, 0, x, x, x, x, x,
        ]
    );
    assert_eq!(esdf_gpu::slot(&job.blocks, &up), 2);
    assert_eq!(esdf_gpu::slot(&job.blocks, &far), INVALID_BLOCK);
    assert_eq!((PROPAGATE_X, PROPAGATE_Y, PROPAGATE_Z), (1, 3, 5));
    let interest = esdf_gpu::blocks_of_interest(&esdf, &set_of(&[far]));
    assert_eq!(interest.as_slice(), &[far]);
    assert_eq!(
        esdf_gpu::workgroup_block_indices(&interest, &set_of(&[far])),
        vec![0, x, x, x, x, x, x]
    );
}

#[test]
fn what_comes_back_is_checked() {
    let mut tsdf: Layer<Tsdf, VPS> = Layer::new(1);
    observe(&mut tsdf, 0, 0, 0, 2);
    let a = BlockIndex::new(0, 0, 0);
    let mut esdf: Layer<Esdf, VPS> = Layer::new(1);
    let mut integrator = esdf_gpu::EsdfIntegrator::new(esdf_gpu::EsdfIntegratorConfig::default());
    let mut callback = NoProgress::default();
    let dirty = integrator.begin_update(&tsdf, &mut esdf, &set_of(&[a]), &mut callback).unwrap();
    assert_eq!(dirty.as_slice(), &[a]);
    let sent = esdf_gpu::EsdfIntegrator::sweep_job(&esdf, &dirty);
    assert_eq!(sent[0].flags.bits, FIXED | OBSERVED | HAS_SITE_INDEX);
    let before: Vec<Esdf> = esdf.block_by_index(&a).unwrap().as_slice().to_vec();

    // too few voxels
    let r = esdf_gpu::EsdfIntegrator::finish_sweep(&tsdf, &mut esdf, &dirty, &sent[..N - 1], &mut callback);
    assert_eq!(r, Err(GpuSubmissionFailure::WrongLength));
    // a site was touched
    let mut touched = sent.clone();
    touched[0].distance = 1;
    let r = esdf_gpu::EsdfIntegrator::finish_sweep(&tsdf, &mut esdf, &dirty, &touched, &mut callback);
    assert_eq!(r, Err(GpuSubmissionFailure::NotSettled));
    // a voxel became a site
    let mut promoted = sent.clone();
    promoted[5].flags.bits = FIXED | OBSERVED;
    let r = esdf_gpu::EsdfIntegrator::finish_sweep(&tsdf, &mut esdf, &dirty, &promoted, &mut callback);
    assert_eq!(r, Err(GpuSubmissionFailure::NotSettled));
    assert_eq!(esdf.block_by_index(&a).unwrap().as_slice(), &before[..]);

    // a good answer is taken over
    let mut good = sent.clone();
    good[1] = Esdf {
        distance: 3,
        flags: EsdfFlags { bits: FIXED | HAS_SITE_INDEX },
        site_block_index: SiteIndex { x: 0, y: 0, z: 0 },
    };
    assert_eq!(
        esdf_gpu::EsdfIntegrator::finish_sweep(&tsdf, &mut esdf, &dirty, &good, &mut callback),
        Ok(())
    );
    assert_eq!(esdf.block_by_index(&a).unwrap().as_slice()[1].distance, 3);
    // a distance that has grown is refused, a fixed voxel that is no longer fixed too
    let mut grown = good.clone();
    grown[1].distance = 4;
    assert_eq!(
        esdf_gpu::EsdfIntegrator::finish_sweep(&tsdf, &mut esdf, &dirty, &grown, &mut callback),
        Err(GpuSubmissionFailure::NotSettled)
    );
    let mut unfixed = good.clone();
    unfixed[1].flags.bits = 0;
    assert_eq!(
        esdf_gpu::EsdfIntegrator::finish_sweep(&tsdf, &mut esdf, &dirty, &unfixed, &mut callback),
        Err(GpuSubmissionFailure::NotSettled)
    );
    assert!(esdf_gpu::settles(&good[1], &good[1]));
    assert!(!esdf_gpu::settles(&good[1], &grown[1]));
    assert!(esdf_gpu::settles(&grown[1], &good[1]));

    // a propagation needs one state for each block
    let job = esdf_gpu::EsdfIntegrator::propagate_job(&esdf, &dirty);
    let r = esdf_gpu::EsdfIntegrator::finish_propagate(&tsdf, &mut esdf, &job.blocks, &job.voxels, &[], &mut callback);
    assert_eq!(r.err(), Some(GpuSubmissionFailure::WrongLength));
    let updated = [BlockInfo { flags: EsdfFlags { bits: UPDATED }, updated_voxels: 1 }];
    let next = esdf_gpu::EsdfIntegrator::finish_propagate(
        &tsdf,
        &mut esdf,
        &job.blocks,
        &job.voxels,
        &updated,
        &mut callback,
    )
    .unwrap();
    assert_eq!(next.as_slice(), &[a]);
    let quiet = [BlockInfo { flags: EsdfFlags { bits: FIXED }, updated_voxels: 0 }];
    assert!(esdf_gpu::updated_from_status(&job.blocks, &quiet).is_empty());
    assert_eq!(esdf_gpu::updated_from_status(&job.blocks, &updated).as_slice(), &[a]);
}
