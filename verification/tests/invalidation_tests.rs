use incremental_esdf::block_set::BlockSet;
use incremental_esdf::index::BlockIndex;
use incremental_esdf::invalidation::{collect_sites, invalidated_blocks, refers_to};
use incremental_esdf::layer::Layer;
use incremental_esdf::progress::NoProgress;
use incremental_esdf::seeding::{reset_blocks, seed_blocks, seed_voxels};
use incremental_esdf::voxel::{Esdf, EsdfFlags, SiteIndex, Tsdf, FIXED, HAS_SITE_INDEX, OBSERVED, UPDATED};

fn b(x: i32, y: i32, z: i32) -> BlockIndex<2> {
    BlockIndex::new(x, y, z)
}

fn set_of(blocks: &[BlockIndex<2>]) -> BlockSet<2> {
    let mut set = BlockSet::new();
    for block in blocks {
        set.insert(*block);
    }
    set
}

fn with_site(site: BlockIndex<2>) -> Esdf {
    Esdf {
        distance: 1,
        flags: EsdfFlags { bits: FIXED | HAS_SITE_INDEX },
        site_block_index: SiteIndex { x: site.x, y: site.y, z: site.z },
    }
}

/// A row of blocks (0..6, 0, 0): the blocks 0..3 hold distances to a site in the block 0, the
/// blocks 3..6 hold distances to a site in the block 5, and a block above the row holds nothing.
fn row() -> Layer<Esdf, 2> {
    let mut esdf: Layer<Esdf, 2> = Layer::new(1);
    for x in 0..6 {
        let site = if x < 3 { b(0, 0, 0) } else { b(5, 0, 0) };
        *esdf.allocate_block_by_index(&b(x, 0, 0)).voxel_from_lin_index_mut(3) = with_site(site);
    }
    *esdf.allocate_block_by_index(&b(3, 0, 0)).voxel_from_lin_index_mut(0) = with_site(b(0, 0, 0));
    esdf.allocate_block_by_index(&b(1, 1, 0));
    esdf
}

#[test]
fn sites_of_the_updated_blocks() {
    let esdf = row();
    let sites = collect_sites(&esdf, &[b(3, 0, 0), b(9, 9, 9)]);
    assert_eq!(sites.as_slice(), set_of(&[b(0, 0, 0), b(5, 0, 0)]).as_slice());
    let sites = collect_sites(&esdf, &[b(1, 0, 0), b(1, 1, 0)]);
    assert_eq!(sites.as_slice(), &[b(0, 0, 0)]);
    assert!(collect_sites(&esdf, &[]).is_empty());
    // a site block is only counted where the flag for it is set
    let mut unflagged: Layer<Esdf, 2> = Layer::new(1);
    unflagged.allocate_block_by_index(&b(0, 0, 0)).voxel_from_lin_index_mut(0).site_block_index =
        SiteIndex { x: 4, y: 4, z: 4 };
    assert!(collect_sites(&unflagged, &[b(0, 0, 0)]).is_empty());
    let block = esdf.block_by_index(&b(1, 0, 0)).unwrap();
    assert!(refers_to(block.as_slice(), &set_of(&[b(0, 0, 0)])));
    assert!(!refers_to(block.as_slice(), &set_of(&[b(5, 0, 0)])));
}

#[test]
fn walk_clears_what_refers_to_a_withdrawn_site() {
    let esdf = row();
    // the site in the block 0 is withdrawn
    let updated = set_of(&[b(0, 0, 0)]);
    let sites = collect_sites(&esdf, updated.as_slice());
    let found = invalidated_blocks(&esdf, &updated, &sites);
    assert_eq!(
        found.blocks_to_clear.as_slice(),
        set_of(&[b(0, 0, 0), b(1, 0, 0), b(2, 0, 0), b(3, 0, 0)]).as_slice()
    );
    // the blocks next to cleared blocks that hold nothing of the site stay valid
    assert_eq!(found.dirty.as_slice(), set_of(&[b(4, 0, 0), b(1, 1, 0)]).as_slice());
    assert_eq!(
        found.closed.as_slice(),
        set_of(&[b(0, 0, 0), b(1, 0, 0), b(2, 0, 0), b(3, 0, 0), b(4, 0, 0), b(1, 1, 0)]).as_slice()
    );

    // an updated block without a voxel that refers to a withdrawn site is cleared and stays dirty
    let updated = set_of(&[b(1, 1, 0)]);
    let sites = collect_sites(&esdf, updated.as_slice());
    assert!(sites.is_empty());
    let found = invalidated_blocks(&esdf, &updated, &sites);
    assert_eq!(found.blocks_to_clear.as_slice(), &[b(1, 1, 0)]);
    assert_eq!(found.dirty.as_slice(), &[b(1, 1, 0)]);
    assert_eq!(found.closed.as_slice(), &[b(1, 1, 0)]);

    // an updated block that is not allocated is to be cleared, and nothing else happens to it
    let updated = set_of(&[b(7, 7, 7)]);
    let found = invalidated_blocks(&esdf, &updated, &set_of(&[b(0, 0, 0)]));
    assert_eq!(found.blocks_to_clear.as_slice(), &[b(7, 7, 7)]);
    assert!(found.dirty.is_empty());
    assert_eq!(found.closed.as_slice(), &[b(7, 7, 7)]);

    let found = invalidated_blocks(&esdf, &BlockSet::new(), &set_of(&[b(0, 0, 0)]));
    assert!(found.blocks_to_clear.is_empty() && found.dirty.is_empty() && found.closed.is_empty());
}

#[test]
fn reset_and_transfer() {
    let mut tsdf: Layer<Tsdf, 2> = Layer::new(1);
    *tsdf.allocate_block_by_index(&b(0, 0, 0)).voxel_from_lin_index_mut(5) = Tsdf { distance: 9, weight: 2 };
    tsdf.allocate_block_by_index(&b(1, 0, 0));
    tsdf.allocate_block_by_index(&b(4, 0, 0));
    let mut esdf = row();
    let blocks = set_of(&[b(0, 0, 0), b(1, 0, 0), b(8, 8, 8)]);
    reset_blocks(&tsdf, &mut esdf, &blocks, &mut NoProgress::default());
    for block in blocks.as_slice() {
        assert!(esdf.block_by_index(block).unwrap().as_slice().iter().all(|v| *v == Esdf::default()));
    }
    assert_eq!(esdf.block_by_index(&b(2, 0, 0)).unwrap().as_slice()[3], with_site(b(0, 0, 0)));

    // the transfer keeps what it does not write: the other flags of an observed voxel, and the
    // site of a voxel that is not observed
    esdf.allocate_block_by_index(&b(0, 0, 0)).voxel_from_lin_index_mut(5).flags.bits = UPDATED | (1 << 20);
    *esdf.allocate_block_by_index(&b(0, 0, 0)).voxel_from_lin_index_mut(6) = Esdf {
        distance: 3,
        flags: EsdfFlags { bits: FIXED | (1 << 20) },
        site_block_index: SiteIndex { x: 1, y: 2, z: 3 },
    };
    let mut dirty = set_of(&[b(3, 0, 0)]);
    seed_blocks(&tsdf, &mut esdf, &set_of(&[b(0, 0, 0), b(1, 0, 0), b(4, 0, 0)]), &mut dirty);
    assert_eq!(dirty.as_slice(), set_of(&[b(0, 0, 0), b(3, 0, 0)]).as_slice());
    let seeded = esdf.block_by_index(&b(0, 0, 0)).unwrap().as_slice();
    assert_eq!(
        seeded[5],
        Esdf {
            distance: 9,
            flags: EsdfFlags { bits: UPDATED | (1 << 20) | FIXED | OBSERVED | HAS_SITE_INDEX },
            site_block_index: SiteIndex { x: 0, y: 0, z: 0 },
        }
    );
    assert_eq!(
        seeded[6],
        Esdf { distance: 0, flags: EsdfFlags { bits: 1 << 20 }, site_block_index: SiteIndex { x: 1, y: 2, z: 3 } }
    );
    assert_eq!(seeded[0], Esdf::default());
    assert_eq!(
        esdf.block_by_index(&b(4, 0, 0)).unwrap().as_slice()[3],
        Esdf { distance: 0, flags: EsdfFlags { bits: 0 }, site_block_index: SiteIndex { x: 5, y: 0, z: 0 } }
    );

    let mut voxels = vec![Esdf::default(); 3];
    let observed = [Tsdf { distance: 0, weight: 0 }, Tsdf { distance: -4, weight: 1 }, Tsdf { distance: 7, weight: -1 }];
    assert!(seed_voxels(&observed, &mut voxels, &b(2, 3, 4)));
    assert_eq!(voxels[0], Esdf::default());
    assert_eq!(
        voxels[1],
        Esdf {
            distance: -4,
            flags: EsdfFlags { bits: FIXED | OBSERVED | HAS_SITE_INDEX },
            site_block_index: SiteIndex { x: 2, y: 3, z: 4 },
        }
    );
    assert_eq!(voxels[2], Esdf::default());
    assert!(!seed_voxels(&observed[..1], &mut voxels[..1], &b(0, 0, 0)));
}
