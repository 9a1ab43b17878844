use std::collections::{BTreeSet, HashMap};

use incremental_esdf::block_set::BlockSet;
use incremental_esdf::esdf::{EsdfIntegrator, EsdfIntegratorConfig};
use incremental_esdf::index::{BlockIndex, GlobalIndex};
use incremental_esdf::layer::Layer;
use incremental_esdf::progress::NoProgress;
use incremental_esdf::voxel::{Esdf, Tsdf, FIXED, HAS_SITE_INDEX, OBSERVED};

const VPS: usize = 4;
const N: usize = VPS * VPS * VPS;

type Key = (i32, i32, i32);

/// A plain model of the distance field with floating point distances.
#[derive(Clone, Copy, Debug, PartialEq)]
struct ModelVoxel {
    distance: f32,
    flags: u32,
    site: Key,
}

const EMPTY: ModelVoxel = ModelVoxel { distance: 0.0, flags: 0, site: (0, 0, 0) };

/// Orders blocks by their hash alone.
#[derive(Clone, Copy, Debug, PartialEq, Eq)]
struct ByHash(Key);

impl ByHash {
    fn hash(&self) -> u64 {
        BlockIndex::<VPS>::new(self.0 .0, self.0 .1, self.0 .2).deco_hash()
    }
}

impl Ord for ByHash {
    fn cmp(&self, other: &Self) -> std::cmp::Ordering {
        self.hash().cmp(&other.hash())
    }
}

impl PartialOrd for ByHash {
    fn partial_cmp(&self, other: &Self) -> Option<std::cmp::Ordering> {
        Some(self.cmp(other))
    }
}

struct Model {
    voxel_size: f32,
    tsdf: HashMap<Key, Vec<(f32, f32)>>,
    esdf: HashMap<Key, Vec<ModelVoxel>>,
}

fn lin(x: usize, y: usize, z: usize) -> usize {
    x + VPS * (y + VPS * z)
}

fn neighbours6(b: Key) -> [Key; 6] {
    [
        (b.0 - 1, b.1, b.2),
        (b.0 + 1, b.1, b.2),
        (b.0, b.1 - 1, b.2),
        (b.0, b.1 + 1, b.2),
        (b.0, b.1, b.2 - 1),
        (b.0, b.1, b.2 + 1),
    ]
}

impl Model {
    fn relax(parent: ModelVoxel, voxel: &mut ModelVoxel, voxel_size: f32) -> bool {
        if parent.flags & FIXED != 0 && voxel.flags & OBSERVED == 0 {
            if voxel.flags & FIXED == 0 {
                voxel.distance = parent.distance + voxel_size;
                voxel.flags |= FIXED | HAS_SITE_INDEX;
                voxel.site = parent.site;
                return true;
            } else if voxel.distance > parent.distance + voxel_size {
                voxel.distance = parent.distance + voxel_size;
                voxel.site = parent.site;
                return true;
            }
        }
        false
    }

    fn sweep(&mut self, b: Key, axis: usize, forward: bool) {
        let voxel_size = self.voxel_size;
        let block = self.esdf.get_mut(&b).unwrap();
        for u in 0..VPS {
            for v in 0..VPS {
                let at = |w: usize| if axis == 0 { lin(w, v, u) } else { lin(v, w, u) };
                if forward {
                    for w in 1..VPS {
                        let parent = block[at(w - 1)];
                        Self::relax(parent, &mut block[at(w)], voxel_size);
                    }
                } else {
                    for w in (0..VPS - 1).rev() {
                        let parent = block[at(w + 1)];
                        Self::relax(parent, &mut block[at(w)], voxel_size);
                    }
                }
            }
        }
    }

    fn propagate(&mut self, b: Key, axis: usize, forward: bool) -> Option<Key> {
        let step = if forward { 1 } else { -1 };
        let n = if axis == 0 { (b.0 + step, b.1, b.2) } else { (b.0, b.1 + step, b.2) };
        if !self.esdf.contains_key(&n) {
            return None;
        }
        let (p_index, n_index) = if forward { (VPS - 1, 0) } else { (0, VPS - 1) };
        let pivot = self.esdf[&b].clone();
        let voxel_size = self.voxel_size;
        let neighbour = self.esdf.get_mut(&n).unwrap();
        let mut dirty = false;
        for u in 0..VPS {
            for v in 0..VPS {
                let at = |w: usize| if axis == 0 { lin(w, v, u) } else { lin(v, w, u) };
                if Self::relax(pivot[at(p_index)], &mut neighbour[at(n_index)], voxel_size) {
                    dirty = true;
                }
            }
        }
        if dirty {
            Some(n)
        } else {
            None
        }
    }

    fn update(&mut self, updated: &[Key]) {
        let updated: BTreeSet<ByHash> = updated.iter().map(|b| ByHash(*b)).collect();
        let mut dirty: BTreeSet<ByHash> = BTreeSet::new();
        let mut to_clear = updated.clone();
        let mut sites: BTreeSet<ByHash> = BTreeSet::new();
        let keys: Vec<Key> = self.tsdf.keys().copied().collect();
        for b in keys {
            self.esdf.entry(b).or_insert_with(|| vec![EMPTY; N]);
        }
        for b in &updated {
            let block = self.esdf.entry(b.0).or_insert_with(|| vec![EMPTY; N]);
            for v in block.iter() {
                if v.flags & HAS_SITE_INDEX != 0 {
                    sites.insert(ByHash(v.site));
                }
            }
        }
        let mut open = updated.clone();
        let mut closed: BTreeSet<ByHash> = BTreeSet::new();
        while let Some(index) = open.pop_first() {
            closed.insert(index);
            if let Some(block) = self.esdf.get(&index.0) {
                let flagged = block
                    .iter()
                    .any(|v| v.flags & HAS_SITE_INDEX != 0 && sites.contains(&ByHash(v.site)));
                if flagged {
                    to_clear.insert(index);
                    for n in neighbours6(index.0) {
                        if !closed.contains(&ByHash(n)) && self.esdf.contains_key(&n) {
                            open.insert(ByHash(n));
                        }
                    }
                } else {
                    dirty.insert(index);
                }
            }
        }
        for b in &to_clear {
            let block = self.esdf.get_mut(&b.0).unwrap();
            for v in block.iter_mut() {
                *v = EMPTY;
            }
        }
        for b in &to_clear {
            let tsdf_block = &self.tsdf[&b.0];
            let block = self.esdf.get_mut(&b.0).unwrap();
            for i in 0..N {
                if tsdf_block[i].1 > 0.0 {
                    block[i].distance = tsdf_block[i].0;
                    block[i].flags |= FIXED | OBSERVED | HAS_SITE_INDEX;
                    block[i].site = b.0;
                    dirty.insert(*b);
                } else {
                    block[i].distance = 0.0;
                    block[i].flags = 0;
                }
            }
        }
        let mut propagate: BTreeSet<ByHash> = BTreeSet::new();
        while !dirty.is_empty() {
            while let Some(b) = dirty.pop_first() {
                self.sweep(b.0, 0, true);
                self.sweep(b.0, 0, false);
                self.sweep(b.0, 1, true);
                self.sweep(b.0, 1, false);
                propagate.insert(b);
            }
            while let Some(b) = propagate.pop_first() {
                for (axis, forward) in [(0, true), (0, false), (1, true), (1, false)] {
                    if let Some(n) = self.propagate(b.0, axis, forward) {
                        dirty.insert(ByHash(n));
                    }
                }
            }
        }
    }
}

struct Both {
    model: Model,
    tsdf: Layer<Tsdf, VPS>,
    esdf: Layer<Esdf, VPS>,
    integrator: EsdfIntegrator,
}

impl Both {
    fn new(voxel_size: i32) -> Self {
        Both {
            model: Model { voxel_size: voxel_size as f32, tsdf: HashMap::new(), esdf: HashMap::new() },
            tsdf: Layer::new(voxel_size),
            esdf: Layer::new(voxel_size),
            integrator: EsdfIntegrator::new(EsdfIntegratorConfig::default()),
        }
    }

    fn allocate(&mut self, b: Key) {
        self.model.tsdf.entry(b).or_insert_with(|| vec![(0.0, 0.0); N]);
        self.tsdf.allocate_block_by_index(&BlockIndex::new(b.0, b.1, b.2));
    }

    fn set(&mut self, x: i64, y: i64, z: i64, distance: i32, weight: i32) -> Key {
        let g: GlobalIndex<VPS> = GlobalIndex { x, y, z };
        let (b, v) = g.block_voxel_index();
        let key = (b.x, b.y, b.z);
        self.allocate(key);
        self.model.tsdf.get_mut(&key).unwrap()[v.linear_index()] = (distance as f32, weight as f32);
        let voxel = self.tsdf.allocate_block_by_index(&b).voxel_from_index_mut(&v);
        voxel.distance = distance;
        voxel.weight = weight;
        key
    }

    fn update(&mut self, updated: &[Key]) {
        self.model.update(updated);
        let mut set: BlockSet<VPS> = BlockSet::new();
        for b in updated {
            set.insert(BlockIndex::new(b.0, b.1, b.2));
        }
        self.integrator.update_blocks(&self.tsdf, &mut self.esdf, &set, &mut NoProgress::default());
    }

    fn compare(&self) {
        assert_eq!(self.model.esdf.len(), self.esdf.allocated_blocks_iter().len());
        for b in self.esdf.allocated_blocks_iter() {
            let block = self.esdf.block_by_index(b).unwrap().as_slice();
            let model = &self.model.esdf[&(b.x, b.y, b.z)];
            for i in 0..N {
                let site = block[i].site_block_index;
                assert_eq!(
                    (block[i].distance as f32, block[i].flags.bits, (site.x, site.y, site.z)),
                    (model[i].distance, model[i].flags, model[i].site),
                    "block {:?}, voxel {}",
                    b,
                    i
                );
            }
        }
    }
}

struct Lcg(u64);

impl Lcg {
    fn next(&mut self, below: u64) -> u64 {
        self.0 = self.0.wrapping_mul(6364136223846793005).wrapping_add(1442695040888963407);
        (self.0 >> 33) % below
    }
}

#[test]
fn update_agrees_with_a_plain_model() {
    for seed in 0..12u64 {
        let mut rng = Lcg(seed * 7919 + 1);
        let mut both = Both::new(1 + (seed % 3) as i32);
        for bx in -1..3 {
            for by in -1..2 {
                if rng.next(5) != 0 {
                    both.allocate((bx, by, 0));
                }
            }
        }
        let mut updated = Vec::new();
        for _ in 0..6 {
            let x = rng.next(16) as i64 - 4;
            let y = rng.next(12) as i64 - 4;
            let distance = rng.next(4) as i32;
            updated.push(both.set(x, y, 0, distance, 1));
        }
        both.update(&updated);
        both.compare();

        // some sites go, some come
        let mut updated = Vec::new();
        for _ in 0..3 {
            let x = rng.next(16) as i64 - 4;
            let y = rng.next(12) as i64 - 4;
            updated.push(both.set(x, y, 0, 0, 0));
        }
        for _ in 0..2 {
            let x = rng.next(16) as i64 - 4;
            let y = rng.next(12) as i64 - 4;
            updated.push(both.set(x, y, 1, 2, 1));
        }
        both.update(&updated);
        both.compare();

        // nothing changes
        both.update(&[]);
        both.compare();
    }
}

#[test]
fn retraction_agrees_with_a_plain_model() {
    let mut both = Both::new(1);
    for bx in 0..4 {
        for by in 0..3 {
            both.allocate((bx, by, 0));
        }
    }
    let a = both.set(1, 1, 0, 0, 1);
    let b = both.set(14, 9, 0, 0, 1);
    both.update(&[a, b]);
    both.compare();
    let a = both.set(1, 1, 0, 0, 0);
    both.update(&[a]);
    both.compare();
    let b = both.set(14, 9, 0, 0, 0);
    both.update(&[b]);
    both.compare();
    for block in both.esdf.allocated_blocks_iter() {
        assert!(both.esdf.block_by_index(block).unwrap().as_slice().iter().all(|v| *v == Esdf::default()));
    }
}
