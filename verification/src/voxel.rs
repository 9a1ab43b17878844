//! The voxel flavours that a layer can hold, and the flag set of a distance
//! voxel.

use vstd::prelude::*;
use crate::index::BlockIndex;

verus! {

/// The scalar of the volume, in fixed point: a whole number of the unit
/// that the caller chose. Distances, weights and the voxel size of a layer
/// are given in it.
pub type Real = i32;

/// What a layer needs of its voxels: a plain value that can be copied, with
/// one value that stands for "nothing written yet".
pub trait Voxel: Copy {
    /// The voxel that nothing has been written to.
    spec fn spec_empty() -> Self;

    /// The voxel that nothing has been written to.
    fn empty() -> (v: Self)
        ensures
            v == Self::spec_empty(),
    ;
}

/// A voxel of the truncated signed distance field. It is observed when its
/// weight is positive.
#[derive(Debug, Clone, Copy, PartialEq, Eq, Structural)]
pub struct Tsdf {
    pub distance: Real,
    pub weight: Real,
}

impl Tsdf {
    /// Whether an observation stands behind the voxel.
    pub open spec fn spec_is_observed(&self) -> bool {
        self.weight > 0
    }

    /// Whether an observation stands behind the voxel.
    #[verifier::when_used_as_spec(spec_is_observed)]
    pub fn is_observed(&self) -> (r: bool)
        ensures
            r == self.spec_is_observed(),
    {
        self.weight > 0
    }
}

impl Voxel for Tsdf {
    open spec fn spec_empty() -> Self {
        Tsdf { distance: 0, weight: 0 }
    }

    fn empty() -> (v: Self) {
        Tsdf { distance: 0, weight: 0 }
    }
}

impl Default for Tsdf {
    fn default() -> (v: Self)
        ensures
            v == Self::spec_empty(),
    {
        Tsdf { distance: 0, weight: 0 }
    }
}

/// A voxel of an occupancy grid.
#[derive(Debug, Clone, Copy, PartialEq, Eq, Structural)]
pub struct Occupancy {
    pub probability: Real,
    pub observed: bool,
}

impl Voxel for Occupancy {
    open spec fn spec_empty() -> Self {
        Occupancy { probability: 0, observed: false }
    }

    fn empty() -> (v: Self) {
        Occupancy { probability: 0, observed: false }
    }
}

impl Default for Occupancy {
    fn default() -> (v: Self)
        ensures
            v == Self::spec_empty(),
    {
        Occupancy { probability: 0, observed: false }
    }
}

/// A voxel that holds a weighted intensity.
#[derive(Debug, Clone, Copy, PartialEq, Eq, Structural)]
pub struct IntensityVoxel {
    pub intensity: Real,
    pub weight: Real,
}

impl Voxel for IntensityVoxel {
    open spec fn spec_empty() -> Self {
        IntensityVoxel { intensity: 0, weight: 0 }
    }

    fn empty() -> (v: Self) {
        IntensityVoxel { intensity: 0, weight: 0 }
    }
}

impl Default for IntensityVoxel {
    fn default() -> (v: Self)
        ensures
            v == Self::spec_empty(),
    {
        IntensityVoxel { intensity: 0, weight: 0 }
    }
}

/// The bit of `Observed`: the voxel is a surface site taken over from an
/// observed voxel of the truncated field; sweeps do not overwrite it.
pub const OBSERVED: u32 = 0x1;

/// The bit of `Fixed`: the voxel has a valid distance.
pub const FIXED: u32 = 0x2;

/// The bit of `HasSiteIndex`: the site block of the voxel is meaningful.
pub const HAS_SITE_INDEX: u32 = 0x4;

/// The bit of `Updated`: a propagation wrote into the voxel.
pub const UPDATED: u32 = 0x8;

/// The bit of the flag for a wave that left through the face x+.
pub const SPILLED_X_PLUS: u32 = 0x10;

/// The bit of the flag for a wave that left through the face x-.
pub const SPILLED_X_MINUS: u32 = 0x20;

/// The bit of the flag for a wave that left through the face y+.
pub const SPILLED_Y_PLUS: u32 = 0x40;

/// The bit of the flag for a wave that left through the face y-.
pub const SPILLED_Y_MINUS: u32 = 0x80;

/// The bit of the flag for a wave that left through the face z+.
pub const SPILLED_Z_PLUS: u32 = 0x100;

/// The bit of the flag for a wave that left through the face z-.
pub const SPILLED_Z_MINUS: u32 = 0x200;

/// The bits of all the flags.
pub const ALL_FLAGS: u32 = 0x3ff;

/// A set of flags of a distance voxel, one bit each.
#[derive(Debug, Clone, Copy, PartialEq, Eq, Structural)]
pub struct EsdfFlags {
    pub bits: u32,
}

impl EsdfFlags {
    /// The set without a flag.
    pub fn empty() -> (f: Self)
        ensures
            f.bits == 0,
    {
        EsdfFlags { bits: 0 }
    }

    /// The set of all flags.
    pub fn all() -> (f: Self)
        ensures
            f.bits == ALL_FLAGS,
    {
        EsdfFlags { bits: ALL_FLAGS }
    }

    /// The set of the flags whose bits are set in `bits`; bits that belong
    /// to no flag are dropped.
    pub fn from_bits_truncate(bits: u32) -> (f: Self)
        ensures
            f.bits == bits & ALL_FLAGS,
    {
        EsdfFlags { bits: bits & ALL_FLAGS }
    }

    /// The bits of the flags of the set.
    pub fn bits(&self) -> (b: u32)
        ensures
            b == self.bits,
    {
        self.bits
    }

    /// Whether the set holds no flag.
    pub fn is_empty(&self) -> (r: bool)
        ensures
            r == (self.bits == 0),
    {
        self.bits == 0
    }

    /// Whether every flag of `other` is in this set.
    pub open spec fn spec_contains(&self, other: EsdfFlags) -> bool {
        self.bits & other.bits == other.bits
    }

    /// Whether every flag of `other` is in this set.
    #[verifier::when_used_as_spec(spec_contains)]
    pub fn contains(&self, other: EsdfFlags) -> (r: bool)
        ensures
            r == self.spec_contains(other),
    {
        self.bits & other.bits == other.bits
    }

    /// The flags of either set.
    pub fn union(self, other: EsdfFlags) -> (f: Self)
        ensures
            f.bits == self.bits | other.bits,
    {
        EsdfFlags { bits: self.bits | other.bits }
    }

    /// Adds the flags of `other`.
    pub fn insert(&mut self, other: EsdfFlags)
        ensures
            final(self).bits == old(self).bits | other.bits,
    {
        self.bits = self.bits | other.bits;
    }

    /// Takes the flags of `other` away.
    pub fn remove(&mut self, other: EsdfFlags)
        ensures
            final(self).bits == old(self).bits & !other.bits,
    {
        self.bits = self.bits & !other.bits;
    }
}

impl Default for EsdfFlags {
    fn default() -> (f: Self)
        ensures
            f.bits == 0,
    {
        EsdfFlags { bits: 0 }
    }
}

/// The coordinates of a block as a voxel stores them.
#[derive(Debug, Clone, Copy, PartialEq, Eq, Structural)]
pub struct SiteIndex {
    pub x: i32,
    pub y: i32,
    pub z: i32,
}

impl SiteIndex {
    /// The block with these coordinates.
    pub open spec fn spec_block<const VPS: usize>(&self) -> BlockIndex<VPS> {
        BlockIndex { x: self.x, y: self.y, z: self.z }
    }

    /// The block with these coordinates.
    pub fn block<const VPS: usize>(&self) -> (b: BlockIndex<VPS>)
        ensures
            b == self.spec_block::<VPS>(),
    {
        BlockIndex { x: self.x, y: self.y, z: self.z }
    }

    /// The coordinates of a block.
    pub open spec fn spec_of<const VPS: usize>(b: BlockIndex<VPS>) -> Self {
        SiteIndex { x: b.x, y: b.y, z: b.z }
    }

    /// The coordinates of a block.
    pub fn of<const VPS: usize>(b: &BlockIndex<VPS>) -> (s: Self)
        ensures
            s == Self::spec_of(*b),
    {
        SiteIndex { x: b.x, y: b.y, z: b.z }
    }
}

/// A voxel of the Euclidean distance field: the distance to the nearest
/// site, the flags, and the block of that site.
#[derive(Debug, Clone, Copy, PartialEq, Eq, Structural)]
pub struct Esdf {
    pub distance: Real,
    pub flags: EsdfFlags,
    pub site_block_index: SiteIndex,
}

impl Esdf {
    /// The voxel is a site: sweeps and propagations leave it alone.
    pub open spec fn is_observed(&self) -> bool {
        self.flags.bits & OBSERVED == OBSERVED
    }

    /// The voxel has a valid distance.
    pub open spec fn is_fixed(&self) -> bool {
        self.flags.bits & FIXED == FIXED
    }

    /// The site block of the voxel is meaningful.
    pub open spec fn has_site_index(&self) -> bool {
        self.flags.bits & HAS_SITE_INDEX == HAS_SITE_INDEX
    }

    /// A propagation wrote into the voxel.
    pub open spec fn is_updated(&self) -> bool {
        self.flags.bits & UPDATED == UPDATED
    }
}

impl Voxel for Esdf {
    open spec fn spec_empty() -> Self {
        Esdf {
            distance: 0,
            flags: EsdfFlags { bits: 0 },
            site_block_index: SiteIndex { x: 0, y: 0, z: 0 },
        }
    }

    fn empty() -> (v: Self) {
        Esdf {
            distance: 0,
            flags: EsdfFlags { bits: 0 },
            site_block_index: SiteIndex { x: 0, y: 0, z: 0 },
        }
    }
}

impl Default for Esdf {
    fn default() -> (v: Self)
        ensures
            v == Self::spec_empty(),
    {
        Esdf {
            distance: 0,
            flags: EsdfFlags { bits: 0 },
            site_block_index: SiteIndex { x: 0, y: 0, z: 0 },
        }
    }
}

} // verus!
