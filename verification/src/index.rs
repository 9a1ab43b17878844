//! Grid indexing: global voxel indices, block indices, voxel indices inside a
//! block, the conversions between them, and neighbour enumeration.

use vstd::prelude::*;
use vstd::arithmetic::div_mod::{
    lemma_fundamental_div_mod,
    lemma_fundamental_div_mod_converse,
    lemma_mod_multiples_vanish,
};
use vstd::std_specs::cmp::PartialEqSpecImpl;
use vstd::std_specs::ops::{AddSpecImpl, SubSpecImpl};

verus! {

/// Whether a block side of `vps` voxels can be addressed: the side is not
/// empty, and the number of voxels of a block fits the machine's word.
pub open spec fn side_is_valid(vps: usize) -> bool {
    &&& 0 < vps
    &&& vps <= 0x7fff_ffff
    &&& vps * vps * vps <= usize::MAX
}

/// Whether a block side of `vps` voxels can be addressed.
pub fn is_valid_side(vps: usize) -> (r: bool)
    ensures
        r == side_is_valid(vps),
{
    if vps == 0 || vps > 0x7fff_ffff {
        return false;
    }
    match vps.checked_mul(vps) {
        Some(square) => {
            assert(vps * vps * vps >= vps * vps) by (nonlinear_arith)
                requires
                    vps >= 1,
            ;
            square.checked_mul(vps).is_some()
        },
        None => {
            assert(vps * vps * vps >= vps * vps) by (nonlinear_arith)
                requires
                    vps >= 1,
            ;
            false
        },
    }
}

/// Index of a voxel in the whole volume, in voxel units.
#[derive(Debug, Clone, Copy)]
pub struct GlobalIndex<const VPS: usize> {
    pub x: i64,
    pub y: i64,
    pub z: i64,
}

/// Index of a voxel inside its block; every component is below `VPS` when
/// the index is well formed.
#[derive(Debug, Clone, Copy)]
pub struct VoxelIndex<const VPS: usize> {
    pub x: usize,
    pub y: usize,
    pub z: usize,
}

/// Index of a block, in block units.
#[derive(Debug, Clone, Copy, Hash)]
pub struct BlockIndex<const VPS: usize> {
    pub x: i32,
    pub y: i32,
    pub z: i32,
}

impl<const VPS: usize> PartialEq for GlobalIndex<VPS> {
    fn eq(&self, other: &Self) -> (r: bool) {
        self.x == other.x && self.y == other.y && self.z == other.z
    }
}

impl<const VPS: usize> Eq for GlobalIndex<VPS> {

}

impl<const VPS: usize> PartialEqSpecImpl for GlobalIndex<VPS> {
    open spec fn obeys_eq_spec() -> bool {
        true
    }

    open spec fn eq_spec(&self, other: &Self) -> bool {
        self.x == other.x && self.y == other.y && self.z == other.z
    }
}

impl<const VPS: usize> PartialEq for VoxelIndex<VPS> {
    fn eq(&self, other: &Self) -> (r: bool) {
        self.x == other.x && self.y == other.y && self.z == other.z
    }
}

impl<const VPS: usize> Eq for VoxelIndex<VPS> {

}

impl<const VPS: usize> PartialEqSpecImpl for VoxelIndex<VPS> {
    open spec fn obeys_eq_spec() -> bool {
        true
    }

    open spec fn eq_spec(&self, other: &Self) -> bool {
        self.x == other.x && self.y == other.y && self.z == other.z
    }
}

impl<const VPS: usize> PartialEq for BlockIndex<VPS> {
    fn eq(&self, other: &Self) -> (r: bool) {
        self.x == other.x && self.y == other.y && self.z == other.z
    }
}

impl<const VPS: usize> Eq for BlockIndex<VPS> {

}

impl<const VPS: usize> PartialEqSpecImpl for BlockIndex<VPS> {
    open spec fn obeys_eq_spec() -> bool {
        true
    }

    open spec fn eq_spec(&self, other: &Self) -> bool {
        self.x == other.x && self.y == other.y && self.z == other.z
    }
}

/// Floor division of a coordinate by the block side.
pub open spec fn floor_div(a: int, vps: int) -> int {
    a / vps
}

/// Euclidean remainder of a coordinate by the block side.
pub open spec fn floor_mod(a: int, vps: int) -> int {
    a % vps
}

impl<const VPS: usize> VoxelIndex<VPS> {
    /// Every component lies in `[0, VPS)`.
    pub open spec fn wf(&self) -> bool {
        self.x < VPS && self.y < VPS && self.z < VPS
    }

    /// Position of the voxel in the block's array, x fastest.
    pub open spec fn spec_linear_index(&self) -> int {
        self.x + VPS * (self.y + VPS * self.z)
    }

    /// The voxel at a position of the block's array.
    pub open spec fn spec_from_linear(i: int) -> Self {
        VoxelIndex {
            x: (i % (VPS as int)) as usize,
            y: ((i / (VPS as int)) % (VPS as int)) as usize,
            z: (i / (VPS as int * VPS as int)) as usize,
        }
    }

    /// Position of the voxel in the block's array, x fastest.
    pub fn linear_index(&self) -> (r: usize)
        requires
            side_is_valid(VPS),
            self.wf(),
        ensures
            r == self.spec_linear_index(),
            r < VPS * VPS * VPS,
    {
        proof {
            lemma_linear_index_bound(self.x as int, self.y as int, self.z as int, VPS as int);
        }
        self.x + VPS * (self.y + self.z * VPS)
    }
}

/// A linear index built from components below the side is below the cube of
/// the side, and so is each partial sum.
pub proof fn lemma_linear_index_bound(x: int, y: int, z: int, n: int)
    requires
        0 <= x < n,
        0 <= y < n,
        0 <= z < n,
    ensures
        0 <= z * n < n * n,
        n * n <= n * n * n,
        0 <= y + z * n < n * n,
        0 <= n * (y + z * n) <= n * n * n - n,
        0 <= x + n * (y + n * z) < n * n * n,
        z * n == n * z,
{
    assert(0 <= z * n <= (n - 1) * n) by (nonlinear_arith)
        requires 0 <= z < n;
    assert(z * n == n * z) by (nonlinear_arith);
    assert((n - 1) * n == n * n - n) by (nonlinear_arith);
    assert(n * n <= n * n * n) by (nonlinear_arith)
        requires 1 <= n;
    assert(0 <= n * (y + z * n) <= n * (n * n - 1)) by (nonlinear_arith)
        requires 0 <= y + z * n <= n * n - 1, 0 < n;
    assert(n * (n * n - 1) == n * n * n - n) by (nonlinear_arith);
}

/// `num_integer::div_rem` on machine words. For unsigned integers the
/// crate returns the quotient `x / y` and the remainder `x % y`; it divides
/// by `y`, so `y` must not be zero.
#[verifier::external_body]
pub(crate) fn div_rem_usize(x: usize, y: usize) -> (r: (usize, usize))
    requires
        y != 0,
    ensures
        r.0 == x / y,
        r.1 == x % y,
{
    num_integer::div_rem(x, y)
}

impl<const VPS: usize> GlobalIndex<VPS> {
    /// The block that holds this voxel: each coordinate divided by the block
    /// side, rounding towards minus infinity. A quotient that does not fit
    /// in 32 bits keeps its low 32 bits.
    pub open spec fn spec_block_index(&self) -> BlockIndex<VPS> {
        BlockIndex {
            x: wrap32(floor_div(self.x as int, VPS as int)) as i32,
            y: wrap32(floor_div(self.y as int, VPS as int)) as i32,
            z: wrap32(floor_div(self.z as int, VPS as int)) as i32,
        }
    }

    /// Whether the block coordinates of this voxel fit in 32 bits, so that
    /// no bit of them is lost.
    pub open spec fn block_in_range(&self) -> bool {
        &&& i32::MIN <= floor_div(self.x as int, VPS as int) <= i32::MAX
        &&& i32::MIN <= floor_div(self.y as int, VPS as int) <= i32::MAX
        &&& i32::MIN <= floor_div(self.z as int, VPS as int) <= i32::MAX
    }

    /// The place of this voxel inside its block: each coordinate's
    /// Euclidean remainder by the block side.
    pub open spec fn spec_local_voxel_index(&self) -> VoxelIndex<VPS> {
        VoxelIndex {
            x: floor_mod(self.x as int, VPS as int) as usize,
            y: floor_mod(self.y as int, VPS as int) as usize,
            z: floor_mod(self.z as int, VPS as int) as usize,
        }
    }

    /// The voxel `v` of block `b`: `b * VPS + v`, componentwise.
    pub open spec fn spec_from_block_and_voxel_index(b: BlockIndex<VPS>, v: VoxelIndex<VPS>) -> Self {
        GlobalIndex {
            x: (b.x * VPS + v.x) as i64,
            y: (b.y * VPS + v.y) as i64,
            z: (b.z * VPS + v.z) as i64,
        }
    }

    /// The global index of the voxel that stands at a position of the array
    /// of a block.
    pub fn from_block_and_local_lin_index(
        block_index: &BlockIndex<VPS>,
        local_lin_index: usize,
    ) -> (g: Self)
        requires
            side_is_valid(VPS),
            local_lin_index < VPS * VPS * VPS,
        ensures
            g == Self::spec_from_block_and_voxel_index(
                *block_index,
                VoxelIndex::spec_from_linear(local_lin_index as int),
            ),
            VoxelIndex::<VPS>::spec_from_linear(local_lin_index as int).wf(),
    {
        proof {
            lemma_from_linear_wf(local_lin_index as int, VPS as int);
            assert(VPS * VPS > 0) by (nonlinear_arith)
                requires
                    VPS > 0,
            ;
            assert(VPS * VPS <= VPS * VPS * VPS) by (nonlinear_arith)
                requires
                    VPS > 0,
            ;
        }
        let (z, rem) = div_rem_usize(local_lin_index, VPS * VPS);
        let (y, x) = div_rem_usize(rem, VPS);
        let voxel_index = VoxelIndex::<VPS> { x, y, z };
        Self::from_block_and_voxel_index(block_index, &voxel_index)
    }

    /// The global index of a voxel of a block.
    pub fn from_block_and_voxel_index(
        block_index: &BlockIndex<VPS>,
        voxel_index: &VoxelIndex<VPS>,
    ) -> (g: Self)
        requires
            side_is_valid(VPS),
            voxel_index.wf(),
        ensures
            g == Self::spec_from_block_and_voxel_index(*block_index, *voxel_index),
            g.x == block_index.x * VPS + voxel_index.x,
            g.y == block_index.y * VPS + voxel_index.y,
            g.z == block_index.z * VPS + voxel_index.z,
    {
        let side: i64 = VPS as i64;
        proof {
            lemma_block_times_side_fits(block_index.x as int, VPS as int);
            lemma_block_times_side_fits(block_index.y as int, VPS as int);
            lemma_block_times_side_fits(block_index.z as int, VPS as int);
        }
        GlobalIndex {
            x: (block_index.x as i64) * side + (voxel_index.x as i64),
            y: (block_index.y as i64) * side + (voxel_index.y as i64),
            z: (block_index.z as i64) * side + (voxel_index.z as i64),
        }
    }

    /// The block that holds this voxel, and the place of the voxel inside
    /// the block.
    pub fn block_voxel_index(&self) -> (r: (BlockIndex<VPS>, VoxelIndex<VPS>))
        requires
            0 < VPS <= i64::MAX,
        ensures
            r.0 == self.spec_block_index(),
            r.1 == self.spec_local_voxel_index(),
            r.1.wf(),
    {
        (self.block_index(), self.local_voxel_index())
    }

    /// The block that holds this voxel.
    pub fn block_index(&self) -> (b: BlockIndex<VPS>)
        requires
            0 < VPS <= i64::MAX,
        ensures
            b == self.spec_block_index(),
            self.block_in_range() ==> b.x == floor_div(self.x as int, VPS as int) && b.y == floor_div(
                self.y as int,
                VPS as int,
            ) && b.z == floor_div(self.z as int, VPS as int),
    {
        let side: i64 = VPS as i64;
        BlockIndex {
            x: wrap_to_i32(floor_div_i64(self.x, side)),
            y: wrap_to_i32(floor_div_i64(self.y, side)),
            z: wrap_to_i32(floor_div_i64(self.z, side)),
        }
    }

    /// The place of this voxel inside its block.
    pub fn local_voxel_index(&self) -> (v: VoxelIndex<VPS>)
        requires
            0 < VPS <= i64::MAX,
        ensures
            v == self.spec_local_voxel_index(),
            v.wf(),
            v.x == floor_mod(self.x as int, VPS as int),
            v.y == floor_mod(self.y as int, VPS as int),
            v.z == floor_mod(self.z as int, VPS as int),
    {
        let side: i64 = VPS as i64;
        VoxelIndex {
            x: floor_mod_i64(self.x, side) as usize,
            y: floor_mod_i64(self.y, side) as usize,
            z: floor_mod_i64(self.z, side) as usize,
        }
    }
}

/// Quotient of the division that rounds towards minus infinity, for a
/// positive divisor.
fn floor_div_i64(a: i64, d: i64) -> (q: i64)
    requires
        d > 0,
    ensures
        q == floor_div(a as int, d as int),
{
    proof {
        lemma_floor_div_bounds(a as int, d as int);
    }
    match a.checked_div_euclid(d) {
        Some(q) => q,
        None => 0,
    }
}

/// Euclidean remainder for a positive divisor: never negative, below the
/// divisor.
fn floor_mod_i64(a: i64, d: i64) -> (r: i64)
    requires
        d > 0,
    ensures
        r == floor_mod(a as int, d as int),
        0 <= r < d,
{
    proof {
        lemma_floor_div_bounds(a as int, d as int);
    }
    match a.checked_rem_euclid(d) {
        Some(r) => r,
        None => 0,
    }
}

/// The value that a two's complement cast to 32 bits keeps.
pub open spec fn wrap32(a: int) -> int {
    (a + 0x8000_0000) % 0x1_0000_0000 - 0x8000_0000
}

/// Keeps the low 32 bits of `a`, read as a signed number.
fn wrap_to_i32(a: i64) -> (r: i32)
    ensures
        r == wrap32(a as int),
        i32::MIN <= a <= i32::MAX ==> r == a,
{
    let shifted: i128 = (a as i128) + 0x8000_0000_0000_0000i128 + 0x8000_0000i128;
    let low: i128 = shifted % 0x1_0000_0000i128;
    (low - 0x8000_0000i128) as i32
}

/// For a positive divisor the floor quotient lies between the dividend and
/// its negation, and the remainder below the divisor.
pub proof fn lemma_floor_div_bounds(a: int, d: int)
    requires
        d > 0,
    ensures
        0 <= a % d < d,
        a >= 0 ==> 0 <= a / d <= a,
        a < 0 ==> a <= a / d < 0,
        a == d * (a / d) + a % d,
{
    lemma_fundamental_div_mod(a, d);
    let q = a / d;
    let r = a % d;
    if a >= 0 {
        assert(0 <= q <= a) by (nonlinear_arith)
            requires
                a == d * q + r,
                0 <= r < d,
                d > 0,
                a >= 0,
        ;
    } else {
        assert(a <= q < 0) by (nonlinear_arith)
            requires
                a == d * q + r,
                0 <= r < d,
                d > 0,
                a < 0,
        ;
    }
}

/// A block coordinate times a valid side, plus a voxel coordinate, fits in
/// 64 bits.
pub proof fn lemma_block_times_side_fits(b: int, n: int)
    requires
        i32::MIN <= b <= i32::MAX,
        0 < n <= 0x7fff_ffff,
    ensures
        -0x4000_0000_0000_0000 <= b * n <= 0x4000_0000_0000_0000,
{
    assert(-0x4000_0000_0000_0000 <= b * n <= 0x4000_0000_0000_0000) by (nonlinear_arith)
        requires
            -0x8000_0000 <= b <= 0x7fff_ffff,
            0 < n <= 0x7fff_ffff,
    ;
}

/// How a position of the block's array splits into three components, x
/// fastest: the two ways of taking it apart agree, the components add up
/// to the position, and a position below the cube of the side gives
/// components below the side.
pub proof fn lemma_from_linear_wf(i: int, n: int)
    requires
        0 < n,
        0 <= i,
    ensures
        0 <= i % n < n,
        0 <= (i / n) % n < n,
        0 <= i / (n * n),
        i < n * n * n ==> i / (n * n) < n,
        i / (n * n) == (i / n) / n,
        (i % (n * n)) / n == (i / n) % n,
        (i % (n * n)) % n == i % n,
        i == i % n + n * ((i / n) % n + n * (i / (n * n))),
{
    assert(n * n > 0) by (nonlinear_arith)
        requires
            n > 0,
    ;
    lemma_fundamental_div_mod(i, n);
    lemma_fundamental_div_mod(i / n, n);
    lemma_fundamental_div_mod(i, n * n);
    let q = i / n;
    let zz = q / n;
    let yy = q % n;
    let xx = i % n;
    assert(i == xx + n * (yy + n * zz)) by (nonlinear_arith)
        requires
            i == n * q + xx,
            q == n * zz + yy,
    ;
    assert(i == (n * n) * zz + (n * yy + xx)) by (nonlinear_arith)
        requires
            i == xx + n * (yy + n * zz),
    ;
    assert(0 <= n * yy + xx < n * n) by (nonlinear_arith)
        requires
            0 <= xx < n,
            0 <= yy < n,
    ;
    lemma_fundamental_div_mod_converse(i, n * n, zz, n * yy + xx);
    assert(0 <= q) by (nonlinear_arith)
        requires
            i == n * q + xx,
            0 <= xx < n,
            0 <= i,
            n > 0,
    ;
    if i < n * n * n {
        assert(zz < n) by (nonlinear_arith)
            requires
                i == (n * n) * zz + (n * yy + xx),
                0 <= n * yy + xx,
                i < n * n * n,
                n > 0,
        ;
    }
    assert(0 <= zz) by (nonlinear_arith)
        requires
            q == n * zz + yy,
            0 <= yy < n,
            0 <= q,
            n > 0,
    ;
    lemma_fundamental_div_mod_converse(n * yy + xx, n, yy, xx);
}

/// Taking a global index apart into its block and the voxel inside the
/// block, and putting the two together again, gives the index back,
/// whatever the signs of its coordinates, as long as the block's
/// coordinates fit in 32 bits.
pub proof fn lemma_global_split_then_join<const VPS: usize>(g: GlobalIndex<VPS>)
    requires
        0 < VPS,
        g.block_in_range(),
    ensures
        g.spec_local_voxel_index().wf(),
        GlobalIndex::spec_from_block_and_voxel_index(g.spec_block_index(), g.spec_local_voxel_index())
            == g,
{
    lemma_floor_div_bounds(g.x as int, VPS as int);
    lemma_floor_div_bounds(g.y as int, VPS as int);
    lemma_floor_div_bounds(g.z as int, VPS as int);
    let n = VPS as int;
    let (qx, qy, qz) = (g.x as int / n, g.y as int / n, g.z as int / n);
    assert(qx * n == n * qx && qy * n == n * qy && qz * n == n * qz) by (nonlinear_arith);
}

/// Putting a block and a well formed voxel index together, and taking the
/// result apart, gives the block and the voxel index back.
pub proof fn lemma_global_join_then_split<const VPS: usize>(b: BlockIndex<VPS>, v: VoxelIndex<VPS>)
    requires
        side_is_valid(VPS),
        v.wf(),
    ensures
        GlobalIndex::spec_from_block_and_voxel_index(b, v).block_in_range(),
        GlobalIndex::spec_from_block_and_voxel_index(b, v).spec_block_index() == b,
        GlobalIndex::spec_from_block_and_voxel_index(b, v).spec_local_voxel_index() == v,
{
    let n = VPS as int;
    lemma_block_times_side_fits(b.x as int, n);
    lemma_block_times_side_fits(b.y as int, n);
    lemma_block_times_side_fits(b.z as int, n);
    lemma_fundamental_div_mod_converse(b.x * n + v.x, n, b.x as int, v.x as int);
    lemma_fundamental_div_mod_converse(b.y * n + v.y, n, b.y as int, v.y as int);
    lemma_fundamental_div_mod_converse(b.z * n + v.z, n, b.z as int, v.z as int);
    assert(b.x * n == n * b.x && b.y * n == n * b.y && b.z * n == n * b.z) by (nonlinear_arith);
}

/// The position of a well formed voxel index in the block's array is
/// `x + VPS * (y + VPS * z)`, lies below the cube of the side, and leads
/// back to the voxel index.
pub proof fn lemma_linear_index_round_trip<const VPS: usize>(v: VoxelIndex<VPS>)
    requires
        v.wf(),
    ensures
        v.spec_linear_index() == v.x + VPS * (v.y + VPS * v.z),
        0 <= v.spec_linear_index() < VPS * VPS * VPS,
        VoxelIndex::<VPS>::spec_from_linear(v.spec_linear_index()) == v,
{
    let n = VPS as int;
    let i = v.spec_linear_index();
    lemma_linear_index_bound(v.x as int, v.y as int, v.z as int, n);
    assert(0 <= v.y + n * v.z) by (nonlinear_arith)
        requires
            0 <= v.y,
            0 <= v.z,
            0 < n,
    ;
    lemma_fundamental_div_mod_converse(i, n, v.y + n * v.z, v.x as int);
    lemma_fundamental_div_mod_converse(v.y + n * v.z, n, v.z as int, v.y as int);
    lemma_from_linear_wf(i, n);
}

/// Every position below the cube of the side is the position of the voxel
/// index read off it.
pub proof fn lemma_from_linear_round_trip<const VPS: usize>(i: int)
    requires
        0 < VPS,
        0 <= i < VPS * VPS * VPS,
    ensures
        VoxelIndex::<VPS>::spec_from_linear(i).wf(),
        VoxelIndex::<VPS>::spec_from_linear(i).spec_linear_index() == i,
{
    lemma_from_linear_wf(i, VPS as int);
}

/// The first multiplier of the block hash.
pub const HASH_STEP: u64 = 17191;

/// The second multiplier of the block hash, the square of the first.
pub const HASH_STEP_SQUARED: u64 = 295530481;

/// The number of values of a 64-bit word.
pub open spec fn word_range() -> int {
    0x1_0000_0000_0000_0000
}

/// A signed coordinate as the 64-bit word that sign extension gives.
fn sign_extended(v: i32) -> (r: u64)
    ensures
        r == (v as int) % word_range(),
        v >= 0 ==> r == v,
        v < 0 ==> r == v + word_range(),
{
    if v >= 0 {
        v as u64
    } else {
        let magnitude: u64 = (-(v as i64)) as u64;
        u64::MAX - magnitude + 1
    }
}

impl<const VPS: usize> BlockIndex<VPS> {
    /// The block with the given coordinates.
    pub fn new(x: i32, y: i32, z: i32) -> (b: Self)
        ensures
            b.x == x,
            b.y == y,
            b.z == z,
    {
        BlockIndex { x, y, z }
    }

    /// The locality preserving hash of the block: `x + 17191 y + 17191^2 z`
    /// in 64-bit wrapping arithmetic.
    pub open spec fn spec_deco_hash(&self) -> u64 {
        ((self.x + HASH_STEP * self.y + HASH_STEP_SQUARED * self.z) % word_range()) as u64
    }

    /// The locality preserving hash of the block.
    pub fn deco_hash(&self) -> (h: u64)
        ensures
            h == self.spec_deco_hash(),
    {
        let xs = sign_extended(self.x);
        let ys = sign_extended(self.y);
        let zs = sign_extended(self.z);
        let ym = ys.wrapping_mul(HASH_STEP);
        let zm = zs.wrapping_mul(HASH_STEP_SQUARED);
        let yz = ym.wrapping_add(zm);
        let h = xs.wrapping_add(yz);
        proof {
            let m = word_range();
            let x = self.x as int;
            let y = self.y as int;
            let z = self.z as int;
            let step = HASH_STEP as int;
            let step_squared = HASH_STEP_SQUARED as int;
            let yt = y * step;
            let zt = z * step_squared;
            let yk = if y < 0 { step } else { 0 };
            let zk = if z < 0 { step_squared } else { 0 };
            assert(ys * step == m * yk + yt) by (nonlinear_arith)
                requires
                    yt == y * step,
                    y < 0 ==> ys == y + m && yk == step,
                    y >= 0 ==> ys == y && yk == 0,
            ;
            assert(zs * step_squared == m * zk + zt) by (nonlinear_arith)
                requires
                    zt == z * step_squared,
                    z < 0 ==> zs == z + m && zk == step_squared,
                    z >= 0 ==> zs == z && zk == 0,
            ;
            lemma_mod_multiples_vanish(yk, yt, m);
            lemma_mod_multiples_vanish(zk, zt, m);
            assert(ym == yt % m);
            assert(zm == zt % m);
            lemma_fundamental_div_mod(yt, m);
            lemma_fundamental_div_mod(zt, m);
            lemma_fundamental_div_mod(x, m);
            let total = x + yt + zt;
            let k = -(x / m) - (yt / m) - (zt / m);
            assert(xs + ym + zm == total + m * k) by (nonlinear_arith)
                requires
                    xs == x - m * (x / m),
                    ym == yt - m * (yt / m),
                    zm == zt - m * (zt / m),
                    total == x + yt + zt,
                    k == -(x / m) - (yt / m) - (zt / m),
            ;
            lemma_mod_multiples_vanish(k, total, m);
            lemma_mod_multiples_vanish(-1, xs + ym + zm, m);
            lemma_mod_multiples_vanish(-2, xs + ym + zm, m);
            vstd::arithmetic::div_mod::lemma_small_mod(h as nat, m as nat);
        }
        h
    }
}

/// Any grid index can be made from three signed coordinates and gives them
/// back.
pub trait GridIndex: Sized + Copy {
    /// The coordinates of the index.
    spec fn spec_coords(&self) -> (i64, i64, i64);

    /// The index at the given coordinates; a type with narrower coordinates
    /// keeps their low bits.
    spec fn spec_from_coords(x: i64, y: i64, z: i64) -> Self;

    /// The coordinates of the index.
    fn coords(&self) -> (c: (i64, i64, i64))
        ensures
            c == self.spec_coords(),
    ;

    /// The index at the given coordinates.
    fn from_coords(x: i64, y: i64, z: i64) -> (r: Self)
        ensures
            r == Self::spec_from_coords(x, y, z),
    ;
}

impl<const VPS: usize> GridIndex for GlobalIndex<VPS> {
    open spec fn spec_coords(&self) -> (i64, i64, i64) {
        (self.x, self.y, self.z)
    }

    open spec fn spec_from_coords(x: i64, y: i64, z: i64) -> Self {
        GlobalIndex { x, y, z }
    }

    fn coords(&self) -> (c: (i64, i64, i64)) {
        (self.x, self.y, self.z)
    }

    fn from_coords(x: i64, y: i64, z: i64) -> (r: Self) {
        GlobalIndex { x, y, z }
    }
}

impl<const VPS: usize> GridIndex for BlockIndex<VPS> {
    open spec fn spec_coords(&self) -> (i64, i64, i64) {
        (self.x as i64, self.y as i64, self.z as i64)
    }

    open spec fn spec_from_coords(x: i64, y: i64, z: i64) -> Self {
        BlockIndex {
            x: wrap32(x as int) as i32,
            y: wrap32(y as int) as i32,
            z: wrap32(z as int) as i32,
        }
    }

    fn coords(&self) -> (c: (i64, i64, i64)) {
        (self.x as i64, self.y as i64, self.z as i64)
    }

    fn from_coords(x: i64, y: i64, z: i64) -> (r: Self) {
        BlockIndex { x: wrap_to_i32(x), y: wrap_to_i32(y), z: wrap_to_i32(z) }
    }
}

/// A step on the grid: each component is -1, 0 or 1 for the steps to the
/// neighbours of an index.
#[derive(Debug, Clone, Copy, PartialEq, Eq, Structural)]
pub struct GridOffset {
    pub x: i64,
    pub y: i64,
    pub z: i64,
}

/// The number of neighbours of an index that share a face, an edge or a
/// corner with it.
pub const NEIGHBOUR_COUNT: usize = 26;

/// The number of neighbours that share a face with an index.
pub const FACE_NEIGHBOUR_COUNT: usize = 6;

/// The table of steps to the neighbours: the six faces first, then the
/// twelve edges, then the eight corners.
pub open spec fn neighbour_offset(n: int) -> GridOffset {
    if n == 0 {
        GridOffset { x: -1i64, y: 0, z: 0 }
    } else if n == 1 {
        GridOffset { x: 1, y: 0, z: 0 }
    } else if n == 2 {
        GridOffset { x: 0, y: -1i64, z: 0 }
    } else if n == 3 {
        GridOffset { x: 0, y: 1, z: 0 }
    } else if n == 4 {
        GridOffset { x: 0, y: 0, z: -1i64 }
    } else if n == 5 {
        GridOffset { x: 0, y: 0, z: 1 }
    } else if n == 6 {
        GridOffset { x: -1i64, y: -1i64, z: 0 }
    } else if n == 7 {
        GridOffset { x: -1i64, y: 1, z: 0 }
    } else if n == 8 {
        GridOffset { x: 1, y: -1i64, z: 0 }
    } else if n == 9 {
        GridOffset { x: 1, y: 1, z: 0 }
    } else if n == 10 {
        GridOffset { x: -1i64, y: 0, z: -1i64 }
    } else if n == 11 {
        GridOffset { x: -1i64, y: 0, z: 1 }
    } else if n == 12 {
        GridOffset { x: 1, y: 0, z: -1i64 }
    } else if n == 13 {
        GridOffset { x: 1, y: 0, z: 1 }
    } else if n == 14 {
        GridOffset { x: 0, y: -1i64, z: -1i64 }
    } else if n == 15 {
        GridOffset { x: 0, y: -1i64, z: 1 }
    } else if n == 16 {
        GridOffset { x: 0, y: 1, z: -1i64 }
    } else if n == 17 {
        GridOffset { x: 0, y: 1, z: 1 }
    } else if n == 18 {
        GridOffset { x: -1i64, y: -1i64, z: -1i64 }
    } else if n == 19 {
        GridOffset { x: -1i64, y: -1i64, z: 1 }
    } else if n == 20 {
        GridOffset { x: -1i64, y: 1, z: -1i64 }
    } else if n == 21 {
        GridOffset { x: -1i64, y: 1, z: 1 }
    } else if n == 22 {
        GridOffset { x: 1, y: -1i64, z: -1i64 }
    } else if n == 23 {
        GridOffset { x: 1, y: -1i64, z: 1 }
    } else if n == 24 {
        GridOffset { x: 1, y: 1, z: -1i64 }
    } else {
        GridOffset { x: 1, y: 1, z: 1 }
    }
}

/// How many components of the `n`-th step are not zero: the square of the
/// step's Euclidean length.
pub open spec fn neighbour_dist_sq(n: int) -> u8 {
    if n < 6 {
        1
    } else if n < 18 {
        2
    } else {
        3
    }
}

/// The `n`-th step of the table.
pub fn offset_at(n: usize) -> (d: GridOffset)
    requires
        n < NEIGHBOUR_COUNT,
    ensures
        d == neighbour_offset(n as int),
{
    match n {
        0 => GridOffset { x: -1, y: 0, z: 0 },
        1 => GridOffset { x: 1, y: 0, z: 0 },
        2 => GridOffset { x: 0, y: -1, z: 0 },
        3 => GridOffset { x: 0, y: 1, z: 0 },
        4 => GridOffset { x: 0, y: 0, z: -1 },
        5 => GridOffset { x: 0, y: 0, z: 1 },
        6 => GridOffset { x: -1, y: -1, z: 0 },
        7 => GridOffset { x: -1, y: 1, z: 0 },
        8 => GridOffset { x: 1, y: -1, z: 0 },
        9 => GridOffset { x: 1, y: 1, z: 0 },
        10 => GridOffset { x: -1, y: 0, z: -1 },
        11 => GridOffset { x: -1, y: 0, z: 1 },
        12 => GridOffset { x: 1, y: 0, z: -1 },
        13 => GridOffset { x: 1, y: 0, z: 1 },
        14 => GridOffset { x: 0, y: -1, z: -1 },
        15 => GridOffset { x: 0, y: -1, z: 1 },
        16 => GridOffset { x: 0, y: 1, z: -1 },
        17 => GridOffset { x: 0, y: 1, z: 1 },
        18 => GridOffset { x: -1, y: -1, z: -1 },
        19 => GridOffset { x: -1, y: -1, z: 1 },
        20 => GridOffset { x: -1, y: 1, z: -1 },
        21 => GridOffset { x: -1, y: 1, z: 1 },
        22 => GridOffset { x: 1, y: -1, z: -1 },
        23 => GridOffset { x: 1, y: -1, z: 1 },
        24 => GridOffset { x: 1, y: 1, z: -1 },
        _ => GridOffset { x: 1, y: 1, z: 1 },
    }
}

/// A neighbour of an index: the neighbour itself, the step that leads to
/// it, and the square of the step's length (1 across a face, 2 across an
/// edge, 3 across a corner).
pub struct Neighbour<T> {
    pub index: T,
    pub dir: GridOffset,
    pub grid_dist_sq: u8,
}

/// The `n`-th neighbour of `pivot`. Coordinates wrap at the limits of
/// their type.
pub open spec fn spec_neighbour<T: GridIndex>(pivot: T, n: int) -> Neighbour<T> {
    let c = pivot.spec_coords();
    let d = neighbour_offset(n);
    Neighbour {
        index: T::spec_from_coords(
            c.0.wrapping_add(d.x),
            c.1.wrapping_add(d.y),
            c.2.wrapping_add(d.z),
        ),
        dir: d,
        grid_dist_sq: neighbour_dist_sq(n),
    }
}

/// The `n`-th neighbour of `pivot`.
pub fn neighbour_at<T: GridIndex>(pivot: &T, n: usize) -> (r: Neighbour<T>)
    requires
        n < NEIGHBOUR_COUNT,
    ensures
        r == spec_neighbour(*pivot, n as int),
{
    let c = pivot.coords();
    let d = offset_at(n);
    let dist: u8 = if n < 6 {
        1
    } else if n < 18 {
        2
    } else {
        3
    };
    Neighbour {
        index: T::from_coords(c.0.wrapping_add(d.x), c.1.wrapping_add(d.y), c.2.wrapping_add(d.z)),
        dir: d,
        grid_dist_sq: dist,
    }
}

/// Walks over the first `count` neighbours of an index, in the order of the
/// table of steps.
pub struct IndexNeighborIter<'a, T: GridIndex> {
    pivot: &'a T,
    n: usize,
    count: usize,
}

impl<'a, T: GridIndex> IndexNeighborIter<'a, T> {
    /// No more neighbours are handed out than were asked for.
    #[verifier::type_invariant]
    spec fn inv(self) -> bool {
        self.n <= self.count <= NEIGHBOUR_COUNT
    }

    /// The index whose neighbours are walked.
    pub closed spec fn pivot(&self) -> T {
        *self.pivot
    }

    /// How many neighbours have been handed out.
    pub closed spec fn position(&self) -> nat {
        self.n as nat
    }

    /// How many neighbours are handed out in all.
    pub closed spec fn count(&self) -> nat {
        self.count as nat
    }

    /// A walk over the first `count` neighbours of `pivot`.
    pub fn new(pivot: &'a T, count: usize) -> (it: Self)
        requires
            count <= NEIGHBOUR_COUNT,
        ensures
            it.pivot() == *pivot,
            it.position() == 0,
            it.count() == count,
    {
        IndexNeighborIter { pivot, n: 0, count }
    }

    /// The next neighbour, or `None` when `count` of them have been handed
    /// out.
    pub fn next(&mut self) -> (r: Option<Neighbour<T>>)
        ensures
            final(self).pivot() == old(self).pivot(),
            final(self).count() == old(self).count(),
            old(self).position() <= old(self).count() <= NEIGHBOUR_COUNT,
            old(self).position() < old(self).count() ==> r == Some(
                spec_neighbour(old(self).pivot(), old(self).position() as int),
            ) && final(self).position() == old(self).position() + 1,
            old(self).position() == old(self).count() ==> r is None && final(self).position()
                == old(self).position(),
    {
        proof {
            use_type_invariant(&*self);
        }
        if self.n == self.count {
            return None;
        }
        let r = neighbour_at(self.pivot, self.n);
        self.n += 1;
        Some(r)
    }
}

impl<const VPS: usize> GlobalIndex<VPS> {
    /// A walk over the 26 neighbours of the voxel: those across a face
    /// first, then those across an edge, then those across a corner.
    pub fn neighbors(&self) -> (it: IndexNeighborIter<'_, GlobalIndex<VPS>>)
        ensures
            it.pivot() == *self,
            it.position() == 0,
            it.count() == NEIGHBOUR_COUNT,
    {
        IndexNeighborIter::new(self, NEIGHBOUR_COUNT)
    }

    /// A walk over the 6 neighbours of the voxel across a face.
    pub fn neighbors6(&self) -> (it: IndexNeighborIter<'_, GlobalIndex<VPS>>)
        ensures
            it.pivot() == *self,
            it.position() == 0,
            it.count() == FACE_NEIGHBOUR_COUNT,
    {
        IndexNeighborIter::new(self, FACE_NEIGHBOUR_COUNT)
    }
}

impl<const VPS: usize> BlockIndex<VPS> {
    /// A walk over the 26 neighbours of the block: those across a face
    /// first, then those across an edge, then those across a corner.
    pub fn neighbors(&self) -> (it: IndexNeighborIter<'_, BlockIndex<VPS>>)
        ensures
            it.pivot() == *self,
            it.position() == 0,
            it.count() == NEIGHBOUR_COUNT,
    {
        IndexNeighborIter::new(self, NEIGHBOUR_COUNT)
    }

    /// A walk over the 6 neighbours of the block across a face.
    pub fn neighbors6(&self) -> (it: IndexNeighborIter<'_, BlockIndex<VPS>>)
        ensures
            it.pivot() == *self,
            it.position() == 0,
            it.count() == FACE_NEIGHBOUR_COUNT,
    {
        IndexNeighborIter::new(self, FACE_NEIGHBOUR_COUNT)
    }
}

impl<const VPS: usize> core::ops::Add for GlobalIndex<VPS> {
    type Output = GlobalIndex<VPS>;

    fn add(self, rhs: Self) -> (r: Self::Output) {
        GlobalIndex { x: self.x + rhs.x, y: self.y + rhs.y, z: self.z + rhs.z }
    }
}

impl<const VPS: usize> AddSpecImpl for GlobalIndex<VPS> {
    open spec fn obeys_add_spec() -> bool {
        true
    }

    /// Every component of the sum fits its type.
    open spec fn add_req(self, rhs: Self) -> bool {
        &&& i64::MIN <= self.x + rhs.x <= i64::MAX
        &&& i64::MIN <= self.y + rhs.y <= i64::MAX
        &&& i64::MIN <= self.z + rhs.z <= i64::MAX
    }

    open spec fn add_spec(self, rhs: Self) -> Self::Output {
        GlobalIndex {
            x: (self.x + rhs.x) as i64,
            y: (self.y + rhs.y) as i64,
            z: (self.z + rhs.z) as i64,
        }
    }
}

impl<const VPS: usize> core::ops::Sub for GlobalIndex<VPS> {
    type Output = GlobalIndex<VPS>;

    fn sub(self, rhs: Self) -> (r: Self::Output) {
        GlobalIndex { x: self.x - rhs.x, y: self.y - rhs.y, z: self.z - rhs.z }
    }
}

impl<const VPS: usize> SubSpecImpl for GlobalIndex<VPS> {
    open spec fn obeys_sub_spec() -> bool {
        true
    }

    /// Every component of the difference fits its type.
    open spec fn sub_req(self, rhs: Self) -> bool {
        &&& i64::MIN <= self.x - rhs.x <= i64::MAX
        &&& i64::MIN <= self.y - rhs.y <= i64::MAX
        &&& i64::MIN <= self.z - rhs.z <= i64::MAX
    }

    open spec fn sub_spec(self, rhs: Self) -> Self::Output {
        GlobalIndex {
            x: (self.x - rhs.x) as i64,
            y: (self.y - rhs.y) as i64,
            z: (self.z - rhs.z) as i64,
        }
    }
}

impl<const VPS: usize> core::ops::Add for BlockIndex<VPS> {
    type Output = BlockIndex<VPS>;

    fn add(self, rhs: Self) -> (r: Self::Output) {
        BlockIndex { x: self.x + rhs.x, y: self.y + rhs.y, z: self.z + rhs.z }
    }
}

impl<const VPS: usize> AddSpecImpl for BlockIndex<VPS> {
    open spec fn obeys_add_spec() -> bool {
        true
    }

    /// Every component of the sum fits its type.
    open spec fn add_req(self, rhs: Self) -> bool {
        &&& i32::MIN <= self.x + rhs.x <= i32::MAX
        &&& i32::MIN <= self.y + rhs.y <= i32::MAX
        &&& i32::MIN <= self.z + rhs.z <= i32::MAX
    }

    open spec fn add_spec(self, rhs: Self) -> Self::Output {
        BlockIndex {
            x: (self.x + rhs.x) as i32,
            y: (self.y + rhs.y) as i32,
            z: (self.z + rhs.z) as i32,
        }
    }
}

impl<const VPS: usize> core::ops::Sub for BlockIndex<VPS> {
    type Output = BlockIndex<VPS>;

    fn sub(self, rhs: Self) -> (r: Self::Output) {
        BlockIndex { x: self.x - rhs.x, y: self.y - rhs.y, z: self.z - rhs.z }
    }
}

impl<const VPS: usize> SubSpecImpl for BlockIndex<VPS> {
    open spec fn obeys_sub_spec() -> bool {
        true
    }

    /// Every component of the difference fits its type.
    open spec fn sub_req(self, rhs: Self) -> bool {
        &&& i32::MIN <= self.x - rhs.x <= i32::MAX
        &&& i32::MIN <= self.y - rhs.y <= i32::MAX
        &&& i32::MIN <= self.z - rhs.z <= i32::MAX
    }

    open spec fn sub_spec(self, rhs: Self) -> Self::Output {
        BlockIndex {
            x: (self.x - rhs.x) as i32,
            y: (self.y - rhs.y) as i32,
            z: (self.z - rhs.z) as i32,
        }
    }
}

impl<const VPS: usize> BlockIndex<VPS> {
    /// The block itself, then its six face neighbours in the order of the
    /// table of steps. The block comes with a step of zero length.
    pub fn neighbors6_include_self(&self) -> (r: Vec<Neighbour<BlockIndex<VPS>>>)
        ensures
            r@.len() == FACE_NEIGHBOUR_COUNT + 1,
            r@[0].index == *self,
            r@[0].dir == (GridOffset { x: 0, y: 0, z: 0 }),
            r@[0].grid_dist_sq == 0,
            forall|k: int| 0 <= k < FACE_NEIGHBOUR_COUNT ==> r@[k + 1] == spec_neighbour(*self, k),
    {
        let mut r: Vec<Neighbour<BlockIndex<VPS>>> = Vec::new();
        r.push(Neighbour { index: *self, dir: GridOffset { x: 0, y: 0, z: 0 }, grid_dist_sq: 0 });
        let mut k: usize = 0;
        while k < FACE_NEIGHBOUR_COUNT
            invariant
                k <= FACE_NEIGHBOUR_COUNT,
                r@.len() == k + 1,
                r@[0].index == *self,
                r@[0].dir == (GridOffset { x: 0, y: 0, z: 0 }),
                r@[0].grid_dist_sq == 0,
                forall|j: int| 0 <= j < k ==> r@[j + 1] == spec_neighbour(*self, j),
            decreases FACE_NEIGHBOUR_COUNT - k,
        {
            r.push(neighbour_at(self, k));
            k += 1;
        }
        r
    }
}

/// How many components of a step are not zero. For a step to a neighbour
/// this is the square of the step's length.
pub open spec fn nonzero_components(d: GridOffset) -> int {
    (if d.x != 0 {
        1int
    } else {
        0int
    }) + (if d.y != 0 {
        1int
    } else {
        0int
    }) + (if d.z != 0 {
        1int
    } else {
        0int
    })
}

/// The table of steps holds each step to a neighbour once: every component
/// of a step is -1, 0 or 1, no step is zero, the number of components that
/// are not zero is 1 for the first six steps, 2 for the next twelve and 3
/// for the last eight, and no two places of the table hold the same step.
pub proof fn lemma_neighbour_table()
    ensures
        forall|n: int|
            0 <= n < NEIGHBOUR_COUNT ==> {
                let d = #[trigger] neighbour_offset(n);
                &&& -1 <= d.x <= 1
                &&& -1 <= d.y <= 1
                &&& -1 <= d.z <= 1
                &&& nonzero_components(d) == neighbour_dist_sq(n)
            },
        forall|m: int, n: int|
            0 <= m < n < NEIGHBOUR_COUNT ==> #[trigger] neighbour_offset(m) != #[trigger] neighbour_offset(
                n,
            ),
{
}

/// The face neighbours of a block differ from the block, also where a
/// coordinate wraps.
pub proof fn lemma_block_neighbour_differs<const VPS: usize>(b: BlockIndex<VPS>, k: int)
    requires
        0 <= k < NEIGHBOUR_COUNT,
    ensures
        spec_neighbour(b, k).index != b,
{
    lemma_neighbour_table();
    let d = neighbour_offset(k);
    assert(-1 <= d.x <= 1 && -1 <= d.y <= 1 && -1 <= d.z <= 1);
    assert(nonzero_components(d) == neighbour_dist_sq(k));
    assert(d.x != 0 || d.y != 0 || d.z != 0);
}

} // verus!
