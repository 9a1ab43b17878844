//! The byte layout in which distance voxels and block states travel to and
//! from an accelerator.
//!
//! A voxel takes 32 bytes: the distance at offset 0, the flags at offset 4,
//! the three coordinates of the site block at offsets 8, 12 and 16, each a
//! 32-bit word with the low byte first, and 12 bytes of padding that are
//! zero. The state of a block takes 8 bytes: the flags and the number of
//! updated voxels, each a 32-bit word with the low byte first.

use vstd::prelude::*;
use crate::voxel::{Esdf, EsdfFlags, SiteIndex};

verus! {

/// The number of bytes of a voxel.
pub const VOXEL_BYTES: usize = 32;

/// The number of bytes of the state of a block.
pub const BLOCK_INFO_BYTES: usize = 8;

/// What an accelerator reports of a block: flags, of which `Updated` says
/// that a voxel of the block was written, and the number of voxels that
/// were written.
#[derive(Debug, Clone, Copy, PartialEq, Eq, Structural)]
pub struct BlockInfo {
    pub flags: EsdfFlags,
    pub updated_voxels: u32,
}

impl Default for BlockInfo {
    fn default() -> (r: Self)
        ensures
            r.flags.bits == 0,
            r.updated_voxels == 0,
    {
        BlockInfo { flags: EsdfFlags { bits: 0 }, updated_voxels: 0 }
    }
}

/// The four bytes of a word, low byte first.
pub open spec fn word_bytes(x: u32) -> Seq<u8> {
    seq![
        (x % 256) as u8,
        ((x / 256) % 256) as u8,
        ((x / 65536) % 256) as u8,
        (x / 16777216) as u8,
    ]
}

/// The word whose bytes stand at `at` and the three places behind it, low
/// byte first.
pub open spec fn word_at(bytes: Seq<u8>, at: int) -> u32 {
    (bytes[at] + 256 * bytes[at + 1] + 65536 * bytes[at + 2] + 16777216 * bytes[at + 3]) as u32
}

/// A signed number as a word in two's complement.
pub open spec fn signed_word(d: i32) -> u32 {
    if d >= 0 {
        d as u32
    } else {
        (d + 0x1_0000_0000) as u32
    }
}

/// The signed number that a word stands for in two's complement.
pub open spec fn word_signed(w: u32) -> i32 {
    if w < 0x8000_0000 {
        w as i32
    } else {
        (w - 0x1_0000_0000) as i32
    }
}

/// The bytes of a voxel.
pub open spec fn spec_encode_voxel(v: Esdf) -> Seq<u8> {
    word_bytes(signed_word(v.distance)) + word_bytes(v.flags.bits) + word_bytes(
        signed_word(v.site_block_index.x),
    ) + word_bytes(signed_word(v.site_block_index.y)) + word_bytes(
        signed_word(v.site_block_index.z),
    ) + Seq::new(12, |i: int| 0u8)
}

/// Whether the 32 bytes from `at` on are the bytes of a voxel: they are
/// there, and the padding is zero.
pub open spec fn is_voxel_at(bytes: Seq<u8>, at: int) -> bool {
    &&& 0 <= at
    &&& at + 32 <= bytes.len()
    &&& forall|j: int| at + 20 <= j < at + 32 ==> bytes[j] == 0
}

/// Whether the `k`-th group of 32 bytes is the bytes of a voxel.
pub open spec fn holds_voxel(bytes: Seq<u8>, k: int) -> bool {
    is_voxel_at(bytes, k * 32)
}

/// The voxel whose bytes stand at `at`.
pub open spec fn spec_decode_voxel(bytes: Seq<u8>, at: int) -> Esdf {
    Esdf {
        distance: word_signed(word_at(bytes, at)),
        flags: EsdfFlags { bits: word_at(bytes, at + 4) },
        site_block_index: SiteIndex {
            x: word_signed(word_at(bytes, at + 8)),
            y: word_signed(word_at(bytes, at + 12)),
            z: word_signed(word_at(bytes, at + 16)),
        },
    }
}

/// The bytes of a sequence of voxels, one voxel after the other.
pub open spec fn spec_encode_voxels(voxels: Seq<Esdf>) -> Seq<u8>
    decreases voxels.len(),
{
    if voxels.len() == 0 {
        Seq::<u8>::empty()
    } else {
        spec_encode_voxels(voxels.drop_last()) + spec_encode_voxel(voxels.last())
    }
}

/// Whether the bytes are the bytes of a sequence of voxels.
pub open spec fn is_voxel_stream(bytes: Seq<u8>) -> bool {
    &&& bytes.len() % 32 == 0
    &&& forall|k: int| 0 <= k < bytes.len() / 32 ==> #[trigger] holds_voxel(bytes, k)
}

/// The voxels whose bytes the sequence holds.
pub open spec fn spec_decode_voxels(bytes: Seq<u8>) -> Seq<Esdf> {
    Seq::new(bytes.len() / 32, |k: int| spec_decode_voxel(bytes, k * 32))
}

/// The bytes of the state of a block.
pub open spec fn spec_encode_block_info(info: BlockInfo) -> Seq<u8> {
    word_bytes(info.flags.bits) + word_bytes(info.updated_voxels)
}

/// The state of a block whose bytes stand at `at`.
pub open spec fn spec_decode_block_info(bytes: Seq<u8>, at: int) -> BlockInfo {
    BlockInfo {
        flags: EsdfFlags { bits: word_at(bytes, at) },
        updated_voxels: word_at(bytes, at + 4),
    }
}

/// The states of blocks whose bytes the sequence holds.
pub open spec fn spec_decode_block_infos(bytes: Seq<u8>) -> Seq<BlockInfo> {
    Seq::new(bytes.len() / 8, |k: int| spec_decode_block_info(bytes, k * 8))
}

/// A word is the word of its bytes, wherever they stand.
pub proof fn lemma_word_round_trip(x: u32, bytes: Seq<u8>, at: int)
    requires
        0 <= at,
        at + 4 <= bytes.len(),
        bytes.subrange(at, at + 4) == word_bytes(x),
    ensures
        word_at(bytes, at) == x,
{
    let w = word_bytes(x);
    assert(bytes[at] == bytes.subrange(at, at + 4)[0]);
    assert(bytes[at + 1] == bytes.subrange(at, at + 4)[1]);
    assert(bytes[at + 2] == bytes.subrange(at, at + 4)[2]);
    assert(bytes[at + 3] == bytes.subrange(at, at + 4)[3]);
}

/// The bytes of a word are the bytes that the word was read from.
pub proof fn lemma_bytes_round_trip(bytes: Seq<u8>, at: int)
    requires
        0 <= at,
        at + 4 <= bytes.len(),
    ensures
        word_bytes(word_at(bytes, at)) == bytes.subrange(at, at + 4),
{
    assert(word_bytes(word_at(bytes, at)) =~= bytes.subrange(at, at + 4));
}

/// A signed number is the number of its word, and a word the word of its
/// number.
pub proof fn lemma_signed_round_trip(d: i32, w: u32)
    ensures
        word_signed(signed_word(d)) == d,
        signed_word(word_signed(w)) == w,
{
}

/// The bytes of a voxel are 32 bytes with zero padding, and lead back to
/// the voxel, wherever they stand in a longer sequence.
pub proof fn lemma_voxel_round_trip(v: Esdf, bytes: Seq<u8>, at: int)
    requires
        0 <= at,
        at + 32 <= bytes.len(),
        bytes.subrange(at, at + 32) == spec_encode_voxel(v),
    ensures
        spec_encode_voxel(v).len() == 32,
        is_voxel_at(bytes, at),
        spec_decode_voxel(bytes, at) == v,
{
    let e = spec_encode_voxel(v);
    let part = bytes.subrange(at, at + 32);
    assert(e.len() == 32);
    assert forall|j: int| at <= j < at + 32 implies bytes[j] == e[j - at] by {
        assert(part[j - at] == bytes[j]);
    }
    assert(bytes.subrange(at, at + 4) =~= word_bytes(signed_word(v.distance)));
    assert(bytes.subrange(at + 4, at + 8) =~= word_bytes(v.flags.bits));
    assert(bytes.subrange(at + 8, at + 12) =~= word_bytes(signed_word(v.site_block_index.x)));
    assert(bytes.subrange(at + 12, at + 16) =~= word_bytes(signed_word(v.site_block_index.y)));
    assert(bytes.subrange(at + 16, at + 20) =~= word_bytes(signed_word(v.site_block_index.z)));
    lemma_word_round_trip(signed_word(v.distance), bytes, at);
    lemma_word_round_trip(v.flags.bits, bytes, at + 4);
    lemma_word_round_trip(signed_word(v.site_block_index.x), bytes, at + 8);
    lemma_word_round_trip(signed_word(v.site_block_index.y), bytes, at + 12);
    lemma_word_round_trip(signed_word(v.site_block_index.z), bytes, at + 16);
    lemma_signed_round_trip(v.distance, 0);
    lemma_signed_round_trip(v.site_block_index.x, 0);
    lemma_signed_round_trip(v.site_block_index.y, 0);
    lemma_signed_round_trip(v.site_block_index.z, 0);
}

/// The bytes of a sequence of voxels are 32 bytes for each voxel.
pub proof fn lemma_encoded_len(voxels: Seq<Esdf>)
    ensures
        spec_encode_voxels(voxels).len() == 32 * voxels.len(),
    decreases voxels.len(),
{
    if voxels.len() > 0 {
        lemma_encoded_len(voxels.drop_last());
    }
}

/// The bytes of the `k`-th voxel of a sequence stand at the `k`-th group of
/// 32 bytes.
pub proof fn lemma_encoded_voxel_at(voxels: Seq<Esdf>, k: int)
    requires
        0 <= k < voxels.len(),
    ensures
        spec_encode_voxels(voxels).len() == 32 * voxels.len(),
        spec_encode_voxels(voxels).subrange(k * 32, k * 32 + 32) == spec_encode_voxel(voxels[k]),
    decreases voxels.len(),
{
    lemma_encoded_len(voxels);
    lemma_encoded_len(voxels.drop_last());
    let all = spec_encode_voxels(voxels);
    let rest = spec_encode_voxels(voxels.drop_last());
    let last = spec_encode_voxel(voxels.last());
    assert(last.len() == 32);
    if k == voxels.len() - 1 {
        assert(all.subrange(k * 32, k * 32 + 32) =~= last);
    } else {
        lemma_encoded_voxel_at(voxels.drop_last(), k);
        assert(all.subrange(k * 32, k * 32 + 32) =~= rest.subrange(k * 32, k * 32 + 32));
    }
}

/// Decoding the bytes of a sequence of voxels gives the voxels back.
pub proof fn lemma_voxels_round_trip(voxels: Seq<Esdf>)
    ensures
        is_voxel_stream(spec_encode_voxels(voxels)),
        spec_decode_voxels(spec_encode_voxels(voxels)) == voxels,
{
    let bytes = spec_encode_voxels(voxels);
    lemma_encoded_len(voxels);
    assert forall|k: int| 0 <= k < bytes.len() / 32 implies #[trigger] holds_voxel(bytes, k) by {
        lemma_encoded_voxel_at(voxels, k);
        lemma_voxel_round_trip(voxels[k], bytes, k * 32);
    }
    assert forall|k: int| 0 <= k < voxels.len() implies spec_decode_voxels(bytes)[k] == voxels[k] by {
        lemma_encoded_voxel_at(voxels, k);
        lemma_voxel_round_trip(voxels[k], bytes, k * 32);
    }
    assert(spec_decode_voxels(bytes) =~= voxels);
}

/// The bytes of a voxel that was read from 32 bytes with zero padding are
/// those bytes.
pub proof fn lemma_voxel_bytes_round_trip(bytes: Seq<u8>, at: int)
    requires
        is_voxel_at(bytes, at),
    ensures
        spec_encode_voxel(spec_decode_voxel(bytes, at)) == bytes.subrange(at, at + 32),
{
    let v = spec_decode_voxel(bytes, at);
    lemma_bytes_round_trip(bytes, at);
    lemma_bytes_round_trip(bytes, at + 4);
    lemma_bytes_round_trip(bytes, at + 8);
    lemma_bytes_round_trip(bytes, at + 12);
    lemma_bytes_round_trip(bytes, at + 16);
    lemma_signed_round_trip(0, word_at(bytes, at));
    lemma_signed_round_trip(0, word_at(bytes, at + 8));
    lemma_signed_round_trip(0, word_at(bytes, at + 12));
    lemma_signed_round_trip(0, word_at(bytes, at + 16));
    let e = spec_encode_voxel(v);
    let part = bytes.subrange(at, at + 32);
    assert(e.len() == 32);
    assert forall|j: int| 0 <= j < 32 implies e[j] == part[j] by {
        if j < 4 {
            assert(e[j] == bytes.subrange(at, at + 4)[j]);
        } else if j < 8 {
            assert(e[j] == bytes.subrange(at + 4, at + 8)[j - 4]);
        } else if j < 12 {
            assert(e[j] == bytes.subrange(at + 8, at + 12)[j - 8]);
        } else if j < 16 {
            assert(e[j] == bytes.subrange(at + 12, at + 16)[j - 12]);
        } else if j < 20 {
            assert(e[j] == bytes.subrange(at + 16, at + 20)[j - 16]);
        } else {
            assert(bytes[at + j] == 0);
        }
    }
    assert(e =~= part);
}

/// A word reads the same from the first `m` bytes as from all of them.
proof fn lemma_word_in_prefix(bytes: Seq<u8>, m: int, at: int)
    requires
        0 <= at,
        at + 4 <= m <= bytes.len(),
    ensures
        word_at(bytes.subrange(0, m), at) == word_at(bytes, at),
{
    let head = bytes.subrange(0, m);
    assert(head[at] == bytes[at]);
    assert(head[at + 1] == bytes[at + 1]);
    assert(head[at + 2] == bytes[at + 2]);
    assert(head[at + 3] == bytes[at + 3]);
}

/// A voxel reads the same from the first `m` bytes as from all of them.
proof fn lemma_voxel_in_prefix(bytes: Seq<u8>, m: int, at: int)
    requires
        0 <= at,
        at + 32 <= m <= bytes.len(),
    ensures
        spec_decode_voxel(bytes.subrange(0, m), at) == spec_decode_voxel(bytes, at),
        is_voxel_at(bytes, at) ==> is_voxel_at(bytes.subrange(0, m), at),
{
    let head = bytes.subrange(0, m);
    lemma_word_in_prefix(bytes, m, at);
    lemma_word_in_prefix(bytes, m, at + 4);
    lemma_word_in_prefix(bytes, m, at + 8);
    lemma_word_in_prefix(bytes, m, at + 12);
    lemma_word_in_prefix(bytes, m, at + 16);
    if is_voxel_at(bytes, at) {
        assert forall|j: int| at + 20 <= j < at + 32 implies head[j] == 0 by {
            assert(head[j] == bytes[j]);
        }
    }
}

/// Encoding the voxels that were read from the bytes of a sequence of
/// voxels gives the bytes back.
pub proof fn lemma_voxel_stream_round_trip(bytes: Seq<u8>)
    requires
        is_voxel_stream(bytes),
    ensures
        spec_encode_voxels(spec_decode_voxels(bytes)) == bytes,
    decreases bytes.len(),
{
    let voxels = spec_decode_voxels(bytes);
    if bytes.len() == 0 {
        assert(voxels.len() == 0);
        assert(spec_encode_voxels(voxels) =~= bytes);
    } else {
        let n: int = (bytes.len() / 32) as int;
        let m: int = bytes.len() - 32;
        let head = bytes.subrange(0, m);
        assert(m == (n - 1) * 32);
        assert(head.len() == m);
        assert forall|k: int| 0 <= k < head.len() / 32 implies #[trigger] holds_voxel(head, k) by {
            assert(holds_voxel(bytes, k));
            lemma_voxel_in_prefix(bytes, m, k * 32);
        }
        lemma_voxel_stream_round_trip(head);
        let head_voxels = spec_decode_voxels(head);
        assert(head_voxels.len() == n - 1);
        assert forall|k: int| 0 <= k < n - 1 implies #[trigger] head_voxels[k] == voxels[k] by {
            lemma_voxel_in_prefix(bytes, m, k * 32);
        }
        assert(head_voxels =~= voxels.drop_last());
        assert(holds_voxel(bytes, n - 1));
        lemma_voxel_bytes_round_trip(bytes, m);
        assert(voxels.last() == spec_decode_voxel(bytes, m));
        assert(bytes =~= head + bytes.subrange(m, m + 32));
    }
}

/// Appends the bytes of a word, low byte first.
fn push_word(out: &mut Vec<u8>, x: u32)
    ensures
        final(out)@ == old(out)@ + word_bytes(x),
{
    out.push((x % 256) as u8);
    out.push(((x / 256) % 256) as u8);
    out.push(((x / 65536) % 256) as u8);
    out.push((x / 16777216) as u8);
    assert(out@ =~= old(out)@ + word_bytes(x));
}

/// A signed number as a word in two's complement.
fn to_word(d: i32) -> (w: u32)
    ensures
        w == signed_word(d),
{
    if d >= 0 {
        d as u32
    } else {
        ((d as i64) + 0x1_0000_0000i64) as u32
    }
}

/// The signed number that a word stands for in two's complement.
fn from_word(w: u32) -> (d: i32)
    ensures
        d == word_signed(w),
{
    if w < 0x8000_0000 {
        w as i32
    } else {
        ((w as i64) - 0x1_0000_0000i64) as i32
    }
}

/// The word whose bytes stand at `at`.
fn read_word(bytes: &[u8], at: usize) -> (w: u32)
    requires
        at + 4 <= bytes@.len(),
    ensures
        w == word_at(bytes@, at as int),
{
    (bytes[at] as u32) + 256 * (bytes[at + 1] as u32) + 65536 * (bytes[at + 2] as u32) + 16777216 * (
    bytes[at + 3] as u32)
}

/// Appends the bytes of a voxel.
pub fn encode_voxel_into(v: &Esdf, out: &mut Vec<u8>)
    ensures
        final(out)@ == old(out)@ + spec_encode_voxel(*v),
{
    push_word(out, to_word(v.distance));
    push_word(out, v.flags.bits);
    push_word(out, to_word(v.site_block_index.x));
    push_word(out, to_word(v.site_block_index.y));
    push_word(out, to_word(v.site_block_index.z));
    let ghost before_padding = out@;
    let mut i: usize = 0;
    while i < 12
        invariant
            i <= 12,
            out@ == before_padding + Seq::new(i as nat, |k: int| 0u8),
        decreases 12 - i,
    {
        out.push(0);
        assert(out@ =~= before_padding + Seq::new((i + 1) as nat, |k: int| 0u8));
        i += 1;
    }
    assert(out@ =~= old(out)@ + spec_encode_voxel(*v));
}

/// The bytes of a sequence of voxels, one voxel after the other.
pub fn encode_voxels(voxels: &[Esdf]) -> (bytes: Vec<u8>)
    ensures
        bytes@ == spec_encode_voxels(voxels@),
{
    let mut bytes: Vec<u8> = Vec::new();
    let mut i: usize = 0;
    while i < voxels.len()
        invariant
            i <= voxels@.len(),
            bytes@ == spec_encode_voxels(voxels@.take(i as int)),
        decreases voxels@.len() - i,
    {
        encode_voxel_into(&voxels[i], &mut bytes);
        proof {
            assert(voxels@.take(i + 1).drop_last() =~= voxels@.take(i as int));
        }
        i += 1;
    }
    proof {
        assert(voxels@.take(i as int) =~= voxels@);
    }
    bytes
}

/// The voxel whose bytes stand at `at`, if 32 bytes stand there and the
/// padding is zero.
pub fn decode_voxel(bytes: &[u8], at: usize) -> (r: Option<Esdf>)
    ensures
        r is Some <==> is_voxel_at(bytes@, at as int),
        r matches Some(v) ==> v == spec_decode_voxel(bytes@, at as int),
{
    if bytes.len() < VOXEL_BYTES || at > bytes.len() - VOXEL_BYTES {
        return None;
    }
    let mut i: usize = 20;
    while i < 32
        invariant
            20 <= i <= 32,
            at + 32 <= bytes@.len(),
            bytes@.len() <= usize::MAX,
            forall|j: int| at + 20 <= j < at + i ==> bytes@[j] == 0,
        decreases 32 - i,
    {
        if bytes[at + i] != 0 {
            return None;
        }
        i += 1;
    }
    Some(
        Esdf {
            distance: from_word(read_word(bytes, at)),
            flags: EsdfFlags { bits: read_word(bytes, at + 4) },
            site_block_index: SiteIndex {
                x: from_word(read_word(bytes, at + 8)),
                y: from_word(read_word(bytes, at + 12)),
                z: from_word(read_word(bytes, at + 16)),
            },
        },
    )
}

/// The voxels whose bytes the slice holds, if it holds the bytes of a
/// sequence of voxels.
pub fn decode_voxels(bytes: &[u8]) -> (r: Option<Vec<Esdf>>)
    ensures
        r is Some <==> is_voxel_stream(bytes@),
        r matches Some(v) ==> v@ == spec_decode_voxels(bytes@),
{
    if bytes.len() % VOXEL_BYTES != 0 {
        return None;
    }
    let count = bytes.len() / VOXEL_BYTES;
    let mut voxels: Vec<Esdf> = Vec::with_capacity(count);
    let mut k: usize = 0;
    while k < count
        invariant
            k <= count,
            count == bytes@.len() / 32,
            bytes@.len() % 32 == 0,
            bytes@.len() <= usize::MAX,
            voxels@.len() == k,
            forall|j: int| 0 <= j < k ==> #[trigger] holds_voxel(bytes@, j),
            forall|j: int| 0 <= j < k ==> voxels@[j] == spec_decode_voxel(bytes@, j * 32),
        decreases count - k,
    {
        assert(k * 32 + 32 <= bytes@.len()) by (nonlinear_arith)
            requires
                k < count,
                count == bytes@.len() / 32,
                bytes@.len() % 32 == 0,
        ;
        match decode_voxel(bytes, k * VOXEL_BYTES) {
            Some(v) => {
                voxels.push(v);
            },
            None => {
                assert(!holds_voxel(bytes@, k as int));
                return None;
            },
        }
        k += 1;
    }
    assert(voxels@ =~= spec_decode_voxels(bytes@));
    Some(voxels)
}

/// Appends the bytes of the state of a block.
pub fn encode_block_info_into(info: &BlockInfo, out: &mut Vec<u8>)
    ensures
        final(out)@ == old(out)@ + spec_encode_block_info(*info),
{
    push_word(out, info.flags.bits);
    push_word(out, info.updated_voxels);
    assert(out@ =~= old(out)@ + spec_encode_block_info(*info));
}

/// The states of blocks whose bytes the slice holds, if its length is a
/// multiple of the length of one state.
pub fn decode_block_infos(bytes: &[u8]) -> (r: Option<Vec<BlockInfo>>)
    ensures
        r is Some <==> bytes@.len() % 8 == 0,
        r matches Some(v) ==> v@ == spec_decode_block_infos(bytes@),
{
    if bytes.len() % BLOCK_INFO_BYTES != 0 {
        return None;
    }
    let count = bytes.len() / BLOCK_INFO_BYTES;
    let mut infos: Vec<BlockInfo> = Vec::with_capacity(count);
    let mut k: usize = 0;
    while k < count
        invariant
            k <= count,
            count == bytes@.len() / 8,
            bytes@.len() % 8 == 0,
            bytes@.len() <= usize::MAX,
            infos@.len() == k,
            forall|j: int| 0 <= j < k ==> infos@[j] == spec_decode_block_info(bytes@, j * 8),
        decreases count - k,
    {
        assert(k * 8 + 8 <= bytes@.len()) by (nonlinear_arith)
            requires
                k < count,
                count == bytes@.len() / 8,
                bytes@.len() % 8 == 0,
        ;
        let at = k * BLOCK_INFO_BYTES;
        infos.push(
            BlockInfo {
                flags: EsdfFlags { bits: read_word(bytes, at) },
                updated_voxels: read_word(bytes, at + 4),
            },
        );
        k += 1;
    }
    assert(infos@ =~= spec_decode_block_infos(bytes@));
    Some(infos)
}

} // verus!
