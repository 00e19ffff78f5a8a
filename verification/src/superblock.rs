use vstd::prelude::*;

use crate::bytes::{le16, le32, le64, read_le16, read_le32, read_le64};
use crate::error::SquashfsError;

verus! {

/// The magic value every image starts with.
pub const SQUASHFS_MAGIC: u32 = 0x73717368;

/// The fixed-size header of an image: image-wide parameters and the byte
/// offsets of every table. Immutable once parsed.
#[derive(Clone, Copy, Debug, PartialEq, Eq, Structural)]
pub struct SuperBlock {
    pub magic: u32,
    pub inode_count: u32,
    pub mod_time: u32,
    pub block_size: u32,
    pub frag_count: u32,
    pub compressor: u16,
    pub block_log: u16,
    pub flags: u16,
    pub id_count: u16,
    pub version_major: u16,
    pub version_minor: u16,
    pub root_inode: u64,
    pub bytes_used: u64,
    pub id_table: u64,
    pub xattr_table: u64,
    pub inode_table: u64,
    pub dir_table: u64,
    pub frag_table: u64,
    pub export_table: u64,
}

pub open spec fn pow2(e: nat) -> nat
    decreases e,
{
    if e == 0 {
        1
    } else {
        2 * pow2((e - 1) as nat)
    }
}

/// The field values of the header region, read little-endian at their fixed
/// offsets.
pub open spec fn spec_superblock_fields(img: Seq<u8>) -> SuperBlock {
    SuperBlock {
        magic: le32(img, 0) as u32,
        inode_count: le32(img, 4) as u32,
        mod_time: le32(img, 8) as u32,
        block_size: le32(img, 12) as u32,
        frag_count: le32(img, 16) as u32,
        compressor: le16(img, 20) as u16,
        block_log: le16(img, 22) as u16,
        flags: le16(img, 24) as u16,
        id_count: le16(img, 26) as u16,
        version_major: le16(img, 28) as u16,
        version_minor: le16(img, 30) as u16,
        root_inode: le64(img, 32) as u64,
        bytes_used: le64(img, 40) as u64,
        id_table: le64(img, 48) as u64,
        xattr_table: le64(img, 56) as u64,
        inode_table: le64(img, 64) as u64,
        dir_table: le64(img, 72) as u64,
        frag_table: le64(img, 80) as u64,
        export_table: le64(img, 88) as u64,
    }
}

/// A header is accepted exactly when the magic matches, the version is 4.0,
/// the block size is a power of two between 4 KiB and 1 MiB with a matching
/// log field, and every table offset the image will need lies within the
/// input.
pub open spec fn spec_superblock_ok(img: Seq<u8>) -> bool {
    let sb = spec_superblock_fields(img);
    &&& img.len() >= 96
    &&& sb.magic == SQUASHFS_MAGIC
    &&& sb.version_major == 4
    &&& sb.version_minor == 0
    &&& 12 <= sb.block_log <= 20
    &&& sb.block_size == pow2(sb.block_log as nat)
    &&& sb.inode_table <= img.len()
    &&& sb.dir_table <= img.len()
    &&& (sb.frag_count > 0 ==> sb.frag_table <= img.len())
    &&& (sb.id_count > 0 ==> sb.id_table <= img.len())
}

/// The model of superblock parsing: the field values on acceptance, nothing
/// on rejection.
#[verifier::opaque]
pub open spec fn spec_superblock(img: Seq<u8>) -> Option<SuperBlock> {
    if spec_superblock_ok(img) {
        Some(spec_superblock_fields(img))
    } else {
        None
    }
}

proof fn lemma_pow2_pos(e: nat)
    ensures
        pow2(e) >= 1,
    decreases e,
{
    if e > 0 {
        lemma_pow2_pos((e - 1) as nat);
    }
}

proof fn lemma_pow2_mono(a: nat, b: nat)
    requires
        a <= b,
    ensures
        pow2(a) <= pow2(b),
    decreases b,
{
    if a < b {
        lemma_pow2_mono(a, (b - 1) as nat);
        lemma_pow2_pos((b - 1) as nat);
    }
}

proof fn lemma_pow2_20()
    ensures
        pow2(20) == 0x100000,
{
    reveal_with_fuel(pow2, 21);
}

fn pow2_exec(e: u16) -> (r: u32)
    requires
        e <= 20,
    ensures
        r == pow2(e as nat),
{
    let mut r: u32 = 1;
    let mut i: u16 = 0;
    while i < e
        invariant
            i <= e <= 20,
            r == pow2(i as nat),
        decreases e - i,
    {
        proof {
            assert(pow2((i + 1) as nat) == 2 * pow2(i as nat));
            lemma_pow2_mono((i + 1) as nat, 20);
            lemma_pow2_20();
        }
        r = 2 * r;
        i = i + 1;
    }
    r
}

/// An accepted superblock carries a positive block size.
pub proof fn lemma_block_size_pos(img: Seq<u8>)
    requires
        spec_superblock(img) is Some,
    ensures
        spec_superblock(img).unwrap().block_size >= 1,
{
    reveal(spec_superblock);
    lemma_pow2_pos(spec_superblock_fields(img).block_log as nat);
}

/// Decodes the first 96 bytes of `img` into a `SuperBlock`, rejecting with
/// `MalformedHeader` exactly when `spec_superblock` rejects.
pub fn parse_superblock(img: &Vec<u8>) -> (r: Result<SuperBlock, SquashfsError>)
    ensures
        r matches Ok(sb) ==> spec_superblock(img@) == Some(sb),
        r is Err <==> spec_superblock(img@) is None,
        r is Err ==> r == Err::<SuperBlock, SquashfsError>(SquashfsError::MalformedHeader),
{
    proof {
        reveal(spec_superblock);
    }
    if img.len() < 96 {
        return Err(SquashfsError::MalformedHeader);
    }
    let sb = SuperBlock {
        magic: read_le32(img, 0),
        inode_count: read_le32(img, 4),
        mod_time: read_le32(img, 8),
        block_size: read_le32(img, 12),
        frag_count: read_le32(img, 16),
        compressor: read_le16(img, 20),
        block_log: read_le16(img, 22),
        flags: read_le16(img, 24),
        id_count: read_le16(img, 26),
        version_major: read_le16(img, 28),
        version_minor: read_le16(img, 30),
        root_inode: read_le64(img, 32),
        bytes_used: read_le64(img, 40),
        id_table: read_le64(img, 48),
        xattr_table: read_le64(img, 56),
        inode_table: read_le64(img, 64),
        dir_table: read_le64(img, 72),
        frag_table: read_le64(img, 80),
        export_table: read_le64(img, 88),
    };
    assert(sb == spec_superblock_fields(img@));
    if sb.magic != SQUASHFS_MAGIC {
        return Err(SquashfsError::MalformedHeader);
    }
    if sb.version_major != 4 || sb.version_minor != 0 {
        return Err(SquashfsError::MalformedHeader);
    }
    if sb.block_log < 12 || sb.block_log > 20 {
        return Err(SquashfsError::MalformedHeader);
    }
    if sb.block_size != pow2_exec(sb.block_log) {
        return Err(SquashfsError::MalformedHeader);
    }
    let len64 = img.len() as u64;
    if sb.inode_table > len64 || sb.dir_table > len64 {
        return Err(SquashfsError::MalformedHeader);
    }
    if sb.frag_count > 0 && sb.frag_table > len64 {
        return Err(SquashfsError::MalformedHeader);
    }
    if sb.id_count > 0 && sb.id_table > len64 {
        return Err(SquashfsError::MalformedHeader);
    }
    Ok(sb)
}

} // verus!
