use vstd::prelude::*;

use crate::bytes::{copy_range, le16, le32, le64, read_le16, read_le32, read_le64};
use crate::error::SquashfsError;
use crate::metadata::{read_stream, spec_read_stream, MetaCache};
use crate::superblock::{spec_superblock, SuperBlock};

verus! {

/// The fragment-index value that marks a file without a fragment tail.
pub const FRAG_NONE: u32 = 0xFFFFFFFF;

/// Fields common to every inode record.
#[derive(Clone, Copy, Debug, PartialEq, Eq, Structural)]
pub struct InodeHeader {
    pub kind: u16,
    pub permissions: u16,
    pub uid_idx: u16,
    pub gid_idx: u16,
    pub mtime: u32,
    pub inode_number: u32,
}

/// A directory inode: where its entry listing sits in the directory table.
/// Basic and extended directory records decode to this one type.
#[derive(Clone, Copy, Debug, PartialEq, Eq, Structural)]
pub struct DirInode {
    pub header: InodeHeader,
    /// Start of the metadata block holding the listing, relative to the
    /// directory table.
    pub start_block: u32,
    /// Byte offset of the listing within that block's decompressed bytes.
    pub offset: u16,
    /// Listing byte count plus three, as the format stores it.
    pub size: u32,
}

/// A regular-file inode. Basic and extended records decode to this one type.
#[derive(Clone, Debug)]
pub struct FileInode {
    pub header: InodeHeader,
    /// Absolute position of the file's first data block.
    pub blocks_start: u64,
    /// Fragment-table index of the tail, or `FRAG_NONE`.
    pub frag_index: u32,
    /// Byte offset of the tail within the decoded fragment block.
    pub frag_offset: u32,
    pub size: u64,
    /// One on-disk size word per data block; bit 24 marks a block stored
    /// uncompressed, a zero word marks a block of zeros.
    pub block_sizes: Vec<u32>,
}

/// A symbolic-link inode and its target path bytes.
#[derive(Clone, Debug)]
pub struct SymlinkInode {
    pub header: InodeHeader,
    pub target: Vec<u8>,
}

/// A device, fifo or socket inode; only its header matters here.
#[derive(Clone, Copy, Debug, PartialEq, Eq, Structural)]
pub struct OtherInode {
    pub header: InodeHeader,
}

/// The decoded form of any inode record.
#[derive(Clone, Debug)]
pub enum Inode {
    Dir(DirInode),
    File(FileInode),
    Symlink(SymlinkInode),
    Other(OtherInode),
}

/// The model of a file inode.
pub struct SpecFileInode {
    pub header: InodeHeader,
    pub blocks_start: u64,
    pub frag_index: u32,
    pub frag_offset: u32,
    pub size: u64,
    pub block_sizes: Seq<u32>,
}

/// The model of a symlink inode.
pub struct SpecSymlinkInode {
    pub header: InodeHeader,
    pub target: Seq<u8>,
}

/// The model of any inode.
pub enum SpecInode {
    Dir(DirInode),
    File(SpecFileInode),
    Symlink(SpecSymlinkInode),
    Other(OtherInode),
}

impl View for FileInode {
    type V = SpecFileInode;

    open spec fn view(&self) -> SpecFileInode {
        SpecFileInode {
            header: self.header,
            blocks_start: self.blocks_start,
            frag_index: self.frag_index,
            frag_offset: self.frag_offset,
            size: self.size,
            block_sizes: self.block_sizes@,
        }
    }
}

impl View for SymlinkInode {
    type V = SpecSymlinkInode;

    open spec fn view(&self) -> SpecSymlinkInode {
        SpecSymlinkInode { header: self.header, target: self.target@ }
    }
}

impl View for Inode {
    type V = SpecInode;

    open spec fn view(&self) -> SpecInode {
        match self {
            Inode::Dir(d) => SpecInode::Dir(*d),
            Inode::File(f) => SpecInode::File(f@),
            Inode::Symlink(s) => SpecInode::Symlink(s@),
            Inode::Other(o) => SpecInode::Other(*o),
        }
    }
}

/// The header fields read at byte offset `off` of `s`.
pub open spec fn spec_header(s: Seq<u8>, off: int) -> InodeHeader {
    InodeHeader {
        kind: le16(s, off) as u16,
        permissions: le16(s, off + 2) as u16,
        uid_idx: le16(s, off + 4) as u16,
        gid_idx: le16(s, off + 6) as u16,
        mtime: le32(s, off + 8) as u32,
        inode_number: le32(s, off + 12) as u32,
    }
}

/// How many data-block size words a file record carries: one per full block,
/// rounded up to cover the tail only when the file has no fragment.
pub open spec fn spec_block_count(size: int, frag_index: int, bs: int) -> int {
    if frag_index == FRAG_NONE {
        (size + bs - 1) / bs
    } else {
        size / bs
    }
}

/// A type tag inside the format's closed set.
pub open spec fn spec_valid_inode_kind(kind: int) -> bool {
    1 <= kind <= 14
}

/// The type tag of the record at stream position (`block`, `off`) of the
/// inode table, when the stream yields a header there.
pub open spec fn spec_inode_kind(img: Seq<u8>, sb: SuperBlock, block: int, off: nat) -> Option<
    int,
> {
    match spec_read_stream(img, sb.compressor as int, sb.inode_table + block, (off + 16) as nat) {
        None => None,
        Some(h) => Some(le16(h.skip(off as int), 0)),
    }
}

#[verifier::opaque]
pub open spec fn spec_dir_inode(img: Seq<u8>, sb: SuperBlock, pos: int, off: nat, ext: bool)
    -> Option<SpecInode> {
    let need = if ext { (off + 40) as nat } else { (off + 32) as nat };
    match spec_read_stream(img, sb.compressor as int, pos, need) {
        None => None,
        Some(s0) => {
            let s = s0.skip(off as int);
            let d = if ext {
                DirInode {
                    header: spec_header(s, 0),
                    start_block: le32(s, 24) as u32,
                    offset: le16(s, 34) as u16,
                    size: le32(s, 20) as u32,
                }
            } else {
                DirInode {
                    header: spec_header(s, 0),
                    start_block: le32(s, 16) as u32,
                    offset: le16(s, 26) as u16,
                    size: le16(s, 24) as u32,
                }
            };
            Some(SpecInode::Dir(d))
        },
    }
}

#[verifier::opaque]
pub open spec fn spec_file_inode(img: Seq<u8>, sb: SuperBlock, pos: int, off: nat, ext: bool)
    -> Option<SpecInode> {
    let fixed: int = if ext { 56 } else { 32 };
    match spec_read_stream(img, sb.compressor as int, pos, (off + fixed) as nat) {
        None => None,
        Some(s0) => {
            let s = s0.skip(off as int);
            let blocks_start = if ext { le64(s, 16) } else { le32(s, 16) };
            let size = if ext { le64(s, 24) } else { le32(s, 28) };
            let frag = if ext { le32(s, 44) } else { le32(s, 20) };
            let frag_off = if ext { le32(s, 48) } else { le32(s, 24) };
            let count = spec_block_count(size, frag, sb.block_size as int);
            if off + fixed + 4 * count > usize::MAX {
                None
            } else {
                match spec_read_stream(
                    img,
                    sb.compressor as int,
                    pos,
                    (off + fixed + 4 * count) as nat,
                ) {
                    None => None,
                    Some(t0) => {
                        let t = t0.skip(off as int);
                        Some(SpecInode::File(SpecFileInode {
                            header: spec_header(s, 0),
                            blocks_start: blocks_start as u64,
                            frag_index: frag as u32,
                            frag_offset: frag_off as u32,
                            size: size as u64,
                            block_sizes: Seq::new(count as nat, |i: int| le32(t, fixed + 4 * i) as u32),
                        }))
                    },
                }
            }
        },
    }
}

#[verifier::opaque]
pub open spec fn spec_symlink_inode(img: Seq<u8>, sb: SuperBlock, pos: int, off: nat, ext: bool)
    -> Option<SpecInode> {
    match spec_read_stream(img, sb.compressor as int, pos, (off + 24) as nat) {
        None => None,
        Some(s0) => {
            let s = s0.skip(off as int);
            let tsize = le32(s, 20);
            let need = if ext { off + 28 + tsize } else { off + 24 + tsize };
            if need > usize::MAX {
                None
            } else {
                match spec_read_stream(img, sb.compressor as int, pos, need as nat) {
                    None => None,
                    Some(t0) => {
                        let t = t0.skip(off as int);
                        Some(SpecInode::Symlink(SpecSymlinkInode {
                            header: spec_header(s, 0),
                            target: t.subrange(24, 24 + tsize),
                        }))
                    },
                }
            }
        },
    }
}

/// How many bytes follow the header of a device, fifo or socket record.
pub open spec fn spec_other_extra(kind: int) -> int {
    if kind == 4 || kind == 5 {
        8
    } else if kind == 6 || kind == 7 {
        4
    } else if kind == 11 || kind == 12 {
        12
    } else {
        8
    }
}

#[verifier::opaque]
pub open spec fn spec_other_inode(img: Seq<u8>, sb: SuperBlock, pos: int, off: nat, kind: int)
    -> Option<SpecInode> {
    match spec_read_stream(img, sb.compressor as int, pos, (off + 16 + spec_other_extra(kind)) as nat) {
        None => None,
        Some(s0) => {
            let s = s0.skip(off as int);
            Some(SpecInode::Other(OtherInode { header: spec_header(s, 0) }))
        },
    }
}

/// The model of inode decoding: the typed record that the inode-table stream
/// position (`block`, `off`) holds, `None` when the stream fails, the type
/// tag is unknown, or the record is truncated.
#[verifier::opaque]
pub open spec fn spec_inode_at(img: Seq<u8>, sb: SuperBlock, block: int, off: nat) -> Option<
    SpecInode,
> {
    let pos = sb.inode_table + block;
    match spec_inode_kind(img, sb, block, off) {
        None => None,
        Some(kind) => {
            if kind == 1 || kind == 8 {
                spec_dir_inode(img, sb, pos, off, kind == 8)
            } else if kind == 2 || kind == 9 {
                spec_file_inode(img, sb, pos, off, kind == 9)
            } else if kind == 3 || kind == 10 {
                spec_symlink_inode(img, sb, pos, off, kind == 10)
            } else if spec_valid_inode_kind(kind) {
                spec_other_inode(img, sb, pos, off, kind)
            } else {
                None
            }
        },
    }
}

/// Reads the header fields at the start of `s`.
fn parse_header(s: &Vec<u8>) -> (h: InodeHeader)
    requires
        s@.len() >= 16,
    ensures
        h == spec_header(s@, 0),
{
    InodeHeader {
        kind: read_le16(s, 0),
        permissions: read_le16(s, 2),
        uid_idx: read_le16(s, 4),
        gid_idx: read_le16(s, 6),
        mtime: read_le32(s, 8),
        inode_number: read_le32(s, 12),
    }
}

/// Decodes the inode record at position (`block`, `off`) of the inode table.
/// Succeeds exactly when the model does, with `UnknownInodeType` exactly on a
/// readable header whose type tag is outside the format's set.
#[verifier::rlimit(60)]
pub fn decode_inode(
    img: &Vec<u8>,
    sb: &SuperBlock,
    cache: &mut MetaCache,
    block: u64,
    off: u16,
) -> (r: Result<Inode, SquashfsError>)
    requires
        old(cache).wf(img@, sb.compressor as int),
        spec_superblock(img@) == Some(*sb),
    ensures
        final(cache).wf(img@, sb.compressor as int),
        r matches Ok(ino) ==> spec_inode_at(img@, *sb, block as int, off as nat) == Some(ino@),
        r is Err <==> spec_inode_at(img@, *sb, block as int, off as nat) is None,
        r == Err::<Inode, SquashfsError>(SquashfsError::UnknownInodeType) <==> (spec_inode_kind(
            img@,
            *sb,
            block as int,
            off as nat,
        ) matches Some(k) && !spec_valid_inode_kind(k)),
        r matches Err(e) ==> (e == SquashfsError::TruncatedBlock || e
            == SquashfsError::DecompressionFailed || e == SquashfsError::UnsupportedCodec || e
            == SquashfsError::MalformedInode || e == SquashfsError::UnknownInodeType),
{
    proof {
        reveal(spec_inode_at);
    }
    let imglen = img.len();
    if block > u64::MAX - sb.inode_table {
        proof {
            assert(sb.inode_table + block + 2 > img@.len());
            assert(spec_read_stream(
                img@,
                sb.compressor as int,
                sb.inode_table + block,
                (off + 16) as nat,
            ) is None);
        }
        return Err(SquashfsError::TruncatedBlock);
    }
    let pos: u64 = sb.inode_table + block;
    let offu = off as usize;
    let h = read_stream(img, sb.compressor, cache, pos, offu, 16)?;
    let kind = read_le16(&h, 0);
    if kind == 1 || kind == 8 {
        decode_dir_inode(img, sb, cache, pos, off, kind == 8)
    } else if kind == 2 || kind == 9 {
        decode_file_inode(img, sb, cache, pos, off, kind == 9)
    } else if kind == 3 || kind == 10 {
        decode_symlink_inode(img, sb, cache, pos, off, kind == 10)
    } else if kind >= 4 && kind <= 14 {
        decode_other_inode(img, sb, cache, pos, off, kind)
    } else {
        Err(SquashfsError::UnknownInodeType)
    }
}

/// Decodes the fixed part of a directory record.
#[verifier::rlimit(60)]
fn decode_dir_inode(
    img: &Vec<u8>,
    sb: &SuperBlock,
    cache: &mut MetaCache,
    pos: u64,
    off: u16,
    ext: bool,
) -> (r: Result<Inode, SquashfsError>)
    requires
        old(cache).wf(img@, sb.compressor as int),
    ensures
        final(cache).wf(img@, sb.compressor as int),
        r matches Ok(ino) ==> spec_dir_inode(img@, *sb, pos as int, off as nat, ext) == Some(ino@),
        r is Err <==> spec_dir_inode(img@, *sb, pos as int, off as nat, ext) is None,
        r matches Err(e) ==> (e == SquashfsError::TruncatedBlock || e
            == SquashfsError::DecompressionFailed || e == SquashfsError::UnsupportedCodec),
{
    proof {
        reveal(spec_dir_inode);
    }
    let offu = off as usize;
    let need: usize = if ext { 40 } else { 32 };
    let s = read_stream(img, sb.compressor, cache, pos, offu, need)?;
    let d = if ext {
        DirInode {
            header: parse_header(&s),
            start_block: read_le32(&s, 24),
            offset: read_le16(&s, 34),
            size: read_le32(&s, 20),
        }
    } else {
        DirInode {
            header: parse_header(&s),
            start_block: read_le32(&s, 16),
            offset: read_le16(&s, 26),
            size: read_le16(&s, 24) as u32,
        }
    };
    Ok(Inode::Dir(d))
}

/// Decodes a device, fifo or socket record.
#[verifier::rlimit(60)]
fn decode_other_inode(
    img: &Vec<u8>,
    sb: &SuperBlock,
    cache: &mut MetaCache,
    pos: u64,
    off: u16,
    kind: u16,
) -> (r: Result<Inode, SquashfsError>)
    requires
        old(cache).wf(img@, sb.compressor as int),
        4 <= kind <= 7 || 11 <= kind <= 14,
    ensures
        final(cache).wf(img@, sb.compressor as int),
        r matches Ok(ino) ==> spec_other_inode(img@, *sb, pos as int, off as nat, kind as int)
            == Some(ino@),
        r is Err <==> spec_other_inode(img@, *sb, pos as int, off as nat, kind as int) is None,
        r matches Err(e) ==> (e == SquashfsError::TruncatedBlock || e
            == SquashfsError::DecompressionFailed || e == SquashfsError::UnsupportedCodec),
{
    proof {
        reveal(spec_other_inode);
    }
    let offu = off as usize;
    let extra: usize = if kind == 4 || kind == 5 {
        8
    } else if kind == 6 || kind == 7 {
        4
    } else if kind == 11 || kind == 12 {
        12
    } else {
        8
    };
    let s = read_stream(img, sb.compressor, cache, pos, offu, 16 + extra)?;
    Ok(Inode::Other(OtherInode { header: parse_header(&s) }))
}

/// Decodes the variable part of a regular-file record.
#[verifier::rlimit(100)]
fn decode_file_inode(
    img: &Vec<u8>,
    sb: &SuperBlock,
    cache: &mut MetaCache,
    pos: u64,
    off: u16,
    ext: bool,
) -> (r: Result<Inode, SquashfsError>)
    requires
        old(cache).wf(img@, sb.compressor as int),
        spec_superblock(img@) == Some(*sb),
    ensures
        final(cache).wf(img@, sb.compressor as int),
        r matches Ok(ino) ==> spec_file_inode(img@, *sb, pos as int, off as nat, ext) == Some(
            ino@,
        ),
        r is Err <==> spec_file_inode(img@, *sb, pos as int, off as nat, ext) is None,
        r matches Err(e) ==> (e == SquashfsError::TruncatedBlock || e
            == SquashfsError::DecompressionFailed || e == SquashfsError::UnsupportedCodec || e
            == SquashfsError::MalformedInode),
{
    proof {
        reveal(spec_file_inode);
        crate::superblock::lemma_block_size_pos(img@);
    }
    let offu = off as usize;
    let fixed: usize = if ext { 56 } else { 32 };
    let s = read_stream(img, sb.compressor, cache, pos, offu, fixed)?;
    let blocks_start: u64 = if ext { read_le64(&s, 16) } else { read_le32(&s, 16) as u64 };
    let size: u64 = if ext { read_le64(&s, 24) } else { read_le32(&s, 28) as u64 };
    let frag: u32 = if ext { read_le32(&s, 44) } else { read_le32(&s, 20) };
    let frag_off: u32 = if ext { read_le32(&s, 48) } else { read_le32(&s, 24) };
    let bs = sb.block_size as u128;
    let count128: u128 = if frag == FRAG_NONE {
        (size as u128 + bs - 1) / bs
    } else {
        size as u128 / bs
    };
    assert(count128 == spec_block_count(size as int, frag as int, sb.block_size as int));
    assert(count128 as int <= size as int + bs as int) by (nonlinear_arith)
        requires
            bs as int >= 1,
            count128 as int == (size as int + bs as int - 1) / (bs as int) || count128 as int
                == size as int / (bs as int),
    ;
    let need128: u128 = offu as u128 + fixed as u128 + 4 * count128;
    if need128 > usize::MAX as u128 {
        return Err(SquashfsError::MalformedInode);
    }
    let count = count128 as usize;
    let t = read_stream(img, sb.compressor, cache, pos, offu, fixed + 4 * count)?;
    let mut sizes: Vec<u32> = Vec::new();
    let mut i: usize = 0;
    while i < count
        invariant
            i <= count,
            t@.len() == fixed + 4 * count,
            fixed + 4 * count <= usize::MAX,
            sizes@.len() == i,
            forall|j: int| 0 <= j < i ==> sizes@[j] == le32(t@, fixed + 4 * j) as u32,
        decreases count - i,
    {
        sizes.push(read_le32(&t, fixed + 4 * i));
        i = i + 1;
    }
    proof {
        assert(sizes@ =~= Seq::new(count as nat, |j: int| le32(t@, fixed as int + 4 * j) as u32));
    }
    Ok(
        Inode::File(
            FileInode {
                header: parse_header(&s),
                blocks_start,
                frag_index: frag,
                frag_offset: frag_off,
                size,
                block_sizes: sizes,
            },
        ),
    )
}

/// Decodes the variable part of a symlink record.
#[verifier::rlimit(60)]
fn decode_symlink_inode(
    img: &Vec<u8>,
    sb: &SuperBlock,
    cache: &mut MetaCache,
    pos: u64,
    off: u16,
    ext: bool,
) -> (r: Result<Inode, SquashfsError>)
    requires
        old(cache).wf(img@, sb.compressor as int),
    ensures
        final(cache).wf(img@, sb.compressor as int),
        r matches Ok(ino) ==> spec_symlink_inode(img@, *sb, pos as int, off as nat, ext) == Some(
            ino@,
        ),
        r is Err <==> spec_symlink_inode(img@, *sb, pos as int, off as nat, ext) is None,
        r matches Err(e) ==> (e == SquashfsError::TruncatedBlock || e
            == SquashfsError::DecompressionFailed || e == SquashfsError::UnsupportedCodec || e
            == SquashfsError::MalformedInode),
{
    proof {
        reveal(spec_symlink_inode);
    }
    let offu = off as usize;
    let s = read_stream(img, sb.compressor, cache, pos, offu, 24)?;
    let tsize = read_le32(&s, 20);
    let need64: u64 = if ext {
        offu as u64 + 28 + tsize as u64
    } else {
        offu as u64 + 24 + tsize as u64
    };
    if need64 > usize::MAX as u64 {
        return Err(SquashfsError::MalformedInode);
    }
    let n: usize = if ext { 28 + tsize as usize } else { 24 + tsize as usize };
    let t = read_stream(img, sb.compressor, cache, pos, offu, n)?;
    let target = copy_range(&t, 24, tsize as usize);
    Ok(Inode::Symlink(SymlinkInode { header: parse_header(&s), target }))
}

} // verus!
