use vstd::prelude::*;

use crate::bytes::{le32, le64, push_all, read_le32, read_le64};
use crate::error::SquashfsError;
use crate::metadata::{read_block, spec_meta_block, MetaCache};
use crate::superblock::SuperBlock;

verus! {

/// One fragment-table record: where the shared fragment block sits and its
/// on-disk size word (bit 24 marks it stored uncompressed).
#[derive(Clone, Copy, Debug, PartialEq, Eq, Structural)]
pub struct FragEntry {
    pub start: u64,
    pub size: u32,
}

/// The bytes of a two-level table: `remaining` bytes gathered from the
/// metadata blocks that the pointer list at `ptr_pos` names, each block full
/// (8 KiB) except a final partial one, appended to `acc`.
pub open spec fn spec_table_bytes(
    img: Seq<u8>,
    comp: int,
    ptr_pos: int,
    remaining: nat,
    acc: Seq<u8>,
) -> Option<Seq<u8>>
    decreases remaining,
{
    if remaining == 0 {
        Some(acc)
    } else if ptr_pos < 0 || ptr_pos + 8 > img.len() {
        None
    } else {
        let p = le64(img, ptr_pos);
        match spec_meta_block(img, comp, p) {
            None => None,
            Some((d, c)) => {
                let take: nat = if remaining > 8192 {
                    8192
                } else {
                    remaining
                };
                if d.len() != take {
                    None
                } else {
                    spec_table_bytes(img, comp, ptr_pos + 8, (remaining - take) as nat, acc + d)
                }
            },
        }
    }
}

/// Reads `total` bytes of a two-level table whose pointer list sits at
/// `ptr_pos`. Succeeds exactly when the model does.
#[verifier::rlimit(60)]
pub fn read_table(
    img: &Vec<u8>,
    comp: u16,
    cache: &mut MetaCache,
    ptr_pos: u64,
    total: usize,
) -> (r: Result<Vec<u8>, SquashfsError>)
    requires
        old(cache).wf(img@, comp as int),
    ensures
        final(cache).wf(img@, comp as int),
        r matches Ok(v) ==> spec_table_bytes(img@, comp as int, ptr_pos as int, total as nat, Seq::empty())
            == Some(v@) && v@.len() == total,
        r is Err <==> spec_table_bytes(img@, comp as int, ptr_pos as int, total as nat, Seq::empty()) is None,
        r matches Err(e) ==> (e == SquashfsError::TruncatedBlock || e
            == SquashfsError::DecompressionFailed || e == SquashfsError::UnsupportedCodec),
{
    let imglen = img.len();
    let mut out: Vec<u8> = Vec::new();
    let mut remaining: usize = total;
    let mut ptr: u64 = ptr_pos;
    proof {
        assert(out@ =~= Seq::<u8>::empty());
    }
    while remaining > 0
        invariant
            cache.wf(img@, comp as int),
            imglen == img@.len(),
            out@.len() + remaining == total,
            spec_table_bytes(img@, comp as int, ptr_pos as int, total as nat, Seq::empty())
                == spec_table_bytes(img@, comp as int, ptr as int, remaining as nat, out@),
        decreases remaining,
    {
        if ptr > u64::MAX - 8 || ptr + 8 > imglen as u64 {
            return Err(SquashfsError::TruncatedBlock);
        }
        let p = read_le64(img, ptr as usize);
        let (d, _c) = read_block(img, comp, cache, p)?;
        let take: usize = if remaining > 8192 {
            8192
        } else {
            remaining
        };
        if d.len() != take {
            return Err(SquashfsError::TruncatedBlock);
        }
        push_all(&mut out, &d);
        remaining = remaining - take;
        ptr = ptr + 8;
    }
    Ok(out)
}

/// The model of the fragment table: `frag_count` fixed-size records decoded
/// from the two-level table at the superblock's fragment-table offset.
pub open spec fn spec_frag_table(img: Seq<u8>, sb: SuperBlock) -> Option<Seq<FragEntry>> {
    let count = sb.frag_count as int;
    if count == 0 {
        Some(Seq::empty())
    } else if 16 * count > usize::MAX {
        None
    } else {
        match spec_table_bytes(
            img,
            sb.compressor as int,
            sb.frag_table as int,
            (16 * count) as nat,
            Seq::empty(),
        ) {
            None => None,
            Some(bytes) => Some(
                Seq::new(
                    count as nat,
                    |i: int|
                        FragEntry {
                            start: le64(bytes, 16 * i) as u64,
                            size: le32(bytes, 16 * i + 8) as u32,
                        },
                ),
            ),
        }
    }
}

/// The model of the id table: `id_count` 32-bit owner and group identifiers
/// decoded from the two-level table at the superblock's id-table offset.
pub open spec fn spec_id_table(img: Seq<u8>, sb: SuperBlock) -> Option<Seq<u32>> {
    let count = sb.id_count as int;
    if count == 0 {
        Some(Seq::empty())
    } else {
        match spec_table_bytes(
            img,
            sb.compressor as int,
            sb.id_table as int,
            (4 * count) as nat,
            Seq::empty(),
        ) {
            None => None,
            Some(bytes) => Some(Seq::new(count as nat, |i: int| le32(bytes, 4 * i) as u32)),
        }
    }
}

/// Parses the whole fragment table. Succeeds exactly when the model does.
#[verifier::rlimit(60)]
pub fn parse_frag_table(img: &Vec<u8>, sb: &SuperBlock, cache: &mut MetaCache) -> (r: Result<
    Vec<FragEntry>,
    SquashfsError,
>)
    requires
        old(cache).wf(img@, sb.compressor as int),
    ensures
        final(cache).wf(img@, sb.compressor as int),
        r matches Ok(v) ==> spec_frag_table(img@, *sb) == Some(v@),
        r is Err <==> spec_frag_table(img@, *sb) is None,
{
    if sb.frag_count == 0 {
        let v: Vec<FragEntry> = Vec::new();
        proof {
            assert(v@ =~= Seq::<FragEntry>::empty());
        }
        return Ok(v);
    }
    let count = sb.frag_count as u64;
    if 16 * count > usize::MAX as u64 {
        return Err(SquashfsError::TruncatedBlock);
    }
    let total = (16 * count) as usize;
    let bytes = read_table(img, sb.compressor, cache, sb.frag_table, total)?;
    let n = sb.frag_count as usize;
    let mut v: Vec<FragEntry> = Vec::new();
    let mut i: usize = 0;
    while i < n
        invariant
            i <= n,
            bytes@.len() == 16 * n,
            16 * n <= usize::MAX,
            v@.len() == i,
            forall|j: int|
                0 <= j < i ==> v@[j] == (FragEntry {
                    start: le64(bytes@, 16 * j) as u64,
                    size: le32(bytes@, 16 * j + 8) as u32,
                }),
        decreases n - i,
    {
        v.push(FragEntry { start: read_le64(&bytes, 16 * i), size: read_le32(&bytes, 16 * i + 8) });
        i = i + 1;
    }
    proof {
        assert(v@ =~= Seq::new(
            n as nat,
            |j: int|
                FragEntry { start: le64(bytes@, 16 * j) as u64, size: le32(bytes@, 16 * j + 8) as u32 },
        ));
    }
    Ok(v)
}

/// Parses the whole id table. Succeeds exactly when the model does.
#[verifier::rlimit(60)]
pub fn parse_id_table(img: &Vec<u8>, sb: &SuperBlock, cache: &mut MetaCache) -> (r: Result<
    Vec<u32>,
    SquashfsError,
>)
    requires
        old(cache).wf(img@, sb.compressor as int),
    ensures
        final(cache).wf(img@, sb.compressor as int),
        r matches Ok(v) ==> spec_id_table(img@, *sb) == Some(v@),
        r is Err <==> spec_id_table(img@, *sb) is None,
{
    if sb.id_count == 0 {
        let v: Vec<u32> = Vec::new();
        proof {
            assert(v@ =~= Seq::<u32>::empty());
        }
        return Ok(v);
    }
    let total = 4 * sb.id_count as usize;
    let bytes = read_table(img, sb.compressor, cache, sb.id_table, total)?;
    let n = sb.id_count as usize;
    let mut v: Vec<u32> = Vec::new();
    let mut i: usize = 0;
    while i < n
        invariant
            i <= n,
            bytes@.len() == 4 * n,
            4 * n <= usize::MAX,
            v@.len() == i,
            forall|j: int| 0 <= j < i ==> v@[j] == le32(bytes@, 4 * j) as u32,
        decreases n - i,
    {
        v.push(read_le32(&bytes, 4 * i));
        i = i + 1;
    }
    proof {
        assert(v@ =~= Seq::new(n as nat, |j: int| le32(bytes@, 4 * j) as u32));
    }
    Ok(v)
}

} // verus!
