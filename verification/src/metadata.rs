use vstd::prelude::*;

use crate::bytes::{copy_range, le16, push_all, read_le16};
use crate::codec::spec_decompress;
use crate::codec::decompress;
use crate::error::SquashfsError;

verus! {

/// The largest number of bytes a metadata block may decode to.
pub const META_BLOCK_MAX: usize = 8192;

/// The model of one metadata block starting at absolute image position
/// `pos`: the decompressed bytes and the number of bytes the block occupies
/// on disk. The 16-bit length header's top bit signals "stored uncompressed";
/// the remaining 15 bits give the on-disk byte length. `None` on a truncated
/// header, a truncated body, a rejected compressed body, or a decode past the
/// 8 KiB limit.
pub open spec fn spec_meta_block(img: Seq<u8>, comp: int, pos: int) -> Option<(Seq<u8>, int)> {
    if pos < 0 || pos + 2 > img.len() {
        None
    } else {
        let hdr = le16(img, pos);
        let stored = hdr >= 0x8000;
        let n = hdr % 0x8000;
        if pos + 2 + n > img.len() {
            None
        } else {
            let raw = img.subrange(pos + 2, pos + 2 + n);
            if stored {
                if n <= META_BLOCK_MAX {
                    Some((raw, 2 + n))
                } else {
                    None
                }
            } else {
                match spec_decompress(comp, raw) {
                    None => None,
                    Some(d) => if d.len() <= META_BLOCK_MAX {
                        Some((d, 2 + n))
                    } else {
                        None
                    },
                }
            }
        }
    }
}

/// The bytes a metadata stream starting at absolute position `pos` yields
/// when `need` bytes are requested: the concatenation of consecutive
/// decompressed blocks, cut to `need`. `None` when a block fails to decode or
/// decodes to nothing before `need` bytes are gathered.
pub open spec fn spec_read_stream(img: Seq<u8>, comp: int, pos: int, need: nat) -> Option<Seq<u8>>
    decreases need,
{
    if need == 0 {
        Some(Seq::<u8>::empty())
    } else {
        match spec_meta_block(img, comp, pos) {
            None => None,
            Some((d, c)) => {
                if d.len() == 0 {
                    None
                } else if need <= d.len() {
                    Some(d.take(need as int))
                } else {
                    match spec_read_stream(img, comp, pos + c, (need - d.len()) as nat) {
                        None => None,
                        Some(rest) => Some(d + rest),
                    }
                }
            },
        }
    }
}

/// A stream request that succeeds yields exactly the requested number of
/// bytes.
pub proof fn lemma_stream_len(img: Seq<u8>, comp: int, pos: int, need: nat)
    requires
        spec_read_stream(img, comp, pos, need) is Some,
    ensures
        spec_read_stream(img, comp, pos, need).unwrap().len() == need,
    decreases need,
{
    if need > 0 {
        let (d, c) = spec_meta_block(img, comp, pos).unwrap();
        if need > d.len() {
            lemma_stream_len(img, comp, pos + c, (need - d.len()) as nat);
        }
    }
}

/// The decompressed-block cache: maps an on-disk block start position to the
/// block's decompressed bytes, so that repeated lookups into one block avoid
/// redundant decompression. Owned by one engine instance; no eviction.
pub struct MetaCache {
    entries: Vec<(u64, Vec<u8>)>,
}

impl MetaCache {
    /// Every cached entry holds exactly what the block at its position
    /// decodes to.
    pub closed spec fn wf(self, img: Seq<u8>, comp: int) -> bool {
        forall|k: int|
            0 <= k < self.entries@.len() ==> ((#[trigger] spec_meta_block(
                img,
                comp,
                self.entries@[k].0 as int,
            )) matches Some(p) && p.0 == self.entries@[k].1@)
    }

    pub fn new() -> (r: MetaCache)
        ensures
            forall|img: Seq<u8>, comp: int| r.wf(img, comp),
    {
        MetaCache { entries: Vec::new() }
    }
}

/// Reads and decodes the metadata block at absolute position `pos`, serving
/// repeated requests from the cache. Succeeds exactly when the model
/// accepts the block, returning its decompressed bytes and on-disk length.
pub fn read_block(
    img: &Vec<u8>,
    comp: u16,
    cache: &mut MetaCache,
    pos: u64,
) -> (r: Result<(Vec<u8>, u64), SquashfsError>)
    requires
        old(cache).wf(img@, comp as int),
    ensures
        final(cache).wf(img@, comp as int),
        r matches Ok(p) ==> spec_meta_block(img@, comp as int, pos as int) == Some((p.0@, p.1 as int)),
        r is Err <==> spec_meta_block(img@, comp as int, pos as int) is None,
        r matches Err(e) ==> (e == SquashfsError::TruncatedBlock || e
            == SquashfsError::DecompressionFailed || e == SquashfsError::UnsupportedCodec),
{
    let len = img.len();
    if pos > u64::MAX - 2 || pos + 2 > len as u64 {
        return Err(SquashfsError::TruncatedBlock);
    }
    let posu = pos as usize;
    let hdr = read_le16(img, posu);
    let stored = hdr >= 0x8000;
    let n = (hdr % 0x8000) as usize;
    if n > len - (posu + 2) {
        return Err(SquashfsError::TruncatedBlock);
    }
    let consumed: u64 = 2 + n as u64;
    assert((spec_meta_block(img@, comp as int, pos as int) matches Some(p) ==> p.1
        == consumed as int)) by {
        assert(le16(img@, pos as int) == hdr);
    }

    // Serve from the cache when the block was decoded before.
    let mut k: usize = 0;
    while k < cache.entries.len()
        invariant
            cache.wf(img@, comp as int),
            cache == old(cache),
            len == img@.len(),
            pos + 2 <= len as u64,
            n == le16(img@, pos as int) % 0x8000,
            pos + 2 + n as u64 <= len as u64,
            consumed == 2 + n as u64,
        decreases cache.entries@.len() - k,
    {
        if cache.entries[k].0 == pos {
            let mut out: Vec<u8> = Vec::new();
            push_all(&mut out, &cache.entries[k].1);
            assert(out@ =~= cache.entries@[k as int].1@);
            proof {
                assert((spec_meta_block(img@, comp as int, cache.entries@[k as int].0 as int))
                    matches Some(p) && p.0 == cache.entries@[k as int].1@);
                assert(spec_meta_block(img@, comp as int, pos as int) matches Some(p) && p.1 == 2
                    + (le16(img@, pos as int) % 0x8000));
            }
            return Ok((out, consumed));
        }
        k = k + 1;
    }

    let raw = copy_range(img, posu + 2, n);
    let data = if stored {
        if n > META_BLOCK_MAX {
            return Err(SquashfsError::TruncatedBlock);
        }
        raw
    } else {
        let d = decompress(comp, &raw)?;
        if d.len() > META_BLOCK_MAX {
            return Err(SquashfsError::TruncatedBlock);
        }
        d
    };
    let mut copy: Vec<u8> = Vec::new();
    push_all(&mut copy, &data);
    assert(copy@ =~= data@);
    cache.entries.push((pos, copy));
    Ok((data, consumed))
}

/// Reads `n` stream bytes that start `skip` bytes into the metadata stream
/// whose first block sits at absolute position `pos`. Succeeds exactly when
/// the model yields `skip + n` stream bytes.
pub fn read_stream(
    img: &Vec<u8>,
    comp: u16,
    cache: &mut MetaCache,
    pos: u64,
    skip: usize,
    n: usize,
) -> (r: Result<Vec<u8>, SquashfsError>)
    requires
        old(cache).wf(img@, comp as int),
        skip + n <= usize::MAX,
    ensures
        final(cache).wf(img@, comp as int),
        r matches Ok(v) ==> spec_read_stream(img@, comp as int, pos as int, (skip + n) as nat)
            matches Some(s) && v@ == s.skip(skip as int),
        r matches Ok(v) ==> v@.len() == n,
        r is Err <==> spec_read_stream(img@, comp as int, pos as int, (skip + n) as nat) is None,
        r matches Err(e) ==> (e == SquashfsError::TruncatedBlock || e
            == SquashfsError::DecompressionFailed || e == SquashfsError::UnsupportedCodec),
{
    let ghost need0: nat = (skip + n) as nat;
    let need: usize = skip + n;
    if need == 0 {
        assert(spec_read_stream(img@, comp as int, pos as int, need0) == Some(Seq::<u8>::empty()));
        let out: Vec<u8> = Vec::new();
        assert(out@ =~= Seq::<u8>::empty().skip(skip as int));
        return Ok(out);
    }
    let imglen = img.len();
    let mut have: Vec<u8> = Vec::new();
    let mut cur: u64 = pos;
    proof {
        assert forall|m: nat| 0 < m <= need0 implies #[trigger] spec_read_stream(
            img@,
            comp as int,
            pos as int,
            m,
        ) == (match spec_read_stream(img@, comp as int, cur as int, (m - have@.len()) as nat) {
            None => None::<Seq<u8>>,
            Some(rest) => Some(have@ + rest),
        }) by {
            if spec_read_stream(img@, comp as int, cur as int, m) is Some {
                let rest = spec_read_stream(img@, comp as int, cur as int, m).unwrap();
                assert(have@ + rest =~= rest);
            }
        }
    }
    while have.len() < need
        invariant
            cache.wf(img@, comp as int),
            imglen == img@.len(),
            need == skip + n,
            need0 == need,
            need > 0,
            // What the whole request yields is what was gathered plus what
            // the remaining stream yields.
            forall|m: nat|
                have@.len() < m <= need0 ==> #[trigger] spec_read_stream(
                    img@,
                    comp as int,
                    pos as int,
                    m,
                ) == (match spec_read_stream(img@, comp as int, cur as int, (m - have@.len()) as nat) {
                    None => None::<Seq<u8>>,
                    Some(rest) => Some(have@ + rest),
                }),
            // Requests answered within what was gathered are settled.
            forall|m: nat|
                m <= have@.len() && m <= need0 ==> #[trigger] spec_read_stream(
                    img@,
                    comp as int,
                    pos as int,
                    m,
                ) == Some(have@.take(m as int)),
        decreases (if have.len() < need { need - have.len() } else { 0 }),
    {
        let block = match read_block(img, comp, cache, cur) {
            Ok(b) => b,
            Err(e) => {
                proof {
                    let m = need0;
                    assert(spec_read_stream(img@, comp as int, pos as int, m) is None);
                }
                return Err(e);
            },
        };
        let (d, c) = block;
        if d.len() == 0 {
            proof {
                assert(spec_read_stream(img@, comp as int, pos as int, need0) is None);
            }
            return Err(SquashfsError::TruncatedBlock);
        }
        if cur > u64::MAX - c {
            // The model reads positions as unbounded integers; a position
            // beyond the input always fails to decode, and the on-disk
            // length came from a block that fit in the input, so this sum
            // never wraps for a decodable stream.
            proof {
                assert(spec_meta_block(img@, comp as int, cur as int).unwrap().1 == c as int);
                assert(cur as int + c as int <= img@.len());
                assert(img@.len() <= usize::MAX);
            }
            return Err(SquashfsError::TruncatedBlock);
        }
        let ghost old_have = have@;
        let ghost old_cur = cur as int;
        push_all(&mut have, &d);
        cur = cur + c;
        proof {
            assert forall|m: nat| have@.len() < m <= need0 implies #[trigger] spec_read_stream(
                img@,
                comp as int,
                pos as int,
                m,
            ) == (match spec_read_stream(img@, comp as int, cur as int, (m - have@.len()) as nat) {
                None => None::<Seq<u8>>,
                Some(rest) => Some(have@ + rest),
            }) by {
                let m1 = (m - old_have.len()) as nat;
                assert(spec_read_stream(img@, comp as int, pos as int, m) == (
                match spec_read_stream(img@, comp as int, old_cur, m1) {
                    None => None::<Seq<u8>>,
                    Some(rest) => Some(old_have + rest),
                }));
                assert(m1 > d@.len());
                let m2 = (m1 - d@.len()) as nat;
                assert(spec_read_stream(img@, comp as int, old_cur, m1) == (
                match spec_read_stream(img@, comp as int, cur as int, m2) {
                    None => None::<Seq<u8>>,
                    Some(rest) => Some(d@ + rest),
                }));
                if spec_read_stream(img@, comp as int, cur as int, m2) is Some {
                    let rest = spec_read_stream(img@, comp as int, cur as int, m2).unwrap();
                    assert(old_have + (d@ + rest) =~= have@ + rest);
                }
            }
            assert forall|m: nat| m <= have@.len() && m <= need0 implies #[trigger] spec_read_stream(
                img@,
                comp as int,
                pos as int,
                m,
            ) == Some(have@.take(m as int)) by {
                if m <= old_have.len() {
                    assert(spec_read_stream(img@, comp as int, pos as int, m) == Some(old_have.take(
                        m as int,
                    )));
                    assert(old_have.take(m as int) =~= have@.take(m as int));
                } else {
                    let m1 = (m - old_have.len()) as nat;
                    assert(spec_read_stream(img@, comp as int, pos as int, m) == (
                    match spec_read_stream(img@, comp as int, old_cur, m1) {
                        None => None::<Seq<u8>>,
                        Some(rest) => Some(old_have + rest),
                    }));
                    assert(m1 <= d@.len());
                    assert(spec_read_stream(img@, comp as int, old_cur, m1) == Some(d@.take(
                        m1 as int,
                    )));
                    assert(old_have + d@.take(m1 as int) =~= have@.take(m as int));
                }
            }
        }
    }
    proof {
        assert(spec_read_stream(img@, comp as int, pos as int, need0) == Some(have@.take(
            need as int,
        )));
    }
    let out = copy_range(&have, skip, n);
    proof {
        lemma_stream_len(img@, comp as int, pos as int, need0);
    }
    proof {
        assert(out@ =~= have@.take(need as int).skip(skip as int));
    }
    Ok(out)
}

} // verus!
