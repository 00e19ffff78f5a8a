use vstd::prelude::*;

use crate::bytes::{copy_range, push_all, push_zeros};
use crate::codec::{decompress, spec_decompress};
use crate::error::SquashfsError;
use crate::inode::{spec_block_count, FileInode, SpecFileInode, FRAG_NONE};
use crate::superblock::SuperBlock;
use crate::tables::FragEntry;

verus! {

pub open spec fn zeros(n: nat) -> Seq<u8> {
    Seq::new(n, |i: int| 0u8)
}

/// The bytes one data block decodes to: `word`'s low 24 bits give the
/// on-disk length, bit 24 marks it stored uncompressed. `None` when the
/// block overruns the input or the codec rejects it.
pub open spec fn spec_data_block(img: Seq<u8>, comp: int, pos: int, word: u32) -> Option<Seq<u8>> {
    let n = word % 0x1000000;
    let stored = (word / 0x1000000) % 2 == 1;
    if pos < 0 || pos + n > img.len() {
        None
    } else {
        let raw = img.subrange(pos, pos + n);
        if stored {
            Some(raw)
        } else {
            spec_decompress(comp, raw)
        }
    }
}

/// The concatenated bytes of a file's data blocks from index `i` on,
/// starting at input position `pos`, appended to `acc`. A zero size word is
/// a block of zeros and consumes no input. Each block must decode to exactly
/// one block size of bytes, except the last block of a fragmentless file,
/// which covers what remains of the file size.
pub open spec fn spec_file_blocks(
    img: Seq<u8>,
    comp: int,
    words: Seq<u32>,
    pos: int,
    size: nat,
    bs: nat,
    has_frag: bool,
    i: nat,
    acc: Seq<u8>,
) -> Option<Seq<u8>>
    decreases words.len() - i,
{
    if i >= words.len() {
        Some(acc)
    } else {
        let expect: nat = if has_frag || (i + 1) * bs <= size {
            bs
        } else if i * bs < size {
            (size - i * bs) as nat
        } else {
            0
        };
        let word = words[i as int];
        if word == 0 {
            spec_file_blocks(img, comp, words, pos, size, bs, has_frag, i + 1, acc + zeros(expect))
        } else {
            match spec_data_block(img, comp, pos, word) {
                None => None,
                Some(d) => {
                    if d.len() != expect {
                        None
                    } else {
                        spec_file_blocks(
                            img,
                            comp,
                            words,
                            pos + word % 0x1000000,
                            size,
                            bs,
                            has_frag,
                            i + 1,
                            acc + d,
                        )
                    }
                },
            }
        }
    }
}

/// The slice of a fragment block that holds one file's tail.
pub open spec fn spec_frag_bytes(
    img: Seq<u8>,
    comp: int,
    frags: Seq<FragEntry>,
    idx: int,
    foff: nat,
    tail: nat,
) -> Option<Seq<u8>> {
    if !(0 <= idx < frags.len()) {
        None
    } else {
        match spec_data_block(img, comp, frags[idx].start as int, frags[idx].size) {
            None => None,
            Some(d) => {
                if foff + tail <= d.len() {
                    Some(d.subrange(foff as int, foff as int + tail))
                } else {
                    None
                }
            },
        }
    }
}

/// A file inode whose size-word list is consistent with its size, fragment
/// flag and the image's block size.
pub open spec fn spec_file_wf(f: SpecFileInode, bs: nat) -> bool {
    bs >= 1 && f.block_sizes.len() == spec_block_count(f.size as int, f.frag_index as int, bs as int)
}

/// The model of file-content resolution: the full data blocks concatenated
/// with the fragment tail. A zero-size file yields the empty sequence
/// without reading anything; any result that does not realize exactly the
/// declared file size is rejected.
#[verifier::opaque]
pub open spec fn spec_file_bytes(
    img: Seq<u8>,
    comp: int,
    frags: Seq<FragEntry>,
    f: SpecFileInode,
    bs: nat,
) -> Option<Seq<u8>> {
    if !spec_file_wf(f, bs) {
        None
    } else if f.size == 0 {
        Some(Seq::empty())
    } else {
        let has_frag = f.frag_index != FRAG_NONE;
        match spec_file_blocks(
            img,
            comp,
            f.block_sizes,
            f.blocks_start as int,
            f.size as nat,
            bs,
            has_frag,
            0,
            Seq::empty(),
        ) {
            None => None,
            Some(body) => {
                let tail = f.size as int % bs as int;
                if !has_frag || tail == 0 {
                    if body.len() == f.size {
                        Some(body)
                    } else {
                        None
                    }
                } else {
                    match spec_frag_bytes(
                        img,
                        comp,
                        frags,
                        f.frag_index as int,
                        f.frag_offset as nat,
                        tail as nat,
                    ) {
                        None => None,
                        Some(t) => {
                            if body.len() + t.len() == f.size {
                                Some(body + t)
                            } else {
                                None
                            }
                        },
                    }
                }
            },
        }
    }
}

/// Decodes one non-sparse data block at `pos`.
fn read_data_block(img: &Vec<u8>, comp: u16, pos: u64, word: u32) -> (r: Result<
    Vec<u8>,
    SquashfsError,
>)
    ensures
        r matches Ok(v) ==> spec_data_block(img@, comp as int, pos as int, word) == Some(v@),
        r is Err <==> spec_data_block(img@, comp as int, pos as int, word) is None,
        r matches Err(e) ==> (e == SquashfsError::TruncatedFileData || e
            == SquashfsError::DecompressionFailed || e == SquashfsError::UnsupportedCodec),
{
    let imglen = img.len();
    let n = (word % 0x1000000) as usize;
    let stored = (word / 0x1000000) % 2 == 1;
    if pos > imglen as u64 || n as u64 > imglen as u64 - pos {
        return Err(SquashfsError::TruncatedFileData);
    }
    let raw = copy_range(img, pos as usize, n);
    if stored {
        Ok(raw)
    } else {
        match decompress(comp, &raw) {
            Ok(d) => Ok(d),
            Err(e) => Err(e),
        }
    }
}

/// Resolves a file inode's full contents: each data block in turn, then the
/// fragment tail. Succeeds exactly when the model does; the result always
/// has exactly the declared file size, and a zero-size file reads nothing.
#[verifier::rlimit(100)]
pub fn read_file_bytes(
    img: &Vec<u8>,
    sb: &SuperBlock,
    frags: &Vec<FragEntry>,
    f: &FileInode,
) -> (r: Result<Vec<u8>, SquashfsError>)
    requires
        crate::superblock::spec_superblock(img@) == Some(*sb),
    ensures
        r matches Ok(v) ==> spec_file_bytes(img@, sb.compressor as int, frags@, f@, sb.block_size as nat)
            == Some(v@),
        r is Err <==> spec_file_bytes(img@, sb.compressor as int, frags@, f@, sb.block_size as nat) is None,
        r matches Ok(v) ==> v@.len() == f.size,
        r matches Err(e) ==> (e == SquashfsError::TruncatedFileData || e
            == SquashfsError::DecompressionFailed || e == SquashfsError::UnsupportedCodec),
{
    proof {
        reveal(spec_file_bytes);
        crate::superblock::lemma_block_size_pos(img@);
    }
    let imglen = img.len();
    let bs = sb.block_size;
    let nblocks = f.block_sizes.len();

    // Consistency of the size-word list with the declared size.
    let count128: u128 = if f.frag_index == FRAG_NONE {
        (f.size as u128 + bs as u128 - 1) / (bs as u128)
    } else {
        f.size as u128 / (bs as u128)
    };
    assert(count128 == spec_block_count(f.size as int, f.frag_index as int, sb.block_size as int));
    if nblocks as u128 != count128 {
        return Err(SquashfsError::TruncatedFileData);
    }
    if f.size == 0 {
        let v: Vec<u8> = Vec::new();
        proof {
            assert(v@ =~= Seq::<u8>::empty());
        }
        return Ok(v);
    }
    let has_frag = f.frag_index != FRAG_NONE;
    let ghost ctx_words = f.block_sizes@;
    let mut out: Vec<u8> = Vec::new();
    let mut pos: u64 = f.blocks_start;
    let mut i: usize = 0;
    proof {
        assert(out@ =~= Seq::<u8>::empty());
    }
    while i < nblocks
        invariant
            imglen == img@.len(),
            i <= nblocks,
            nblocks == f.block_sizes@.len(),
            ctx_words == f.block_sizes@,
            bs == sb.block_size,
            bs >= 1,
            has_frag == (f.frag_index != FRAG_NONE),
            spec_file_wf(f@, sb.block_size as nat),
            f.size != 0,
            spec_file_blocks(
                img@,
                sb.compressor as int,
                ctx_words,
                f.blocks_start as int,
                f.size as nat,
                bs as nat,
                has_frag,
                0,
                Seq::empty(),
            ) == spec_file_blocks(
                img@,
                sb.compressor as int,
                ctx_words,
                pos as int,
                f.size as nat,
                bs as nat,
                has_frag,
                i as nat,
                out@,
            ),
        decreases nblocks - i,
    {
        proof {
            reveal(spec_file_bytes);
            assert((i as int + 1) * (bs as int) <= 0x10000000000000000 * 0x100000000 && (i as int)
                * (bs as int) >= 0 && (i as int + 1) * (bs as int) == (i as int) * (bs as int) + (
            bs as int)) by (nonlinear_arith)
                requires
                    0 <= i as int,
                    i as int + 1 <= 0x10000000000000000,
                    0 <= bs as int,
                    bs as int <= 0x100000000,
            ;
        }
        let full: bool = has_frag || (i as u128 + 1) * (bs as u128) <= f.size as u128;
        let expect: usize = if full {
            bs as usize
        } else if (i as u128) * (bs as u128) < f.size as u128 {
            (f.size as u128 - (i as u128) * (bs as u128)) as usize
        } else {
            0
        };
        let word = f.block_sizes[i];
        if word == 0 {
            push_zeros(&mut out, expect);
        } else {
            let d = read_data_block(img, sb.compressor, pos, word)?;
            if d.len() != expect {
                return Err(SquashfsError::TruncatedFileData);
            }
            push_all(&mut out, &d);
            proof {
                assert(pos + word % 0x1000000 <= img@.len());
            }
            pos = pos + (word % 0x1000000) as u64;
        }
        i = i + 1;
    }
    let body_len = out.len();

    let tail: u64 = f.size % bs as u64;
    if !has_frag || tail == 0 {
        if body_len as u64 != f.size {
            return Err(SquashfsError::TruncatedFileData);
        }
        return Ok(out);
    }
    if f.frag_index as usize >= frags.len() {
        return Err(SquashfsError::TruncatedFileData);
    }
    let fe = frags[f.frag_index as usize];
    let d = read_data_block(img, sb.compressor, fe.start, fe.size)?;
    if f.frag_offset as u64 > d.len() as u64 || tail > d.len() as u64 - f.frag_offset as u64 {
        return Err(SquashfsError::TruncatedFileData);
    }
    let t = copy_range(&d, f.frag_offset as usize, tail as usize);
    if !(body_len as u64 <= f.size && f.size - body_len as u64 == tail) {
        return Err(SquashfsError::TruncatedFileData);
    }
    push_all(&mut out, &t);
    Ok(out)
}

} // verus!
