use vstd::prelude::*;

use crate::bytes::copy_range;
use crate::content::{read_file_bytes, spec_file_bytes};
use crate::error::SquashfsError;
use crate::extract::{
    lookup_at, nodes_view, spec_filesystem, spec_lookup, spec_root_block, spec_root_off, walk_dir,
    Node, SpecLookup,
};
use crate::inode::{decode_inode, spec_inode_at, Inode, SpecInode};
use crate::metadata::MetaCache;
use crate::paths::{comps_view, join_components, spec_join, spec_split, split_path};
use crate::superblock::{parse_superblock, spec_superblock, SuperBlock};
use crate::tables::{parse_frag_table, parse_id_table, spec_frag_table, spec_id_table, FragEntry};

verus! {

/// An opened image: the raw bytes from the image start, the parsed
/// superblock, the fragment and id tables, and the metadata-block cache.
/// Read-only over the image for its whole lifetime; only the cache mutates.
pub struct Squashfs {
    pub img: Vec<u8>,
    pub superblock: SuperBlock,
    pub cache: MetaCache,
    pub fragments: Vec<FragEntry>,
    pub ids: Vec<u32>,
}

impl Squashfs {
    /// The superblock and both tables are exactly what the image bytes
    /// decode to, and the cache holds only true block decodings.
    pub open spec fn wf(self) -> bool {
        &&& spec_superblock(self.img@) == Some(self.superblock)
        &&& self.cache.wf(self.img@, self.superblock.compressor as int)
        &&& spec_frag_table(self.img@, self.superblock) == Some(self.fragments@)
        &&& spec_id_table(self.img@, self.superblock) == Some(self.ids@)
    }

    /// Opens an image that starts `offset` bytes into `data`: parses the
    /// superblock and, eagerly, the fragment and id tables. Succeeds exactly
    /// when the offset is in range and all three decode.
    pub fn from_bytes_with_offset(data: Vec<u8>, offset: usize) -> (r: Result<
        Squashfs,
        SquashfsError,
    >)
        ensures
            r matches Ok(s) ==> s.wf() && offset <= data@.len() && s.img@ == data@.skip(
                offset as int,
            ),
            r is Ok <==> (offset <= data@.len() && (spec_superblock(data@.skip(offset as int))
                matches Some(sb) && spec_frag_table(data@.skip(offset as int), sb) is Some
                && spec_id_table(data@.skip(offset as int), sb) is Some)),
            offset > data@.len() ==> r == Err::<Squashfs, SquashfsError>(
                SquashfsError::MalformedHeader,
            ),
    {
        if offset > data.len() {
            return Err(SquashfsError::MalformedHeader);
        }
        let img = copy_range(&data, offset, data.len() - offset);
        proof {
            assert(img@ =~= data@.skip(offset as int));
        }
        let superblock = parse_superblock(&img)?;
        let mut cache = MetaCache::new();
        let fragments = parse_frag_table(&img, &superblock, &mut cache)?;
        let ids = parse_id_table(&img, &superblock, &mut cache)?;
        Ok(Squashfs { img, superblock, cache, fragments, ids })
    }

    /// Opens an image whose bytes start at the beginning of `data`.
    pub fn from_bytes(data: Vec<u8>) -> (r: Result<Squashfs, SquashfsError>)
        ensures
            r matches Ok(s) ==> s.wf() && s.img@ == data@,
            r is Ok <==> (spec_superblock(data@) matches Some(sb) && spec_frag_table(data@, sb)
                is Some && spec_id_table(data@, sb) is Some),
    {
        proof {
            assert(data@.skip(0) =~= data@);
        }
        Squashfs::from_bytes_with_offset(data, 0)
    }

    /// Resolves one slash-delimited path and returns the normalized path and
    /// the file's bytes. Fails with `PathNotFound` exactly when a component
    /// has no match, `NotADirectory` exactly when a non-terminal component is
    /// not a directory, and `NotAFile` exactly when the path resolves to
    /// anything but a regular file. Only the requested path's ancestor chain
    /// is decoded.
    pub fn extract_file(&mut self, path: &Vec<u8>) -> (r: Result<
        (Vec<u8>, Vec<u8>),
        SquashfsError,
    >)
        requires
            old(self).wf(),
        ensures
            final(self).wf(),
            final(self).img == old(self).img,
            final(self).superblock == old(self).superblock,
            final(self).fragments == old(self).fragments,
            final(self).ids == old(self).ids,
            ({
                let img = old(self).img@;
                let sb = old(self).superblock;
                let comps = spec_split(path@);
                let lk = spec_lookup(img, sb, spec_root_block(sb), spec_root_off(sb), comps);
                &&& (r matches Ok(p) ==> (lk matches SpecLookup::Found(ino) && ino matches
                    SpecInode::File(f) && spec_file_bytes(
                    img,
                    sb.compressor as int,
                    old(self).fragments@,
                    f,
                    sb.block_size as nat,
                ) == Some(p.1@) && p.0@ == spec_join(comps)))
                &&& (r is Ok <==> (lk matches SpecLookup::Found(ino) && ino matches
                    SpecInode::File(f) && spec_file_bytes(
                    img,
                    sb.compressor as int,
                    old(self).fragments@,
                    f,
                    sb.block_size as nat,
                ) is Some))
                &&& (r == Err::<(Vec<u8>, Vec<u8>), SquashfsError>(SquashfsError::PathNotFound)
                    <==> lk is NotFound)
                &&& (r == Err::<(Vec<u8>, Vec<u8>), SquashfsError>(SquashfsError::NotADirectory)
                    <==> lk is NotDir)
                &&& (r == Err::<(Vec<u8>, Vec<u8>), SquashfsError>(SquashfsError::NotAFile) <==> (
                lk matches SpecLookup::Found(ino) && !(ino is File)))
            }),
    {
        let comps = split_path(path);
        let rb: u64 = self.superblock.root_inode / 0x10000;
        let ro: u16 = (self.superblock.root_inode % 0x10000) as u16;
        proof {
            assert(comps_view(comps@).skip(0) =~= spec_split(path@));
        }
        let ino = lookup_at(&self.img, &self.superblock, &mut self.cache, rb, ro, &comps, 0)?;
        match ino {
            Inode::File(f) => {
                let bytes = read_file_bytes(&self.img, &self.superblock, &self.fragments, &f)?;
                let normalized = join_components(&comps);
                Ok((normalized, bytes))
            },
            _ => Err(SquashfsError::NotAFile),
        }
    }

    /// Materializes the whole tree, depth-first in on-disk directory order:
    /// a `Path` node for every directory, a `File` node with full contents
    /// for every regular file, a `Symlink` node for every symlink. Fails on
    /// the first unresolvable node; nothing partial is returned.
    pub fn into_filesystem(self) -> (r: Result<Vec<Node>, SquashfsError>)
        requires
            self.wf(),
        ensures
            ({
                let fsys = spec_filesystem(self.img@, self.superblock, self.fragments@, self.ids@);
                &&& (r is Ok <==> fsys is Some)
                &&& (r matches Ok(v) ==> nodes_view(v@) == fsys.unwrap())
                &&& (r matches Ok(v) ==> forall|j: int|
                    0 <= j < v@.len() ==> (#[trigger] v@[j]).wf())
                &&& (r matches Ok(v) ==> forall|a: int, b: int|
                    0 <= a < b < v@.len() ==> v@[a].spec_comps() != v@[b].spec_comps())
                &&& (r matches Ok(v) ==> forall|j: int|
                    0 <= j < v@.len() ==> crate::extract::spec_extract_agrees(
                        self.img@,
                        self.superblock,
                        self.fragments@,
                        (#[trigger] v@[j])@,
                    ))
            }),
    {
        let mut this = self;
        let rb: u64 = this.superblock.root_inode / 0x10000;
        let ro: u16 = (this.superblock.root_inode % 0x10000) as u16;
        let root = decode_inode(&this.img, &this.superblock, &mut this.cache, rb, ro)?;
        match root {
            Inode::Dir(d) => {
                let mut out: Vec<Node> = Vec::new();
                let prefix: Vec<u8> = Vec::new();
                proof {
                    assert(prefix@ =~= spec_join(Seq::<Seq<u8>>::empty()));
                }
                let fuel: u64 = this.superblock.inode_count as u64 + 1;
                let ghost pre = out@;
                match walk_dir(
                    &this.img,
                    &this.superblock,
                    &mut this.cache,
                    &this.fragments,
                    &this.ids,
                    d,
                    &prefix,
                    Ghost(Seq::empty()),
                    fuel,
                    &mut out,
                ) {
                    Ok(()) => {
                        proof {
                            crate::extract::lemma_filesystem_paths_unique(
                                this.img@,
                                this.superblock,
                                this.fragments@,
                                this.ids@,
                            );
                            crate::extract::lemma_extract_agrees_with_filesystem(
                                this.img@,
                                this.superblock,
                                this.fragments@,
                                this.ids@,
                            );
                            assert(nodes_view(pre) =~= Seq::<crate::extract::SpecNode>::empty());
                            assert(nodes_view(pre) + spec_filesystem(
                                this.img@,
                                this.superblock,
                                this.fragments@,
                                this.ids@,
                            ).unwrap() =~= spec_filesystem(
                                this.img@,
                                this.superblock,
                                this.fragments@,
                                this.ids@,
                            ).unwrap());
                            assert forall|a: int, b: int|
                                0 <= a < b < out@.len() implies out@[a].spec_comps()
                                != out@[b].spec_comps() by {
                                let ns = spec_filesystem(
                                    this.img@,
                                    this.superblock,
                                    this.fragments@,
                                    this.ids@,
                                ).unwrap();
                                assert(nodes_view(out@)[a] == out@[a]@);
                                assert(nodes_view(out@)[b] == out@[b]@);
                                assert(crate::extract::spec_node_comps(ns[a])
                                    != crate::extract::spec_node_comps(ns[b]));
                            }
                            assert forall|j: int| 0 <= j < out@.len() implies
                                crate::extract::spec_extract_agrees(
                                this.img@,
                                this.superblock,
                                this.fragments@,
                                (#[trigger] out@[j])@,
                            ) by {
                                assert(nodes_view(out@)[j] == out@[j]@);
                            }
                        }
                        Ok(out)
                    },
                    Err(e) => Err(e),
                }
            },
            _ => Err(SquashfsError::MalformedInode),
        }
    }
}

} // verus!
