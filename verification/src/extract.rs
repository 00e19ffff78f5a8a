use vstd::prelude::*;

use crate::bytes::bytes_eq;
use crate::content::{read_file_bytes, spec_file_bytes};
use crate::dirtable::{decode_directory, listing_view, spec_dir_listing, SpecDirEntry};
use crate::error::SquashfsError;
use crate::inode::{decode_inode, spec_inode_at, DirInode, Inode, InodeHeader, SpecInode};
use crate::metadata::MetaCache;
use crate::paths::{push_component, spec_join};
use crate::superblock::{spec_superblock, SuperBlock};
use crate::tables::FragEntry;

verus! {

/// Ownership and permission data resolved through the id table.
#[derive(Clone, Copy, Debug, PartialEq, Eq, Structural)]
pub struct NodeMeta {
    pub permissions: u16,
    pub uid: u32,
    pub gid: u32,
    pub mtime: u32,
}

/// A regular file of the materialized tree.
pub struct FileNode {
    /// Slash-separated path relative to the image root.
    pub path: Vec<u8>,
    pub bytes: Vec<u8>,
    pub meta: NodeMeta,
    /// The path's components, kept for reasoning about the tree.
    pub components: Ghost<Seq<Seq<u8>>>,
}

/// A symbolic link of the materialized tree.
pub struct SymlinkNode {
    pub path: Vec<u8>,
    pub link: Vec<u8>,
    pub meta: NodeMeta,
    pub components: Ghost<Seq<Seq<u8>>>,
}

/// A directory of the materialized tree.
pub struct PathNode {
    pub path: Vec<u8>,
    pub meta: NodeMeta,
    pub components: Ghost<Seq<Seq<u8>>>,
}

/// One node of the materialized tree.
pub enum Node {
    File(FileNode),
    Symlink(SymlinkNode),
    Path(PathNode),
}

/// The model of one tree node.
pub enum SpecNode {
    File { comps: Seq<Seq<u8>>, bytes: Seq<u8>, meta: NodeMeta },
    Symlink { comps: Seq<Seq<u8>>, target: Seq<u8>, meta: NodeMeta },
    Path { comps: Seq<Seq<u8>>, meta: NodeMeta },
}

impl View for Node {
    type V = SpecNode;

    open spec fn view(&self) -> SpecNode {
        match self {
            Node::File(f) => SpecNode::File { comps: f.components@, bytes: f.bytes@, meta: f.meta },
            Node::Symlink(s) => SpecNode::Symlink {
                comps: s.components@,
                target: s.link@,
                meta: s.meta,
            },
            Node::Path(p) => SpecNode::Path { comps: p.components@, meta: p.meta },
        }
    }
}

impl Node {
    /// The node's slash-separated path.
    pub fn path(&self) -> (r: &Vec<u8>)
        ensures
            r@ == self.spec_path(),
    {
        match self {
            Node::File(f) => &f.path,
            Node::Symlink(s) => &s.path,
            Node::Path(p) => &p.path,
        }
    }

    pub open spec fn spec_path(&self) -> Seq<u8> {
        match self {
            Node::File(f) => f.path@,
            Node::Symlink(s) => s.path@,
            Node::Path(p) => p.path@,
        }
    }

    pub open spec fn spec_comps(&self) -> Seq<Seq<u8>> {
        match self@ {
            SpecNode::File { comps, .. } => comps,
            SpecNode::Symlink { comps, .. } => comps,
            SpecNode::Path { comps, .. } => comps,
        }
    }

    /// The node's path is the join of its components.
    pub open spec fn wf(&self) -> bool {
        self.spec_path() == spec_join(self.spec_comps())
    }
}

/// The models of a vector of nodes.
pub open spec fn nodes_view(v: Seq<Node>) -> Seq<SpecNode> {
    Seq::new(v.len(), |i: int| v[i]@)
}

pub open spec fn spec_node_comps(n: SpecNode) -> Seq<Seq<u8>> {
    match n {
        SpecNode::File { comps, .. } => comps,
        SpecNode::Symlink { comps, .. } => comps,
        SpecNode::Path { comps, .. } => comps,
    }
}

/// The owner and group of an inode, resolved through the id table.
pub open spec fn spec_meta(ids: Seq<u32>, h: InodeHeader) -> Option<NodeMeta> {
    if h.uid_idx < ids.len() && h.gid_idx < ids.len() {
        Some(
            NodeMeta {
                permissions: h.permissions,
                uid: ids[h.uid_idx as int],
                gid: ids[h.gid_idx as int],
                mtime: h.mtime,
            },
        )
    } else {
        None
    }
}

/// The block of the root inode reference: its upper bits.
pub open spec fn spec_root_block(sb: SuperBlock) -> int {
    sb.root_inode as int / 0x10000
}

/// The intra-block offset of the root inode reference: its low 16 bits.
pub open spec fn spec_root_off(sb: SuperBlock) -> nat {
    (sb.root_inode as int % 0x10000) as nat
}

/// What resolving a component path from a starting inode yields.
pub enum SpecLookup {
    /// Every component matched; the final inode.
    Found(SpecInode),
    /// Some component had no match in its directory.
    NotFound,
    /// A non-terminal component resolved to a non-directory.
    NotDir,
    /// An inode or directory failed to decode.
    Fail,
}

/// The model of single-path resolution: starting from the inode at
/// (`block`, `off`), follow each component through its directory listing,
/// taking the unique entry of that name.
#[verifier::opaque]
pub open spec fn spec_lookup(
    img: Seq<u8>,
    sb: SuperBlock,
    block: int,
    off: nat,
    comps: Seq<Seq<u8>>,
) -> SpecLookup
    decreases comps.len(),
{
    match spec_inode_at(img, sb, block, off) {
        None => SpecLookup::Fail,
        Some(ino) => {
            if comps.len() == 0 {
                SpecLookup::Found(ino)
            } else {
                match ino {
                    SpecInode::Dir(d) => {
                        match spec_dir_listing(img, sb, d) {
                            None => SpecLookup::Fail,
                            Some(es) => {
                                if exists|k: int| 0 <= k < es.len() && es[k].name == comps[0] {
                                    let k = choose|k: int|
                                        0 <= k < es.len() && es[k].name == comps[0];
                                    spec_lookup(
                                        img,
                                        sb,
                                        es[k].start_block as int,
                                        es[k].offset as nat,
                                        comps.skip(1),
                                    )
                                } else {
                                    SpecLookup::NotFound
                                }
                            },
                        }
                    },
                    _ => SpecLookup::NotDir,
                }
            }
        },
    }
}

/// Resolves the components `comps[i..]` from the inode at (`block`, `off`),
/// mirroring `spec_lookup` exactly: `PathNotFound` exactly on a missing
/// component, `NotADirectory` exactly on a non-directory intermediate.
#[verifier::rlimit(100)]
pub fn lookup_at(
    img: &Vec<u8>,
    sb: &SuperBlock,
    cache: &mut MetaCache,
    block: u64,
    off: u16,
    comps: &Vec<Vec<u8>>,
    i: usize,
) -> (r: Result<Inode, SquashfsError>)
    requires
        old(cache).wf(img@, sb.compressor as int),
        spec_superblock(img@) == Some(*sb),
        i <= comps@.len(),
    ensures
        final(cache).wf(img@, sb.compressor as int),
        r matches Ok(ino) ==> spec_lookup(
            img@,
            *sb,
            block as int,
            off as nat,
            crate::paths::comps_view(comps@).skip(i as int),
        ) == SpecLookup::Found(ino@),
        r is Ok <==> spec_lookup(
            img@,
            *sb,
            block as int,
            off as nat,
            crate::paths::comps_view(comps@).skip(i as int),
        ) matches SpecLookup::Found(_),
        r == Err::<Inode, SquashfsError>(SquashfsError::PathNotFound) <==> spec_lookup(
            img@,
            *sb,
            block as int,
            off as nat,
            crate::paths::comps_view(comps@).skip(i as int),
        ) is NotFound,
        r == Err::<Inode, SquashfsError>(SquashfsError::NotADirectory) <==> spec_lookup(
            img@,
            *sb,
            block as int,
            off as nat,
            crate::paths::comps_view(comps@).skip(i as int),
        ) is NotDir,
        r matches Err(e) ==> e != SquashfsError::NotAFile,
    decreases comps@.len() - i,
{
    let ghost rest = crate::paths::comps_view(comps@).skip(i as int);
    let ino = match decode_inode(img, sb, cache, block, off) {
        Ok(ino) => ino,
        Err(e) => {
            proof {
                reveal(spec_lookup);
            }
            return Err(e);
        },
    };
    if i == comps.len() {
        proof {
            reveal(spec_lookup);
            assert(rest.len() == 0);
        }
        return Ok(ino);
    }
    proof {
        assert(rest.len() > 0);
        assert(rest[0] == comps@[i as int]@);
    }
    let ncomps = comps.len();
    match ino {
        Inode::Dir(d) => {
            let es = match decode_directory(img, sb, cache, &d) {
                Ok(es) => es,
                Err(e) => {
                    proof {
                        reveal(spec_lookup);
                    }
                    return Err(e);
                },
            };
            let ghost esv = listing_view(es@);
            let mut k: usize = 0;
            while k < es.len()
                invariant
                    cache.wf(img@, sb.compressor as int),
                    spec_superblock(img@) == Some(*sb),
                    i < comps@.len(),
                    ncomps == comps@.len(),
                    crate::dirtable::spec_names_unique(esv),
                    rest == crate::paths::comps_view(comps@).skip(i as int),
                    rest.len() > 0,
                    rest[0] == comps@[i as int]@,
                    spec_inode_at(img@, *sb, block as int, off as nat) == Some(SpecInode::Dir(d)),
                    spec_dir_listing(img@, *sb, d) == Some(esv),
                    k <= es@.len(),
                    esv == listing_view(es@),
                    forall|j: int| 0 <= j < k ==> esv[j].name != comps@[i as int]@,
                decreases es@.len() - k,
            {
                if bytes_eq(&es[k].name, &comps[i]) {
                    proof {
                        reveal(spec_lookup);
                        assert(esv[k as int].name == comps@[i as int]@);
                        assert(exists|q: int| 0 <= q < esv.len() && esv[q].name == rest[0]);
                        let q = choose|q: int| 0 <= q < esv.len() && esv[q].name == rest[0];
                        // Listing names are pairwise distinct, so the chosen
                        // match is the one found.
                        assert(crate::dirtable::spec_names_unique(esv));
                        if q != k as int {
                            assert(esv[q].name == esv[k as int].name);
                            assert(false);
                        }
                    }
                    let r = lookup_at(
                        img,
                        sb,
                        cache,
                        es[k].start_block as u64,
                        es[k].offset,
                        comps,
                        i + 1,
                    );
                    proof {
                        assert(crate::paths::comps_view(comps@).skip(i + 1) =~= rest.skip(1));
                    }
                    return r;
                }
                k = k + 1;
            }
            proof {
                reveal(spec_lookup);
                assert(!(exists|q: int| 0 <= q < esv.len() && esv[q].name == rest[0]));
            }
            Err(SquashfsError::PathNotFound)
        },
        _ => {
            proof {
                reveal(spec_lookup);
            }
            Err(SquashfsError::NotADirectory)
        },
    }
}

/// The nodes one resolved inode contributes to the tree at `comps`: a
/// `Path` node and the subtree for a directory, a `File` node with resolved
/// bytes for a file, a `Symlink` node for a symlink, nothing for other
/// kinds.
#[verifier::opaque]
pub open spec fn spec_entry_nodes(
    img: Seq<u8>,
    sb: SuperBlock,
    frags: Seq<FragEntry>,
    ids: Seq<u32>,
    ino: SpecInode,
    comps: Seq<Seq<u8>>,
    fuel: nat,
) -> Option<Seq<SpecNode>>
    decreases fuel, 0int, 0int, 0int,
{
    match ino {
        SpecInode::Dir(d) => {
            if fuel == 0 {
                None
            } else {
                match spec_meta(ids, d.header) {
                    None => None,
                    Some(m) => {
                        match spec_walk_dir(img, sb, frags, ids, d, comps, (fuel - 1) as nat) {
                            None => None,
                            Some(sub) => Some(seq![SpecNode::Path { comps, meta: m }] + sub),
                        }
                    },
                }
            }
        },
        SpecInode::File(f) => {
            match spec_meta(ids, f.header) {
                None => None,
                Some(m) => {
                    match spec_file_bytes(img, sb.compressor as int, frags, f, sb.block_size as nat) {
                        None => None,
                        Some(b) => Some(seq![SpecNode::File { comps, bytes: b, meta: m }]),
                    }
                },
            }
        },
        SpecInode::Symlink(s) => {
            match spec_meta(ids, s.header) {
                None => None,
                Some(m) => Some(seq![SpecNode::Symlink { comps, target: s.target, meta: m }]),
            }
        },
        SpecInode::Other(_) => Some(Seq::empty()),
    }
}

/// The tree nodes below one directory: what each entry's inode contributes,
/// in on-disk order, appended to `acc`.
#[verifier::opaque]
pub open spec fn spec_walk_entries(
    img: Seq<u8>,
    sb: SuperBlock,
    frags: Seq<FragEntry>,
    ids: Seq<u32>,
    es: Seq<SpecDirEntry>,
    i: nat,
    prefix: Seq<Seq<u8>>,
    fuel: nat,
    acc: Seq<SpecNode>,
) -> Option<Seq<SpecNode>>
    decreases fuel, 0int, es.len() - i, 1int,
{
    if i >= es.len() {
        Some(acc)
    } else {
        let e = es[i as int];
        match spec_inode_at(img, sb, e.start_block as int, e.offset as nat) {
            None => None,
            Some(ino) => {
                match spec_entry_nodes(img, sb, frags, ids, ino, prefix.push(e.name), fuel) {
                    None => None,
                    Some(delta) => spec_walk_entries(
                        img,
                        sb,
                        frags,
                        ids,
                        es,
                        i + 1,
                        prefix,
                        fuel,
                        acc + delta,
                    ),
                }
            },
        }
    }
}

/// The tree nodes below one directory inode, depth-first in on-disk order.
#[verifier::opaque]
pub open spec fn spec_walk_dir(
    img: Seq<u8>,
    sb: SuperBlock,
    frags: Seq<FragEntry>,
    ids: Seq<u32>,
    d: DirInode,
    prefix: Seq<Seq<u8>>,
    fuel: nat,
) -> Option<Seq<SpecNode>>
    decreases fuel, 1int, 0int, 0int,
{
    match spec_dir_listing(img, sb, d) {
        None => None,
        Some(es) => spec_walk_entries(img, sb, frags, ids, es, 0, prefix, fuel, Seq::empty()),
    }
}

/// The model of full-tree materialization: the walk from the root inode,
/// which must be a directory, with enough fuel to cover any well-formed
/// image's depth.
pub open spec fn spec_filesystem(
    img: Seq<u8>,
    sb: SuperBlock,
    frags: Seq<FragEntry>,
    ids: Seq<u32>,
) -> Option<Seq<SpecNode>> {
    match spec_inode_at(img, sb, spec_root_block(sb), spec_root_off(sb)) {
        Some(SpecInode::Dir(d)) => spec_walk_dir(
            img,
            sb,
            frags,
            ids,
            d,
            Seq::empty(),
            (sb.inode_count + 1) as nat,
        ),
        _ => None,
    }
}

/// Materializes the subtree of one directory inode into `out`, mirroring
/// `spec_walk_dir`. Every appended node's path is the join of its
/// components, which extend `prefix_comps` by at least one name.
#[verifier::rlimit(100)]
pub fn walk_dir(
    img: &Vec<u8>,
    sb: &SuperBlock,
    cache: &mut MetaCache,
    frags: &Vec<FragEntry>,
    ids: &Vec<u32>,
    d: DirInode,
    prefix: &Vec<u8>,
    Ghost(prefix_comps): Ghost<Seq<Seq<u8>>>,
    fuel: u64,
    out: &mut Vec<Node>,
) -> (r: Result<(), SquashfsError>)
    requires
        old(cache).wf(img@, sb.compressor as int),
        spec_superblock(img@) == Some(*sb),
        prefix@ == spec_join(prefix_comps),
        prefix_comps.len() > 0 ==> prefix@.len() > 0,
    ensures
        final(cache).wf(img@, sb.compressor as int),
        r is Ok <==> spec_walk_dir(img@, *sb, frags@, ids@, d, prefix_comps, fuel as nat) is Some,
        r is Ok ==> nodes_view(final(out)@) == nodes_view(old(out)@) + spec_walk_dir(
            img@,
            *sb,
            frags@,
            ids@,
            d,
            prefix_comps,
            fuel as nat,
        ).unwrap(),
        r is Ok ==> forall|j: int|
            old(out)@.len() <= j < final(out)@.len() ==> (#[trigger] final(out)@[j]).wf(),
        r is Ok ==> forall|j: int| 0 <= j < old(out)@.len() ==> final(out)@[j] == old(out)@[j],
    decreases fuel, 2int,
{
    let es = match decode_directory(img, sb, cache, &d) {
        Ok(es) => es,
        Err(e) => {
            proof {
                reveal(spec_walk_dir);
            }
            return Err(e);
        },
    };
    let ghost esv = listing_view(es@);
    let ghost out0: int = out@.len() as int;
    let n = es.len();
    let mut k: usize = 0;
    proof {
        assert(nodes_view(out@).skip(out0) =~= Seq::<SpecNode>::empty());
    }
    while k < n
        invariant
            cache.wf(img@, sb.compressor as int),
            spec_superblock(img@) == Some(*sb),
            prefix@ == spec_join(prefix_comps),
            prefix_comps.len() > 0 ==> prefix@.len() > 0,
            n == es@.len(),
            k <= n,
            esv == listing_view(es@),
            spec_dir_listing(img@, *sb, d) == Some(esv),
            forall|j: int| 0 <= j < esv.len() ==> crate::dirtable::name_ok(#[trigger] esv[j]),
            0 <= out0 <= out@.len(),
            forall|j: int| 0 <= j < out0 ==> out@[j] == old(out)@[j],
            forall|j: int| out0 <= j < out@.len() ==> (#[trigger] out@[j]).wf(),
            spec_walk_entries(img@, *sb, frags@, ids@, esv, 0, prefix_comps, fuel as nat, Seq::empty())
                == spec_walk_entries(
                img@,
                *sb,
                frags@,
                ids@,
                esv,
                k as nat,
                prefix_comps,
                fuel as nat,
                nodes_view(out@).skip(out0),
            ),
        decreases fuel, 0int, n - k,
    {
        proof {
            assert(esv[k as int] == es@[k as int]@);
            assert(crate::dirtable::name_ok(esv[k as int]));
        }
        let ghost pre_acc = nodes_view(out@).skip(out0);
        let r = walk_entry(
            img,
            sb,
            cache,
            frags,
            ids,
            &es[k],
            Ghost(esv),
            Ghost(k as nat),
            prefix,
            Ghost(prefix_comps),
            fuel,
            out,
            Ghost(out0),
        );
        match r {
            Ok(()) => {},
            Err(e) => {
                proof {
                    assert(spec_walk_entries(
                        img@,
                        *sb,
                        frags@,
                        ids@,
                        esv,
                        k as nat,
                        prefix_comps,
                        fuel as nat,
                        pre_acc,
                    ) is None);
                    assert(spec_walk_entries(
                        img@,
                        *sb,
                        frags@,
                        ids@,
                        esv,
                        0,
                        prefix_comps,
                        fuel as nat,
                        Seq::empty(),
                    ) is None);
                    reveal(spec_walk_dir);
                    reveal(spec_walk_entries);
                    assert(spec_walk_dir(img@, *sb, frags@, ids@, d, prefix_comps, fuel as nat)
                        == spec_walk_entries(
                        img@,
                        *sb,
                        frags@,
                        ids@,
                        esv,
                        0,
                        prefix_comps,
                        fuel as nat,
                        Seq::empty(),
                    ));
                }
                return Err(e);
            },
        }
        k = k + 1;
    }
    proof {
        reveal(spec_walk_dir);
        reveal(spec_walk_entries);
        assert(spec_walk_entries(
            img@,
            *sb,
            frags@,
            ids@,
            esv,
            n as nat,
            prefix_comps,
            fuel as nat,
            nodes_view(out@).skip(out0),
        ) == Some(nodes_view(out@).skip(out0)));
        assert(nodes_view(out@) =~= nodes_view(old(out)@) + nodes_view(out@).skip(out0));
    }
    Ok(())
}

/// Handles one directory entry of a walk: decodes its inode and appends the
/// nodes it contributes, advancing the model by one entry.
#[verifier::rlimit(100)]
#[verifier::spinoff_prover]
fn walk_entry(
    img: &Vec<u8>,
    sb: &SuperBlock,
    cache: &mut MetaCache,
    frags: &Vec<FragEntry>,
    ids: &Vec<u32>,
    e: &crate::dirtable::DirEntry,
    Ghost(esv): Ghost<Seq<SpecDirEntry>>,
    Ghost(k): Ghost<nat>,
    prefix: &Vec<u8>,
    Ghost(prefix_comps): Ghost<Seq<Seq<u8>>>,
    fuel: u64,
    out: &mut Vec<Node>,
    Ghost(out0): Ghost<int>,
) -> (r: Result<(), SquashfsError>)
    requires
        old(cache).wf(img@, sb.compressor as int),
        spec_superblock(img@) == Some(*sb),
        prefix@ == spec_join(prefix_comps),
        prefix_comps.len() > 0 ==> prefix@.len() > 0,
        k < esv.len(),
        esv[k as int] == e@,
        e@.name.len() >= 1,
        0 <= out0 <= old(out)@.len(),
        forall|j: int| out0 <= j < old(out)@.len() ==> (#[trigger] old(out)@[j]).wf(),
    ensures
        final(cache).wf(img@, sb.compressor as int),
        r is Err ==> spec_walk_entries(
            img@,
            *sb,
            frags@,
            ids@,
            esv,
            k,
            prefix_comps,
            fuel as nat,
            nodes_view(old(out)@).skip(out0),
        ) is None,
        r is Ok ==> spec_walk_entries(
            img@,
            *sb,
            frags@,
            ids@,
            esv,
            k,
            prefix_comps,
            fuel as nat,
            nodes_view(old(out)@).skip(out0),
        ) == spec_walk_entries(
            img@,
            *sb,
            frags@,
            ids@,
            esv,
            k + 1,
            prefix_comps,
            fuel as nat,
            nodes_view(final(out)@).skip(out0),
        ),
        r is Ok ==> old(out)@.len() <= final(out)@.len(),
        r is Ok ==> forall|j: int| 0 <= j < old(out)@.len() ==> final(out)@[j] == old(out)@[j],
        r is Ok ==> forall|j: int|
            out0 <= j < final(out)@.len() ==> (#[trigger] final(out)@[j]).wf(),
    decreases fuel, 1int, 0int,
{
    let ghost acc_pre = nodes_view(old(out)@).skip(out0);
    let ino = match decode_inode(img, sb, cache, e.start_block as u64, e.offset) {
        Ok(ino) => ino,
        Err(err) => {
            proof {
                reveal(spec_walk_entries);
            }
            return Err(err);
        },
    };
    let name_path = push_component(prefix, &e.name, Ghost(prefix_comps));
    let ghost comps = prefix_comps.push(e@.name);
    proof {
        crate::paths::lemma_join_push(prefix_comps, e@.name);
        assert(name_path@ == spec_join(comps));
        assert(name_path@.len() > 0);
    }
    let r = append_entry_nodes(
        img,
        sb,
        cache,
        frags,
        ids,
        ino,
        name_path,
        Ghost(comps),
        fuel,
        out,
    );
    proof {
        reveal(spec_walk_entries);
    }
    match r {
        Ok(()) => {
            proof {
                assert(nodes_view(out@).skip(out0) =~= acc_pre + nodes_view(out@).skip(
                    old(out)@.len() as int,
                ));
            }
            Ok(())
        },
        Err(err) => Err(err),
    }
}

/// Appends the nodes one resolved inode contributes at path `comps`.
#[verifier::rlimit(100)]
#[verifier::spinoff_prover]
fn append_entry_nodes(
    img: &Vec<u8>,
    sb: &SuperBlock,
    cache: &mut MetaCache,
    frags: &Vec<FragEntry>,
    ids: &Vec<u32>,
    ino: Inode,
    name_path: Vec<u8>,
    Ghost(comps): Ghost<Seq<Seq<u8>>>,
    fuel: u64,
    out: &mut Vec<Node>,
) -> (r: Result<(), SquashfsError>)
    requires
        old(cache).wf(img@, sb.compressor as int),
        spec_superblock(img@) == Some(*sb),
        name_path@ == spec_join(comps),
        name_path@.len() > 0,
    ensures
        final(cache).wf(img@, sb.compressor as int),
        r is Err ==> spec_entry_nodes(img@, *sb, frags@, ids@, ino@, comps, fuel as nat) is None,
        r is Ok ==> spec_entry_nodes(img@, *sb, frags@, ids@, ino@, comps, fuel as nat) == Some(
            nodes_view(final(out)@).skip(old(out)@.len() as int),
        ),
        r is Ok ==> old(out)@.len() <= final(out)@.len(),
        r is Ok ==> forall|j: int| 0 <= j < old(out)@.len() ==> final(out)@[j] == old(out)@[j],
        r is Ok ==> forall|j: int|
            old(out)@.len() <= j < final(out)@.len() ==> (#[trigger] final(out)@[j]).wf(),
    decreases fuel, 0int, 0int,
{
    let ghost acc0: int = out@.len() as int;
    match ino {
        Inode::Dir(dch) => {
            if fuel == 0 {
                proof {
                    reveal(spec_entry_nodes);
                }
                return Err(SquashfsError::MalformedDirectory);
            }
            let m = match resolve_meta(ids, dch.header) {
                Ok(m) => m,
                Err(err) => {
                    proof {
                        reveal(spec_entry_nodes);
                    }
                    return Err(err);
                },
            };
            let mut p2: Vec<u8> = Vec::new();
            crate::bytes::push_all(&mut p2, &name_path);
            proof {
                assert(p2@ =~= name_path@);
            }
            let pn = Node::Path(PathNode { path: p2, meta: m, components: Ghost(comps) });
            proof {
                assert(pn.wf());
            }
            out.push(pn);
            let ghost mid = out@;
            let sub = walk_dir(
                img,
                sb,
                cache,
                frags,
                ids,
                dch,
                &name_path,
                Ghost(comps),
                fuel - 1,
                out,
            );
            match sub {
                Ok(()) => {
                    proof {
                        reveal(spec_entry_nodes);
                        let subns = spec_walk_dir(
                            img@,
                            *sb,
                            frags@,
                            ids@,
                            dch,
                            comps,
                            (fuel - 1) as nat,
                        ).unwrap();
                        assert(nodes_view(out@) =~= nodes_view(mid) + subns);
                        assert(nodes_view(mid) =~= nodes_view(old(out)@).push(
                            SpecNode::Path { comps, meta: m },
                        ));
                        assert(nodes_view(out@).skip(acc0) =~= seq![
                            SpecNode::Path { comps, meta: m },
                        ] + subns);
                    }
                    Ok(())
                },
                Err(e2) => {
                    proof {
                        reveal(spec_entry_nodes);
                    }
                    Err(e2)
                },
            }
        },
        Inode::File(f) => {
            let m = match resolve_meta(ids, f.header) {
                Ok(m) => m,
                Err(err) => {
                    proof {
                        reveal(spec_entry_nodes);
                    }
                    return Err(err);
                },
            };
            let bytes = match read_file_bytes(img, sb, frags, &f) {
                Ok(b) => b,
                Err(err) => {
                    proof {
                        reveal(spec_entry_nodes);
                    }
                    return Err(err);
                },
            };
            let fnode = Node::File(
                FileNode { path: name_path, bytes, meta: m, components: Ghost(comps) },
            );
            proof {
                assert(fnode.wf());
            }
            out.push(fnode);
            proof {
                reveal(spec_entry_nodes);
                assert(nodes_view(out@) =~= nodes_view(old(out)@).push(out@.last()@));
                assert(nodes_view(out@).skip(acc0) =~= seq![out@.last()@]);
            }
            Ok(())
        },
        Inode::Symlink(s) => {
            let m = match resolve_meta(ids, s.header) {
                Ok(m) => m,
                Err(err) => {
                    proof {
                        reveal(spec_entry_nodes);
                    }
                    return Err(err);
                },
            };
            let snode = Node::Symlink(
                SymlinkNode { path: name_path, link: s.target, meta: m, components: Ghost(comps) },
            );
            proof {
                assert(snode.wf());
            }
            out.push(snode);
            proof {
                reveal(spec_entry_nodes);
                assert(nodes_view(out@) =~= nodes_view(old(out)@).push(out@.last()@));
                assert(nodes_view(out@).skip(acc0) =~= seq![out@.last()@]);
            }
            Ok(())
        },
        Inode::Other(_) => {
            proof {
                reveal(spec_entry_nodes);
                assert(nodes_view(out@).skip(acc0) =~= Seq::<SpecNode>::empty());
            }
            Ok(())
        },
    }
}

/// Resolves an inode's owner and group through the id table, rejecting an
/// index outside the table.
fn resolve_meta(ids: &Vec<u32>, h: InodeHeader) -> (r: Result<NodeMeta, SquashfsError>)
    ensures
        r matches Ok(m) ==> spec_meta(ids@, h) == Some(m),
        r is Err <==> spec_meta(ids@, h) is None,
        r is Err ==> r == Err::<NodeMeta, SquashfsError>(SquashfsError::MalformedInode),
{
    if (h.uid_idx as usize) < ids.len() && (h.gid_idx as usize) < ids.len() {
        Ok(
            NodeMeta {
                permissions: h.permissions,
                uid: ids[h.uid_idx as usize],
                gid: ids[h.gid_idx as usize],
                mtime: h.mtime,
            },
        )
    } else {
        Err(SquashfsError::MalformedInode)
    }
}

/// A node's path components strictly extend `prefix`.
pub open spec fn comps_extend(n: SpecNode, prefix: Seq<Seq<u8>>) -> bool {
    spec_node_comps(n).len() > prefix.len() && spec_node_comps(n).take(prefix.len() as int)
        == prefix
}

/// No two nodes from index `lo` on share their component path.
pub open spec fn comps_distinct(ns: Seq<SpecNode>, lo: int) -> bool {
    forall|a: int, b: int|
        lo <= a < b < ns.len() ==> spec_node_comps(ns[a]) != spec_node_comps(ns[b])
}

proof fn lemma_entries_unique(
    img: Seq<u8>,
    sb: SuperBlock,
    frags: Seq<FragEntry>,
    ids: Seq<u32>,
    es: Seq<SpecDirEntry>,
    i: nat,
    prefix: Seq<Seq<u8>>,
    fuel: nat,
    acc: Seq<SpecNode>,
)
    requires
        spec_walk_entries(img, sb, frags, ids, es, i, prefix, fuel, acc) is Some,
        crate::dirtable::spec_names_unique(es),
        i <= es.len(),
    ensures
        ({
            let ns = spec_walk_entries(img, sb, frags, ids, es, i, prefix, fuel, acc).unwrap();
            &&& ns.len() >= acc.len()
            &&& ns.take(acc.len() as int) == acc
            &&& forall|t: int| acc.len() <= t < ns.len() ==> comps_extend(#[trigger] ns[t], prefix)
            &&& forall|t: int|
                acc.len() <= t < ns.len() ==> (exists|k: int|
                    i <= k < es.len() && spec_node_comps(#[trigger] ns[t])[prefix.len() as int]
                        == es[k].name)
            &&& comps_distinct(ns, acc.len() as int)
        }),
    decreases fuel, 0int, es.len() - i,
{
    reveal(spec_walk_entries);
    reveal(spec_entry_nodes);
    reveal(spec_walk_dir);
    let ns = spec_walk_entries(img, sb, frags, ids, es, i, prefix, fuel, acc).unwrap();
    if i >= es.len() {
        assert(ns == acc);
        assert(ns.take(acc.len() as int) =~= acc);
    } else {
        let e = es[i as int];
        let ino = spec_inode_at(img, sb, e.start_block as int, e.offset as nat).unwrap();
        let comps = prefix.push(e.name);
        reveal(spec_entry_nodes);
        let delta = spec_entry_nodes(img, sb, frags, ids, ino, comps, fuel).unwrap();
        assert(comps.take(prefix.len() as int) =~= prefix);

        // Every node of `delta` extends `prefix` by this entry's name, and
        // `delta` has pairwise distinct component paths.
        assert(spec_entry_nodes(img, sb, frags, ids, ino, comps, fuel) is Some);
        match ino {
            SpecInode::Dir(d) => {
                assert(fuel > 0);
                assert(spec_meta(ids, d.header) is Some);
                assert(spec_walk_dir(img, sb, frags, ids, d, comps, (fuel - 1) as nat) is Some);
                lemma_dir_unique(img, sb, frags, ids, d, comps, (fuel - 1) as nat);
                let sub = spec_walk_dir(img, sb, frags, ids, d, comps, (fuel - 1) as nat).unwrap();
                let m = spec_meta(ids, d.header).unwrap();
                assert(delta == seq![SpecNode::Path { comps, meta: m }] + sub);
                assert forall|t: int| 0 <= t < delta.len() implies comps_extend(
                    #[trigger] delta[t],
                    prefix,
                ) && spec_node_comps(delta[t])[prefix.len() as int] == e.name by {
                    if t == 0 {
                        assert(spec_node_comps(delta[0]) == comps);
                    } else {
                        let c = spec_node_comps(sub[t - 1]);
                        assert(comps_extend(sub[t - 1], comps));
                        assert(c.take(comps.len() as int) == comps);
                        assert(c[prefix.len() as int] == comps[prefix.len() as int]);
                        assert(c.take(prefix.len() as int) =~= comps.take(prefix.len() as int));
                    }
                }
                assert forall|a: int, b: int| 0 <= a < b < delta.len() implies spec_node_comps(
                    delta[a],
                ) != spec_node_comps(delta[b]) by {
                    if a == 0 {
                        assert(spec_node_comps(delta[b]) == spec_node_comps(sub[b - 1]));
                        assert(comps_extend(sub[b - 1], comps));
                        assert(spec_node_comps(delta[b]).len() > comps.len());
                    } else {
                        assert(spec_node_comps(delta[a]) == spec_node_comps(sub[a - 1]));
                        assert(spec_node_comps(delta[b]) == spec_node_comps(sub[b - 1]));
                    }
                }
            },
            SpecInode::File(f) => {
                assert(delta.len() == 1 && spec_node_comps(delta[0]) == comps);
            },
            SpecInode::Symlink(s) => {
                assert(delta.len() == 1 && spec_node_comps(delta[0]) == comps);
            },
            SpecInode::Other(o) => {
                assert(delta.len() == 0);
            },
        }
        assert(forall|t: int|
            0 <= t < delta.len() ==> comps_extend(#[trigger] delta[t], prefix) && spec_node_comps(
                delta[t],
            )[prefix.len() as int] == e.name);

        lemma_entries_unique(img, sb, frags, ids, es, i + 1, prefix, fuel, acc + delta);
        let acc2 = acc + delta;
        assert(ns == spec_walk_entries(img, sb, frags, ids, es, i + 1, prefix, fuel, acc2).unwrap());
        assert(ns.take(acc2.len() as int) == acc2);
        assert(ns.take(acc.len() as int) =~= acc);
        assert forall|t: int| acc.len() <= t < acc2.len() implies ns[t] == delta[t - acc.len()] by {
            assert(ns.take(acc2.len() as int)[t] == acc2[t]);
        }
        assert forall|t: int| acc.len() <= t < ns.len() implies comps_extend(
            #[trigger] ns[t],
            prefix,
        ) by {}
        assert forall|t: int| acc.len() <= t < ns.len() implies (exists|k: int|
            i <= k < es.len() && spec_node_comps(#[trigger] ns[t])[prefix.len() as int]
                == es[k].name) by {
            if t < acc2.len() {
                assert(spec_node_comps(ns[t])[prefix.len() as int] == es[i as int].name);
            } else {
                let k = choose|k: int|
                    i + 1 <= k < es.len() && spec_node_comps(ns[t])[prefix.len() as int]
                        == es[k].name;
                assert(i <= k < es.len() && spec_node_comps(ns[t])[prefix.len() as int]
                    == es[k].name);
            }
        }
        assert forall|a: int, b: int|
            acc.len() <= a < b < ns.len() implies spec_node_comps(ns[a]) != spec_node_comps(
            ns[b],
        ) by {
            if b < acc2.len() {
                assert(spec_node_comps(delta[a - acc.len()]) != spec_node_comps(
                    delta[b - acc.len()],
                ));
            } else if a >= acc2.len() {
            } else {
                // One node comes from this entry, the other from a later
                // one: their names at the shared depth differ.
                let k = choose|k: int|
                    i + 1 <= k < es.len() && spec_node_comps(ns[b])[prefix.len() as int]
                        == es[k].name;
                assert(es[k].name != es[i as int].name);
                assert(spec_node_comps(ns[a])[prefix.len() as int] == es[i as int].name);
            }
        }
    }
}

proof fn lemma_dir_unique(
    img: Seq<u8>,
    sb: SuperBlock,
    frags: Seq<FragEntry>,
    ids: Seq<u32>,
    d: DirInode,
    prefix: Seq<Seq<u8>>,
    fuel: nat,
)
    requires
        spec_walk_dir(img, sb, frags, ids, d, prefix, fuel) is Some,
    ensures
        ({
            let ns = spec_walk_dir(img, sb, frags, ids, d, prefix, fuel).unwrap();
            &&& (forall|t: int| 0 <= t < ns.len() ==> comps_extend(#[trigger] ns[t], prefix))
            &&& comps_distinct(ns, 0)
        }),
    decreases fuel, 1int, 0int,
{
    reveal(spec_walk_dir);
    reveal(spec_walk_entries);
    reveal(spec_entry_nodes);
    let es = spec_dir_listing(img, sb, d).unwrap();
    assert(crate::dirtable::spec_names_unique(es)) by {
        reveal(crate::dirtable::spec_dir_listing);
    }
    lemma_entries_unique(img, sb, frags, ids, es, 0, prefix, fuel, Seq::empty());
}

/// Every path that full-tree materialization returns is unique within the
/// output sequence: no two nodes share their component path.
pub proof fn lemma_filesystem_paths_unique(
    img: Seq<u8>,
    sb: SuperBlock,
    frags: Seq<FragEntry>,
    ids: Seq<u32>,
)
    requires
        spec_filesystem(img, sb, frags, ids) is Some,
    ensures
        ({
            let ns = spec_filesystem(img, sb, frags, ids).unwrap();
            forall|a: int, b: int|
                0 <= a < b < ns.len() ==> spec_node_comps(ns[a]) != spec_node_comps(ns[b])
        }),
{
    let root = spec_inode_at(img, sb, spec_root_block(sb), spec_root_off(sb)).unwrap();
    match root {
        SpecInode::Dir(d) => {
            lemma_dir_unique(img, sb, frags, ids, d, Seq::empty(), (sb.inode_count + 1) as nat);
        },
        _ => {},
    }
}

/// Resolution of a non-empty component path against one directory's listing:
/// the unique entry named like the first component, then the ordinary lookup
/// from that entry's inode.
pub open spec fn spec_lookup_dir(
    img: Seq<u8>,
    sb: SuperBlock,
    d: DirInode,
    comps: Seq<Seq<u8>>,
) -> SpecLookup
    recommends
        comps.len() > 0,
{
    match spec_dir_listing(img, sb, d) {
        None => SpecLookup::Fail,
        Some(es) => {
            if exists|k: int| 0 <= k < es.len() && es[k].name == comps[0] {
                let k = choose|k: int| 0 <= k < es.len() && es[k].name == comps[0];
                spec_lookup(img, sb, es[k].start_block as int, es[k].offset as nat, comps.skip(1))
            } else {
                SpecLookup::NotFound
            }
        },
    }
}

/// A lookup that starts at a directory inode proceeds through its listing.
proof fn lemma_lookup_unfold(
    img: Seq<u8>,
    sb: SuperBlock,
    block: int,
    off: nat,
    d: DirInode,
    comps: Seq<Seq<u8>>,
)
    requires
        spec_inode_at(img, sb, block, off) == Some(SpecInode::Dir(d)),
        comps.len() > 0,
    ensures
        spec_lookup(img, sb, block, off, comps) == spec_lookup_dir(img, sb, d, comps),
{
    reveal(spec_lookup);
}

/// A `File` node agrees with single-path lookup below `d`: resolving its
/// components finds a file inode whose content is the node's bytes.
pub open spec fn spec_node_agrees_below(
    img: Seq<u8>,
    sb: SuperBlock,
    frags: Seq<FragEntry>,
    d: DirInode,
    n: SpecNode,
    prefix: Seq<Seq<u8>>,
) -> bool {
    match n {
        SpecNode::File { comps, bytes, .. } => (spec_lookup_dir(
            img,
            sb,
            d,
            comps.skip(prefix.len() as int),
        ) matches SpecLookup::Found(ino) && (ino matches SpecInode::File(f) && spec_file_bytes(
            img,
            sb.compressor as int,
            frags,
            f,
            sb.block_size as nat,
        ) == Some(bytes))),
        _ => true,
    }
}

proof fn lemma_entries_agree(
    img: Seq<u8>,
    sb: SuperBlock,
    frags: Seq<FragEntry>,
    ids: Seq<u32>,
    es: Seq<SpecDirEntry>,
    i: nat,
    prefix: Seq<Seq<u8>>,
    fuel: nat,
    acc: Seq<SpecNode>,
    d: DirInode,
)
    requires
        spec_walk_entries(img, sb, frags, ids, es, i, prefix, fuel, acc) is Some,
        crate::dirtable::spec_names_unique(es),
        spec_dir_listing(img, sb, d) == Some(es),
        i <= es.len(),
        forall|t: int|
            0 <= t < acc.len() ==> spec_node_agrees_below(img, sb, frags, d, #[trigger] acc[t], prefix),
    ensures
        ({
            let ns = spec_walk_entries(img, sb, frags, ids, es, i, prefix, fuel, acc).unwrap();
            forall|t: int|
                0 <= t < ns.len() ==> spec_node_agrees_below(img, sb, frags, d, #[trigger] ns[t], prefix)
        }),
    decreases fuel, 0int, es.len() - i,
{
    reveal(spec_walk_entries);
    reveal(spec_entry_nodes);
    reveal(spec_walk_dir);
    if i >= es.len() {
    } else {
        let e = es[i as int];
        let ino = spec_inode_at(img, sb, e.start_block as int, e.offset as nat).unwrap();
        let comps = prefix.push(e.name);
        let delta = spec_entry_nodes(img, sb, frags, ids, ino, comps, fuel).unwrap();
        let suffix = comps.skip(prefix.len() as int);
        assert(suffix =~= seq![e.name]);

        // The unique listing entry named `e.name` is entry `i`.
        assert(exists|k: int| 0 <= k < es.len() && es[k].name == seq![e.name][0]);
        let k = choose|k: int| 0 <= k < es.len() && es[k].name == seq![e.name][0];
        assert(k == i) by {
            if k != i {
                assert(es[k].name == es[i as int].name);
            }
        }

        match ino {
            SpecInode::Dir(dch) => {
                lemma_dir_agree(img, sb, frags, ids, dch, comps, (fuel - 1) as nat);
                lemma_dir_unique(img, sb, frags, ids, dch, comps, (fuel - 1) as nat);
                let sub = spec_walk_dir(img, sb, frags, ids, dch, comps, (fuel - 1) as nat).unwrap();
                assert forall|t: int| 0 <= t < delta.len() implies spec_node_agrees_below(
                    img,
                    sb,
                    frags,
                    d,
                    #[trigger] delta[t],
                    prefix,
                ) by {
                    if t == 0 {
                    } else {
                        let n = sub[t - 1];
                        assert(delta[t] == n);
                        if n is File {
                            let c = spec_node_comps(n);
                            assert(comps_extend(n, comps));
                            assert(c.take(comps.len() as int) == comps);
                            let sfx = c.skip(prefix.len() as int);
                            assert(sfx[0] == c[prefix.len() as int]);
                            assert(c[prefix.len() as int] == comps[prefix.len() as int]);
                            assert(sfx[0] == e.name);
                            assert(exists|q: int| 0 <= q < es.len() && es[q].name == sfx[0]);
                            let q = choose|q: int| 0 <= q < es.len() && es[q].name == sfx[0];
                            assert(q == i) by {
                                if q != i {
                                    assert(es[q].name == es[i as int].name);
                                }
                            }
                            lemma_lookup_unfold(
                                img,
                                sb,
                                e.start_block as int,
                                e.offset as nat,
                                dch,
                                sfx.skip(1),
                            );
                            assert(sfx.skip(1) =~= c.skip(comps.len() as int));
                            assert(spec_node_agrees_below(img, sb, frags, dch, n, comps));
                        }
                    }
                }
            },
            SpecInode::File(f) => {
                assert forall|t: int| 0 <= t < delta.len() implies spec_node_agrees_below(
                    img,
                    sb,
                    frags,
                    d,
                    #[trigger] delta[t],
                    prefix,
                ) by {
                    assert(suffix.skip(1) =~= Seq::<Seq<u8>>::empty());
                    reveal(spec_lookup);
                    assert(spec_lookup(img, sb, e.start_block as int, e.offset as nat, suffix.skip(1))
                        == SpecLookup::Found(ino));
                }
            },
            SpecInode::Symlink(s) => {
            },
            SpecInode::Other(o) => {
            },
        }
        assert(forall|t: int|
            0 <= t < delta.len() ==> spec_node_agrees_below(img, sb, frags, d, #[trigger] delta[t], prefix));
        assert(forall|t: int|
            0 <= t < (acc + delta).len() ==> spec_node_agrees_below(
                img,
                sb,
                frags,
                d,
                #[trigger] (acc + delta)[t],
                prefix,
            ));
        lemma_entries_agree(img, sb, frags, ids, es, i + 1, prefix, fuel, acc + delta, d);
    }
}

proof fn lemma_dir_agree(
    img: Seq<u8>,
    sb: SuperBlock,
    frags: Seq<FragEntry>,
    ids: Seq<u32>,
    d: DirInode,
    prefix: Seq<Seq<u8>>,
    fuel: nat,
)
    requires
        spec_walk_dir(img, sb, frags, ids, d, prefix, fuel) is Some,
    ensures
        ({
            let ns = spec_walk_dir(img, sb, frags, ids, d, prefix, fuel).unwrap();
            forall|t: int|
                0 <= t < ns.len() ==> spec_node_agrees_below(img, sb, frags, d, #[trigger] ns[t], prefix)
        }),
    decreases fuel, 1int, 0int,
{
    reveal(spec_walk_dir);
    reveal(spec_walk_entries);
    reveal(spec_entry_nodes);
    let es = spec_dir_listing(img, sb, d).unwrap();
    assert(crate::dirtable::spec_names_unique(es)) by {
        reveal(crate::dirtable::spec_dir_listing);
    }
    lemma_entries_agree(img, sb, frags, ids, es, 0, prefix, fuel, Seq::empty(), d);
}

/// Whether a `File` node of the materialized tree agrees with single-path
/// lookup from the root: resolving the node's own components finds a file
/// inode whose resolved content equals the node's bytes. Every other node
/// kind agrees trivially.
pub open spec fn spec_extract_agrees(
    img: Seq<u8>,
    sb: SuperBlock,
    frags: Seq<FragEntry>,
    n: SpecNode,
) -> bool {
    match n {
        SpecNode::File { comps, bytes, .. } => (spec_lookup(
            img,
            sb,
            spec_root_block(sb),
            spec_root_off(sb),
            comps,
        ) matches SpecLookup::Found(ino) && (ino matches SpecInode::File(f) && spec_file_bytes(
            img,
            sb.compressor as int,
            frags,
            f,
            sb.block_size as nat,
        ) == Some(bytes))),
        _ => true,
    }
}

/// Single-path extraction and full-tree materialization agree: for every
/// `File` node the tree walk yields, looking its path up from the root finds
/// a file inode whose resolved content is exactly the node's bytes.
pub proof fn lemma_extract_agrees_with_filesystem(
    img: Seq<u8>,
    sb: SuperBlock,
    frags: Seq<FragEntry>,
    ids: Seq<u32>,
)
    requires
        spec_filesystem(img, sb, frags, ids) is Some,
    ensures
        ({
            let ns = spec_filesystem(img, sb, frags, ids).unwrap();
            forall|t: int|
                0 <= t < ns.len() ==> spec_extract_agrees(img, sb, frags, #[trigger] ns[t])
        }),
{
    let root = spec_inode_at(img, sb, spec_root_block(sb), spec_root_off(sb)).unwrap();
    let ns = spec_filesystem(img, sb, frags, ids).unwrap();
    match root {
        SpecInode::Dir(d) => {
            let fuel = (sb.inode_count + 1) as nat;
            lemma_dir_agree(img, sb, frags, ids, d, Seq::empty(), fuel);
            lemma_dir_unique(img, sb, frags, ids, d, Seq::empty(), fuel);
            assert forall|t: int| 0 <= t < ns.len() implies spec_extract_agrees(
                img,
                sb,
                frags,
                #[trigger] ns[t],
            ) by {
                if ns[t] is File {
                    let c = spec_node_comps(ns[t]);
                    assert(comps_extend(ns[t], Seq::empty()));
                    assert(c.skip(0) =~= c);
                    lemma_lookup_unfold(
                        img,
                        sb,
                        spec_root_block(sb),
                        spec_root_off(sb),
                        d,
                        c,
                    );
                }
            }
        },
        _ => {},
    }
}

} // verus!
