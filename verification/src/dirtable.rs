use vstd::prelude::*;

use crate::bytes::{bytes_eq, copy_range, le16, le32, read_le16, read_le32};
use crate::error::SquashfsError;
use crate::inode::DirInode;
use crate::metadata::{read_stream, spec_read_stream, MetaCache};
use crate::superblock::SuperBlock;

verus! {

/// One directory entry: a name and where the named object's inode record
/// sits. The on-disk form delta-encodes the inode reference against a
/// per-header base; the decoder reconstructs the absolute values.
#[derive(Clone, Debug)]
pub struct DirEntry {
    /// The entry's name: raw bytes, not necessarily valid encoded text.
    pub name: Vec<u8>,
    /// Start of the metadata block holding the inode record, relative to the
    /// inode table.
    pub start_block: u32,
    /// Byte offset of the inode record within that block's decompressed
    /// bytes.
    pub offset: u16,
    /// The absolute inode number: the header's base plus the entry's delta.
    pub inode_number: u32,
    /// The type tag the directory stores for the entry.
    pub kind: u16,
}

/// The model of one directory entry.
pub struct SpecDirEntry {
    pub name: Seq<u8>,
    pub start_block: u32,
    pub offset: u16,
    pub inode_number: u32,
    pub kind: u16,
}

impl View for DirEntry {
    type V = SpecDirEntry;

    open spec fn view(&self) -> SpecDirEntry {
        SpecDirEntry {
            name: self.name@,
            start_block: self.start_block,
            offset: self.offset,
            inode_number: self.inode_number,
            kind: self.kind,
        }
    }
}

/// The models of a sequence of decoded entries.
pub open spec fn listing_view(v: Seq<DirEntry>) -> Seq<SpecDirEntry> {
    Seq::new(v.len(), |i: int| v[i]@)
}

/// The signed delta a directory entry stores against its header's base inode
/// number.
pub open spec fn spec_delta(raw: int) -> int {
    if raw >= 0x8000 {
        raw - 0x10000
    } else {
        raw
    }
}

/// Parses `k` entries of one directory run starting at byte `pos` of `data`,
/// against the run's base inode block and base inode number, appending to
/// `acc`. Yields the grown accumulator and the position after the run.
/// `None` on a truncated entry, an inode number outside the 32-bit range, or
/// a name holding a path separator.
pub open spec fn spec_parse_entries(
    data: Seq<u8>,
    pos: nat,
    start_block: u32,
    base_inode: int,
    k: nat,
    acc: Seq<SpecDirEntry>,
) -> Option<(Seq<SpecDirEntry>, nat)>
    decreases k,
{
    if k == 0 {
        Some((acc, pos))
    } else if pos + 8 > data.len() {
        None
    } else {
        let eoff = le16(data, pos as int);
        let ino = base_inode + spec_delta(le16(data, pos as int + 2));
        let etype = le16(data, pos as int + 4);
        let nsz = le16(data, pos as int + 6) + 1;
        if pos + 8 + nsz > data.len() {
            None
        } else {
            let name = data.subrange(pos as int + 8, pos as int + 8 + nsz);
            if ino < 0 || ino > 0xFFFFFFFF || (exists|q: int| 0 <= q < name.len() && name[q] == 47)
             {
                None
            } else {
                let e = SpecDirEntry {
                    name: name,
                    start_block: start_block,
                    offset: eoff as u16,
                    inode_number: ino as u32,
                    kind: etype as u16,
                };
                spec_parse_entries(
                    data,
                    (pos + 8 + nsz) as nat,
                    start_block,
                    base_inode,
                    (k - 1) as nat,
                    acc.push(e),
                )
            }
        }
    }
}

/// Parses directory runs from byte `pos` of `data` to its end: each run is a
/// header (an entry count, a base inode block, a base inode number) followed
/// by that many entries. `None` on a truncated header, a count above the
/// format's 256-entry cap, or a failing run.
pub open spec fn spec_parse_dir(
    data: Seq<u8>,
    pos: nat,
    acc: Seq<SpecDirEntry>,
    fuel: nat,
) -> Option<Seq<SpecDirEntry>>
    decreases fuel,
{
    if pos >= data.len() {
        Some(acc)
    } else if fuel == 0 {
        None
    } else if pos + 12 > data.len() {
        None
    } else {
        let count = le32(data, pos as int) + 1;
        let start_block = le32(data, pos as int + 4) as u32;
        let base_inode = le32(data, pos as int + 8);
        if count > 256 {
            None
        } else {
            match spec_parse_entries(
                data,
                (pos + 12) as nat,
                start_block,
                base_inode,
                count as nat,
                acc,
            ) {
                None => None,
                Some((acc2, pos2)) => spec_parse_dir(data, pos2, acc2, (fuel - 1) as nat),
            }
        }
    }
}

/// A decoded entry name is non-empty and free of the path separator.
pub open spec fn name_ok(e: SpecDirEntry) -> bool {
    e.name.len() >= 1 && !(exists|q: int| 0 <= q < e.name.len() && e.name[q] == 47)
}

proof fn lemma_entries_names_ok(
    data: Seq<u8>,
    pos: nat,
    start_block: u32,
    base_inode: int,
    k: nat,
    acc: Seq<SpecDirEntry>,
)
    requires
        spec_parse_entries(data, pos, start_block, base_inode, k, acc) is Some,
        forall|j: int| 0 <= j < acc.len() ==> name_ok(#[trigger] acc[j]),
    ensures
        forall|j: int|
            0 <= j < spec_parse_entries(data, pos, start_block, base_inode, k, acc).unwrap().0.len()
                ==> name_ok(
                #[trigger] spec_parse_entries(data, pos, start_block, base_inode, k, acc).unwrap().0[j],
            ),
    decreases k,
{
    if k > 0 {
        let nsz = crate::bytes::le16(data, pos as int + 6) + 1;
        let name = data.subrange(pos as int + 8, pos as int + 8 + nsz);
        let e = spec_parse_entries(data, pos, start_block, base_inode, k, acc);
        let ino = base_inode + spec_delta(crate::bytes::le16(data, pos as int + 2));
        let entry = SpecDirEntry {
            name: name,
            start_block: start_block,
            offset: crate::bytes::le16(data, pos as int) as u16,
            inode_number: ino as u32,
            kind: crate::bytes::le16(data, pos as int + 4) as u16,
        };
        assert(name_ok(entry));
        assert(forall|j: int|
            0 <= j < acc.push(entry).len() ==> name_ok(#[trigger] acc.push(entry)[j]));
        lemma_entries_names_ok(
            data,
            (pos + 8 + nsz) as nat,
            start_block,
            base_inode,
            (k - 1) as nat,
            acc.push(entry),
        );
    }
}

proof fn lemma_parse_names_ok(data: Seq<u8>, pos: nat, acc: Seq<SpecDirEntry>, fuel: nat)
    requires
        spec_parse_dir(data, pos, acc, fuel) is Some,
        forall|j: int| 0 <= j < acc.len() ==> name_ok(#[trigger] acc[j]),
    ensures
        forall|j: int|
            0 <= j < spec_parse_dir(data, pos, acc, fuel).unwrap().len() ==> name_ok(
                #[trigger] spec_parse_dir(data, pos, acc, fuel).unwrap()[j],
            ),
    decreases fuel,
{
    if pos >= data.len() {
    } else {
        let count = (crate::bytes::le32(data, pos as int) + 1) as nat;
        let start_block = crate::bytes::le32(data, pos as int + 4) as u32;
        let base_inode = crate::bytes::le32(data, pos as int + 8);
        let run = spec_parse_entries(data, (pos + 12) as nat, start_block, base_inode, count, acc);
        lemma_entries_names_ok(data, (pos + 12) as nat, start_block, base_inode, count, acc);
        lemma_parse_names_ok(data, run.unwrap().1, run.unwrap().0, (fuel - 1) as nat);
    }
}

/// No two entries of one directory share a name.
pub open spec fn spec_names_unique(es: Seq<SpecDirEntry>) -> bool {
    forall|i: int, j: int| 0 <= i < j < es.len() ==> es[i].name != es[j].name
}

/// The model of a directory listing: the entries that a directory inode's
/// stream position and byte count decode to, `None` when the stream fails,
/// the run structure is inconsistent, or two entries share a name.
#[verifier::opaque]
pub open spec fn spec_dir_listing(img: Seq<u8>, sb: SuperBlock, d: DirInode) -> Option<
    Seq<SpecDirEntry>,
> {
    if d.size < 3 {
        None
    } else {
        let n = d.size - 3;
        if d.offset + n > usize::MAX {
            None
        } else {
            match spec_read_stream(
                img,
                sb.compressor as int,
                sb.dir_table + d.start_block,
                (d.offset + n) as nat,
            ) {
                None => None,
                Some(s0) => {
                    let data = s0.skip(d.offset as int);
                    match spec_parse_dir(data, 0, Seq::empty(), data.len()) {
                        None => None,
                        Some(es) => if spec_names_unique(es) {
                            Some(es)
                        } else {
                            None
                        },
                    }
                },
            }
        }
    }
}

/// Whether a name holds the path separator byte.
fn contains_slash(v: &Vec<u8>) -> (r: bool)
    ensures
        r <==> exists|q: int| 0 <= q < v@.len() && v@[q] == 47,
{
    let mut q: usize = 0;
    while q < v.len()
        invariant
            q <= v@.len(),
            forall|j: int| 0 <= j < q ==> v@[j] != 47,
        decreases v@.len() - q,
    {
        if v[q] == 47 {
            return true;
        }
        q = q + 1;
    }
    false
}

/// Decodes a directory inode's entry listing. Succeeds exactly when the
/// model does; in particular a listing with two equal names is rejected as
/// malformed, so every listing this function returns has pairwise distinct
/// names.
#[verifier::rlimit(100)]
pub fn decode_directory(
    img: &Vec<u8>,
    sb: &SuperBlock,
    cache: &mut MetaCache,
    d: &DirInode,
) -> (r: Result<Vec<DirEntry>, SquashfsError>)
    requires
        old(cache).wf(img@, sb.compressor as int),
    ensures
        final(cache).wf(img@, sb.compressor as int),
        r matches Ok(v) ==> spec_dir_listing(img@, *sb, *d) == Some(listing_view(v@)),
        r is Err <==> spec_dir_listing(img@, *sb, *d) is None,
        r matches Ok(v) ==> spec_names_unique(listing_view(v@)),
        r matches Ok(v) ==> forall|j: int|
            0 <= j < v@.len() ==> name_ok(#[trigger] listing_view(v@)[j]),
        r matches Err(e) ==> (e == SquashfsError::TruncatedBlock || e
            == SquashfsError::DecompressionFailed || e == SquashfsError::UnsupportedCodec || e
            == SquashfsError::MalformedDirectory),
{
    proof {
        reveal(spec_dir_listing);
    }
    let imglen = img.len();
    if d.size < 3 {
        return Err(SquashfsError::MalformedDirectory);
    }
    let n64: u64 = d.size as u64 - 3;
    if d.offset as u64 + n64 > usize::MAX as u64 {
        return Err(SquashfsError::MalformedDirectory);
    }
    let n = n64 as usize;
    if n == 0 && d.offset == 0 {
        // Nothing to read: the model yields the empty listing.
        let v: Vec<DirEntry> = Vec::new();
        proof {
            let data = Seq::<u8>::empty().skip(0);
            assert(data.len() == 0);
            assert(spec_parse_dir(data, 0, Seq::empty(), data.len()) == Some(
                Seq::<SpecDirEntry>::empty(),
            ));
            assert(listing_view(v@) =~= Seq::<SpecDirEntry>::empty());
        }
        return Ok(v);
    }
    if d.start_block as u64 > u64::MAX - sb.dir_table {
        proof {
            assert(sb.dir_table + d.start_block + 2 > img@.len());
            assert(spec_read_stream(
                img@,
                sb.compressor as int,
                sb.dir_table + d.start_block,
                (d.offset + n) as nat,
            ) is None);
        }
        return Err(SquashfsError::TruncatedBlock);
    }
    let data = read_stream(
        img,
        sb.compressor,
        cache,
        sb.dir_table + d.start_block as u64,
        d.offset as usize,
        n,
    )?;
    let entries = parse_directory_data(&data)?;
    proof {
        lemma_parse_names_ok(data@, 0, Seq::empty(), data@.len());
        assert(spec_dir_listing(img@, *sb, *d) == (if spec_names_unique(listing_view(entries@)) {
            Some(listing_view(entries@))
        } else {
            None::<Seq<SpecDirEntry>>
        }));
    }

    // Reject duplicate names so that every returned listing is unambiguous.
    let ghost goal = spec_dir_listing(img@, *sb, *d);
    let mut i: usize = 0;
    while i < entries.len()
        invariant
            cache.wf(img@, sb.compressor as int),
            goal == (if spec_names_unique(listing_view(entries@)) {
                Some(listing_view(entries@))
            } else {
                None::<Seq<SpecDirEntry>>
            }),
            goal == spec_dir_listing(img@, *sb, *d),
            i <= entries@.len(),
            forall|a: int, b: int|
                0 <= a < b < entries@.len() && a < i ==> listing_view(entries@)[a].name
                    != listing_view(entries@)[b].name,
        decreases entries@.len() - i,
    {
        let mut j: usize = i + 1;
        while j < entries.len()
            invariant
                cache.wf(img@, sb.compressor as int),
                goal == (if spec_names_unique(listing_view(entries@)) {
                    Some(listing_view(entries@))
                } else {
                    None::<Seq<SpecDirEntry>>
                }),
                goal == spec_dir_listing(img@, *sb, *d),
                i < entries@.len(),
                i < j <= entries@.len(),
                forall|b: int|
                    i < b < j ==> listing_view(entries@)[i as int].name != listing_view(
                        entries@,
                    )[b].name,
            decreases entries@.len() - j,
        {
            if bytes_eq(&entries[i].name, &entries[j].name) {
                proof {
                    assert(listing_view(entries@)[i as int].name == listing_view(
                        entries@,
                    )[j as int].name);
                    assert(!spec_names_unique(listing_view(entries@)));
                }
                return Err(SquashfsError::MalformedDirectory);
            }
            j = j + 1;
        }
        i = i + 1;
    }
    assert(spec_names_unique(listing_view(entries@)));
    Ok(entries)
}

/// Parses the decompressed bytes of one directory listing into entries.
#[verifier::rlimit(100)]
fn parse_directory_data(data: &Vec<u8>) -> (r: Result<Vec<DirEntry>, SquashfsError>)
    ensures
        r matches Ok(v) ==> spec_parse_dir(data@, 0, Seq::empty(), data@.len()) == Some(
            listing_view(v@),
        ),
        r is Err <==> spec_parse_dir(data@, 0, Seq::empty(), data@.len()) is None,
        r matches Err(e) ==> e == SquashfsError::MalformedDirectory,
{
    let len = data.len();
    let mut acc: Vec<DirEntry> = Vec::new();
    let mut pos: usize = 0;
    let mut fuel: usize = len;
    proof {
        assert(listing_view(acc@) =~= Seq::<SpecDirEntry>::empty());
    }
    while pos < len
        invariant
            len == data@.len(),
            pos <= len,
            fuel <= len,
            spec_parse_dir(data@, 0, Seq::empty(), data@.len()) == spec_parse_dir(
                data@,
                pos as nat,
                listing_view(acc@),
                fuel as nat,
            ),
        decreases fuel,
    {
        if fuel == 0 {
            return Err(SquashfsError::MalformedDirectory);
        }
        if len - pos < 12 {
            return Err(SquashfsError::MalformedDirectory);
        }
        let count_raw = read_le32(data, pos);
        if count_raw > 255 {
            return Err(SquashfsError::MalformedDirectory);
        }
        let count = (count_raw + 1) as usize;
        let start_block = read_le32(data, pos + 4);
        let base_inode = read_le32(data, pos + 8);
        let ghost hdr: nat = pos as nat;
        let ghost fuel_hdr: nat = fuel as nat;
        let ghost acc_run = listing_view(acc@);
        pos = pos + 12;
        let mut k: usize = 0;
        while k < count
            invariant
                len == data@.len(),
                pos <= len,
                k <= count,
                count <= 256,
                count == le32(data@, hdr as int) + 1,
                start_block == le32(data@, hdr as int + 4),
                base_inode == le32(data@, hdr as int + 8),
                hdr + 12 <= len,
                hdr < len,
                fuel == fuel_hdr,
                0 < fuel_hdr <= len,
                spec_parse_dir(data@, 0, Seq::empty(), data@.len()) == spec_parse_dir(
                    data@,
                    hdr,
                    acc_run,
                    fuel_hdr,
                ),
                spec_parse_entries(
                    data@,
                    (hdr + 12) as nat,
                    start_block,
                    base_inode as int,
                    count as nat,
                    acc_run,
                ) == spec_parse_entries(
                    data@,
                    pos as nat,
                    start_block,
                    base_inode as int,
                    (count - k) as nat,
                    listing_view(acc@),
                ),
            decreases count - k,
        {
            if len - pos < 8 {
                return Err(SquashfsError::MalformedDirectory);
            }
            let eoff = read_le16(data, pos);
            let raw_delta = read_le16(data, pos + 2);
            let delta: i64 = if raw_delta >= 0x8000 {
                raw_delta as i64 - 0x10000
            } else {
                raw_delta as i64
            };
            let etype = read_le16(data, pos + 4);
            let nsz = read_le16(data, pos + 6) as usize + 1;
            if nsz > len - (pos + 8) {
                return Err(SquashfsError::MalformedDirectory);
            }
            let ino64: i64 = base_inode as i64 + delta;
            let name = copy_range(data, pos + 8, nsz);
            if ino64 < 0 || ino64 > 0xFFFFFFFF || contains_slash(&name) {
                return Err(SquashfsError::MalformedDirectory);
            }
            let e = DirEntry {
                name,
                start_block,
                offset: eoff,
                inode_number: ino64 as u32,
                kind: etype,
            };
            let ghost prev_acc = listing_view(acc@);
            acc.push(e);
            proof {
                assert(listing_view(acc@) =~= prev_acc.push(e@));
            }
            pos = pos + 8 + nsz;
            k = k + 1;
        }
        fuel = fuel - 1;
    }
    assert(spec_parse_dir(data@, pos as nat, listing_view(acc@), fuel as nat) == Some(listing_view(
        acc@,
    )));
    Ok(acc)
}

} // verus!
