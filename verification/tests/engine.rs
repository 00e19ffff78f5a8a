use squashfs_reader::error::SquashfsError;
use squashfs_reader::extract::Node;
use squashfs_reader::squashfs::Squashfs;


fn err_of<T>(r: Result<T, SquashfsError>) -> SquashfsError {
    match r {
        Err(e) => e,
        Ok(_) => panic!("expected an error"),
    }
}

fn push_u16(v: &mut Vec<u8>, x: u16) {
    v.extend_from_slice(&x.to_le_bytes());
}

fn push_u32(v: &mut Vec<u8>, x: u32) {
    v.extend_from_slice(&x.to_le_bytes());
}

fn push_u64(v: &mut Vec<u8>, x: u64) {
    v.extend_from_slice(&x.to_le_bytes());
}

fn zlib_compress(data: &[u8]) -> Vec<u8> {
    let mut enc = flate2::read::ZlibEncoder::new(data, flate2::Compression::default());
    let mut out = Vec::new();
    std::io::Read::read_to_end(&mut enc, &mut out).unwrap();
    out
}

fn meta_block(data: &[u8], compress: bool) -> Vec<u8> {
    let mut out = Vec::new();
    if compress {
        let c = zlib_compress(data);
        push_u16(&mut out, c.len() as u16);
        out.extend_from_slice(&c);
    } else {
        push_u16(&mut out, 0x8000 | data.len() as u16);
        out.extend_from_slice(data);
    }
    out
}

fn inode_header(v: &mut Vec<u8>, kind: u16, uid_idx: u16, ino: u32) {
    push_u16(v, kind);
    push_u16(v, 0o644);
    push_u16(v, uid_idx);
    push_u16(v, 0);
    push_u32(v, 0);
    push_u32(v, ino);
}

fn superblock(
    inode_count: u32,
    block_size: u32,
    block_log: u16,
    frag_count: u32,
    compressor: u16,
    root_off: u16,
    total: u64,
    id_table: u64,
    inode_table: u64,
    dir_table: u64,
    frag_table: u64,
) -> Vec<u8> {
    let mut sb = Vec::new();
    push_u32(&mut sb, 0x73717368);
    push_u32(&mut sb, inode_count);
    push_u32(&mut sb, 0);
    push_u32(&mut sb, block_size);
    push_u32(&mut sb, frag_count);
    push_u16(&mut sb, compressor);
    push_u16(&mut sb, block_log);
    push_u16(&mut sb, 0);
    push_u16(&mut sb, 1); // id count
    push_u16(&mut sb, 4);
    push_u16(&mut sb, 0);
    push_u64(&mut sb, root_off as u64);
    push_u64(&mut sb, total);
    push_u64(&mut sb, id_table);
    push_u64(&mut sb, u64::MAX);
    push_u64(&mut sb, inode_table);
    push_u64(&mut sb, dir_table);
    push_u64(&mut sb, frag_table);
    push_u64(&mut sb, u64::MAX);
    assert_eq!(sb.len(), 96);
    sb
}

/// Root -> dir1 -> { a.txt = b"test" (fragment), link -> a.txt }.
fn build_tree_image(inode_compressed: bool, compressor: u16, uid_idx: u16, frag_start: u64) -> Vec<u8> {
    let mut img = vec![0u8; 96];

    // Fragment data block holding "test", stored uncompressed.
    assert_eq!(img.len() as u64, 96);
    img.extend_from_slice(b"test");

    // Inode table: a.txt @0, link @32, dir1 @61, root @93.
    let mut inodes = Vec::new();
    inode_header(&mut inodes, 2, uid_idx, 2); // a.txt
    push_u32(&mut inodes, 0); // blocks_start
    push_u32(&mut inodes, 0); // frag index
    push_u32(&mut inodes, 0); // offset in fragment
    push_u32(&mut inodes, 4); // size
    assert_eq!(inodes.len(), 32);
    inode_header(&mut inodes, 3, 0, 3); // link
    push_u32(&mut inodes, 1);
    push_u32(&mut inodes, 5);
    inodes.extend_from_slice(b"a.txt");
    assert_eq!(inodes.len(), 61);
    let dir1_listing_len: u16 = 12 + 13 + 12;
    inode_header(&mut inodes, 1, 0, 4); // dir1
    push_u32(&mut inodes, 0); // start block in dir table
    push_u32(&mut inodes, 2); // nlink
    push_u16(&mut inodes, 3 + dir1_listing_len);
    push_u16(&mut inodes, 0); // offset in dir table block
    push_u32(&mut inodes, 5); // parent
    assert_eq!(inodes.len(), 93);
    let root_listing_len: u16 = 12 + 12;
    inode_header(&mut inodes, 1, 0, 5); // root
    push_u32(&mut inodes, 0);
    push_u32(&mut inodes, 2);
    push_u16(&mut inodes, 3 + root_listing_len);
    push_u16(&mut inodes, dir1_listing_len); // root listing follows dir1's
    push_u32(&mut inodes, 6);

    let inode_table = img.len() as u64;
    img.extend_from_slice(&meta_block(&inodes, inode_compressed));

    // Directory table: dir1's listing, then root's.
    let mut dirs = Vec::new();
    push_u32(&mut dirs, 1); // two entries
    push_u32(&mut dirs, 0); // inode block of the run's base
    push_u32(&mut dirs, 2); // base inode number
    push_u16(&mut dirs, 0); // a.txt inode offset
    push_u16(&mut dirs, 0); // delta 0 -> inode 2
    push_u16(&mut dirs, 2);
    push_u16(&mut dirs, 4);
    dirs.extend_from_slice(b"a.txt");
    push_u16(&mut dirs, 32); // link inode offset
    push_u16(&mut dirs, 1); // delta 1 -> inode 3
    push_u16(&mut dirs, 3);
    push_u16(&mut dirs, 3);
    dirs.extend_from_slice(b"link");
    assert_eq!(dirs.len() as u16, dir1_listing_len);
    push_u32(&mut dirs, 0); // one entry
    push_u32(&mut dirs, 0);
    push_u32(&mut dirs, 4);
    push_u16(&mut dirs, 61); // dir1 inode offset
    push_u16(&mut dirs, 0);
    push_u16(&mut dirs, 1);
    push_u16(&mut dirs, 3);
    dirs.extend_from_slice(b"dir1");
    let dir_table = img.len() as u64;
    img.extend_from_slice(&meta_block(&dirs, false));

    // Fragment table: one entry, behind one pointer.
    let mut frag = Vec::new();
    push_u64(&mut frag, frag_start);
    push_u32(&mut frag, 0x0100_0004); // four bytes, stored uncompressed
    push_u32(&mut frag, 0);
    let frag_block = img.len() as u64;
    img.extend_from_slice(&meta_block(&frag, false));
    let frag_table = img.len() as u64;
    push_u64(&mut img, frag_block);

    // Id table: one id.
    let mut ids = Vec::new();
    push_u32(&mut ids, 1000);
    let id_block = img.len() as u64;
    img.extend_from_slice(&meta_block(&ids, false));
    let id_table = img.len() as u64;
    push_u64(&mut img, id_block);

    let total = img.len() as u64;
    let sb = superblock(
        4, 131072, 17, 1, compressor, 93, total, id_table, inode_table, dir_table, frag_table,
    );
    img[..96].copy_from_slice(&sb);
    img
}

fn tree_image() -> Vec<u8> {
    build_tree_image(false, 1, 0, 96)
}

#[test]
fn tree_scenario_into_filesystem() {
    let fs = Squashfs::from_bytes(tree_image()).unwrap();
    let nodes = fs.into_filesystem().unwrap();
    assert_eq!(nodes.len(), 3);
    match &nodes[0] {
        Node::Path(p) => {
            assert_eq!(p.path, b"dir1".to_vec());
            assert_eq!(p.meta.uid, 1000);
        },
        _ => panic!("expected a directory node first"),
    }
    match &nodes[1] {
        Node::File(f) => {
            assert_eq!(f.path, b"dir1/a.txt".to_vec());
            assert_eq!(f.bytes, b"test".to_vec());
        },
        _ => panic!("expected the file second"),
    }
    match &nodes[2] {
        Node::Symlink(s) => {
            assert_eq!(s.path, b"dir1/link".to_vec());
            assert_eq!(s.link, b"a.txt".to_vec());
        },
        _ => panic!("expected the symlink third"),
    }
}

#[test]
fn tree_scenario_extract_file() {
    let mut fs = Squashfs::from_bytes(tree_image()).unwrap();
    let (path, bytes) = fs.extract_file(&b"dir1/a.txt".to_vec()).unwrap();
    assert_eq!(path, b"dir1/a.txt".to_vec());
    assert_eq!(bytes, b"test".to_vec());
    let err = fs.extract_file(&b"dir1/missing.txt".to_vec()).unwrap_err();
    assert_eq!(err, SquashfsError::PathNotFound);
}

#[test]
fn extract_and_filesystem_agree() {
    let mut fs = Squashfs::from_bytes(tree_image()).unwrap();
    let (_, direct) = fs.extract_file(&b"dir1/a.txt".to_vec()).unwrap();
    let fs2 = Squashfs::from_bytes(tree_image()).unwrap();
    for node in fs2.into_filesystem().unwrap() {
        if let Node::File(f) = node {
            assert_eq!(f.bytes, direct);
        }
    }
}

#[test]
fn paths_are_unique() {
    let fs = Squashfs::from_bytes(tree_image()).unwrap();
    let nodes = fs.into_filesystem().unwrap();
    let paths: Vec<&Vec<u8>> = nodes.iter().map(|n| n.path()).collect();
    for i in 0..paths.len() {
        for j in i + 1..paths.len() {
            assert_ne!(paths[i], paths[j]);
        }
    }
}

#[test]
fn missing_intermediate_is_path_not_found() {
    let mut fs = Squashfs::from_bytes(tree_image()).unwrap();
    let err = fs.extract_file(&b"nosuchdir/a.txt".to_vec()).unwrap_err();
    assert_eq!(err, SquashfsError::PathNotFound);
}

#[test]
fn file_as_intermediate_is_not_a_directory() {
    let mut fs = Squashfs::from_bytes(tree_image()).unwrap();
    let err = fs.extract_file(&b"dir1/a.txt/x".to_vec()).unwrap_err();
    assert_eq!(err, SquashfsError::NotADirectory);
}

#[test]
fn directory_target_is_not_a_file() {
    let mut fs = Squashfs::from_bytes(tree_image()).unwrap();
    let err = fs.extract_file(&b"dir1".to_vec()).unwrap_err();
    assert_eq!(err, SquashfsError::NotAFile);
}

#[test]
fn normalizes_extra_separators() {
    let mut fs = Squashfs::from_bytes(tree_image()).unwrap();
    let (path, bytes) = fs.extract_file(&b"/dir1//a.txt/".to_vec()).unwrap();
    assert_eq!(path, b"dir1/a.txt".to_vec());
    assert_eq!(bytes, b"test".to_vec());
}

#[test]
fn corrupted_magic_is_malformed_header() {
    let mut img = tree_image();
    img[0] ^= 0xff;
    let err = err_of(Squashfs::from_bytes(img));
    assert_eq!(err, SquashfsError::MalformedHeader);
}

#[test]
fn wrong_version_is_malformed_header() {
    let mut img = tree_image();
    img[28] = 3;
    let err = err_of(Squashfs::from_bytes(img));
    assert_eq!(err, SquashfsError::MalformedHeader);
}

#[test]
fn opens_at_nonzero_offset() {
    let mut data = vec![0xEEu8; 1000];
    data.extend_from_slice(&tree_image());
    let mut fs = Squashfs::from_bytes_with_offset(data, 1000).unwrap();
    let (_, bytes) = fs.extract_file(&b"dir1/a.txt".to_vec()).unwrap();
    assert_eq!(bytes, b"test".to_vec());
}

#[test]
fn offset_past_end_is_malformed_header() {
    let err = err_of(Squashfs::from_bytes_with_offset(vec![0u8; 10], 11));
    assert_eq!(err, SquashfsError::MalformedHeader);
}

#[test]
fn compressed_metadata_blocks_decode() {
    let mut fs = Squashfs::from_bytes(build_tree_image(true, 1, 0, 96)).unwrap();
    let (path, bytes) = fs.extract_file(&b"dir1/a.txt".to_vec()).unwrap();
    assert_eq!(path, b"dir1/a.txt".to_vec());
    assert_eq!(bytes, b"test".to_vec());
}

#[test]
fn unsupported_codec_is_reported() {
    // Compressor id 4 (xz) with an inode block that carries the compressed
    // flag: opening succeeds (the other tables are stored), the first decode
    // through the codec registry fails.
    let mut fs = Squashfs::from_bytes(build_tree_image(true, 4, 0, 96)).unwrap();
    let err = fs.extract_file(&b"dir1/a.txt".to_vec()).unwrap_err();
    assert_eq!(err, SquashfsError::UnsupportedCodec);
}

#[test]
fn garbage_compressed_block_fails_decompression() {
    // A "compressed" inode block whose bytes are not a zlib stream.
    let mut img = build_tree_image(false, 1, 0, 96);
    let inode_table = u64::from_le_bytes(img[64..72].try_into().unwrap()) as usize;
    img[inode_table + 1] &= 0x7f; // clear the stored-uncompressed bit
    let mut fs = Squashfs::from_bytes(img).unwrap();
    let err = fs.extract_file(&b"dir1/a.txt".to_vec()).unwrap_err();
    assert_eq!(err, SquashfsError::DecompressionFailed);
}

#[test]
fn truncated_input_is_truncated_block() {
    let img = tree_image();
    let inode_table = u64::from_le_bytes(img[64..72].try_into().unwrap()) as usize;
    let mut short = img.clone();
    short.truncate(inode_table + 1);
    // Keep the superblock's declared offsets within the shorter input.
    let err = match Squashfs::from_bytes(short) {
        Err(e) => e,
        Ok(mut fs) => err_of(fs.extract_file(&b"dir1/a.txt".to_vec())),
    };
    assert!(err == SquashfsError::TruncatedBlock || err == SquashfsError::MalformedHeader);
}

#[test]
fn fragment_past_end_is_truncated_file_data() {
    let mut fs = Squashfs::from_bytes(build_tree_image(false, 1, 0, 1 << 40)).unwrap();
    let err = fs.extract_file(&b"dir1/a.txt".to_vec()).unwrap_err();
    assert_eq!(err, SquashfsError::TruncatedFileData);
}

#[test]
fn bad_id_index_is_malformed_inode() {
    // uid index 5 with a one-entry id table.
    let fs = Squashfs::from_bytes(build_tree_image(false, 1, 5, 96)).unwrap();
    let err = err_of(fs.into_filesystem());
    assert_eq!(err, SquashfsError::MalformedInode);
}

#[test]
fn unknown_inode_type_is_reported() {
    let mut img = tree_image();
    let inode_table = u64::from_le_bytes(img[64..72].try_into().unwrap()) as usize;
    // a.txt's record starts at offset 0 of the (uncompressed) inode block.
    img[inode_table + 2] = 99;
    let mut fs = Squashfs::from_bytes(img).unwrap();
    let err = fs.extract_file(&b"dir1/a.txt".to_vec()).unwrap_err();
    assert_eq!(err, SquashfsError::UnknownInodeType);
}

#[test]
fn duplicate_names_are_malformed_directory() {
    let fs = Squashfs::from_bytes(build_tree_image_dup()).unwrap();
    let err = err_of(fs.into_filesystem());
    assert_eq!(err, SquashfsError::MalformedDirectory);
}

/// Like the tree image, but dir1 lists "a.txt" twice.
fn build_tree_image_dup() -> Vec<u8> {
    let mut img = vec![0u8; 96];
    img.extend_from_slice(b"test");
    let mut inodes = Vec::new();
    inode_header(&mut inodes, 2, 0, 2);
    push_u32(&mut inodes, 0);
    push_u32(&mut inodes, 0);
    push_u32(&mut inodes, 0);
    push_u32(&mut inodes, 4);
    let dir1_listing_len: u16 = 12 + 13 + 13;
    inode_header(&mut inodes, 1, 0, 4);
    push_u32(&mut inodes, 0);
    push_u32(&mut inodes, 2);
    push_u16(&mut inodes, 3 + dir1_listing_len);
    push_u16(&mut inodes, 0);
    push_u32(&mut inodes, 5);
    let dir1_off: u16 = 32;
    let root_listing_len: u16 = 12 + 12;
    let root_off: u16 = 32 + 32;
    inode_header(&mut inodes, 1, 0, 5);
    push_u32(&mut inodes, 0);
    push_u32(&mut inodes, 2);
    push_u16(&mut inodes, 3 + root_listing_len);
    push_u16(&mut inodes, dir1_listing_len);
    push_u32(&mut inodes, 6);
    let inode_table = img.len() as u64;
    img.extend_from_slice(&meta_block(&inodes, false));

    let mut dirs = Vec::new();
    push_u32(&mut dirs, 1);
    push_u32(&mut dirs, 0);
    push_u32(&mut dirs, 2);
    for _ in 0..2 {
        push_u16(&mut dirs, 0);
        push_u16(&mut dirs, 0);
        push_u16(&mut dirs, 2);
        push_u16(&mut dirs, 4);
        dirs.extend_from_slice(b"a.txt");
    }
    assert_eq!(dirs.len() as u16, dir1_listing_len);
    push_u32(&mut dirs, 0);
    push_u32(&mut dirs, 0);
    push_u32(&mut dirs, 4);
    push_u16(&mut dirs, dir1_off);
    push_u16(&mut dirs, 0);
    push_u16(&mut dirs, 1);
    push_u16(&mut dirs, 3);
    dirs.extend_from_slice(b"dir1");
    let dir_table = img.len() as u64;
    img.extend_from_slice(&meta_block(&dirs, false));

    let mut frag = Vec::new();
    push_u64(&mut frag, 96);
    push_u32(&mut frag, 0x0100_0004);
    push_u32(&mut frag, 0);
    let frag_block = img.len() as u64;
    img.extend_from_slice(&meta_block(&frag, false));
    let frag_table = img.len() as u64;
    push_u64(&mut img, frag_block);

    let mut idsb = Vec::new();
    push_u32(&mut idsb, 1000);
    let id_block = img.len() as u64;
    img.extend_from_slice(&meta_block(&idsb, false));
    let id_table = img.len() as u64;
    push_u64(&mut img, id_block);

    let total = img.len() as u64;
    let sb = superblock(
        3, 131072, 17, 1, 1, root_off, total, id_table, inode_table, dir_table, frag_table,
    );
    img[..96].copy_from_slice(&sb);
    img
}

/// Root -> { big.bin (one full 4 KiB block plus a 4-byte fragment tail),
/// empty.bin (zero bytes), emptydir }.
fn build_misc_image() -> Vec<u8> {
    let mut img = vec![0u8; 96];

    let blocks_start = img.len() as u64;
    img.extend_from_slice(&[b'A'; 4096]);
    let frag_start = img.len() as u64;
    img.extend_from_slice(b"tail");

    let mut inodes = Vec::new();
    // big.bin @0
    inode_header(&mut inodes, 2, 0, 2);
    push_u32(&mut inodes, blocks_start as u32);
    push_u32(&mut inodes, 0);
    push_u32(&mut inodes, 0);
    push_u32(&mut inodes, 4100);
    push_u32(&mut inodes, 0x0100_1000); // one stored block of 4096 bytes
    let empty_off: u16 = 36;
    // empty.bin @36
    inode_header(&mut inodes, 2, 0, 3);
    push_u32(&mut inodes, 0);
    push_u32(&mut inodes, u32::MAX); // no fragment
    push_u32(&mut inodes, 0);
    push_u32(&mut inodes, 0);
    let emptydir_off: u16 = 36 + 32;
    // emptydir @68
    inode_header(&mut inodes, 1, 0, 4);
    push_u32(&mut inodes, 0);
    push_u32(&mut inodes, 2);
    push_u16(&mut inodes, 3); // empty listing
    push_u16(&mut inodes, 0);
    push_u32(&mut inodes, 5);
    let root_off: u16 = 68 + 32;
    let root_listing_len: u16 = 12 + (8 + 7) + (8 + 9) + (8 + 8);
    inode_header(&mut inodes, 1, 0, 5);
    push_u32(&mut inodes, 0);
    push_u32(&mut inodes, 2);
    push_u16(&mut inodes, 3 + root_listing_len);
    push_u16(&mut inodes, 0);
    push_u32(&mut inodes, 6);
    let inode_table = img.len() as u64;
    img.extend_from_slice(&meta_block(&inodes, false));

    let mut dirs = Vec::new();
    push_u32(&mut dirs, 2); // three entries
    push_u32(&mut dirs, 0);
    push_u32(&mut dirs, 2);
    push_u16(&mut dirs, 0);
    push_u16(&mut dirs, 0);
    push_u16(&mut dirs, 2);
    push_u16(&mut dirs, 6);
    dirs.extend_from_slice(b"big.bin");
    push_u16(&mut dirs, empty_off);
    push_u16(&mut dirs, 1);
    push_u16(&mut dirs, 2);
    push_u16(&mut dirs, 8);
    dirs.extend_from_slice(b"empty.bin");
    push_u16(&mut dirs, emptydir_off);
    push_u16(&mut dirs, 2);
    push_u16(&mut dirs, 1);
    push_u16(&mut dirs, 7);
    dirs.extend_from_slice(b"emptydir");
    assert_eq!(dirs.len() as u16, root_listing_len);
    let dir_table = img.len() as u64;
    img.extend_from_slice(&meta_block(&dirs, false));

    let mut frag = Vec::new();
    push_u64(&mut frag, frag_start);
    push_u32(&mut frag, 0x0100_0004);
    push_u32(&mut frag, 0);
    let frag_block = img.len() as u64;
    img.extend_from_slice(&meta_block(&frag, false));
    let frag_table = img.len() as u64;
    push_u64(&mut img, frag_block);

    let mut idsb = Vec::new();
    push_u32(&mut idsb, 0);
    let id_block = img.len() as u64;
    img.extend_from_slice(&meta_block(&idsb, false));
    let id_table = img.len() as u64;
    push_u64(&mut img, id_block);

    let total = img.len() as u64;
    let sb = superblock(
        4, 4096, 12, 1, 1, root_off, total, id_table, inode_table, dir_table, frag_table,
    );
    img[..96].copy_from_slice(&sb);
    img
}

#[test]
fn zero_byte_file_is_empty() {
    let mut fs = Squashfs::from_bytes(build_misc_image()).unwrap();
    let (path, bytes) = fs.extract_file(&b"empty.bin".to_vec()).unwrap();
    assert_eq!(path, b"empty.bin".to_vec());
    assert_eq!(bytes, Vec::<u8>::new());
}

#[test]
fn empty_directory_yields_one_path_node() {
    let fs = Squashfs::from_bytes(build_misc_image()).unwrap();
    let nodes = fs.into_filesystem().unwrap();
    assert_eq!(nodes.len(), 3);
    let mut dir_count = 0;
    for n in &nodes {
        if let Node::Path(p) = n {
            assert_eq!(p.path, b"emptydir".to_vec());
            dir_count += 1;
        }
    }
    assert_eq!(dir_count, 1);
}

#[test]
fn block_and_fragment_round_trip() {
    let mut fs = Squashfs::from_bytes(build_misc_image()).unwrap();
    let mut expected = vec![b'A'; 4096];
    expected.extend_from_slice(b"tail");
    let (_, bytes) = fs.extract_file(&b"big.bin".to_vec()).unwrap();
    assert_eq!(bytes.len(), 4100);
    assert_eq!(bytes, expected);
    // Repeating the call on the warmed cache yields the same bytes.
    let (_, again) = fs.extract_file(&b"big.bin".to_vec()).unwrap();
    assert_eq!(again, expected);
}

#[test]
fn misc_extract_agrees_with_filesystem() {
    let mut fs = Squashfs::from_bytes(build_misc_image()).unwrap();
    let fs2 = Squashfs::from_bytes(build_misc_image()).unwrap();
    for node in fs2.into_filesystem().unwrap() {
        if let Node::File(f) = node {
            let (_, bytes) = fs.extract_file(&f.path).unwrap();
            assert_eq!(bytes, f.bytes);
        }
    }
}
