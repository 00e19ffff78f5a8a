use vstd::prelude::*;

verus! {

/// Every way a decode or extraction operation can fail. All failures are
/// terminal for the operation that raised them: a malformed or truncated
/// image does not change between attempts, so nothing is retried.
#[derive(Clone, Copy, Debug, PartialEq, Eq, Structural)]
pub enum SquashfsError {
    /// The superblock is too short, its magic does not match, its version is
    /// not 4.0, its block size is invalid, or a declared table offset exceeds
    /// the input length.
    MalformedHeader,
    /// The image names a compression method this crate does not support.
    UnsupportedCodec,
    /// The decompressor rejected a block's bytes.
    DecompressionFailed,
    /// A metadata block's declared length overruns the input, or a block
    /// decodes to more than the format's 8 KiB metadata block limit.
    TruncatedBlock,
    /// An inode record carries a type tag outside the format's closed set.
    UnknownInodeType,
    /// An inode record is truncated or its declared sizes cannot be realized.
    MalformedInode,
    /// A directory run overruns its declared byte count, an entry's inode
    /// reference falls outside the valid range, a name contains a path
    /// separator, or two entries of one directory share a name.
    MalformedDirectory,
    /// A file's data blocks or fragment tail overrun the input or do not
    /// decode to the declared file size.
    TruncatedFileData,
    /// A path component has no match in its directory.
    PathNotFound,
    /// The final path component resolved to something other than a regular
    /// file.
    NotAFile,
    /// A non-terminal path component resolved to something other than a
    /// directory.
    NotADirectory,
}

} // verus!
