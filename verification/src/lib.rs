//! A reader for SquashFS disk images: a compressed, read-only filesystem
//! format used for embedded firmware and live-system root filesystems.
//!
//! The crate decodes the fixed-size superblock, the compressed metadata
//! streams that hold the inode and directory tables, the fragment and id
//! tables, and offers two extraction modes: a single-path lookup
//! (`Squashfs::extract_file`) and a full tree materialization
//! (`Squashfs::into_filesystem`). Decompression of individual blocks is
//! delegated to an outside zlib implementation; everything else is verified
//! against a byte-level model of the on-disk format.

pub mod bytes;
pub mod codec;
pub mod command;
pub mod content;
pub mod dirtable;
pub mod error;
pub mod extract;
pub mod inode;
pub mod metadata;
pub mod paths;
pub mod squashfs;
pub mod superblock;
pub mod tables;
