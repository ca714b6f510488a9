//! Attribute synthesis: the fixed-default attribute records the adapter
//! derives on the fly for every reply.
//!
//! No attribute record persists between calls; each is recomputed from an
//! inode, a listing entry and fixed defaults (read-only permission bits,
//! caller-supplied uid/gid, fixed block size). Timestamps are not carried
//! here: every reply uses the Unix epoch, which the unverified shell
//! supplies when it builds the kernel's record.

use vstd::prelude::*;

verus! {

/// The inode number reserved for the mount root.
pub const ROOT_INO: u64 = 1;

/// Whether a filesystem object is a directory or a regular file; nothing
/// else exists in this read-only mount.
#[derive(Clone, Copy, Debug, PartialEq, Eq, Structural)]
pub enum FileKind {
    Directory,
    RegularFile,
}

/// The attribute record synthesized for a reply: a plain-value form of
/// what the kernel is told about one filesystem object.
#[derive(Clone, Copy, Debug, PartialEq, Eq, Structural)]
pub struct FileAttrData {
    pub ino: u64,
    pub size: u64,
    pub blocks: u64,
    pub kind: FileKind,
    pub perm: u16,
    pub nlink: u32,
    pub uid: u32,
    pub gid: u32,
    pub blksize: u32,
}

/// The number of 512-byte blocks needed to hold `size` bytes.
pub open spec fn blocks_of(size: u64) -> u64 {
    ((size + 511) / 512) as u64
}

/// Attributes of a directory under inode `ino`.
pub open spec fn spec_dir_attr(ino: u64, uid: u32, gid: u32) -> FileAttrData {
    FileAttrData {
        ino,
        size: 0,
        blocks: 0,
        kind: FileKind::Directory,
        perm: 0o755,
        nlink: 2,
        uid,
        gid,
        blksize: 512,
    }
}

/// Attributes of a regular file of `size` bytes under inode `ino`.
pub open spec fn spec_file_attr(ino: u64, size: u64, uid: u32, gid: u32) -> FileAttrData {
    FileAttrData {
        ino,
        size,
        blocks: blocks_of(size),
        kind: FileKind::RegularFile,
        perm: 0o644,
        nlink: 1,
        uid,
        gid,
        blksize: 512,
    }
}

/// Attributes of the mount root: a directory under the reserved inode.
pub open spec fn spec_root_attr(uid: u32, gid: u32) -> FileAttrData {
    spec_dir_attr(ROOT_INO, uid, gid)
}

/// Builds the attribute record for the mount root.
pub fn root_attr(uid: u32, gid: u32) -> (r: FileAttrData)
    ensures
        r == spec_root_attr(uid, gid),
{
    dir_attr(ROOT_INO, uid, gid)
}

/// Builds the attribute record for a directory.
pub fn dir_attr(ino: u64, uid: u32, gid: u32) -> (r: FileAttrData)
    ensures
        r == spec_dir_attr(ino, uid, gid),
{
    FileAttrData {
        ino,
        size: 0,
        blocks: 0,
        kind: FileKind::Directory,
        perm: 0o755,
        nlink: 2,
        uid,
        gid,
        blksize: 512,
    }
}

/// Builds the attribute record for a regular file, rounding the block
/// count up to whole 512-byte blocks without overflowing.
pub fn file_attr(ino: u64, size: u64, uid: u32, gid: u32) -> (r: FileAttrData)
    ensures
        r == spec_file_attr(ino, size, uid, gid),
{
    let whole: u64 = size / 512;
    let blocks: u64 = if size % 512 != 0 {
        whole + 1
    } else {
        whole
    };
    proof {
        assert(blocks == blocks_of(size)) by (nonlinear_arith)
            requires
                whole == size / 512,
                blocks == if size % 512 != 0 { whole + 1 } else { whole as int },
                0 <= size <= u64::MAX,
        ;
    }
    FileAttrData {
        ino,
        size,
        blocks,
        kind: FileKind::RegularFile,
        perm: 0o644,
        nlink: 1,
        uid,
        gid,
        blksize: 512,
    }
}

} // verus!
