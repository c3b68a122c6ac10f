//! File kinds and the attributes reported for a node.
//!
//! Nothing here is stored per node besides its identity and kind: every
//! other attribute is a fixed default.

use vstd::prelude::*;

verus! {

/// What a node is, in the kinds a Unix filesystem knows.
#[derive(Clone, Copy, Debug, PartialEq, Eq, Structural)]
pub enum FileKind {
    NamedPipe,
    CharDevice,
    BlockDevice,
    Directory,
    RegularFile,
    Symlink,
    Socket,
}

/// Permission bits of a directory.
pub const DIRECTORY_PERM: u16 = 0o755;

/// Permission bits of a regular file.
pub const FILE_PERM: u16 = 0o644;

/// Permission bits of every other kind of node.
pub const OTHER_PERM: u16 = 0o444;

/// Link count reported for every node.
pub const LINK_COUNT: u32 = 2;

/// Owner reported for every node.
pub const OWNER_UID: u32 = 501;

/// Group reported for every node.
pub const OWNER_GID: u32 = 20;

/// Preferred I/O block size reported for every node.
pub const BLOCK_SIZE: u32 = 512;

/// The instant reported for every timestamp, in seconds after the Unix epoch.
pub const TIMESTAMP: u64 = 0;

/// The attributes of one node. Timestamps count seconds after the Unix epoch.
#[derive(Clone, Copy, Debug, PartialEq, Eq, Structural)]
pub struct Attributes {
    pub ino: u64,
    pub size: u64,
    pub blocks: u64,
    pub atime: u64,
    pub mtime: u64,
    pub ctime: u64,
    pub crtime: u64,
    pub kind: FileKind,
    pub perm: u16,
    pub nlink: u32,
    pub uid: u32,
    pub gid: u32,
    pub rdev: u32,
    pub blksize: u32,
    pub flags: u32,
}

/// The permission bits that go with a kind.
pub open spec fn permissions(kind: FileKind) -> u16 {
    match kind {
        FileKind::Directory => DIRECTORY_PERM,
        FileKind::RegularFile => FILE_PERM,
        _ => OTHER_PERM,
    }
}

/// The attributes of the node `ino` of kind `kind`: its identity, its kind,
/// the permissions of that kind, and defaults for everything else. No size
/// is tracked, so the size is always zero.
pub open spec fn attributes_of(ino: u64, kind: FileKind) -> Attributes {
    Attributes {
        ino,
        size: 0,
        blocks: 0,
        atime: TIMESTAMP,
        mtime: TIMESTAMP,
        ctime: TIMESTAMP,
        crtime: TIMESTAMP,
        kind,
        perm: permissions(kind),
        nlink: LINK_COUNT,
        uid: OWNER_UID,
        gid: OWNER_GID,
        rdev: 0,
        blksize: BLOCK_SIZE,
        flags: 0,
    }
}

impl Attributes {
    /// Synthesizes the attributes of the node `ino` of kind `kind`.
    pub fn synthesize(ino: u64, kind: FileKind) -> (attr: Attributes)
        ensures
            attr == attributes_of(ino, kind),
    {
        let perm = match kind {
            FileKind::Directory => DIRECTORY_PERM,
            FileKind::RegularFile => FILE_PERM,
            _ => OTHER_PERM,
        };
        Attributes {
            ino,
            size: 0,
            blocks: 0,
            atime: TIMESTAMP,
            mtime: TIMESTAMP,
            ctime: TIMESTAMP,
            crtime: TIMESTAMP,
            kind,
            perm,
            nlink: LINK_COUNT,
            uid: OWNER_UID,
            gid: OWNER_GID,
            rdev: 0,
            blksize: BLOCK_SIZE,
            flags: 0,
        }
    }
}

} // verus!
