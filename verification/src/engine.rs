//! The calls that a session makes to a filesystem engine, and the replies.
//!
//! A session never touches an engine. It names a [`Call`]; its owner performs
//! the call on the mounted engine and hands the [`Reply`] back.

use vstd::prelude::*;

use crate::journal::Volume;

verus! {

/// The two filesystems that are served.
#[derive(Clone, Copy, Debug, PartialEq, Eq, Structural)]
pub enum Kind {
    Fat,
    Ext4,
}

/// A call to an engine, over a type for texts and one for bytes.
pub enum CallOf<S, B> {
    /// Mount the FAT volume.
    MountFat,
    /// Read the superblocks of the ext4 volume through a read-only device.
    InspectExt4,
    /// Mount the ext4 volume, with checked recovery or without any.
    MountExt4 { recovering: bool },
    /// FAT: start walking the directory with this path from the root.
    OpenDirectory(S),
    /// FAT: the next entry of the directory being walked.
    NextEntry,
    /// FAT: open the file with this path from the root.
    OpenFile(S),
    /// FAT: move in the open file.
    Seek(u64),
    /// FAT: read at most so many bytes of the open file.
    ReadSome(usize),
    /// FAT: write all of these bytes to the open file.
    WriteAll(B),
    /// FAT: flush the open file.
    FlushFile,
    /// FAT: cut the open file off where it stands.
    TruncateFile,
    /// FAT: create a file.
    CreateFile(S),
    /// FAT: create a directory.
    CreateDirectory(S),
    /// FAT: remove a file or an empty directory.
    RemoveEntry(S),
    /// FAT: rename.
    RenameEntry(S, S),
    /// FAT: count the clusters.
    Statistics,
    /// FAT: read the status flags.
    StatusFlags,
    /// ext4: resolve a path without following symbolic links before its last
    /// component, and read the inode it names.
    Resolve(S),
    /// ext4: read an inode by number.
    ReadInode(u32),
    /// ext4: read an inode by number, as the one that was resolved.
    OpenInode(u32),
    /// ext4: where a logical block of the resolved inode lies.
    MapBlock(u64),
    /// ext4: read a block.
    ReadBlock(u64),
    /// ext4: read everything of the resolved inode.
    ReadWhole,
    /// ext4: read from the resolved inode.
    ReadFile { offset: u64, wanted: usize },
    /// ext4: create a file that only its owner may read and write, and say the
    /// number of its inode.
    CreateInode(S),
    /// ext4: write to an existing file.
    WriteInode { path: S, offset: u64, data: B },
    /// ext4: shrink a file.
    ShrinkInode { number: u32, length: u64 },
    /// ext4: create a directory that only its owner may use.
    MakeDirectory(S),
    /// ext4: remove an empty directory.
    RemoveDirectory(S),
    /// ext4: remove a name that is not a directory.
    Unlink(S),
    /// ext4: rename, never over an existing name.
    RenameInode(S, S),
    /// ext4: read the superblocks of the mounted volume.
    ReadVolume,
    /// Write everything out and keep the mount.
    FlushEngine,
    /// Drop what is cached and keep the mount.
    Refresh,
    /// Give the mount up cleanly.
    Unmount,
    /// Flush the device itself.
    FlushDevice,
}

/// A call to an engine.
pub type Call = CallOf<String, Vec<u8>>;

/// An entry of a FAT directory.
pub struct FatItemOf<S> {
    pub name: S,
    pub short_name: S,
    pub directory: bool,
    pub size: u64,
}

/// An entry of a FAT directory.
pub type FatItem = FatItemOf<String>;

/// What an inode holds, as far as a session depends on it.
#[derive(Clone, Copy, Debug)]
pub struct InodeFacts {
    pub number: u32,
    pub mode: u16,
    pub size: u64,
    pub links_count: u16,
    pub flags: u32,
    pub generation: u32,
}

/// How the directories of a mounted ext4 volume are laid out.
#[derive(Clone, Copy, Debug)]
pub struct Layout {
    pub block_size: u32,
    pub file_types: bool,
    pub checksum_seed: u32,
    pub checksums: bool,
}

/// What an engine answered.
pub enum ReplyOf<S, B> {
    /// The call succeeded, and has nothing to say.
    Done,
    /// The call failed, and says why.
    Failed(S),
    /// The next directory entry, or the end.
    Entry(Option<FatItemOf<S>>),
    /// Bytes that were read.
    Bytes(B),
    /// The inode that a path names, and the layout of its volume.
    Resolved(InodeFacts, Layout),
    /// An inode.
    Inode(InodeFacts),
    /// The number of the inode that was created.
    Created(u32),
    /// Where a logical block lies, if anywhere.
    Mapped(Option<u64>),
    /// Cluster counts.
    Clusters { cluster_size: u32, total: u32, free: u32 },
    /// Whether the volume is marked dirty.
    Dirty(bool),
    /// The superblocks of a volume.
    Superblocks(Volume),
}

/// What an engine answered.
pub type Reply = ReplyOf<String, Vec<u8>>;

/// A call with its texts and bytes taken by view.
pub type CallModel = CallOf<Seq<char>, Seq<u8>>;

/// A reply with its texts and bytes taken by view.
pub type ReplyModel = ReplyOf<Seq<char>, Seq<u8>>;

impl View for CallOf<String, Vec<u8>> {
    type V = CallModel;

    open spec fn view(&self) -> CallModel {
        match *self {
            CallOf::MountFat => CallOf::MountFat,
            CallOf::InspectExt4 => CallOf::InspectExt4,
            CallOf::MountExt4 { recovering } => CallOf::MountExt4 { recovering },
            CallOf::OpenDirectory(p) => CallOf::OpenDirectory(p@),
            CallOf::NextEntry => CallOf::NextEntry,
            CallOf::OpenFile(p) => CallOf::OpenFile(p@),
            CallOf::Seek(n) => CallOf::Seek(n),
            CallOf::ReadSome(n) => CallOf::ReadSome(n),
            CallOf::WriteAll(b) => CallOf::WriteAll(b@),
            CallOf::FlushFile => CallOf::FlushFile,
            CallOf::TruncateFile => CallOf::TruncateFile,
            CallOf::CreateFile(p) => CallOf::CreateFile(p@),
            CallOf::CreateDirectory(p) => CallOf::CreateDirectory(p@),
            CallOf::RemoveEntry(p) => CallOf::RemoveEntry(p@),
            CallOf::RenameEntry(p, q) => CallOf::RenameEntry(p@, q@),
            CallOf::Statistics => CallOf::Statistics,
            CallOf::StatusFlags => CallOf::StatusFlags,
            CallOf::Resolve(p) => CallOf::Resolve(p@),
            CallOf::ReadInode(n) => CallOf::ReadInode(n),
            CallOf::OpenInode(n) => CallOf::OpenInode(n),
            CallOf::MapBlock(n) => CallOf::MapBlock(n),
            CallOf::ReadBlock(n) => CallOf::ReadBlock(n),
            CallOf::ReadWhole => CallOf::ReadWhole,
            CallOf::ReadFile { offset, wanted } => CallOf::ReadFile { offset, wanted },
            CallOf::CreateInode(p) => CallOf::CreateInode(p@),
            CallOf::WriteInode { path, offset, data } => CallOf::WriteInode {
                path: path@,
                offset,
                data: data@,
            },
            CallOf::ShrinkInode { number, length } => CallOf::ShrinkInode { number, length },
            CallOf::MakeDirectory(p) => CallOf::MakeDirectory(p@),
            CallOf::RemoveDirectory(p) => CallOf::RemoveDirectory(p@),
            CallOf::Unlink(p) => CallOf::Unlink(p@),
            CallOf::RenameInode(p, q) => CallOf::RenameInode(p@, q@),
            CallOf::ReadVolume => CallOf::ReadVolume,
            CallOf::FlushEngine => CallOf::FlushEngine,
            CallOf::Refresh => CallOf::Refresh,
            CallOf::Unmount => CallOf::Unmount,
            CallOf::FlushDevice => CallOf::FlushDevice,
        }
    }
}

impl View for FatItemOf<String> {
    type V = FatItemOf<Seq<char>>;

    open spec fn view(&self) -> FatItemOf<Seq<char>> {
        FatItemOf {
            name: self.name@,
            short_name: self.short_name@,
            directory: self.directory,
            size: self.size,
        }
    }
}

impl View for ReplyOf<String, Vec<u8>> {
    type V = ReplyModel;

    open spec fn view(&self) -> ReplyModel {
        match *self {
            ReplyOf::Done => ReplyOf::Done,
            ReplyOf::Failed(e) => ReplyOf::Failed(e@),
            ReplyOf::Entry(Some(item)) => ReplyOf::Entry(Some(item@)),
            ReplyOf::Entry(None) => ReplyOf::Entry(None),
            ReplyOf::Bytes(b) => ReplyOf::Bytes(b@),
            ReplyOf::Resolved(inode, layout) => ReplyOf::Resolved(inode, layout),
            ReplyOf::Inode(inode) => ReplyOf::Inode(inode),
            ReplyOf::Created(n) => ReplyOf::Created(n),
            ReplyOf::Mapped(at) => ReplyOf::Mapped(at),
            ReplyOf::Clusters { cluster_size, total, free } => ReplyOf::Clusters {
                cluster_size,
                total,
                free,
            },
            ReplyOf::Dirty(dirty) => ReplyOf::Dirty(dirty),
            ReplyOf::Superblocks(v) => ReplyOf::Superblocks(v),
        }
    }
}

impl<S, B> CallOf<S, B> {
    /// Whether an engine changes the volume on this call.
    pub open spec fn mutates(self) -> bool {
        match self {
            CallOf::MountExt4 { recovering } => recovering,
            CallOf::WriteAll(_) => true,
            CallOf::FlushFile => true,
            CallOf::TruncateFile => true,
            CallOf::CreateFile(_) => true,
            CallOf::CreateDirectory(_) => true,
            CallOf::RemoveEntry(_) => true,
            CallOf::RenameEntry(_, _) => true,
            CallOf::CreateInode(_) => true,
            CallOf::WriteInode { .. } => true,
            CallOf::ShrinkInode { .. } => true,
            CallOf::MakeDirectory(_) => true,
            CallOf::RemoveDirectory(_) => true,
            CallOf::Unlink(_) => true,
            CallOf::RenameInode(_, _) => true,
            CallOf::FlushEngine => true,
            CallOf::Unmount => true,
            CallOf::FlushDevice => true,
            _ => false,
        }
    }
}

impl InodeFacts {
    /// Whether the inode is a directory.
    pub open spec fn is_directory(self) -> bool {
        self.mode / 0x1000 == 4
    }

    /// Whether the inode is a regular file.
    pub open spec fn is_file(self) -> bool {
        self.mode / 0x1000 == 8
    }

    /// Whether the inode is a symbolic link.
    pub open spec fn is_link(self) -> bool {
        self.mode / 0x1000 == 10
    }

    /// Whether the inode keeps its content in itself.
    pub open spec fn is_inline(self) -> bool {
        self.flags / 0x1000_0000 % 2 == 1
    }

    /// What kind of thing the inode is.
    pub open spec fn kind_name(self) -> &'static str {
        if self.is_link() {
            "symlink"
        } else if self.is_directory() {
            "directory"
        } else if self.is_file() {
            "file"
        } else {
            "other"
        }
    }

    /// What kind of thing the inode is.
    pub fn kind(&self) -> (kind: &'static str)
        ensures
            kind == self.kind_name(),
    {
        if self.mode / 0x1000 == 10 {
            "symlink"
        } else if self.mode / 0x1000 == 4 {
            "directory"
        } else if self.mode / 0x1000 == 8 {
            "file"
        } else {
            "other"
        }
    }
}

/// What is said of a reply that does not answer its call.
pub open spec fn misplaced() -> Seq<char> {
    "engine reply does not answer its call"@
}

/// Why a reply that is not the awaited one ends the operation.
pub open spec fn stray(r: ReplyModel) -> Seq<char> {
    match r {
        ReplyOf::Failed(e) => e,
        _ => misplaced(),
    }
}

/// Why a reply that is not the awaited one ends the operation.
pub fn stray_reply(r: Reply) -> (e: String)
    ensures
        e@ == stray(r@),
{
    match r {
        ReplyOf::Failed(e) => e,
        _ => "engine reply does not answer its call".to_owned(),
    }
}

/// Whether a call succeeded whose result, if it has any, is not needed, or why
/// not.
pub open spec fn plain_outcome(r: ReplyModel) -> Result<(), Seq<char>> {
    match r {
        ReplyOf::Done => Ok(()),
        ReplyOf::Created(_) => Ok(()),
        _ => Err(stray(r)),
    }
}

/// A result with its message taken by view.
pub open spec fn outcome_view<T>(r: Result<T, String>) -> Result<T, Seq<char>> {
    match r {
        Ok(t) => Ok(t),
        Err(e) => Err(e@),
    }
}

/// Whether a call succeeded whose result, if it has any, is not needed, or why
/// not.
pub fn plainly(r: Reply) -> (out: Result<(), String>)
    ensures
        outcome_view(out) == plain_outcome(r@),
{
    match r {
        ReplyOf::Done => Ok(()),
        ReplyOf::Created(_) => Ok(()),
        _ => Err(stray_reply(r)),
    }
}

} // verus!
