//! Volumes as mathematics, and engines that serve them truthfully.
//!
//! A session never sees a volume, only the replies of its engine. What an
//! operation does to the files of a volume can be said all the same, over an
//! engine that answers each call by what its volume holds and applies each change
//! as it was asked.

use vstd::prelude::*;

use crate::directory;
use crate::engine;
use crate::engine::CallModel;
use crate::engine::CallOf;
use crate::engine::FatItemOf;
use crate::engine::InodeFacts;
use crate::engine::Kind;
use crate::engine::Layout;
use crate::engine::ReplyModel;
use crate::engine::ReplyOf;
use crate::list::MAX_DIRECTORY_BYTES;
use crate::path;
use crate::range;
use crate::session::SessionModel;
use crate::session::MAX_ENTRIES;
use crate::session_laws;
use crate::session_laws::Event;
use crate::session_laws::Next;
use crate::session_laws::Op;
use crate::text;

verus! {

/// The smaller of two numbers.
pub open spec fn lesser(a: int, b: int) -> int {
    if a <= b {
        a
    } else {
        b
    }
}

/// What a file holds once `data` was written to it at `offset`.
pub open spec fn overwrite(c: Seq<u8>, offset: int, data: Seq<u8>) -> Seq<u8> {
    c.subrange(0, offset) + data + c.subrange(
        lesser(offset + data.len(), c.len() as int),
        c.len() as int,
    )
}

/// What a read of `length` bytes from `offset` finds: fewer where the file ends.
pub open spec fn part(c: Seq<u8>, offset: int, length: int) -> Seq<u8> {
    let from = lesser(offset, c.len() as int);
    c.subrange(from, lesser(from + length, c.len() as int))
}

/// What a FAT directory holds under one name.
pub struct FatNode {
    pub name: Seq<char>,
    pub short_name: Seq<char>,
    pub body: FatBody,
}

/// A file by its content, or a directory by its number.
pub enum FatBody {
    File(Seq<u8>),
    Directory(int),
}

impl FatNode {
    /// What the directory says of it.
    pub open spec fn item(self) -> FatItemOf<Seq<char>> {
        FatItemOf {
            name: self.name,
            short_name: self.short_name,
            directory: self.body is Directory,
            size: match self.body {
                FatBody::File(c) => c.len() as u64,
                FatBody::Directory(_) => 0,
            },
        }
    }

    /// Whether it goes by a name whose uppercase is `wanted`.
    pub open spec fn goes_by(self, wanted: Seq<char>) -> bool {
        text::uppercase(self.name) == wanted || text::uppercase(self.short_name) == wanted
    }

    /// Whether it stands for the directory itself or for its parent.
    pub open spec fn is_dot(self) -> bool {
        self.name == "."@ || self.name == ".."@
    }
}

/// The first of these that goes by the wanted name.
pub open spec fn find(nodes: Seq<FatNode>, wanted: Seq<char>) -> Option<int>
    decreases nodes.len(),
{
    if nodes.len() == 0 {
        None
    } else if nodes[0].goes_by(wanted) {
        Some(0)
    } else {
        match find(nodes.drop_first(), wanted) {
            Some(i) => Some(i + 1),
            None => None,
        }
    }
}

/// No two of these go by one name.
pub open spec fn distinct(nodes: Seq<FatNode>) -> bool {
    forall|i: int, j: int, w: Seq<char>|
        0 <= i < j < nodes.len() && #[trigger] nodes[i].goes_by(w) ==> !(
        #[trigger] nodes[j].goes_by(w))
}

/// The directory that holds a path named from the root.
pub open spec fn parent(rel: Seq<char>) -> Seq<char> {
    path::holder(seq!['/'] + rel)
}

/// The last name of a path named from the root.
pub open spec fn leaf(rel: Seq<char>) -> Seq<char> {
    path::final_name(seq!['/'] + rel)
}

/// A path is longer than that of the directory that holds it.
pub proof fn lemma_parent_is_shorter(rel: Seq<char>)
    requires
        0 < rel.len(),
    ensures
        parent(rel).len() < rel.len(),
{
    let s = seq!['/'] + rel;
    assert(s[0] == '/');
    path::lemma_last_slash(s);
}

/// Whether every name of a path from the root is in order.
pub open spec fn plain(rel: Seq<char>) -> bool
    decreases rel.len(),
{
    if rel.len() == 0 {
        true
    } else {
        proof {
            lemma_parent_is_shorter(rel);
        }
        path::component_ok(leaf(rel)) && plain(parent(rel))
    }
}

/// A FAT volume: its directories by number.
pub struct FatVolume {
    pub root: int,
    pub directories: Map<int, Seq<FatNode>>,
}

impl FatVolume {
    /// The directory with this path from the root.
    pub open spec fn directory_at(self, rel: Seq<char>) -> Option<int>
        decreases rel.len(),
    {
        if rel.len() == 0 {
            Some(self.root)
        } else {
            proof {
                lemma_parent_is_shorter(rel);
            }
            match self.directory_at(parent(rel)) {
                None => None,
                Some(d) => match find(self.directories[d], text::uppercase(leaf(rel))) {
                    None => None,
                    Some(i) => match self.directories[d][i].body {
                        FatBody::Directory(k) => Some(k),
                        FatBody::File(_) => None,
                    },
                },
            }
        }
    }

    /// Where the node with this path from the root stands: in which directory,
    /// and at which place of it.
    pub open spec fn place(self, rel: Seq<char>) -> Option<(int, int)> {
        if rel.len() == 0 {
            None
        } else {
            match self.directory_at(parent(rel)) {
                None => None,
                Some(d) => match find(self.directories[d], text::uppercase(leaf(rel))) {
                    None => None,
                    Some(i) => Some((d, i)),
                },
            }
        }
    }

    /// The node with this path from the root.
    pub open spec fn node_at(self, rel: Seq<char>) -> Option<FatNode> {
        match self.place(rel) {
            None => None,
            Some((d, i)) => Some(self.directories[d][i]),
        }
    }

    /// Whether a path from the root leads to what stands at a place, or through it.
    pub open spec fn through(self, rel: Seq<char>, at: (int, int)) -> bool
        decreases rel.len(),
    {
        if rel.len() == 0 {
            false
        } else {
            proof {
                lemma_parent_is_shorter(rel);
            }
            self.place(rel) == Some(at) || self.through(parent(rel), at)
        }
    }

    /// The content of the file with this path from the root.
    pub open spec fn file_at(self, rel: Seq<char>) -> Option<Seq<u8>> {
        match self.node_at(rel) {
            Some(n) => match n.body {
                FatBody::File(c) => Some(c),
                FatBody::Directory(_) => None,
            },
            None => None,
        }
    }

    /// The volume with another content at one place.
    pub open spec fn with_content(self, d: int, i: int, c: Seq<u8>) -> FatVolume {
        let nodes = self.directories[d];
        FatVolume {
            directories: self.directories.insert(
                d,
                nodes.update(i, FatNode { body: FatBody::File(c), ..nodes[i] }),
            ),
            ..self
        }
    }

    /// The volume without what stands at one place.
    pub open spec fn without(self, d: int, i: int) -> FatVolume {
        FatVolume {
            directories: self.directories.insert(d, self.directories[d].remove(i)),
            ..self
        }
    }

    /// Whether a directory holds nothing but itself and its parent.
    pub open spec fn is_empty(self, d: int) -> bool {
        forall|i: int|
            0 <= i < self.directories[d].len() ==> (#[trigger] self.directories[d][i]).is_dot()
    }

    /// What holds of every FAT volume: no two names of a directory are one, names
    /// are not empty and have no slash, the entries for a directory itself and its
    /// parent go by no name in order, a file's length is a number, and a directory
    /// that is named is there.
    pub open spec fn valid(self) -> bool {
        &&& self.directories.contains_key(self.root)
        &&& forall|d: int| #[trigger]
            self.directories.contains_key(d) ==> self.valid_directory(self.directories[d])
    }

    /// What holds of every directory.
    pub open spec fn valid_directory(self, nodes: Seq<FatNode>) -> bool {
        &&& distinct(nodes)
        &&& forall|i: int| 0 <= i < nodes.len() ==> self.valid_node(#[trigger] nodes[i])
    }

    /// What holds of everything in a directory.
    pub open spec fn valid_node(self, n: FatNode) -> bool {
        &&& 0 < n.name.len()
        &&& !n.name.contains('/')
        &&& match n.body {
            FatBody::File(c) => c.len() <= u64::MAX,
            FatBody::Directory(k) => self.directories.contains_key(k),
        }
        &&& n.is_dot() ==> forall|w: Seq<char>|
            path::component_ok(w) ==> !n.goes_by(#[trigger] text::uppercase(w))
    }
}

/// A FAT engine: its volume, what is left of the directory being walked, and the
/// open file.
pub struct FatEngine {
    pub volume: FatVolume,
    pub walk: Seq<FatNode>,
    pub file: (int, int),
    pub position: int,
}

impl FatEngine {
    /// The content of the open file.
    pub open spec fn content(self) -> Seq<u8> {
        self.volume.directories[self.file.0][self.file.1].body->File_0
    }

    /// Whether a call is answered truthfully: by this reply, leaving that engine.
    pub open spec fn answers(self, c: CallModel, after: FatEngine, r: ReplyModel) -> bool {
        match c {
            CallOf::OpenDirectory(rel) => match self.volume.directory_at(rel) {
                Some(d) => r == ReplyModel::Done && after == (FatEngine {
                    walk: self.volume.directories[d],
                    ..self
                }),
                None => r is Failed && after == self,
            },
            CallOf::NextEntry => if self.walk.len() == 0 {
                r == ReplyModel::Entry(None) && after == self
            } else {
                r == ReplyModel::Entry(Some(self.walk[0].item())) && after == (FatEngine {
                    walk: self.walk.drop_first(),
                    ..self
                })
            },
            CallOf::OpenFile(rel) => match self.volume.file_at(rel) {
                Some(_) => r == ReplyModel::Done && after == (FatEngine {
                    file: self.volume.place(rel)->0,
                    position: 0,
                    ..self
                }),
                None => r is Failed && after == self,
            },
            // A seek past the end stops there.
            CallOf::Seek(n) => r == ReplyModel::Done && after == (FatEngine {
                position: lesser(n as int, self.content().len() as int),
                ..self
            }),
            // As many pieces as it likes, and nothing only at the end.
            CallOf::ReadSome(n) => {
                &&& r matches ReplyOf::Bytes(b)
                &&& b.len() <= n
                &&& self.position + b.len() <= self.content().len()
                &&& b == self.content().subrange(self.position, self.position + b.len())
                &&& b.len() == 0 ==> n == 0 || self.position == self.content().len()
                &&& after == (FatEngine { position: self.position + b.len(), ..self })
            },
            CallOf::WriteAll(data) => engine::plain_outcome(r) is Ok ==> {
                let c = overwrite(self.content(), self.position, data);
                c.len() <= u64::MAX && after == (FatEngine {
                    volume: self.volume.with_content(self.file.0, self.file.1, c),
                    position: self.position + data.len(),
                    ..self
                })
            },
            CallOf::TruncateFile => engine::plain_outcome(r) is Ok ==> after == (FatEngine {
                volume: self.volume.with_content(
                    self.file.0,
                    self.file.1,
                    self.content().take(self.position),
                ),
                ..self
            }),
            // What is there already may be opened in place of being created.
            CallOf::CreateFile(rel) => self.volume.place(rel) is None && engine::plain_outcome(
                r,
            ) is Ok ==> self.adds(rel, after) && after.volume.file_at(rel) == Some(
                Seq::<u8>::empty(),
            ),
            CallOf::CreateDirectory(rel) => self.volume.place(rel) is None
                && engine::plain_outcome(r) is Ok ==> self.adds(rel, after)
                && after.volume.file_at(rel) is None,
            // Renaming something to itself may succeed.
            CallOf::RenameEntry(from, to) => self.volume.place(to) is None
                && engine::plain_outcome(r) is Ok ==> self.renames(from, to, after),
            // What holds something is not removed, and a refusal changes nothing.
            CallOf::RemoveEntry(rel) => match engine::plain_outcome(r) {
                Ok(()) => {
                    &&& self.volume.place(rel) matches Some((d, i))
                    &&& self.volume.directories[d][i].body matches FatBody::Directory(k)
                        ==> self.volume.is_empty(k)
                    &&& after == (FatEngine { volume: self.volume.without(d, i), ..self })
                },
                Err(_) => after == self,
            },
            CallOf::FlushFile => after == self,
            CallOf::FlushEngine => after.volume == self.volume,
            CallOf::FlushDevice => after.volume == self.volume,
            CallOf::Refresh => after.volume == self.volume,
            CallOf::Unmount => after.volume == self.volume,
            CallOf::Statistics => after == self,
            CallOf::StatusFlags => after == self,
            _ => true,
        }
    }
}

impl FatEngine {
    /// Whether something empty was added at a path, and nothing else was changed:
    /// without it the volume is what it was. The number of a new directory was
    /// that of an empty one that no name led to.
    pub open spec fn adds(self, rel: Seq<char>, after: FatEngine) -> bool {
        &&& after.volume.valid()
        &&& after.volume.place(rel) matches Some((d, i))
        &&& self.volume == after.volume.without(d, i)
        &&& after.volume.directories[d][i].body matches FatBody::Directory(k)
            ==> after.volume.is_empty(k)
    }

    /// Whether something was put under another name, and nothing else was changed:
    /// without it the volume is the same before and after.
    pub open spec fn renames(self, from: Seq<char>, to: Seq<char>, after: FatEngine) -> bool {
        &&& after.volume.valid()
        &&& self.volume.place(from) matches Some((d, i))
        &&& self.volume.directory_at(parent(to)) matches Some(x)
        &&& exists|j: int| #[trigger] self.put(d, i, x, j, leaf(to), after)
    }

    /// Whether what stood at one place stands at another, under this name.
    pub open spec fn put(
        self,
        d: int,
        i: int,
        x: int,
        j: int,
        name: Seq<char>,
        after: FatEngine,
    ) -> bool {
        &&& after.volume.directories.contains_key(x)
        &&& 0 <= j < after.volume.directories[x].len()
        &&& after.volume.directories[x][j].goes_by(text::uppercase(name))
        &&& after.volume.directories[x][j].body == self.volume.directories[d][i].body
        &&& after.volume.without(x, j) == self.volume.without(d, i)
    }
}

/// An inode and what it holds.
pub struct Ext4Node {
    pub facts: InodeFacts,
    pub content: Seq<u8>,
}

/// An ext4 volume: which inode every path stands for, and the inodes.
pub struct Ext4Volume {
    pub names: Map<Seq<char>, u32>,
    pub inodes: Map<u32, Ext4Node>,
}

/// The path of the directory that holds an absolute path.
pub open spec fn above(p: Seq<char>) -> Seq<char> {
    seq!['/'] + path::holder(p)
}

/// The path of what a directory holds under a name.
pub open spec fn join(dir: Seq<char>, name: Seq<char>) -> Seq<char> {
    if path::is_root(dir) {
        seq!['/'] + name
    } else {
        dir + seq!['/'] + name
    }
}

/// Whether a path is another or leads through it.
pub open spec fn under(q: Seq<char>, p: Seq<char>) -> bool {
    q == p || (p.len() < q.len() && q.take(p.len() as int) == p && q[p.len() as int] == '/')
}

/// The path that what is at `q` had before something was renamed, if it had any.
pub open spec fn origin(from: Seq<char>, to: Seq<char>, q: Seq<char>) -> Option<Seq<char>> {
    if under(q, to) {
        Some(from + q.skip(to.len() as int))
    } else if under(q, from) {
        None
    } else {
        Some(q)
    }
}

impl Ext4Volume {
    /// The inode that a path stands for.
    pub open spec fn node_at(self, p: Seq<char>) -> Option<Ext4Node> {
        if self.names.contains_key(p) {
            Some(self.inodes[self.names[p]])
        } else {
            None
        }
    }

    /// The content of the file with this path.
    pub open spec fn file_at(self, p: Seq<char>) -> Option<Seq<u8>> {
        match self.node_at(p) {
            Some(n) => if n.facts.is_file() {
                Some(n.content)
            } else {
                None
            },
            None => None,
        }
    }

    /// Whether a path is that of a directory.
    pub open spec fn has_directory(self, p: Seq<char>) -> bool {
        self.node_at(p) matches Some(n) && n.facts.is_directory()
    }

    /// The volume with another content in one inode.
    pub open spec fn with_content(self, n: u32, c: Seq<u8>) -> Ext4Volume {
        let node = self.inodes[n];
        let facts = InodeFacts { size: c.len() as u64, ..node.facts };
        Ext4Volume { inodes: self.inodes.insert(n, Ext4Node { facts, content: c }), ..self }
    }

    /// Whether nothing is below a directory.
    pub open spec fn is_empty(self, p: Seq<char>) -> bool {
        forall|q: Seq<char>| #[trigger]
            self.names.contains_key(q) && !path::is_root(q) ==> above(q) != p
    }

    /// Whether an inode is that of another volume, but for how many names it has,
    /// and for the size of a directory.
    pub open spec fn same_inode(self, other: Ext4Volume, n: u32) -> bool {
        let a = self.inodes[n];
        let b = other.inodes[n];
        if b.facts.is_directory() {
            a.facts.mode == b.facts.mode
        } else {
            a.content == b.content && a.facts == (InodeFacts {
                links_count: a.facts.links_count,
                ..b.facts
            })
        }
    }

    /// Whether an inode is there, knows its number and, if it is a file, its length.
    pub open spec fn valid_inode(self, n: u32) -> bool {
        let node = self.inodes[n];
        &&& self.inodes.contains_key(n)
        &&& node.facts.number == n
        &&& node.facts.is_file() ==> node.facts.size == node.content.len()
    }

    /// What holds of every ext4 volume: what is named is an inode in order and is
    /// held by a directory, and a file with one link has one name.
    pub open spec fn valid(self) -> bool {
        &&& forall|p: Seq<char>| #[trigger]
            self.names.contains_key(p) ==> self.valid_inode(self.names[p])
        &&& forall|p: Seq<char>, q: Seq<char>|
            #![trigger self.names[p], self.names[q]]
            self.names.contains_key(p) && self.names.contains_key(q) && self.names[p]
                == self.names[q] && self.inodes[self.names[p]].facts.is_file()
                && self.inodes[self.names[p]].facts.links_count == 1 ==> p == q
        &&& forall|p: Seq<char>| #[trigger]
            self.names.contains_key(p) && !path::is_root(p) ==> self.has_directory(above(p))
    }
}

/// An ext4 engine: its volume, the inode that was resolved, and the blocks of its
/// directories.
pub struct Ext4Engine {
    pub volume: Ext4Volume,
    pub layout: Layout,
    pub resolved: u32,
    pub places: Map<(u32, u64), Option<u64>>,
    pub blocks: Map<u64, Seq<u8>>,
}

impl Ext4Engine {
    /// Whether a record of the directory `dir` tells what the volume has there.
    pub open spec fn tells(self, dir: Seq<char>, record: (u32, Seq<u8>)) -> bool {
        let name = vstd::utf8::decode_utf8(record.1);
        directory::is_dot(record.1) || !vstd::utf8::valid_utf8(record.1) || {
            &&& 0 < name.len()
            &&& !name.contains('/')
            &&& self.volume.names.contains_key(join(dir, name))
            &&& self.volume.names[join(dir, name)] == record.0
        }
    }

    /// Whether a block of the directory `dir` tells what the volume has there.
    pub open spec fn block_tells(self, dir: Seq<char>, logical: u64) -> bool {
        let n = self.volume.names[dir];
        match self.places[(n, logical)] {
            None => true,
            Some(at) => match directory::records_of(
                self.blocks[at],
                self.volume.inodes[n].facts,
                self.layout,
            ) {
                Err(_) => true,
                Ok(records) => forall|i: int|
                    0 <= i < records.len() ==> self.tells(dir, #[trigger] records[i]),
            },
        }
    }

    /// Whether a block of the directory `dir` holds nothing but the directory itself
    /// and its parent.
    pub open spec fn block_holds_nothing(self, dir: Seq<char>, logical: u64) -> bool {
        let n = self.volume.names[dir];
        match self.places[(n, logical)] {
            None => true,
            Some(at) => {
                &&& directory::records_of(
                    self.blocks[at],
                    self.volume.inodes[n].facts,
                    self.layout,
                ) matches Ok(records)
                &&& forall|i: int| 0 <= i < records.len() ==> directory::is_dot(#[trigger] records[i].1)
            },
        }
    }

    /// Whether the directory `dir` is laid out in blocks that hold nothing but the
    /// directory itself and its parent.
    pub open spec fn holds_nothing(self, dir: Seq<char>) -> bool {
        let facts = self.volume.inodes[self.volume.names[dir]].facts;
        &&& facts.size <= MAX_DIRECTORY_BYTES
        &&& !facts.is_inline()
        &&& forall|logical: u64|
            logical < range::div_up(facts.size as int, self.layout.block_size as int)
                ==> #[trigger] self.block_holds_nothing(dir, logical)
    }

    /// Whether the blocks of the directories tell what is there.
    pub open spec fn readable(self) -> bool {
        &&& self.layout.block_size > 0
        &&& forall|dir: Seq<char>, logical: u64|
            self.volume.has_directory(dir) ==> #[trigger] self.block_tells(dir, logical)
    }

    /// What holds of every ext4 engine: its volume is in order, and the blocks of
    /// its directories tell what is there.
    pub open spec fn valid(self) -> bool {
        self.volume.valid() && self.readable()
    }

    /// Whether a call is answered truthfully: by this reply, leaving that engine.
    pub open spec fn answers(self, c: CallModel, after: Ext4Engine, r: ReplyModel) -> bool {
        match c {
            CallOf::Resolve(p) => match self.volume.node_at(p) {
                Some(n) => r == ReplyModel::Resolved(n.facts, self.layout) && after == (
                Ext4Engine { resolved: self.volume.names[p], ..self }),
                None => {
                    &&& r is Failed
                    &&& self.volume.has_directory(above(p)) ==> r == ReplyModel::Failed(
                        "not found"@,
                    )
                    &&& after == self
                },
            },
            CallOf::ReadInode(n) => r == ReplyModel::Inode(self.volume.inodes[n].facts) && after
                == self,
            CallOf::MapBlock(n) => r == ReplyModel::Mapped(self.places[(self.resolved, n)])
                && after == self,
            CallOf::ReadBlock(n) => r == ReplyModel::Bytes(self.blocks[n]) && after == self,
            CallOf::ReadFile { offset, wanted } => r == ReplyModel::Bytes(
                part(self.volume.inodes[self.resolved].content, offset as int, wanted as int),
            ) && after == self,
            CallOf::WriteInode { path, offset, data } => engine::plain_outcome(r) is Ok ==> {
                let n = self.volume.names[path];
                let c = overwrite(self.volume.inodes[n].content, offset as int, data);
                c.len() <= u64::MAX && after.volume == self.volume.with_content(n, c)
                    && after.readable()
            },
            CallOf::ShrinkInode { number, length } => engine::plain_outcome(r) is Ok
                ==> after.volume == self.volume.with_content(
                number,
                self.volume.inodes[number].content.take(length as int),
            ) && after.readable(),
            CallOf::RenameInode(from, to) => engine::plain_outcome(r) is Ok ==> self.renames(
                from,
                to,
                after,
            ),
            CallOf::CreateInode(p) => engine::plain_outcome(r) is Ok ==> self.adds(p, after)
                && after.volume.file_at(p) == Some(Seq::<u8>::empty()),
            CallOf::MakeDirectory(p) => engine::plain_outcome(r) is Ok ==> self.adds(p, after)
                && after.volume.has_directory(p) && after.holds_nothing(p),
            CallOf::Unlink(p) => self.removes(p, after, r) && (engine::plain_outcome(r) is Ok
                ==> !self.volume.has_directory(p)),
            // What holds something is not removed.
            CallOf::RemoveDirectory(p) => self.removes(p, after, r) && (engine::plain_outcome(r)
                is Ok ==> self.volume.has_directory(p) && self.volume.is_empty(p)),
            CallOf::FlushEngine => after.volume == self.volume,
            CallOf::FlushDevice => after.volume == self.volume,
            CallOf::Refresh => after.volume == self.volume,
            CallOf::Unmount => after.volume == self.volume,
            CallOf::ReadVolume => after == self,
            _ => true,
        }
    }

    /// Whether a name was added for an inode that had none, and nothing else was
    /// changed.
    pub open spec fn adds(self, p: Seq<char>, after: Ext4Engine) -> bool {
        let n = after.volume.names[p];
        &&& !self.volume.names.contains_key(p)
        &&& after.volume.names == self.volume.names.insert(p, n)
        &&& forall|q: Seq<char>| #[trigger]
            self.volume.names.contains_key(q) ==> self.volume.names[q] != n
                && after.volume.same_inode(self.volume, self.volume.names[q])
        &&& after.valid()
    }

    /// Whether something was put under another name with all that is below it, and
    /// nothing else was changed.
    pub open spec fn renames(self, from: Seq<char>, to: Seq<char>, after: Ext4Engine) -> bool {
        &&& self.volume.names.contains_key(from)
        &&& forall|q: Seq<char>| #[trigger]
            after.volume.names.contains_key(q) <==> (origin(from, to, q) matches Some(o)
                && self.volume.names.contains_key(o))
        &&& forall|q: Seq<char>| #[trigger]
            after.volume.names.contains_key(q) ==> after.volume.names[q]
                == self.volume.names[origin(from, to, q)->0] && after.volume.same_inode(
                self.volume,
                after.volume.names[q],
            )
        &&& after.valid()
    }

    /// Whether a name was removed, or nothing was changed.
    pub open spec fn removes(self, p: Seq<char>, after: Ext4Engine, r: ReplyModel) -> bool {
        match engine::plain_outcome(r) {
            Ok(()) => {
                &&& self.volume.names.contains_key(p)
                &&& after.volume.names == self.volume.names.remove(p)
                &&& forall|q: Seq<char>| #[trigger]
                    after.volume.names.contains_key(q) ==> after.volume.same_inode(
                        self.volume,
                        after.volume.names[q],
                    )
                &&& after.valid()
            },
            Err(_) => after == self,
        }
    }
}

/// An engine of either kind.
pub enum Engine {
    Fat(FatEngine),
    Ext4(Ext4Engine),
}

/// Where something stands on a volume: in which directory and at which place of
/// it, or in which inode.
pub enum Place {
    Fat(int, int),
    Ext4(u32),
}

impl Engine {
    /// Which kind it is.
    pub open spec fn kind(self) -> Kind {
        match self {
            Engine::Fat(_) => Kind::Fat,
            Engine::Ext4(_) => Kind::Ext4,
        }
    }

    /// What holds of every engine.
    pub open spec fn valid(self) -> bool {
        match self {
            Engine::Fat(e) => e.volume.valid(),
            Engine::Ext4(e) => e.valid(),
        }
    }

    /// Whether a call is answered truthfully: by this reply, leaving that engine.
    pub open spec fn answers(self, c: CallModel, after: Engine, r: ReplyModel) -> bool {
        match (self, after) {
            (Engine::Fat(e), Engine::Fat(f)) => e.answers(c, f, r),
            (Engine::Ext4(e), Engine::Ext4(f)) => e.answers(c, f, r),
            _ => false,
        }
    }

    /// Whether two engines serve the same volume, as a fresh one does after
    /// another was finished.
    pub open spec fn same_volume(self, other: Engine) -> bool {
        match (self, other) {
            (Engine::Fat(e), Engine::Fat(f)) => e.volume == f.volume,
            (Engine::Ext4(e), Engine::Ext4(f)) => e.volume == f.volume,
            _ => false,
        }
    }

    /// Whether two engines serve the same volume from the same blocks.
    pub open spec fn same_disk(self, other: Engine) -> bool {
        match (self, other) {
            (Engine::Fat(e), Engine::Fat(f)) => e.volume == f.volume,
            (Engine::Ext4(e), Engine::Ext4(f)) => e == (Ext4Engine { resolved: e.resolved, ..f }),
            _ => false,
        }
    }

    /// Whether an absolute path is that of a directory that holds nothing but
    /// itself and its parent.
    pub open spec fn holds_nothing(self, dir: Seq<char>) -> bool {
        match self {
            Engine::Fat(e) => e.volume.directory_at(path::relative(dir)) matches Some(k)
                && e.volume.is_empty(k),
            Engine::Ext4(e) => e.volume.has_directory(dir) && e.holds_nothing(dir),
        }
    }

    /// Where an absolute path leads.
    pub open spec fn place(self, p: Seq<char>) -> Option<Place> {
        match self {
            Engine::Fat(e) => match e.volume.place(path::relative(p)) {
                Some((d, i)) => Some(Place::Fat(d, i)),
                None => None,
            },
            Engine::Ext4(e) => if e.volume.names.contains_key(p) {
                Some(Place::Ext4(e.volume.names[p]))
            } else {
                None
            },
        }
    }

    /// What kind of thing an absolute path leads to, and its content, which a
    /// directory does not have.
    pub open spec fn thing_at(self, p: Seq<char>) -> Option<(Seq<char>, Seq<u8>)> {
        match self {
            Engine::Fat(e) => match e.volume.node_at(path::relative(p)) {
                Some(n) => Some(
                    match n.body {
                        FatBody::File(c) => ("file"@, c),
                        FatBody::Directory(_) => ("directory"@, seq![]),
                    },
                ),
                None => None,
            },
            Engine::Ext4(e) => match e.volume.node_at(p) {
                Some(n) => Some(
                    (
                        n.facts.kind_name()@,
                        if n.facts.is_directory() {
                            seq![]
                        } else {
                            n.content
                        },
                    ),
                ),
                None => None,
            },
        }
    }

    /// Whether the directory that holds a path is small enough to be looked
    /// through.
    pub open spec fn scannable(self, p: Seq<char>) -> bool {
        match self {
            Engine::Fat(e) => match e.volume.directory_at(path::holder(p)) {
                Some(d) => e.volume.directories[d].len() <= MAX_ENTRIES,
                None => true,
            },
            Engine::Ext4(_) => true,
        }
    }

    /// Whether a lookup comes to what a path leads to: on FAT it goes through so
    /// many entries of a directory and no more.
    pub open spec fn reachable(self, p: Seq<char>) -> bool {
        self.place(p) matches Some(Place::Fat(_, i)) ==> i < MAX_ENTRIES
    }

    /// Whether an absolute path leads to what another leads to, or through it.
    pub open spec fn through(self, q: Seq<char>, p: Seq<char>) -> bool {
        match self {
            Engine::Fat(e) => e.volume.place(path::relative(p)) matches Some(at)
                && e.volume.through(path::relative(q), at),
            Engine::Ext4(_) => under(q, p),
        }
    }

    /// Whether two paths are names of one entry: on FAT where both lead to the
    /// same place, on ext4 where they are one path.
    pub open spec fn same_entry(self, p: Seq<char>, q: Seq<char>) -> bool {
        match self {
            Engine::Fat(_) => self.place(p) == self.place(q),
            Engine::Ext4(_) => p == q,
        }
    }

    /// The content of the file with this absolute path.
    pub open spec fn file_at(self, p: Seq<char>) -> Option<Seq<u8>> {
        match self {
            Engine::Fat(e) => e.volume.file_at(path::relative(p)),
            Engine::Ext4(e) => e.volume.file_at(p),
        }
    }

    /// Whether a file was given a new content, and nothing else was changed: every
    /// path leads where it led, and what it leads to elsewhere is the same; on ext4
    /// that is every other path.
    pub open spec fn rewrites(self, p: Seq<char>, now: Seq<u8>, after: Engine) -> bool {
        &&& after.kind() == self.kind()
        &&& after.valid()
        &&& self.file_at(p) is Some
        &&& after.file_at(p) == Some(now)
        &&& forall|q: Seq<char>| #[trigger] after.place(q) == self.place(q)
        &&& forall|q: Seq<char>|
            self.place(q) != self.place(p) ==> #[trigger] after.file_at(q) == self.file_at(q)
        &&& forall|q: Seq<char>|
            self is Ext4 && q != p && self.file_at(q) is Some ==> #[trigger] self.place(q)
                != self.place(p)
    }
}

/// The engine after the last of these.
pub open spec fn last_engine(e: Engine, after: Seq<Engine>) -> Engine {
    if after.len() == 0 {
        e
    } else {
        after.last()
    }
}

/// Whether an operation ran on a truthful engine and a device that did not fail:
/// `after` holds the engine after each of the events.
pub open spec fn truthful(
    e: Engine,
    s: SessionModel,
    op: Op,
    events: Seq<Event>,
    after: Seq<Engine>,
) -> bool
    decreases events.len(),
{
    &&& after.len() == events.len()
    &&& events.len() > 0 ==> {
        &&& truthful(e, s, op, events.drop_last(), after.drop_last())
        &&& !events.last().1
        &&& session_laws::progress(s, op, events.drop_last()).1 matches Next::Call(c, _)
        &&& last_engine(e, after.drop_last()).answers(c, after.last(), events.last().0)
    }
}

} // verus!
