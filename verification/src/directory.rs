//! The records of an ext4 directory block.

use vstd::prelude::*;

use crate::engine::InodeFacts;
use crate::engine::Layout;
use crate::journal;

verus! {

/// One record: a name and the inode it stands for.
pub struct DirRecord {
    pub inode: u32,
    pub name: Vec<u8>,
}

/// One record, as mathematics.
pub type RecordModel = (u32, Seq<u8>);

impl View for DirRecord {
    type V = RecordModel;

    open spec fn view(&self) -> RecordModel {
        (self.inode, self.name@)
    }
}

/// Records by their views.
pub open spec fn records_view(s: Seq<DirRecord>) -> Seq<RecordModel> {
    s.map_values(|d: DirRecord| d@)
}

/// A parsed block by its views.
pub open spec fn parsed_view(r: Result<Vec<DirRecord>, String>) -> Result<
    Seq<RecordModel>,
    Seq<char>,
> {
    match r {
        Ok(v) => Ok(records_view(v@)),
        Err(e) => Err(e@),
    }
}

/// The records of a directory block, or what is wrong with it: the name of what
/// `fs_ext4::dir::parse_block_verified` returns.
pub uninterp spec fn block_records(
    block: Seq<u8>,
    file_types: bool,
    inode: u32,
    generation: u32,
    checksum_seed: u32,
    checksums: bool,
) -> Result<Seq<(u32, Seq<u8>)>, Seq<char>>;

/// `fs_ext4::dir::parse_block_verified`: the records in use of a directory
/// block, once its checksum holds where it carries one; an error by its message.
#[verifier::external_body]
fn parse_block_verified(block: &[u8], inode: InodeFacts, layout: Layout) -> (r: Result<
    Vec<DirRecord>,
    String,
>)
    ensures
        parsed_view(r) == block_records(
            block@,
            layout.file_types,
            inode.number,
            inode.generation,
            layout.checksum_seed,
            layout.checksums,
        ),
{
    let csum = fs_ext4::checksum::Checksummer {
        seed: layout.checksum_seed,
        enabled: layout.checksums,
    };
    let (ino, generation) = (inode.number, inode.generation);
    fs_ext4::dir::parse_block_verified(block, layout.file_types, ino, generation, &csum)
        .map(|found| {
            found.into_iter().map(|e| DirRecord { inode: e.inode, name: e.name }).collect()
        })
        .map_err(|e| e.to_string())
}

/// Whether the records of a volume with these features tell the kinds of their
/// files.
pub fn has_file_types(feature_incompat: u32) -> (yes: bool)
    ensures
        yes == journal::has_flag(feature_incompat as int, 2),
        yes == (feature_incompat & 2 != 0),
{
    assert((feature_incompat & 2 != 0) == (feature_incompat / 2 % 2 == 1)) by (bit_vector);
    feature_incompat / 2 % 2 == 1
}

/// What the records of a block of this directory are.
pub open spec fn records_of(block: Seq<u8>, inode: InodeFacts, layout: Layout) -> Result<
    Seq<RecordModel>,
    Seq<char>,
> {
    block_records(
        block,
        layout.file_types,
        inode.number,
        inode.generation,
        layout.checksum_seed,
        layout.checksums,
    )
}

/// Parses a block of a directory.
pub fn parse_block(block: &Vec<u8>, inode: InodeFacts, layout: Layout) -> (r: Result<
    Vec<DirRecord>,
    String,
>)
    ensures
        parsed_view(r) == records_of(block@, inode, layout),
{
    parse_block_verified(block.as_slice(), inode, layout)
}

/// Whether a name is that of the directory itself or of its parent.
pub open spec fn is_dot(name: Seq<u8>) -> bool {
    name == seq![0x2eu8] || name == seq![0x2eu8, 0x2eu8]
}

/// Whether a name is that of the directory itself or of its parent.
pub fn names_dot(name: &Vec<u8>) -> (yes: bool)
    ensures
        yes == is_dot(name@),
{
    if name.len() == 1 && name[0] == 0x2e {
        assert(name@ =~= seq![0x2eu8]);
        return true;
    }
    if name.len() == 2 && name[0] == 0x2e && name[1] == 0x2e {
        assert(name@ =~= seq![0x2eu8, 0x2eu8]);
        return true;
    }
    proof {
        if name@ == seq![0x2eu8] {
            assert(name@[0] == 0x2e);
        }
        if name@ == seq![0x2eu8, 0x2eu8] {
            assert(name@[0] == 0x2e && name@[1] == 0x2e);
        }
    }
    false
}

} // verus!
