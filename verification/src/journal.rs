//! What the superblocks of an ext4 volume and of its journal say, and whether
//! checked writes are possible over them.

use vstd::prelude::*;

verus! {

/// What a journal superblock holds, as far as anything here depends on it.
#[derive(Clone, Copy, Debug)]
pub struct Journal {
    pub block_type: u32,
    pub block_size: u32,
    pub max_len: u32,
    pub first: u32,
    pub sequence: u32,
    pub start: u32,
    pub errno: u32,
    pub feature_compat: u32,
    pub feature_incompat: u32,
    pub feature_ro_compat: u32,
    pub nr_users: u32,
}

/// What the superblock of a volume holds, as far as anything here depends on it.
#[derive(Clone, Copy, Debug)]
pub struct Volume {
    pub block_size: u32,
    pub blocks_count: u64,
    pub free_blocks_count: u64,
    pub r_blocks_count: u64,
    pub free_inodes_count: u32,
    pub uuid: [u8; 16],
    pub feature_compat: u32,
    pub feature_incompat: u32,
    pub feature_ro_compat: u32,
    pub state: u16,
    pub last_orphan: u32,
    pub journal: Option<Journal>,
}

/// What the recovery and write lifecycle of a volume depends on.
#[derive(Clone, Copy, Debug)]
pub struct Inspection {
    pub needs_recovery: bool,
    pub orphan_head: u32,
    pub journal_start: Option<u32>,
    pub journal_error: Option<u32>,
    pub write_blocker: Option<&'static str>,
}

/// Whether the journal has the one plain internal format that checked recovery
/// supports: no features but revocation and 64-bit block numbers, a second
/// version superblock of the volume's block size, a log that starts at block 1
/// and fits the volume, a cursor inside the log, one user and no error.
pub open spec fn plain_recovery(j: Journal, block_size: u32, blocks_count: u64) -> bool {
    &&& j.feature_compat == 0
    &&& j.feature_ro_compat == 0
    &&& j.feature_incompat <= 3
    &&& j.block_type == 4
    &&& j.block_size == block_size
    &&& j.first == 1
    &&& 1 < j.max_len <= blocks_count
    &&& j.start < j.max_len
    &&& j.nr_users == 1
    &&& j.errno == 0
}

/// Whether bit `weight` (a power of two) is set in `flags`.
pub open spec fn has_flag(flags: int, weight: int) -> bool {
    flags / weight % 2 == 1
}

/// Whether the volume or its journal records an error.
pub open spec fn records_error(v: Volume) -> bool {
    has_flag(v.state as int, 2) || (v.journal matches Some(j) && j.errno != 0)
}

/// Whether the volume has a journal that checked recovery supports.
pub open spec fn journal_supported(v: Volume) -> bool {
    v.journal matches Some(j) && plain_recovery(j, v.block_size, v.blocks_count)
}

/// Why checked writes are refused, if they are. A set recovery flag and a
/// pending cursor are the normal state of a mounted journal and refuse nothing.
pub open spec fn blocker(v: Volume) -> Option<&'static str> {
    if records_error(v) {
        Some("filesystem or journal records an outstanding error")
    } else if !journal_supported(v) {
        Some("checked writes require a supported plain internal JBD2 journal")
    } else {
        None
    }
}

/// What an inspection of the volume says.
pub open spec fn inspected(v: Volume) -> Inspection {
    Inspection {
        needs_recovery: has_flag(v.feature_incompat as int, 4),
        orphan_head: v.last_orphan,
        journal_start: match v.journal {
            Some(j) => Some(j.start),
            None => None,
        },
        journal_error: match v.journal {
            Some(j) => Some(j.errno),
            None => None,
        },
        write_blocker: blocker(v),
    }
}

/// `fs_ext4::jbd2::JournalSuperblock::validate_plain_recovery`, on a superblock
/// with these fields; those that it does not read are zero. It accepts exactly
/// the journals of [`plain_recovery`].
#[verifier::external_body]
fn validate_plain_recovery(j: &Journal, block_size: u32, blocks_count: u64) -> (ok: bool)
    ensures
        ok == plain_recovery(*j, block_size, blocks_count),
{
    let (block_type, header_sequence, uuid) = (j.block_type, 0, [0; 16]);
    let (max_len, first, sequence, start) = (j.max_len, j.first, j.sequence, j.start);
    let (errno, feature_compat, nr_users) = (j.errno, j.feature_compat, j.nr_users);
    let (feature_incompat, feature_ro_compat) = (j.feature_incompat, j.feature_ro_compat);
    let (checksum_type, num_fc_blocks, checksum) = (0, 0, 0);
    fs_ext4::jbd2::JournalSuperblock {
        block_type, header_sequence, block_size: j.block_size, max_len, first, sequence,
        start, errno, feature_compat, feature_incompat, feature_ro_compat, uuid, nr_users,
        checksum_type, num_fc_blocks, checksum,
    }.validate_plain_recovery(block_size, blocks_count).is_ok()
}

/// Whether the volume has a journal that checked recovery supports.
pub fn is_journal_supported(v: &Volume) -> (yes: bool)
    ensures
        yes == journal_supported(*v),
{
    match &v.journal {
        Some(j) => validate_plain_recovery(j, v.block_size, v.blocks_count),
        None => false,
    }
}

/// Why checked writes are refused, if they are.
pub fn write_blocker(v: &Volume) -> (why: Option<&'static str>)
    ensures
        why == blocker(*v),
{
    let journal_error = match &v.journal {
        Some(j) => j.errno != 0,
        None => false,
    };
    if v.state / 2 % 2 == 1 || journal_error {
        Some("filesystem or journal records an outstanding error")
    } else if !is_journal_supported(v) {
        Some("checked writes require a supported plain internal JBD2 journal")
    } else {
        None
    }
}

/// Inspects a volume that was read through a read-only mount.
pub fn inspect(v: &Volume) -> (i: Inspection)
    ensures
        i == inspected(*v),
{
    Inspection {
        needs_recovery: v.feature_incompat / 4 % 2 == 1,
        orphan_head: v.last_orphan,
        journal_start: match &v.journal {
            Some(j) => Some(j.start),
            None => None,
        },
        journal_error: match &v.journal {
            Some(j) => Some(j.errno),
            None => None,
        },
        write_blocker: write_blocker(v),
    }
}

/// How a volume is mounted.
#[derive(Clone, Copy, Debug, PartialEq, Eq, Structural)]
pub enum MountMode {
    /// As it is: nothing is replayed.
    Plain,
    /// With checked recovery, which may write at once.
    Recovering,
}

/// How a volume is to be mounted, or why it is not. A device that takes writes
/// comes with the inspection of its volume, any other with none.
pub fn mount(inspection: Option<Inspection>) -> (r: Result<MountMode, &'static str>)
    ensures
        r == match inspection {
            None => Ok::<MountMode, &'static str>(MountMode::Plain),
            Some(i) => match i.write_blocker {
                Some(why) => Err(why),
                None => Ok(MountMode::Recovering),
            },
        },
{
    match inspection {
        None => Ok(MountMode::Plain),
        Some(i) => match i.write_blocker {
            Some(why) => Err(why),
            None => Ok(MountMode::Recovering),
        },
    }
}

/// Checked writes are possible exactly when nothing records an error and the
/// journal is a supported one; whether recovery is pending does not matter.
pub proof fn law_only_errors_and_formats_block_writes(v: Volume)
    ensures
        inspected(v).write_blocker is None <==> !has_flag(v.state as int, 2) && (v.journal matches Some(j)
            && plain_recovery(j, v.block_size, v.blocks_count)),
{
}

} // verus!
