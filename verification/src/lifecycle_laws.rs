//! How a session begins, is inspected, is flushed and ends.

use vstd::prelude::*;

use crate::engine::CallModel;
use crate::engine::InodeFacts;
use crate::engine::Kind;
use crate::engine::ReplyModel;
use crate::journal;
use crate::journal::Volume;
use crate::lifecycle;
use crate::lifecycle::OpenStage;
use crate::lifecycle::Summary;
use crate::session::SessionModel;
use crate::session::StepModel;
use crate::session_laws;
use crate::session_laws::Event;
use crate::session_laws::Next;
use crate::session_laws::Op;
use crate::session_laws::Value;

verus! {

/// Whether the superblock of a volume, or that of its journal, records an error.
pub open spec fn has_error(v: Volume) -> bool {
    v.state & 2 != 0 || (v.journal matches Some(j) && j.errno != 0)
}

/// Whether a volume has a journal of the plain format that recovery reads: a second
/// version superblock without a feature but revocation and wide block numbers, with
/// the volume's block size, a log from block 1 that fits the volume, a start inside
/// it, one user and no error.
pub open spec fn has_plain_journal(v: Volume) -> bool {
    &&& v.journal matches Some(j)
    &&& j.block_type == 4
    &&& j.feature_compat == 0
    &&& j.feature_ro_compat == 0
    &&& j.feature_incompat & 0xffff_fffc == 0
    &&& j.block_size == v.block_size
    &&& j.first == 1
    &&& 2 <= j.max_len
    &&& j.max_len <= v.blocks_count
    &&& j.start < j.max_len
    &&& j.nr_users == 1
    &&& j.errno == 0
}

proof fn lemma_state(v: Volume)
    ensures
        has_error(v) == journal::records_error(v),
        has_plain_journal(v) == journal::journal_supported(v),
        (v.feature_incompat & 4 != 0) == journal::has_flag(v.feature_incompat as int, 4),
{
    let state = v.state;
    assert((state & 2 != 0) == (state / 2 % 2 == 1)) by (bit_vector);
    let features = v.feature_incompat;
    assert((features & 4 != 0) == (features / 4 % 2 == 1)) by (bit_vector);
    if let Some(j) = v.journal {
        let f = j.feature_incompat;
        assert((f & 0xffff_fffc == 0) == (f <= 3)) by (bit_vector);
    }
}

/// What stands in the way of writing, in words, if anything does.
pub open spec fn in_the_way(v: Volume) -> Option<&'static str> {
    if has_error(v) {
        Some("filesystem or journal records an outstanding error")
    } else if !has_plain_journal(v) {
        Some("checked writes require a supported plain internal JBD2 journal")
    } else {
        None
    }
}

/// An inspection of an ext4 volume asks for its superblocks, once, and reports as
/// the write blocker nothing exactly where these record no error and the journal is
/// there, of the plain format and without an error of its own. That is exactly where
/// opening the same superblocks for writing goes on to recovery; anywhere else the
/// opening fails, for the reason that the inspection reports.
pub proof fn law_inspections_report_what_stops_writing(
    s: SessionModel,
    v: Volume,
    failed: bool,
    t: SessionModel,
)
    requires
        s.mounted,
        !s.device.retired,
        s.kind == Kind::Ext4,
        v.free_blocks_count * v.block_size <= 0xffff_ffff_ffff_ffff,
        v.r_blocks_count * v.block_size <= 0xffff_ffff_ffff_ffff,
        t.opening,
    ensures
        session_laws::start(s, Op::Inspect).1 matches Next::Call(c, _) && c
            == CallModel::ReadVolume,
        ({
            let events: Seq<Event> = seq![(ReplyModel::Superblocks(v), failed)];
            let (now, step) = t.resume_open(OpenStage::Inspecting, ReplyModel::Superblocks(v));
            &&& session_laws::progress(s, Op::Inspect, events).1 matches Next::Done(
                Ok(Value::Summary(Summary::Ext4(x))),
            )
            &&& x.write_blocker is None <==> !has_error(v) && has_plain_journal(v)
            &&& x.write_blocker is None <==> step == StepModel::<OpenStage, ()>::Call(
                CallModel::MountExt4 { recovering: true },
                OpenStage::Mounting,
            )
            &&& x.write_blocker == in_the_way(v)
            &&& match x.write_blocker {
                None => now == t,
                Some(why) => step == StepModel::<OpenStage, ()>::Done(Err("corrupt: "@ + why@))
                    && !now.mounted && !now.opening,
            }
        }),
{
    lemma_state(v);
    let events: Seq<Event> = seq![(ReplyModel::Superblocks(v), failed)];
    assert(events.drop_last() =~= seq![]);
    assert(session_laws::progress(s, Op::Inspect, events.drop_last()) == session_laws::start(
        s,
        Op::Inspect,
    ));
}

/// The rest of what an inspection of an ext4 volume reports: what the session and
/// its device are, the free and reserved space in bytes, whether recovery is due,
/// whether the journal is of the plain format, and the superblocks as they are.
pub proof fn law_ext4_inspections_report_the_volume(s: SessionModel, v: Volume, failed: bool)
    requires
        s.mounted,
        !s.device.retired,
        s.kind == Kind::Ext4,
        v.free_blocks_count * v.block_size <= 0xffff_ffff_ffff_ffff,
        v.r_blocks_count * v.block_size <= 0xffff_ffff_ffff_ffff,
    ensures
        ({
            let events: Seq<Event> = seq![(ReplyModel::Superblocks(v), failed)];
            &&& session_laws::progress(s, Op::Inspect, events).1 matches Next::Done(
                Ok(Value::Summary(Summary::Ext4(x))),
            )
            &&& x.writable == s.device.writable
            &&& x.device_bytes == s.device.size
            &&& x.free_bytes == v.free_blocks_count * v.block_size
            &&& x.reserved_bytes == v.r_blocks_count * v.block_size
            &&& x.needs_recovery == (v.feature_incompat & 4 != 0)
            &&& x.checked_write_format_supported == has_plain_journal(v)
            &&& x.volume == v
        }),
{
    lemma_state(v);
    let events: Seq<Event> = seq![(ReplyModel::Superblocks(v), failed)];
    assert(events.drop_last() =~= seq![]);
    assert(session_laws::progress(s, Op::Inspect, events.drop_last()) == session_laws::start(
        s,
        Op::Inspect,
    ));
    assert(0 <= v.free_blocks_count * v.block_size) by (nonlinear_arith);
    assert(0 <= v.r_blocks_count * v.block_size) by (nonlinear_arith);
}

/// An inspection of a FAT volume asks for its counts and its flag, and reports them:
/// the clusters and their size, what is free in bytes, and whether the volume was
/// left dirty.
pub proof fn law_fat_inspections_report_the_volume(
    s: SessionModel,
    cluster_size: u32,
    total: u32,
    free: u32,
    dirty: bool,
    failed: bool,
    failed_again: bool,
)
    requires
        s.mounted,
        !s.device.retired,
        s.kind == Kind::Fat,
    ensures
        session_laws::start(s, Op::Inspect).1 matches Next::Call(c, _) && c
            == CallModel::Statistics,
        ({
            let first: Event = (ReplyModel::Clusters { cluster_size, total, free }, failed);
            let second: Event = (ReplyModel::Dirty(dirty), failed_again);
            &&& session_laws::progress(s, Op::Inspect, seq![first]).1 matches Next::Call(d, _)
            &&& d == CallModel::StatusFlags
            &&& session_laws::progress(s, Op::Inspect, seq![first, second]).1 matches Next::Done(
                Ok(Value::Summary(Summary::Fat(x))),
            )
            &&& x.writable == s.device.writable
            &&& x.device_bytes == s.device.size
            &&& x.allocation_unit == cluster_size
            &&& x.total_units == total
            &&& x.free_bytes == free * cluster_size
            &&& x.dirty == dirty
        }),
{
    let first: Event = (ReplyModel::Clusters { cluster_size, total, free }, failed);
    let second: Event = (ReplyModel::Dirty(dirty), failed_again);
    let one = seq![first];
    let both = seq![first, second];
    assert(one.drop_last() =~= seq![]);
    assert(both.drop_last() =~= one);
    assert(session_laws::progress(s, Op::Inspect, one.drop_last()) == session_laws::start(
        s,
        Op::Inspect,
    ));
    assert(0 <= free * cluster_size <= 0xffff_ffff * 0xffff_ffff) by (nonlinear_arith)
        requires
            0 <= free <= 0xffff_ffff,
            0 <= cluster_size <= 0xffff_ffff,
    ;
}

/// What is told of a journal apart from an inspection of its volume is the same.
pub proof fn law_journals_are_told(v: Volume)
    ensures
        ({
            let i = journal::inspected(v);
            &&& i.needs_recovery == (v.feature_incompat & 4 != 0)
            &&& i.orphan_head == v.last_orphan
            &&& i.journal_start == match v.journal {
                Some(j) => Some(j.start),
                None => None,
            }
            &&& i.journal_error == match v.journal {
                Some(j) => Some(j.errno),
                None => None,
            }
            &&& i.write_blocker == in_the_way(v)
            &&& i.write_blocker is None <==> !has_error(v) && has_plain_journal(v)
        }),
{
    lemma_state(v);
}

/// A session is opened on FAT and on ext4, for writing only where the device takes
/// writes; it is not mounted before its engine is. FAT is mounted at once, ext4 for
/// reading too, without recovery; ext4 for writing is inspected first.
pub proof fn law_openings_mount_or_inspect(
    kind: Seq<char>,
    writable: bool,
    device_writable: bool,
    size: u64,
)
    ensures
        ({
            let r = lifecycle::opening(kind, writable, device_writable, size);
            &&& r is Ok <==> (kind == "fat"@ || kind == "ext4"@) && (writable ==> device_writable)
            &&& r matches Ok((s, step)) ==> {
                &&& s.opening && !s.mounted
                &&& !s.device.retired
                &&& s.device.size == size
                &&& s.device.writable == writable
                &&& kind == "fat"@ ==> s.kind == Kind::Fat && step == StepModel::<
                    OpenStage,
                    (),
                >::Call(CallModel::MountFat, OpenStage::Mounting)
                &&& kind == "ext4"@ ==> s.kind == Kind::Ext4 && step == if writable {
                    StepModel::<OpenStage, ()>::Call(
                        CallModel::InspectExt4,
                        OpenStage::Inspecting,
                    )
                } else {
                    StepModel::<OpenStage, ()>::Call(
                        CallModel::MountExt4 { recovering: false },
                        OpenStage::Mounting,
                    )
                }
            }
        }),
{
    reveal_strlit("fat");
    reveal_strlit("ext4");
    assert("fat"@.len() == 3);
    assert("ext4"@.len() == 4);
}

/// Whether a reply says that a call went well.
pub open spec fn went_well(r: ReplyModel) -> bool {
    r is Done || r is Created
}

/// A session is mounted exactly where its engine was, and then takes operations; an
/// opening that is over is not taken up again.
pub proof fn law_sessions_are_mounted_with_their_engine(s: SessionModel, r: ReplyModel)
    ensures
        ({
            let (t, step) = s.resume_open(OpenStage::Mounting, r);
            if s.opening {
                &&& step matches StepModel::Done(outcome)
                &&& outcome is Ok <==> went_well(r)
                &&& t == (SessionModel { opening: false, mounted: went_well(r), ..s })
            } else {
                t == s && step is Done && step->Done_0 is Err
            }
        }),
        !s.opening ==> s.resume_open(OpenStage::Inspecting, r).0 == s && s.resume_open(
            OpenStage::Inspecting,
            r,
        ).1 is Done,
{
}

/// An opening that its engine fails at fails for the engine's reason, and leaves no
/// session that takes operations.
pub proof fn law_failed_openings_say_why(s: SessionModel, stage: OpenStage, why: Seq<char>)
    requires
        s.opening,
    ensures
        s.resume_open(stage, ReplyModel::Failed(why)) == (
            SessionModel { opening: false, mounted: false, ..s },
            StepModel::<OpenStage, ()>::Done(Err(why)),
        ),
{
}

/// Two steps of an operation.
proof fn lemma_two_steps(s: SessionModel, op: Op, a: Event, b: Event)
    ensures
        session_laws::progress(s, op, seq![]) == session_laws::start(s, op),
        session_laws::progress(s, op, seq![a]) == ({
            let (t, next) = session_laws::start(s, op);
            let u = if a.1 {
                t.retire()
            } else {
                t
            };
            match next {
                Next::Call(_, run) => session_laws::advance(u, run, a.0),
                Next::Done(ok) => (u, Next::Done(ok)),
            }
        }),
        session_laws::progress(s, op, seq![a, b]) == ({
            let (t, next) = session_laws::progress(s, op, seq![a]);
            let u = if b.1 {
                t.retire()
            } else {
                t
            };
            match next {
                Next::Call(_, run) => session_laws::advance(u, run, b.0),
                Next::Done(ok) => (u, Next::Done(ok)),
            }
        }),
{
    assert(seq![a].drop_last() =~= Seq::<Event>::empty());
    assert(seq![a, b].drop_last() =~= seq![a]);
    assert(session_laws::progress(s, op, seq![a].drop_last()) == session_laws::start(s, op));
}

/// Whether an operation has ended well, on this session.
pub open spec fn ends_well(at: (SessionModel, Next), s: SessionModel) -> bool {
    at == (s, Next::Done(Ok(Value::Nothing)))
}

/// Whether an operation has failed, and its device is out of use.
pub open spec fn ends_badly(at: (SessionModel, Next)) -> bool {
    at.0.device.retired && at.1 is Done && at.1->Done_0 is Err
}

/// Whether an operation asks for this call, on this session.
pub open spec fn asks(at: (SessionModel, Next), s: SessionModel, c: CallModel) -> bool {
    at.0 == s && (at.1 matches Next::Call(d, _) && c == d)
}

/// A flush writes out what the engine holds back, and what the device does after it;
/// it ends well where both did, and the session is what it was. Where one did not,
/// it fails and the session is retired. Where there is nothing to write, nothing is
/// asked for.
pub proof fn law_flushes_reach_the_device(s: SessionModel, a: ReplyModel, b: ReplyModel)
    requires
        s.mounted,
        !s.device.retired,
    ensures
        ({
            let first = session_laws::progress(s, Op::Flush, seq![]);
            let second = session_laws::progress(s, Op::Flush, seq![(a, false)]);
            let third = session_laws::progress(s, Op::Flush, seq![(a, false), (b, false)]);
            if s.device.writable {
                &&& asks(first, s, CallModel::FlushEngine)
                &&& if went_well(a) {
                    &&& asks(second, s, CallModel::FlushDevice)
                    &&& if went_well(b) {
                        ends_well(third, s)
                    } else {
                        ends_badly(third)
                    }
                } else {
                    ends_badly(second)
                }
            } else {
                ends_well(first, s)
            }
        }),
{
    lemma_two_steps(s, Op::Flush, (a, false), (b, false));
}

/// A fresh read writes out what the engine holds back, where the session may write,
/// and then drops what is cached; it ends well where both went well, and the session
/// is what it was. Where one did not, it fails and the session is retired.
pub proof fn law_fresh_reads_drop_the_cache(s: SessionModel, a: ReplyModel, b: ReplyModel)
    requires
        s.mounted,
        !s.device.retired,
    ensures
        ({
            let first = session_laws::progress(s, Op::FreshRead, seq![]);
            let second = session_laws::progress(s, Op::FreshRead, seq![(a, false)]);
            let third = session_laws::progress(s, Op::FreshRead, seq![(a, false), (b, false)]);
            if s.device.writable {
                &&& asks(first, s, CallModel::FlushEngine)
                &&& if went_well(a) {
                    &&& asks(second, s, CallModel::Refresh)
                    &&& if went_well(b) {
                        ends_well(third, s)
                    } else {
                        ends_badly(third)
                    }
                } else {
                    ends_badly(second)
                }
            } else {
                &&& asks(first, s, CallModel::Refresh)
                &&& if went_well(a) {
                    ends_well(second, s)
                } else {
                    ends_badly(second)
                }
            }
        }),
{
    lemma_two_steps(s, Op::FreshRead, (a, false), (b, false));
}

/// A finish unmounts a session that may write and has its device write out the rest;
/// it ends well where both went well, and fails otherwise. Any other session is over
/// at once. None is mounted afterwards.
pub proof fn law_finishes_unmount_and_flush(s: SessionModel, a: ReplyModel, b: ReplyModel)
    requires
        s.mounted,
        !s.device.retired,
    ensures
        ({
            let gone = SessionModel { mounted: false, ..s };
            let first = session_laws::progress(s, Op::Finish, seq![]);
            let second = session_laws::progress(s, Op::Finish, seq![(a, false)]);
            let third = session_laws::progress(s, Op::Finish, seq![(a, false), (b, false)]);
            if s.device.writable {
                &&& asks(first, gone, CallModel::Unmount)
                &&& if went_well(a) {
                    &&& asks(second, gone, CallModel::FlushDevice)
                    &&& if went_well(b) {
                        ends_well(third, gone)
                    } else {
                        third.0 == gone && third.1 is Done && third.1->Done_0 is Err
                    }
                } else {
                    ends_badly(second) && !second.0.mounted
                }
            } else {
                &&& first.1 == Next::Done(Ok(Value::Nothing))
                &&& first.0.device.retired && !first.0.mounted
            }
        }),
{
    lemma_two_steps(s, Op::Finish, (a, false), (b, false));
}

/// What kind of thing an inode is, by the type in its mode.
pub proof fn law_kinds_follow_the_mode(i: InodeFacts)
    ensures
        i.is_directory() <==> i.mode & 0xf000 == 0x4000,
        i.is_file() <==> i.mode & 0xf000 == 0x8000,
        i.is_link() <==> i.mode & 0xf000 == 0xa000,
        i.is_inline() <==> i.flags & 0x1000_0000 != 0,
        i.kind_name() == if i.mode & 0xf000 == 0xa000 {
            "symlink"
        } else if i.mode & 0xf000 == 0x4000 {
            "directory"
        } else if i.mode & 0xf000 == 0x8000 {
            "file"
        } else {
            "other"
        },
{
    let m = i.mode;
    let f = i.flags;
    assert((m & 0xf000 == 0x4000) == (m / 0x1000 == 4)) by (bit_vector);
    assert((m & 0xf000 == 0x8000) == (m / 0x1000 == 8)) by (bit_vector);
    assert((m & 0xf000 == 0xa000) == (m / 0x1000 == 10)) by (bit_vector);
    assert((f & 0x1000_0000 != 0) == (f / 0x1000_0000 % 2 == 1)) by (bit_vector);
}

} // verus!
