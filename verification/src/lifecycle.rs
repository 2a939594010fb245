//! Opening, inspecting, flushing and finishing a session.

use vstd::prelude::*;
use vstd::string::StringExecFns;

use crate::engine;
use crate::engine::CallOf;
use crate::engine::Kind;
use crate::engine::Reply;
use crate::engine::ReplyModel;
use crate::engine::ReplyOf;
use crate::guard::GuardModel;
use crate::guard::Guarded;
use crate::journal;
use crate::journal::Volume;
use crate::session::unanswered;
use crate::session::Session;
use crate::session::SessionModel;
use crate::session::Step;
use crate::session::StepModel;
use crate::session::MAX_FILE_CHUNK;
use crate::text;

verus! {

/// The largest integer below which every integer is a double exactly.
pub const MAX_EXACT_INTEGER: u64 = 9_007_199_254_740_991;

/// What an opening in flight waits for.
#[derive(Clone, Copy, Debug, PartialEq, Eq, Structural)]
pub enum OpenStage {
    /// The volume is being inspected, before anything may write to it.
    Inspecting,
    /// The engine is being mounted.
    Mounting,
}

/// An opening in flight. Only a session begins one.
pub struct OpenRun {
    stage: OpenStage,
}

impl View for OpenRun {
    type V = OpenStage;

    closed spec fn view(&self) -> OpenStage {
        self.stage
    }
}

/// What a finish in flight waits for.
#[derive(Clone, Copy, Debug, PartialEq, Eq, Structural)]
pub enum FinishStage {
    Unmounting,
    Flushing,
}

/// A finish in flight. Only a session begins one.
pub struct FinishRun {
    stage: FinishStage,
}

impl View for FinishRun {
    type V = FinishStage;

    closed spec fn view(&self) -> FinishStage {
        self.stage
    }
}

/// What a flush or a refresh in flight waits for.
#[derive(Clone, Copy, Debug, PartialEq, Eq, Structural)]
pub enum LiveStage {
    FlushingEngine,
    FlushingDevice,
    FlushingBeforeRefresh,
    Refreshing,
}

/// A flush or a refresh in flight. Only a session begins one.
pub struct LiveRun {
    stage: LiveStage,
}

impl View for LiveRun {
    type V = LiveStage;

    closed spec fn view(&self) -> LiveStage {
        self.stage
    }
}

/// What an inspection in flight waits for.
#[derive(Clone, Copy, Debug)]
pub enum InspectStage {
    Counting,
    Flags { cluster_size: u32, total: u32, free: u32 },
    Reading,
}

/// An inspection in flight. Only a session begins one.
pub struct InspectRun {
    stage: InspectStage,
}

impl View for InspectRun {
    type V = InspectStage;

    closed spec fn view(&self) -> InspectStage {
        self.stage
    }
}

/// What an inspection says of a FAT volume.
#[derive(Clone, Copy, Debug)]
pub struct FatSummary {
    pub writable: bool,
    pub device_bytes: u64,
    pub allocation_unit: u32,
    pub total_units: u32,
    pub free_bytes: u64,
    pub dirty: bool,
}

/// What an inspection says of an ext4 volume.
#[derive(Clone, Copy, Debug)]
pub struct Ext4Summary {
    pub writable: bool,
    pub device_bytes: u64,
    pub free_bytes: u64,
    pub reserved_bytes: u64,
    pub needs_recovery: bool,
    pub checked_write_format_supported: bool,
    pub write_blocker: Option<&'static str>,
    /// The rest is as the superblocks have it.
    pub volume: Volume,
}

/// What an inspection says.
#[derive(Clone, Copy, Debug)]
pub enum Summary {
    Fat(FatSummary),
    Ext4(Ext4Summary),
}

impl View for Summary {
    type V = Summary;

    open spec fn view(&self) -> Summary {
        *self
    }
}

/// What a volume's counts are in bytes, where those fit.
pub open spec fn counts_fit(v: Volume) -> bool {
    v.free_blocks_count * v.block_size <= u64::MAX && v.r_blocks_count * v.block_size <= u64::MAX
}

/// What an inspection says of an ext4 volume.
pub open spec fn ext4_summary(s: SessionModel, v: Volume) -> Summary {
    Summary::Ext4(
        Ext4Summary {
            writable: s.device.writable,
            device_bytes: s.device.size,
            free_bytes: (v.free_blocks_count * v.block_size) as u64,
            reserved_bytes: (v.r_blocks_count * v.block_size) as u64,
            needs_recovery: journal::has_flag(v.feature_incompat as int, 4),
            checked_write_format_supported: journal::journal_supported(v),
            write_blocker: journal::blocker(v),
            volume: v,
        },
    )
}

/// What an inspection says of a FAT volume.
pub open spec fn fat_summary(
    s: SessionModel,
    cluster_size: u32,
    total: u32,
    free: u32,
    dirty: bool,
) -> Summary {
    Summary::Fat(
        FatSummary {
            writable: s.device.writable,
            device_bytes: s.device.size,
            allocation_unit: cluster_size,
            total_units: total,
            free_bytes: (free * cluster_size) as u64,
            dirty,
        },
    )
}

/// An opening: the session, not mounted yet, and the first step; or a refusal.
pub open spec fn opening(kind: Seq<char>, writable: bool, device_writable: bool, size: u64) -> Result<
    (SessionModel, StepModel<OpenStage, ()>),
    Seq<char>,
> {
    let device = GuardModel { size, writable, retired: false };
    if writable && !device_writable {
        Err("underlying storage is read-only"@)
    } else if kind == "fat"@ {
        Ok(
            (
                SessionModel { kind: Kind::Fat, opening: true, mounted: false, device },
                StepModel::Call(CallOf::MountFat, OpenStage::Mounting),
            ),
        )
    } else if kind == "ext4"@ {
        Ok(
            (
                SessionModel { kind: Kind::Ext4, opening: true, mounted: false, device },
                if writable {
                    StepModel::Call(CallOf::InspectExt4, OpenStage::Inspecting)
                } else {
                    StepModel::Call(CallOf::MountExt4 { recovering: false }, OpenStage::Mounting)
                },
            ),
        )
    } else {
        Err("filesystem must be fat or ext4"@)
    }
}

impl SessionModel {
    /// The session once its opening is over.
    pub open spec fn settle(self, mounted: bool) -> SessionModel {
        SessionModel { opening: false, mounted, ..self }
    }

    /// Takes the reply to the outstanding call of an opening. A session whose
    /// opening is over is not opened again.
    pub open spec fn resume_open(self, run: OpenStage, r: ReplyModel) -> (
        SessionModel,
        StepModel<OpenStage, ()>,
    ) {
        if !self.opening {
            (self, StepModel::Done(Err(engine::misplaced())))
        } else {
            match run {
                OpenStage::Inspecting => match r {
                    ReplyOf::Superblocks(v) => match journal::blocker(v) {
                        Some(why) => (
                            self.settle(false),
                            StepModel::Done(Err("corrupt: "@ + why@)),
                        ),
                        None => (
                            self,
                            StepModel::Call(
                                CallOf::MountExt4 { recovering: true },
                                OpenStage::Mounting,
                            ),
                        ),
                    },
                    _ => (self.settle(false), StepModel::Done(Err(engine::stray(r)))),
                },
                OpenStage::Mounting => {
                    let outcome = engine::plain_outcome(r);
                    (self.settle(outcome is Ok), StepModel::Done(outcome))
                },
            }
        }
    }

    /// Starts an inspection.
    pub open spec fn inspect(self) -> StepModel<InspectStage, Summary> {
        match self.engine() {
            Err(e) => StepModel::Done(Err(e)),
            Ok(Kind::Fat) => StepModel::Call(CallOf::Statistics, InspectStage::Counting),
            Ok(Kind::Ext4) => StepModel::Call(CallOf::ReadVolume, InspectStage::Reading),
        }
    }

    /// Takes the reply to the outstanding call of an inspection.
    pub open spec fn resume_inspection(self, run: InspectStage, r: ReplyModel) -> StepModel<
        InspectStage,
        Summary,
    > {
        match (run, r) {
            (InspectStage::Counting, ReplyOf::Clusters { cluster_size, total, free }) => {
                StepModel::Call(
                    CallOf::StatusFlags,
                    InspectStage::Flags { cluster_size, total, free },
                )
            },
            (InspectStage::Flags { cluster_size, total, free }, ReplyOf::Dirty(dirty)) => {
                StepModel::Done(Ok(fat_summary(self, cluster_size, total, free, dirty)))
            },
            (InspectStage::Reading, ReplyOf::Superblocks(v)) => StepModel::Done(
                Ok(ext4_summary(self, v)),
            ),
            _ => StepModel::Done(Err(engine::stray(r))),
        }
    }

    /// Starts a finish: a read-only session is aborted, a writable one is
    /// unmounted.
    pub open spec fn finish(self) -> (SessionModel, StepModel<FinishStage, ()>) {
        if !self.usable() {
            (self, StepModel::Done(Err("filesystem session is closed or retired"@)))
        } else if !self.device.writable {
            (self.retire().settle(false), StepModel::Done(Ok(())))
        } else {
            (
                SessionModel { mounted: false, ..self },
                StepModel::Call(CallOf::Unmount, FinishStage::Unmounting),
            )
        }
    }

    /// Takes the reply to the outstanding call of a finish.
    pub open spec fn resume_finish(self, run: FinishStage, r: ReplyModel) -> (
        SessionModel,
        StepModel<FinishStage, ()>,
    ) {
        let outcome = engine::plain_outcome(r);
        match run {
            FinishStage::Unmounting => match outcome {
                Ok(()) => (self, StepModel::Call(CallOf::FlushDevice, FinishStage::Flushing)),
                Err(e) => (self.retire(), StepModel::Done(Err(e))),
            },
            FinishStage::Flushing => (self, StepModel::Done(outcome)),
        }
    }

    /// Starts a flush that keeps the mount. A read-only session has nothing to
    /// flush.
    pub open spec fn flush(self) -> StepModel<LiveStage, ()> {
        match self.engine() {
            Err(e) => StepModel::Done(Err(e)),
            Ok(_) => if self.device.writable {
                StepModel::Call(CallOf::FlushEngine, LiveStage::FlushingEngine)
            } else {
                StepModel::Done(Ok(()))
            },
        }
    }

    /// Starts a refresh: what is cached is written out, where the session may
    /// write, and dropped, so that the next read comes from the device.
    pub open spec fn fresh_read(self) -> StepModel<LiveStage, ()> {
        match self.engine() {
            Err(e) => StepModel::Done(Err(e)),
            Ok(_) => if self.device.writable {
                StepModel::Call(CallOf::FlushEngine, LiveStage::FlushingBeforeRefresh)
            } else {
                StepModel::Call(CallOf::Refresh, LiveStage::Refreshing)
            },
        }
    }

    /// Takes the reply to the outstanding call of a flush or a refresh.
    pub open spec fn resume_live(self, run: LiveStage, r: ReplyModel) -> (
        SessionModel,
        StepModel<LiveStage, ()>,
    ) {
        let outcome = engine::plain_outcome(r);
        match (run, outcome) {
            (LiveStage::FlushingEngine, Ok(())) => (
                self,
                StepModel::Call(CallOf::FlushDevice, LiveStage::FlushingDevice),
            ),
            (LiveStage::FlushingBeforeRefresh, Ok(())) => (
                self,
                StepModel::Call(CallOf::Refresh, LiveStage::Refreshing),
            ),
            _ => (self.mutation(outcome), StepModel::Done(outcome)),
        }
    }
}

/// An opening by its views.
pub open spec fn opening_view(r: Result<(Session, Step<OpenRun, ()>), String>) -> Result<
    (SessionModel, StepModel<OpenStage, ()>),
    Seq<char>,
> {
    match r {
        Ok((s, step)) => Ok((s@, step@)),
        Err(e) => Err(e@),
    }
}

/// Accepts a capacity that every number format of a caller holds exactly, or
/// says why not.
pub fn check_capacity(length: u64) -> (r: Result<(), String>)
    ensures
        r is Ok <==> 0 < length <= 0x1f_ffff_ffff_ffff,
        r matches Err(e) ==> e@ == "filesystem capacity is not exactly representable"@,
{
    if length == 0 || length > MAX_EXACT_INTEGER {
        return Err("filesystem capacity is not exactly representable".to_owned());
    }
    Ok(())
}

/// Accepts the length of a write before its bytes are copied, or says why not.
pub fn check_write_length(length: usize) -> (r: Result<(), String>)
    ensures
        r is Ok <==> length <= 0x40_0000,
        r matches Err(e) ==> e@ == "file write exceeds4MiB"@,
{
    if length > MAX_FILE_CHUNK {
        return Err("file write exceeds4MiB".to_owned());
    }
    Ok(())
}

impl Session {
    /// Opens a volume on a device of `size` bytes. For a writable ext4 volume,
    /// recovery starts with this: the owner has saved and reopened a backup.
    pub fn open(kind: &str, writable: bool, device_writable: bool, size: u64) -> (r: Result<
        (Session, Step<OpenRun, ()>),
        String,
    >)
        ensures
            opening_view(r) == opening(kind@, writable, device_writable, size),
    {
        if writable && !device_writable {
            return Err("underlying storage is read-only".to_owned());
        }
        let device = Guarded::new(size, writable);
        if text::same(kind, "fat") {
            return Ok(
                (
                    Session::unmounted(Kind::Fat, device),
                    Step::Call(CallOf::MountFat, OpenRun { stage: OpenStage::Mounting }),
                ),
            );
        }
        if text::same(kind, "ext4") {
            let step = if writable {
                Step::Call(CallOf::InspectExt4, OpenRun { stage: OpenStage::Inspecting })
            } else {
                Step::Call(CallOf::MountExt4 { recovering: false }, OpenRun { stage: OpenStage::Mounting })
            };
            return Ok((Session::unmounted(Kind::Ext4, device), step));
        }
        Err("filesystem must be fat or ext4".to_owned())
    }

    /// Takes the reply to the outstanding call of an opening.
    pub fn resume_open(&mut self, run: OpenRun, reply: Reply) -> (step: Step<OpenRun, ()>)
        ensures
            (final(self)@, step@) == old(self)@.resume_open(run@, reply@),
    {
        if !self.is_opening() {
            return unanswered();
        }
        match run.stage {
            OpenStage::Inspecting => match reply {
                ReplyOf::Superblocks(v) => match journal::write_blocker(&v) {
                    Some(why) => {
                        self.settle(false);
                        Step::Done(Err("corrupt: ".to_owned().concat(why)))
                    },
                    None => Step::Call(
                        CallOf::MountExt4 { recovering: true },
                        OpenRun { stage: OpenStage::Mounting },
                    ),
                },
                _ => {
                    self.settle(false);
                    Step::Done(Err(engine::stray_reply(reply)))
                },
            },
            OpenStage::Mounting => {
                let outcome = engine::plainly(reply);
                self.settle(outcome.is_ok());
                Step::Done(outcome)
            },
        }
    }

    /// Inspects the volume, without changing it.
    pub fn inspect(&self) -> (step: Step<InspectRun, Summary>)
        ensures
            step@ == self@.inspect(),
    {
        match self.engine() {
            Err(e) => Step::Done(Err(e)),
            Ok(Kind::Fat) => Step::Call(CallOf::Statistics, InspectRun { stage: InspectStage::Counting }),
            Ok(Kind::Ext4) => Step::Call(CallOf::ReadVolume, InspectRun { stage: InspectStage::Reading }),
        }
    }

    /// Takes the reply to the outstanding call of an inspection. The byte counts
    /// of a volume fit in 64 bits.
    pub fn resume_inspection(&self, run: InspectRun, reply: Reply) -> (step: Step<
        InspectRun,
        Summary,
    >)
        requires
            reply matches ReplyOf::Superblocks(v) ==> counts_fit(v),
        ensures
            step@ == self@.resume_inspection(run@, reply@),
    {
        match run.stage {
            InspectStage::Counting => match reply {
                ReplyOf::Clusters { cluster_size, total, free } => Step::Call(
                    CallOf::StatusFlags,
                    InspectRun { stage: InspectStage::Flags { cluster_size, total, free } },
                ),
                _ => Step::Done(Err(engine::stray_reply(reply))),
            },
            InspectStage::Flags { cluster_size, total, free } => match reply {
                ReplyOf::Dirty(dirty) => {
                    assert(0 <= free * cluster_size <= 0xffff_ffff * 0xffff_ffff)
                        by (nonlinear_arith)
                        requires
                            0 <= free <= 0xffff_ffff,
                            0 <= cluster_size <= 0xffff_ffff,
                    ;
                    Step::Done(
                        Ok(
                            Summary::Fat(
                                FatSummary {
                                    writable: self.is_writable(),
                                    device_bytes: self.device_bytes(),
                                    allocation_unit: cluster_size,
                                    total_units: total,
                                    free_bytes: free as u64 * cluster_size as u64,
                                    dirty,
                                },
                            ),
                        ),
                    )
                },
                _ => Step::Done(Err(engine::stray_reply(reply))),
            },
            InspectStage::Reading => match reply {
                ReplyOf::Superblocks(v) => Step::Done(
                    Ok(
                        Summary::Ext4(
                            Ext4Summary {
                                writable: self.is_writable(),
                                device_bytes: self.device_bytes(),
                                free_bytes: v.free_blocks_count * v.block_size as u64,
                                reserved_bytes: v.r_blocks_count * v.block_size as u64,
                                needs_recovery: v.feature_incompat / 4 % 2 == 1,
                                checked_write_format_supported: journal::is_journal_supported(&v),
                                write_blocker: journal::write_blocker(&v),
                                volume: v,
                            },
                        ),
                    ),
                ),
                _ => Step::Done(Err(engine::stray_reply(reply))),
            },
        }
    }

    /// Finishes the session. A read-only one publishes nothing, not even what
    /// its engine has cached; a writable one is unmounted and flushed.
    pub fn finish(&mut self) -> (step: Step<FinishRun, ()>)
        ensures
            (final(self)@, step@) == old(self)@.finish(),
    {
        if !self.usable() {
            return Step::Done(Err("filesystem session is closed or retired".to_owned()));
        }
        if !self.is_writable() {
            self.abort();
            return Step::Done(Ok(()));
        }
        self.unmount();
        Step::Call(CallOf::Unmount, FinishRun { stage: FinishStage::Unmounting })
    }

    /// Takes the reply to the outstanding call of a finish.
    pub fn resume_finish(&mut self, run: FinishRun, reply: Reply) -> (step: Step<FinishRun, ()>)
        ensures
            (final(self)@, step@) == old(self)@.resume_finish(run@, reply@),
    {
        let outcome = engine::plainly(reply);
        match run.stage {
            FinishStage::Unmounting => match self.mutation(outcome) {
                Ok(()) => Step::Call(CallOf::FlushDevice, FinishRun { stage: FinishStage::Flushing }),
                Err(e) => Step::Done(Err(e)),
            },
            FinishStage::Flushing => Step::Done(outcome),
        }
    }

    /// Makes everything durable and keeps the mount.
    pub fn flush(&mut self) -> (step: Step<LiveRun, ()>)
        ensures
            (final(self)@, step@) == (old(self)@, old(self)@.flush()),
    {
        match self.engine() {
            Err(e) => Step::Done(Err(e)),
            Ok(_) => if self.is_writable() {
                Step::Call(CallOf::FlushEngine, LiveRun { stage: LiveStage::FlushingEngine })
            } else {
                Step::Done(Ok(()))
            },
        }
    }

    /// Lets the next read come from the device and keeps the mount.
    pub fn fresh_read(&mut self) -> (step: Step<LiveRun, ()>)
        ensures
            (final(self)@, step@) == (old(self)@, old(self)@.fresh_read()),
    {
        match self.engine() {
            Err(e) => Step::Done(Err(e)),
            Ok(_) => if self.is_writable() {
                Step::Call(CallOf::FlushEngine, LiveRun { stage: LiveStage::FlushingBeforeRefresh })
            } else {
                Step::Call(CallOf::Refresh, LiveRun { stage: LiveStage::Refreshing })
            },
        }
    }

    /// Takes the reply to the outstanding call of a flush or a refresh. A failed
    /// one retires the session.
    pub fn resume_live(&mut self, run: LiveRun, reply: Reply) -> (step: Step<LiveRun, ()>)
        ensures
            (final(self)@, step@) == old(self)@.resume_live(run@, reply@),
    {
        match self.mutation(engine::plainly(reply)) {
            Ok(()) => match run.stage {
                LiveStage::FlushingEngine => Step::Call(
                    CallOf::FlushDevice,
                    LiveRun { stage: LiveStage::FlushingDevice },
                ),
                LiveStage::FlushingBeforeRefresh => Step::Call(CallOf::Refresh, LiveRun { stage: LiveStage::Refreshing }),
                LiveStage::FlushingDevice => Step::Done(Ok(())),
                LiveStage::Refreshing => Step::Done(Ok(())),
            },
            Err(e) => Step::Done(Err(e)),
        }
    }
}

} // verus!
