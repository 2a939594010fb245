//! A feasibility probe: one file is created, written, renamed and read back, and
//! another created and removed, on a volume that is there to be spoilt.

use vstd::prelude::*;

use crate::engine;
use crate::engine::Call;
use crate::engine::CallModel;
use crate::engine::CallOf;
use crate::engine::InodeFacts;
use crate::engine::Kind;
use crate::engine::Layout;
use crate::engine::Reply;
use crate::engine::ReplyModel;
use crate::engine::ReplyOf;
use crate::session::unanswered;
use crate::session::Step;
use crate::session::StepModel;

verus! {

/// Where a probe stands: which call of it is outstanding.
#[derive(Clone, Copy, Debug, PartialEq, Eq, Structural)]
pub enum ProbeStage {
    Create,
    Write,
    Flush,
    Rename,
    Open,
    Read,
    CreateOther,
    RemoveOther,
    Unmount,
    FlushDevice,
}

/// A probe in flight, over a type for bytes.
pub struct ProbeOf<B> {
    pub kind: Kind,
    pub payload: B,
    pub stage: ProbeStage,
    pub collected: B,
    /// ext4: the inode that was created.
    pub number: u32,
}

/// A probe in flight, as mathematics.
pub type ProbeModel = ProbeOf<Seq<u8>>;

impl View for ProbeOf<Vec<u8>> {
    type V = ProbeModel;

    open spec fn view(&self) -> ProbeModel {
        ProbeOf {
            kind: self.kind,
            payload: self.payload@,
            stage: self.stage,
            collected: self.collected@,
            number: self.number,
        }
    }
}

/// A step of a probe, by its views.
pub type ProbeStepModel = StepModel<ProbeModel, ()>;

impl ProbeOf<Seq<u8>> {
    /// The call that belongs to the stage.
    pub open spec fn call(self) -> CallModel {
        match (self.kind, self.stage) {
            (Kind::Fat, ProbeStage::Create) => CallOf::CreateFile("browser-stage.bin"@),
            (Kind::Fat, ProbeStage::Write) => CallOf::WriteAll(self.payload),
            (Kind::Fat, ProbeStage::Rename) => CallOf::RenameEntry(
                "browser-stage.bin"@,
                "browser-result.bin"@,
            ),
            (Kind::Fat, ProbeStage::Open) => CallOf::OpenFile("browser-result.bin"@),
            (Kind::Fat, ProbeStage::Read) => CallOf::ReadSome(
                (self.payload.len() - self.collected.len()) as usize,
            ),
            (Kind::Fat, ProbeStage::CreateOther) => CallOf::CreateFile("remove-me.txt"@),
            (Kind::Fat, ProbeStage::RemoveOther) => CallOf::RemoveEntry("remove-me.txt"@),
            (Kind::Ext4, ProbeStage::Create) => CallOf::CreateInode("/browser-stage.fat"@),
            (Kind::Ext4, ProbeStage::Write) => CallOf::WriteInode {
                path: "/browser-stage.fat"@,
                offset: 0,
                data: self.payload,
            },
            (Kind::Ext4, ProbeStage::Rename) => CallOf::RenameInode(
                "/browser-stage.fat"@,
                "/efisp.fat"@,
            ),
            (Kind::Ext4, ProbeStage::Open) => CallOf::OpenInode(self.number),
            (Kind::Ext4, ProbeStage::Read) => CallOf::ReadWhole,
            (Kind::Ext4, ProbeStage::CreateOther) => CallOf::CreateInode("/remove-me.txt"@),
            (Kind::Ext4, ProbeStage::RemoveOther) => CallOf::Unlink("/remove-me.txt"@),
            (_, ProbeStage::Flush) => CallOf::FlushFile,
            (_, ProbeStage::Unmount) => CallOf::Unmount,
            (_, ProbeStage::FlushDevice) => CallOf::FlushDevice,
        }
    }

    /// The probe at a stage, with its call.
    pub open spec fn at(self, stage: ProbeStage) -> ProbeStepModel {
        let next = ProbeOf { stage, ..self };
        StepModel::Call(next.call(), next)
    }

    /// Reads on, or goes on where everything was read.
    pub open spec fn reading(self) -> ProbeStepModel {
        if self.collected.len() >= self.payload.len() {
            self.compared()
        } else {
            self.at(ProbeStage::Read)
        }
    }

    /// Goes on where what was read is what was written.
    pub open spec fn compared(self) -> ProbeStepModel {
        if self.collected == self.payload {
            self.at(ProbeStage::CreateOther)
        } else {
            StepModel::Done(
                Err(
                    match self.kind {
                        Kind::Fat => "FAT readback differs"@,
                        Kind::Ext4 => "ext4 readback differs"@,
                    },
                ),
            )
        }
    }

    /// Takes what was read.
    pub open spec fn after_read(self, b: Seq<u8>) -> ProbeStepModel {
        match self.kind {
            Kind::Fat => if b.len() == 0 {
                StepModel::Done(Err("failed to fill whole buffer"@))
            } else if self.collected.len() + b.len() > self.payload.len() {
                StepModel::Done(Err(engine::misplaced()))
            } else {
                ProbeOf { collected: self.collected + b, ..self }.reading()
            },
            Kind::Ext4 => ProbeOf { collected: b, ..self }.compared(),
        }
    }

    /// Takes the reply to the outstanding call.
    pub open spec fn resume(self, r: ReplyModel) -> ProbeStepModel {
        match (self.stage, r) {
            (ProbeStage::Read, ReplyOf::Bytes(b)) => self.after_read(b),
            (ProbeStage::Read, _) => StepModel::Done(Err(engine::stray(r))),
            (ProbeStage::Create, ReplyOf::Created(number)) => match self.kind {
                Kind::Fat => StepModel::Done(Err(engine::misplaced())),
                Kind::Ext4 => ProbeOf { number, ..self }.at(ProbeStage::Write),
            },
            (ProbeStage::Open, ReplyOf::Resolved(_, _)) => match self.kind {
                Kind::Fat => StepModel::Done(Err(engine::misplaced())),
                Kind::Ext4 => ProbeOf { collected: seq![], ..self }.at(ProbeStage::Read),
            },
            _ => match engine::plain_outcome(r) {
                Err(e) => StepModel::Done(Err(e)),
                Ok(()) => match self.stage {
                    ProbeStage::Create => match self.kind {
                        Kind::Fat => self.at(ProbeStage::Write),
                        Kind::Ext4 => StepModel::Done(Err(engine::misplaced())),
                    },
                    ProbeStage::Write => match self.kind {
                        Kind::Fat => self.at(ProbeStage::Flush),
                        Kind::Ext4 => self.at(ProbeStage::Rename),
                    },
                    ProbeStage::Flush => self.at(ProbeStage::Rename),
                    ProbeStage::Rename => self.at(ProbeStage::Open),
                    ProbeStage::Open => match self.kind {
                        Kind::Fat => self.reading(),
                        Kind::Ext4 => StepModel::Done(Err(engine::misplaced())),
                    },
                    ProbeStage::Read => StepModel::Done(Err(engine::misplaced())),
                    ProbeStage::CreateOther => self.at(ProbeStage::RemoveOther),
                    ProbeStage::RemoveOther => match self.kind {
                        Kind::Fat => self.at(ProbeStage::Unmount),
                        Kind::Ext4 => self.at(ProbeStage::FlushDevice),
                    },
                    ProbeStage::Unmount => self.at(ProbeStage::FlushDevice),
                    ProbeStage::FlushDevice => StepModel::Done(Ok(())),
                },
            },
        }
    }
}

/// A probe in flight. Only [`ProbeRun::start`] begins one.
pub struct ProbeRun {
    state: ProbeOf<Vec<u8>>,
}

impl View for ProbeRun {
    type V = ProbeModel;

    closed spec fn view(&self) -> ProbeModel {
        self.state@
    }
}

impl ProbeRun {
    /// Starts a probe of a mounted volume.
    pub fn start(kind: Kind, payload: &[u8]) -> (step: Step<ProbeRun, ()>)
        ensures
            step@ == started(kind, payload@),
    {
        ProbeOf {
            kind,
            payload: vstd::slice::slice_to_vec(payload),
            stage: ProbeStage::Create,
            collected: Vec::new(),
            number: 0,
        }.at(ProbeStage::Create)
    }

    /// Takes the reply to the outstanding call.
    pub fn resume(self, reply: Reply) -> (step: Step<ProbeRun, ()>)
        ensures
            step@ == self@.resume(reply@),
    {
        self.state.resume(reply)
    }
}

impl ProbeOf<Vec<u8>> {
    fn call(&self) -> (c: Call)
        requires
            self@.stage == ProbeStage::Read ==> self@.collected.len() <= self@.payload.len(),
        ensures
            c@ == self@.call(),
    {
        match (self.kind, self.stage) {
            (Kind::Fat, ProbeStage::Create) => CallOf::CreateFile("browser-stage.bin".to_owned()),
            (Kind::Fat, ProbeStage::Write) => CallOf::WriteAll(self.payload.clone()),
            (Kind::Fat, ProbeStage::Rename) => CallOf::RenameEntry(
                "browser-stage.bin".to_owned(),
                "browser-result.bin".to_owned(),
            ),
            (Kind::Fat, ProbeStage::Open) => CallOf::OpenFile("browser-result.bin".to_owned()),
            (Kind::Fat, ProbeStage::Read) => CallOf::ReadSome(
                self.payload.len() - self.collected.len(),
            ),
            (Kind::Fat, ProbeStage::CreateOther) => CallOf::CreateFile("remove-me.txt".to_owned()),
            (Kind::Fat, ProbeStage::RemoveOther) => CallOf::RemoveEntry(
                "remove-me.txt".to_owned(),
            ),
            (Kind::Ext4, ProbeStage::Create) => CallOf::CreateInode(
                "/browser-stage.fat".to_owned(),
            ),
            (Kind::Ext4, ProbeStage::Write) => CallOf::WriteInode {
                path: "/browser-stage.fat".to_owned(),
                offset: 0,
                data: self.payload.clone(),
            },
            (Kind::Ext4, ProbeStage::Rename) => CallOf::RenameInode(
                "/browser-stage.fat".to_owned(),
                "/efisp.fat".to_owned(),
            ),
            (Kind::Ext4, ProbeStage::Open) => CallOf::OpenInode(self.number),
            (Kind::Ext4, ProbeStage::Read) => CallOf::ReadWhole,
            (Kind::Ext4, ProbeStage::CreateOther) => CallOf::CreateInode(
                "/remove-me.txt".to_owned(),
            ),
            (Kind::Ext4, ProbeStage::RemoveOther) => CallOf::Unlink("/remove-me.txt".to_owned()),
            (_, ProbeStage::Flush) => CallOf::FlushFile,
            (_, ProbeStage::Unmount) => CallOf::Unmount,
            (_, ProbeStage::FlushDevice) => CallOf::FlushDevice,
        }
    }

    fn at(self, stage: ProbeStage) -> (step: Step<ProbeRun, ()>)
        requires
            stage == ProbeStage::Read ==> self@.collected.len() <= self@.payload.len(),
        ensures
            step@ == self@.at(stage),
    {
        let next = ProbeOf { stage, ..self };
        let call = next.call();
        Step::Call(call, ProbeRun { state: next })
    }

    fn reading(self) -> (step: Step<ProbeRun, ()>)
        ensures
            step@ == self@.reading(),
    {
        if self.collected.len() >= self.payload.len() {
            self.compared()
        } else {
            self.at(ProbeStage::Read)
        }
    }

    fn compared(self) -> (step: Step<ProbeRun, ()>)
        ensures
            step@ == self@.compared(),
    {
        if same_bytes(&self.collected, &self.payload) {
            return self.at(ProbeStage::CreateOther);
        }
        match self.kind {
            Kind::Fat => Step::Done(Err("FAT readback differs".to_owned())),
            Kind::Ext4 => Step::Done(Err("ext4 readback differs".to_owned())),
        }
    }

    fn after_read(self, b: Vec<u8>) -> (step: Step<ProbeRun, ()>)
        ensures
            step@ == self@.after_read(b@),
    {
        let ProbeOf { kind, payload, stage, collected, number } = self;
        match kind {
            Kind::Fat => {
                if b.len() == 0 {
                    return Step::Done(Err("failed to fill whole buffer".to_owned()));
                }
                if collected.len() > payload.len() || b.len() > payload.len() - collected.len() {
                    return unanswered();
                }
                let mut all = collected;
                let mut more = b;
                all.append(&mut more);
                ProbeOf { kind, payload, stage, collected: all, number }.reading()
            },
            Kind::Ext4 => ProbeOf { kind, payload, stage, collected: b, number }.compared(),
        }
    }

    fn resume(self, reply: Reply) -> (step: Step<ProbeRun, ()>)
        ensures
            step@ == self@.resume(reply@),
    {
        match self.stage {
            ProbeStage::Read => match reply {
                ReplyOf::Bytes(b) => self.after_read(b),
                _ => Step::Done(Err(engine::stray_reply(reply))),
            },
            ProbeStage::Create => match reply {
                ReplyOf::Created(number) => match self.kind {
                    Kind::Fat => unanswered(),
                    Kind::Ext4 => ProbeOf { number, ..self }.at(ProbeStage::Write),
                },
                _ => match engine::plainly(reply) {
                    Ok(()) => match self.kind {
                        Kind::Fat => self.at(ProbeStage::Write),
                        Kind::Ext4 => unanswered(),
                    },
                    Err(e) => Step::Done(Err(e)),
                },
            },
            ProbeStage::Open => match reply {
                ReplyOf::Resolved(_, _) => match self.kind {
                    Kind::Fat => unanswered(),
                    Kind::Ext4 => ProbeOf { collected: Vec::new(), ..self }.at(ProbeStage::Read),
                },
                _ => match engine::plainly(reply) {
                    Ok(()) => match self.kind {
                        Kind::Fat => self.reading(),
                        Kind::Ext4 => unanswered(),
                    },
                    Err(e) => Step::Done(Err(e)),
                },
            },
            _ => match engine::plainly(reply) {
                Err(e) => Step::Done(Err(e)),
                Ok(()) => match (self.stage, self.kind) {
                    (ProbeStage::Write, Kind::Fat) => self.at(ProbeStage::Flush),
                    (ProbeStage::Write, Kind::Ext4) => self.at(ProbeStage::Rename),
                    (ProbeStage::Flush, _) => self.at(ProbeStage::Rename),
                    (ProbeStage::Rename, _) => self.at(ProbeStage::Open),
                    (ProbeStage::CreateOther, _) => self.at(ProbeStage::RemoveOther),
                    (ProbeStage::RemoveOther, Kind::Fat) => self.at(ProbeStage::Unmount),
                    (ProbeStage::RemoveOther, Kind::Ext4) => self.at(ProbeStage::FlushDevice),
                    (ProbeStage::Unmount, _) => self.at(ProbeStage::FlushDevice),
                    _ => Step::Done(Ok(())),
                },
            },
        }
    }
}

/// Whether two byte strings are the same.
fn same_bytes(a: &Vec<u8>, b: &Vec<u8>) -> (yes: bool)
    ensures
        yes == (a@ == b@),
{
    if a.len() != b.len() {
        return false;
    }
    let mut i: usize = 0;
    while i < a.len()
        invariant
            i <= a@.len(),
            a@.len() == b@.len(),
            forall|k: int| 0 <= k < i ==> a@[k] == b@[k],
        decreases a@.len() - i,
    {
        if a[i] != b[i] {
            return false;
        }
        i = i + 1;
    }
    assert(a@ =~= b@);
    true
}

/// A probe goes past its read only where it read back exactly what it wrote.
pub proof fn law_probe_passes_only_on_equal_readback(x: ProbeModel, b: Seq<u8>)
    ensures
        x.after_read(b) matches StepModel::Call(_, next) ==> next.stage == ProbeStage::Read || (
        next.stage == ProbeStage::CreateOther && next.collected == x.payload),
{
}

/// The first step of a probe of a mounted volume.
pub open spec fn started(kind: Kind, payload: Seq<u8>) -> ProbeStepModel {
    ProbeModel { kind, payload, stage: ProbeStage::Create, collected: seq![], number: 0 }.at(
        ProbeStage::Create,
    )
}

/// Where a probe stands after these replies.
pub open spec fn probed(step: ProbeStepModel, replies: Seq<ReplyModel>) -> ProbeStepModel
    decreases replies.len(),
{
    if replies.len() == 0 {
        step
    } else {
        match probed(step, replies.drop_last()) {
            StepModel::Call(_, x) => x.resume(replies.last()),
            StepModel::Done(r) => StepModel::Done(r),
        }
    }
}

/// Whether a probe asks for this call.
pub open spec fn asks(step: ProbeStepModel, c: CallModel) -> bool {
    step matches StepModel::Call(d, _) && d == c
}

proof fn lemma_probed(step: ProbeStepModel, replies: Seq<ReplyModel>, n: int)
    requires
        0 <= n < replies.len(),
    ensures
        probed(step, replies.take(n + 1)) == match probed(step, replies.take(n)) {
            StepModel::Call(_, x) => x.resume(replies[n]),
            StepModel::Done(r) => StepModel::Done(r),
        },
{
    let more = replies.take(n + 1);
    assert(more.drop_last() =~= replies.take(n));
    assert(more.last() == replies[n]);
}

/// A probe of a FAT volume whose calls go well, and that reads back what it wrote,
/// makes these calls in this order, and passes.
pub proof fn law_fat_probes_go_all_the_way(payload: Seq<u8>)
    requires
        0 < payload.len() <= usize::MAX,
    ensures
        ({
            let step = started(Kind::Fat, payload);
            let well = ReplyModel::Done;
            let replies = seq![
                well,
                well,
                well,
                well,
                well,
                ReplyModel::Bytes(payload),
                well,
                well,
                well,
                well,
            ];
            &&& asks(step, CallModel::CreateFile("browser-stage.bin"@))
            &&& asks(probed(step, replies.take(1)), CallModel::WriteAll(payload))
            &&& asks(probed(step, replies.take(2)), CallModel::FlushFile)
            &&& asks(
                probed(step, replies.take(3)),
                CallModel::RenameEntry("browser-stage.bin"@, "browser-result.bin"@),
            )
            &&& asks(probed(step, replies.take(4)), CallModel::OpenFile("browser-result.bin"@))
            &&& asks(probed(step, replies.take(5)), CallModel::ReadSome(payload.len() as usize))
            &&& asks(probed(step, replies.take(6)), CallModel::CreateFile("remove-me.txt"@))
            &&& asks(probed(step, replies.take(7)), CallModel::RemoveEntry("remove-me.txt"@))
            &&& asks(probed(step, replies.take(8)), CallModel::Unmount)
            &&& asks(probed(step, replies.take(9)), CallModel::FlushDevice)
            &&& probed(step, replies) == ProbeStepModel::Done(Ok(()))
        }),
{
    let step = started(Kind::Fat, payload);
    let well = ReplyModel::Done;
    let replies = seq![
        well,
        well,
        well,
        well,
        well,
        ReplyModel::Bytes(payload),
        well,
        well,
        well,
        well,
    ];
    assert(replies.take(0) =~= seq![]);
    assert(replies.take(10) =~= replies);
    assert(probed(step, replies.take(0)) == step);
    lemma_probed(step, replies, 0);
    lemma_probed(step, replies, 1);
    lemma_probed(step, replies, 2);
    lemma_probed(step, replies, 3);
    lemma_probed(step, replies, 4);
    lemma_probed(step, replies, 5);
    assert(seq![] + payload =~= payload);
    lemma_probed(step, replies, 6);
    lemma_probed(step, replies, 7);
    lemma_probed(step, replies, 8);
    lemma_probed(step, replies, 9);
}

/// A probe of an ext4 volume whose calls go well, and that reads back what it wrote
/// from the inode that it created, makes these calls in this order, and passes.
pub proof fn law_ext4_probes_go_all_the_way(
    payload: Seq<u8>,
    number: u32,
    facts: InodeFacts,
    layout: Layout,
)
    ensures
        ({
            let step = started(Kind::Ext4, payload);
            let well = ReplyModel::Done;
            let replies = seq![
                ReplyModel::Created(number),
                well,
                well,
                ReplyModel::Resolved(facts, layout),
                ReplyModel::Bytes(payload),
                well,
                well,
                well,
            ];
            &&& asks(step, CallModel::CreateInode("/browser-stage.fat"@))
            &&& asks(
                probed(step, replies.take(1)),
                CallModel::WriteInode { path: "/browser-stage.fat"@, offset: 0, data: payload },
            )
            &&& asks(
                probed(step, replies.take(2)),
                CallModel::RenameInode("/browser-stage.fat"@, "/efisp.fat"@),
            )
            &&& asks(probed(step, replies.take(3)), CallModel::OpenInode(number))
            &&& asks(probed(step, replies.take(4)), CallModel::ReadWhole)
            &&& asks(probed(step, replies.take(5)), CallModel::CreateInode("/remove-me.txt"@))
            &&& asks(probed(step, replies.take(6)), CallModel::Unlink("/remove-me.txt"@))
            &&& asks(probed(step, replies.take(7)), CallModel::FlushDevice)
            &&& probed(step, replies) == ProbeStepModel::Done(Ok(()))
        }),
{
    let step = started(Kind::Ext4, payload);
    let well = ReplyModel::Done;
    let replies = seq![
        ReplyModel::Created(number),
        well,
        well,
        ReplyModel::Resolved(facts, layout),
        ReplyModel::Bytes(payload),
        well,
        well,
        well,
    ];
    assert(replies.take(0) =~= seq![]);
    assert(replies.take(8) =~= replies);
    assert(probed(step, replies.take(0)) == step);
    lemma_probed(step, replies, 0);
    lemma_probed(step, replies, 1);
    lemma_probed(step, replies, 2);
    lemma_probed(step, replies, 3);
    lemma_probed(step, replies, 4);
    lemma_probed(step, replies, 5);
    lemma_probed(step, replies, 6);
    lemma_probed(step, replies, 7);
}

/// A probe of a FAT volume reads on until it has as much as it wrote, in whatever
/// pieces it comes: a piece that fits is taken, and the rest is asked for. It fails
/// where nothing comes, where too much does, and where all of it is not what was
/// written.
pub proof fn law_fat_probes_read_all(x: ProbeModel, b: Seq<u8>)
    requires
        x.kind == Kind::Fat,
        x.stage == ProbeStage::Read,
        x.collected.len() < x.payload.len() <= usize::MAX,
    ensures
        ({
            let next = x.resume(ReplyModel::Bytes(b));
            let left = x.payload.len() - x.collected.len() - b.len();
            if b.len() == 0 || left < 0 {
                next is Done && next->Done_0 is Err
            } else if left > 0 {
                asks(next, CallModel::ReadSome(left as usize)) && next->Call_1.collected
                    == x.collected + b && next->Call_1.payload == x.payload
            } else if x.collected + b == x.payload {
                asks(next, CallModel::CreateFile("remove-me.txt"@))
            } else {
                next is Done && next->Done_0 is Err
            }
        }),
{
}

/// A probe fails with the first call that does, for the reason that the engine gave.
pub proof fn law_probes_stop_at_the_first_failure(x: ProbeModel, why: Seq<char>)
    ensures
        x.resume(ReplyModel::Failed(why)) == ProbeStepModel::Done(Err(why)),
{
}

} // verus!
