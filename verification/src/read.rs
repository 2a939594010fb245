//! Reading from a file.

use vstd::prelude::*;

use crate::engine;
use crate::engine::Call;
use crate::engine::CallOf;
use crate::engine::Kind;
use crate::engine::Reply;
use crate::engine::ReplyModel;
use crate::engine::ReplyOf;
use crate::path;
use crate::session::unanswered;
use crate::session::Session;
use crate::session::SessionModel;
use crate::session::Step;
use crate::session::StepModel;
use crate::session::MAX_FILE_CHUNK;
use crate::stat;

verus! {

/// A read in flight.
pub enum ReadRunOf<B> {
    /// FAT: the file is being opened.
    Opening { offset: u64, length: usize },
    /// FAT: the file is being positioned.
    Seeking { length: usize },
    /// FAT: bytes are being collected.
    Reading { collected: B, length: usize },
    /// ext4: the path is being resolved.
    Resolving { offset: u64, length: usize },
    /// ext4: the bytes are being read.
    Fetching { length: usize },
}

/// A read in flight, as mathematics.
pub type ReadModel = ReadRunOf<Seq<u8>>;

/// What a step of a read is.
pub type ReadStepModel = StepModel<ReadModel, Seq<u8>>;

impl View for ReadRunOf<Vec<u8>> {
    type V = ReadModel;

    open spec fn view(&self) -> ReadModel {
        match *self {
            ReadRunOf::Opening { offset, length } => ReadRunOf::Opening { offset, length },
            ReadRunOf::Seeking { length } => ReadRunOf::Seeking { length },
            ReadRunOf::Reading { collected, length } => ReadRunOf::Reading {
                collected: collected@,
                length,
            },
            ReadRunOf::Resolving { offset, length } => ReadRunOf::Resolving { offset, length },
            ReadRunOf::Fetching { length } => ReadRunOf::Fetching { length },
        }
    }
}

/// A read in flight. Only a session begins one.
pub struct ReadRun {
    state: ReadRunOf<Vec<u8>>,
}

impl View for ReadRun {
    type V = ReadModel;

    closed spec fn view(&self) -> ReadModel {
        self.state@
    }
}

fn waiting(call: Call, state: ReadRunOf<Vec<u8>>) -> (step: Step<ReadRun, Vec<u8>>)
    ensures
        step@ == ReadStepModel::Call(call@, state@),
{
    Step::Call(call, ReadRun { state })
}

/// Asks for what is still missing, or ends with what there is.
pub open spec fn collect(collected: Seq<u8>, length: usize) -> ReadStepModel {
    if collected.len() < length {
        StepModel::Call(
            CallOf::ReadSome((length - collected.len()) as usize),
            ReadRunOf::Reading { collected, length },
        )
    } else {
        StepModel::Done(Ok(collected))
    }
}

impl SessionModel {
    /// Starts a read.
    pub open spec fn read(self, value: Seq<char>, offset: u64, length: usize) -> ReadStepModel {
        match path::refusal(value) {
            Some(why) => StepModel::Done(Err(why)),
            None => if length > MAX_FILE_CHUNK {
                StepModel::Done(Err("file read exceeds4MiB"@))
            } else {
                match self.engine() {
                    Err(e) => StepModel::Done(Err(e)),
                    Ok(Kind::Fat) => StepModel::Call(
                        CallOf::OpenFile(path::relative(value)),
                        ReadRunOf::Opening { offset, length },
                    ),
                    Ok(Kind::Ext4) => StepModel::Call(
                        CallOf::Resolve(value),
                        ReadRunOf::Resolving { offset, length },
                    ),
                }
            },
        }
    }
}

impl ReadRunOf<Seq<u8>> {
    /// Takes the reply to the outstanding call of a read.
    pub open spec fn resume(self, r: ReplyModel) -> ReadStepModel {
        match self {
            ReadRunOf::Opening { offset, length } => match engine::plain_outcome(r) {
                Ok(()) => StepModel::Call(CallOf::Seek(offset), ReadRunOf::Seeking { length }),
                Err(e) => StepModel::Done(Err(e)),
            },
            ReadRunOf::Seeking { length } => match engine::plain_outcome(r) {
                Ok(()) => collect(seq![], length),
                Err(e) => StepModel::Done(Err(e)),
            },
            ReadRunOf::Reading { collected, length } => match r {
                ReplyOf::Bytes(b) => if b.len() == 0 {
                    StepModel::Done(Ok(collected))
                } else if b.len() > length - collected.len() {
                    StepModel::Done(Err(engine::misplaced()))
                } else {
                    collect(collected + b, length)
                },
                _ => StepModel::Done(Err(engine::stray(r))),
            },
            ReadRunOf::Resolving { offset, length } => match stat::resolved(r) {
                Ok((inode, _)) => if inode.is_file() {
                    StepModel::Call(
                        CallOf::ReadFile { offset, wanted: length },
                        ReadRunOf::Fetching { length },
                    )
                } else {
                    StepModel::Done(Err("not a regular file"@))
                },
                Err(e) => StepModel::Done(Err(e)),
            },
            ReadRunOf::Fetching { length } => match r {
                ReplyOf::Bytes(b) => if b.len() > length {
                    StepModel::Done(Err(engine::misplaced()))
                } else {
                    StepModel::Done(Ok(b))
                },
                _ => StepModel::Done(Err(engine::stray(r))),
            },
        }
    }
}

fn collect_more(collected: Vec<u8>, length: usize) -> (step: Step<ReadRun, Vec<u8>>)
    ensures
        step@ == collect(collected@, length),
{
    if collected.len() < length {
        waiting(
            CallOf::ReadSome(length - collected.len()),
            ReadRunOf::Reading { collected, length },
        )
    } else {
        Step::Done(Ok(collected))
    }
}

impl Session {
    /// Reads at most `length` bytes of a file from `offset`; fewer come where
    /// the file ends.
    pub fn read(&self, value: &str, offset: u64, length: usize) -> (step: Step<ReadRun, Vec<u8>>)
        ensures
            step@ == self@.read(value@, offset, length),
    {
        if let Err(e) = path::path(value) {
            return Step::Done(Err(e));
        }
        proof {
            path::lemma_accepted_is_absolute(value@);
        }
        if length > MAX_FILE_CHUNK {
            return Step::Done(Err("file read exceeds4MiB".to_owned()));
        }
        match self.engine() {
            Err(e) => Step::Done(Err(e)),
            Ok(Kind::Fat) => waiting(
                CallOf::OpenFile(path::relative_of(value)),
                ReadRunOf::Opening { offset, length },
            ),
            Ok(Kind::Ext4) => waiting(
                CallOf::Resolve(value.to_owned()),
                ReadRunOf::Resolving { offset, length },
            ),
        }
    }
}

impl ReadRun {
    /// Takes the reply to the outstanding call.
    pub fn resume(self, reply: Reply) -> (step: Step<ReadRun, Vec<u8>>)
        ensures
            step@ == self@.resume(reply@),
    {
        match self.state {
            ReadRunOf::Opening { offset, length } => match engine::plainly(reply) {
                Ok(()) => waiting(CallOf::Seek(offset), ReadRunOf::Seeking { length }),
                Err(e) => Step::Done(Err(e)),
            },
            ReadRunOf::Seeking { length } => match engine::plainly(reply) {
                Ok(()) => collect_more(Vec::new(), length),
                Err(e) => Step::Done(Err(e)),
            },
            ReadRunOf::Reading { collected, length } => match reply {
                ReplyOf::Bytes(b) => {
                    if b.len() == 0 {
                        return Step::Done(Ok(collected));
                    }
                    if collected.len() > length || b.len() > length - collected.len() {
                        return unanswered();
                    }
                    let mut all = collected;
                    let mut more = b;
                    all.append(&mut more);
                    collect_more(all, length)
                },
                _ => Step::Done(Err(engine::stray_reply(reply))),
            },
            ReadRunOf::Resolving { offset, length } => match stat::resolved_inode(reply) {
                Ok((inode, _)) => if inode.mode / 0x1000 == 8 {
                    waiting(
                        CallOf::ReadFile { offset, wanted: length },
                        ReadRunOf::Fetching { length },
                    )
                } else {
                    Step::Done(Err("not a regular file".to_owned()))
                },
                Err(e) => Step::Done(Err(e)),
            },
            ReadRunOf::Fetching { length } => match reply {
                ReplyOf::Bytes(b) => if b.len() > length {
                    unanswered()
                } else {
                    Step::Done(Ok(b))
                },
                _ => Step::Done(Err(engine::stray_reply(reply))),
            },
        }
    }
}

} // verus!
