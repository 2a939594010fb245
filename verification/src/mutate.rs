//! Changing a volume, one named thing at a time.
//!
//! Every change looks first and acts after: what exists is never replaced, what
//! is written must exist, and a change that an engine fails retires the
//! session, so that nothing is tried again on a volume in an unknown state.

use vstd::prelude::*;

use crate::engine;
use crate::engine::CallOf;
use crate::engine::Kind;
use crate::engine::Reply;
use crate::engine::ReplyModel;
use crate::path;
use crate::session::Entry;
use crate::session::EntryModel;
use crate::session::Session;
use crate::session::SessionModel;
use crate::session::Step;
use crate::session::StepModel;
use crate::session::MAX_FILE_CHUNK;
use crate::stat;
use crate::stat::StatRunOf;
use crate::text;

verus! {

/// What is to be done once a lookup has ended.
pub enum IntentOf<S, B> {
    Create(S),
    Write { path: S, offset: u64, data: B },
    Truncate { path: S, length: u64 },
    Mkdir(S),
    Remove(S),
    /// The source of a rename is being looked up.
    RenameFrom(S, S),
    /// Its destination is.
    RenameTo(S, S),
}

/// A change in flight.
pub enum MutateRunOf<S, B> {
    /// A path is being looked up.
    Looking { lookup: StatRunOf<S>, intent: IntentOf<S, B> },
    /// FAT: the file to write is being opened, positioned, written.
    WriteOpening { offset: u64, data: B },
    WriteSeeking { data: B },
    WriteSending,
    /// FAT: the file to cut is being opened, positioned.
    CutOpening { length: u64 },
    CutSeeking,
    /// ext4: the links of the file to write are being counted.
    WriteCounting { path: S, offset: u64, data: B },
    /// ext4: the links of the file to cut are being counted.
    CutCounting { length: u64, size: u64 },
    /// The last call is in flight.
    Committing,
}

/// What is to be done once a lookup has ended.
pub type Intent = IntentOf<String, Vec<u8>>;

/// A change in flight, as mathematics.
pub type MutateModel = MutateRunOf<Seq<char>, Seq<u8>>;

/// An intent, as mathematics.
pub type IntentModel = IntentOf<Seq<char>, Seq<u8>>;

/// What a step of a change is.
pub type MutateStepModel = StepModel<MutateModel, ()>;

impl View for IntentOf<String, Vec<u8>> {
    type V = IntentModel;

    open spec fn view(&self) -> IntentModel {
        match *self {
            IntentOf::Create(p) => IntentOf::Create(p@),
            IntentOf::Write { path, offset, data } => IntentOf::Write {
                path: path@,
                offset,
                data: data@,
            },
            IntentOf::Truncate { path, length } => IntentOf::Truncate { path: path@, length },
            IntentOf::Mkdir(p) => IntentOf::Mkdir(p@),
            IntentOf::Remove(p) => IntentOf::Remove(p@),
            IntentOf::RenameFrom(p, q) => IntentOf::RenameFrom(p@, q@),
            IntentOf::RenameTo(p, q) => IntentOf::RenameTo(p@, q@),
        }
    }
}

impl View for MutateRunOf<String, Vec<u8>> {
    type V = MutateModel;

    open spec fn view(&self) -> MutateModel {
        match *self {
            MutateRunOf::Looking { lookup, intent } => MutateRunOf::Looking {
                lookup: lookup@,
                intent: intent@,
            },
            MutateRunOf::WriteOpening { offset, data } => MutateRunOf::WriteOpening {
                offset,
                data: data@,
            },
            MutateRunOf::WriteSeeking { data } => MutateRunOf::WriteSeeking { data: data@ },
            MutateRunOf::WriteSending => MutateRunOf::WriteSending,
            MutateRunOf::CutOpening { length } => MutateRunOf::CutOpening { length },
            MutateRunOf::CutSeeking => MutateRunOf::CutSeeking,
            MutateRunOf::WriteCounting { path, offset, data } => MutateRunOf::WriteCounting {
                path: path@,
                offset,
                data: data@,
            },
            MutateRunOf::CutCounting { length, size } => MutateRunOf::CutCounting { length, size },
            MutateRunOf::Committing => MutateRunOf::Committing,
        }
    }
}

/// A change in flight. Only a session begins one.
pub struct MutateRun {
    state: MutateRunOf<String, Vec<u8>>,
}

impl View for MutateRun {
    type V = MutateModel;

    closed spec fn view(&self) -> MutateModel {
        self.state@
    }
}

/// A refusal that leaves the session as it is.
pub open spec fn refused(why: Seq<char>) -> MutateStepModel {
    StepModel::Done(Err(why))
}

/// The call that creates a file, or why there is none.
pub open spec fn create_call(s: SessionModel, p: Seq<char>) -> MutateStepModel {
    match s.engine() {
        Err(e) => refused(e),
        Ok(Kind::Fat) => StepModel::Call(
            CallOf::CreateFile(path::relative(p)),
            MutateRunOf::Committing,
        ),
        Ok(Kind::Ext4) => StepModel::Call(CallOf::CreateInode(p), MutateRunOf::Committing),
    }
}

/// The call that creates a directory, or why there is none.
pub open spec fn mkdir_call(s: SessionModel, p: Seq<char>) -> MutateStepModel {
    match s.engine() {
        Err(e) => refused(e),
        Ok(Kind::Fat) => StepModel::Call(
            CallOf::CreateDirectory(path::relative(p)),
            MutateRunOf::Committing,
        ),
        Ok(Kind::Ext4) => StepModel::Call(CallOf::MakeDirectory(p), MutateRunOf::Committing),
    }
}

/// The call that removes what was found, or why there is none.
pub open spec fn remove_call(s: SessionModel, p: Seq<char>, found: EntryModel) -> MutateStepModel {
    match s.engine() {
        Err(e) => refused(e),
        Ok(Kind::Fat) => StepModel::Call(
            CallOf::RemoveEntry(path::relative(p)),
            MutateRunOf::Committing,
        ),
        Ok(Kind::Ext4) => StepModel::Call(
            if found.kind == "directory"@ {
                CallOf::RemoveDirectory(p)
            } else {
                CallOf::Unlink(p)
            },
            MutateRunOf::Committing,
        ),
    }
}

/// The call that renames, or why there is none.
pub open spec fn rename_call(s: SessionModel, from: Seq<char>, to: Seq<char>) -> MutateStepModel {
    match s.engine() {
        Err(e) => refused(e),
        Ok(Kind::Fat) => StepModel::Call(
            CallOf::RenameEntry(path::relative(from), path::relative(to)),
            MutateRunOf::Committing,
        ),
        Ok(Kind::Ext4) => StepModel::Call(CallOf::RenameInode(from, to), MutateRunOf::Committing),
    }
}

/// The first call of a write to what was found, or why there is none.
pub open spec fn write_call(
    s: SessionModel,
    p: Seq<char>,
    offset: u64,
    data: Seq<u8>,
    found: EntryModel,
) -> (SessionModel, MutateStepModel) {
    if found.kind != "file"@ {
        (s, refused("not a regular file"@))
    } else if offset > found.size {
        (s, refused("file write cannot leave a gap"@))
    } else {
        match s.engine() {
            Err(e) => (s.retire(), refused(e)),
            Ok(Kind::Fat) => (
                s,
                StepModel::Call(
                    CallOf::OpenFile(path::relative(p)),
                    MutateRunOf::WriteOpening { offset, data },
                ),
            ),
            Ok(Kind::Ext4) => (
                s,
                StepModel::Call(
                    CallOf::Resolve(p),
                    MutateRunOf::WriteCounting { path: p, offset, data },
                ),
            ),
        }
    }
}

/// The first call of a cut of what was found, or why there is none. A file that
/// has the length already is left alone.
pub open spec fn cut_call(s: SessionModel, p: Seq<char>, length: u64, found: EntryModel) -> (
    SessionModel,
    MutateStepModel,
) {
    if found.kind != "file"@ || length > found.size {
        (s, refused("truncate only shrinks existing regular files"@))
    } else {
        match s.engine() {
            Err(e) => (s.retire(), refused(e)),
            Ok(Kind::Fat) => if length == found.size {
                (s, StepModel::Done(Ok(())))
            } else {
                (
                    s,
                    StepModel::Call(
                        CallOf::OpenFile(path::relative(p)),
                        MutateRunOf::CutOpening { length },
                    ),
                )
            },
            Ok(Kind::Ext4) => (
                s,
                StepModel::Call(
                    CallOf::Resolve(p),
                    MutateRunOf::CutCounting { length, size: found.size },
                ),
            ),
        }
    }
}

/// Goes on only where nothing was found.
pub open spec fn if_absent(
    found: Result<EntryModel, Seq<char>>,
    go: MutateStepModel,
) -> MutateStepModel {
    match found {
        Ok(_) => refused("already exists"@),
        Err(e) => if e == "not found"@ {
            go
        } else {
            refused(e)
        },
    }
}

impl SessionModel {
    /// What a lookup leads to, for every intent but the first half of a rename.
    pub open spec fn act(self, intent: IntentModel, found: Result<EntryModel, Seq<char>>) -> (
        SessionModel,
        MutateStepModel,
    ) {
        match intent {
            IntentOf::Create(p) => (self, if_absent(found, create_call(self, p))),
            IntentOf::Mkdir(p) => (self, if_absent(found, mkdir_call(self, p))),
            IntentOf::RenameTo(from, to) => (self, if_absent(found, rename_call(self, from, to))),
            IntentOf::RenameFrom(..) => (self, refused(engine::misplaced())),
            IntentOf::Remove(p) => match found {
                Err(e) => (self, refused(e)),
                Ok(entry) => (self, remove_call(self, p, entry)),
            },
            IntentOf::Write { path, offset, data } => match found {
                Err(e) => (self, refused(e)),
                Ok(entry) => write_call(self, path, offset, data, entry),
            },
            IntentOf::Truncate { path, length } => match found {
                Err(e) => (self, refused(e)),
                Ok(entry) => cut_call(self, path, length, entry),
            },
        }
    }

    /// What a lookup leads to.
    pub open spec fn after_lookup(
        self,
        intent: IntentModel,
        found: Result<EntryModel, Seq<char>>,
    ) -> (SessionModel, MutateStepModel) {
        match intent {
            IntentOf::RenameFrom(from, to) => match found {
                Err(e) => (self, refused(e)),
                Ok(_) => match self.stat(to) {
                    StepModel::Call(call, lookup) => (
                        self,
                        StepModel::Call(
                            call,
                            MutateRunOf::Looking { lookup, intent: IntentOf::RenameTo(from, to) },
                        ),
                    ),
                    StepModel::Done(other) => self.act(IntentOf::RenameTo(from, to), other),
                },
            },
            _ => self.act(intent, found),
        }
    }

    /// Looks `p` up, for the sake of an intent.
    pub open spec fn look(self, p: Seq<char>, intent: IntentModel) -> (
        SessionModel,
        MutateStepModel,
    ) {
        match self.stat(p) {
            StepModel::Call(call, lookup) => (
                self,
                StepModel::Call(call, MutateRunOf::Looking { lookup, intent }),
            ),
            StepModel::Done(found) => self.after_lookup(intent, found),
        }
    }

    /// Why a change at this path is refused from the start, if it is.
    pub open spec fn unwritable(self, value: Seq<char>) -> Option<Seq<char>> {
        match path::refusal(value) {
            Some(why) => Some(why),
            None => match self.writable() {
                Err(e) => Some(e),
                Ok(_) => None,
            },
        }
    }

    /// Starts the creation of a file.
    pub open spec fn create_file(self, value: Seq<char>) -> (SessionModel, MutateStepModel) {
        match self.unwritable(value) {
            Some(why) => (self, refused(why)),
            None => if path::is_root(value) {
                (self, refused("cannot replace root"@))
            } else {
                self.look(value, IntentOf::Create(value))
            },
        }
    }

    /// Starts a write.
    pub open spec fn write(self, value: Seq<char>, offset: u64, data: Seq<u8>) -> (
        SessionModel,
        MutateStepModel,
    ) {
        match self.unwritable(value) {
            Some(why) => (self, refused(why)),
            None => if data.len() > MAX_FILE_CHUNK || offset + data.len() > self.device.size {
                (self, refused("invalid file write range"@))
            } else {
                self.look(value, IntentOf::Write { path: value, offset, data })
            },
        }
    }

    /// Starts a cut.
    pub open spec fn truncate(self, value: Seq<char>, length: u64) -> (
        SessionModel,
        MutateStepModel,
    ) {
        match self.unwritable(value) {
            Some(why) => (self, refused(why)),
            None => self.look(value, IntentOf::Truncate { path: value, length }),
        }
    }

    /// Starts the creation of a directory.
    pub open spec fn mkdir(self, value: Seq<char>) -> (SessionModel, MutateStepModel) {
        match self.unwritable(value) {
            Some(why) => (self, refused(why)),
            None => self.look(value, IntentOf::Mkdir(value)),
        }
    }

    /// Starts a removal.
    pub open spec fn remove(self, value: Seq<char>) -> (SessionModel, MutateStepModel) {
        match self.unwritable(value) {
            Some(why) => (self, refused(why)),
            None => if path::is_root(value) {
                (self, refused("cannot remove root"@))
            } else {
                self.look(value, IntentOf::Remove(value))
            },
        }
    }

    /// Starts a rename.
    pub open spec fn rename(self, source: Seq<char>, destination: Seq<char>) -> (
        SessionModel,
        MutateStepModel,
    ) {
        match path::refusal(source) {
            Some(why) => (self, refused(why)),
            None => match self.unwritable(destination) {
                Some(why) => (self, refused(why)),
                None => if path::is_root(source) || path::is_root(destination) {
                    (self, refused("cannot rename root"@))
                } else {
                    self.look(source, IntentOf::RenameFrom(source, destination))
                },
            },
        }
    }

    /// Goes on with the next call of a change, or fails it for good.
    pub open spec fn go_on(self, r: ReplyModel, next: MutateStepModel) -> (
        SessionModel,
        MutateStepModel,
    ) {
        match engine::plain_outcome(r) {
            Ok(()) => (self, next),
            Err(e) => (self.retire(), refused(e)),
        }
    }

    /// Goes on with a change of the inode that was resolved, if it has one name
    /// only, or fails the change for good.
    pub open spec fn if_single(self, r: ReplyModel, why: Seq<char>, next: MutateStepModel) -> (
        SessionModel,
        MutateStepModel,
    ) {
        match stat::resolved(r) {
            Err(e) => (self.retire(), refused(e)),
            Ok((inode, _)) => if inode.links_count != 1 {
                (self.retire(), refused(why))
            } else {
                (self, next)
            },
        }
    }

    /// Takes the reply to the outstanding call of a change.
    pub open spec fn resume_mutation(self, run: MutateModel, r: ReplyModel) -> (
        SessionModel,
        MutateStepModel,
    ) {
        match run {
            MutateRunOf::Looking { lookup, intent } => match lookup.resume(r) {
                StepModel::Call(call, lookup) => (
                    self,
                    StepModel::Call(call, MutateRunOf::Looking { lookup, intent }),
                ),
                StepModel::Done(found) => self.after_lookup(intent, found),
            },
            MutateRunOf::WriteOpening { offset, data } => self.go_on(
                r,
                StepModel::Call(CallOf::Seek(offset), MutateRunOf::WriteSeeking { data }),
            ),
            MutateRunOf::WriteSeeking { data } => self.go_on(
                r,
                StepModel::Call(CallOf::WriteAll(data), MutateRunOf::WriteSending),
            ),
            MutateRunOf::WriteSending => self.go_on(
                r,
                StepModel::Call(CallOf::FlushFile, MutateRunOf::Committing),
            ),
            MutateRunOf::CutOpening { length } => self.go_on(
                r,
                StepModel::Call(CallOf::Seek(length), MutateRunOf::CutSeeking),
            ),
            MutateRunOf::CutSeeking => self.go_on(
                r,
                StepModel::Call(CallOf::TruncateFile, MutateRunOf::Committing),
            ),
            MutateRunOf::WriteCounting { path, offset, data } => self.if_single(
                r,
                "writing multiply linked files is refused"@,
                StepModel::Call(
                    CallOf::WriteInode { path, offset, data },
                    MutateRunOf::Committing,
                ),
            ),
            MutateRunOf::CutCounting { length, size } => self.if_single(
                r,
                "truncating multiply linked files is refused"@,
                if length == size {
                    StepModel::Done(Ok(()))
                } else {
                    StepModel::Call(
                        CallOf::ShrinkInode { number: stat::resolved(r)->Ok_0.0.number, length },
                        MutateRunOf::Committing,
                    )
                },
            ),
            MutateRunOf::Committing => {
                let outcome = engine::plain_outcome(r);
                (self.mutation(outcome), StepModel::Done(outcome))
            },
        }
    }
}

/// A step of a change.
pub type MutateStep = Step<MutateRun, ()>;

fn waiting(call: engine::Call, state: MutateRunOf<String, Vec<u8>>) -> (step: MutateStep)
    ensures
        step@ == MutateStepModel::Call(call@, state@),
{
    Step::Call(call, MutateRun { state })
}

fn refuse(why: String) -> (step: MutateStep)
    ensures
        step@ == refused(why@),
{
    Step::Done(Err(why))
}

fn commit(call: engine::Call) -> (step: MutateStep)
    ensures
        step@ == MutateStepModel::Call(call@, MutateRunOf::Committing),
{
    waiting(call, MutateRunOf::Committing)
}

/// Whether a lookup found nothing, or why the change is refused.
fn absent(found: Result<Entry, String>) -> (r: Result<(), String>)
    ensures
        match found {
            Ok(_) => r matches Err(e) && e@ == "already exists"@,
            Err(e) => if e@ == "not found"@ {
                r is Ok
            } else {
                r matches Err(why) && why@ == e@
            },
        },
{
    match found {
        Ok(_) => Err("already exists".to_owned()),
        Err(e) => if text::same(e.as_str(), "not found") {
            Ok(())
        } else {
            Err(e)
        },
    }
}

/// A lookup's result by its views.
pub open spec fn found_view(r: Result<Entry, String>) -> Result<EntryModel, Seq<char>> {
    match r {
        Ok(entry) => Ok(entry@),
        Err(e) => Err(e@),
    }
}

impl Session {
    fn create_call(&self, p: String) -> (step: MutateStep)
        ensures
            step@ == create_call(self@, p@),
    {
        match self.engine() {
            Err(e) => refuse(e),
            Ok(Kind::Fat) => commit(CallOf::CreateFile(path::relative_of(p.as_str()))),
            Ok(Kind::Ext4) => commit(CallOf::CreateInode(p)),
        }
    }

    fn mkdir_call(&self, p: String) -> (step: MutateStep)
        ensures
            step@ == mkdir_call(self@, p@),
    {
        match self.engine() {
            Err(e) => refuse(e),
            Ok(Kind::Fat) => commit(CallOf::CreateDirectory(path::relative_of(p.as_str()))),
            Ok(Kind::Ext4) => commit(CallOf::MakeDirectory(p)),
        }
    }

    fn remove_call(&self, p: String, found: Entry) -> (step: MutateStep)
        ensures
            step@ == remove_call(self@, p@, found@),
    {
        match self.engine() {
            Err(e) => refuse(e),
            Ok(Kind::Fat) => commit(CallOf::RemoveEntry(path::relative_of(p.as_str()))),
            Ok(Kind::Ext4) => if text::same(found.kind, "directory") {
                commit(CallOf::RemoveDirectory(p))
            } else {
                commit(CallOf::Unlink(p))
            },
        }
    }

    fn rename_call(&self, from: String, to: String) -> (step: MutateStep)
        ensures
            step@ == rename_call(self@, from@, to@),
    {
        match self.engine() {
            Err(e) => refuse(e),
            Ok(Kind::Fat) => commit(
                CallOf::RenameEntry(
                    path::relative_of(from.as_str()),
                    path::relative_of(to.as_str()),
                ),
            ),
            Ok(Kind::Ext4) => commit(CallOf::RenameInode(from, to)),
        }
    }

    /// Fails a change for good.
    fn fail(&mut self, why: String) -> (step: MutateStep)
        ensures
            (final(self)@, step@) == (old(self)@.retire(), refused(why@)),
    {
        let outcome: Result<(), String> = self.mutation(Err(why));
        Step::Done(outcome)
    }

    fn write_call(&mut self, p: String, offset: u64, data: Vec<u8>, found: Entry) -> (step:
        MutateStep)
        ensures
            (final(self)@, step@) == write_call(old(self)@, p@, offset, data@, found@),
    {
        if !text::same(found.kind, "file") {
            return refuse("not a regular file".to_owned());
        }
        if offset > found.size {
            return refuse("file write cannot leave a gap".to_owned());
        }
        match self.engine() {
            Err(e) => self.fail(e),
            Ok(Kind::Fat) => waiting(
                CallOf::OpenFile(path::relative_of(p.as_str())),
                MutateRunOf::WriteOpening { offset, data },
            ),
            Ok(Kind::Ext4) => waiting(
                CallOf::Resolve(p.clone()),
                MutateRunOf::WriteCounting { path: p, offset, data },
            ),
        }
    }

    fn cut_call(&mut self, p: String, length: u64, found: Entry) -> (step: MutateStep)
        ensures
            (final(self)@, step@) == cut_call(old(self)@, p@, length, found@),
    {
        if !text::same(found.kind, "file") || length > found.size {
            return refuse("truncate only shrinks existing regular files".to_owned());
        }
        match self.engine() {
            Err(e) => self.fail(e),
            Ok(Kind::Fat) => if length == found.size {
                Step::Done(Ok(()))
            } else {
                waiting(
                    CallOf::OpenFile(path::relative_of(p.as_str())),
                    MutateRunOf::CutOpening { length },
                )
            },
            Ok(Kind::Ext4) => waiting(
                CallOf::Resolve(p),
                MutateRunOf::CutCounting { length, size: found.size },
            ),
        }
    }

    fn act(&mut self, intent: Intent, found: Result<Entry, String>) -> (step: MutateStep)
        ensures
            (final(self)@, step@) == old(self)@.act(intent@, found_view(found)),
    {
        match intent {
            IntentOf::Create(p) => match absent(found) {
                Ok(()) => self.create_call(p),
                Err(e) => refuse(e),
            },
            IntentOf::Mkdir(p) => match absent(found) {
                Ok(()) => self.mkdir_call(p),
                Err(e) => refuse(e),
            },
            IntentOf::RenameTo(from, to) => match absent(found) {
                Ok(()) => self.rename_call(from, to),
                Err(e) => refuse(e),
            },
            IntentOf::RenameFrom(_, _) => refuse(
                "engine reply does not answer its call".to_owned(),
            ),
            IntentOf::Remove(p) => match found {
                Err(e) => refuse(e),
                Ok(entry) => self.remove_call(p, entry),
            },
            IntentOf::Write { path, offset, data } => match found {
                Err(e) => refuse(e),
                Ok(entry) => self.write_call(path, offset, data, entry),
            },
            IntentOf::Truncate { path, length } => match found {
                Err(e) => refuse(e),
                Ok(entry) => self.cut_call(path, length, entry),
            },
        }
    }

    fn after_lookup(&mut self, intent: Intent, found: Result<Entry, String>) -> (step: MutateStep)
        ensures
            (final(self)@, step@) == old(self)@.after_lookup(intent@, found_view(found)),
    {
        match intent {
            IntentOf::RenameFrom(from, to) => match found {
                Err(e) => refuse(e),
                Ok(_) => match self.look_up(to.as_str()) {
                    Step::Call(call, lookup) => waiting(
                        call,
                        MutateRunOf::Looking { lookup, intent: IntentOf::RenameTo(from, to) },
                    ),
                    Step::Done(other) => self.act(IntentOf::RenameTo(from, to), other),
                },
            },
            _ => self.act(intent, found),
        }
    }

    fn look(&mut self, p: &str, intent: Intent) -> (step: MutateStep)
        ensures
            (final(self)@, step@) == old(self)@.look(p@, intent@),
    {
        match self.look_up(p) {
            Step::Call(call, lookup) => waiting(call, MutateRunOf::Looking { lookup, intent }),
            Step::Done(found) => self.after_lookup(intent, found),
        }
    }

    fn unwritable(&self, value: &str) -> (why: Option<String>)
        ensures
            match (why, self@.unwritable(value@)) {
                (Some(e), Some(f)) => e@ == f,
                (None, None) => true,
                _ => false,
            },
    {
        if let Err(e) = path::path(value) {
            return Some(e);
        }
        match self.writable() {
            Err(e) => Some(e),
            Ok(_) => None,
        }
    }

    /// Creates a file. What exists is never replaced.
    pub fn create_file(&mut self, value: &str) -> (step: MutateStep)
        ensures
            (final(self)@, step@) == old(self)@.create_file(value@),
    {
        if let Some(why) = self.unwritable(value) {
            return refuse(why);
        }
        if path::names_root(value) {
            return refuse("cannot replace root".to_owned());
        }
        self.look(value, IntentOf::Create(value.to_owned()))
    }

    /// Writes to a regular file that exists, without leaving a gap.
    pub fn write(&mut self, value: &str, offset: u64, data: &[u8]) -> (step: MutateStep)
        ensures
            (final(self)@, step@) == old(self)@.write(value@, offset, data@),
    {
        if let Some(why) = self.unwritable(value) {
            return refuse(why);
        }
        let size: u64 = self.device_bytes();
        if data.len() > MAX_FILE_CHUNK || data.len() as u64 > size || offset > size
            - data.len() as u64 {
            return refuse("invalid file write range".to_owned());
        }
        self.look(
            value,
            IntentOf::Write { path: value.to_owned(), offset, data: vstd::slice::slice_to_vec(data) },
        )
    }

    /// Cuts a regular file off. It never grows.
    pub fn truncate(&mut self, value: &str, length: u64) -> (step: MutateStep)
        ensures
            (final(self)@, step@) == old(self)@.truncate(value@, length),
    {
        if let Some(why) = self.unwritable(value) {
            return refuse(why);
        }
        self.look(value, IntentOf::Truncate { path: value.to_owned(), length })
    }

    /// Creates a directory. What exists is never replaced.
    pub fn mkdir(&mut self, value: &str) -> (step: MutateStep)
        ensures
            (final(self)@, step@) == old(self)@.mkdir(value@),
    {
        if let Some(why) = self.unwritable(value) {
            return refuse(why);
        }
        self.look(value, IntentOf::Mkdir(value.to_owned()))
    }

    /// Removes a file or an empty directory.
    pub fn remove(&mut self, value: &str) -> (step: MutateStep)
        ensures
            (final(self)@, step@) == old(self)@.remove(value@),
    {
        if let Some(why) = self.unwritable(value) {
            return refuse(why);
        }
        if path::names_root(value) {
            return refuse("cannot remove root".to_owned());
        }
        self.look(value, IntentOf::Remove(value.to_owned()))
    }

    /// Renames, to a name that is not taken.
    pub fn rename(&mut self, source: &str, destination: &str) -> (step: MutateStep)
        ensures
            (final(self)@, step@) == old(self)@.rename(source@, destination@),
    {
        if let Err(e) = path::path(source) {
            return refuse(e);
        }
        if let Some(why) = self.unwritable(destination) {
            return refuse(why);
        }
        if path::names_root(source) || path::names_root(destination) {
            return refuse("cannot rename root".to_owned());
        }
        self.look(source, IntentOf::RenameFrom(source.to_owned(), destination.to_owned()))
    }

    fn go_on(&mut self, reply: Reply, next: MutateStep) -> (step: MutateStep)
        ensures
            (final(self)@, step@) == old(self)@.go_on(reply@, next@),
    {
        match engine::plainly(reply) {
            Ok(()) => next,
            Err(e) => self.fail(e),
        }
    }

    /// The number of the inode that was resolved, if it has one name only, or
    /// why the change fails.
    fn single(reply: Reply, why: &str) -> (r: Result<u32, String>)
        ensures
            match stat::resolved(reply@) {
                Err(e) => r matches Err(f) && f@ == e,
                Ok((inode, _)) => if inode.links_count != 1 {
                    r matches Err(f) && f@ == why@
                } else {
                    r == Ok::<u32, String>(inode.number)
                },
            },
    {
        match stat::resolved_inode(reply) {
            Err(e) => Err(e),
            Ok((inode, _)) => if inode.links_count != 1 {
                Err(why.to_owned())
            } else {
                Ok(inode.number)
            },
        }
    }

    /// Takes the reply to the outstanding call of a change.
    pub fn resume_mutation(&mut self, run: MutateRun, reply: Reply) -> (step: MutateStep)
        ensures
            (final(self)@, step@) == old(self)@.resume_mutation(run@, reply@),
    {
        match run.state {
            MutateRunOf::Looking { lookup, intent } => match lookup.resume(reply) {
                Step::Call(call, lookup) => waiting(
                    call,
                    MutateRunOf::Looking { lookup, intent },
                ),
                Step::Done(found) => self.after_lookup(intent, found),
            },
            MutateRunOf::WriteOpening { offset, data } => self.go_on(
                reply,
                waiting(CallOf::Seek(offset), MutateRunOf::WriteSeeking { data }),
            ),
            MutateRunOf::WriteSeeking { data } => self.go_on(
                reply,
                waiting(CallOf::WriteAll(data), MutateRunOf::WriteSending),
            ),
            MutateRunOf::WriteSending => self.go_on(reply, commit(CallOf::FlushFile)),
            MutateRunOf::CutOpening { length } => self.go_on(
                reply,
                waiting(CallOf::Seek(length), MutateRunOf::CutSeeking),
            ),
            MutateRunOf::CutSeeking => self.go_on(reply, commit(CallOf::TruncateFile)),
            MutateRunOf::WriteCounting { path, offset, data } => match Session::single(
                reply,
                "writing multiply linked files is refused",
            ) {
                Ok(_) => commit(CallOf::WriteInode { path, offset, data }),
                Err(e) => self.fail(e),
            },
            MutateRunOf::CutCounting { length, size } => match Session::single(
                reply,
                "truncating multiply linked files is refused",
            ) {
                Ok(number) => if length == size {
                    Step::Done(Ok(()))
                } else {
                    commit(CallOf::ShrinkInode { number, length })
                },
                Err(e) => self.fail(e),
            },
            MutateRunOf::Committing => {
                let outcome = self.mutation(engine::plainly(reply));
                Step::Done(outcome)
            },
        }
    }
}

} // verus!
