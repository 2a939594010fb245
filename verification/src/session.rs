//! A mounted filesystem and its guarded device.
//!
//! Operations on a session are step machines: each step names one engine call,
//! and its reply leads to the next step, until the operation is done.

use vstd::prelude::*;

use crate::engine::Call;
use crate::engine::CallModel;
use crate::engine::Kind;
use crate::guard::GuardModel;
use crate::guard::Guarded;
use crate::guard::Refusal;

verus! {

/// The most that one file operation moves.
pub const MAX_FILE_CHUNK: usize = 0x40_0000;

/// The most entries that one directory walk yields.
pub const MAX_ENTRIES: usize = 4096;

/// What a step asks for next: an engine call and the run to resume with its
/// reply, or nothing, because the operation is done.
pub enum Step<R, T> {
    Call(Call, R),
    Done(Result<T, String>),
}

/// A step with its texts and bytes taken by view.
pub enum StepModel<R, T> {
    Call(CallModel, R),
    Done(Result<T, Seq<char>>),
}

impl<R: View, T: View> View for Step<R, T> {
    type V = StepModel<R::V, T::V>;

    open spec fn view(&self) -> StepModel<R::V, T::V> {
        match *self {
            Step::Call(call, run) => StepModel::Call(call@, run@),
            Step::Done(Ok(t)) => StepModel::Done(Ok(t@)),
            Step::Done(Err(e)) => StepModel::Done(Err(e@)),
        }
    }
}

/// Ends an operation whose call was not answered.
pub(crate) fn unanswered<R: View, T: View>() -> (step: Step<R, T>)
    ensures
        step@ == StepModel::<R::V, T::V>::Done(Err(crate::engine::misplaced())),
{
    Step::Done(Err("engine reply does not answer its call".to_owned()))
}

/// What a directory says of one of its entries.
#[derive(Clone, Debug)]
pub struct Entry {
    pub name: String,
    pub kind: &'static str,
    pub size: u64,
    pub inode: Option<u32>,
    pub generation: Option<u32>,
}

/// An entry with its texts taken by view.
pub struct EntryModel {
    pub name: Seq<char>,
    pub kind: Seq<char>,
    pub size: u64,
    pub inode: Option<u32>,
    pub generation: Option<u32>,
}

impl View for Entry {
    type V = EntryModel;

    open spec fn view(&self) -> EntryModel {
        EntryModel {
            name: self.name@,
            kind: self.kind@,
            size: self.size,
            inode: self.inode,
            generation: self.generation,
        }
    }
}

/// A session, as mathematics.
pub struct SessionModel {
    pub kind: Kind,
    /// Whether the engine is still to be mounted.
    pub opening: bool,
    pub mounted: bool,
    pub device: GuardModel,
}

impl SessionModel {
    /// Whether the session takes operations.
    pub open spec fn usable(self) -> bool {
        self.mounted && !self.device.retired
    }

    /// The session with its device out of use.
    pub open spec fn retire(self) -> SessionModel {
        SessionModel { device: self.device.retire(), ..self }
    }

    /// The session after an attempt to change the volume: a failed one retires
    /// the device.
    pub open spec fn mutation<T>(self, r: Result<T, Seq<char>>) -> SessionModel {
        if r is Err {
            self.retire()
        } else {
            self
        }
    }

    /// Which engine serves the session, or why none does.
    pub open spec fn engine(self) -> Result<Kind, Seq<char>> {
        if self.usable() {
            Ok(self.kind)
        } else {
            Err("filesystem session is closed or retired"@)
        }
    }

    /// Which engine takes changes of the volume, or why none does.
    pub open spec fn writable(self) -> Result<Kind, Seq<char>> {
        match self.engine() {
            Err(e) => Err(e),
            Ok(kind) => if self.device.writable {
                Ok(kind)
            } else {
                Err("filesystem was opened read-only"@)
            },
        }
    }
}

/// A filesystem session.
pub struct Session {
    kind: Kind,
    opening: bool,
    mounted: bool,
    device: Guarded,
}

impl View for Session {
    type V = SessionModel;

    closed spec fn view(&self) -> SessionModel {
        SessionModel {
            kind: self.kind,
            opening: self.opening,
            mounted: self.mounted,
            device: self.device@,
        }
    }
}

impl Session {
    /// A session whose engine is still to be mounted.
    pub(crate) fn unmounted(kind: Kind, device: Guarded) -> (s: Session)
        ensures
            s@ == (SessionModel { kind, opening: true, mounted: false, device: device@ }),
    {
        Session { kind, opening: true, mounted: false, device }
    }

    /// Whether the engine is still to be mounted.
    pub(crate) fn is_opening(&self) -> (opening: bool)
        ensures
            opening == self@.opening,
    {
        self.opening
    }

    /// Notes that the opening is over, and whether the engine was mounted.
    pub(crate) fn settle(&mut self, mounted: bool)
        ensures
            final(self)@ == (SessionModel { opening: false, mounted, ..old(self)@ }),
    {
        self.opening = false;
        self.mounted = mounted;
    }

    /// Notes that the engine was given up.
    pub(crate) fn unmount(&mut self)
        ensures
            final(self)@ == (SessionModel { mounted: false, ..old(self)@ }),
    {
        self.mounted = false;
    }

    /// Whether the session takes operations.
    pub fn usable(&self) -> (usable: bool)
        ensures
            usable == self@.usable(),
    {
        self.mounted && !self.device.is_retired()
    }

    /// Which engine serves the session, or why none does.
    pub(crate) fn engine(&self) -> (r: Result<Kind, String>)
        ensures
            crate::engine::outcome_view(r) == self@.engine(),
    {
        if !self.usable() {
            return Err("filesystem session is closed or retired".to_owned());
        }
        Ok(self.kind)
    }

    /// Which engine takes changes of the volume, or why none does.
    pub(crate) fn writable(&self) -> (r: Result<Kind, String>)
        ensures
            crate::engine::outcome_view(r) == self@.writable(),
    {
        match self.engine() {
            Err(e) => Err(e),
            Ok(kind) => if self.device.is_writable() {
                Ok(kind)
            } else {
                Err("filesystem was opened read-only".to_owned())
            },
        }
    }

    /// Takes the outcome of an attempt to change the volume; a failed one
    /// retires the device.
    pub(crate) fn mutation<T>(&mut self, result: Result<T, String>) -> (r: Result<T, String>)
        ensures
            r == result,
            final(self)@ == old(self)@.mutation(crate::engine::outcome_view(result)),
    {
        if result.is_err() {
            self.device.retire();
        }
        result
    }

    /// Whether the session was opened for writing.
    pub fn is_writable(&self) -> (writable: bool)
        ensures
            writable == self@.device.writable,
    {
        self.device.is_writable()
    }

    /// The size of the device.
    pub fn device_bytes(&self) -> (size: u64)
        ensures
            size == self@.device.size,
    {
        self.device.size_bytes()
    }

    /// Admits a read of the device by the engine, or refuses it.
    pub fn admit_read(&self, offset: u64, length: usize) -> (r: Result<(), Refusal>)
        ensures
            r == self@.device.check(offset as int, length as int),
    {
        self.device.check(offset, length)
    }

    /// Admits a write of the device by the engine, or refuses it.
    pub fn admit_write(&self, offset: u64, length: usize) -> (r: Result<(), Refusal>)
        ensures
            r == self@.device.admit_write(offset as int, length as int),
    {
        self.device.admit_write(offset, length)
    }

    /// Takes the outcome of an admitted access to the device.
    pub fn complete<E>(&mut self, result: Result<(), E>) -> (r: Result<(), E>)
        ensures
            r == result,
            final(self)@ == if result is Err {
                old(self)@.retire()
            } else {
                old(self)@
            },
    {
        self.device.complete(result)
    }

    /// Ends the session without any claim: the device is out of use and the
    /// engine is given up.
    pub fn abort(&mut self)
        ensures
            final(self)@ == (SessionModel { opening: false, mounted: false, ..old(self)@.retire() }),
    {
        self.device.retire();
        self.opening = false;
        self.mounted = false;
    }
}

} // verus!
