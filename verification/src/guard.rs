//! The block device under a filesystem engine, guarded.
//!
//! Every access of an engine is admitted here first: none after the device was
//! retired, none outside its bounds, and no write to a device that was opened
//! read-only. One failed access retires the device for good.

use vstd::prelude::*;

verus! {

/// Why an access was not admitted.
#[derive(Clone, Copy, Debug, PartialEq, Eq, Structural)]
pub enum Refusal {
    /// The device was retired.
    Retired,
    /// The access leaves the device.
    OutOfBounds,
    /// The device was opened read-only.
    ReadOnly,
}

/// A guarded device, as mathematics.
pub struct GuardModel {
    pub size: u64,
    pub writable: bool,
    pub retired: bool,
}

impl GuardModel {
    /// Whether an access to `length` bytes from `offset` is refused.
    pub open spec fn check(self, offset: int, length: int) -> Result<(), Refusal> {
        if self.retired {
            Err(Refusal::Retired)
        } else if offset + length > self.size {
            Err(Refusal::OutOfBounds)
        } else {
            Ok(())
        }
    }

    /// Whether a write to `length` bytes from `offset` is refused.
    pub open spec fn admit_write(self, offset: int, length: int) -> Result<(), Refusal> {
        match self.check(offset, length) {
            Err(e) => Err(e),
            Ok(()) => if self.writable {
                Ok(())
            } else {
                Err(Refusal::ReadOnly)
            },
        }
    }

    /// The device once and for all out of use.
    pub open spec fn retire(self) -> GuardModel {
        GuardModel { retired: true, ..self }
    }
}

/// A guarded device.
pub struct Guarded {
    size: u64,
    writable: bool,
    retired: bool,
}

impl View for Guarded {
    type V = GuardModel;

    closed spec fn view(&self) -> GuardModel {
        GuardModel { size: self.size, writable: self.writable, retired: self.retired }
    }
}

impl Guarded {
    /// A device of `size` bytes, in use.
    pub fn new(size: u64, writable: bool) -> (g: Guarded)
        ensures
            g@ == (GuardModel { size, writable, retired: false }),
    {
        Guarded { size, writable, retired: false }
    }

    pub fn size_bytes(&self) -> (size: u64)
        ensures
            size == self@.size,
    {
        self.size
    }

    pub fn is_writable(&self) -> (writable: bool)
        ensures
            writable == self@.writable,
    {
        self.writable
    }

    pub fn is_retired(&self) -> (retired: bool)
        ensures
            retired == self@.retired,
    {
        self.retired
    }

    /// Admits a read, or refuses it.
    pub fn check(&self, offset: u64, length: usize) -> (r: Result<(), Refusal>)
        ensures
            r == self@.check(offset as int, length as int),
    {
        if self.retired {
            return Err(Refusal::Retired);
        }
        if length as u64 > self.size || offset > self.size - length as u64 {
            return Err(Refusal::OutOfBounds);
        }
        Ok(())
    }

    /// Admits a write, or refuses it.
    pub fn admit_write(&self, offset: u64, length: usize) -> (r: Result<(), Refusal>)
        ensures
            r == self@.admit_write(offset as int, length as int),
    {
        match self.check(offset, length) {
            Err(e) => Err(e),
            Ok(()) => if self.writable {
                Ok(())
            } else {
                Err(Refusal::ReadOnly)
            },
        }
    }

    /// Takes the outcome of an admitted access; a failed one retires the device.
    pub fn complete<E>(&mut self, result: Result<(), E>) -> (r: Result<(), E>)
        ensures
            r == result,
            final(self)@ == if result is Err {
                old(self)@.retire()
            } else {
                old(self)@
            },
    {
        if result.is_err() {
            self.retired = true;
        }
        result
    }

    /// Puts the device out of use.
    pub fn retire(&mut self)
        ensures
            final(self)@ == old(self)@.retire(),
    {
        self.retired = true;
    }
}

/// Where a seek is counted from.
#[derive(Clone, Copy, Debug, PartialEq, Eq, Structural)]
pub enum Whence {
    Start(u64),
    Current(i64),
    End(i64),
}

/// A byte position on a device.
pub struct Cursor {
    position: u64,
}

impl View for Cursor {
    type V = u64;

    closed spec fn view(&self) -> u64 {
        self.position
    }
}

/// How much of a request for `wanted` bytes at a position lies before the end.
pub open spec fn before_end(position: u64, size: u64, wanted: usize) -> int {
    if position >= size {
        0
    } else if wanted <= size - position {
        wanted as int
    } else {
        size - position
    }
}

/// The position that a seek names.
pub open spec fn target(position: u64, size: u64, whence: Whence) -> int {
    match whence {
        Whence::Start(n) => n as int,
        Whence::Current(n) => position + n,
        Whence::End(n) => size + n,
    }
}

impl Cursor {
    /// The start of a device.
    pub fn new() -> (c: Cursor)
        ensures
            c@ == 0,
    {
        Cursor { position: 0 }
    }

    pub fn position(&self) -> (p: u64)
        ensures
            p == self@,
    {
        self.position
    }

    /// How much of a request for `wanted` bytes lies before the end.
    pub fn readable(&self, size: u64, wanted: usize) -> (n: usize)
        ensures
            n == before_end(self@, size, wanted),
    {
        if self.position >= size {
            0
        } else if wanted as u64 <= size - self.position {
            wanted
        } else {
            (size - self.position) as usize
        }
    }

    /// Moves past `length` bytes that were transferred.
    pub fn advance(&mut self, length: usize)
        requires
            old(self)@ + length <= u64::MAX,
        ensures
            final(self)@ == old(self)@ + length,
    {
        self.position = self.position + length as u64;
    }

    /// Moves to where `whence` says, if that lies on the device.
    pub fn seek(&mut self, size: u64, whence: Whence) -> (r: Result<u64, &'static str>)
        ensures
            0 <= target(old(self)@, size, whence) <= size ==> r == Ok::<u64, &'static str>(
                final(self)@,
            ) && final(self)@ == target(old(self)@, size, whence),
            !(0 <= target(old(self)@, size, whence) <= size) ==> r == Err::<u64, &'static str>(
                "seek outside filesystem device",
            ) && final(self)@ == old(self)@,
    {
        let position: i128 = match whence {
            Whence::Start(n) => n as i128,
            Whence::Current(n) => self.position as i128 + n as i128,
            Whence::End(n) => size as i128 + n as i128,
        };
        if position < 0 || position > size as i128 {
            return Err("seek outside filesystem device");
        }
        self.position = position as u64;
        Ok(self.position)
    }
}

/// A device that was opened read-only admits no write, and one that was retired
/// admits nothing.
pub proof fn law_guard_holds(g: GuardModel, offset: int, length: int)
    requires
        0 <= length,
        0 <= offset,
    ensures
        !g.writable ==> g.admit_write(offset, length) is Err,
        g.retired ==> g.check(offset, length) == Err::<(), Refusal>(Refusal::Retired)
            && g.admit_write(offset, length) == Err::<(), Refusal>(Refusal::Retired),
        g.check(offset, length) is Ok ==> offset + length <= g.size,
        g.retire().check(offset, length) is Err,
{
}

/// A cursor on the device stays on it: what a read there may move is admitted,
/// unless the device was retired, and ends on the device.
pub proof fn law_cursor_stays_on_the_device(g: GuardModel, position: u64, wanted: usize)
    requires
        position <= g.size,
    ensures
        ({
            let n = before_end(position, g.size, wanted);
            position + n <= g.size && (g.retired || g.check(position as int, n) is Ok)
        }),
{
}

} // verus!
