//! A session of SCSI commands with one logical unit.
//!
//! The session is marked unusable for as long as an exchange is in flight, so
//! one that is dropped half way leaves the session retired: it cannot be reused
//! while a transfer may still be executing on the device. The caller serializes
//! operations and owns reconnect and device identity.

use vstd::prelude::*;

use crate::bytes;
use crate::error::Error;
use crate::exchange;
use crate::exchange::Completion;
use crate::exchange::CompletionOf;
use crate::exchange::Exchange;
use crate::exchange::ExchangeModel;
use crate::exchange::Form;
use crate::exchange::Progress;
use crate::exchange::ProgressModel;

verus! {

/// The transport under a session, as far as the session asks it anything.
pub trait BulkIo {
    /// The highest logical unit that the connected device has. A transport that
    /// does not say has all that the protocol can name.
    fn max_lun(&self) -> (highest: u8)
        default_ensures
            highest == 15,
    {
        15
    }
}

/// A session, as mathematics.
pub struct ScsiModel<T> {
    pub io: T,
    pub tag: u32,
    pub lun: u8,
    pub usable: bool,
}

/// The tag after `tag`.
pub open spec fn next_tag(tag: u32) -> u32 {
    if tag == u32::MAX {
        0
    } else {
        (tag + 1) as u32
    }
}

/// What is said of an exchange that is not the one in flight.
pub open spec fn foreign() -> Error {
    Error::Protocol("exchange is not the one in flight")
}

/// What becomes of a session, and the exchange that it opened or why not.
pub type Opened<T> = (ScsiModel<T>, Result<ExchangeModel, Error>);

impl<T> ScsiModel<T> {
    /// Opens an exchange. The session is unusable from here until the exchange
    /// ends well.
    pub open spec fn open(
        self,
        cdb: Seq<u8>,
        incoming: int,
        outgoing: Seq<u8>,
        form: Form,
    ) -> Opened<T> {
        if !self.usable {
            (self, Err(Error::Retired))
        } else if cdb.len() == 0 || cdb.len() > 16 || (incoming > 0 && outgoing.len() > 0) {
            (self, Err(Error::Protocol("invalid command shape")))
        } else if incoming > u32::MAX || outgoing.len() > u32::MAX {
            (self, Err(Error::Protocol("transfer exceeds BOT limit")))
        } else {
            let tag = next_tag(self.tag);
            let exchange = exchange::opening(tag, self.lun, cdb, incoming, outgoing, form);
            (ScsiModel { tag, usable: false, ..self }, Ok(exchange))
        }
    }

    /// Whether `x` is the exchange that the session has in flight.
    pub open spec fn awaits(self, x: ExchangeModel) -> bool {
        !self.usable && x.tag == self.tag
    }

    /// Takes the end of the outstanding transfer of `x`. An exchange that is not
    /// the one in flight is refused and changes nothing.
    pub open spec fn resume(self, x: ExchangeModel, c: CompletionOf<Seq<u8>>) -> (
        ScsiModel<T>,
        ProgressModel,
    ) {
        if !self.awaits(x) {
            (self, ProgressModel::Done { reply: Err(foreign()), usable: self.usable })
        } else {
            let p = x.absorb(c);
            let usable = match p {
                ProgressModel::More(_) => false,
                ProgressModel::Done { usable, .. } => usable,
            };
            (ScsiModel { usable, ..self }, p)
        }
    }

    pub open spec fn test_unit_ready(self) -> Opened<T> {
        self.open(seq![0u8, 0, 0, 0, 0, 0], 0, seq![], Form::Status)
    }

    pub open spec fn inquiry(self) -> Opened<T> {
        self.open(seq![0x12u8, 0, 0, 0, 36, 0], 36, seq![], Form::Data)
    }

    pub open spec fn eject(self) -> Opened<T> {
        self.open(seq![0x1bu8, 0, 0, 0, 2, 0], 0, seq![], Form::Eject)
    }

    pub open spec fn request_sense(self) -> Opened<T> {
        self.open(seq![3u8, 0, 0, 0, 18, 0], 18, seq![], Form::Data)
    }

    pub open spec fn geometry(self) -> Opened<T> {
        self.open(seq![0x25u8, 0, 0, 0, 0, 0, 0, 0, 0, 0], 8, seq![], Form::Capacity)
    }

    pub open spec fn read_blocks(self, lba: u32, count: u16, block_size: u32) -> Opened<T> {
        match block_range(0x28, lba, count, block_size) {
            Ok((cdb, length)) => self.open(cdb, length, seq![], Form::Data),
            Err(e) => (self, Err(e)),
        }
    }

    pub open spec fn write_blocks(
        self,
        lba: u32,
        count: u16,
        block_size: u32,
        data: Seq<u8>,
    ) -> Opened<T> {
        match block_range(0x2a, lba, count, block_size) {
            Ok((cdb, length)) => if data.len() != length {
                (self, Err(Error::Protocol("write length differs from sector count")))
            } else {
                self.open(cdb, 0, data, Form::Status)
            },
            Err(e) => (self, Err(e)),
        }
    }

    pub open spec fn flush(self) -> Opened<T> {
        self.open(seq![0x35u8, 0, 0, 0, 0, 0, 0, 0, 0, 0], 0, seq![], Form::Status)
    }
}

/// The READ(10) or WRITE(10) command block for `count` blocks from `lba`, and
/// how many bytes it moves.
pub open spec fn block_range(op: u8, lba: u32, count: u16, block_size: u32) -> Result<
    (Seq<u8>, int),
    Error,
> {
    if count == 0 || !bytes::is_two_power(block_size as int) || lba + count - 1 > u32::MAX {
        Err(Error::Protocol("invalid block range"))
    } else if count * block_size > usize::MAX {
        Err(Error::Protocol("block range overflow"))
    } else {
        Ok(
            (
                seq![op, 0u8] + bytes::be32(lba) + seq![0u8] + bytes::be16(count) + seq![0u8],
                count * block_size,
            ),
        )
    }
}

/// An opened exchange with its bytes taken by view.
pub open spec fn opened_view(r: Result<Exchange, Error>) -> Result<ExchangeModel, Error> {
    match r {
        Ok(x) => Ok(x@),
        Err(e) => Err(e),
    }
}

/// The command block for `count` blocks from `lba`, and how many bytes it moves.
pub fn block_command(op: u8, lba: u32, count: u16, block_size: u32) -> (r: Result<
    ([u8; 10], usize),
    Error,
>)
    ensures
        match (r, block_range(op, lba, count, block_size)) {
            (Ok((cdb, length)), Ok((want, n))) => cdb@ == want && length == n,
            (Err(e), Err(why)) => e == why,
            _ => false,
        },
{
    if count == 0 || !bytes::is_power_of_two(block_size) || lba > u32::MAX - (count as u32 - 1) {
        return Err(Error::Protocol("invalid block range"));
    }
    match (count as usize).checked_mul(block_size as usize) {
        None => Err(Error::Protocol("block range overflow")),
        Some(length) => {
            let cdb: [u8; 10] = [
                op,
                0,
                (lba / 0x100_0000) as u8,
                (lba / 0x1_0000 % 256) as u8,
                (lba / 0x100 % 256) as u8,
                (lba % 256) as u8,
                0,
                (count / 0x100) as u8,
                (count % 256) as u8,
                0,
            ];
            assert(cdb@ =~= seq![op, 0u8] + bytes::be32(lba) + seq![0u8] + bytes::be16(count)
                + seq![0u8]);
            Ok((cdb, length))
        },
    }
}

/// A session with one logical unit of one connected device.
pub struct Scsi<T> {
    io: T,
    tag: u32,
    lun: u8,
    usable: bool,
}

impl<T> View for Scsi<T> {
    type V = ScsiModel<T>;

    closed spec fn view(&self) -> ScsiModel<T> {
        ScsiModel { io: self.io, tag: self.tag, lun: self.lun, usable: self.usable }
    }
}

/// A session over `io`, or the refusal of a LUN that `io` does not have.
pub open spec fn selected<T>(io: T, lun: u8, max_lun: u8) -> Result<ScsiModel<T>, Error> {
    if lun > 15 || lun > max_lun {
        Err(Error::Protocol("invalid LUN"))
    } else {
        Ok(ScsiModel { io, tag: 0, lun, usable: true })
    }
}

/// A new session by its view.
pub open spec fn session_view<T>(r: Result<Scsi<T>, Error>) -> Result<ScsiModel<T>, Error> {
    match r {
        Ok(s) => Ok(s@),
        Err(e) => Err(e),
    }
}

impl<T: BulkIo> Scsi<T> {
    /// A session with logical unit `lun`. What is refused depends on what the
    /// transport says of itself; see [`Scsi::select`].
    pub fn new(io: T, lun: u8) -> (r: Result<Self, Error>)
        ensures
            exists|max_lun: u8| #[trigger]
                call_ensures(T::max_lun, (&io,), max_lun) && session_view(r) == selected(
                    io,
                    lun,
                    max_lun,
                ),
    {
        let max_lun: u8 = io.max_lun();
        Scsi::select(io, lun, max_lun)
    }
}

impl<T> Scsi<T> {
    /// A session with logical unit `lun` of a device whose highest is `max_lun`.
    pub fn select(io: T, lun: u8, max_lun: u8) -> (r: Result<Self, Error>)
        ensures
            session_view(r) == selected(io, lun, max_lun),
    {
        if lun > 15 || lun > max_lun {
            return Err(Error::Protocol("invalid LUN"));
        }
        Ok(Scsi { io, tag: 0, lun, usable: true })
    }

    /// Whether the session takes another command.
    pub fn is_usable(&self) -> (usable: bool)
        ensures
            usable == self@.usable,
    {
        self.usable
    }

    /// Gives the transport up, to be drained and released.
    pub fn into_inner(self) -> (io: T)
        ensures
            io == self@.io,
    {
        self.io
    }

    /// The transport, to perform a transfer on.
    pub fn io_mut(&mut self) -> (io: &mut T)
        ensures
            *io == old(self)@.io,
            final(self)@ == (ScsiModel { io: *final(io), ..old(self)@ }),
    {
        &mut self.io
    }

    /// Opens an exchange for the command block `cdb`.
    fn command(&mut self, cdb: &[u8], incoming: usize, outgoing: &[u8], form: Form) -> (r: Result<
        Exchange,
        Error,
    >)
        requires
            form == Form::Capacity ==> incoming == 8,
        ensures
            (final(self)@, opened_view(r)) == old(self)@.open(
                cdb@,
                incoming as int,
                outgoing@,
                form,
            ),
    {
        if !self.usable {
            return Err(Error::Retired);
        }
        if cdb.len() == 0 || cdb.len() > 16 || (incoming > 0 && outgoing.len() > 0) {
            return Err(Error::Protocol("invalid command shape"));
        }
        if incoming as u64 > 0xffff_ffff || outgoing.len() as u64 > 0xffff_ffff {
            return Err(Error::Protocol("transfer exceeds BOT limit"));
        }
        self.tag = self.tag.wrapping_add(1);
        self.usable = false;
        Ok(Exchange::open(self.tag, self.lun, cdb, incoming, outgoing, form))
    }

    /// Takes the end of the outstanding transfer of the exchange in flight.
    pub fn resume(&mut self, exchange: Exchange, completion: Completion) -> (p: Progress)
        ensures
            exchange@.wf(),
            (final(self)@, exchange::progress_view(p, final(self)@.usable)) == old(self)@.resume(
                exchange@,
                completion@,
            ),
    {
        proof {
            use_type_invariant(&exchange);
        }
        if self.usable || exchange.tag() != self.tag {
            return Progress::Done(Err(Error::Protocol("exchange is not the one in flight")));
        }
        let (progress, usable) = exchange.absorb(completion);
        self.usable = usable;
        progress
    }

    /// TEST UNIT READY.
    pub fn test_unit_ready(&mut self) -> (r: Result<Exchange, Error>)
        ensures
            (final(self)@, opened_view(r)) == old(self)@.test_unit_ready(),
    {
        let cdb: [u8; 6] = [0, 0, 0, 0, 0, 0];
        let none: [u8; 0] = [];
        assert(cdb@ =~= seq![0u8, 0, 0, 0, 0, 0]);
        assert(none@ =~= Seq::<u8>::empty());
        self.command(&cdb, 0, &none, Form::Status)
    }

    /// INQUIRY, for the standard 36 bytes.
    pub fn inquiry(&mut self) -> (r: Result<Exchange, Error>)
        ensures
            (final(self)@, opened_view(r)) == old(self)@.inquiry(),
    {
        let cdb: [u8; 6] = [0x12, 0, 0, 0, 36, 0];
        let none: [u8; 0] = [];
        assert(cdb@ =~= seq![0x12u8, 0, 0, 0, 36, 0]);
        assert(none@ =~= Seq::<u8>::empty());
        self.command(&cdb, 36, &none, Form::Data)
    }

    /// START STOP UNIT with LOEJ set and START clear. A good eject retires the session.
    pub fn eject(&mut self) -> (r: Result<Exchange, Error>)
        ensures
            (final(self)@, opened_view(r)) == old(self)@.eject(),
    {
        let cdb: [u8; 6] = [0x1b, 0, 0, 0, 2, 0];
        let none: [u8; 0] = [];
        assert(cdb@ =~= seq![0x1bu8, 0, 0, 0, 2, 0]);
        assert(none@ =~= Seq::<u8>::empty());
        self.command(&cdb, 0, &none, Form::Eject)
    }

    /// REQUEST SENSE, for 18 bytes.
    pub fn request_sense(&mut self) -> (r: Result<Exchange, Error>)
        ensures
            (final(self)@, opened_view(r)) == old(self)@.request_sense(),
    {
        let cdb: [u8; 6] = [3, 0, 0, 0, 18, 0];
        let none: [u8; 0] = [];
        assert(cdb@ =~= seq![3u8, 0, 0, 0, 18, 0]);
        assert(none@ =~= Seq::<u8>::empty());
        self.command(&cdb, 18, &none, Form::Data)
    }

    /// READ CAPACITY(10).
    pub fn geometry(&mut self) -> (r: Result<Exchange, Error>)
        ensures
            (final(self)@, opened_view(r)) == old(self)@.geometry(),
    {
        let cdb: [u8; 10] = [0x25, 0, 0, 0, 0, 0, 0, 0, 0, 0];
        let none: [u8; 0] = [];
        assert(cdb@ =~= seq![0x25u8, 0, 0, 0, 0, 0, 0, 0, 0, 0]);
        assert(none@ =~= Seq::<u8>::empty());
        self.command(&cdb, 8, &none, Form::Capacity)
    }

    /// READ(10) of `count` blocks from `lba`.
    pub fn read_blocks(&mut self, lba: u32, count: u16, block_size: u32) -> (r: Result<
        Exchange,
        Error,
    >)
        ensures
            (final(self)@, opened_view(r)) == old(self)@.read_blocks(lba, count, block_size),
    {
        match block_command(0x28, lba, count, block_size) {
            Ok((cdb, length)) => {
                let none: [u8; 0] = [];
                assert(none@ =~= Seq::<u8>::empty());
                self.command(&cdb, length, &none, Form::Data)
            },
            Err(e) => Err(e),
        }
    }

    /// WRITE(10) of `count` blocks from `lba`.
    pub fn write_blocks(&mut self, lba: u32, count: u16, block_size: u32, data: &[u8]) -> (r: Result<
        Exchange,
        Error,
    >)
        ensures
            (final(self)@, opened_view(r)) == old(self)@.write_blocks(
                lba,
                count,
                block_size,
                data@,
            ),
    {
        match block_command(0x2a, lba, count, block_size) {
            Ok((cdb, length)) => {
                if data.len() != length {
                    return Err(Error::Protocol("write length differs from sector count"));
                }
                self.command(&cdb, 0, data, Form::Status)
            },
            Err(e) => Err(e),
        }
    }

    /// SYNCHRONIZE CACHE(10) over the whole medium.
    pub fn flush(&mut self) -> (r: Result<Exchange, Error>)
        ensures
            (final(self)@, opened_view(r)) == old(self)@.flush(),
    {
        let cdb: [u8; 10] = [0x35, 0, 0, 0, 0, 0, 0, 0, 0, 0];
        let none: [u8; 0] = [];
        assert(cdb@ =~= seq![0x35u8, 0, 0, 0, 0, 0, 0, 0, 0, 0]);
        assert(none@ =~= Seq::<u8>::empty());
        self.command(&cdb, 0, &none, Form::Status)
    }
}

} // verus!
