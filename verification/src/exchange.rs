//! One command over the USB bulk-only transport.
//!
//! A command is one exchange: a 31-byte command wrapper, an optional data stage
//! in one direction, and a 13-byte status wrapper. [`Exchange`] holds the
//! exchange in flight: it names the next bulk transfer, and a session takes the
//! completion of that transfer.

use vstd::prelude::*;
use vstd::slice::slice_subrange;
use vstd::slice::slice_to_vec;

use crate::bytes;
use crate::error::Error;

verus! {

/// The most that one bulk transfer of a data stage carries.
pub const CHUNK_BYTES: usize = 0x10_0000;

/// The length of a command wrapper.
pub const CBW_BYTES: usize = 31;

/// The length of a status wrapper.
pub const CSW_BYTES: usize = 13;

/// A bulk transfer: bytes to send, or how many to ask for.
pub enum TransferOf<B> {
    Write(B),
    Read(usize),
}

/// The transfer that a caller is to perform.
pub type Transfer = TransferOf<Vec<u8>>;

/// How a bulk transfer ended. The count and the bytes are those that were
/// transferred, never those that were asked for.
pub enum CompletionOf<B> {
    Written(Result<usize, Error>),
    Received(Result<B, Error>),
}

/// What a caller hands back for a transfer.
pub type Completion = CompletionOf<Vec<u8>>;

/// What a command that the device reported as good gives.
pub enum ResponseOf<B> {
    Done,
    Data(B),
    Capacity(Geometry),
}

/// The reply to a command.
pub type Response = ResponseOf<Vec<u8>>;

impl View for TransferOf<Vec<u8>> {
    type V = TransferOf<Seq<u8>>;

    open spec fn view(&self) -> TransferOf<Seq<u8>> {
        match *self {
            TransferOf::Write(b) => TransferOf::Write(b@),
            TransferOf::Read(n) => TransferOf::Read(n),
        }
    }
}

impl View for CompletionOf<Vec<u8>> {
    type V = CompletionOf<Seq<u8>>;

    open spec fn view(&self) -> CompletionOf<Seq<u8>> {
        match *self {
            CompletionOf::Written(r) => CompletionOf::Written(r),
            CompletionOf::Received(Ok(b)) => CompletionOf::Received(Ok(b@)),
            CompletionOf::Received(Err(e)) => CompletionOf::Received(Err(e)),
        }
    }
}

impl View for ResponseOf<Vec<u8>> {
    type V = ResponseOf<Seq<u8>>;

    open spec fn view(&self) -> ResponseOf<Seq<u8>> {
        match *self {
            ResponseOf::Done => ResponseOf::Done,
            ResponseOf::Data(b) => ResponseOf::Data(b@),
            ResponseOf::Capacity(g) => ResponseOf::Capacity(g),
        }
    }
}

/// A reply with its bytes taken by view.
pub open spec fn response_view(r: Result<Response, Error>) -> Result<ResponseOf<Seq<u8>>, Error> {
    match r {
        Ok(response) => Ok(response@),
        Err(e) => Err(e),
    }
}

/// The size of the medium.
#[derive(Clone, Copy, Debug)]
pub struct Geometry {
    pub blocks: u64,
    pub block_size: u32,
}

/// Where an exchange stands: which wrapper or data transfer is outstanding.
#[derive(Clone, Copy, Debug, PartialEq, Eq, Structural)]
pub enum Stage {
    Command,
    Data,
    Status,
}

/// How the data of a good command is read.
#[derive(Clone, Copy, Debug, PartialEq, Eq, Structural)]
pub enum Form {
    /// Nothing but the status matters.
    Status,
    /// The data stage is the reply.
    Data,
    /// The data stage is a READ CAPACITY(10) reply.
    Capacity,
    /// The medium is gone, and the session with it.
    Eject,
}

/// An exchange in flight, as mathematics.
#[verifier::ext_equal]
pub struct ExchangeModel {
    pub tag: u32,
    pub length: int,
    pub cbw: Seq<u8>,
    pub incoming: int,
    pub outgoing: Seq<u8>,
    pub received: Seq<u8>,
    pub sent: int,
    pub stage: Stage,
    pub form: Form,
}

/// What a completion makes of an exchange.
pub enum ProgressModel {
    /// The exchange goes on with its next transfer.
    More(ExchangeModel),
    /// The exchange is over. `usable` says whether the session outlives it.
    Done { reply: Result<ResponseOf<Seq<u8>>, Error>, usable: bool },
}

/// The bytes of a command wrapper: signature, tag, length, direction, LUN and
/// the command block, padded with zeros to 16 bytes.
pub open spec fn command_wrapper(
    tag: u32,
    length: u32,
    incoming: bool,
    lun: u8,
    cdb: Seq<u8>,
) -> Seq<u8> {
    seq![0x55u8, 0x53, 0x42, 0x43] + bytes::le32(tag) + bytes::le32(length) + seq![
        if incoming { 0x80u8 } else { 0u8 },
        lun,
        cdb.len() as u8,
    ] + cdb + Seq::new((16 - cdb.len()) as nat, |i: int| 0u8)
}

/// The shorter of the two lengths.
pub open spec fn min(a: int, b: int) -> int {
    if a <= b {
        a
    } else {
        b
    }
}

/// Whether a status wrapper has the right length, signature and tag.
pub open spec fn status_frames(csw: Seq<u8>, tag: u32) -> bool {
    &&& csw.len() == 13
    &&& csw.subrange(0, 4) == seq![0x55u8, 0x53, 0x42, 0x53]
    &&& csw.subrange(4, 8) == bytes::le32(tag)
}

/// What a READ CAPACITY(10) reply says: the last block and the block size.
pub open spec fn parse_capacity(d: Seq<u8>) -> Result<Geometry, Error> {
    let last = bytes::from_be32(d, 0);
    let size = bytes::from_be32(d, 4);
    if last == u32::MAX || !bytes::is_two_power(size) {
        Err(Error::Protocol("unsupported capacity or sector size"))
    } else {
        Ok(Geometry { blocks: (last + 1) as u64, block_size: size as u32 })
    }
}

/// What a good command with this data stage gives.
pub open spec fn response_of(form: Form, d: Seq<u8>) -> Result<ResponseOf<Seq<u8>>, Error> {
    match form {
        Form::Status => Ok(ResponseOf::Done),
        Form::Eject => Ok(ResponseOf::Done),
        Form::Data => Ok(ResponseOf::Data(d)),
        Form::Capacity => match parse_capacity(d) {
            Ok(g) => Ok(ResponseOf::Capacity(g)),
            Err(e) => Err(e),
        },
    }
}

/// The exchange for a command block, before its first transfer.
pub open spec fn opening(
    tag: u32,
    lun: u8,
    cdb: Seq<u8>,
    incoming: int,
    outgoing: Seq<u8>,
    form: Form,
) -> ExchangeModel {
    let length = incoming + outgoing.len();
    ExchangeModel {
        tag,
        length,
        cbw: command_wrapper(tag, length as u32, incoming > 0, lun, cdb),
        incoming,
        outgoing,
        received: seq![],
        sent: 0,
        stage: Stage::Command,
        form,
    }
}

/// The exchange is over and the session with it.
pub open spec fn failed(e: Error) -> ProgressModel {
    ProgressModel::Done { reply: Err(e), usable: false }
}

impl ExchangeModel {
    /// What holds of every exchange in flight.
    pub open spec fn wf(self) -> bool {
        &&& self.cbw.len() == 31
        &&& 0 <= self.incoming <= u32::MAX
        &&& self.outgoing.len() <= u32::MAX
        &&& self.incoming > 0 ==> self.outgoing.len() == 0
        &&& self.length == self.incoming + self.outgoing.len()
        &&& self.received.len() <= self.incoming
        &&& 0 <= self.sent <= self.outgoing.len()
        &&& self.form == Form::Capacity ==> self.incoming == 8
        &&& self.stage == Stage::Command ==> self.received.len() == 0 && self.sent == 0
        &&& self.stage == Stage::Data ==> self.received.len() < self.incoming || self.sent
            < self.outgoing.len()
        &&& self.stage == Stage::Status ==> self.received.len() == self.incoming && self.sent
            == self.outgoing.len()
    }

    /// The transfer that the exchange waits for.
    pub open spec fn transfer(self) -> TransferOf<Seq<u8>> {
        match self.stage {
            Stage::Command => TransferOf::Write(self.cbw),
            Stage::Data => if self.incoming > 0 {
                TransferOf::Read(
                    min(self.incoming - self.received.len(), CHUNK_BYTES as int) as usize,
                )
            } else {
                TransferOf::Write(self.outgoing.subrange(self.sent, self.chunk_end()))
            },
            Stage::Status => TransferOf::Read(CSW_BYTES),
        }
    }

    /// Where the outgoing chunk ends that starts at what was sent.
    pub open spec fn chunk_end(self) -> int {
        min(self.sent + CHUNK_BYTES, self.outgoing.len() as int)
    }

    /// The exchange after a wrapper or chunk, with the stage that its data asks for.
    pub open spec fn onward(self) -> ExchangeModel {
        let stage = if self.received.len() < self.incoming || self.sent < self.outgoing.len() {
            Stage::Data
        } else {
            Stage::Status
        };
        ExchangeModel { stage, ..self }
    }

    /// What the end of the outstanding transfer makes of the exchange.
    pub open spec fn absorb(self, completion: CompletionOf<Seq<u8>>) -> ProgressModel {
        match (self.transfer(), completion) {
            (TransferOf::Write(_), CompletionOf::Written(Err(e))) => failed(e),
            (TransferOf::Read(_), CompletionOf::Received(Err(e))) => failed(e),
            (TransferOf::Write(b), CompletionOf::Written(Ok(n))) => self.after_write(b, n as int),
            (TransferOf::Read(_), CompletionOf::Received(Ok(b))) => if self.stage == Stage::Data {
                self.after_data(b)
            } else {
                self.after_status(b)
            },
            (TransferOf::Write(_), CompletionOf::Received(_)) => failed(
                Error::Protocol("completion does not match its transfer"),
            ),
            (TransferOf::Read(_), CompletionOf::Written(_)) => failed(
                Error::Protocol("completion does not match its transfer"),
            ),
        }
    }

    /// `n` bytes of `b` went out.
    pub open spec fn after_write(self, b: Seq<u8>, n: int) -> ProgressModel {
        if n != b.len() {
            failed(
                Error::Protocol(
                    if self.stage == Stage::Command {
                        "short CBW"
                    } else {
                        "short data write"
                    },
                ),
            )
        } else if self.stage == Stage::Command {
            ProgressModel::More(self.onward())
        } else {
            ProgressModel::More(ExchangeModel { sent: self.chunk_end(), ..self }.onward())
        }
    }

    /// `b` came in as a part of the data stage.
    pub open spec fn after_data(self, b: Seq<u8>) -> ProgressModel {
        if b.len() == 0 || b.len() > self.incoming - self.received.len() {
            failed(Error::Protocol("short or oversized data stage"))
        } else {
            ProgressModel::More(ExchangeModel { received: self.received + b, ..self }.onward())
        }
    }

    /// `csw` came in as the status wrapper.
    pub open spec fn after_status(self, csw: Seq<u8>) -> ProgressModel {
        if !status_frames(csw, self.tag) {
            failed(Error::Protocol("invalid CSW length, signature or tag"))
        } else if bytes::from_le32(csw, 8) > self.length {
            failed(Error::Protocol("invalid CSW residue"))
        } else if csw[12] == 0 && bytes::from_le32(csw, 8) == 0 {
            ProgressModel::Done {
                reply: response_of(self.form, self.received),
                usable: self.form != Form::Eject,
            }
        } else if csw[12] == 1 {
            ProgressModel::Done { reply: Err(Error::CommandFailed), usable: true }
        } else {
            failed(Error::Protocol("CSW phase error or incomplete transfer"))
        }
    }
}

/// A command in flight.
pub struct Exchange {
    tag: u32,
    length: u32,
    cbw: Vec<u8>,
    incoming: usize,
    outgoing: Vec<u8>,
    received: Vec<u8>,
    sent: usize,
    stage: Stage,
    form: Form,
}

impl View for Exchange {
    type V = ExchangeModel;

    closed spec fn view(&self) -> ExchangeModel {
        ExchangeModel {
            tag: self.tag,
            length: self.length as int,
            cbw: self.cbw@,
            incoming: self.incoming as int,
            outgoing: self.outgoing@,
            received: self.received@,
            sent: self.sent as int,
            stage: self.stage,
            form: self.form,
        }
    }
}

/// What a completion made of an exchange.
pub enum Progress {
    /// The exchange goes on; perform its transfer.
    More(Exchange),
    /// The exchange is over.
    Done(Result<Response, Error>),
}

impl Exchange {
    #[verifier::type_invariant]
    pub(crate) open spec fn valid(self) -> bool {
        self@.wf()
    }

    /// The exchange for a command block, before its first transfer.
    pub(crate) fn open(
        tag: u32,
        lun: u8,
        cdb: &[u8],
        incoming: usize,
        outgoing: &[u8],
        form: Form,
    ) -> (x: Exchange)
        requires
            0 < cdb@.len() <= 16,
            incoming <= u32::MAX,
            outgoing@.len() <= u32::MAX,
            incoming > 0 ==> outgoing@.len() == 0,
            form == Form::Capacity ==> incoming == 8,
        ensures
            x@ == opening(tag, lun, cdb@, incoming as int, outgoing@, form),
    {
        let length: u32 = if incoming > 0 {
            incoming as u32
        } else {
            outgoing.len() as u32
        };
        Exchange {
            tag,
            length,
            cbw: wrap_command(tag, length, incoming > 0, lun, cdb),
            incoming,
            outgoing: slice_to_vec(outgoing),
            received: Vec::new(),
            sent: 0,
            stage: Stage::Command,
            form,
        }
    }

    /// The tag that the exchange goes by.
    pub fn tag(&self) -> (tag: u32)
        ensures
            tag == self@.tag,
    {
        self.tag
    }

    /// The bulk transfer that the caller is to perform next.
    pub fn transfer(&self) -> (t: Transfer)
        ensures
            t@ == self@.transfer(),
    {
        proof {
            use_type_invariant(self);
        }
        match self.stage {
            Stage::Command => TransferOf::Write(self.cbw.clone()),
            Stage::Data => {
                if self.incoming > 0 {
                    let left: usize = self.incoming - self.received.len();
                    TransferOf::Read(
                        if left <= CHUNK_BYTES {
                            left
                        } else {
                            CHUNK_BYTES
                        },
                    )
                } else {
                    let end: usize = self.chunk_end();
                    TransferOf::Write(
                        slice_to_vec(slice_subrange(self.outgoing.as_slice(), self.sent, end)),
                    )
                }
            },
            Stage::Status => TransferOf::Read(CSW_BYTES),
        }
    }

    fn chunk_end(&self) -> (end: usize)
        requires
            self@.wf(),
        ensures
            end == self@.chunk_end(),
    {
        if self.outgoing.len() - self.sent <= CHUNK_BYTES {
            self.outgoing.len()
        } else {
            self.sent + CHUNK_BYTES
        }
    }

    /// How many bytes the outstanding transfer sends, if it sends.
    fn outgoing_length(&self) -> (n: Option<usize>)
        ensures
            match self@.transfer() {
                TransferOf::Write(b) => n matches Some(k) && k == b.len(),
                TransferOf::Read(_) => n is None,
            },
    {
        proof {
            use_type_invariant(self);
        }
        match self.stage {
            Stage::Command => Some(self.cbw.len()),
            Stage::Data => if self.incoming > 0 {
                None
            } else {
                Some(self.chunk_end() - self.sent)
            },
            Stage::Status => None,
        }
    }

    /// Sets the stage that the data still to move asks for.
    fn onward(self) -> (next: Exchange)
        requires
            self@.stage != Stage::Status,
        ensures
            next@ == self@.onward(),
    {
        proof {
            use_type_invariant(&self);
        }
        let stage = if self.received.len() < self.incoming || self.sent < self.outgoing.len() {
            Stage::Data
        } else {
            Stage::Status
        };
        Exchange { stage, ..self }
    }

    /// What the end of the outstanding transfer makes of the exchange, and
    /// whether the session is usable after it.
    pub(crate) fn absorb(self, completion: Completion) -> (out: (Progress, bool))
        ensures
            progress_view(out.0, out.1) == self@.absorb(completion@),
            out.0 is More ==> !out.1,
    {
        match completion {
            CompletionOf::Written(r) => match self.outgoing_length() {
                Some(asked) => match r {
                    Ok(n) => self.after_write(asked, n),
                    Err(e) => (Progress::Done(Err(e)), false),
                },
                None => mismatch(),
            },
            CompletionOf::Received(r) => match self.outgoing_length() {
                Some(_) => mismatch(),
                None => match r {
                    Ok(b) => if self.stage == Stage::Data {
                        self.after_data(b)
                    } else {
                        self.after_status(b)
                    },
                    Err(e) => (Progress::Done(Err(e)), false),
                },
            },
        }
    }

    fn after_write(self, asked: usize, n: usize) -> (out: (Progress, bool))
        requires
            self@.transfer() is Write,
            asked == self@.transfer()->Write_0.len(),
        ensures
            progress_view(out.0, out.1) == self@.after_write(
                self@.transfer()->Write_0,
                n as int,
            ),
            out.0 is More ==> !out.1,
    {
        proof {
            use_type_invariant(&self);
        }
        if n != asked {
            if self.stage == Stage::Command {
                refuse("short CBW")
            } else {
                refuse("short data write")
            }
        } else if self.stage == Stage::Command {
            (Progress::More(self.onward()), false)
        } else {
            let sent: usize = self.chunk_end();
            let ghost next = ExchangeModel { sent: sent as int, ..self@ }.onward();
            let stage = if sent < self.outgoing.len() {
                Stage::Data
            } else {
                Stage::Status
            };
            let moved = Exchange { sent, stage, ..self };
            assert(moved@ == next);
            (Progress::More(moved), false)
        }
    }

    fn after_data(self, b: Vec<u8>) -> (out: (Progress, bool))
        requires
            self@.stage == Stage::Data,
            self@.transfer() is Read,
        ensures
            progress_view(out.0, out.1) == self@.after_data(b@),
            out.0 is More ==> !out.1,
    {
        proof {
            use_type_invariant(&self);
        }
        if b.len() == 0 || b.len() > self.incoming - self.received.len() {
            refuse("short or oversized data stage")
        } else {
            let ghost next = ExchangeModel { received: self@.received + b@, ..self@ }.onward();
            let mut chunk = b;
            let Exchange { tag, length, cbw, incoming, outgoing, received, sent, stage: _, form } =
                self;
            let mut received = received;
            received.append(&mut chunk);
            let stage = if received.len() < incoming {
                Stage::Data
            } else {
                Stage::Status
            };
            let moved = Exchange {
                tag,
                length,
                cbw,
                incoming,
                outgoing,
                received,
                sent,
                stage,
                form,
            };
            assert(moved@ == next);
            (Progress::More(moved), false)
        }
    }

    fn after_status(self, csw: Vec<u8>) -> (out: (Progress, bool))
        requires
            self@.stage == Stage::Status,
        ensures
            progress_view(out.0, out.1) == self@.after_status(csw@),
            out.0 is More ==> !out.1,
    {
        proof {
            use_type_invariant(&self);
        }
        if !frames_status(&csw, self.tag) {
            return refuse("invalid CSW length, signature or tag");
        }
        let residue: u32 = bytes::read_le32(csw.as_slice(), 8);
        if residue > self.length {
            refuse("invalid CSW residue")
        } else if csw[12] == 0 && residue == 0 {
            let usable = self.form != Form::Eject;
            let reply = match self.form {
                Form::Status => Ok(ResponseOf::Done),
                Form::Eject => Ok(ResponseOf::Done),
                Form::Data => Ok(ResponseOf::Data(self.received)),
                Form::Capacity => match capacity(&self.received) {
                    Ok(g) => Ok(ResponseOf::Capacity(g)),
                    Err(e) => Err(e),
                },
            };
            (Progress::Done(reply), usable)
        } else if csw[12] == 1 {
            (Progress::Done(Err(Error::CommandFailed)), true)
        } else {
            refuse("CSW phase error or incomplete transfer")
        }
    }
}

/// A step and the session's fate together, as mathematics.
pub open spec fn progress_view(p: Progress, usable: bool) -> ProgressModel {
    match p {
        Progress::More(x) => ProgressModel::More(x@),
        Progress::Done(reply) => ProgressModel::Done { reply: response_view(reply), usable },
    }
}

fn refuse(why: &'static str) -> (out: (Progress, bool))
    ensures
        progress_view(out.0, out.1) == failed(Error::Protocol(why)),
{
    (Progress::Done(Err(Error::Protocol(why))), false)
}

fn mismatch() -> (out: (Progress, bool))
    ensures
        progress_view(out.0, out.1) == failed(
            Error::Protocol("completion does not match its transfer"),
        ),
{
    refuse("completion does not match its transfer")
}

/// Whether a status wrapper has the right length, signature and tag.
fn frames_status(csw: &Vec<u8>, tag: u32) -> (yes: bool)
    ensures
        yes == status_frames(csw@, tag),
{
    let ghost sig = seq![0x55u8, 0x53, 0x42, 0x53];
    if csw.len() != CSW_BYTES {
        return false;
    }
    let signed = csw[0] == 0x55 && csw[1] == 0x53 && csw[2] == 0x42 && csw[3] == 0x53;
    let tagged = csw[4] == (tag % 256) as u8 && csw[5] == (tag / 0x100 % 256) as u8 && csw[6] == (
    tag / 0x1_0000 % 256) as u8 && csw[7] == (tag / 0x100_0000) as u8;
    proof {
        assert(signed ==> csw@.subrange(0, 4) =~= sig);
        assert(tagged ==> csw@.subrange(4, 8) =~= bytes::le32(tag));
        if csw@.subrange(0, 4) == sig {
            assert(forall|i: int| 0 <= i < 4 ==> csw@[i] == #[trigger] csw@.subrange(0, 4)[i]);
            assert(csw@.subrange(0, 4)[0] == 0x55 && csw@.subrange(0, 4)[1] == 0x53
                && csw@.subrange(0, 4)[2] == 0x42 && csw@.subrange(0, 4)[3] == 0x53);
        }
        if csw@.subrange(4, 8) == bytes::le32(tag) {
            let t = csw@.subrange(4, 8);
            assert(t[0] == csw@[4] && t[1] == csw@[5] && t[2] == csw@[6] && t[3] == csw@[7]);
        }
    }
    signed && tagged
}

/// Reads a READ CAPACITY(10) reply.
fn capacity(d: &Vec<u8>) -> (r: Result<Geometry, Error>)
    requires
        d@.len() == 8,
    ensures
        r == parse_capacity(d@),
{
    let last: u32 = bytes::read_be32(d.as_slice(), 0);
    let size: u32 = bytes::read_be32(d.as_slice(), 4);
    if last == u32::MAX || !bytes::is_power_of_two(size) {
        Err(Error::Protocol("unsupported capacity or sector size"))
    } else {
        Ok(Geometry { blocks: last as u64 + 1, block_size: size })
    }
}

/// Builds a command wrapper.
fn wrap_command(tag: u32, length: u32, incoming: bool, lun: u8, cdb: &[u8]) -> (cbw: Vec<u8>)
    requires
        0 < cdb@.len() <= 16,
    ensures
        cbw@ == command_wrapper(tag, length, incoming, lun, cdb@),
        cbw@.len() == CBW_BYTES,
{
    let mut cbw: Vec<u8> = vec![0x55, 0x53, 0x42, 0x43];
    bytes::push_le32(&mut cbw, tag);
    bytes::push_le32(&mut cbw, length);
    cbw.push(
        if incoming {
            0x80
        } else {
            0
        },
    );
    cbw.push(lun);
    cbw.push(cdb.len() as u8);
    let mut block: Vec<u8> = slice_to_vec(cdb);
    block.resize(16, 0);
    assert(block@ =~= cdb@ + Seq::new((16 - cdb@.len()) as nat, |i: int| 0u8));
    cbw.append(&mut block);
    assert(cbw@ =~= command_wrapper(tag, length, incoming, lun, cdb@));
    cbw
}

} // verus!
