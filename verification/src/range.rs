//! Bounded byte ranges over a SCSI session. Access is fixed per connection; the
//! application owns backup and verification by a fresh open.

use vstd::prelude::*;
use vstd::slice::slice_subrange;
use vstd::slice::slice_to_vec;

use crate::bytes;
use crate::error::Error;
use crate::exchange;
use crate::exchange::Completion;
use crate::exchange::CompletionOf;
use crate::exchange::Exchange;
use crate::exchange::ExchangeModel;
use crate::exchange::Form;
use crate::exchange::Geometry;
use crate::exchange::Progress;
use crate::exchange::ProgressModel;
use crate::exchange::Response;
use crate::exchange::ResponseOf;
use crate::exchange::Transfer;
use crate::ready::ReadyModel;
use crate::ready::ReadyRun;
use crate::ready::ReadyStep;
use crate::ready::ReadyStepModel;
use crate::scsi;
use crate::scsi::Scsi;
use crate::scsi::ScsiModel;

verus! {

/// The most that one range operation moves.
pub const MAX_RANGE_BYTES: usize = 0x40_0000;

/// What a connection is for. It never changes.
#[derive(Clone, Copy, Debug, PartialEq, Eq, Structural)]
pub enum Access {
    ReadOnly,
    ReadWrite,
}

/// The blocks that a byte range touches: the first one, how many, and where in
/// the first the range starts.
pub struct Span {
    pub lba: int,
    pub count: int,
    pub skip: int,
}

/// The capacity in bytes.
pub open spec fn bytes_of(g: Geometry) -> int {
    g.blocks * g.block_size
}

/// Whether READ(10) and WRITE(10) with bounded buffers serve this medium.
pub open spec fn supported(g: Geometry) -> bool {
    &&& 0 < g.blocks <= u32::MAX
    &&& g.block_size <= 65536
    &&& bytes::is_two_power(g.block_size as int)
}

/// `a / b`, rounded up.
pub open spec fn div_up(a: int, b: int) -> int {
    if a % b == 0 {
        a / b
    } else {
        a / b + 1
    }
}

/// The blocks that cover `length` bytes from `offset`, or why there are none.
pub open spec fn span_of(g: Geometry, offset: int, length: int) -> Result<Span, Error> {
    if length == 0 || length > MAX_RANGE_BYTES {
        Err(Error::Protocol("range length must be 1 byte through 4 MiB"))
    } else if offset + length > bytes_of(g) {
        Err(Error::Protocol("range lies outside managed storage"))
    } else {
        let first = offset / (g.block_size as int);
        let count = div_up(offset + length, g.block_size as int) - first;
        if count > u16::MAX {
            Err(Error::Protocol("range exceeds READ/WRITE(10) block count"))
        } else {
            Ok(Span { lba: first, count, skip: offset % (g.block_size as int) })
        }
    }
}

/// `base` with the bytes from `at` on replaced by `patch`.
pub open spec fn splice(base: Seq<u8>, at: int, patch: Seq<u8>) -> Seq<u8> {
    base.subrange(0, at) + patch + base.subrange(at + patch.len(), base.len() as int)
}

/// What follows the command in flight.
pub enum RangeAfterOf<B> {
    /// The read blocks hold the range, from `skip` on.
    Slice { skip: usize, length: usize },
    /// The read blocks are written back with `data` put in at `skip`.
    Patch { lba: u32, count: u16, skip: usize, data: B },
    /// Nothing.
    Finish,
}

/// A range operation in flight, as mathematics.
pub struct RangeModel {
    pub exchange: ExchangeModel,
    pub after: RangeAfterOf<Seq<u8>>,
}

/// What a completion makes of a range operation.
pub enum RangeStepModel {
    More(RangeModel),
    Done(Result<ResponseOf<Seq<u8>>, Error>),
}

/// A range session, as mathematics.
pub struct RangeSessionModel<T> {
    pub scsi: ScsiModel<T>,
    pub geometry: Geometry,
    pub access: Access,
}

impl<T> RangeSessionModel<T> {
    /// What holds of every range session.
    pub open spec fn wf(self) -> bool {
        supported(self.geometry)
    }

    /// The session and step that an opened command makes.
    pub open spec fn started(self, opened: scsi::Opened<T>, after: RangeAfterOf<Seq<u8>>) -> (
        RangeSessionModel<T>,
        RangeStepModel,
    ) {
        let s = RangeSessionModel { scsi: opened.0, ..self };
        match opened.1 {
            Ok(exchange) => (s, RangeStepModel::More(RangeModel { exchange, after })),
            Err(e) => (s, RangeStepModel::Done(Err(e))),
        }
    }

    pub open spec fn read_range(self, offset: int, length: int) -> (
        RangeSessionModel<T>,
        RangeStepModel,
    ) {
        match span_of(self.geometry, offset, length) {
            Ok(span) => self.started(
                self.scsi.read_blocks(
                    span.lba as u32,
                    span.count as u16,
                    self.geometry.block_size,
                ),
                RangeAfterOf::Slice { skip: span.skip as usize, length: length as usize },
            ),
            Err(e) => (self, RangeStepModel::Done(Err(e))),
        }
    }

    pub open spec fn write_range(self, offset: int, data: Seq<u8>) -> (
        RangeSessionModel<T>,
        RangeStepModel,
    ) {
        if self.access != Access::ReadWrite {
            (
                self,
                RangeStepModel::Done(Err(Error::Protocol("managed storage was opened read-only"))),
            )
        } else {
            match span_of(self.geometry, offset, data.len() as int) {
                Ok(span) => if span.skip == 0 && span.count * self.geometry.block_size
                    == data.len() {
                    self.started(
                        self.scsi.write_blocks(
                            span.lba as u32,
                            span.count as u16,
                            self.geometry.block_size,
                            data,
                        ),
                        RangeAfterOf::Finish,
                    )
                } else {
                    self.started(
                        self.scsi.read_blocks(
                            span.lba as u32,
                            span.count as u16,
                            self.geometry.block_size,
                        ),
                        RangeAfterOf::Patch {
                            lba: span.lba as u32,
                            count: span.count as u16,
                            skip: span.skip as usize,
                            data,
                        },
                    )
                },
                Err(e) => (self, RangeStepModel::Done(Err(e))),
            }
        }
    }

    pub open spec fn sync(self) -> (RangeSessionModel<T>, RangeStepModel) {
        self.started(self.scsi.flush(), RangeAfterOf::Finish)
    }

    pub open spec fn eject(self) -> (RangeSessionModel<T>, RangeStepModel) {
        self.started(self.scsi.eject(), RangeAfterOf::Finish)
    }

    /// Takes the end of the outstanding transfer of a range operation.
    pub open spec fn resume(self, run: RangeModel, c: CompletionOf<Seq<u8>>) -> (
        RangeSessionModel<T>,
        RangeStepModel,
    ) {
        let (scsi, p) = self.scsi.resume(run.exchange, c);
        let s = RangeSessionModel { scsi, ..self };
        match p {
            ProgressModel::More(exchange) => (
                s,
                RangeStepModel::More(RangeModel { exchange, ..run }),
            ),
            ProgressModel::Done { reply: Err(e), .. } => (s, RangeStepModel::Done(Err(e))),
            ProgressModel::Done { reply: Ok(r), .. } => match (run.after, r) {
                (RangeAfterOf::Slice { skip, length }, ResponseOf::Data(d)) => (
                    s,
                    RangeStepModel::Done(
                        Ok(ResponseOf::Data(d.subrange(skip as int, skip + length))),
                    ),
                ),
                (RangeAfterOf::Patch { lba, count, skip, data }, ResponseOf::Data(d)) => s.started(
                    s.scsi.write_blocks(
                        lba,
                        count,
                        self.geometry.block_size,
                        splice(d, skip as int, data),
                    ),
                    RangeAfterOf::Finish,
                ),
                _ => (s, RangeStepModel::Done(Ok(ResponseOf::Done))),
            },
        }
    }
}

impl RangeModel {
    /// What holds of every range operation in flight: the blocks on their way
    /// hold the range.
    pub open spec fn wf(self) -> bool {
        match self.after {
            RangeAfterOf::Slice { skip, length } => self.exchange.form == Form::Data && skip + length
                <= self.exchange.incoming,
            RangeAfterOf::Patch { skip, data, .. } => self.exchange.form == Form::Data && skip
                + data.len() <= self.exchange.incoming,
            RangeAfterOf::Finish => true,
        }
    }
}

/// A range operation in flight.
pub struct RangeRun {
    exchange: Exchange,
    after: RangeAfterOf<Vec<u8>>,
}

impl View for RangeAfterOf<Vec<u8>> {
    type V = RangeAfterOf<Seq<u8>>;

    open spec fn view(&self) -> RangeAfterOf<Seq<u8>> {
        match *self {
            RangeAfterOf::Slice { skip, length } => RangeAfterOf::Slice { skip, length },
            RangeAfterOf::Patch { lba, count, skip, data } => RangeAfterOf::Patch {
                lba,
                count,
                skip,
                data: data@,
            },
            RangeAfterOf::Finish => RangeAfterOf::Finish,
        }
    }
}

impl View for RangeRun {
    type V = RangeModel;

    closed spec fn view(&self) -> RangeModel {
        RangeModel { exchange: self.exchange@, after: self.after@ }
    }
}

/// What a completion made of a range operation.
pub enum RangeStep {
    /// The operation goes on; perform its transfer.
    More(RangeRun),
    /// The operation is over. A read ends in the bytes of its range.
    Done(Result<Response, Error>),
}

impl View for RangeStep {
    type V = RangeStepModel;

    open spec fn view(&self) -> RangeStepModel {
        match *self {
            RangeStep::More(run) => RangeStepModel::More(run@),
            RangeStep::Done(r) => RangeStepModel::Done(exchange::response_view(r)),
        }
    }
}

impl RangeRun {
    #[verifier::type_invariant]
    spec fn valid(self) -> bool {
        self@.wf()
    }

    /// The bulk transfer that the caller is to perform next.
    pub fn transfer(&self) -> (t: Transfer)
        ensures
            t@ == self@.exchange.transfer(),
    {
        self.exchange.transfer()
    }
}

/// A supported block is at least one byte, and the medium is counted in 64 bits.
pub proof fn lemma_supported(g: Geometry)
    requires
        supported(g),
    ensures
        0 < g.block_size,
        0 < bytes_of(g) < 0x1_0000_0000_0000,
{
    let k = choose|k: nat| g.block_size as int == #[trigger] vstd::arithmetic::power2::pow2(k);
    vstd::arithmetic::power2::lemma_pow2_pos(k);
    assert(0 < g.blocks * g.block_size <= 0xffff_ffff * 65536) by (nonlinear_arith)
        requires
            0 < g.blocks <= 0xffff_ffff,
            0 < g.block_size <= 65536,
    ;
}

/// A span covers its range, stays on the medium, and is the smallest that does: with
/// one block less it would not reach the end of the range.
pub proof fn law_span_covers_the_range(g: Geometry, offset: int, length: int)
    requires
        supported(g),
        0 <= offset,
        0 <= length,
    ensures
        span_of(g, offset, length) matches Ok(span) ==> {
            &&& 0 <= span.lba
            &&& 1 <= span.count <= u16::MAX
            &&& span.lba + span.count <= g.blocks
            &&& 0 <= span.skip < g.block_size
            &&& span.lba * g.block_size + span.skip == offset
            &&& span.skip + length <= span.count * g.block_size <= u32::MAX
            &&& span.count * g.block_size < span.skip + length + g.block_size
        },
{
    lemma_supported(g);
    if let Ok(span) = span_of(g, offset, length) {
        let b = g.block_size as int;
        let end = offset + length;
        let last = span.lba + span.count;
        vstd::arithmetic::div_mod::lemma_fundamental_div_mod(offset, b);
        vstd::arithmetic::div_mod::lemma_fundamental_div_mod(end, b);
        assert(0 <= span.lba && span.lba * b + span.skip == offset && 0 <= span.skip < b)
            by (nonlinear_arith)
            requires
                0 <= offset,
                0 < b,
                offset == b * (offset / b) + offset % b,
                span.lba == offset / b,
                span.skip == offset % b,
        ;
        assert(end <= last * b < end + b) by (nonlinear_arith)
            requires
                0 < b,
                end == b * (end / b) + end % b,
                0 <= end % b < b,
                last == div_up(end, b),
        ;
        assert(last <= g.blocks) by (nonlinear_arith)
            requires
                0 < b,
                last * b < end + b,
                end <= g.blocks * b,
        ;
        assert(span.count >= 1) by (nonlinear_arith)
            requires
                0 < b,
                span.lba * b <= offset < last * b,
                last == span.lba + span.count,
        ;
        assert(span.skip + length <= span.count * b < span.skip + length + b)
            by (nonlinear_arith)
            requires
                span.lba * b + span.skip == offset,
                offset + length <= last * b < offset + length + b,
                last == span.lba + span.count,
        ;
        assert(span.count * b <= 65535 * 65536) by (nonlinear_arith)
            requires
                0 <= span.count <= 65535,
                0 < b <= 65536,
        ;
    }
}

/// The size of a medium that is served.
struct Medium {
    geometry: Geometry,
}

impl Medium {
    #[verifier::type_invariant]
    spec fn valid(self) -> bool {
        supported(self.geometry)
    }
}

/// A session of byte ranges over one medium.
pub struct RangeSession<T> {
    scsi: Scsi<T>,
    medium: Medium,
    access: Access,
}

impl<T> View for RangeSession<T> {
    type V = RangeSessionModel<T>;

    closed spec fn view(&self) -> RangeSessionModel<T> {
        RangeSessionModel {
            scsi: self.scsi@,
            geometry: self.medium.geometry,
            access: self.access,
        }
    }
}

fn begin(opened: Result<Exchange, Error>, after: RangeAfterOf<Vec<u8>>) -> (step: RangeStep)
    requires
        scsi::opened_view(opened) matches Ok(exchange) ==> (RangeModel {
            exchange,
            after: after@,
        }).wf(),
    ensures
        match scsi::opened_view(opened) {
            Ok(exchange) => step@ == RangeStepModel::More(RangeModel { exchange, after: after@ }),
            Err(e) => step@ == RangeStepModel::Done(Err(e)),
        },
{
    match opened {
        Ok(exchange) => RangeStep::More(RangeRun { exchange, after }),
        Err(e) => RangeStep::Done(Err(e)),
    }
}

/// `base` with the bytes from `at` on replaced by `patch`.
fn spliced(base: &Vec<u8>, at: usize, patch: &Vec<u8>) -> (out: Vec<u8>)
    requires
        at + patch@.len() <= base@.len(),
    ensures
        out@ == splice(base@, at as int, patch@),
{
    let end: usize = base.len();
    let mut out: Vec<u8> = slice_to_vec(slice_subrange(base.as_slice(), 0, at));
    let mut middle: Vec<u8> = patch.clone();
    let mut rest: Vec<u8> = slice_to_vec(
        slice_subrange(base.as_slice(), at + patch.len(), end),
    );
    out.append(&mut middle);
    out.append(&mut rest);
    out
}

impl<T> RangeSession<T> {
    /// The size of the medium.
    pub fn geometry(&self) -> (g: Geometry)
        ensures
            g == self@.geometry,
            supported(g),
    {
        proof {
            use_type_invariant(&self.medium);
        }
        self.medium.geometry
    }

    /// What the connection is for.
    pub fn access(&self) -> (access: Access)
        ensures
            access == self@.access,
    {
        self.access
    }

    /// Whether the session takes another command.
    pub fn is_usable(&self) -> (usable: bool)
        ensures
            usable == self@.scsi.usable,
    {
        self.scsi.is_usable()
    }

    /// Gives the SCSI session up.
    pub fn into_inner(self) -> (scsi: Scsi<T>)
        ensures
            scsi@ == self@.scsi,
    {
        self.scsi
    }

    /// The transport, to perform a transfer on.
    pub fn io_mut(&mut self) -> (io: &mut T)
        ensures
            *io == old(self)@.scsi.io,
            final(self)@ == (RangeSessionModel {
                scsi: ScsiModel { io: *final(io), ..old(self)@.scsi },
                ..old(self)@
            }),
    {
        self.scsi.io_mut()
    }

    /// The capacity in bytes.
    pub fn size_bytes(&self) -> (size: u64)
        ensures
            size == bytes_of(self@.geometry),
    {
        let geometry = self.geometry();
        proof {
            lemma_supported(geometry);
        }
        geometry.blocks * geometry.block_size as u64
    }

    /// The blocks that a range touches: the first, how many, and where in the
    /// first the range starts.
    pub fn span(&self, offset: u64, length: usize) -> (r: Result<(u32, u16, usize), Error>)
        ensures
            match (r, span_of(self@.geometry, offset as int, length as int)) {
                (Ok((lba, count, skip)), Ok(span)) => lba == span.lba && count == span.count && skip
                    == span.skip,
                (Err(e), Err(why)) => e == why,
                _ => false,
            },
    {
        if length == 0 || length > MAX_RANGE_BYTES {
            return Err(Error::Protocol("range length must be 1 byte through 4 MiB"));
        }
        let size: u64 = self.size_bytes();
        if length as u64 > size || offset > size - length as u64 {
            return Err(Error::Protocol("range lies outside managed storage"));
        }
        let geometry = self.geometry();
        proof {
            lemma_supported(geometry);
            law_span_covers_the_range(geometry, offset as int, length as int);
        }
        let end: u64 = offset + length as u64;
        let block_size: u64 = geometry.block_size as u64;
        let first: u64 = offset / block_size;
        let last: u64 = if end % block_size == 0 {
            end / block_size
        } else {
            end / block_size + 1
        };
        assert(first <= last) by {
            vstd::arithmetic::div_mod::lemma_div_is_ordered(
                offset as int,
                end as int,
                block_size as int,
            );
        }
        if last - first > 0xffff {
            return Err(Error::Protocol("range exceeds READ/WRITE(10) block count"));
        }
        Ok((first as u32, (last - first) as u16, (offset % block_size) as usize))
    }

    /// Reads `length` bytes from `offset`.
    pub fn read_range(&mut self, offset: u64, length: usize) -> (step: RangeStep)
        ensures
            (final(self)@, step@) == old(self)@.read_range(offset as int, length as int),
    {
        match self.span(offset, length) {
            Ok((lba, count, skip)) => {
                let geometry = self.geometry();
                proof {
                    law_span_covers_the_range(geometry, offset as int, length as int);
                }
                let opened = self.scsi.read_blocks(lba, count, geometry.block_size);
                begin(opened, RangeAfterOf::Slice { skip, length })
            },
            Err(e) => RangeStep::Done(Err(e)),
        }
    }

    /// Writes `data` from `offset` on. Blocks that the range covers in part are
    /// read first, so that their other bytes are written back as they were. No
    /// flush is implied; the owner syncs and reopens.
    pub fn write_range(&mut self, offset: u64, data: &[u8]) -> (step: RangeStep)
        ensures
            (final(self)@, step@) == old(self)@.write_range(offset as int, data@),
    {
        if self.access != Access::ReadWrite {
            return RangeStep::Done(Err(Error::Protocol("managed storage was opened read-only")));
        }
        match self.span(offset, data.len()) {
            Ok((lba, count, skip)) => {
                let geometry = self.geometry();
                proof {
                    law_span_covers_the_range(geometry, offset as int, data@.len() as int);
                }
                let block_size: u32 = geometry.block_size;
                if skip == 0 && count as usize * block_size as usize == data.len() {
                    let opened = self.scsi.write_blocks(lba, count, block_size, data);
                    begin(opened, RangeAfterOf::Finish)
                } else {
                    let opened = self.scsi.read_blocks(lba, count, block_size);
                    begin(
                        opened,
                        RangeAfterOf::Patch { lba, count, skip, data: slice_to_vec(data) },
                    )
                }
            },
            Err(e) => RangeStep::Done(Err(e)),
        }
    }

    /// Asks the device to make everything durable.
    pub fn sync(&mut self) -> (step: RangeStep)
        ensures
            (final(self)@, step@) == old(self)@.sync(),
    {
        let opened = self.scsi.flush();
        begin(opened, RangeAfterOf::Finish)
    }

    /// Ejects the medium, which ends the session.
    pub fn eject(&mut self) -> (step: RangeStep)
        ensures
            (final(self)@, step@) == old(self)@.eject(),
    {
        let opened = self.scsi.eject();
        begin(opened, RangeAfterOf::Finish)
    }

    /// Takes the end of the outstanding transfer of a range operation.
    pub fn resume(&mut self, run: RangeRun, completion: Completion) -> (step: RangeStep)
        ensures
            (final(self)@, step@) == old(self)@.resume(run@, completion@),
    {
        proof {
            use_type_invariant(&run);
            use_type_invariant(&run.exchange);
        }
        let RangeRun { exchange, after } = run;
        let progress = self.scsi.resume(exchange, completion);
        match progress {
            Progress::More(exchange) => RangeStep::More(RangeRun { exchange, after }),
            Progress::Done(Err(e)) => RangeStep::Done(Err(e)),
            Progress::Done(Ok(r)) => match (after, r) {
                (RangeAfterOf::Slice { skip, length }, ResponseOf::Data(d)) => {
                    RangeStep::Done(
                        Ok(
                            ResponseOf::Data(
                                slice_to_vec(slice_subrange(d.as_slice(), skip, skip + length)),
                            ),
                        ),
                    )
                },
                (RangeAfterOf::Patch { lba, count, skip, data }, ResponseOf::Data(d)) => {
                    let sectors = spliced(&d, skip, &data);
                    let opened = self.scsi.write_blocks(
                        lba,
                        count,
                        self.medium.geometry.block_size,
                        sectors.as_slice(),
                    );
                    begin(opened, RangeAfterOf::Finish)
                },
                _ => RangeStep::Done(Ok(ResponseOf::Done)),
            },
        }
    }
}

/// A connection being made, as mathematics.
pub struct ConnectModel<T> {
    pub scsi: ScsiModel<T>,
    pub access: Access,
    pub stage: ConnectStageModel,
}

/// What a connection being made waits for.
pub enum ConnectStageModel {
    Ready(ReadyModel),
    Capacity(ExchangeModel),
}

/// What a completion makes of a connection.
pub enum ConnectStepModel<T> {
    More(ConnectModel<T>),
    Done(Result<RangeSessionModel<T>, Error>),
}

/// Asks a ready unit for its capacity.
pub open spec fn measuring<T>(scsi: ScsiModel<T>, access: Access) -> ConnectStepModel<T> {
    let (s, opened) = scsi.geometry();
    match opened {
        Ok(exchange) => ConnectStepModel::More(
            ConnectModel { scsi: s, access, stage: ConnectStageModel::Capacity(exchange) },
        ),
        Err(e) => ConnectStepModel::Done(Err(e)),
    }
}

/// Goes on with a readiness check, or past it.
pub open spec fn readying<T>(
    scsi: ScsiModel<T>,
    access: Access,
    step: ReadyStepModel,
) -> ConnectStepModel<T> {
    match step {
        ReadyStepModel::More(run) => ConnectStepModel::More(
            ConnectModel { scsi, access, stage: ConnectStageModel::Ready(run) },
        ),
        ReadyStepModel::Done(Ok(())) => measuring(scsi, access),
        ReadyStepModel::Done(Err(e)) => ConnectStepModel::Done(Err(e)),
    }
}

/// A session over a unit of this capacity, or why it is not served.
pub open spec fn connected<T>(scsi: ScsiModel<T>, geometry: Geometry, access: Access) -> Result<
    RangeSessionModel<T>,
    Error,
> {
    if geometry.blocks == 0 || geometry.blocks > u32::MAX || geometry.block_size > 65536 {
        Err(Error::Protocol("unsupported managed storage geometry"))
    } else {
        Ok(RangeSessionModel { scsi, geometry, access })
    }
}

/// Starts a connection over a SCSI session.
pub open spec fn connecting<T>(scsi: ScsiModel<T>, access: Access) -> ConnectStepModel<T> {
    let (s, step) = scsi.initialize_ready();
    readying(s, access, step)
}

impl<T> ConnectModel<T> {
    /// The transfer that the connection waits for.
    pub open spec fn transfer(self) -> exchange::TransferOf<Seq<u8>> {
        match self.stage {
            ConnectStageModel::Ready(run) => run.exchange.transfer(),
            ConnectStageModel::Capacity(x) => x.transfer(),
        }
    }

    /// Takes the end of the outstanding transfer of a connection.
    pub open spec fn resume(self, c: CompletionOf<Seq<u8>>) -> ConnectStepModel<T> {
        match self.stage {
            ConnectStageModel::Ready(run) => {
                let (s, step) = self.scsi.resume_ready(run, c);
                readying(s, self.access, step)
            },
            ConnectStageModel::Capacity(x) => {
                let (s, p) = self.scsi.resume(x, c);
                match p {
                    ProgressModel::More(y) => ConnectStepModel::More(
                        ConnectModel { scsi: s, stage: ConnectStageModel::Capacity(y), ..self },
                    ),
                    ProgressModel::Done { reply: Ok(ResponseOf::Capacity(g)), .. } => {
                        ConnectStepModel::Done(connected(s, g, self.access))
                    },
                    ProgressModel::Done { reply: Ok(_), .. } => ConnectStepModel::Done(
                        Err(Error::Protocol("unsupported capacity or sector size")),
                    ),
                    ProgressModel::Done { reply: Err(e), .. } => ConnectStepModel::Done(Err(e)),
                }
            },
        }
    }
}

/// What a connection being made waits for.
enum ConnectStage {
    Ready(ReadyRun),
    Capacity(Exchange),
}

/// A connection being made. It owns the session until it ends.
pub struct ConnectRun<T> {
    scsi: Scsi<T>,
    access: Access,
    stage: ConnectStage,
}

impl<T> View for ConnectRun<T> {
    type V = ConnectModel<T>;

    closed spec fn view(&self) -> ConnectModel<T> {
        ConnectModel {
            scsi: self.scsi@,
            access: self.access,
            stage: match self.stage {
                ConnectStage::Ready(run) => ConnectStageModel::Ready(run@),
                ConnectStage::Capacity(x) => ConnectStageModel::Capacity(x@),
            },
        }
    }
}

/// What a completion made of a connection.
pub enum ConnectStep<T> {
    More(ConnectRun<T>),
    Done(Result<RangeSession<T>, Error>),
}

impl<T> View for ConnectStep<T> {
    type V = ConnectStepModel<T>;

    open spec fn view(&self) -> ConnectStepModel<T> {
        match *self {
            ConnectStep::More(run) => ConnectStepModel::More(run@),
            ConnectStep::Done(Ok(s)) => ConnectStepModel::Done(Ok(s@)),
            ConnectStep::Done(Err(e)) => ConnectStepModel::Done(Err(e)),
        }
    }
}

impl<T> ConnectStep<T> {
    /// Whether a session that came of it is well formed.
    pub open spec fn wf(self) -> bool {
        self matches ConnectStep::Done(Ok(s)) ==> s@.wf()
    }
}

fn ready_or_measure<T>(scsi: Scsi<T>, access: Access, step: ReadyStep) -> (out: ConnectStep<T>)
    ensures
        out@ == readying(scsi@, access, step@),
        out.wf(),
{
    match step {
        ReadyStep::More(run) => ConnectStep::More(
            ConnectRun { scsi, access, stage: ConnectStage::Ready(run) },
        ),
        ReadyStep::Done(Ok(())) => {
            let mut scsi = scsi;
            match scsi.geometry() {
                Ok(x) => ConnectStep::More(
                    ConnectRun { scsi, access, stage: ConnectStage::Capacity(x) },
                ),
                Err(e) => ConnectStep::Done(Err(e)),
            }
        },
        ReadyStep::Done(Err(e)) => ConnectStep::Done(Err(e)),
    }
}

impl<T> RangeSession<T> {
    /// Starts a connection: the unit is brought to readiness, then measured. A
    /// medium beyond READ/WRITE(10) or with blocks over 64 KiB is refused.
    pub fn connect(scsi: Scsi<T>, access: Access) -> (step: ConnectStep<T>)
        ensures
            step@ == connecting(scsi@, access),
            step.wf(),
    {
        let mut scsi = scsi;
        let step = scsi.initialize_ready();
        ready_or_measure(scsi, access, step)
    }
}

impl<T> ConnectRun<T> {
    /// The bulk transfer that the caller is to perform next.
    pub fn transfer(&self) -> (t: Transfer)
        ensures
            t@ == self@.transfer(),
    {
        match &self.stage {
            ConnectStage::Ready(run) => run.transfer(),
            ConnectStage::Capacity(x) => x.transfer(),
        }
    }

    /// The transport, to perform a transfer on.
    pub fn io_mut(&mut self) -> (io: &mut T)
        ensures
            *io == old(self)@.scsi.io,
            final(self)@ == (ConnectModel {
                scsi: ScsiModel { io: *final(io), ..old(self)@.scsi },
                ..old(self)@
            }),
    {
        self.scsi.io_mut()
    }

    /// Takes the end of the outstanding transfer.
    pub fn resume(self, completion: Completion) -> (step: ConnectStep<T>)
        ensures
            step@ == self@.resume(completion@),
            step.wf(),
    {
        let ConnectRun { scsi, access, stage } = self;
        let mut scsi = scsi;
        match stage {
            ConnectStage::Ready(run) => {
                let step = scsi.resume_ready(run, completion);
                ready_or_measure(scsi, access, step)
            },
            ConnectStage::Capacity(x) => {
                let progress = scsi.resume(x, completion);
                match progress {
                    Progress::More(y) => ConnectStep::More(
                        ConnectRun { scsi, access, stage: ConnectStage::Capacity(y) },
                    ),
                    Progress::Done(Ok(ResponseOf::Capacity(geometry))) => {
                        if geometry.blocks == 0 || geometry.blocks > 0xffff_ffff
                            || geometry.block_size > 65536 {
                            ConnectStep::Done(
                                Err(Error::Protocol("unsupported managed storage geometry")),
                            )
                        } else {
                            let medium = Medium { geometry };
                            ConnectStep::Done(Ok(RangeSession { scsi, medium, access }))
                        }
                    },
                    Progress::Done(Ok(_)) => ConnectStep::Done(
                        Err(Error::Protocol("unsupported capacity or sector size")),
                    ),
                    Progress::Done(Err(e)) => ConnectStep::Done(Err(e)),
                }
            },
        }
    }
}

} // verus!
