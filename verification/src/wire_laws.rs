//! What each command says on the wire, what each answer means, and what a
//! connection and its byte ranges come to, in terms of the bytes that are moved.

use vstd::prelude::*;

use crate::bytes;
use crate::error::Error;
use crate::exchange::CompletionOf;
use crate::exchange::ExchangeModel;
use crate::exchange::Form;
use crate::exchange::Geometry;
use crate::exchange::ProgressModel;
use crate::exchange::ResponseOf;
use crate::exchange::Stage;
use crate::exchange::TransferOf;
use crate::exchange_laws;
use crate::exchange_laws::Completions;
use crate::range;
use crate::range::Access;
use crate::range::ConnectModel;
use crate::range::ConnectStageModel;
use crate::range::ConnectStepModel;
use crate::range::RangeAfterOf;
use crate::range::RangeModel;
use crate::range::RangeSessionModel;
use crate::range::RangeStepModel;
use crate::ready::Attempt;
use crate::ready::ReadyModel;
use crate::ready::ReadyStepModel;
use crate::scsi;
use crate::scsi::Opened;
use crate::scsi::ScsiModel;

verus! {

/// The number in four bytes, least significant first.
pub open spec fn number_le(w: Seq<u8>, at: int) -> int {
    w[at] + 256 * w[at + 1] + 65_536 * w[at + 2] + 16_777_216 * w[at + 3]
}

/// The number in four bytes, most significant first.
pub open spec fn number_be(w: Seq<u8>, at: int) -> int {
    16_777_216 * w[at] + 65_536 * w[at + 1] + 256 * w[at + 2] + w[at + 3]
}

/// Whether a number is two to some power.
pub open spec fn two_power(n: int) -> bool {
    exists|k: nat| n == #[trigger] vstd::arithmetic::power2::pow2(k)
}

/// Whether a command was opened: the session has nothing else in flight, the tag is
/// the next one, and the wrapper that goes out first is that of a command block of
/// `size` bytes that moves so many bytes in, or these bytes out.
pub open spec fn wraps<T>(
    s: ScsiModel<T>,
    opened: Opened<T>,
    size: int,
    incoming: int,
    outgoing: Seq<u8>,
    form: Form,
) -> bool {
    &&& opened.1 matches Ok(x)
    &&& opened.0 == (ScsiModel { tag: x.tag, usable: false, ..s })
    &&& x.tag == (s.tag + 1) % 0x1_0000_0000
    &&& x.cbw.len() == 31
    &&& x.cbw[0] == 0x55 && x.cbw[1] == 0x53 && x.cbw[2] == 0x42 && x.cbw[3] == 0x43
    &&& number_le(x.cbw, 4) == x.tag
    &&& number_le(x.cbw, 8) == incoming + outgoing.len()
    &&& x.cbw[12] == if incoming > 0 { 0x80u8 } else { 0u8 }
    &&& x.cbw[13] == s.lun
    &&& x.cbw[14] == size
    &&& forall|i: int| 15 + size <= i < 31 ==> #[trigger] x.cbw[i] == 0
    &&& x.transfer() == TransferOf::Write(x.cbw)
    &&& x.wf()
    &&& x.stage == Stage::Command
    &&& x.incoming == incoming
    &&& x.outgoing == outgoing
    &&& x.length == incoming + outgoing.len()
    &&& x.received.len() == 0
    &&& x.form == form
}

/// The wrapper of a command that was opened.
pub open spec fn wrapper<T>(opened: Opened<T>) -> Seq<u8> {
    opened.1->Ok_0.cbw
}

proof fn lemma_opened<T>(
    s: ScsiModel<T>,
    cdb: Seq<u8>,
    incoming: int,
    outgoing: Seq<u8>,
    form: Form,
)
    requires
        s.usable,
        0 < cdb.len() <= 16,
        0 <= incoming <= u32::MAX,
        outgoing.len() <= u32::MAX,
        incoming == 0 || outgoing.len() == 0,
        form == Form::Capacity ==> incoming == 8,
    ensures
        wraps(s, s.open(cdb, incoming, outgoing, form), cdb.len() as int, incoming, outgoing, form),
        forall|i: int|
            0 <= i < cdb.len() ==> wrapper(s.open(cdb, incoming, outgoing, form))[15 + i]
                == #[trigger] cdb[i],
{
    exchange_laws::law_open_exchange_holds_the_session(s, cdb, incoming, outgoing, form);
    let x = s.open(cdb, incoming, outgoing, form).1->Ok_0;
    exchange_laws::law_wrapper_layout(
        x.tag,
        (incoming + outgoing.len()) as u32,
        incoming > 0,
        s.lun,
        cdb,
    );
    assert(x.cbw.take(4)[0] == 0x55 && x.cbw.take(4)[1] == 0x53 && x.cbw.take(4)[2] == 0x42
        && x.cbw.take(4)[3] == 0x43);
    assert forall|i: int| 0 <= i < cdb.len() implies x.cbw[15 + i] == #[trigger] cdb[i] by {
        assert(x.cbw.subrange(15, 15 + cdb.len() as int)[i] == x.cbw[15 + i]);
    }
}

/// A session that is not busy opens every command whose block has 1 to 16 bytes and
/// that moves data one way at most, and at most 2 to the 32 minus 1 bytes of it; the
/// command block goes out in the wrapper as it is. Any other is refused, and leaves
/// the session as it was.
pub proof fn law_commands_go_out_as_they_are<T>(
    s: ScsiModel<T>,
    cdb: Seq<u8>,
    incoming: int,
    outgoing: Seq<u8>,
    form: Form,
)
    requires
        s.usable,
        0 <= incoming,
        form == Form::Capacity ==> incoming == 8,
    ensures
        ({
            let fits = 1 <= cdb.len() <= 16 && (incoming == 0 || outgoing.len() == 0) && incoming
                <= 0xffff_ffff && outgoing.len() <= 0xffff_ffff;
            let opened = s.open(cdb, incoming, outgoing, form);
            &&& fits ==> wraps(s, opened, cdb.len() as int, incoming, outgoing, form)
            &&& fits ==> wrapper(opened).subrange(15, 15 + cdb.len() as int) == cdb
            &&& !fits ==> opened.0 == s && opened.1 is Err
        }),
{
    if 1 <= cdb.len() <= 16 && (incoming == 0 || outgoing.len() == 0) && incoming <= 0xffff_ffff
        && outgoing.len() <= 0xffff_ffff {
        lemma_opened(s, cdb, incoming, outgoing, form);
        let w = wrapper(s.open(cdb, incoming, outgoing, form));
        assert(w.subrange(15, 15 + cdb.len() as int) =~= cdb);
    }
}

/// A sync is SYNCHRONIZE CACHE(10) of the whole medium, and of all that was written
/// to it before: from block 0, with no count, and not answered before it is done.
pub proof fn law_syncs_cover_the_medium<T>(s: ScsiModel<T>)
    requires
        s.usable,
    ensures
        wraps(s, s.flush(), 10, 0, seq![], Form::Status),
        ({
            let w = wrapper(s.flush());
            &&& w[15] == 0x35
            &&& w[16] == 0
            &&& number_be(w, 17) == 0
            &&& w[21] == 0
            &&& 256 * w[22] + w[23] == 0
            &&& w[24] == 0
        }),
{
    let cdb = seq![0x35u8, 0, 0, 0, 0, 0, 0, 0, 0, 0];
    lemma_opened(s, cdb, 0, seq![], Form::Status);
    let w = wrapper(s.flush());
    assert forall|i: int| 0 <= i < 10 implies w[15 + i] == #[trigger] cdb[i] by {}
    assert(w[15] == cdb[0] && w[16] == cdb[1] && w[17] == cdb[2] && w[18] == cdb[3] && w[19]
        == cdb[4] && w[20] == cdb[5] && w[21] == cdb[6] && w[22] == cdb[7] && w[23] == cdb[8]
        && w[24] == cdb[9]);
}

/// An eject is START STOP UNIT, answered when it is done, that stops the unit and
/// takes the medium out.
pub proof fn law_ejects_take_the_medium_out<T>(s: ScsiModel<T>)
    requires
        s.usable,
    ensures
        wraps(s, s.eject(), 6, 0, seq![], Form::Eject),
        ({
            let w = wrapper(s.eject());
            &&& w[15] == 0x1b
            &&& w[16] == 0 && w[17] == 0 && w[18] == 0
            &&& w[19] == 2
            &&& w[20] == 0
        }),
{
    let cdb = seq![0x1bu8, 0, 0, 0, 2, 0];
    lemma_opened(s, cdb, 0, seq![], Form::Eject);
    let w = wrapper(s.eject());
    assert(w[15] == cdb[0] && w[16] == cdb[1] && w[17] == cdb[2] && w[18] == cdb[3] && w[19]
        == cdb[4] && w[20] == cdb[5]);
}

/// The questions to a unit: TEST UNIT READY, INQUIRY for the 36 standard bytes,
/// REQUEST SENSE for 18 bytes in the fixed format, and READ CAPACITY(10) of the
/// whole medium for its 8 bytes.
pub proof fn law_questions_name_themselves<T>(s: ScsiModel<T>)
    requires
        s.usable,
    ensures
        wraps(s, s.test_unit_ready(), 6, 0, seq![], Form::Status),
        forall|i: int| 15 <= i < 21 ==> #[trigger] wrapper(s.test_unit_ready())[i] == 0,
        wraps(s, s.inquiry(), 6, 36, seq![], Form::Data),
        ({
            let w = wrapper(s.inquiry());
            &&& w[15] == 0x12
            &&& w[16] == 0 && w[17] == 0
            &&& 256 * w[18] + w[19] == 36
            &&& w[20] == 0
        }),
        wraps(s, s.request_sense(), 6, 18, seq![], Form::Data),
        ({
            let w = wrapper(s.request_sense());
            &&& w[15] == 0x03
            &&& w[16] == 0 && w[17] == 0 && w[18] == 0
            &&& w[19] == 18
            &&& w[20] == 0
        }),
        wraps(s, s.geometry(), 10, 8, seq![], Form::Capacity),
        ({
            let w = wrapper(s.geometry());
            w[15] == 0x25 && forall|i: int| 16 <= i < 25 ==> #[trigger] w[i] == 0
        }),
{
    let ready = seq![0u8, 0, 0, 0, 0, 0];
    lemma_opened(s, ready, 0, seq![], Form::Status);
    let w = wrapper(s.test_unit_ready());
    assert forall|i: int| 15 <= i < 21 implies #[trigger] w[i] == 0 by {
        assert(w[15 + (i - 15)] == ready[i - 15]);
    }
    let inquiry = seq![0x12u8, 0, 0, 0, 36, 0];
    lemma_opened(s, inquiry, 36, seq![], Form::Data);
    let w = wrapper(s.inquiry());
    assert(w[15] == inquiry[0] && w[16] == inquiry[1] && w[17] == inquiry[2] && w[18] == inquiry[3]
        && w[19] == inquiry[4] && w[20] == inquiry[5]);
    let sense = seq![3u8, 0, 0, 0, 18, 0];
    lemma_opened(s, sense, 18, seq![], Form::Data);
    let w = wrapper(s.request_sense());
    assert(w[15] == sense[0] && w[16] == sense[1] && w[17] == sense[2] && w[18] == sense[3]
        && w[19] == sense[4] && w[20] == sense[5]);
    let capacity = seq![0x25u8, 0, 0, 0, 0, 0, 0, 0, 0, 0];
    lemma_opened(s, capacity, 8, seq![], Form::Capacity);
    let w = wrapper(s.geometry());
    assert(w[15] == capacity[0]);
    assert forall|i: int| 16 <= i < 25 implies #[trigger] w[i] == 0 by {
        assert(w[15 + (i - 15)] == capacity[i - 15]);
    }
}

/// Whether a READ(10) or WRITE(10) may name these blocks.
pub open spec fn nameable(lba: u32, count: u16, block_size: u32) -> bool {
    &&& 0 < count
    &&& two_power(block_size as int)
    &&& lba + count <= 0x1_0000_0000
    &&& count * block_size <= 0xffff_ffff
}

/// Whether a wrapper holds a READ(10) or WRITE(10), plain and not forced past any
/// cache, of these blocks.
pub open spec fn names_blocks(w: Seq<u8>, op: u8, lba: int, count: int) -> bool {
    &&& w[15] == op
    &&& w[16] == 0
    &&& number_be(w, 17) == lba
    &&& w[21] == 0
    &&& 256 * w[22] + w[23] == count
    &&& w[24] == 0
}

/// READ(10) and WRITE(10) name their first block and how many, and move exactly
/// those, where there is at least one and all have a number; anything else is
/// refused and leaves the session as it was.
pub proof fn law_block_commands_move_their_blocks<T>(
    s: ScsiModel<T>,
    lba: u32,
    count: u16,
    block_size: u32,
    data: Seq<u8>,
)
    requires
        s.usable,
    ensures
        nameable(lba, count, block_size) ==> wraps(
            s,
            s.read_blocks(lba, count, block_size),
            10,
            count * block_size,
            seq![],
            Form::Data,
        ) && names_blocks(
            wrapper(s.read_blocks(lba, count, block_size)),
            0x28,
            lba as int,
            count as int,
        ),
        nameable(lba, count, block_size) && data.len() == count * block_size ==> wraps(
            s,
            s.write_blocks(lba, count, block_size, data),
            10,
            0,
            data,
            Form::Status,
        ) && names_blocks(
            wrapper(s.write_blocks(lba, count, block_size, data)),
            0x2a,
            lba as int,
            count as int,
        ),
        !nameable(lba, count, block_size) ==> s.read_blocks(lba, count, block_size).0 == s
            && s.read_blocks(lba, count, block_size).1 is Err,
        !nameable(lba, count, block_size) || data.len() != count * block_size ==> s.write_blocks(
            lba,
            count,
            block_size,
            data,
        ).0 == s && s.write_blocks(lba, count, block_size, data).1 is Err,
{
    assert(two_power(block_size as int) == bytes::is_two_power(block_size as int));
    assert(0 <= count * block_size) by (nonlinear_arith);
    if nameable(lba, count, block_size) {
        let read = scsi::block_range(0x28, lba, count, block_size)->Ok_0.0;
        lemma_opened(s, read, count * block_size, seq![], Form::Data);
        let w = wrapper(s.read_blocks(lba, count, block_size));
        let k = choose|k: nat| block_size == #[trigger] vstd::arithmetic::power2::pow2(k);
        vstd::arithmetic::power2::lemma_pow2_pos(k);
        assert(count * block_size > 0) by (nonlinear_arith)
            requires
                0 < count,
                0 < block_size,
        ;
        lemma_block_fields(w, read, 0x28, lba, count);
        if data.len() == count * block_size {
            let write = scsi::block_range(0x2a, lba, count, block_size)->Ok_0.0;
            lemma_opened(s, write, 0, data, Form::Status);
            let w = wrapper(s.write_blocks(lba, count, block_size, data));
            lemma_block_fields(w, write, 0x2a, lba, count);
        }
    }
}

proof fn lemma_block_fields(w: Seq<u8>, cdb: Seq<u8>, op: u8, lba: u32, count: u16)
    requires
        w.len() == 31,
        cdb == seq![op, 0u8] + bytes::be32(lba) + seq![0u8] + bytes::be16(count) + seq![0u8],
        forall|i: int| 0 <= i < cdb.len() ==> w[15 + i] == #[trigger] cdb[i],
    ensures
        names_blocks(w, op, lba as int, count as int),
{
    bytes::law_fixed_width_round_trip(lba);
    assert(w[15] == cdb[0] && w[16] == cdb[1] && w[17] == cdb[2] && w[18] == cdb[3] && w[19]
        == cdb[4] && w[20] == cdb[5] && w[21] == cdb[6] && w[22] == cdb[7] && w[23] == cdb[8]
        && w[24] == cdb[9]);
}

/// A session is opened with every unit that the protocol and the device have, and
/// with no other; it starts out usable.
pub proof fn law_units_are_those_of_the_device<T>(io: T, lun: u8, max_lun: u8)
    ensures
        scsi::selected(io, lun, max_lun) is Ok <==> lun <= 15 && lun <= max_lun,
        scsi::selected(io, lun, max_lun) matches Ok(s) ==> s.io == io && s.lun == lun && s.usable,
{
}

/// Whether a status wrapper reports this exchange as good and complete.
pub open spec fn good_status(csw: Seq<u8>, tag: u32) -> bool {
    framed_status(csw, tag) && number_le(csw, 8) == 0 && csw[12] == 0
}

/// Whether a status wrapper is one for this exchange.
pub open spec fn framed_status(csw: Seq<u8>, tag: u32) -> bool {
    &&& csw.len() == 13
    &&& csw[0] == 0x55 && csw[1] == 0x53 && csw[2] == 0x42 && csw[3] == 0x53
    &&& number_le(csw, 4) == tag
}

/// The four digits of a number to the base 256.
proof fn lemma_digits(a: u8, b: u8, c: u8, d: u8, x: u32)
    requires
        x == a + 256 * b + 65_536 * c + 16_777_216 * d,
    ensures
        x % 256 == a,
        x / 0x100 % 256 == b,
        x / 0x1_0000 % 256 == c,
        x / 0x100_0000 == d,
{
    assert(x / 0x100 == b + 256 * c + 65_536 * d);
    assert(x / 0x1_0000 == c + 256 * d);
}

proof fn lemma_framed(csw: Seq<u8>, tag: u32)
    ensures
        crate::exchange::status_frames(csw, tag) <==> framed_status(csw, tag),
        csw.len() == 13 ==> bytes::from_le32(csw, 8) == number_le(csw, 8),
{
    if csw.len() == 13 {
        let t = csw.subrange(4, 8);
        let g = csw.subrange(0, 4);
        let f = bytes::le32(tag);
        assert(t[0] == csw[4] && t[1] == csw[5] && t[2] == csw[6] && t[3] == csw[7]);
        assert(g[0] == csw[0] && g[1] == csw[1] && g[2] == csw[2] && g[3] == csw[3]);
        if framed_status(csw, tag) {
            lemma_digits(csw[4], csw[5], csw[6], csw[7], tag);
            assert(t =~= f);
            assert(g =~= seq![0x55u8, 0x53, 0x42, 0x53]);
        }
        if crate::exchange::status_frames(csw, tag) {
            assert(t == f);
            lemma_bytes(tag);
            assert(number_le(csw, 4) == number_le(f, 0));
        }
    }
}

/// A number is what its four bytes say.
proof fn lemma_bytes(x: u32)
    ensures
        number_le(bytes::le32(x), 0) == x,
{
    bytes::law_fixed_width_round_trip(x);
    assert(number_le(bytes::le32(x), 0) == bytes::from_le32(bytes::le32(x), 0));
}

/// What the data of a good command says.
pub open spec fn means(form: Form, d: Seq<u8>, reply: Result<ResponseOf<Seq<u8>>, Error>) -> bool {
    match form {
        Form::Status => reply == Ok::<ResponseOf<Seq<u8>>, Error>(ResponseOf::Done),
        Form::Eject => reply == Ok::<ResponseOf<Seq<u8>>, Error>(ResponseOf::Done),
        Form::Data => reply == Ok::<ResponseOf<Seq<u8>>, Error>(ResponseOf::Data(d)),
        Form::Capacity => if number_be(d, 0) < 0xffff_ffff && two_power(number_be(d, 4)) {
            &&& reply matches Ok(ResponseOf::Capacity(g))
            &&& g.blocks == number_be(d, 0) + 1
            &&& g.block_size == number_be(d, 4)
        } else {
            reply is Err
        },
    }
}

/// A command whose wrapper went out whole goes on to its data, if it has any, and
/// to its status otherwise; one whose wrapper did not is over, and the session too.
pub proof fn law_the_wrapper_opens_the_exchange(x: ExchangeModel, c: CompletionOf<Seq<u8>>)
    requires
        x.wf(),
        x.stage == Stage::Command,
    ensures
        x.transfer() == TransferOf::Write(x.cbw),
        c == CompletionOf::<Seq<u8>>::Written(Ok(31)) ==> x.absorb(c) == ProgressModel::More(
            ExchangeModel {
                stage: if x.incoming > 0 || x.outgoing.len() > 0 {
                    Stage::Data
                } else {
                    Stage::Status
                },
                ..x
            },
        ),
        c != CompletionOf::<Seq<u8>>::Written(Ok(31)) ==> lost(x.absorb(c)),
{
}

/// A transfer that failed ends the exchange and the session, and its failure is what
/// is reported.
pub proof fn law_failed_transfers_are_reported(x: ExchangeModel, e: Error)
    requires
        x.wf(),
    ensures
        x.transfer() is Write ==> x.absorb(CompletionOf::Written(Err(e))) == (ProgressModel::Done {
            reply: Err(e),
            usable: false,
        }),
        x.transfer() is Read ==> x.absorb(CompletionOf::Received(Err(e))) == (ProgressModel::Done {
            reply: Err(e),
            usable: false,
        }),
{
}

/// Whether an exchange is over, and nothing is known of it.
pub open spec fn lost(p: ProgressModel) -> bool {
    p matches ProgressModel::Done { reply, usable } && reply is Err && !usable
}

/// Data comes in as it is sent, in pieces of at most 1 MiB that are asked for until
/// all is there; an empty piece, or one too many, ends the exchange and the session.
pub proof fn law_data_comes_in_whole(x: ExchangeModel, c: CompletionOf<Seq<u8>>)
    requires
        x.wf(),
        x.stage == Stage::Data,
        x.incoming > 0,
    ensures
        ({
            let missing = x.incoming - x.received.len();
            &&& x.transfer() matches TransferOf::Read(n)
            &&& n == if missing <= 0x10_0000 {
                missing
            } else {
                0x10_0000
            }
            &&& match c {
                CompletionOf::Received(Ok(b)) => if 0 < b.len() <= missing {
                    x.absorb(c) == ProgressModel::More(
                        ExchangeModel {
                            received: x.received + b,
                            stage: if b.len() == missing {
                                Stage::Status
                            } else {
                                Stage::Data
                            },
                            ..x
                        },
                    )
                } else {
                    lost(x.absorb(c))
                },
                _ => lost(x.absorb(c)),
            }
        }),
{
}

/// Data goes out once and in order, in pieces of at most 1 MiB; a piece that does
/// not go out whole ends the exchange and the session.
pub proof fn law_data_goes_out_whole(x: ExchangeModel, c: CompletionOf<Seq<u8>>)
    requires
        x.wf(),
        x.stage == Stage::Data,
        x.incoming == 0,
    ensures
        ({
            let left = x.outgoing.len() - x.sent;
            let n = if left <= 0x10_0000 {
                left
            } else {
                0x10_0000
            };
            &&& x.transfer() == TransferOf::Write(x.outgoing.subrange(x.sent, x.sent + n))
            &&& if c matches CompletionOf::Written(Ok(m)) && m == n {
                x.absorb(c) == ProgressModel::More(
                    ExchangeModel {
                        sent: x.sent + n,
                        stage: if n == left {
                            Stage::Status
                        } else {
                            Stage::Data
                        },
                        ..x
                    },
                )
            } else {
                lost(x.absorb(c))
            }
        }),
{
}

/// The status decides: a good and complete one gives what the data says, and the
/// session lives on, unless the medium was ejected; one that reports a failure gives
/// that, and the session lives on; anything else ends both.
pub proof fn law_the_status_decides(x: ExchangeModel, c: CompletionOf<Seq<u8>>)
    requires
        x.wf(),
        x.stage == Stage::Status,
    ensures
        x.transfer() == TransferOf::<Seq<u8>>::Read(13),
        match c {
            CompletionOf::Received(Ok(csw)) => if good_status(csw, x.tag) {
                x.absorb(c) matches ProgressModel::Done { reply, usable } && usable == (x.form
                    != Form::Eject) && means(x.form, x.received, reply)
            } else if framed_status(csw, x.tag) && number_le(csw, 8) <= x.length && csw[12] == 1 {
                x.absorb(c) == (ProgressModel::Done {
                    reply: Err(Error::CommandFailed),
                    usable: true,
                })
            } else {
                lost(x.absorb(c))
            },
            _ => lost(x.absorb(c)),
        },
{
    if let CompletionOf::Received(Ok(csw)) = c {
        lemma_framed(csw, x.tag);
        let d = x.received;
        if x.form == Form::Capacity {
            assert(two_power(number_be(d, 4)) == bytes::is_two_power(number_be(d, 4)));
        }
    }
}

/// A session takes the end of a transfer of its own exchange, and nothing else: it
/// then stands as the exchange does.
pub proof fn law_sessions_follow_their_exchange<T>(
    s: ScsiModel<T>,
    x: ExchangeModel,
    c: CompletionOf<Seq<u8>>,
)
    ensures
        !s.usable && x.tag == s.tag ==> s.resume(x, c).1 == x.absorb(c) && s.resume(x, c).0 == (
        ScsiModel {
            usable: x.absorb(c) matches ProgressModel::Done { usable, .. } && usable,
            ..s
        }),
        s.usable || x.tag != s.tag ==> s.resume(x, c).0 == s && (s.resume(x, c).1
            matches ProgressModel::Done { reply, .. } && reply is Err),
{
}

/// Whether sense data reports, as a current condition in the fixed format, a unit
/// attention for a reset or for a change of medium.
pub open spec fn attention(sense: Seq<u8>) -> bool {
    &&& sense.len() >= 13
    &&& sense[0] & 0x7f == 0x70
    &&& sense[2] & 0x0f == 6
    &&& sense[12] == 0x28 || sense[12] == 0x29
}

proof fn lemma_attention(sense: Seq<u8>)
    ensures
        attention(sense) == crate::ready::consumable_sense(sense),
{
    if sense.len() >= 13 {
        let a = sense[0];
        let b = sense[2];
        assert(a & 0x7f == a % 128) by (bit_vector);
        assert(b & 0x0f == b % 16) by (bit_vector);
    }
}

/// A unit is ready once it says so: at once, or on being asked again after one
/// attention for a reset or a change of medium. Any other failure is reported.
pub proof fn law_readiness_is_the_answer_of_the_unit<T>(
    s: ScsiModel<T>,
    run: ReadyModel,
    c: CompletionOf<Seq<u8>>,
)
    ensures
        s.usable ==> s.initialize_ready().0 == s.test_unit_ready().0 && s.initialize_ready().1
            == ReadyStepModel::More(
            ReadyModel { attempt: Attempt::Probe, exchange: s.test_unit_ready().1->Ok_0 },
        ),
        !s.usable && run.exchange.tag == s.tag ==> {
            let (t, step) = s.resume_ready(run, c);
            let idle = ScsiModel { usable: true, ..s };
            match run.exchange.absorb(c) {
                ProgressModel::More(x) => t == s && step == ReadyStepModel::More(
                    ReadyModel { exchange: x, ..run },
                ),
                ProgressModel::Done { reply, usable } => match (run.attempt, reply) {
                    (Attempt::Probe, Ok(_)) => step == ReadyStepModel::Done(Ok(())),
                    (Attempt::Retry, Ok(_)) => step == ReadyStepModel::Done(Ok(())),
                    (Attempt::Probe, Err(Error::CommandFailed)) => usable ==> t
                        == idle.request_sense().0 && step == ReadyStepModel::More(
                        ReadyModel {
                            attempt: Attempt::Sense,
                            exchange: idle.request_sense().1->Ok_0,
                        },
                    ),
                    (Attempt::Sense, Ok(ResponseOf::Data(sense))) => if attention(sense) {
                        usable ==> t == idle.test_unit_ready().0 && step == ReadyStepModel::More(
                            ReadyModel {
                                attempt: Attempt::Retry,
                                exchange: idle.test_unit_ready().1->Ok_0,
                            },
                        )
                    } else {
                        step == ReadyStepModel::Done(Err(Error::CommandFailed))
                    },
                    (Attempt::Sense, Ok(_)) => step is Done && step->Done_0 is Err,
                    (_, Err(e)) => step == ReadyStepModel::Done(Err(e)),
                },
            }
        },
{
    if s.usable {
        law_questions_name_themselves(s);
    }
    law_questions_name_themselves(ScsiModel { usable: true, ..s });
    if let ProgressModel::Done { reply: Ok(ResponseOf::Data(sense)), .. } = run.exchange.absorb(c) {
        lemma_attention(sense);
    }
}

/// Where a connection stands after these completions.
pub open spec fn connect_progress<T>(
    s: ScsiModel<T>,
    access: Access,
    cs: Completions,
) -> ConnectStepModel<T>
    decreases cs.len(),
{
    if cs.len() == 0 {
        range::connecting(s, access)
    } else {
        match connect_progress(s, access, cs.drop_last()) {
            ConnectStepModel::More(m) => m.resume(cs.last()),
            ConnectStepModel::Done(r) => ConnectStepModel::Done(r),
        }
    }
}

/// The transfer that a connection asks for after so many completions.
pub open spec fn asked<T>(s: ScsiModel<T>, access: Access, cs: Completions, i: int) -> Option<
    TransferOf<Seq<u8>>,
> {
    match connect_progress(s, access, cs.take(i)) {
        ConnectStepModel::More(m) => Some(m.transfer()),
        ConnectStepModel::Done(_) => None,
    }
}

/// What came in with the completions from one to before another.
pub open spec fn came_in(cs: Completions, from: int, to: int) -> Seq<u8>
    decreases to - from,
{
    if from >= to {
        seq![]
    } else {
        came_in(cs, from, to - 1) + match cs[to - 1] {
            CompletionOf::Received(Ok(b)) => b,
            _ => seq![],
        }
    }
}

proof fn lemma_came_in(a: Completions, b: Completions, from: int, to: int)
    requires
        to <= a.len(),
        to <= b.len(),
        forall|i: int| 0 <= i < to ==> a[i] == b[i],
        0 <= from,
    ensures
        came_in(a, from, to) == came_in(b, from, to),
    decreases to - from,
{
    if from < to {
        lemma_came_in(a, b, from, to - 1);
    }
}

/// Whether a connection that measures its unit has asked for the capacity with the
/// transfer of completion `k`, and has since received what it holds.
spec fn measures<T>(
    s: ScsiModel<T>,
    access: Access,
    cs: Completions,
    m: ConnectModel<T>,
    k: int,
) -> bool {
    &&& m.access == access
    &&& m.scsi.lun == s.lun
    &&& m.scsi.io == s.io
    &&& m.stage matches ConnectStageModel::Capacity(x) ==> {
        &&& x.wf()
        &&& !m.scsi.usable && x.tag == m.scsi.tag
        &&& x.form == Form::Capacity
        &&& x.incoming == 8
        &&& x.outgoing.len() == 0
        &&& x.cbw.len() == 31
        &&& x.cbw[15] == 0x25
        &&& number_le(x.cbw, 4) == x.tag
        &&& 0 <= k <= cs.len()
        &&& x.stage == Stage::Command <==> k == cs.len()
        &&& x.received == came_in(cs, k + 1, cs.len() as int)
        &&& k < cs.len() ==> asked(s, access, cs, k) == Some(TransferOf::Write(x.cbw))
    }
}

proof fn lemma_measures<T>(s: ScsiModel<T>, access: Access, cs: Completions) -> (k: int)
    ensures
        connect_progress(s, access, cs) matches ConnectStepModel::More(m) ==> measures(
            s,
            access,
            cs,
            m,
            k,
        ),
    decreases cs.len(),
{
    if cs.len() == 0 {
        0
    } else {
        let before = cs.drop_last();
        let j = lemma_measures(s, access, before);
        let n = before.len() as int;
        match (connect_progress(s, access, before), connect_progress(s, access, cs)) {
            (ConnectStepModel::More(m), ConnectStepModel::More(next)) => {
                match m.stage {
                    ConnectStageModel::Ready(run) => {
                        if next.stage is Capacity {
                            let t = m.scsi.resume_ready(run, cs.last()).0;
                            law_questions_name_themselves(ScsiModel { usable: true, ..t });
                            assert(t.usable);
                            assert(came_in(cs, n + 2, n + 1) =~= seq![]);
                        }
                        n + 1
                    },
                    ConnectStageModel::Capacity(x) => {
                        lemma_the_wrapper_or_data(x, cs.last());
                        lemma_came_in(before, cs, j + 1, n);
                        assert(cs.take(n) =~= before);
                        if j < n {
                            assert(cs.take(j) =~= before.take(j));
                        }
                        if x.stage == Stage::Command {
                            assert(came_in(cs, j + 1, n + 1) =~= seq![]);
                        }
                        j
                    },
                }
            },
            _ => 0,
        }
    }
}

/// What the next completion makes of a command that reads 8 bytes, where it goes on.
proof fn lemma_the_wrapper_or_data(x: ExchangeModel, c: CompletionOf<Seq<u8>>)
    requires
        x.wf(),
        x.incoming == 8,
    ensures
        x.absorb(c) matches ProgressModel::More(y) ==> y.wf() && y == (ExchangeModel {
            received: y.received,
            stage: y.stage,
            ..x
        }) && y.stage != Stage::Command && y.received == x.received + (if x.stage
            == Stage::Command {
            seq![]
        } else {
            c->Received_0->Ok_0
        }) && (x.stage != Stage::Command ==> c matches CompletionOf::Received(Ok(_))),
{
    match x.stage {
        Stage::Command => {
            law_the_wrapper_opens_the_exchange(x, c);
            assert(x.received + seq![] =~= x.received);
        },
        Stage::Data => law_data_comes_in_whole(x, c),
        Stage::Status => law_the_status_decides(x, c),
    }
    exchange_laws::law_exchange_advances(x, c);
}

/// A connection that ends in a session asked the unit for its capacity with READ
/// CAPACITY(10), had 8 bytes for an answer and a good status behind them, and the
/// session has the medium that they state: as many blocks as the number of the last
/// one and one more, of the size in the second half. It is for what was asked for,
/// with the unit and over the transport that it began with.
pub proof fn law_sessions_have_the_reported_medium<T>(
    s: ScsiModel<T>,
    access: Access,
    cs: Completions,
) -> (k: int)
    requires
        0 < cs.len(),
        connect_progress(s, access, cs.drop_last()) is More,
        connect_progress(s, access, cs) matches ConnectStepModel::Done(Ok(_)),
    ensures
        0 <= k < cs.len() - 1,
        asked(s, access, cs, k) matches Some(TransferOf::Write(w)) && w.len() == 31 && w[15] == 0x25
            && (cs.last() matches CompletionOf::Received(Ok(csw)) && good_status(
            csw,
            number_le(w, 4) as u32,
        )),
        ({
            let d = came_in(cs, k + 1, cs.len() - 1);
            let session = connect_progress(s, access, cs)->Done_0->Ok_0;
            &&& d.len() == 8
            &&& session.geometry.blocks == number_be(d, 0) + 1
            &&& session.geometry.block_size == number_be(d, 4)
            &&& served(session.geometry)
            &&& session.access == access
            &&& session.scsi.usable
            &&& session.scsi.lun == s.lun
            &&& session.scsi.io == s.io
        }),
{
    let before = cs.drop_last();
    let k = lemma_measures(s, access, before);
    let m = connect_progress(s, access, before)->More_0;
    assert(connect_progress(s, access, cs) == m.resume(cs.last()));
    lemma_the_end_of_a_connection(m, cs.last());
    let x = m.stage->Capacity_0;
    lemma_came_in(before, cs, k + 1, cs.len() - 1);
    assert(cs.take(k) =~= before.take(k));
    k
}

/// A connection that ends in a session ends with the good status of its capacity
/// command.
proof fn lemma_the_end_of_a_connection<T>(m: ConnectModel<T>, c: CompletionOf<Seq<u8>>)
    requires
        m.resume(c) matches ConnectStepModel::Done(Ok(_)),
        m.stage matches ConnectStageModel::Capacity(x) ==> x.wf() && !m.scsi.usable && x.tag
            == m.scsi.tag && x.form == Form::Capacity && x.incoming == 8,
    ensures
        ({
            let session = m.resume(c)->Done_0->Ok_0;
            &&& m.stage matches ConnectStageModel::Capacity(x)
            &&& x.stage == Stage::Status
            &&& c matches CompletionOf::Received(Ok(csw))
            &&& good_status(csw, x.tag)
            &&& session.geometry.blocks == number_be(x.received, 0) + 1
            &&& session.geometry.block_size == number_be(x.received, 4)
            &&& served(session.geometry)
            &&& session.access == m.access
            &&& session.scsi == (ScsiModel { usable: true, ..m.scsi })
        }),
{
    law_connections_follow_their_unit(m, c);
    if let ConnectStageModel::Capacity(x) = m.stage {
        match x.stage {
            Stage::Command => law_the_wrapper_opens_the_exchange(x, c),
            Stage::Data => law_data_comes_in_whole(x, c),
            Stage::Status => law_the_status_decides(x, c),
        }
    }
}

/// The session once a command with the next tag went well.
spec fn after_one<T>(s: ScsiModel<T>) -> ScsiModel<T> {
    ScsiModel { tag: ((s.tag + 1) % 0x1_0000_0000) as u32, usable: true, ..s }
}

/// The two questions that a connection to a ready unit asks.
proof fn lemma_two_questions<T>(s: ScsiModel<T>)
    requires
        s.usable,
    ensures
        wraps(s, s.test_unit_ready(), 6, 0, seq![], Form::Status),
        wraps(s, s.geometry(), 10, 8, seq![], Form::Capacity),
{
    law_questions_name_themselves(s);
}

/// A unit that says at once that it is ready is asked for its capacity.
#[verifier::rlimit(40)]
proof fn lemma_ready_at_once<T>(s: ScsiModel<T>, access: Access, ready: Seq<u8>)
    requires
        s.usable,
        good_status(ready, ((s.tag + 1) % 0x1_0000_0000) as u32),
    ensures
        connect_progress(
            s,
            access,
            seq![CompletionOf::Written(Ok(31)), CompletionOf::Received(Ok(ready))],
        ) == range::measuring(after_one(s), access),
{
    let out = CompletionOf::<Seq<u8>>::Written(Ok(31));
    let answer = CompletionOf::<Seq<u8>>::Received(Ok(ready));
    let c0 = Seq::<CompletionOf<Seq<u8>>>::empty();
    let c1 = c0.push(out);
    let c2 = c1.push(answer);
    assert(c2 =~= seq![out, answer]);
    assert(c2.drop_last() =~= c1);
    assert(c1.drop_last() =~= c0);
    lemma_two_questions(s);
    let tur = s.test_unit_ready().1->Ok_0;
    let s0 = s.test_unit_ready().0;
    law_the_wrapper_opens_the_exchange(tur, out);
    let tur1 = tur.absorb(out)->More_0;
    law_sessions_follow_their_exchange(s0, tur, out);
    assert(connect_progress(s, access, c0) == range::connecting(s, access));
    assert(connect_progress(s, access, c1) == ConnectStepModel::More(
        ConnectModel {
            scsi: s0,
            access,
            stage: ConnectStageModel::Ready(
                ReadyModel { attempt: Attempt::Probe, exchange: tur1 },
            ),
        },
    ));
    exchange_laws::law_exchange_advances(tur, out);
    law_the_status_decides(tur1, answer);
    law_sessions_follow_their_exchange(s0, tur1, answer);
}

/// What is needed here of the command that measures a unit.
proof fn lemma_capacity_command<T>(s: ScsiModel<T>)
    requires
        s.usable,
    ensures
        s.geometry().1 matches Ok(x) && x.wf() && x.stage == Stage::Command && x.form
            == Form::Capacity && x.incoming == 8 && x.outgoing.len() == 0 && x.received.len() == 0
            && x.tag == (s.tag + 1) % 0x1_0000_0000 && s.geometry().0 == (ScsiModel {
            tag: x.tag,
            usable: false,
            ..s
        }),
{
    lemma_two_questions(s);
}

/// A step of a connection that measures a unit whose wrapper went out.
proof fn lemma_capacity_is_awaited<T>(m: ConnectModel<T>)
    requires
        m.stage matches ConnectStageModel::Capacity(x) && x.wf() && x.stage == Stage::Command
            && x.incoming == 8 && x.outgoing.len() == 0 && x.tag == m.scsi.tag && !m.scsi.usable,
    ensures
        ({
            let x = m.stage->Capacity_0;
            let y = ExchangeModel { stage: Stage::Data, ..x };
            &&& y.wf()
            &&& m.resume(CompletionOf::Written(Ok(31))) == ConnectStepModel::More(
                ConnectModel { stage: ConnectStageModel::Capacity(y), ..m },
            )
        }),
{
    let out = CompletionOf::<Seq<u8>>::Written(Ok(31));
    let x = m.stage->Capacity_0;
    law_the_wrapper_opens_the_exchange(x, out);
    exchange_laws::law_exchange_advances(x, out);
    law_connections_follow_their_unit(m, out);
}

/// A connection to a ready unit, once it has asked for the capacity.
proof fn lemma_capacity_is_asked_for<T>(s: ScsiModel<T>, access: Access, ready: Seq<u8>) -> (m:
    ConnectModel<T>)
    requires
        s.usable,
        good_status(ready, ((s.tag + 1) % 0x1_0000_0000) as u32),
    ensures
        connect_progress(
            s,
            access,
            seq![CompletionOf::Written(Ok(31)), CompletionOf::Received(Ok(ready))],
        ) == ConnectStepModel::More(m),
        m.access == access,
        m.scsi.lun == s.lun,
        !m.scsi.usable,
        m.stage matches ConnectStageModel::Capacity(x) && x.tag == m.scsi.tag && x.tag == (s.tag
            + 2) % 0x1_0000_0000 && x.wf() && x.stage == Stage::Command && x.form == Form::Capacity
            && x.incoming == 8 && x.outgoing.len() == 0 && x.received.len() == 0,
{
    let s1 = after_one(s);
    assert((s1.tag + 1) % 0x1_0000_0000 == (s.tag + 2) % 0x1_0000_0000) by {
        if s.tag == 0xffff_ffff {
            assert(s1.tag == 0);
        } else {
            assert(s1.tag == s.tag + 1);
        }
    }
    lemma_ready_at_once(s, access, ready);
    lemma_capacity_command(s1);
    ConnectModel {
        scsi: s1.geometry().0,
        access,
        stage: ConnectStageModel::Capacity(s1.geometry().1->Ok_0),
    }
}

/// Where a connection to a ready unit waits for its capacity.
proof fn lemma_measuring_begins<T>(s: ScsiModel<T>, access: Access, ready: Seq<u8>)
    requires
        s.usable,
        good_status(ready, ((s.tag + 1) % 0x1_0000_0000) as u32),
    ensures
        connect_progress(
            s,
            access,
            seq![
                CompletionOf::Written(Ok(31)),
                CompletionOf::Received(Ok(ready)),
                CompletionOf::Written(Ok(31)),
            ],
        ) matches ConnectStepModel::More(m) && m.access == access && m.scsi.lun == s.lun
            && !m.scsi.usable && (m.stage matches ConnectStageModel::Capacity(x) && x.tag
            == m.scsi.tag && x.tag == (s.tag + 2) % 0x1_0000_0000 && x.wf() && x.stage
            == Stage::Data && x.form == Form::Capacity && x.incoming == 8 && x.received.len()
            == 0),
{
    let out = CompletionOf::<Seq<u8>>::Written(Ok(31));
    let answer = CompletionOf::<Seq<u8>>::Received(Ok(ready));
    let c2 = seq![out, answer];
    let c3 = seq![out, answer, out];
    assert(c3.drop_last() =~= c2);
    assert(c3.last() == out);
    let m = lemma_capacity_is_asked_for(s, access, ready);
    assert(connect_progress(s, access, c3) == m.resume(out));
    lemma_capacity_is_awaited(m);
}

/// Every medium within READ(10) and WRITE(10) is served: a unit that is ready and
/// reports at most 2 to the 32 minus 1 blocks, of a power of two of at most 64 KiB,
/// is connected to, with five transfers.
pub proof fn law_every_supported_medium_is_served<T>(
    s: ScsiModel<T>,
    access: Access,
    ready: Seq<u8>,
    d: Seq<u8>,
    measured: Seq<u8>,
)
    requires
        s.usable,
        good_status(ready, ((s.tag + 1) % 0x1_0000_0000) as u32),
        good_status(measured, ((s.tag + 2) % 0x1_0000_0000) as u32),
        d.len() == 8,
        number_be(d, 0) < 0xffff_ffff,
        two_power(number_be(d, 4)),
        number_be(d, 4) <= 65_536,
    ensures
        connect_progress(
            s,
            access,
            seq![
                CompletionOf::Written(Ok(31)),
                CompletionOf::Received(Ok(ready)),
                CompletionOf::Written(Ok(31)),
                CompletionOf::Received(Ok(d)),
                CompletionOf::Received(Ok(measured)),
            ],
        ) matches ConnectStepModel::Done(Ok(session)) && session.access == access
            && session.geometry.blocks == number_be(d, 0) + 1 && session.geometry.block_size
            == number_be(d, 4) && session.scsi.usable && session.scsi.lun == s.lun,
{
    let out = CompletionOf::<Seq<u8>>::Written(Ok(31));
    let cs = seq![
        out,
        CompletionOf::Received(Ok(ready)),
        out,
        CompletionOf::Received(Ok(d)),
        CompletionOf::Received(Ok(measured)),
    ];
    let c3 = seq![out, CompletionOf::Received(Ok(ready)), out];
    let c4 = c3.push(CompletionOf::Received(Ok(d)));
    lemma_measuring_begins(s, access, ready);
    let m = connect_progress(s, access, c3)->More_0;
    let cap1 = m.stage->Capacity_0;
    let s2 = m.scsi;
    assert(c4.drop_last() =~= c3);
    law_data_comes_in_whole(cap1, c4.last());
    exchange_laws::law_exchange_advances(cap1, c4.last());
    law_sessions_follow_their_exchange(s2, cap1, c4.last());
    let cap2 = cap1.absorb(c4.last())->More_0;
    assert(cap2.received =~= d);
    assert(connect_progress(s, access, c4) == ConnectStepModel::More(
        ConnectModel { scsi: s2, access, stage: ConnectStageModel::Capacity(cap2) },
    ));
    assert(cs.drop_last() =~= c4);
    law_the_status_decides(cap2, cs.last());
    law_sessions_follow_their_exchange(s2, cap2, cs.last());
}

/// A connection goes on as its unit answers: it measures a unit that is ready,
/// serves every medium that READ(10) and WRITE(10) reach, refuses any other, and
/// reports every other failure.
pub proof fn law_connections_follow_their_unit<T>(m: ConnectModel<T>, c: CompletionOf<Seq<u8>>)
    ensures
        m.transfer() == match m.stage {
            ConnectStageModel::Ready(run) => run.exchange.transfer(),
            ConnectStageModel::Capacity(x) => x.transfer(),
        },
        match m.stage {
            ConnectStageModel::Ready(run) => {
                let (t, step) = m.scsi.resume_ready(run, c);
                match step {
                    ReadyStepModel::More(next) => m.resume(c) == ConnectStepModel::More(
                        ConnectModel { scsi: t, stage: ConnectStageModel::Ready(next), ..m },
                    ),
                    ReadyStepModel::Done(Ok(())) => t.usable ==> {
                        &&& m.resume(c) matches ConnectStepModel::More(next)
                        &&& next.access == m.access
                        &&& next.scsi == t.geometry().0
                        &&& next.stage == ConnectStageModel::Capacity(t.geometry().1->Ok_0)
                        &&& wraps(t, t.geometry(), 10, 8, seq![], Form::Capacity)
                    },
                    ReadyStepModel::Done(Err(e)) => m.resume(c) == ConnectStepModel::<T>::Done(
                        Err(e),
                    ),
                }
            },
            ConnectStageModel::Capacity(x) => !m.scsi.usable && x.tag == m.scsi.tag ==> {
                match x.absorb(c) {
                    ProgressModel::More(y) => m.resume(c) == ConnectStepModel::More(
                        ConnectModel { stage: ConnectStageModel::Capacity(y), ..m },
                    ),
                    ProgressModel::Done { reply: Ok(ResponseOf::Capacity(g)), usable } => {
                        if served(g) {
                            m.resume(c) == ConnectStepModel::Done(
                                Ok(
                                    RangeSessionModel {
                                        scsi: ScsiModel { usable, ..m.scsi },
                                        geometry: g,
                                        access: m.access,
                                    },
                                ),
                            )
                        } else {
                            m.resume(c) matches ConnectStepModel::Done(Err(_))
                        }
                    },
                    ProgressModel::Done { reply: Ok(_), .. } => m.resume(c)
                        matches ConnectStepModel::Done(Err(_)),
                    ProgressModel::Done { reply: Err(e), .. } => m.resume(c)
                        == ConnectStepModel::<T>::Done(Err(e)),
                }
            },
        },
{
    match m.stage {
        ConnectStageModel::Ready(run) => {
            let t = m.scsi.resume_ready(run, c).0;
            if t.usable {
                lemma_two_questions(t);
            }
        },
        ConnectStageModel::Capacity(x) => {
            law_sessions_follow_their_exchange(m.scsi, x, c);
            if let ProgressModel::Done { reply: Ok(ResponseOf::Capacity(g)), .. } = x.absorb(c) {
                assert(two_power(g.block_size as int) == bytes::is_two_power(g.block_size as int));
                if two_power(g.block_size as int) {
                    let k = choose|k: nat|
                        g.block_size == #[trigger] vstd::arithmetic::power2::pow2(k);
                    vstd::arithmetic::power2::lemma_pow2_pos(k);
                }
            }
        },
    }
}

/// Whether a range is one that is served: at least one byte and at most 4 MiB, all
/// on the medium, in at most 65535 blocks.
pub open spec fn in_bounds(g: Geometry, offset: int, length: int) -> bool {
    let b = g.block_size as int;
    &&& 1 <= length <= 0x40_0000
    &&& offset + length <= g.blocks * b
    &&& (offset + length - 1) / b - offset / b + 1 <= 65_535
}

/// Whether READ(10) and WRITE(10) reach all of a medium.
pub open spec fn served(g: Geometry) -> bool {
    0 < g.blocks <= 0xffff_ffff && 0 < g.block_size <= 65_536 && two_power(g.block_size as int)
}

/// The number of blocks up to the end of a range, counted from the end or from its
/// last byte.
pub proof fn lemma_last_block(end: int, b: int)
    requires
        0 < end,
        0 < b,
    ensures
        range::div_up(end, b) == (end - 1) / b + 1,
{
    vstd::arithmetic::div_mod::lemma_fundamental_div_mod(end, b);
    vstd::arithmetic::div_mod::lemma_fundamental_div_mod(end - 1, b);
    let q = end / b;
    let r = end % b;
    if r == 0 {
        assert(end - 1 == (q - 1) * b + (b - 1)) by (nonlinear_arith)
            requires
                end == b * q + r,
                r == 0,
        ;
        vstd::arithmetic::div_mod::lemma_fundamental_div_mod_converse(end - 1, b, q - 1, b - 1);
    } else {
        assert(end - 1 == q * b + (r - 1)) by (nonlinear_arith)
            requires
                end == b * q + r,
        ;
        vstd::arithmetic::div_mod::lemma_fundamental_div_mod_converse(end - 1, b, q, r - 1);
    }
}

/// A range in bounds is served, whatever its alignment: a read asks for exactly the
/// blocks that the range touches, and a write over a connection for writing begins,
/// with the bytes themselves where they are whole blocks, and by reading those
/// blocks otherwise. A range out of bounds, and a write over a connection for
/// reading, is refused without a command.
pub proof fn law_ranges_in_bounds_are_served<T>(
    s: RangeSessionModel<T>,
    offset: int,
    length: int,
    data: Seq<u8>,
)
    requires
        s.scsi.usable,
        served(s.geometry),
        0 <= offset,
        0 <= length,
        data.len() == length,
    ensures
        ({
            let b = s.geometry.block_size as int;
            let first = offset / b;
            let count = (offset + length - 1) / b - first + 1;
            let whole = offset % b == 0 && length == count * b;
            if in_bounds(s.geometry, offset, length) {
                &&& s.read_range(offset, length).1 matches RangeStepModel::More(run)
                &&& wraps(
                    s.scsi,
                    (s.read_range(offset, length).0.scsi, Ok(run.exchange)),
                    10,
                    count * b,
                    seq![],
                    Form::Data,
                )
                &&& names_blocks(run.exchange.cbw, 0x28, first, count)
                &&& run.after matches RangeAfterOf::Slice { skip, length: wanted }
                &&& skip == offset % b && wanted == length
                &&& s.access == Access::ReadWrite ==> {
                    &&& s.write_range(offset, data).1 matches RangeStepModel::More(run)
                    &&& wraps(
                        s.scsi,
                        (s.write_range(offset, data).0.scsi, Ok(run.exchange)),
                        10,
                        if whole {
                            0
                        } else {
                            count * b
                        },
                        if whole {
                            data
                        } else {
                            seq![]
                        },
                        if whole {
                            Form::Status
                        } else {
                            Form::Data
                        },
                    )
                    &&& names_blocks(
                        run.exchange.cbw,
                        if whole {
                            0x2a
                        } else {
                            0x28
                        },
                        first,
                        count,
                    )
                    &&& match run.after {
                        RangeAfterOf::Finish => whole,
                        RangeAfterOf::Patch { lba, count: n, skip, data: patch } => !whole && lba
                            == first && n == count && skip == offset % b && patch == data,
                        RangeAfterOf::Slice { .. } => false,
                    }
                }
            } else {
                &&& s.read_range(offset, length).0 == s
                &&& s.read_range(offset, length).1 matches RangeStepModel::Done(Err(_))
                &&& s.write_range(offset, data).0 == s
                &&& s.write_range(offset, data).1 matches RangeStepModel::Done(Err(_))
            }
        }),
        s.access == Access::ReadOnly ==> s.write_range(offset, data).0 == s && (s.write_range(
            offset,
            data,
        ).1 matches RangeStepModel::Done(Err(_))),
{
    let g = s.geometry;
    let b = g.block_size as int;
    assert(range::supported(g));
    if 0 < length {
        lemma_last_block(offset + length, b);
    }
    if in_bounds(g, offset, length) {
        range::law_span_covers_the_range(g, offset, length);
        let span = range::span_of(g, offset, length)->Ok_0;
        let lba = span.lba as u32;
        let count = span.count as u16;
        assert(span.lba + span.count <= g.blocks);
        assert(nameable(lba, count, g.block_size));
        law_block_commands_move_their_blocks(s.scsi, lba, count, g.block_size, data);
    }
}

/// A range operation ends as its last command does: in the failure that the command
/// ended in, or well, and the session stands as its SCSI session does.
pub proof fn law_range_operations_end_as_their_command<T>(
    s: RangeSessionModel<T>,
    run: RangeModel,
    c: CompletionOf<Seq<u8>>,
)
    requires
        !s.scsi.usable,
        run.exchange.tag == s.scsi.tag,
    ensures
        match run.exchange.absorb(c) {
            ProgressModel::More(x) => s.resume(run, c) == (
                s,
                RangeStepModel::More(RangeModel { exchange: x, ..run }),
            ),
            ProgressModel::Done { reply: Err(e), usable } => s.resume(run, c) == (
                RangeSessionModel { scsi: ScsiModel { usable, ..s.scsi }, ..s },
                RangeStepModel::Done(Err(e)),
            ),
            ProgressModel::Done { reply: Ok(_), usable } => run.after is Finish ==> s.resume(run, c)
                == (
                RangeSessionModel { scsi: ScsiModel { usable, ..s.scsi }, ..s },
                RangeStepModel::Done(Ok(ResponseOf::Done)),
            ),
        },
{
    law_sessions_follow_their_exchange(s.scsi, run.exchange, c);
}

/// Once its blocks have come, a read gives the range out of them, and a write of
/// part of them sends them back with its bytes in their place, and nothing else
/// changed.
pub proof fn law_blocks_give_and_take_their_range<T>(
    s: RangeSessionModel<T>,
    run: RangeModel,
    c: CompletionOf<Seq<u8>>,
    d: Seq<u8>,
)
    requires
        !s.scsi.usable,
        run.exchange.tag == s.scsi.tag,
        run.exchange.absorb(c) == (ProgressModel::Done {
            reply: Ok(ResponseOf::Data(d)),
            usable: true,
        }),
    ensures
        ({
            let idle = ScsiModel { usable: true, ..s.scsi };
            let (t, step) = s.resume(run, c);
            match run.after {
                RangeAfterOf::Slice { skip, length } => skip + length <= d.len() ==> {
                    &&& t == (RangeSessionModel { scsi: idle, ..s })
                    &&& step matches RangeStepModel::Done(Ok(ResponseOf::Data(out)))
                    &&& out.len() == length
                    &&& forall|i: int| 0 <= i < length ==> #[trigger] out[i] == d[skip + i]
                },
                RangeAfterOf::Patch { lba, count, skip, data } => nameable(
                    lba,
                    count,
                    s.geometry.block_size,
                ) && d.len() == count * s.geometry.block_size && skip + data.len() <= d.len() ==> {
                    &&& step matches RangeStepModel::More(next)
                    &&& next.after is Finish
                    &&& t == (RangeSessionModel { scsi: t.scsi, ..s })
                    &&& wraps(
                        idle,
                        (t.scsi, Ok(next.exchange)),
                        10,
                        0,
                        next.exchange.outgoing,
                        Form::Status,
                    )
                    &&& names_blocks(next.exchange.cbw, 0x2a, lba as int, count as int)
                    &&& next.exchange.outgoing.len() == d.len()
                    &&& forall|i: int|
                        0 <= i < d.len() ==> #[trigger] next.exchange.outgoing[i] == if skip <= i
                            < skip + data.len() {
                            data[i - skip]
                        } else {
                            d[i]
                        }
                },
                RangeAfterOf::Finish => true,
            }
        }),
{
    law_sessions_follow_their_exchange(s.scsi, run.exchange, c);
    if let RangeAfterOf::Patch { lba, count, skip, data } = run.after {
        if nameable(lba, count, s.geometry.block_size) && d.len() == count * s.geometry.block_size
            && skip + data.len() <= d.len() {
            let idle = ScsiModel { usable: true, ..s.scsi };
            law_block_commands_move_their_blocks(
                idle,
                lba,
                count,
                s.geometry.block_size,
                range::splice(d, skip as int, data),
            );
        }
    }
}

/// A session that has a command in flight, or is past use, opens no other, and is
/// not changed by the attempt.
pub proof fn law_busy_sessions_open_nothing<T>(
    s: ScsiModel<T>,
    lba: u32,
    count: u16,
    block_size: u32,
    data: Seq<u8>,
)
    requires
        !s.usable,
    ensures
        s.test_unit_ready() == (s, Err::<ExchangeModel, Error>(Error::Retired)),
        s.inquiry() == (s, Err::<ExchangeModel, Error>(Error::Retired)),
        s.request_sense() == (s, Err::<ExchangeModel, Error>(Error::Retired)),
        s.geometry() == (s, Err::<ExchangeModel, Error>(Error::Retired)),
        s.flush() == (s, Err::<ExchangeModel, Error>(Error::Retired)),
        s.eject() == (s, Err::<ExchangeModel, Error>(Error::Retired)),
        s.read_blocks(lba, count, block_size).0 == s,
        s.read_blocks(lba, count, block_size).1 is Err,
        s.write_blocks(lba, count, block_size, data).0 == s,
        s.write_blocks(lba, count, block_size, data).1 is Err,
        s.initialize_ready().0 == s,
        s.initialize_ready().1 matches ReadyStepModel::Done(Err(_)),
{
}

/// A sync of a range session is one of the whole medium, and an eject ends it; each
/// is over with its one command.
pub proof fn law_syncs_and_ejects_are_one_command<T>(s: RangeSessionModel<T>)
    requires
        s.scsi.usable,
    ensures
        s.sync().1 matches RangeStepModel::More(run) && run.after is Finish && (
            s.sync().0.scsi,
            Ok::<ExchangeModel, Error>(run.exchange),
        ) == s.scsi.flush() && names_blocks(run.exchange.cbw, 0x35, 0, 0),
        s.eject().1 matches RangeStepModel::More(run) && run.after is Finish && (
            s.eject().0.scsi,
            Ok::<ExchangeModel, Error>(run.exchange),
        ) == s.scsi.eject() && run.exchange.form == Form::Eject,
        s.sync().0 == (RangeSessionModel { scsi: s.sync().0.scsi, ..s }),
        s.eject().0 == (RangeSessionModel { scsi: s.eject().0.scsi, ..s }),
{
    law_syncs_cover_the_medium(s.scsi);
    law_ejects_take_the_medium_out(s.scsi);
}

} // verus!
