//! What holds of a whole exchange, whatever the device answers.

use vstd::prelude::*;

use crate::bytes;
use crate::error::Error;
use crate::exchange;
use crate::exchange::CompletionOf;
use crate::exchange::ExchangeModel;
use crate::exchange::Form;
use crate::exchange::ProgressModel;
use crate::exchange::Stage;
use crate::exchange::TransferOf;
use crate::scsi::ScsiModel;

verus! {

/// The completions of the transfers of one exchange, in order.
pub type Completions = Seq<CompletionOf<Seq<u8>>>;

/// Where an exchange stands after these completions.
pub open spec fn run(x: ExchangeModel, cs: Completions) -> ProgressModel
    decreases cs.len(),
{
    if cs.len() == 0 {
        ProgressModel::More(x)
    } else {
        match run(x, cs.drop_last()) {
            ProgressModel::More(y) => y.absorb(cs.last()),
            ProgressModel::Done { reply, usable } => ProgressModel::Done { reply, usable },
        }
    }
}

/// All bytes that the exchange has put on the wire by then.
pub open spec fn bytes_out(x: ExchangeModel, cs: Completions) -> Seq<u8>
    decreases cs.len(),
{
    if cs.len() == 0 {
        seq![]
    } else {
        bytes_out(x, cs.drop_last()) + match run(x, cs.drop_last()) {
            ProgressModel::More(y) => match y.transfer() {
                TransferOf::Write(b) => b,
                TransferOf::Read(_) => seq![],
            },
            ProgressModel::Done { .. } => seq![],
        }
    }
}

/// All bytes that came in as data by then.
pub open spec fn data_in(x: ExchangeModel, cs: Completions) -> Seq<u8>
    decreases cs.len(),
{
    if cs.len() == 0 {
        seq![]
    } else {
        data_in(x, cs.drop_last()) + match (run(x, cs.drop_last()), cs.last()) {
            (ProgressModel::More(y), CompletionOf::Received(Ok(b))) => if y.stage == Stage::Data {
                b
            } else {
                seq![]
            },
            _ => seq![],
        }
    }
}

/// The bytes and stages that an exchange still has before it.
pub open spec fn remaining(x: ExchangeModel) -> int {
    (x.incoming - x.received.len()) + (x.outgoing.len() - x.sent) + match x.stage {
        Stage::Command => 2int,
        Stage::Data => 1,
        Stage::Status => 0,
    }
}

/// Whether a completion is a status wrapper that keeps the session: well framed
/// for this exchange, and either good, with no eject, or a framed failure.
pub open spec fn keeps_session(x: ExchangeModel, c: CompletionOf<Seq<u8>>) -> bool {
    &&& x.stage == Stage::Status
    &&& c matches CompletionOf::Received(Ok(csw))
    &&& exchange::status_frames(csw, x.tag)
    &&& bytes::from_le32(csw, 8) <= x.length
    &&& (csw[12] == 0 && bytes::from_le32(csw, 8) == 0 && x.form != Form::Eject) || csw[12] == 1
}

/// A command wrapper is 31 bytes: the signature `USBC`, each field at its place, and
/// the command block from byte 15, counted from zero, with zeros behind it.
pub proof fn law_wrapper_layout(tag: u32, length: u32, incoming: bool, lun: u8, cdb: Seq<u8>)
    requires
        0 < cdb.len() <= 16,
    ensures
        ({
            let w = exchange::command_wrapper(tag, length, incoming, lun, cdb);
            &&& w.len() == 31
            &&& w.take(4) == seq![0x55u8, 0x53, 0x42, 0x43]
            &&& bytes::from_le32(w, 4) == tag
            &&& bytes::from_le32(w, 8) == length
            &&& w[12] == if incoming { 0x80u8 } else { 0u8 }
            &&& w[13] == lun
            &&& w[14] == cdb.len()
            &&& w.subrange(15, 15 + cdb.len() as int) == cdb
            &&& forall|i: int| 15 + cdb.len() <= i < 31 ==> #[trigger] w[i] == 0
        }),
{
    bytes::law_fixed_width_round_trip(tag);
    bytes::law_fixed_width_round_trip(length);
    let w = exchange::command_wrapper(tag, length, incoming, lun, cdb);
    assert(w.take(4) =~= seq![0x55u8, 0x53, 0x42, 0x43]);
    assert(w.subrange(15, 15 + cdb.len() as int) =~= cdb);
}

/// No transfer of a data stage is empty or larger than a chunk, and a read
/// never asks for more than is still expected.
pub proof fn law_transfers_are_bounded(x: ExchangeModel)
    requires
        x.wf(),
    ensures
        x.transfer() matches TransferOf::Write(b) ==> 0 < b.len() <= exchange::CHUNK_BYTES,
        x.transfer() matches TransferOf::Read(n) ==> 0 < n <= exchange::CHUNK_BYTES,
        x.stage == Stage::Data && x.transfer() is Read ==> x.transfer()->Read_0 <= x.incoming
            - x.received.len(),
{
}

/// An exchange that goes on keeps its command and has strictly less before it:
/// nothing is sent twice, and it ends.
pub proof fn law_exchange_advances(x: ExchangeModel, c: CompletionOf<Seq<u8>>)
    requires
        x.wf(),
    ensures
        x.absorb(c) matches ProgressModel::More(y) ==> {
            &&& y.wf()
            &&& 0 <= remaining(y) < remaining(x)
            &&& y == (ExchangeModel {
                received: y.received,
                sent: y.sent,
                stage: y.stage,
                ..x
            })
        },
{
}

/// The session outlives an exchange exactly when the exchange ended in a status
/// wrapper that keeps it; a failed transfer, a short or oversized one, and a
/// wrapper that is damaged or late all retire it.
pub proof fn law_only_a_framed_status_keeps_the_session(
    x: ExchangeModel,
    c: CompletionOf<Seq<u8>>,
)
    requires
        x.wf(),
    ensures
        x.absorb(c) matches ProgressModel::Done { reply, usable } ==> usable == keeps_session(x, c),
{
}

/// What an exchange in flight has moved so far.
proof fn lemma_moved_so_far(x: ExchangeModel, cs: Completions)
    requires
        x.wf(),
        x.stage == Stage::Command,
    ensures
        run(x, cs) matches ProgressModel::More(y) ==> {
            &&& y.wf()
            &&& y == (ExchangeModel {
                received: y.received,
                sent: y.sent,
                stage: y.stage,
                ..x
            })
            &&& y.received == data_in(x, cs)
            &&& y.stage == Stage::Command ==> cs.len() == 0
            &&& y.stage != Stage::Command ==> bytes_out(x, cs) == x.cbw + x.outgoing.subrange(
                0,
                y.sent,
            )
        },
    decreases cs.len(),
{
    if cs.len() > 0 {
        lemma_moved_so_far(x, cs.drop_last());
        if let ProgressModel::More(y) = run(x, cs.drop_last()) {
            law_exchange_advances(y, cs.last());
            if let ProgressModel::More(z) = y.absorb(cs.last()) {
                if y.stage == Stage::Command {
                    assert(bytes_out(x, cs.drop_last()) =~= seq![]);
                    assert(z.sent == 0);
                    assert(bytes_out(x, cs) =~= x.cbw + x.outgoing.subrange(0, z.sent));
                    assert(z.received =~= data_in(x, cs));
                } else if y.incoming > 0 {
                    assert(bytes_out(x, cs) =~= x.cbw + x.outgoing.subrange(0, z.sent));
                } else {
                    assert(x.outgoing.subrange(0, y.sent) + y.outgoing.subrange(
                        y.sent,
                        y.chunk_end(),
                    ) =~= x.outgoing.subrange(0, z.sent));
                    assert(bytes_out(x, cs) =~= x.cbw + x.outgoing.subrange(0, z.sent));
                    assert(z.received =~= data_in(x, cs));
                }
            }
        }
    }
}

/// A good reply means that the whole command moved: the wrapper and exactly the
/// outgoing bytes went out, in order and once; exactly the expected number of
/// bytes came in, and the reply is read from them; and the device closed the
/// exchange with a matching, complete, good status.
pub proof fn law_good_reply_is_exact(x: ExchangeModel, cs: Completions)
    requires
        x.wf(),
        x.stage == Stage::Command,
        run(x, cs.drop_last()) is More,
        run(x, cs) is Done,
        run(x, cs)->reply is Ok,
    ensures
        bytes_out(x, cs) == x.cbw + x.outgoing,
        data_in(x, cs).len() == x.incoming,
        run(x, cs)->reply == exchange::response_of(x.form, data_in(x, cs)),
        run(x, cs)->usable == (x.form != Form::Eject),
        cs.last() matches CompletionOf::Received(Ok(csw)) && exchange::status_frames(csw, x.tag)
            && csw[12] == 0 && bytes::from_le32(csw, 8) == 0,
{
    lemma_moved_so_far(x, cs.drop_last());
    let y = run(x, cs.drop_last())->More_0;
    assert(x.outgoing.subrange(0, y.sent) + seq![] =~= x.outgoing);
    assert(bytes_out(x, cs) =~= x.cbw + x.outgoing);
    assert(data_in(x, cs) =~= y.received);
}

/// A retired session opens nothing: whatever is asked, it stays as it is and no
/// exchange, so no transfer, comes of it.
pub proof fn law_retired_session_opens_nothing<T>(
    s: ScsiModel<T>,
    lba: u32,
    count: u16,
    block_size: u32,
    data: Seq<u8>,
)
    requires
        !s.usable,
    ensures
        s.test_unit_ready() == (s, Err::<ExchangeModel, Error>(Error::Retired)),
        s.inquiry() == (s, Err::<ExchangeModel, Error>(Error::Retired)),
        s.request_sense() == (s, Err::<ExchangeModel, Error>(Error::Retired)),
        s.geometry() == (s, Err::<ExchangeModel, Error>(Error::Retired)),
        s.flush() == (s, Err::<ExchangeModel, Error>(Error::Retired)),
        s.eject() == (s, Err::<ExchangeModel, Error>(Error::Retired)),
        s.read_blocks(lba, count, block_size).0 == s,
        s.read_blocks(lba, count, block_size).1 is Err,
        s.write_blocks(lba, count, block_size, data).0 == s,
        s.write_blocks(lba, count, block_size, data).1 is Err,
{
}

/// An exchange of another session, or one that is over, is refused: it neither
/// revives a retired session nor disturbs one in use.
pub proof fn law_foreign_exchanges_change_nothing<T>(
    s: ScsiModel<T>,
    x: ExchangeModel,
    c: CompletionOf<Seq<u8>>,
)
    requires
        !s.awaits(x),
    ensures
        s.resume(x, c).0 == s,
        s.resume(x, c).1 is Done,
        s.resume(x, c).1->reply is Err,
{
}

/// An exchange that was opened is well formed, waits for its wrapper, carries
/// the tag after the last one, and holds the session for itself until it ends.
pub proof fn law_open_exchange_holds_the_session<T>(
    s: ScsiModel<T>,
    cdb: Seq<u8>,
    incoming: int,
    outgoing: Seq<u8>,
    form: Form,
)
    requires
        0 <= incoming,
        form == Form::Capacity ==> incoming == 8,
    ensures
        s.open(cdb, incoming, outgoing, form).1 matches Ok(x) ==> {
            &&& x.wf()
            &&& x.stage == Stage::Command
            &&& x.tag == crate::scsi::next_tag(s.tag)
            &&& s.open(cdb, incoming, outgoing, form).0.awaits(x)
            &&& s.open(cdb, incoming, outgoing, form).0 == (ScsiModel {
                tag: x.tag,
                usable: false,
                ..s
            })
        },
{
    if 0 < cdb.len() <= 16 {
        law_wrapper_layout(
            crate::scsi::next_tag(s.tag),
            (incoming + outgoing.len()) as u32,
            incoming > 0,
            s.lun,
            cdb,
        );
    }
}

} // verus!
