//! What holds of byte ranges on a medium, whatever their alignment.
//!
//! The medium is a sequence of bytes, and a device that keeps the protocol
//! answers a read of blocks with those bytes, and replaces them on a write.

use vstd::prelude::*;

use crate::bytes;
use crate::error::Error;
use crate::exchange::CompletionOf;
use crate::exchange::Form;
use crate::exchange::Geometry;
use crate::exchange::ProgressModel;
use crate::exchange::ResponseOf;
use crate::exchange::Stage;
use crate::exchange_laws;
use crate::exchange_laws::Completions;
use crate::range;
use crate::range::Access;
use crate::range::RangeAfterOf;
use crate::range::RangeModel;
use crate::range::RangeSessionModel;
use crate::range::RangeStepModel;
use crate::scsi;

verus! {

/// The blocks of the medium that a span names.
pub open spec fn blocks_of(disk: Seq<u8>, g: Geometry, span: range::Span) -> Seq<u8> {
    disk.subrange(span.lba * g.block_size, (span.lba + span.count) * g.block_size)
}

/// Whether a medium of this geometry holds these bytes.
pub open spec fn medium(disk: Seq<u8>, g: Geometry) -> bool {
    range::supported(g) && disk.len() == range::bytes_of(g)
}

/// A block command names its first block and its count, most significant byte
/// first, and moves whole blocks.
pub proof fn law_block_command_names_its_blocks(op: u8, lba: u32, count: u16, block_size: u32)
    ensures
        scsi::block_range(op, lba, count, block_size) matches Ok((cdb, length)) ==> {
            &&& cdb.len() == 10
            &&& cdb[0] == op
            &&& bytes::from_be32(cdb, 2) == lba
            &&& 256 * cdb[7] + cdb[8] == count
            &&& length == count * block_size
        },
{
    bytes::law_fixed_width_round_trip(lba);
}

/// A splice keeps the length, holds the patch where it was put, and leaves
/// every other byte as it was.
pub proof fn law_splice_changes_only_its_range(base: Seq<u8>, at: int, patch: Seq<u8>)
    requires
        0 <= at,
        at + patch.len() <= base.len(),
    ensures
        range::splice(base, at, patch).len() == base.len(),
        range::splice(base, at, patch).subrange(at, at + patch.len()) == patch,
        forall|i: int|
            0 <= i < base.len() && !(at <= i < at + patch.len())
                ==> #[trigger] range::splice(base, at, patch)[i] == base[i],
{
    assert(range::splice(base, at, patch).subrange(at, at + patch.len()) =~= patch);
}

/// The span of a range, and its place on the medium.
proof fn lemma_span_on_medium(disk: Seq<u8>, g: Geometry, offset: int, length: int)
    requires
        medium(disk, g),
        0 <= offset,
        0 <= length,
    ensures
        range::span_of(g, offset, length) matches Ok(span) ==> {
            let low = span.lba * g.block_size;
            let high = (span.lba + span.count) * g.block_size;
            &&& 0 <= low <= offset
            &&& offset == low + span.skip
            &&& offset + length <= high <= disk.len()
            &&& high - low == span.count * g.block_size
            &&& blocks_of(disk, g, span).len() == high - low
        },
{
    range::law_span_covers_the_range(g, offset, length);
    if let Ok(span) = range::span_of(g, offset, length) {
        let b = g.block_size as int;
        assert(0 <= span.lba * b && (span.lba + span.count) * b == span.lba * b + span.count * b
            && (span.lba + span.count) * b <= g.blocks * b) by (nonlinear_arith)
            requires
                0 <= span.lba,
                0 <= b,
                span.lba + span.count <= g.blocks,
        ;
    }
}

/// Reading a range gives exactly the bytes of the medium in that range: when
/// the read of its blocks is answered with what the medium holds there, the
/// operation ends in `disk[offset .. offset + length]`.
pub proof fn law_read_range_gives_the_bytes_of_the_medium<T>(
    s: RangeSessionModel<T>,
    offset: int,
    length: int,
    disk: Seq<u8>,
    now: RangeSessionModel<T>,
    run: RangeModel,
    c: CompletionOf<Seq<u8>>,
)
    requires
        medium(disk, s.geometry),
        now.geometry == s.geometry,
        now.scsi.awaits(run.exchange),
        0 <= offset,
        0 <= length,
        s.read_range(offset, length).1 matches RangeStepModel::More(first) && run.after
            == first.after,
        range::span_of(s.geometry, offset, length) matches Ok(span) && run.exchange.absorb(c)
            matches ProgressModel::Done { reply: Ok(ResponseOf::Data(d)), .. } && d == blocks_of(
            disk,
            s.geometry,
            span,
        ),
    ensures
        now.resume(run, c).1 == RangeStepModel::Done(
            Ok(ResponseOf::Data(disk.subrange(offset, offset + length))),
        ),
{
    lemma_span_on_medium(disk, s.geometry, offset, length);
    let span = range::span_of(s.geometry, offset, length)->Ok_0;
    let d = blocks_of(disk, s.geometry, span);
    assert(d.subrange(span.skip, span.skip + length) =~= disk.subrange(offset, offset + length));
}

/// Writing whole blocks: the bytes handed to the device are the range, and
/// putting them at the first block is putting them at the offset.
pub proof fn law_aligned_write_is_the_range<T>(
    s: RangeSessionModel<T>,
    offset: int,
    data: Seq<u8>,
    disk: Seq<u8>,
)
    requires
        medium(disk, s.geometry),
        0 <= offset,
    ensures
        s.write_range(offset, data).1 matches RangeStepModel::More(run) ==> run.after
            == RangeAfterOf::<Seq<u8>>::Finish ==> {
            let span = range::span_of(s.geometry, offset, data.len() as int)->Ok_0;
            &&& run.exchange.outgoing == data
            &&& range::splice(disk, span.lba * s.geometry.block_size, run.exchange.outgoing)
                == range::splice(disk, offset, data)
        },
{
    lemma_span_on_medium(disk, s.geometry, offset, data.len() as int);
}

/// Writing a range that covers blocks in part: when the read of its blocks is
/// answered with what the medium holds there, the blocks then handed to the
/// device differ from the medium in the range alone, so that the medium becomes
/// the old one with `data` at `offset`.
pub proof fn law_unaligned_write_changes_only_the_range<T>(
    s: RangeSessionModel<T>,
    offset: int,
    data: Seq<u8>,
    disk: Seq<u8>,
    now: RangeSessionModel<T>,
    run: RangeModel,
    c: CompletionOf<Seq<u8>>,
)
    requires
        medium(disk, s.geometry),
        0 <= offset,
        now.geometry == s.geometry,
        now.scsi.awaits(run.exchange),
        s.write_range(offset, data).1 matches RangeStepModel::More(first) && first.after is Patch
            && run.after == first.after,
        range::span_of(s.geometry, offset, data.len() as int) matches Ok(span)
            && run.exchange.absorb(c) matches ProgressModel::Done {
            reply: Ok(ResponseOf::Data(d)),
            ..
        } && d == blocks_of(disk, s.geometry, span),
        run.exchange.absorb(c)->usable,
    ensures
        now.resume(run, c).1 matches RangeStepModel::More(next) && next.after == RangeAfterOf::<
            Seq<u8>,
        >::Finish && range::splice(
            disk,
            range::span_of(s.geometry, offset, data.len() as int)->Ok_0.lba
                * s.geometry.block_size,
            next.exchange.outgoing,
        ) == range::splice(disk, offset, data),
{
    lemma_span_on_medium(disk, s.geometry, offset, data.len() as int);
    range::law_span_covers_the_range(s.geometry, offset, data.len() as int);
    let span = range::span_of(s.geometry, offset, data.len() as int)->Ok_0;
    let d = blocks_of(disk, s.geometry, span);
    let low = span.lba * s.geometry.block_size;
    let w = range::splice(d, span.skip, data);
    law_splice_changes_only_its_range(d, span.skip, data);
    law_splice_changes_only_its_range(disk, low, w);
    law_splice_changes_only_its_range(disk, offset, data);
    assert(w.len() == span.count * s.geometry.block_size);
    assert forall|i: int| 0 <= i < disk.len() implies #[trigger] range::splice(disk, low, w)[i]
        == range::splice(disk, offset, data)[i] by {
        if low <= i < low + w.len() {
            assert(range::splice(disk, low, w)[i] == w[i - low]);
            if offset <= i < offset + data.len() {
                assert(w[i - low] == data[i - offset]);
            } else {
                assert(w[i - low] == d[i - low]);
            }
        }
    }
    assert(range::splice(disk, low, w) =~= range::splice(disk, offset, data));
}

/// The first block that a command wrapper names: the command block starts at byte
/// 15, counted from zero, and the number of the block two further on.
pub open spec fn wire_lba(cbw: Seq<u8>) -> int {
    bytes::from_be32(cbw, 17)
}

/// How many blocks a command wrapper names.
pub open spec fn wire_count(cbw: Seq<u8>) -> int {
    256 * cbw[22] + cbw[23]
}

/// What a medium answers to a READ(10) in this wrapper.
pub open spec fn medium_answers(disk: Seq<u8>, block_size: u32, cbw: Seq<u8>) -> Seq<u8> {
    disk.subrange(wire_lba(cbw) * block_size, (wire_lba(cbw) + wire_count(cbw)) * block_size)
}

/// What a medium becomes by a WRITE(10) in this wrapper, of these bytes.
pub open spec fn medium_becomes(
    disk: Seq<u8>,
    block_size: u32,
    cbw: Seq<u8>,
    data: Seq<u8>,
) -> Seq<u8> {
    range::splice(disk, wire_lba(cbw) * block_size, data)
}

/// Where a range operation stands after these completions.
pub open spec fn range_progress<T>(s: RangeSessionModel<T>, run: RangeModel, cs: Completions) -> (
    RangeSessionModel<T>,
    RangeStepModel,
)
    decreases cs.len(),
{
    if cs.len() == 0 {
        (s, RangeStepModel::More(run))
    } else {
        let (t, step) = range_progress(s, run, cs.drop_last());
        match step {
            RangeStepModel::More(next) => t.resume(next, cs.last()),
            RangeStepModel::Done(r) => (t, RangeStepModel::Done(r)),
        }
    }
}

/// A range operation moves its exchange, and only that, until the exchange ends.
proof fn lemma_range_follows_exchange<T>(
    s: RangeSessionModel<T>,
    run: RangeModel,
    cs: Completions,
)
    requires
        run.exchange.wf(),
        s.scsi.awaits(run.exchange),
        exchange_laws::run(run.exchange, cs) is More,
    ensures
        range_progress(s, run, cs).1 == RangeStepModel::More(
            RangeModel {
                exchange: exchange_laws::run(run.exchange, cs)->More_0,
                after: run.after,
            },
        ),
        range_progress(s, run, cs).0 == s,
        exchange_laws::run(run.exchange, cs)->More_0.wf(),
        exchange_laws::run(run.exchange, cs)->More_0.tag == run.exchange.tag,
    decreases cs.len(),
{
    if cs.len() > 0 {
        lemma_range_follows_exchange(s, run, cs.drop_last());
        exchange_laws::law_exchange_advances(
            exchange_laws::run(run.exchange, cs.drop_last())->More_0,
            cs.last(),
        );
    }
}

/// A block command that was opened: what its wrapper names, and what it moves.
proof fn lemma_block_exchange<T>(
    s: scsi::ScsiModel<T>,
    lba: u32,
    count: u16,
    block_size: u32,
    data: Seq<u8>,
)
    ensures
        s.read_blocks(lba, count, block_size).1 matches Ok(x) ==> {
            &&& x.wf()
            &&& s.read_blocks(lba, count, block_size).0.awaits(x)
            &&& x.stage == Stage::Command
            &&& x.form == Form::Data
            &&& x.incoming == count * block_size
            &&& x.cbw[15] == 0x28
            &&& wire_lba(x.cbw) == lba
            &&& wire_count(x.cbw) == count
        },
        s.write_blocks(lba, count, block_size, data).1 matches Ok(x) ==> {
            &&& x.wf()
            &&& x.stage == Stage::Command
            &&& x.form == Form::Status
            &&& x.outgoing == data
            &&& x.cbw[15] == 0x2a
            &&& wire_lba(x.cbw) == lba
            &&& wire_count(x.cbw) == count
        },
{
    if let Ok((cdb, length)) = scsi::block_range(0x28, lba, count, block_size) {
        law_block_command_names_its_blocks(0x28, lba, count, block_size);
        assert(0 <= length) by (nonlinear_arith)
            requires
                length == count * block_size,
        ;
        exchange_laws::law_open_exchange_holds_the_session(s, cdb, length, seq![], Form::Data);
        if let Ok(x) = s.open(cdb, length, seq![], Form::Data).1 {
            exchange_laws::law_wrapper_layout(x.tag, length as u32, length > 0, s.lun, cdb);
            lemma_cdb_in_wrapper(x.cbw, cdb);
        }
    }
    if let Ok((cdb, length)) = scsi::block_range(0x2a, lba, count, block_size) {
        law_block_command_names_its_blocks(0x2a, lba, count, block_size);
        exchange_laws::law_open_exchange_holds_the_session(s, cdb, 0, data, Form::Status);
        if let Ok(x) = s.open(cdb, 0, data, Form::Status).1 {
            exchange_laws::law_wrapper_layout(x.tag, data.len() as u32, false, s.lun, cdb);
            lemma_cdb_in_wrapper(x.cbw, cdb);
        }
    }
}

proof fn lemma_cdb_in_wrapper(w: Seq<u8>, cdb: Seq<u8>)
    requires
        cdb.len() == 10,
        w.len() == 31,
        w.subrange(15, 15 + cdb.len() as int) == cdb,
    ensures
        forall|i: int| 0 <= i < 10 ==> w[15 + i] == #[trigger] cdb[i],
        w[15] == cdb[0],
        wire_lba(w) == bytes::from_be32(cdb, 2),
        wire_count(w) == 256 * cdb[7] + cdb[8],
{
    assert forall|i: int| 0 <= i < 10 implies w[15 + i] == #[trigger] cdb[i] by {
        assert(w.subrange(15, 25)[i] == w[15 + i]);
    }
    assert(w[15] == cdb[0]);
    assert(w[17] == cdb[2] && w[18] == cdb[3] && w[19] == cdb[4] && w[20] == cdb[5]);
    assert(w[22] == cdb[7] && w[23] == cdb[8]);
}

/// Reading, over the wire: whatever the transfers were cut into, where the
/// device answered the command that was sent with what the medium holds there,
/// a read that succeeds gives exactly `disk[offset .. offset + length]`.
pub proof fn law_reads_over_the_wire<T>(
    s: RangeSessionModel<T>,
    offset: int,
    length: int,
    disk: Seq<u8>,
    cs: Completions,
)
    requires
        medium(disk, s.geometry),
        0 <= offset,
        0 <= length,
        s.read_range(offset, length).1 is More,
        exchange_laws::run(s.read_range(offset, length).1->More_0.exchange, cs.drop_last())
            is More,
        exchange_laws::run(s.read_range(offset, length).1->More_0.exchange, cs) is Done,
        exchange_laws::run(s.read_range(offset, length).1->More_0.exchange, cs)->reply is Ok,
        exchange_laws::data_in(s.read_range(offset, length).1->More_0.exchange, cs)
            == medium_answers(
            disk,
            s.geometry.block_size,
            s.read_range(offset, length).1->More_0.exchange.cbw,
        ),
    ensures
        range_progress(
            s.read_range(offset, length).0,
            s.read_range(offset, length).1->More_0,
            cs,
        ).1 == RangeStepModel::Done(
            Ok(ResponseOf::Data(disk.subrange(offset, offset + length))),
        ),
{
    let (t, step) = s.read_range(offset, length);
    let first = step->More_0;
    let span = range::span_of(s.geometry, offset, length)->Ok_0;
    range::law_span_covers_the_range(s.geometry, offset, length);
    lemma_span_on_medium(disk, s.geometry, offset, length);
    lemma_block_exchange(
        s.scsi,
        span.lba as u32,
        span.count as u16,
        s.geometry.block_size,
        seq![],
    );
    exchange_laws::law_good_reply_is_exact(first.exchange, cs);
    lemma_range_follows_exchange(t, first, cs.drop_last());
    let y = exchange_laws::run(first.exchange, cs.drop_last())->More_0;
    let last = RangeModel { exchange: y, after: first.after };
    assert(y.absorb(cs.last()) == exchange_laws::run(first.exchange, cs));
    law_read_range_gives_the_bytes_of_the_medium(s, offset, length, disk, t, last, cs.last());
}

/// Writing whole blocks, over the wire: a write that succeeds put the wrapper and
/// exactly the bytes of the range on the wire, and a device that does what it was
/// sent turns the medium into the old one with `data` at `offset`.
pub proof fn law_aligned_writes_over_the_wire<T>(
    s: RangeSessionModel<T>,
    offset: int,
    data: Seq<u8>,
    disk: Seq<u8>,
    cs: Completions,
)
    requires
        medium(disk, s.geometry),
        0 <= offset,
        s.write_range(offset, data).1 is More,
        s.write_range(offset, data).1->More_0.after is Finish,
        exchange_laws::run(s.write_range(offset, data).1->More_0.exchange, cs.drop_last())
            is More,
        exchange_laws::run(s.write_range(offset, data).1->More_0.exchange, cs) is Done,
        exchange_laws::run(s.write_range(offset, data).1->More_0.exchange, cs)->reply is Ok,
    ensures
        ({
            let x = s.write_range(offset, data).1->More_0.exchange;
            &&& exchange_laws::bytes_out(x, cs) == x.cbw + data
            &&& x.cbw[15] == 0x2a
            &&& medium_becomes(disk, s.geometry.block_size, x.cbw, data) == range::splice(
                disk,
                offset,
                data,
            )
        }),
{
    let x = s.write_range(offset, data).1->More_0.exchange;
    let span = range::span_of(s.geometry, offset, data.len() as int)->Ok_0;
    range::law_span_covers_the_range(s.geometry, offset, data.len() as int);
    law_aligned_write_is_the_range(s, offset, data, disk);
    lemma_block_exchange(
        s.scsi,
        span.lba as u32,
        span.count as u16,
        s.geometry.block_size,
        data,
    );
    exchange_laws::law_good_reply_is_exact(x, cs);
}

/// Writing a range that covers blocks in part, over the wire: where the device
/// answered the read with what the medium holds there, the write that follows
/// sends, when it succeeds, exactly the blocks that turn the medium into the old
/// one with `data` at `offset`.
pub proof fn law_unaligned_writes_over_the_wire<T>(
    s: RangeSessionModel<T>,
    offset: int,
    data: Seq<u8>,
    disk: Seq<u8>,
    reads: Completions,
    writes: Completions,
)
    requires
        medium(disk, s.geometry),
        0 <= offset,
        s.write_range(offset, data).1 is More,
        s.write_range(offset, data).1->More_0.after is Patch,
        exchange_laws::run(s.write_range(offset, data).1->More_0.exchange, reads.drop_last())
            is More,
        exchange_laws::run(s.write_range(offset, data).1->More_0.exchange, reads) is Done,
        exchange_laws::run(s.write_range(offset, data).1->More_0.exchange, reads)->reply is Ok,
        exchange_laws::data_in(s.write_range(offset, data).1->More_0.exchange, reads)
            == medium_answers(
            disk,
            s.geometry.block_size,
            s.write_range(offset, data).1->More_0.exchange.cbw,
        ),
    ensures
        range_progress(
            s.write_range(offset, data).0,
            s.write_range(offset, data).1->More_0,
            reads,
        ).1 matches RangeStepModel::More(second) && second.after is Finish
            && second.exchange.cbw[15] == 0x2a && medium_becomes(
            disk,
            s.geometry.block_size,
            second.exchange.cbw,
            second.exchange.outgoing,
        ) == range::splice(disk, offset, data) && (exchange_laws::run(
            second.exchange,
            writes.drop_last(),
        ) is More && exchange_laws::run(second.exchange, writes) is Done && exchange_laws::run(
            second.exchange,
            writes,
        )->reply is Ok ==> exchange_laws::bytes_out(second.exchange, writes)
            == second.exchange.cbw + second.exchange.outgoing),
{
    let (t, step) = s.write_range(offset, data);
    let first = step->More_0;
    let span = range::span_of(s.geometry, offset, data.len() as int)->Ok_0;
    let block_size = s.geometry.block_size;
    range::law_span_covers_the_range(s.geometry, offset, data.len() as int);
    lemma_span_on_medium(disk, s.geometry, offset, data.len() as int);
    lemma_block_exchange(s.scsi, span.lba as u32, span.count as u16, block_size, seq![]);
    exchange_laws::law_good_reply_is_exact(first.exchange, reads);
    lemma_range_follows_exchange(t, first, reads.drop_last());
    let y = exchange_laws::run(first.exchange, reads.drop_last())->More_0;
    let d = exchange_laws::data_in(first.exchange, reads);
    assert(y.absorb(reads.last()) == exchange_laws::run(first.exchange, reads));
    let last = RangeModel { exchange: y, after: first.after };
    law_unaligned_write_changes_only_the_range(s, offset, data, disk, t, last, reads.last());
    let w = range::splice(d, span.skip, data);
    let idle = t.scsi.resume(y, reads.last()).0;
    lemma_block_exchange(idle, span.lba as u32, span.count as u16, block_size, w);
    let second = idle.write_blocks(span.lba as u32, span.count as u16, block_size, w).1->Ok_0;
    if exchange_laws::run(second, writes.drop_last()) is More && exchange_laws::run(second, writes)
        is Done && exchange_laws::run(second, writes)->reply is Ok {
        exchange_laws::law_good_reply_is_exact(second, writes);
    }
}

/// A read of the range that was written gives what was written: on the medium
/// that a write of `data` at `offset` leaves behind, over any session that serves
/// it, a fresh one or the same, a read that succeeds ends in `data`.
pub proof fn law_read_after_write<T>(
    s: RangeSessionModel<T>,
    offset: int,
    data: Seq<u8>,
    disk: Seq<u8>,
    cs: Completions,
)
    requires
        medium(disk, s.geometry),
        0 <= offset,
        s.read_range(offset, data.len() as int).1 is More,
        exchange_laws::run(
            s.read_range(offset, data.len() as int).1->More_0.exchange,
            cs.drop_last(),
        ) is More,
        exchange_laws::run(s.read_range(offset, data.len() as int).1->More_0.exchange, cs) is Done,
        exchange_laws::run(
            s.read_range(offset, data.len() as int).1->More_0.exchange,
            cs,
        )->reply is Ok,
        exchange_laws::data_in(s.read_range(offset, data.len() as int).1->More_0.exchange, cs)
            == medium_answers(
            range::splice(disk, offset, data),
            s.geometry.block_size,
            s.read_range(offset, data.len() as int).1->More_0.exchange.cbw,
        ),
    ensures
        range_progress(
            s.read_range(offset, data.len() as int).0,
            s.read_range(offset, data.len() as int).1->More_0,
            cs,
        ).1 == RangeStepModel::Done(Ok(ResponseOf::Data(data))),
{
    law_splice_changes_only_its_range(disk, offset, data);
    law_reads_over_the_wire(
        s,
        offset,
        data.len() as int,
        range::splice(disk, offset, data),
        cs,
    );
}

/// A refused range, and any write over a read-only connection, issues no
/// command and leaves the session as it was.
pub proof fn law_refusals_issue_no_command<T>(
    s: RangeSessionModel<T>,
    offset: int,
    length: int,
    data: Seq<u8>,
)
    ensures
        range::span_of(s.geometry, offset, length) is Err ==> s.read_range(offset, length).0 == s
            && s.read_range(offset, length).1 is Done && s.read_range(offset, length).1->Done_0
            is Err,
        range::span_of(s.geometry, offset, data.len() as int) is Err || s.access
            == Access::ReadOnly ==> s.write_range(offset, data).0 == s && s.write_range(
            offset,
            data,
        ).1 is Done && s.write_range(offset, data).1->Done_0 is Err,
{
}

/// A retired session issues no command for anything that is asked of it.
pub proof fn law_retired_range_session_issues_no_command<T>(
    s: RangeSessionModel<T>,
    offset: int,
    length: int,
    data: Seq<u8>,
)
    requires
        !s.scsi.usable,
    ensures
        s.read_range(offset, length).0 == s,
        s.read_range(offset, length).1 is Done,
        s.write_range(offset, data).0 == s,
        s.write_range(offset, data).1 is Done,
        s.sync() == (s, RangeStepModel::Done(Err(Error::Retired))),
        s.eject() == (s, RangeStepModel::Done(Err(Error::Retired))),
{
}

/// An operation that ends in uncertainty, in a failed, short or misframed
/// transfer, retires the session and is not repeated.
pub proof fn law_uncertainty_retires_the_range_session<T>(
    s: RangeSessionModel<T>,
    run: RangeModel,
    c: CompletionOf<Seq<u8>>,
)
    requires
        s.scsi.awaits(run.exchange),
        run.exchange.absorb(c) matches ProgressModel::Done { reply, usable } && !usable && reply
            is Err,
    ensures
        s.resume(run, c).1 is Done,
        s.resume(run, c).1->Done_0 is Err,
        !s.resume(run, c).0.scsi.usable,
{
}

/// What a connection is for and what it measured never change.
pub proof fn law_access_and_geometry_are_fixed<T>(
    s: RangeSessionModel<T>,
    offset: int,
    length: int,
    data: Seq<u8>,
    run: RangeModel,
    c: CompletionOf<Seq<u8>>,
)
    ensures
        forall|t: RangeSessionModel<T>|
            t == s.read_range(offset, length).0 || t == s.write_range(offset, data).0 || t
                == s.sync().0 || t == s.eject().0 || t == s.resume(run, c).0 ==> #[trigger] t.access
                == s.access && t.geometry == s.geometry,
{
}

/// A new session has the access that was asked for, a medium that is served,
/// and a capacity below 2 to the 48, which every number format of a caller
/// holds exactly.
pub proof fn law_connected_session_is_bounded<T>(
    scsi: scsi::ScsiModel<T>,
    geometry: Geometry,
    access: Access,
)
    requires
        bytes::is_two_power(geometry.block_size as int),
    ensures
        range::connected(scsi, geometry, access) matches Ok(s) ==> s.wf() && s.access == access
            && 0 < range::bytes_of(s.geometry) < 0x1_0000_0000_0000,
{
    if range::connected(scsi, geometry, access) is Ok {
        range::lemma_supported(geometry);
    }
}

} // verus!
