//! The operations that can be called, and the models that the laws speak of: each
//! begins and goes on as its model does.

use vstd::prelude::*;

use crate::engine::Reply;
use crate::error::Error;
use crate::exchange::Completion;
use crate::exchange::Exchange;
use crate::exchange::ExchangeModel;
use crate::exchange::Form;
use crate::exchange::TransferOf;
use crate::lifecycle::FinishRun;
use crate::lifecycle::InspectRun;
use crate::lifecycle::LiveRun;
use crate::lifecycle::Summary;
use crate::list::ListRun;
use crate::list::Listing;
use crate::mutate::MutateRun;
use crate::mutate::MutateStep;
use crate::range::Access;
use crate::range::ConnectRun;
use crate::range::ConnectStep;
use crate::range::RangeRun;
use crate::range::RangeSession;
use crate::range::RangeStep;
use crate::read::ReadRun;
use crate::scsi::Scsi;
use crate::session::Entry;
use crate::session::Session;
use crate::session::Step;
use crate::session_laws;
use crate::session_laws::Op;
use crate::session_laws::Run;
use crate::stat::StatRun;
use crate::wire_laws;

verus! {

/// Lookups, listings, reads and inspections begin as their models do.
pub proof fn law_questions_begin_as_their_models(
    s: Session,
    value: &str,
    offset: u64,
    length: usize,
    looked: Step<StatRun, Entry>,
    listed: Step<ListRun, Listing>,
    read: Step<ReadRun, Vec<u8>>,
    inspected: Step<InspectRun, Summary>,
)
    requires
        call_ensures(Session::stat, (&s, value), looked),
        call_ensures(Session::list, (&s, value), listed),
        call_ensures(Session::read, (&s, value, offset, length), read),
        call_ensures(Session::inspect, (&s,), inspected),
    ensures
        (s@, session_laws::stat_next(looked@)) == session_laws::start(s@, Op::Stat(value@)),
        (s@, session_laws::list_next(listed@)) == session_laws::start(s@, Op::List(value@)),
        (s@, session_laws::read_next(read@)) == session_laws::start(
            s@,
            Op::Read(value@, offset, length),
        ),
        (s@, session_laws::inspect_next(inspected@)) == session_laws::start(s@, Op::Inspect),
{
}

/// Lookups, listings, reads and inspections go on as their models do.
pub proof fn law_questions_go_on_as_their_models(
    s: Session,
    reply: Reply,
    looking: StatRun,
    looked: Step<StatRun, Entry>,
    listing: ListRun,
    listed: Step<ListRun, Listing>,
    reading: ReadRun,
    read: Step<ReadRun, Vec<u8>>,
    inspecting: InspectRun,
    inspected: Step<InspectRun, Summary>,
)
    requires
        call_ensures(StatRun::resume, (looking, reply), looked),
        call_ensures(ListRun::resume, (listing, reply), listed),
        call_ensures(ReadRun::resume, (reading, reply), read),
        call_ensures(Session::resume_inspection, (&s, inspecting, reply), inspected),
    ensures
        (s@, session_laws::stat_next(looked@)) == session_laws::advance(
            s@,
            Run::Stat(looking@),
            reply@,
        ),
        (s@, session_laws::list_next(listed@)) == session_laws::advance(
            s@,
            Run::List(listing@),
            reply@,
        ),
        (s@, session_laws::read_next(read@)) == session_laws::advance(
            s@,
            Run::Read(reading@),
            reply@,
        ),
        (s@, session_laws::inspect_next(inspected@)) == session_laws::advance(
            s@,
            Run::Inspect(inspecting@),
            reply@,
        ),
{
}

/// The creation of a file begins as its model does.
pub proof fn law_creations_begin_as_their_model(
    s: Ghost<&mut Session>,
    value: &str,
    step: MutateStep,
)
    requires
        call_ensures(Session::create_file, (s@, value), step),
    ensures
        (final(s@)@, session_laws::mutate_next(step@)) == session_laws::start(old(s@)@, Op::Create(value@)),
{
}

/// A write begins as its model does.
pub proof fn law_writes_begin_as_their_model(
    s: Ghost<&mut Session>,
    value: &str,
    offset: u64,
    data: &[u8],
    step: MutateStep,
)
    requires
        call_ensures(Session::write, (s@, value, offset, data), step),
    ensures
        (final(s@)@, session_laws::mutate_next(step@)) == session_laws::start(old(s@)@, Op::Write(value@, offset, data@)),
{
}

/// A truncation begins as its model does.
pub proof fn law_truncations_begin_as_their_model(
    s: Ghost<&mut Session>,
    value: &str,
    length: u64,
    step: MutateStep,
)
    requires
        call_ensures(Session::truncate, (s@, value, length), step),
    ensures
        (final(s@)@, session_laws::mutate_next(step@)) == session_laws::start(old(s@)@, Op::Truncate(value@, length)),
{
}

/// The creation of a directory begins as its model does.
pub proof fn law_new_directories_begin_as_their_model(
    s: Ghost<&mut Session>,
    value: &str,
    step: MutateStep,
)
    requires
        call_ensures(Session::mkdir, (s@, value), step),
    ensures
        (final(s@)@, session_laws::mutate_next(step@)) == session_laws::start(old(s@)@, Op::Mkdir(value@)),
{
}

/// A removal begins as its model does.
pub proof fn law_removals_begin_as_their_model(
    s: Ghost<&mut Session>,
    value: &str,
    step: MutateStep,
)
    requires
        call_ensures(Session::remove, (s@, value), step),
    ensures
        (final(s@)@, session_laws::mutate_next(step@)) == session_laws::start(old(s@)@, Op::Remove(value@)),
{
}

/// A rename begins as its model does.
pub proof fn law_renames_begin_as_their_model(
    s: Ghost<&mut Session>,
    source: &str,
    destination: &str,
    step: MutateStep,
)
    requires
        call_ensures(Session::rename, (s@, source, destination), step),
    ensures
        (final(s@)@, session_laws::mutate_next(step@)) == session_laws::start(old(s@)@, Op::Rename(source@, destination@)),
{
}

/// A flush begins as its model does.
pub proof fn law_flushes_begin_as_their_model(
    s: Ghost<&mut Session>,
    step: Step<LiveRun, ()>,
)
    requires
        call_ensures(Session::flush, (s@,), step),
    ensures
        (final(s@)@, session_laws::live_next(step@)) == session_laws::start(old(s@)@, Op::Flush),
{
}

/// A fresh read begins as its model does.
pub proof fn law_fresh_reads_begin_as_their_model(
    s: Ghost<&mut Session>,
    step: Step<LiveRun, ()>,
)
    requires
        call_ensures(Session::fresh_read, (s@,), step),
    ensures
        (final(s@)@, session_laws::live_next(step@)) == session_laws::start(old(s@)@, Op::FreshRead),
{
}

/// A finish begins as its model does.
pub proof fn law_finishes_begin_as_their_model(
    s: Ghost<&mut Session>,
    step: Step<FinishRun, ()>,
)
    requires
        call_ensures(Session::finish, (s@,), step),
    ensures
        (final(s@)@, session_laws::finish_next(step@)) == session_laws::start(old(s@)@, Op::Finish),
{
}

/// A change goes on as its model does.
pub proof fn law_changes_go_on_as_their_model(
    s: Ghost<&mut Session>,
    run: MutateRun,
    reply: Reply,
    step: MutateStep,
)
    requires
        call_ensures(Session::resume_mutation, (s@, run, reply), step),
    ensures
        (final(s@)@, session_laws::mutate_next(step@)) == session_laws::advance(
            old(s@)@,
            Run::Mutate(run@),
            reply@,
        ),
{
}

/// A flush or a fresh read goes on as its model does.
pub proof fn law_flushes_go_on_as_their_model(
    s: Ghost<&mut Session>,
    run: LiveRun,
    reply: Reply,
    step: Step<LiveRun, ()>,
)
    requires
        call_ensures(Session::resume_live, (s@, run, reply), step),
    ensures
        (final(s@)@, session_laws::live_next(step@)) == session_laws::advance(
            old(s@)@,
            Run::Live(run@),
            reply@,
        ),
{
}

/// A finish goes on as its model does.
pub proof fn law_finishes_go_on_as_their_model(
    s: Ghost<&mut Session>,
    run: FinishRun,
    reply: Reply,
    step: Step<FinishRun, ()>,
)
    requires
        call_ensures(Session::resume_finish, (s@, run, reply), step),
    ensures
        (final(s@)@, session_laws::finish_next(step@)) == session_laws::advance(
            old(s@)@,
            Run::Finish(run@),
            reply@,
        ),
{
}

/// What a command that was opened is, taken by view.
pub open spec fn as_opened(r: Result<Exchange, Error>) -> Result<ExchangeModel, Error> {
    match r {
        Ok(x) => Ok(x@),
        Err(e) => Err(e),
    }
}

/// A sync that is called on a SCSI session sends SYNCHRONIZE CACHE(10) of the whole
/// medium first.
pub proof fn law_called_syncs_cover_the_medium<T>(
    s: Ghost<&mut Scsi<T>>,
    r: Result<Exchange, Error>,
    t: TransferOf<Vec<u8>>,
)
    requires
        old(s@)@.usable,
        call_ensures(Scsi::<T>::flush, (s@,), r),
        r is Ok ==> call_ensures(Exchange::transfer, (&r->Ok_0,), t),
    ensures
        r matches Ok(x) && wire_laws::wraps(
            old(s@)@,
            (final(s@)@, as_opened(r)),
            10,
            0,
            seq![],
            Form::Status,
        ) && wire_laws::names_blocks(x@.cbw, 0x35, 0, 0),
        t matches TransferOf::Write(w) && wire_laws::names_blocks(w@, 0x35, 0, 0),
{
    wire_laws::law_syncs_cover_the_medium(old(s@)@);
}

/// The other commands that are called on a SCSI session are those of its model.
pub proof fn law_called_commands_are_their_models<T>(
    ready: Ghost<&mut Scsi<T>>,
    inquiry: Ghost<&mut Scsi<T>>,
    sense: Ghost<&mut Scsi<T>>,
    capacity: Ghost<&mut Scsi<T>>,
    eject: Ghost<&mut Scsi<T>>,
    a: Result<Exchange, Error>,
    b: Result<Exchange, Error>,
    c: Result<Exchange, Error>,
    d: Result<Exchange, Error>,
    e: Result<Exchange, Error>,
)
    requires
        call_ensures(Scsi::<T>::test_unit_ready, (ready@,), a),
        call_ensures(Scsi::<T>::inquiry, (inquiry@,), b),
        call_ensures(Scsi::<T>::request_sense, (sense@,), c),
        call_ensures(Scsi::<T>::geometry, (capacity@,), d),
        call_ensures(Scsi::<T>::eject, (eject@,), e),
    ensures
        (final(ready@)@, as_opened(a)) == old(ready@)@.test_unit_ready(),
        (final(inquiry@)@, as_opened(b)) == old(inquiry@)@.inquiry(),
        (final(sense@)@, as_opened(c)) == old(sense@)@.request_sense(),
        (final(capacity@)@, as_opened(d)) == old(capacity@)@.geometry(),
        (final(eject@)@, as_opened(e)) == old(eject@)@.eject(),
{
}

/// The block commands that are called on a SCSI session are those of its model.
pub proof fn law_called_block_commands_are_their_models<T>(
    read: Ghost<&mut Scsi<T>>,
    write: Ghost<&mut Scsi<T>>,
    lba: u32,
    count: u16,
    block_size: u32,
    data: &[u8],
    a: Result<Exchange, Error>,
    b: Result<Exchange, Error>,
)
    requires
        call_ensures(Scsi::<T>::read_blocks, (read@, lba, count, block_size), a),
        call_ensures(Scsi::<T>::write_blocks, (write@, lba, count, block_size, data), b),
    ensures
        (final(read@)@, as_opened(a)) == old(read@)@.read_blocks(lba, count, block_size),
        (final(write@)@, as_opened(b)) == old(write@)@.write_blocks(lba, count, block_size, data@),
{
}

/// Range operations begin and go on as their models do.
pub proof fn law_called_ranges_are_their_models<T>(
    read: Ghost<&mut RangeSession<T>>,
    write: Ghost<&mut RangeSession<T>>,
    sync: Ghost<&mut RangeSession<T>>,
    eject: Ghost<&mut RangeSession<T>>,
    more: Ghost<&mut RangeSession<T>>,
    offset: u64,
    length: usize,
    data: &[u8],
    run: RangeRun,
    completion: Completion,
    a: RangeStep,
    b: RangeStep,
    c: RangeStep,
    d: RangeStep,
    e: RangeStep,
)
    requires
        call_ensures(RangeSession::<T>::read_range, (read@, offset, length), a),
        call_ensures(RangeSession::<T>::write_range, (write@, offset, data), b),
        call_ensures(RangeSession::<T>::sync, (sync@,), c),
        call_ensures(RangeSession::<T>::eject, (eject@,), d),
        call_ensures(RangeSession::<T>::resume, (more@, run, completion), e),
    ensures
        (final(read@)@, a@) == old(read@)@.read_range(offset as int, length as int),
        (final(write@)@, b@) == old(write@)@.write_range(offset as int, data@),
        (final(sync@)@, c@) == old(sync@)@.sync(),
        (final(eject@)@, d@) == old(eject@)@.eject(),
        (final(more@)@, e@) == old(more@)@.resume(run@, completion@),
{
}

/// A connection begins and goes on as its model does.
pub proof fn law_called_connections_are_their_models<T>(
    scsi: Scsi<T>,
    access: Access,
    first: ConnectStep<T>,
    run: ConnectRun<T>,
    completion: Completion,
    next: ConnectStep<T>,
)
    requires
        call_ensures(RangeSession::<T>::connect, (scsi, access), first),
        call_ensures(ConnectRun::<T>::resume, (run, completion), next),
    ensures
        first@ == crate::range::connecting(scsi@, access),
        next@ == run@.resume(completion@),
{
}

} // verus!
