//! What holds of every operation of a session, whatever its engine answers and
//! whenever its device fails.

use vstd::prelude::*;

use crate::engine;
use crate::engine::CallModel;
use crate::engine::CallOf;
use crate::engine::FatItemOf;
use crate::engine::InodeFacts;
use crate::engine::Layout;
use crate::engine::ReplyModel;
use crate::engine::ReplyOf;
use crate::journal;
use crate::lifecycle;
use crate::lifecycle::FinishStage;
use crate::lifecycle::InspectStage;
use crate::lifecycle::LiveStage;
use crate::lifecycle::OpenStage;
use crate::lifecycle::Summary;
use crate::list;
use crate::list::ListModel;
use crate::mutate::IntentModel;
use crate::mutate::IntentOf;
use crate::mutate::MutateModel;
use crate::mutate::MutateRunOf;
use crate::path;
use crate::read::ReadModel;
use crate::read::ReadRunOf;
use crate::session::EntryModel;
use crate::session::SessionModel;
use crate::session::StepModel;
use crate::session::MAX_ENTRIES;
use crate::session::MAX_FILE_CHUNK;
use crate::stat;
use crate::stat::StatModel;
use crate::text;

verus! {

/// An operation on a session.
pub enum Op {
    Stat(Seq<char>),
    List(Seq<char>),
    Read(Seq<char>, u64, usize),
    Create(Seq<char>),
    Write(Seq<char>, u64, Seq<u8>),
    Truncate(Seq<char>, u64),
    Mkdir(Seq<char>),
    Remove(Seq<char>),
    Rename(Seq<char>, Seq<char>),
    Inspect,
    Flush,
    FreshRead,
    Finish,
}

/// An operation in flight.
pub enum Run {
    Stat(StatModel),
    List(ListModel),
    Read(ReadModel),
    Mutate(MutateModel),
    Inspect(InspectStage),
    Live(LiveStage),
    Finish(FinishStage),
}

/// What an operation that succeeded gives.
pub enum Value {
    Nothing,
    Entry(EntryModel),
    Entries(Seq<EntryModel>),
    Bytes(Seq<u8>),
    Summary(Summary),
}

/// What an operation asks for next: a call, or nothing, because it succeeded or
/// failed.
pub enum Next {
    Call(CallModel, Run),
    Done(Result<Value, Seq<char>>),
}

/// A reply, and whether the device failed on the way to it.
pub type Event = (ReplyModel, bool);

/// A step of a lookup among all of them.
pub open spec fn stat_next(step: StepModel<StatModel, EntryModel>) -> Next {
    match step {
        StepModel::Call(call, run) => Next::Call(call, Run::Stat(run)),
        StepModel::Done(Ok(entry)) => Next::Done(Ok(Value::Entry(entry))),
        StepModel::Done(Err(e)) => Next::Done(Err(e)),
    }
}

/// A step of a listing among all of them.
pub open spec fn list_next(step: list::ListStepModel) -> Next {
    match step {
        StepModel::Call(call, run) => Next::Call(call, Run::List(run)),
        StepModel::Done(Ok(entries)) => Next::Done(Ok(Value::Entries(entries))),
        StepModel::Done(Err(e)) => Next::Done(Err(e)),
    }
}

/// A step of a read among all of them.
pub open spec fn read_next(step: crate::read::ReadStepModel) -> Next {
    match step {
        StepModel::Call(call, run) => Next::Call(call, Run::Read(run)),
        StepModel::Done(Ok(b)) => Next::Done(Ok(Value::Bytes(b))),
        StepModel::Done(Err(e)) => Next::Done(Err(e)),
    }
}

/// A step of a change among all of them.
pub open spec fn mutate_next(step: StepModel<MutateModel, ()>) -> Next {
    match step {
        StepModel::Call(call, run) => Next::Call(call, Run::Mutate(run)),
        StepModel::Done(Ok(_)) => Next::Done(Ok(Value::Nothing)),
        StepModel::Done(Err(e)) => Next::Done(Err(e)),
    }
}

/// A step of an inspection among all of them.
pub open spec fn inspect_next(step: StepModel<InspectStage, Summary>) -> Next {
    match step {
        StepModel::Call(call, run) => Next::Call(call, Run::Inspect(run)),
        StepModel::Done(Ok(summary)) => Next::Done(Ok(Value::Summary(summary))),
        StepModel::Done(Err(e)) => Next::Done(Err(e)),
    }
}

/// A step of a flush or a refresh among all of them.
pub open spec fn live_next(step: StepModel<LiveStage, ()>) -> Next {
    match step {
        StepModel::Call(call, run) => Next::Call(call, Run::Live(run)),
        StepModel::Done(Ok(_)) => Next::Done(Ok(Value::Nothing)),
        StepModel::Done(Err(e)) => Next::Done(Err(e)),
    }
}

/// A step of a finish among all of them.
pub open spec fn finish_next(step: StepModel<FinishStage, ()>) -> Next {
    match step {
        StepModel::Call(call, run) => Next::Call(call, Run::Finish(run)),
        StepModel::Done(Ok(_)) => Next::Done(Ok(Value::Nothing)),
        StepModel::Done(Err(e)) => Next::Done(Err(e)),
    }
}

/// Starts an operation.
pub open spec fn start(s: SessionModel, op: Op) -> (SessionModel, Next) {
    match op {
        Op::Stat(p) => (s, stat_next(s.stat(p))),
        Op::List(p) => (s, list_next(s.list(p))),
        Op::Read(p, o, n) => (s, read_next(s.read(p, o, n))),
        Op::Create(p) => (s.create_file(p).0, mutate_next(s.create_file(p).1)),
        Op::Write(p, o, d) => (s.write(p, o, d).0, mutate_next(s.write(p, o, d).1)),
        Op::Truncate(p, n) => (s.truncate(p, n).0, mutate_next(s.truncate(p, n).1)),
        Op::Mkdir(p) => (s.mkdir(p).0, mutate_next(s.mkdir(p).1)),
        Op::Remove(p) => (s.remove(p).0, mutate_next(s.remove(p).1)),
        Op::Rename(p, q) => (s.rename(p, q).0, mutate_next(s.rename(p, q).1)),
        Op::Inspect => (s, inspect_next(s.inspect())),
        Op::Flush => (s, live_next(s.flush())),
        Op::FreshRead => (s, live_next(s.fresh_read())),
        Op::Finish => (s.finish().0, finish_next(s.finish().1)),
    }
}

/// Takes the reply to the outstanding call of an operation.
pub open spec fn advance(s: SessionModel, run: Run, r: ReplyModel) -> (SessionModel, Next) {
    match run {
        Run::Stat(x) => (s, stat_next(x.resume(r))),
        Run::List(x) => (s, list_next(x.resume(r))),
        Run::Read(x) => (s, read_next(x.resume(r))),
        Run::Mutate(x) => (s.resume_mutation(x, r).0, mutate_next(s.resume_mutation(x, r).1)),
        Run::Inspect(x) => (s, inspect_next(s.resume_inspection(x, r))),
        Run::Live(x) => (s.resume_live(x, r).0, live_next(s.resume_live(x, r).1)),
        Run::Finish(x) => (s.resume_finish(x, r).0, finish_next(s.resume_finish(x, r).1)),
    }
}

/// Where an operation stands after these events.
pub open spec fn progress(s: SessionModel, op: Op, events: Seq<Event>) -> (SessionModel, Next)
    decreases events.len(),
{
    if events.len() == 0 {
        start(s, op)
    } else {
        let (t, next) = progress(s, op, events.drop_last());
        let (r, failed) = events.last();
        let u = if failed {
            t.retire()
        } else {
            t
        };
        match next {
            Next::Call(_, run) => advance(u, run, r),
            Next::Done(ok) => (u, Next::Done(ok)),
        }
    }
}

/// The calls that may change the volume in the course of an operation.
pub open spec fn allowed(op: Op, c: CallModel) -> bool {
    match op {
        Op::Create(p) => c == CallModel::CreateFile(path::relative(p)) || c
            == CallModel::CreateInode(p),
        Op::Write(p, o, d) => c == CallModel::WriteAll(d) || c == CallModel::FlushFile || c == (
        CallModel::WriteInode { path: p, offset: o, data: d }),
        Op::Truncate(p, n) => c == CallModel::TruncateFile || c is ShrinkInode
            && c->ShrinkInode_length == n,
        Op::Mkdir(p) => c == CallModel::CreateDirectory(path::relative(p)) || c
            == CallModel::MakeDirectory(p),
        Op::Remove(p) => c == CallModel::RemoveEntry(path::relative(p)) || c
            == CallModel::RemoveDirectory(p) || c == CallModel::Unlink(p),
        Op::Rename(p, q) => c == CallModel::RenameEntry(path::relative(p), path::relative(q)) || c
            == CallModel::RenameInode(p, q),
        Op::Flush => c == CallModel::FlushEngine || c == CallModel::FlushDevice,
        Op::FreshRead => c == CallModel::FlushEngine,
        Op::Finish => c == CallModel::Unmount || c == CallModel::FlushDevice,
        _ => false,
    }
}

/// The paths that an operation names.
pub open spec fn names(op: Op, p: Seq<char>) -> bool {
    match op {
        Op::Stat(q) => p == q,
        Op::List(q) => p == q,
        Op::Read(q, _, _) => p == q,
        Op::Create(q) => p == q,
        Op::Write(q, _, _) => p == q,
        Op::Truncate(q, _) => p == q,
        Op::Mkdir(q) => p == q,
        Op::Remove(q) => p == q,
        Op::Rename(q, r) => p == q || p == r,
        _ => false,
    }
}

/// Whether a text that an engine is handed is an accepted path of the operation,
/// whole, from the root, or the directory that holds it.
pub open spec fn confined(op: Op, t: Seq<char>) -> bool {
    exists|p: Seq<char>| #[trigger]
        names(op, p) && path::refusal(p) is None && (t == p || t == path::relative(p) || t
            == path::holder(p))
}

/// Whether every path of a call is confined.
pub open spec fn call_confined(op: Op, c: CallModel) -> bool {
    match c {
        CallOf::OpenDirectory(t) => confined(op, t),
        CallOf::OpenFile(t) => confined(op, t),
        CallOf::CreateFile(t) => confined(op, t),
        CallOf::CreateDirectory(t) => confined(op, t),
        CallOf::RemoveEntry(t) => confined(op, t),
        CallOf::RenameEntry(t, u) => confined(op, t) && confined(op, u),
        CallOf::Resolve(t) => confined(op, t),
        CallOf::CreateInode(t) => confined(op, t),
        CallOf::WriteInode { path, .. } => confined(op, path),
        CallOf::MakeDirectory(t) => confined(op, t),
        CallOf::RemoveDirectory(t) => confined(op, t),
        CallOf::Unlink(t) => confined(op, t),
        CallOf::RenameInode(t, u) => confined(op, t) && confined(op, u),
        _ => true,
    }
}

/// The intent of a lookup is that of its operation.
pub open spec fn intent_of(op: Op, i: IntentModel) -> bool {
    match op {
        Op::Create(p) => i == IntentModel::Create(p),
        Op::Write(p, o, d) => i == (IntentModel::Write { path: p, offset: o, data: d }),
        Op::Truncate(p, n) => i == (IntentModel::Truncate { path: p, length: n }),
        Op::Mkdir(p) => i == IntentModel::Mkdir(p),
        Op::Remove(p) => i == IntentModel::Remove(p),
        Op::Rename(p, q) => i == IntentModel::RenameFrom(p, q) || i == IntentModel::RenameTo(p, q),
        _ => false,
    }
}

/// The run of an operation is of its kind and holds what the operation named.
pub open spec fn run_of(op: Op, run: Run) -> bool {
    match run {
        Run::Stat(_) => op is Stat,
        Run::List(_) => op is List,
        Run::Read(_) => op is Read,
        Run::Inspect(_) => op is Inspect,
        Run::Live(x) => match x {
            LiveStage::FlushingEngine => op is Flush,
            LiveStage::FlushingDevice => op is Flush,
            LiveStage::FlushingBeforeRefresh => op is FreshRead,
            LiveStage::Refreshing => op is FreshRead,
        },
        Run::Finish(_) => op is Finish,
        Run::Mutate(x) => {
            &&& forall|p: Seq<char>| #[trigger] names(op, p) ==> path::refusal(p) is None
            &&& match x {
                MutateRunOf::Looking { intent, .. } => intent_of(op, intent),
                MutateRunOf::WriteOpening { offset, data } => op matches Op::Write(p, o, d) && offset
                    == o && data == d,
                MutateRunOf::WriteSeeking { data } => op matches Op::Write(p, o, d) && data == d,
                MutateRunOf::WriteSending => op is Write,
                MutateRunOf::CutOpening { length } => op matches Op::Truncate(p, n) && length == n,
                MutateRunOf::CutSeeking => op is Truncate,
                MutateRunOf::WriteCounting { path, offset, data } => op == Op::Write(
                    path,
                    offset,
                    data,
                ),
                MutateRunOf::CutCounting { length, size } => op matches Op::Truncate(p, n) && length
                    == n && length <= size,
                MutateRunOf::Committing => op is Create || op is Write || op is Truncate
                    || op is Mkdir || op is Remove || op is Rename,
            }
        },
    }
}

/// Whether an operation may change the volume.
pub open spec fn changes(op: Op) -> bool {
    op is Create || op is Write || op is Truncate || op is Mkdir || op is Remove || op is Rename
}

/// What holds of a step of an operation that began on session `s`.
pub open spec fn step_ok(s: SessionModel, op: Op, t: SessionModel, next: Next) -> bool {
    &&& t.kind == s.kind
    &&& t.device.size == s.device.size
    &&& t.device.writable == s.device.writable
    &&& s.device.retired ==> t.device.retired
    &&& t.opening ==> s.opening
    &&& next matches Next::Call(c, run) ==> {
        &&& run_of(op, run)
        &&& c.mutates() ==> allowed(op, c)
        &&& call_confined(op, c)
        &&& changes(op) || c.mutates() ==> s.device.writable
    }
}

proof fn lemma_named(op: Op, p: Seq<char>)
    requires
        names(op, p),
        path::refusal(p) is None,
    ensures
        confined(op, p),
        confined(op, path::relative(p)),
        confined(op, path::holder(p)),
{
}

proof fn lemma_lookup_is_confined(s: SessionModel, op: Op, p: Seq<char>)
    requires
        names(op, p),
    ensures
        s.stat(p) matches StepModel::Call(c, _) ==> call_confined(op, c) && !c.mutates(),
{
    if path::refusal(p) is None {
        lemma_named(op, p);
    }
}

proof fn lemma_lookup_goes_on(x: StatModel, op: Op, r: ReplyModel)
    ensures
        x.resume(r) matches StepModel::Call(c, _) ==> call_confined(op, c) && !c.mutates(),
{
}

proof fn lemma_act(
    s: SessionModel,
    op: Op,
    intent: IntentModel,
    found: Result<EntryModel, Seq<char>>,
)
    requires
        changes(op),
        intent_of(op, intent),
        s.device.writable,
        forall|p: Seq<char>| #[trigger] names(op, p) ==> path::refusal(p) is None,
    ensures
        ({
            let (t, step) = s.act(intent, found);
            step_ok(s, op, t, mutate_next(step))
        }),
{
    match op {
        Op::Create(p) | Op::Write(p, _, _) | Op::Truncate(p, _) | Op::Mkdir(p) | Op::Remove(p) => {
            assert(names(op, p));
            lemma_named(op, p);
        },
        Op::Rename(p, q) => {
            assert(names(op, p) && names(op, q));
            lemma_named(op, p);
            lemma_named(op, q);
        },
        _ => {},
    }
}

proof fn lemma_after_lookup(
    s: SessionModel,
    op: Op,
    intent: IntentModel,
    found: Result<EntryModel, Seq<char>>,
)
    requires
        changes(op),
        intent_of(op, intent),
        s.device.writable,
        forall|p: Seq<char>| #[trigger] names(op, p) ==> path::refusal(p) is None,
    ensures
        ({
            let (t, step) = s.after_lookup(intent, found);
            step_ok(s, op, t, mutate_next(step))
        }),
{
    lemma_act(s, op, intent, found);
    if let IntentOf::RenameFrom(from, to) = intent {
        lemma_lookup_is_confined(s, op, to);
        if let StepModel::Done(other) = s.stat(to) {
            lemma_act(s, op, IntentOf::RenameTo(from, to), other);
        }
    }
}

proof fn lemma_look(s: SessionModel, op: Op, p: Seq<char>, intent: IntentModel)
    requires
        changes(op),
        intent_of(op, intent),
        names(op, p),
        s.device.writable,
        forall|q: Seq<char>| #[trigger] names(op, q) ==> path::refusal(q) is None,
    ensures
        ({
            let (t, step) = s.look(p, intent);
            step_ok(s, op, t, mutate_next(step))
        }),
{
    lemma_lookup_is_confined(s, op, p);
    if let StepModel::Done(found) = s.stat(p) {
        lemma_after_lookup(s, op, intent, found);
    }
}

proof fn lemma_start(s: SessionModel, op: Op)
    ensures
        step_ok(s, op, start(s, op).0, start(s, op).1),
{
    match op {
        Op::Stat(p) => lemma_lookup_is_confined(s, op, p),
        Op::List(p) => if path::refusal(p) is None {
            lemma_named(op, p);
        },
        Op::Read(p, _, _) => if path::refusal(p) is None {
            lemma_named(op, p);
        },
        Op::Create(p) => if s.unwritable(p) is None && !path::is_root(p) {
            lemma_look(s, op, p, IntentOf::Create(p));
        },
        Op::Write(p, o, d) => if s.unwritable(p) is None && d.len() <= MAX_FILE_CHUNK && o + d.len()
            <= s.device.size {
            lemma_look(s, op, p, IntentOf::Write { path: p, offset: o, data: d });
        },
        Op::Truncate(p, n) => if s.unwritable(p) is None {
            lemma_look(s, op, p, IntentOf::Truncate { path: p, length: n });
        },
        Op::Mkdir(p) => if s.unwritable(p) is None {
            lemma_look(s, op, p, IntentOf::Mkdir(p));
        },
        Op::Remove(p) => if s.unwritable(p) is None && !path::is_root(p) {
            lemma_look(s, op, p, IntentOf::Remove(p));
        },
        Op::Rename(p, q) => if path::refusal(p) is None && s.unwritable(q) is None
            && !path::is_root(p) && !path::is_root(q) {
            lemma_look(s, op, p, IntentOf::RenameFrom(p, q));
        },
        _ => {},
    }
}

proof fn lemma_record_step(walk: list::WalkModel, records: Seq<(u32, Seq<u8>)>)
    ensures
        walk.next_record(records) matches StepModel::Call(c, run) ==> !c.mutates() && (c is MapBlock
            || c is ReadInode),
    decreases records.len(),
{
    if records.len() > 0 {
        lemma_record_step(walk, records.drop_first());
    }
}

proof fn lemma_list_step(x: ListModel, op: Op, r: ReplyModel)
    ensures
        x.resume(r) matches StepModel::Call(c, _) ==> call_confined(op, c) && !c.mutates(),
{
    match (x, r) {
        (ListModel::Loading(walk), ReplyOf::Bytes(block)) => {
            if let Ok(records) = crate::directory::records_of(block, walk.inode, walk.layout) {
                lemma_record_step(walk, records);
            }
        },
        (ListModel::Examining { walk, records }, ReplyOf::Inode(inode)) => {
            let entry = stat::inode_entry(
                vstd::utf8::decode_utf8(records[0].1),
                InodeFacts { number: records[0].0, ..inode },
            );
            lemma_record_step(
                list::WalkModel { entries: walk.entries.push(entry), ..walk },
                records.drop_first(),
            );
        },
        _ => {},
    }
}

proof fn lemma_mutation_step(s: SessionModel, op: Op, x: MutateModel, r: ReplyModel)
    requires
        run_of(op, Run::Mutate(x)),
        changes(op),
        s.device.writable,
    ensures
        ({
            let (t, step) = s.resume_mutation(x, r);
            step_ok(s, op, t, mutate_next(step))
        }),
{
    match x {
        MutateRunOf::Looking { lookup, intent } => {
            lemma_lookup_goes_on(lookup, op, r);
            if let StepModel::Done(found) = lookup.resume(r) {
                lemma_after_lookup(s, op, intent, found);
            }
        },
        MutateRunOf::WriteCounting { path, .. } => {
            assert(names(op, path));
            lemma_named(op, path);
        },
        _ => {},
    }
}

proof fn lemma_advance(s: SessionModel, op: Op, run: Run, r: ReplyModel)
    requires
        run_of(op, run),
        changes(op) ==> s.device.writable,
        (run is Finish || run is Live && run->Live_0 != LiveStage::Refreshing) ==> s.device.writable,
    ensures
        step_ok(s, op, advance(s, run, r).0, advance(s, run, r).1),
{
    match run {
        Run::Stat(x) => lemma_lookup_goes_on(x, op, r),
        Run::List(x) => lemma_list_step(x, op, r),
        Run::Mutate(x) => {
            assert(changes(op));
            lemma_mutation_step(s, op, x, r);
        },
        _ => {},
    }
}

/// Whether the outstanding run of an operation is one that only a writable
/// session has.
pub open spec fn needs_write(run: Run) -> bool {
    run is Mutate || run is Finish || (run is Live && run->Live_0 != LiveStage::Refreshing)
}

/// What every operation keeps, at every step, whatever the engine answers and
/// whenever the device fails:
/// - what the session is for, and the size of its device, never change;
/// - a retired device stays retired, and no operation begins an opening;
/// - every call that may change the volume is one that the operation names, on
///   the paths and with the bytes that it names;
/// - every path that an engine sees is an accepted path of the operation, or the
///   directory that holds it;
/// - an operation that changes the volume makes a call only in a session that
///   was opened for writing, and so does every call that changes it.
pub proof fn law_operations_keep_their_bounds(s: SessionModel, op: Op, events: Seq<Event>)
    ensures
        step_ok(s, op, progress(s, op, events).0, progress(s, op, events).1),
        progress(s, op, events).1 matches Next::Call(_, run) ==> needs_write(run)
            ==> s.device.writable,
    decreases events.len(),
{
    if events.len() == 0 {
        lemma_start(s, op);
    } else {
        law_operations_keep_their_bounds(s, op, events.drop_last());
        let (t, next) = progress(s, op, events.drop_last());
        let (r, failed) = events.last();
        let u = if failed {
            t.retire()
        } else {
            t
        };
        if let Next::Call(c, run) = next {
            lemma_advance(u, op, run, r);
        }
    }
}

/// A session that was opened read-only never makes a call that may change the
/// volume, in any operation.
pub proof fn law_read_only_sessions_change_nothing(s: SessionModel, op: Op, events: Seq<Event>)
    requires
        !s.device.writable,
    ensures
        progress(s, op, events).1 matches Next::Call(c, _) ==> !c.mutates(),
{
    law_operations_keep_their_bounds(s, op, events);
}

/// A session that is closed or retired makes no call: every operation fails at
/// once and leaves it as it is.
pub proof fn law_unusable_sessions_do_nothing(s: SessionModel, op: Op)
    requires
        !s.usable(),
    ensures
        start(s, op).0 == s,
        start(s, op).1 is Done,
        start(s, op).1->Done_0 is Err,
{
}

/// A call that may change the volume and fails ends the operation, as a failure,
/// and retires the session: nothing is tried again, and nothing else either.
pub proof fn law_failed_changes_retire_the_session(
    s: SessionModel,
    op: Op,
    events: Seq<Event>,
    r: ReplyModel,
)
    requires
        changes(op),
        engine::plain_outcome(r) is Err,
        progress(s, op, events).1 matches Next::Call(c, run) && c.mutates(),
    ensures
        ({
            let (t, next) = progress(s, op, events);
            let (u, end) = advance(t, next->Call_1, r);
            &&& end is Done
            &&& end->Done_0 is Err
            &&& u.device.retired
            &&& !u.usable()
        }),
{
    law_operations_keep_their_bounds(s, op, events);
    lemma_change_is_outstanding(s, op, events);
}

/// While a call that may change the volume is outstanding, the run is in one of
/// the states that fail for good.
proof fn lemma_change_is_outstanding(s: SessionModel, op: Op, events: Seq<Event>)
    requires
        changes(op),
    ensures
        progress(s, op, events).1 matches Next::Call(c, run) ==> c.mutates() ==> (run
            matches Run::Mutate(x) && (x is WriteSending || x is Committing)),
    decreases events.len(),
{
    law_operations_keep_their_bounds(s, op, events);
    if events.len() == 0 {
        lemma_lookups_change_nothing(s, op);
    } else {
        lemma_change_is_outstanding(s, op, events.drop_last());
        law_operations_keep_their_bounds(s, op, events.drop_last());
        let (t, next) = progress(s, op, events.drop_last());
        let (r, failed) = events.last();
        let u = if failed {
            t.retire()
        } else {
            t
        };
        if let Next::Call(_, Run::Mutate(MutateRunOf::Looking { lookup, intent })) = next {
            lemma_lookup_goes_on(lookup, op, r);
            if let StepModel::Done(found) = lookup.resume(r) {
                if let IntentOf::RenameFrom(from, to) = intent {
                    lemma_lookup_is_confined(u, op, to);
                }
            }
        }
    }
}

proof fn lemma_lookups_change_nothing(s: SessionModel, op: Op)
    requires
        changes(op),
    ensures
        start(s, op).1 matches Next::Call(c, run) ==> c.mutates() ==> (run matches Run::Mutate(x)
            && (x is WriteSending || x is Committing)),
{
    match op {
        Op::Create(p) => lemma_lookup_is_confined(s, op, p),
        Op::Write(p, _, _) => lemma_lookup_is_confined(s, op, p),
        Op::Truncate(p, _) => lemma_lookup_is_confined(s, op, p),
        Op::Mkdir(p) => lemma_lookup_is_confined(s, op, p),
        Op::Remove(p) => lemma_lookup_is_confined(s, op, p),
        Op::Rename(p, q) => {
            lemma_lookup_is_confined(s, op, p);
            lemma_lookup_is_confined(s, op, q);
        },
        _ => {},
    }
}

/// Where a lookup of a path stands after these events, begun in this session.
pub open spec fn looked_up(s: SessionModel, p: Seq<char>, events: Seq<Event>) -> StepModel<
    StatModel,
    EntryModel,
>
    decreases events.len(),
{
    if events.len() == 0 {
        s.stat(p)
    } else {
        match looked_up(s, p, events.drop_last()) {
            StepModel::Call(_, x) => x.resume(events.last().0),
            StepModel::Done(r) => StepModel::Done(r),
        }
    }
}

/// Whether the last of these events are those of a lookup of `p` that now stands
/// at `step`.
pub open spec fn lookup_stands(
    s: SessionModel,
    p: Seq<char>,
    events: Seq<Event>,
    step: StepModel<StatModel, EntryModel>,
) -> bool {
    exists|t: SessionModel, from: int|
        0 <= from <= events.len() && t.kind == s.kind && #[trigger] looked_up(
            t,
            p,
            events.skip(from),
        ) == step
}

/// The path that an operation would put something at.
pub open spec fn target(op: Op) -> Seq<char> {
    match op {
        Op::Create(p) => p,
        Op::Mkdir(p) => p,
        Op::Rename(_, q) => q,
        _ => seq![],
    }
}

/// Whether a call puts something at a path.
pub open spec fn places(c: CallModel) -> bool {
    c is CreateFile || c is CreateInode || c is CreateDirectory || c is MakeDirectory
        || c is RenameEntry || c is RenameInode
}

/// Whether a lookup is that of the path that something is to be put at.
pub open spec fn seeks_target(i: IntentModel) -> bool {
    i is Create || i is Mkdir || i is RenameTo
}

/// What exists is never replaced: the call that creates a file or a directory,
/// or renames, comes only right after a lookup of the very path, the
/// destination for a rename, that ended in `not found`.
pub proof fn law_nothing_is_replaced(s: SessionModel, op: Op, events: Seq<Event>)
    ensures
        progress(s, op, events).1 matches Next::Call(c, _) ==> places(c) ==> (op is Create
            || op is Mkdir || op is Rename) && lookup_stands(
            s,
            target(op),
            events,
            StepModel::Done(Err("not found"@)),
        ),
{
    lemma_lookups_are_of_the_target(s, op, events);
    law_operations_keep_their_bounds(s, op, events);
}

/// What is known of the lookup of an operation in flight, and of the call that
/// may follow it.
spec fn target_sought(s: SessionModel, op: Op, events: Seq<Event>, next: Next) -> bool {
    next matches Next::Call(c, run) ==> {
        &&& run matches Run::Mutate(MutateRunOf::Looking { lookup, intent }) ==> !places(c) && (
        seeks_target(intent) ==> lookup_stands(s, target(op), events, StepModel::Call(c, lookup)))
        &&& places(c) ==> lookup_stands(
            s,
            target(op),
            events,
            StepModel::Done(Err("not found"@)),
        )
    }
}

proof fn lemma_lookups_are_of_the_target(s: SessionModel, op: Op, events: Seq<Event>)
    ensures
        target_sought(s, op, events, progress(s, op, events).1),
        progress(s, op, events).0.kind == s.kind,
    decreases events.len(),
{
    law_operations_keep_their_bounds(s, op, events);
    if events.len() == 0 {
        assert(events =~= seq![]);
        lemma_target_at_start(s, op);
    } else {
        let before = events.drop_last();
        lemma_lookups_are_of_the_target(s, op, before);
        law_operations_keep_their_bounds(s, op, before);
        let (t, next) = progress(s, op, before);
        let (r, failed) = events.last();
        let u = if failed {
            t.retire()
        } else {
            t
        };
        if let Next::Call(c, run) = next {
            match run {
                Run::Mutate(MutateRunOf::Looking { lookup, intent }) => {
                    lemma_lookup_goes_on(lookup, op, r);
                    if seeks_target(intent) {
                        lemma_lookup_extends(
                            s,
                            target(op),
                            events,
                            StepModel::Call(c, lookup),
                        );
                    }
                    if let StepModel::Done(found) = lookup.resume(r) {
                        if let IntentOf::RenameFrom(from, to) = intent {
                            lemma_start_of_lookup(u, to);
                            lemma_lookup_is_confined(u, op, to);
                            assert(events.skip(events.len() as int) =~= seq![]);
                            assert(looked_up(u, to, events.skip(events.len() as int)) == u.stat(to));
                        }
                    }
                },
                Run::List(x) => lemma_list_step(x, op, r),
                _ => {},
            }
        }
    }
}

proof fn lemma_lookup_extends(
    s: SessionModel,
    p: Seq<char>,
    events: Seq<Event>,
    step: StepModel<StatModel, EntryModel>,
)
    requires
        0 < events.len(),
        lookup_stands(s, p, events.drop_last(), step),
        step is Call,
    ensures
        lookup_stands(s, p, events, step->Call_1.resume(events.last().0)),
{
    let before = events.drop_last();
    let (t, from) = choose|t: SessionModel, from: int|
        0 <= from <= before.len() && t.kind == s.kind && #[trigger] looked_up(
            t,
            p,
            before.skip(from),
        ) == step;
    assert(events.skip(from).drop_last() =~= before.skip(from));
    assert(looked_up(t, p, events.skip(from)) == step->Call_1.resume(events.last().0));
}

proof fn lemma_target_at_start(s: SessionModel, op: Op)
    ensures
        target_sought(s, op, seq![], start(s, op).1),
{
    let none: Seq<Event> = seq![];
    assert(none.skip(0) =~= none);
    assert(looked_up(s, target(op), none.skip(0)) == s.stat(target(op)));
    match op {
        Op::Create(p) | Op::Mkdir(p) | Op::Write(p, _, _) | Op::Truncate(p, _) | Op::Remove(p) => {
            lemma_start_of_lookup(s, p);
            lemma_lookup_is_confined(s, op, p);
        },
        Op::Rename(p, q) => {
            lemma_start_of_lookup(s, p);
            lemma_start_of_lookup(s, q);
            lemma_lookup_is_confined(s, op, p);
            lemma_lookup_is_confined(s, op, q);
        },
        _ => {},
    }
}

/// No lookup ends in `not found` before the engine has said anything.
proof fn lemma_start_of_lookup(s: SessionModel, p: Seq<char>)
    ensures
        s.stat(p) matches StepModel::Done(Err(e)) ==> e != "not found"@,
{
    reveal_strlit("not found");
    reveal_strlit("invalid filesystem path");
    reveal_strlit("invalid filesystem path component");
    reveal_strlit("filesystem session is closed or retired");
    assert("not found"@.len() == 9);
    assert("invalid filesystem path"@.len() == 23);
    assert("invalid filesystem path component"@.len() == 33);
    assert("filesystem session is closed or retired"@.len() == 39);
}

/// A write is of at most 4 MiB, lies within the device, and makes no call
/// otherwise.
pub proof fn law_writes_are_bounded(
    s: SessionModel,
    p: Seq<char>,
    offset: u64,
    data: Seq<u8>,
    events: Seq<Event>,
)
    ensures
        progress(s, Op::Write(p, offset, data), events).1 is Call ==> data.len() <= 0x40_0000
            && offset + data.len() <= s.device.size,
    decreases events.len(),
{
    if events.len() > 0 {
        law_writes_are_bounded(s, p, offset, data, events.drop_last());
    }
}

/// A write goes only to what is a regular file and has no gap before it; a cut
/// only to what is one and is longer.
pub proof fn law_only_regular_files_are_written_and_cut(
    s: SessionModel,
    p: Seq<char>,
    offset: u64,
    data: Seq<u8>,
    length: u64,
    found: EntryModel,
)
    ensures
        s.act(IntentOf::Write { path: p, offset, data }, Ok(found)).1 is Call ==> found.kind
            == "file"@ && offset <= found.size,
        s.act(IntentOf::Truncate { path: p, length }, Ok(found)).1 is Call ==> found.kind
            == "file"@ && length <= found.size,
{
}

/// A cut only shrinks, and a file that has the length already is left alone: the
/// calls that cut a file off come only where it was found longer.
pub proof fn law_cuts_only_shrink(
    s: SessionModel,
    p: Seq<char>,
    n: u64,
    x: MutateModel,
    r: ReplyModel,
    found: EntryModel,
)
    ensures
        run_of(Op::Truncate(p, n), Run::Mutate(x)) ==> (s.resume_mutation(x, r).1 matches
            StepModel::Call(c, _) ==> c is ShrinkInode ==> (x matches MutateRunOf::CutCounting {
            length,
            size,
        } && c->ShrinkInode_length == n && n < size)),
        s.act(IntentOf::Truncate { path: p, length: n }, Ok(found)).1 matches StepModel::Call(c, next)
            ==> n <= found.size && (next is CutOpening ==> n < found.size) && (next
            matches MutateRunOf::CutCounting { length, size } ==> length == n && size
            == found.size),
        s.usable() && found.kind == "file"@ && n == found.size && s.kind == engine::Kind::Fat
            ==> s.act(IntentOf::Truncate { path: p, length: n }, Ok(found)) == (
            s,
            StepModel::<MutateModel, ()>::Done(Ok(())),
        ),
{
    if let MutateRunOf::Looking { lookup, intent } = x {
        if let StepModel::Done(f) = lookup.resume(r) {
            if let IntentOf::RenameFrom(from, to) = intent {
                lemma_lookup_is_confined(s, Op::Stat(to), to);
            }
        }
    }
}

/// A file with more than one name is never written or cut on ext4: the calls
/// that would come only after its links were counted, and were one.
pub proof fn law_multiply_linked_files_are_left_alone(
    s: SessionModel,
    x: MutateModel,
    r: ReplyModel,
)
    ensures
        s.resume_mutation(x, r).1 matches StepModel::Call(c, _) ==> (c is WriteInode
            || c is ShrinkInode) ==> (r matches ReplyOf::Resolved(inode, _) && inode.links_count
            == 1 && !inode.is_link()),
{
    if let MutateRunOf::Looking { lookup, intent } = x {
        if let StepModel::Done(found) = lookup.resume(r) {
            if let IntentOf::RenameFrom(from, to) = intent {
                lemma_lookup_is_confined(s, Op::Stat(to), to);
            }
        }
    }
}

/// Symbolic links are not followed: a path that resolves to one is refused, in
/// a lookup, a listing, a read, and a change.
pub proof fn law_links_are_not_followed(
    s: SessionModel,
    inode: InodeFacts,
    layout: Layout,
    name: Seq<char>,
    offset: u64,
    length: usize,
    data: Seq<u8>,
    size: u64,
)
    requires
        inode.is_link(),
    ensures
        ({
            let r: ReplyModel = ReplyOf::Resolved(inode, layout);
            &&& StatModel::Resolving { name }.resume(r) == StepModel::<
                StatModel,
                EntryModel,
            >::Done(Err(stat::link_refusal()))
            &&& ListModel::Resolving.resume(r) == list::ListStepModel::Done(
                Err(stat::link_refusal()),
            )
            &&& ReadModel::Resolving { offset, length }.resume(r)
                == crate::read::ReadStepModel::Done(Err(stat::link_refusal()))
            &&& s.resume_mutation(
                MutateRunOf::WriteCounting { path: name, offset, data },
                r,
            ).1 is Done
            &&& s.resume_mutation(MutateRunOf::CutCounting { length: offset, size }, r).1 is Done
        }),
{
}

/// What holds of a listing in flight: it has collected at most 4096 entries, and
/// on ext4 its blocks are those of at most 16 MiB.
pub open spec fn list_bounded(x: ListModel) -> bool {
    match x {
        ListModel::Opening => true,
        ListModel::Resolving => true,
        ListModel::Scanning { entries } => entries.len() <= MAX_ENTRIES,
        ListModel::Mapping(walk) => walk_bounded(walk),
        ListModel::Loading(walk) => walk_bounded(walk),
        ListModel::Examining { walk, .. } => walk_bounded(walk) && walk.entries.len() < MAX_ENTRIES,
    }
}

/// What holds of a walk.
pub open spec fn walk_bounded(walk: list::WalkModel) -> bool {
    &&& walk.entries.len() <= MAX_ENTRIES
    &&& walk.inode.is_directory()
    &&& !walk.inode.is_inline()
    &&& walk.inode.size <= list::MAX_DIRECTORY_BYTES
}

/// What holds of a step of a listing.
pub open spec fn list_step_bounded(step: list::ListStepModel) -> bool {
    match step {
        StepModel::Call(_, x) => list_bounded(x),
        StepModel::Done(Ok(entries)) => entries.len() <= MAX_ENTRIES,
        StepModel::Done(Err(_)) => true,
    }
}

proof fn lemma_records_bounded(walk: list::WalkModel, records: Seq<(u32, Seq<u8>)>)
    requires
        walk_bounded(walk),
    ensures
        list_step_bounded(walk.next_record(records)),
    decreases records.len(),
{
    if records.len() > 0 {
        lemma_records_bounded(walk, records.drop_first());
    }
}

/// A listing holds at most 4096 entries, from a directory of at most 16 MiB that
/// keeps its entries in blocks; larger ones are refused.
pub proof fn law_listings_are_bounded(s: SessionModel, p: Seq<char>, x: ListModel, r: ReplyModel)
    ensures
        list_step_bounded(s.list(p)),
        list_bounded(x) ==> list_step_bounded(x.resume(r)),
{
    if list_bounded(x) {
        match (x, r) {
            (ListModel::Loading(walk), ReplyOf::Bytes(block)) => {
                if let Ok(records) = crate::directory::records_of(
                    block,
                    walk.inode,
                    walk.layout,
                ) {
                    lemma_records_bounded(walk, records);
                }
            },
            (ListModel::Examining { walk, records }, ReplyOf::Inode(inode)) => {
                let entry = stat::inode_entry(
                    vstd::utf8::decode_utf8(records[0].1),
                    InodeFacts { number: records[0].0, ..inode },
                );
                lemma_records_bounded(
                    list::WalkModel { entries: walk.entries.push(entry), ..walk },
                    records.drop_first(),
                );
            },
            _ => {},
        }
    }
}

/// What holds of a read of `length` bytes in flight.
pub open spec fn read_bounded(x: ReadModel, length: usize) -> bool {
    match x {
        ReadRunOf::Opening { length: n, .. } => n == length,
        ReadRunOf::Seeking { length: n } => n == length,
        ReadRunOf::Reading { collected, length: n } => n == length && collected.len() < length,
        ReadRunOf::Resolving { length: n, .. } => n == length,
        ReadRunOf::Fetching { length: n } => n == length,
    }
}

/// What holds of a step of a read.
pub open spec fn read_step_bounded(step: crate::read::ReadStepModel, length: usize) -> bool {
    match step {
        StepModel::Call(_, x) => read_bounded(x, length),
        StepModel::Done(Ok(b)) => b.len() <= length,
        StepModel::Done(Err(_)) => true,
    }
}

/// A read gives at most what was asked for, and at most 4 MiB is asked for.
pub proof fn law_reads_are_bounded(
    s: SessionModel,
    p: Seq<char>,
    offset: u64,
    length: usize,
    x: ReadModel,
    r: ReplyModel,
)
    ensures
        read_step_bounded(s.read(p, offset, length), length),
        s.read(p, offset, length) is Call ==> length <= 0x40_0000,
        read_bounded(x, length) ==> read_step_bounded(x.resume(r), length),
{
}

/// A FAT name that differs from an existing one in case alone is the existing
/// one: the lookup ends with the entry, so that an exclusive creation under the
/// alias is refused.
pub proof fn law_case_aliases_are_found(
    s: SessionModel,
    wanted: Seq<char>,
    seen: usize,
    item: FatItemOf<Seq<char>>,
    p: Seq<char>,
)
    requires
        seen < MAX_ENTRIES,
        text::uppercase(item.name) == wanted || text::uppercase(item.short_name) == wanted,
    ensures
        ({
            let lookup = StatModel::Scanning { wanted, seen };
            let r: ReplyModel = ReplyOf::Entry(Some(item));
            &&& lookup.resume(r) == StepModel::<StatModel, EntryModel>::Done(
                Ok(stat::fat_entry(item)),
            )
            &&& s.resume_mutation(
                MutateRunOf::Looking { lookup, intent: IntentOf::Create(p) },
                r,
            ) == (s, crate::mutate::refused("already exists"@))
        }),
{
}

/// Recovery is let loose on a volume only where the session was opened for
/// writing and the inspection before it found nothing against it; an inspection
/// itself, and opening for reading, change nothing. A session whose opening is
/// over, finished or not, is never opened again.
pub proof fn law_recovery_follows_a_clean_inspection(
    kind: Seq<char>,
    writable: bool,
    device_writable: bool,
    size: u64,
    s: SessionModel,
    run: OpenStage,
    r: ReplyModel,
)
    ensures
        lifecycle::opening(kind, writable, device_writable, size) matches Ok((_, first))
            ==> first matches StepModel::Call(c, _) && !c.mutates(),
        lifecycle::opening(kind, writable, device_writable, size) matches Ok((t, first))
            ==> t.device.writable == writable && (first
            == StepModel::<OpenStage, ()>::Call(CallOf::InspectExt4, OpenStage::Inspecting)
            ==> writable),
        s.resume_open(run, r).1 matches StepModel::Call(c, _) ==> run == OpenStage::Inspecting && (
        r matches ReplyOf::Superblocks(v) && journal::blocker(v) is None),
        run == OpenStage::Inspecting && r is Superblocks && journal::blocker(r->Superblocks_0)
            is Some ==> s.resume_open(run, r).1 is Done && !s.resume_open(run, r).0.mounted
            || !s.opening,
        !s.opening ==> s.resume_open(run, r) == (
            s,
            StepModel::<OpenStage, ()>::Done(Err(engine::misplaced())),
        ),
{
}

/// A write that no call fails: on FAT the file is opened, positioned at the
/// offset, given all of the bytes once, and flushed; on ext4 its links are
/// counted, and the bytes are written at the offset once.
pub proof fn law_writes_run_their_course(
    s: SessionModel,
    p: Seq<char>,
    offset: u64,
    data: Seq<u8>,
    found: EntryModel,
    inode: InodeFacts,
    layout: Layout,
)
    requires
        s.usable(),
        found.kind == "file"@,
        offset <= found.size,
        inode.links_count == 1,
        !inode.is_link(),
    ensures
        ({
            let ok: ReplyModel = ReplyOf::Done;
            let opening = MutateModel::WriteOpening { offset, data };
            let seeking = MutateModel::WriteSeeking { data };
            let counting = MutateModel::WriteCounting { path: p, offset, data };
            let first = s.act(IntentOf::Write { path: p, offset, data }, Ok(found));
            &&& s.kind == engine::Kind::Fat ==> {
                &&& first == (s, calls(CallOf::OpenFile(path::relative(p)), opening))
                &&& s.resume_mutation(opening, ok) == (s, calls(CallOf::Seek(offset), seeking))
                &&& s.resume_mutation(seeking, ok) == (
                    s,
                    calls(CallOf::WriteAll(data), MutateRunOf::WriteSending),
                )
                &&& s.resume_mutation(MutateRunOf::WriteSending, ok) == (
                    s,
                    calls(CallOf::FlushFile, MutateRunOf::Committing),
                )
            }
            &&& s.kind == engine::Kind::Ext4 ==> {
                &&& first == (s, calls(CallOf::Resolve(p), counting))
                &&& s.resume_mutation(counting, ReplyOf::Resolved(inode, layout)) == (
                    s,
                    calls(CallOf::WriteInode { path: p, offset, data }, MutateRunOf::Committing),
                )
            }
            &&& s.resume_mutation(MutateRunOf::Committing, ok) == (
                s,
                StepModel::<MutateModel, ()>::Done(Ok(())),
            )
        }),
{
}

/// A change that goes on with this call.
pub open spec fn calls(c: CallModel, x: MutateModel) -> StepModel<MutateModel, ()> {
    StepModel::Call(c, x)
}

/// A writable session is finished well only where its engine gave the mount up
/// cleanly and the device was flushed after that: neither failure is lost.
pub proof fn law_a_good_finish_is_unmounted_and_flushed(s: SessionModel, events: Seq<Event>)
    requires
        s.device.writable,
    ensures
        progress(s, Op::Finish, events).1 matches Next::Call(c, run) ==> {
            ||| events.len() == 0 && c == CallModel::Unmount && run == Run::Finish(
                FinishStage::Unmounting,
            )
            ||| events.len() == 1 && c == CallModel::FlushDevice && run == Run::Finish(
                FinishStage::Flushing,
            ) && engine::plain_outcome(events[0].0) is Ok
        },
        progress(s, Op::Finish, events).1 matches Next::Done(Ok(_)) ==> events.len() >= 2
            && engine::plain_outcome(events[0].0) is Ok && engine::plain_outcome(events[1].0)
            is Ok,
    decreases events.len(),
{
    if events.len() > 0 {
        law_a_good_finish_is_unmounted_and_flushed(s, events.drop_last());
        let before = events.drop_last();
        assert(before.len() > 0 ==> before[0] == events[0]);
        assert(before.len() > 1 ==> before[1] == events[1]);
    }
}

/// Finishing ends the session at once, whatever the engine answers later; a
/// read-only one is finished without any call.
pub proof fn law_finish_ends_the_session(s: SessionModel, events: Seq<Event>)
    ensures
        !progress(s, Op::Finish, events).0.usable(),
        !s.device.writable ==> progress(s, Op::Finish, events).1 is Done,
    decreases events.len(),
{
    if events.len() > 0 {
        law_finish_ends_the_session(s, events.drop_last());
        law_operations_keep_their_bounds(s, Op::Finish, events.drop_last());
    }
}

} // verus!
