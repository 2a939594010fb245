//! What is owed on a volume that has what is asked for: operations within their
//! bounds succeed, over an engine that serves its volume truthfully, does what it
//! is told, and a device that does not fail.

use vstd::prelude::*;

use crate::directory;
use crate::engine::CallModel;
use crate::engine::CallOf;
use crate::engine::FatItemOf;
use crate::engine::InodeFacts;
use crate::engine::Kind;
use crate::engine::Layout;
use crate::engine::ReplyModel;
use crate::engine::ReplyOf;
use crate::lifecycle::InspectStage;
use crate::list::ListModel;
use crate::list::ListStepModel;
use crate::list::WalkModel;
use crate::mutate::IntentModel;
use crate::mutate::MutateModel;
use crate::mutate::MutateRunOf;
use crate::path;
use crate::read::ReadRunOf;
use crate::session::EntryModel;
use crate::session::SessionModel;
use crate::session::StepModel;
use crate::session_laws;
use crate::session_laws::Event;
use crate::session_laws::Next;
use crate::session_laws::Op;
use crate::session_laws::Run;
use crate::session_laws::Value;
use crate::stat;
use crate::stat::StatModel;
use crate::stat::StatRunOf;
use crate::text;
use crate::volume;
use crate::volume::Engine;
use crate::volume::Ext4Engine;
use crate::volume::FatBody;
use crate::volume::FatEngine;
use crate::volume::FatVolume;
use crate::volume::Place;
use crate::volume_laws;

verus! {

/// Whether a call changes files or what is named.
pub open spec fn changing(c: CallModel) -> bool {
    match c {
        CallOf::WriteAll(_) => true,
        CallOf::FlushFile => true,
        CallOf::TruncateFile => true,
        CallOf::CreateFile(_) => true,
        CallOf::CreateDirectory(_) => true,
        CallOf::RemoveEntry(_) => true,
        CallOf::RenameEntry(_, _) => true,
        CallOf::CreateInode(_) => true,
        CallOf::WriteInode { .. } => true,
        CallOf::ShrinkInode { .. } => true,
        CallOf::MakeDirectory(_) => true,
        CallOf::RemoveDirectory(_) => true,
        CallOf::Unlink(_) => true,
        CallOf::RenameInode(_, _) => true,
        _ => false,
    }
}

/// Whether the engine did every change that it was told to.
pub open spec fn obeyed(s: SessionModel, op: Op, events: Seq<Event>) -> bool
    decreases events.len(),
{
    events.len() > 0 ==> {
        &&& obeyed(s, op, events.drop_last())
        &&& session_laws::progress(s, op, events.drop_last()).1 matches Next::Call(c, _) ==> (
        changing(c) ==> events.last().0 is Done || events.last().0 is Created)
    }
}

/// Whether a session takes changes.
pub open spec fn open_for_changes(s: SessionModel) -> bool {
    s.mounted && !s.device.retired && s.device.writable
}

/// Whether a lookup comes to what a path leads to: on FAT it looks through 4096
/// entries of a directory.
pub open spec fn in_sight(e: Engine, p: Seq<char>) -> bool {
    e.place(p) matches Some(Place::Fat(_, i)) ==> i < 4096
}

/// Whether a path leads to the only name of its file, as on FAT it always does.
pub open spec fn singly_linked(e: Engine, p: Seq<char>) -> bool {
    e matches Engine::Ext4(a) ==> a.volume.inodes[a.volume.names[p]].facts.links_count == 1
}

/// How many replies a lookup has had at most.
spec fn looked_for(x: StatModel) -> int {
    match x {
        StatRunOf::Scanning { seen, .. } => seen + 1,
        _ => 0,
    }
}

/// A step of a lookup of something in sight: it counts on, or finds it.
proof fn lemma_lookup_finds(
    e: FatEngine,
    p: Seq<char>,
    c: CallModel,
    x: StatModel,
    f: FatEngine,
    r: ReplyModel,
)
    requires
        path::refusal(p) is None,
        !path::is_root(p),
        volume_laws::fat_looking(e, p, c, x),
        e.answers(c, f, r),
        e.volume.place(path::relative(p)) matches Some((_, i)) && i < 4096,
    ensures
        match x.resume(r) {
            StepModel::Call(next, y) => looked_for(y) == looked_for(x) + 1 && looked_for(y) <= 4097
                && !changing(next),
            StepModel::Done(found) => found is Ok,
        },
{
    volume_laws::lemma_fat_lookup(e, p, c, x, f, r);
    volume_laws::lemma_relative(p);
}

/// Where a write in bounds stands.
spec fn write_goes_on(next: Next, n: nat) -> bool {
    match next {
        Next::Done(r) => r is Ok,
        Next::Call(c, Run::Mutate(x)) => match x {
            MutateRunOf::Looking { lookup, .. } => n == looked_for(lookup) && n <= 4097
                && !changing(c),
            MutateRunOf::WriteOpening { .. } => n <= 4098,
            MutateRunOf::WriteCounting { .. } => n <= 4098,
            MutateRunOf::WriteSeeking { .. } => n <= 4099,
            MutateRunOf::WriteSending => n <= 4100,
            MutateRunOf::Committing => n <= 4101,
            _ => false,
        },
        Next::Call(_, _) => false,
    }
}

proof fn lemma_fat_write_goes_on(
    v: FatVolume,
    s: SessionModel,
    p: Seq<char>,
    offset: u64,
    data: Seq<u8>,
    e: FatEngine,
    c: CallModel,
    run: Run,
    f: FatEngine,
    r: ReplyModel,
    n: nat,
)
    requires
        v.valid(),
        s.kind == Kind::Fat,
        open_for_changes(s),
        v.file_at(path::relative(p)) matches Some(content) && offset <= content.len(),
        v.place(path::relative(p)) matches Some((_, i)) && i < 4096,
        volume_laws::fat_write_stands(v, p, offset, data, e, Next::Call(c, run)),
        write_goes_on(Next::Call(c, run), n),
        e.answers(c, f, r),
        changing(c) ==> r is Done || r is Created,
    ensures
        session_laws::advance(s, run, r).0 == s,
        write_goes_on(session_laws::advance(s, run, r).1, n + 1),
{
    volume_laws::lemma_kinds();
    if let Run::Mutate(x) = run {
        if let MutateRunOf::Looking { lookup, intent } = x {
            volume_laws::lemma_fat_lookup(e, p, c, lookup, f, r);
            lemma_lookup_finds(e, p, c, lookup, f, r);
            volume_laws::lemma_relative(p);
            volume_laws::lemma_directory_is_there(v, path::holder(p));
            let (d, i) = v.place(path::relative(p))->0;
            volume_laws::lemma_find(v.directories[d], text::uppercase(path::final_name(p)));
            assert(v.valid_node(v.directories[d][i]));
        }
    }
}

proof fn lemma_ext4_write_goes_on(
    first: Ext4Engine,
    s: SessionModel,
    p: Seq<char>,
    offset: u64,
    data: Seq<u8>,
    e: Ext4Engine,
    c: CallModel,
    run: Run,
    f: Ext4Engine,
    r: ReplyModel,
    n: nat,
)
    requires
        first.valid(),
        s.kind == Kind::Ext4,
        open_for_changes(s),
        first.volume.file_at(p) matches Some(content) && offset <= content.len(),
        first.volume.inodes[first.volume.names[p]].facts.links_count == 1,
        volume_laws::ext4_write_stands(first, p, offset, data, e, Next::Call(c, run)),
        write_goes_on(Next::Call(c, run), n),
        e.answers(c, f, r),
        changing(c) ==> r is Done || r is Created,
    ensures
        session_laws::advance(s, run, r).0 == s,
        write_goes_on(session_laws::advance(s, run, r).1, n + 1),
{
    volume_laws::lemma_kinds();
    assert(first.volume.valid_inode(first.volume.names[p]));
}

proof fn lemma_write_goes_on(
    e: Engine,
    s: SessionModel,
    p: Seq<char>,
    offset: u64,
    data: Seq<u8>,
    events: Seq<Event>,
    after: Seq<Engine>,
)
    requires
        e.kind() == s.kind,
        e.valid(),
        open_for_changes(s),
        path::refusal(p) is None,
        e.file_at(p) matches Some(c) && offset <= c.len(),
        data.len() <= 0x40_0000,
        offset + data.len() <= s.device.size,
        in_sight(e, p),
        singly_linked(e, p),
        volume::truthful(e, s, Op::Write(p, offset, data), events, after),
        obeyed(s, Op::Write(p, offset, data), events),
    ensures
        session_laws::progress(s, Op::Write(p, offset, data), events).0 == s,
        write_goes_on(
            session_laws::progress(s, Op::Write(p, offset, data), events).1,
            events.len(),
        ),
    decreases events.len(),
{
    let op = Op::Write(p, offset, data);
    if events.len() == 0 {
        if path::is_root(p) {
            if let Engine::Fat(a) = e {
                assert(path::relative(p).len() == 0);
            }
        }
    } else {
        let before = events.drop_last();
        lemma_write_goes_on(e, s, p, offset, data, before, after.drop_last());
        volume_laws::lemma_write_stands(e, s, p, offset, data, before, after.drop_last());
        let (t, next) = session_laws::progress(s, op, before);
        let r = events.last().0;
        if let Next::Call(c, run) = next {
            match (e, volume::last_engine(e, after.drop_last()), after.last()) {
                (Engine::Fat(a), Engine::Fat(b), Engine::Fat(f)) => {
                    lemma_fat_write_goes_on(
                        a.volume,
                        t,
                        p,
                        offset,
                        data,
                        b,
                        c,
                        run,
                        f,
                        r,
                        before.len(),
                    );
                },
                (Engine::Ext4(a), Engine::Ext4(b), Engine::Ext4(f)) => {
                    lemma_ext4_write_goes_on(a, t, p, offset, data, b, c, run, f, r, before.len());
                },
                _ => {},
            }
        }
    }
}

proof fn lemma_write_begins(
    e: Engine,
    s: SessionModel,
    p: Seq<char>,
    offset: u64,
    data: Seq<u8>,
)
    requires
        e.kind() == s.kind,
        open_for_changes(s),
        path::refusal(p) is None,
        e.file_at(p) is Some,
        data.len() <= 0x40_0000,
        offset + data.len() <= s.device.size,
    ensures
        session_laws::start(s, Op::Write(p, offset, data)).1 matches Next::Call(c, _) && c
            == match e {
            Engine::Fat(_) => CallModel::OpenDirectory(path::holder(p)),
            Engine::Ext4(_) => CallModel::Resolve(p),
        },
{
    if path::is_root(p) {
        if let Engine::Fat(a) = e {
            assert(path::relative(p).len() == 0);
        }
    }
}

/// What an overwritten content holds.
proof fn lemma_overwritten(before: Seq<u8>, offset: int, data: Seq<u8>)
    requires
        0 <= offset <= before.len(),
    ensures
        ({
            let now = volume::overwrite(before, offset, data);
            &&& now.subrange(offset, offset + data.len()) == data
            &&& forall|i: int|
                0 <= i < before.len() && !(offset <= i < offset + data.len()) ==> now[i]
                    == #[trigger] before[i]
        }),
{
    let now = volume::overwrite(before, offset, data);
    assert(now.subrange(offset, offset + data.len()) =~= data);
}

/// A write in bounds is not refused: in a session that takes changes, to an
/// accepted path of a regular file that is in sight and has this one name, from
/// within it or from its end, of at most 4 MiB and within the device. It begins
/// with the lookup of the path, comes to an end after at most 4102 replies, and the
/// end is good: the file then holds the bytes where they were written,
/// nothing else is changed, and the session is what it was.
pub proof fn law_writes_in_bounds_succeed(
    e: Engine,
    s: SessionModel,
    p: Seq<char>,
    offset: u64,
    data: Seq<u8>,
    events: Seq<Event>,
    after: Seq<Engine>,
)
    requires
        e.kind() == s.kind,
        e.valid(),
        open_for_changes(s),
        path::refusal(p) is None,
        e.file_at(p) matches Some(c) && offset <= c.len(),
        data.len() <= 0x40_0000,
        offset + data.len() <= s.device.size,
        in_sight(e, p),
        singly_linked(e, p),
        volume::truthful(e, s, Op::Write(p, offset, data), events, after),
        obeyed(s, Op::Write(p, offset, data), events),
    ensures
        session_laws::start(s, Op::Write(p, offset, data)).1 matches Next::Call(c, _) && c
            == match e {
            Engine::Fat(_) => CallModel::OpenDirectory(path::holder(p)),
            Engine::Ext4(_) => CallModel::Resolve(p),
        },
        session_laws::progress(s, Op::Write(p, offset, data), events).0 == s,
        match session_laws::progress(s, Op::Write(p, offset, data), events).1 {
            Next::Call(_, _) => events.len() <= 4101,
            Next::Done(r) => {
                let before = e.file_at(p)->0;
                let now = volume::last_engine(e, after).file_at(p)->0;
                &&& r is Ok
                &&& now.subrange(offset as int, offset + data.len()) == data
                &&& forall|i: int|
                    0 <= i < before.len() && !(offset <= i < offset + data.len()) ==> now[i]
                        == #[trigger] before[i]
                &&& now.len() == if offset + data.len() <= before.len() {
                    before.len() as int
                } else {
                    offset + data.len()
                }
                &&& e.rewrites(p, now, volume::last_engine(e, after))
            },
        },
{
    let op = Op::Write(p, offset, data);
    lemma_write_goes_on(e, s, p, offset, data, events, after);
    lemma_write_begins(e, s, p, offset, data);
    if session_laws::progress(s, op, events).1 is Done {
        volume_laws::law_writes_change_only_the_file(e, s, p, offset, data, events, after);
        lemma_overwritten(e.file_at(p)->0, offset as int, data);
    }
}

/// Where a cut within a file stands.
spec fn cut_goes_on(next: Next, n: nat) -> bool {
    match next {
        Next::Done(r) => r is Ok,
        Next::Call(c, Run::Mutate(x)) => match x {
            MutateRunOf::Looking { lookup, .. } => n == looked_for(lookup) && n <= 4097
                && !changing(c),
            MutateRunOf::CutOpening { .. } => n <= 4098,
            MutateRunOf::CutCounting { .. } => n <= 4098,
            MutateRunOf::CutSeeking => n <= 4099,
            MutateRunOf::Committing => n <= 4100,
            _ => false,
        },
        Next::Call(_, _) => false,
    }
}

proof fn lemma_fat_cut_goes_on(
    first: FatEngine,
    s: SessionModel,
    p: Seq<char>,
    length: u64,
    e: FatEngine,
    c: CallModel,
    run: Run,
    f: FatEngine,
    r: ReplyModel,
    n: nat,
)
    requires
        first.volume.valid(),
        s.kind == Kind::Fat,
        open_for_changes(s),
        first.volume.file_at(path::relative(p)) matches Some(content) && length <= content.len(),
        first.volume.place(path::relative(p)) matches Some((_, i)) && i < 4096,
        volume_laws::fat_cut_stands(first, p, length, e, Next::Call(c, run)),
        cut_goes_on(Next::Call(c, run), n),
        e.answers(c, f, r),
        changing(c) ==> r is Done || r is Created,
    ensures
        session_laws::advance(s, run, r).0 == s,
        cut_goes_on(session_laws::advance(s, run, r).1, n + 1),
{
    volume_laws::lemma_kinds();
    let v = first.volume;
    if let Run::Mutate(MutateRunOf::Looking { lookup, intent }) = run {
        volume_laws::lemma_fat_lookup(e, p, c, lookup, f, r);
        lemma_lookup_finds(e, p, c, lookup, f, r);
        volume_laws::lemma_relative(p);
        volume_laws::lemma_directory_is_there(v, path::holder(p));
        let (d, i) = v.place(path::relative(p))->0;
        volume_laws::lemma_find(v.directories[d], text::uppercase(path::final_name(p)));
        assert(v.valid_node(v.directories[d][i]));
    }
}

proof fn lemma_ext4_cut_goes_on(
    first: Ext4Engine,
    s: SessionModel,
    p: Seq<char>,
    length: u64,
    e: Ext4Engine,
    c: CallModel,
    run: Run,
    f: Ext4Engine,
    r: ReplyModel,
    n: nat,
)
    requires
        first.valid(),
        s.kind == Kind::Ext4,
        open_for_changes(s),
        first.volume.file_at(p) matches Some(content) && length <= content.len(),
        first.volume.inodes[first.volume.names[p]].facts.links_count == 1,
        volume_laws::ext4_cut_stands(first, p, length, e, Next::Call(c, run)),
        cut_goes_on(Next::Call(c, run), n),
        e.answers(c, f, r),
        changing(c) ==> r is Done || r is Created,
    ensures
        session_laws::advance(s, run, r).0 == s,
        cut_goes_on(session_laws::advance(s, run, r).1, n + 1),
{
    volume_laws::lemma_kinds();
    assert(first.volume.valid_inode(first.volume.names[p]));
}

proof fn lemma_cut_goes_on(
    e: Engine,
    s: SessionModel,
    p: Seq<char>,
    length: u64,
    events: Seq<Event>,
    after: Seq<Engine>,
)
    requires
        e.kind() == s.kind,
        e.valid(),
        open_for_changes(s),
        path::refusal(p) is None,
        e.file_at(p) matches Some(c) && length <= c.len(),
        in_sight(e, p),
        singly_linked(e, p),
        volume::truthful(e, s, Op::Truncate(p, length), events, after),
        obeyed(s, Op::Truncate(p, length), events),
    ensures
        session_laws::progress(s, Op::Truncate(p, length), events).0 == s,
        cut_goes_on(session_laws::progress(s, Op::Truncate(p, length), events).1, events.len()),
        events.len() == 0 ==> session_laws::progress(s, Op::Truncate(p, length), events).1 is Call,
    decreases events.len(),
{
    let op = Op::Truncate(p, length);
    if events.len() == 0 {
        if path::is_root(p) {
            if let Engine::Fat(a) = e {
                assert(path::relative(p).len() == 0);
            }
        }
    } else {
        let before = events.drop_last();
        lemma_cut_goes_on(e, s, p, length, before, after.drop_last());
        volume_laws::lemma_cut_stands(e, s, p, length, before, after.drop_last());
        let (t, next) = session_laws::progress(s, op, before);
        let r = events.last().0;
        if let Next::Call(c, run) = next {
            match (e, volume::last_engine(e, after.drop_last()), after.last()) {
                (Engine::Fat(a), Engine::Fat(b), Engine::Fat(f)) => {
                    lemma_fat_cut_goes_on(a, t, p, length, b, c, run, f, r, before.len());
                },
                (Engine::Ext4(a), Engine::Ext4(b), Engine::Ext4(f)) => {
                    lemma_ext4_cut_goes_on(a, t, p, length, b, c, run, f, r, before.len());
                },
                _ => {},
            }
        }
    }
}

/// A truncation to a length that the file has is not refused: in a session that
/// takes changes, of an accepted path of a regular file that is in sight and has
/// this one name. It comes to an end after at most 4101 replies, and the end is
/// good: the file then holds its first `length` bytes, nothing else is changed, and
/// the session is what it was.
pub proof fn law_truncations_in_bounds_succeed(
    e: Engine,
    s: SessionModel,
    p: Seq<char>,
    length: u64,
    events: Seq<Event>,
    after: Seq<Engine>,
)
    requires
        e.kind() == s.kind,
        e.valid(),
        open_for_changes(s),
        path::refusal(p) is None,
        e.file_at(p) matches Some(c) && length <= c.len(),
        in_sight(e, p),
        singly_linked(e, p),
        volume::truthful(e, s, Op::Truncate(p, length), events, after),
        obeyed(s, Op::Truncate(p, length), events),
    ensures
        session_laws::progress(s, Op::Truncate(p, length), events).0 == s,
        match session_laws::progress(s, Op::Truncate(p, length), events).1 {
            Next::Call(_, _) => events.len() <= 4100,
            Next::Done(r) => r is Ok && 0 < events.len() && e.rewrites(
                p,
                e.file_at(p)->0.subrange(0, length as int),
                volume::last_engine(e, after),
            ),
        },
{
    lemma_cut_goes_on(e, s, p, length, events, after);
    if session_laws::progress(s, Op::Truncate(p, length), events).1 is Done {
        volume_laws::law_truncations_keep_the_start(e, s, p, length, events, after);
        assert(e.file_at(p)->0.take(length as int) =~= e.file_at(p)->0.subrange(0, length as int));
    }
}

/// Whether the directory that would hold a path is there, and on FAT small enough
/// to be looked through.
pub open spec fn has_room(e: Engine, p: Seq<char>) -> bool {
    match e {
        Engine::Fat(a) => a.volume.directory_at(path::holder(p)) matches Some(d)
            && a.volume.directories[d].len() <= 4096,
        Engine::Ext4(a) => a.volume.has_directory(volume::above(p)),
    }
}

/// A step of a lookup where nothing is: it counts on, or finds nothing.
proof fn lemma_lookup_misses(
    e: Engine,
    p: Seq<char>,
    c: CallModel,
    x: StatModel,
    f: Engine,
    r: ReplyModel,
)
    requires
        path::refusal(p) is None,
        !path::is_root(p),
        volume_laws::looking(e, p, c, x),
        e.answers(c, f, r),
        e.place(p) is None,
        has_room(e, p),
    ensures
        match x.resume(r) {
            StepModel::Call(next, y) => looked_for(y) == looked_for(x) + 1 && looked_for(y) <= 4097
                && !changing(next),
            StepModel::Done(found) => found == Err::<EntryModel, Seq<char>>("not found"@),
        },
{
    if let (Engine::Fat(a), Engine::Fat(b)) = (e, f) {
        volume_laws::lemma_fat_lookup(a, p, c, x, b, r);
        volume_laws::lemma_relative(p);
    }
}

/// A step of a lookup of something in sight that is not a link: it counts on, or
/// finds it.
proof fn lemma_lookup_hits(
    e: Engine,
    p: Seq<char>,
    c: CallModel,
    x: StatModel,
    f: Engine,
    r: ReplyModel,
)
    requires
        path::refusal(p) is None,
        !path::is_root(p),
        volume_laws::looking(e, p, c, x),
        e.answers(c, f, r),
        e.place(p) is Some,
        in_sight(e, p),
        no_link(e, p),
    ensures
        match x.resume(r) {
            StepModel::Call(next, y) => looked_for(y) == looked_for(x) + 1 && looked_for(y) <= 4097
                && !changing(next),
            StepModel::Done(found) => found is Ok,
        },
{
    if let (Engine::Fat(a), Engine::Fat(b)) = (e, f) {
        lemma_lookup_finds(a, p, c, x, b, r);
    }
}

/// Where a creation stands that nothing is in the way of.
spec fn create_goes_on(next: Next, n: nat) -> bool {
    match next {
        Next::Done(r) => r is Ok,
        Next::Call(c, Run::Mutate(x)) => match x {
            MutateRunOf::Looking { lookup, .. } => n == looked_for(lookup) && n <= 4097
                && !changing(c),
            MutateRunOf::Committing => n <= 4098,
            _ => false,
        },
        Next::Call(_, _) => false,
    }
}

proof fn lemma_create_goes_on(
    e: Engine,
    s: SessionModel,
    op: Op,
    p: Seq<char>,
    events: Seq<Event>,
    after: Seq<Engine>,
)
    requires
        op == Op::Create(p) || op == Op::Mkdir(p),
        e.kind() == s.kind,
        open_for_changes(s),
        path::refusal(p) is None,
        !path::is_root(p),
        e.place(p) is None,
        has_room(e, p),
        volume::truthful(e, s, op, events, after),
        obeyed(s, op, events),
    ensures
        session_laws::progress(s, op, events).0 == s,
        create_goes_on(session_laws::progress(s, op, events).1, events.len()),
        events.len() == 0 ==> session_laws::progress(s, op, events).1 is Call,
    decreases events.len(),
{
    if events.len() > 0 {
        let before = events.drop_last();
        lemma_create_goes_on(e, s, op, p, before, after.drop_last());
        volume_laws::lemma_create_stands(e, s, op, p, before, after.drop_last());
        let now = volume::last_engine(e, after.drop_last());
        if let Next::Call(c, Run::Mutate(MutateRunOf::Looking { lookup, intent })) =
            session_laws::progress(s, op, before).1 {
            lemma_lookup_misses(now, p, c, lookup, after.last(), events.last().0);
        }
    }
}

/// A file or a directory is created where nothing is, in a directory that is there:
/// in a session that takes changes, at an accepted path other than the root. The
/// creation comes to an end after at most 4099 replies, and the end is good: the
/// path then leads to what was asked for, which is empty, and the session is what
/// it was.
pub proof fn law_creations_in_bounds_succeed(
    e: Engine,
    s: SessionModel,
    op: Op,
    p: Seq<char>,
    events: Seq<Event>,
    after: Seq<Engine>,
)
    requires
        op == Op::Create(p) || op == Op::Mkdir(p),
        e.kind() == s.kind,
        open_for_changes(s),
        path::refusal(p) is None,
        p != seq!['/'],
        e.place(p) is None,
        has_room(e, p),
        volume::truthful(e, s, op, events, after),
        obeyed(s, op, events),
    ensures
        session_laws::progress(s, op, events).0 == s,
        match session_laws::progress(s, op, events).1 {
            Next::Call(_, _) => events.len() <= 4098,
            Next::Done(r) => r is Ok && 0 < events.len() && volume::last_engine(
                e,
                after,
            ).thing_at(p) == Some(
                (
                    if op is Create {
                        "file"@
                    } else {
                        "directory"@
                    },
                    Seq::<u8>::empty(),
                ),
            ),
        },
{
    lemma_create_goes_on(e, s, op, p, events, after);
    if session_laws::progress(s, op, events).1 is Done {
        volume_laws::law_creations_add_one_entry(e, s, op, p, events, after);
    }
}

/// Whether a path leads to something other than a symbolic link.
pub open spec fn no_link(e: Engine, p: Seq<char>) -> bool {
    e matches Engine::Ext4(a) ==> a.volume.inodes[a.volume.names[p]].facts.mode / 0x1000 != 10
}

proof fn lemma_remove_goes_on(
    e: Engine,
    s: SessionModel,
    p: Seq<char>,
    events: Seq<Event>,
    after: Seq<Engine>,
)
    requires
        e.kind() == s.kind,
        open_for_changes(s),
        path::refusal(p) is None,
        !path::is_root(p),
        e.place(p) is Some,
        in_sight(e, p),
        no_link(e, p),
        volume::truthful(e, s, Op::Remove(p), events, after),
        obeyed(s, Op::Remove(p), events),
    ensures
        session_laws::progress(s, Op::Remove(p), events).0 == s,
        create_goes_on(session_laws::progress(s, Op::Remove(p), events).1, events.len()),
        events.len() == 0 ==> session_laws::progress(s, Op::Remove(p), events).1 is Call,
    decreases events.len(),
{
    if events.len() > 0 {
        let before = events.drop_last();
        lemma_remove_goes_on(e, s, p, before, after.drop_last());
        volume_laws::lemma_remove_stands(e, s, p, before, after.drop_last());
        let now = volume::last_engine(e, after.drop_last());
        if let Next::Call(c, Run::Mutate(MutateRunOf::Looking { lookup, intent })) =
            session_laws::progress(s, Op::Remove(p), before).1 {
            lemma_lookup_hits(now, p, c, lookup, after.last(), events.last().0);
        }
    }
}

/// What is there is removed, where the engine removes it: in a session that takes
/// changes, at an accepted path other than the root that leads to something in
/// sight that is no symbolic link. The removal comes to an end after at most 4099
/// replies, and the end is good: the path then leads nowhere, and the session is
/// what it was.
pub proof fn law_removals_in_bounds_succeed(
    e: Engine,
    s: SessionModel,
    p: Seq<char>,
    events: Seq<Event>,
    after: Seq<Engine>,
)
    requires
        e.kind() == s.kind,
        e.valid(),
        open_for_changes(s),
        path::refusal(p) is None,
        p != seq!['/'],
        e.place(p) is Some,
        in_sight(e, p),
        no_link(e, p),
        volume::truthful(e, s, Op::Remove(p), events, after),
        obeyed(s, Op::Remove(p), events),
    ensures
        session_laws::progress(s, Op::Remove(p), events).0 == s,
        match session_laws::progress(s, Op::Remove(p), events).1 {
            Next::Call(_, _) => events.len() <= 4098,
            Next::Done(r) => r is Ok && 0 < events.len() && volume::last_engine(e, after).place(
                p,
            ) is None,
        },
{
    lemma_remove_goes_on(e, s, p, events, after);
    if session_laws::progress(s, Op::Remove(p), events).1 is Done {
        volume_laws::law_removals_take_one_entry(e, s, p, events, after);
    }
}

/// Where a rename stands that nothing is in the way of.
spec fn rename_goes_on(next: Next, n: nat) -> bool {
    match next {
        Next::Done(r) => r is Ok,
        Next::Call(c, Run::Mutate(x)) => match x {
            MutateRunOf::Looking { lookup, intent } => !changing(c) && looked_for(lookup) <= 4097
                && if intent is RenameFrom {
                n == looked_for(lookup)
            } else {
                n <= 4098 + looked_for(lookup)
            },
            MutateRunOf::Committing => n <= 8196,
            _ => false,
        },
        Next::Call(_, _) => false,
    }
}

proof fn lemma_rename_goes_on(
    e: Engine,
    s: SessionModel,
    from: Seq<char>,
    to: Seq<char>,
    events: Seq<Event>,
    after: Seq<Engine>,
)
    requires
        e.kind() == s.kind,
        open_for_changes(s),
        path::refusal(from) is None,
        path::refusal(to) is None,
        !path::is_root(from),
        !path::is_root(to),
        e.place(from) is Some,
        in_sight(e, from),
        no_link(e, from),
        e.place(to) is None,
        has_room(e, to),
        volume::truthful(e, s, Op::Rename(from, to), events, after),
        obeyed(s, Op::Rename(from, to), events),
    ensures
        session_laws::progress(s, Op::Rename(from, to), events).0 == s,
        rename_goes_on(session_laws::progress(s, Op::Rename(from, to), events).1, events.len()),
        events.len() == 0 ==> session_laws::progress(s, Op::Rename(from, to), events).1 is Call,
    decreases events.len(),
{
    let op = Op::Rename(from, to);
    if events.len() > 0 {
        let before = events.drop_last();
        lemma_rename_goes_on(e, s, from, to, before, after.drop_last());
        volume_laws::lemma_rename_stands(e, s, from, to, before, after.drop_last());
        let now = volume::last_engine(e, after.drop_last());
        if let Next::Call(c, Run::Mutate(MutateRunOf::Looking { lookup, intent })) =
            session_laws::progress(s, op, before).1 {
            if intent == IntentModel::RenameFrom(from, to) {
                lemma_lookup_hits(now, from, c, lookup, after.last(), events.last().0);
            } else {
                lemma_lookup_misses(now, to, c, lookup, after.last(), events.last().0);
            }
        }
    }
}

/// What is there is renamed to where nothing is, in a directory that is there: in a
/// session that takes changes, between accepted paths other than the root, of which
/// the first leads to something in sight that is no symbolic link. The rename comes
/// to an end after at most 8197 replies, the end is good, and the session is what it
/// was.
pub proof fn law_renames_in_bounds_succeed(
    e: Engine,
    s: SessionModel,
    from: Seq<char>,
    to: Seq<char>,
    events: Seq<Event>,
    after: Seq<Engine>,
)
    requires
        e.kind() == s.kind,
        e.valid(),
        open_for_changes(s),
        path::refusal(from) is None,
        path::refusal(to) is None,
        from != seq!['/'],
        to != seq!['/'],
        e.place(from) is Some,
        in_sight(e, from),
        no_link(e, from),
        e.place(to) is None,
        has_room(e, to),
        volume::truthful(e, s, Op::Rename(from, to), events, after),
        obeyed(s, Op::Rename(from, to), events),
    ensures
        session_laws::progress(s, Op::Rename(from, to), events).0 == s,
        match session_laws::progress(s, Op::Rename(from, to), events).1 {
            Next::Call(_, _) => events.len() <= 8196,
            Next::Done(r) => r is Ok && 0 < events.len() && (!e.through(to, from)
                ==> volume::last_engine(e, after).thing_at(to) == e.thing_at(from)),
        },
{
    lemma_rename_goes_on(e, s, from, to, events, after);
    if session_laws::progress(s, Op::Rename(from, to), events).1 is Done {
        if !e.through(to, from) {
            volume_laws::law_renames_move_one_entry(e, s, from, to, events, after);
        }
    }
}

/// Whether an entry says what the volume has at a path: on FAT its own name, and a
/// size if it is a file; on ext4 the last name of the path, and what the inode says.
pub open spec fn says(e: Engine, p: Seq<char>, entry: EntryModel) -> bool {
    match e {
        Engine::Fat(a) => {
            &&& a.volume.node_at(path::relative(p)) matches Some(n)
            &&& entry.name == n.name
            &&& entry.inode is None
            &&& entry.generation is None
            &&& match n.body {
                FatBody::File(c) => entry.kind == "file"@ && entry.size == c.len(),
                FatBody::Directory(_) => entry.kind == "directory"@ && entry.size == 0,
            }
        },
        Engine::Ext4(a) => {
            let facts = a.volume.inodes[a.volume.names[p]].facts;
            &&& a.volume.names.contains_key(p)
            &&& !entry.name.contains('/')
            &&& exists|dir: Seq<char>| p == #[trigger] (dir + seq!['/']) + entry.name
            &&& entry.kind == if facts.mode / 0x1000 == 10 {
                "symlink"@
            } else if facts.mode / 0x1000 == 4 {
                "directory"@
            } else if facts.mode / 0x1000 == 8 {
                "file"@
            } else {
                "other"@
            }
            &&& entry.size == facts.size
            &&& entry.inode == Some(a.volume.names[p])
            &&& entry.generation == Some(facts.generation)
        },
    }
}

/// The last name of an accepted path.
proof fn lemma_last_name(p: Seq<char>)
    requires
        0 < p.len(),
        p[0] == '/',
    ensures
        !path::final_name(p).contains('/'),
        exists|dir: Seq<char>| p == #[trigger] (dir + seq!['/']) + path::final_name(p),
{
    path::lemma_last_slash(p);
    let at = path::last_slash(p);
    let dir = p.subrange(0, at);
    assert(p =~= (dir + seq!['/']) + path::final_name(p));
}

/// What is there is found, and told as it is: in a session that takes operations, at
/// an accepted path other than the root that leads to something in sight. A symbolic
/// link is refused instead. The lookup comes to an end after at most 4098 replies.
pub proof fn law_lookups_tell_what_is_there(
    e: Engine,
    s: SessionModel,
    p: Seq<char>,
    events: Seq<Event>,
    after: Seq<Engine>,
)
    requires
        e.kind() == s.kind,
        e.valid(),
        s.mounted,
        !s.device.retired,
        path::refusal(p) is None,
        p != seq!['/'],
        e.place(p) is Some,
        in_sight(e, p),
        volume::truthful(e, s, Op::Stat(p), events, after),
    ensures
        match session_laws::progress(s, Op::Stat(p), events).1 {
            Next::Call(_, _) => events.len() <= 4097,
            Next::Done(r) => if no_link(e, p) {
                r matches Ok(Value::Entry(entry)) && says(e, p, entry)
            } else {
                r is Err
            },
        },
{
    volume_laws::lemma_stat_stands(e, s, p, events, after);
    volume_laws::lemma_relative(p);
    lemma_last_name(p);
    match e {
        Engine::Fat(a) => {
            let v = a.volume;
            volume_laws::lemma_directory_is_there(v, path::holder(p));
            let (d, i) = v.place(path::relative(p))->0;
            volume_laws::lemma_find(v.directories[d], text::uppercase(path::final_name(p)));
            assert(v.valid_node(v.directories[d][i]));
        },
        Engine::Ext4(a) => {
            assert(a.volume.valid_inode(a.volume.names[p]));
        },
    }
}

/// The root is found as well: on FAT without a call, as a directory.
pub proof fn law_the_root_is_found(s: SessionModel)
    requires
        s.mounted,
        !s.device.retired,
    ensures
        ({
            let next = session_laws::start(s, Op::Stat(seq!['/'])).1;
            match s.kind {
                Kind::Fat => next matches Next::Done(Ok(Value::Entry(entry))) && entry.name == "/"@
                    && entry.kind == "directory"@ && entry.size == 0 && entry.inode is None
                    && entry.generation is None,
                Kind::Ext4 => next matches Next::Call(c, _) && c == CallModel::Resolve(seq!['/']),
            }
        }),
{
}

/// A read of at most 4 MiB of a regular file is not refused, in a session that takes
/// operations and at an accepted path. It begins with a call that changes nothing,
/// comes to an end after at most `length + 3` replies, and gives what the file holds
/// from `offset`: as many bytes as were asked for, or as there are.
pub proof fn law_reads_in_bounds_succeed(
    e: Engine,
    s: SessionModel,
    p: Seq<char>,
    offset: u64,
    length: usize,
    events: Seq<Event>,
    after: Seq<Engine>,
)
    requires
        e.kind() == s.kind,
        s.mounted,
        !s.device.retired,
        path::refusal(p) is None,
        length <= 0x40_0000,
        e.file_at(p) is Some,
        volume::truthful(e, s, Op::Read(p, offset, length), events, after),
    ensures
        session_laws::start(s, Op::Read(p, offset, length)).1 matches Next::Call(c, _)
            && !changing(c),
        volume::last_engine(e, after).same_volume(e),
        match session_laws::progress(s, Op::Read(p, offset, length), events).1 {
            Next::Call(_, _) => events.len() <= length + 2,
            Next::Done(r) => {
                let content = e.file_at(p)->0;
                &&& r matches Ok(Value::Bytes(b))
                &&& b.len() <= length
                &&& b.len() == length || b.len() == 0 || offset + b.len() == content.len()
                &&& b.len() == 0 ==> length == 0 || content.len() <= offset
                &&& forall|i: int|
                    0 <= i < b.len() ==> offset + i < content.len() && #[trigger] b[i]
                        == content[offset + i]
            },
        },
{
    volume_laws::law_reads_give_the_file(e, s, p, offset, length, events, after);
}

/// A read of more than 4 MiB, a write of more, and a write past the end of the
/// device, are refused without a call, and leave the session as it was.
pub proof fn law_ranges_out_of_bounds_are_refused(
    s: SessionModel,
    p: Seq<char>,
    offset: u64,
    length: usize,
    data: Seq<u8>,
)
    ensures
        length > 0x40_0000 ==> session_laws::start(s, Op::Read(p, offset, length)).0 == s && (
        session_laws::start(s, Op::Read(p, offset, length)).1 matches Next::Done(Err(_))),
        data.len() > 0x40_0000 || offset + data.len() > s.device.size ==> session_laws::start(
            s,
            Op::Write(p, offset, data),
        ).0 == s && (session_laws::start(s, Op::Write(p, offset, data)).1 matches Next::Done(
            Err(_),
        )),
{
}

/// An operation at a path that is not accepted ends without a call, with the reason
/// for which the path is not, and leaves the session as it was.
pub proof fn law_refused_paths_go_no_further(s: SessionModel, op: Op, p: Seq<char>, why: Seq<char>)
    requires
        session_laws::names(op, p),
        path::refusal(p) == Some(why),
        op matches Op::Rename(from, _) ==> p == from,
    ensures
        session_laws::start(s, op) == (s, Next::Done(Err(why))),
{
}

/// What the engine fails at, the operation fails at, for the engine's reason, but
/// for one: where something is to be put at a path, that nothing was found there is
/// no failure. A failed change retires the session.
pub proof fn law_failures_are_passed_on(
    s: SessionModel,
    op: Op,
    events: Seq<Event>,
    why: Seq<char>,
)
    requires
        why != "not found"@,
    ensures
        session_laws::progress(s, op, events).1 matches Next::Call(c, run) ==> {
            let (t, next) = session_laws::advance(
                session_laws::progress(s, op, events).0,
                run,
                ReplyModel::Failed(why),
            );
            &&& next matches Next::Done(r)
            &&& c == CallModel::NextEntry ==> r is Err
            &&& c != CallModel::NextEntry ==> r == Err::<Value, Seq<char>>(why)
            &&& changing(c) ==> t.device.retired
        },
{
    session_laws::law_operations_keep_their_bounds(s, op, events);
    lemma_scans_wait_for_entries(s, op, events);
    if let Next::Call(c, Run::Mutate(x)) = session_laws::progress(s, op, events).1 {
        if let MutateRunOf::Looking { lookup, intent } = x {
            lemma_lookups_are_passed_on(lookup, why);
        }
    }
}

/// A lookup that the engine fails at is over.
proof fn lemma_lookups_are_passed_on(x: StatModel, why: Seq<char>)
    requires
        why != "not found"@,
    ensures
        x.resume(ReplyModel::Failed(why)) matches StepModel::Done(Err(e)) && e != "not found"@ && (x
            is Scanning || e == why),
{
    reveal_strlit("not found");
    reveal_strlit("directory entry limit exceeded");
    assert("not found"@.len() == 9);
    assert("directory entry limit exceeded"@.len() == 30);
}

/// Whether a step that goes through entries waits for the next one, and one that
/// looks something up changes nothing.
spec fn scans(next: Next) -> bool {
    match next {
        Next::Call(c, Run::Stat(x)) => !changing(c) && (x is Scanning ==> c
            == CallModel::NextEntry),
        Next::Call(c, Run::Mutate(MutateRunOf::Looking { lookup, .. })) => !changing(c) && (lookup
            is Scanning ==> c == CallModel::NextEntry),
        Next::Call(c, Run::List(_)) => !changing(c),
        Next::Call(c, Run::Read(_)) => !changing(c),
        Next::Call(c, Run::Inspect(_)) => !changing(c),
        Next::Call(c, Run::Finish(_)) => !changing(c),
        _ => true,
    }
}

proof fn lemma_scans_wait_for_entries(s: SessionModel, op: Op, events: Seq<Event>)
    ensures
        scans(session_laws::progress(s, op, events).1),
    decreases events.len(),
{
    if events.len() > 0 {
        lemma_scans_wait_for_entries(s, op, events.drop_last());
        let (t, next) = session_laws::progress(s, op, events.drop_last());
        if let Next::Call(c, Run::List(x)) = next {
            lemma_listings_change_nothing(x, events.last().0);
        }
    }
}

proof fn lemma_listings_change_nothing(x: ListModel, r: ReplyModel)
    ensures
        x.resume(r) matches StepModel::Call(c, _) ==> !changing(c),
{
    match (x, r) {
        (
            ListModel::Loading(walk),
            ReplyOf::Bytes(block),
        ) => {
            if let Ok(records) = directory::records_of(block, walk.inode, walk.layout) {
                lemma_records_change_nothing(walk, records);
            }
        },
        (
            ListModel::Examining { walk, records },
            ReplyOf::Inode(inode),
        ) => {
            let entry = stat::inode_entry(
                vstd::utf8::decode_utf8(records[0].1),
                InodeFacts { number: records[0].0, ..inode },
            );
            lemma_records_change_nothing(
                WalkModel { entries: walk.entries.push(entry), ..walk },
                records.drop_first(),
            );
        },
        _ => {},
    }
}

proof fn lemma_records_change_nothing(
    walk: WalkModel,
    records: Seq<directory::RecordModel>,
)
    ensures
        walk.next_record(records) matches StepModel::Call(c, _) ==> !changing(c),
    decreases records.len(),
{
    if records.len() > 0 {
        lemma_records_change_nothing(walk, records.drop_first());
    }
}

/// A write to what is no regular file, or not there, from beyond its end, or to a
/// file with several names, makes no call that changes anything, and fails.
pub proof fn law_writes_need_their_file(
    e: Engine,
    s: SessionModel,
    p: Seq<char>,
    offset: u64,
    data: Seq<u8>,
    events: Seq<Event>,
    after: Seq<Engine>,
)
    requires
        e.kind() == s.kind,
        e.valid(),
        e.file_at(p) is None || offset > e.file_at(p)->0.len() || !singly_linked(e, p),
        volume::truthful(e, s, Op::Write(p, offset, data), events, after),
    ensures
        match session_laws::progress(s, Op::Write(p, offset, data), events).1 {
            Next::Call(c, _) => !changing(c),
            Next::Done(r) => r is Err,
        },
{
    volume_laws::lemma_write_stands(e, s, p, offset, data, events, after);
    lemma_scans_wait_for_entries(s, Op::Write(p, offset, data), events);
}

/// A truncation of what is no regular file, or not there, to more than it has, or of
/// a file with several names, makes no call that changes anything, and fails.
pub proof fn law_truncations_need_their_file(
    e: Engine,
    s: SessionModel,
    p: Seq<char>,
    length: u64,
    events: Seq<Event>,
    after: Seq<Engine>,
)
    requires
        e.kind() == s.kind,
        e.valid(),
        e.file_at(p) is None || length > e.file_at(p)->0.len() || !singly_linked(e, p),
        volume::truthful(e, s, Op::Truncate(p, length), events, after),
    ensures
        match session_laws::progress(s, Op::Truncate(p, length), events).1 {
            Next::Call(c, _) => !changing(c),
            Next::Done(r) => r is Err,
        },
{
    volume_laws::lemma_cut_stands(e, s, p, length, events, after);
    lemma_scans_wait_for_entries(s, Op::Truncate(p, length), events);
}

/// A lookup of what is there does not end in that nothing was found.
proof fn lemma_lookup_does_not_miss(
    e: Engine,
    p: Seq<char>,
    c: CallModel,
    x: StatModel,
    f: Engine,
    r: ReplyModel,
)
    requires
        path::refusal(p) is None,
        volume_laws::looking(e, p, c, x),
        e.answers(c, f, r),
        e.place(p) is Some,
    ensures
        x.resume(r) matches StepModel::Done(found) ==> found != Err::<EntryModel, Seq<char>>(
            "not found"@,
        ),
{
    reveal_strlit("not found");
    reveal_strlit("unsupported: symbolic links are not followed");
    assert("not found"@.len() == 9);
    assert("unsupported: symbolic links are not followed"@.len() == 44);
    if let (Engine::Fat(a), Engine::Fat(b)) = (e, f) {
        volume_laws::lemma_fat_lookup(a, p, c, x, b, r);
        volume_laws::lemma_relative(p);
    }
}

/// What is there is not created again: the creation makes no call that changes
/// anything, and fails.
pub proof fn law_what_is_there_is_not_created(
    e: Engine,
    s: SessionModel,
    op: Op,
    p: Seq<char>,
    events: Seq<Event>,
    after: Seq<Engine>,
)
    requires
        op == Op::Create(p) || op == Op::Mkdir(p),
        e.kind() == s.kind,
        e.place(p) is Some,
        volume::truthful(e, s, op, events, after),
    ensures
        match session_laws::progress(s, op, events).1 {
            Next::Call(c, _) => !changing(c),
            Next::Done(r) => r is Err,
        },
    decreases events.len(),
{
    lemma_scans_wait_for_entries(s, op, events);
    if events.len() == 0 {
        if path::is_root(p) {
            if let Engine::Fat(a) = e {
                assert(path::relative(p).len() == 0);
            }
        }
    } else {
        let before = events.drop_last();
        law_what_is_there_is_not_created(e, s, op, p, before, after.drop_last());
        volume_laws::lemma_create_stands(e, s, op, p, before, after.drop_last());
        let now = volume::last_engine(e, after.drop_last());
        if let Next::Call(c, Run::Mutate(MutateRunOf::Looking { lookup, intent })) =
            session_laws::progress(s, op, before).1 {
            lemma_lookup_does_not_miss(now, p, c, lookup, after.last(), events.last().0);
        }
    }
}

/// Whether a rename may change something: it is past its lookups.
spec fn still_looking(next: Next, only_from: bool) -> bool {
    match next {
        Next::Done(r) => r is Err,
        Next::Call(c, Run::Mutate(MutateRunOf::Looking { intent, .. })) => !changing(c) && (
        only_from ==> intent is RenameFrom),
        Next::Call(_, _) => false,
    }
}

/// A lookup of what is not there does not find it.
proof fn lemma_lookup_does_not_find(
    e: Engine,
    p: Seq<char>,
    c: CallModel,
    x: StatModel,
    f: Engine,
    r: ReplyModel,
)
    requires
        path::refusal(p) is None,
        volume_laws::looking(e, p, c, x),
        e.answers(c, f, r),
        e.place(p) is None,
    ensures
        x.resume(r) matches StepModel::Done(found) ==> found is Err,
{
    if let (Engine::Fat(a), Engine::Fat(b)) = (e, f) {
        volume_laws::lemma_fat_lookup(a, p, c, x, b, r);
        volume_laws::lemma_relative(p);
    }
}

/// What is not there is not renamed, and nothing is renamed to where something is:
/// the rename makes no call that changes anything, and fails.
pub proof fn law_renames_need_their_ends(
    e: Engine,
    s: SessionModel,
    from: Seq<char>,
    to: Seq<char>,
    events: Seq<Event>,
    after: Seq<Engine>,
)
    requires
        e.kind() == s.kind,
        e.place(from) is None || e.place(to) is Some,
        volume::truthful(e, s, Op::Rename(from, to), events, after),
    ensures
        match session_laws::progress(s, Op::Rename(from, to), events).1 {
            Next::Call(c, _) => !changing(c),
            Next::Done(r) => r is Err,
        },
{
    lemma_rename_is_still_looking(e, s, from, to, events, after);
}

proof fn lemma_rename_is_still_looking(
    e: Engine,
    s: SessionModel,
    from: Seq<char>,
    to: Seq<char>,
    events: Seq<Event>,
    after: Seq<Engine>,
)
    requires
        e.kind() == s.kind,
        e.place(from) is None || e.place(to) is Some,
        volume::truthful(e, s, Op::Rename(from, to), events, after),
    ensures
        still_looking(
            session_laws::progress(s, Op::Rename(from, to), events).1,
            e.place(from) is None,
        ),
    decreases events.len(),
{
    let op = Op::Rename(from, to);
    lemma_scans_wait_for_entries(s, op, events);
    if events.len() > 0 {
        let before = events.drop_last();
        lemma_rename_is_still_looking(e, s, from, to, before, after.drop_last());
        volume_laws::lemma_rename_stands(e, s, from, to, before, after.drop_last());
        session_laws::law_operations_keep_their_bounds(s, op, before);
        let now = volume::last_engine(e, after.drop_last());
        if let Next::Call(c, Run::Mutate(MutateRunOf::Looking { lookup, intent })) =
            session_laws::progress(s, op, before).1 {
            if intent == IntentModel::RenameFrom(from, to) {
                if e.place(from) is None {
                    lemma_lookup_does_not_find(now, from, c, lookup, after.last(), events.last().0);
                }
            } else {
                lemma_lookup_does_not_miss(now, to, c, lookup, after.last(), events.last().0);
            }
        }
    }
}

/// The root is neither created, removed nor renamed, and nothing takes its place:
/// without a call, and the session is what it was.
pub proof fn law_the_root_is_left_alone(s: SessionModel, p: Seq<char>)
    ensures
        ({
            let root = seq!['/'];
            &&& session_laws::start(s, Op::Create(root)).0 == s
            &&& session_laws::start(s, Op::Create(root)).1 matches Next::Done(Err(_))
            &&& session_laws::start(s, Op::Remove(root)).0 == s
            &&& session_laws::start(s, Op::Remove(root)).1 matches Next::Done(Err(_))
            &&& session_laws::start(s, Op::Rename(root, p)).0 == s
            &&& session_laws::start(s, Op::Rename(root, p)).1 matches Next::Done(Err(_))
            &&& session_laws::start(s, Op::Rename(p, root)).0 == s
            &&& session_laws::start(s, Op::Rename(p, root)).1 matches Next::Done(Err(_))
            &&& s.kind == Kind::Fat ==> session_laws::start(s, Op::Mkdir(root)).0 == s && (
            session_laws::start(s, Op::Mkdir(root)).1 matches Next::Done(Err(_)))
        }),
{
}

/// The path as FAT names it, from the root.
pub open spec fn from_root(p: Seq<char>) -> Seq<char> {
    p.subrange(1, p.len() as int)
}

/// Whether a call is one by which an operation changes the volume: on FAT a write
/// sends its bytes to the open file and flushes it, on ext4 it names file, offset and
/// bytes at once; a directory of ext4 is removed as one, and all else by its name.
pub open spec fn is_change_of(e: Engine, op: Op, c: CallModel) -> bool {
    match (e, op) {
        (Engine::Fat(_), Op::Create(p)) => c == CallModel::CreateFile(from_root(p)),
        (Engine::Fat(_), Op::Mkdir(p)) => c == CallModel::CreateDirectory(from_root(p)),
        (Engine::Fat(_), Op::Write(_, _, d)) => c == CallModel::WriteAll(d) || c
            == CallModel::FlushFile,
        (Engine::Fat(_), Op::Truncate(_, _)) => c == CallModel::TruncateFile,
        (Engine::Fat(_), Op::Remove(p)) => c == CallModel::RemoveEntry(from_root(p)),
        (Engine::Fat(_), Op::Rename(p, q)) => c == CallModel::RenameEntry(
            from_root(p),
            from_root(q),
        ),
        (Engine::Ext4(_), Op::Create(p)) => c == CallModel::CreateInode(p),
        (Engine::Ext4(_), Op::Mkdir(p)) => c == CallModel::MakeDirectory(p),
        (Engine::Ext4(_), Op::Write(p, o, d)) => c == (CallModel::WriteInode {
            path: p,
            offset: o,
            data: d,
        }),
        (Engine::Ext4(a), Op::Truncate(p, n)) => c == (CallModel::ShrinkInode {
            number: a.volume.names[p],
            length: n,
        }),
        (Engine::Ext4(a), Op::Remove(p)) => c == if a.volume.inodes[a.volume.names[p]].facts.mode
            / 0x1000 == 4 {
            CallModel::RemoveDirectory(p)
        } else {
            CallModel::Unlink(p)
        },
        (Engine::Ext4(_), Op::Rename(p, q)) => c == CallModel::RenameInode(p, q),
        _ => false,
    }
}

/// Every change is made by the call that is meant for it, on what the operation
/// names.
pub proof fn law_changes_are_made_by_their_call(
    e: Engine,
    s: SessionModel,
    op: Op,
    events: Seq<Event>,
    after: Seq<Engine>,
)
    requires
        e.kind() == s.kind,
        e.valid(),
        volume::truthful(e, s, op, events, after),
    ensures
        session_laws::progress(s, op, events).1 matches Next::Call(c, _) ==> changing(c)
            ==> is_change_of(e, op, c),
{
    lemma_scans_wait_for_entries(s, op, events);
    session_laws::law_operations_keep_their_bounds(s, op, events);
    if let Next::Call(c, run) = session_laws::progress(s, op, events).1 {
        match op {
            Op::Create(p) | Op::Mkdir(p) => {
                volume_laws::lemma_create_stands(e, s, op, p, events, after);
                path::lemma_accepted_is_absolute(p);
            },
            Op::Write(p, offset, data) => {
                volume_laws::lemma_write_stands(e, s, p, offset, data, events, after);
            },
            Op::Truncate(p, length) => {
                volume_laws::lemma_cut_stands(e, s, p, length, events, after);
            },
            Op::Remove(p) => {
                volume_laws::lemma_remove_stands(e, s, p, events, after);
                path::lemma_accepted_is_absolute(p);
            },
            Op::Rename(from, to) => {
                volume_laws::lemma_rename_stands(e, s, from, to, events, after);
                path::lemma_accepted_is_absolute(from);
                path::lemma_accepted_is_absolute(to);
            },
            _ => {},
        }
    }
}

/// The root of an ext4 volume is told by its inode, under no name.
pub proof fn law_the_root_inode_is_told(s: SessionModel, facts: InodeFacts, layout: Layout)
    requires
        s.mounted,
        !s.device.retired,
        s.kind == Kind::Ext4,
        facts.mode / 0x1000 == 4,
    ensures
        session_laws::progress(
            s,
            Op::Stat(seq!['/']),
            seq![(ReplyModel::Resolved(facts, layout), false)],
        ).1 matches Next::Done(Ok(Value::Entry(entry))) && entry.name.len() == 0 && entry.kind
            == "directory"@ && entry.size == facts.size && entry.inode == Some(facts.number)
            && entry.generation == Some(facts.generation),
{
    let root = seq!['/'];
    let events: Seq<Event> = seq![(ReplyModel::Resolved(facts, layout), false)];
    assert(events.drop_last() =~= seq![]);
    assert(session_laws::progress(s, Op::Stat(root), events.drop_last()) == session_laws::start(
        s,
        Op::Stat(root),
    ));
    path::lemma_last_slash(root);
}

/// What is not there is not found: a lookup of an accepted path other than the root
/// that leads nowhere fails, and says that nothing was found where the directory
/// that would hold it is there, and on FAT small enough to be looked through.
pub proof fn law_what_is_not_there_is_not_found(
    e: Engine,
    s: SessionModel,
    p: Seq<char>,
    events: Seq<Event>,
    after: Seq<Engine>,
)
    requires
        e.kind() == s.kind,
        s.mounted,
        !s.device.retired,
        path::refusal(p) is None,
        p != seq!['/'],
        e.place(p) is None,
        volume::truthful(e, s, Op::Stat(p), events, after),
    ensures
        session_laws::progress(s, Op::Stat(p), events).1 matches Next::Done(r) ==> r is Err && (
        has_room(e, p) ==> r == Err::<Value, Seq<char>>("not found"@)),
{
    volume_laws::lemma_stat_stands(e, s, p, events, after);
    volume_laws::lemma_relative(p);
}

/// A lookup on FAT goes through 4096 entries: it counts each that does not go by the
/// name, and gives up at the next.
pub proof fn law_lookups_give_up_in_large_directories(
    wanted: Seq<char>,
    seen: usize,
    item: FatItemOf<Seq<char>>,
)
    ensures
        ({
            let next = StatModel::Scanning { wanted, seen }.resume(ReplyModel::Entry(Some(item)));
            if seen >= 4096 {
                next is Done && next->Done_0 is Err
            } else if text::uppercase(item.name) == wanted || text::uppercase(item.short_name)
                == wanted {
                next is Done && next->Done_0 is Ok
            } else {
                next == StepModel::<StatModel, EntryModel>::Call(
                    CallModel::NextEntry,
                    StatModel::Scanning { wanted, seen: (seen + 1) as usize },
                )
            }
        }),
{
}

/// A read of what is no regular file, or not there, fails.
pub proof fn law_reads_need_their_file(
    e: Engine,
    s: SessionModel,
    p: Seq<char>,
    offset: u64,
    length: usize,
    events: Seq<Event>,
    after: Seq<Engine>,
)
    requires
        e.kind() == s.kind,
        e.file_at(p) is None,
        volume::truthful(e, s, Op::Read(p, offset, length), events, after),
    ensures
        match session_laws::progress(s, Op::Read(p, offset, length), events).1 {
            Next::Call(c, run) => events.len() == 0 && match e {
                Engine::Fat(_) => c == CallModel::OpenFile(path::relative(p)) && (run
                    matches Run::Read(ReadRunOf::Opening { .. })),
                Engine::Ext4(_) => c == CallModel::Resolve(p) && (run matches Run::Read(
                    ReadRunOf::Resolving { .. },
                )),
            },
            Next::Done(r) => r is Err,
        },
    decreases events.len(),
{
    if events.len() > 0 {
        law_reads_need_their_file(
            e,
            s,
            p,
            offset,
            length,
            events.drop_last(),
            after.drop_last(),
        );
    }
}

/// A session that is not mounted, or whose device is out of use, takes no operation:
/// each fails without a call, and leaves the session as it was.
pub proof fn law_sessions_past_use_take_nothing(s: SessionModel, op: Op)
    requires
        !s.mounted || s.device.retired,
    ensures
        session_laws::start(s, op).0 == s,
        session_laws::start(s, op).1 matches Next::Done(Err(_)),
{
}

/// A session that was opened for reading takes no change: each fails without a call,
/// and leaves the session as it was.
pub proof fn law_sessions_for_reading_take_no_change(s: SessionModel, op: Op)
    requires
        !s.device.writable,
        op is Create || op is Write || op is Truncate || op is Mkdir || op is Remove || op
            is Rename,
    ensures
        session_laws::start(s, op).0 == s,
        session_laws::start(s, op).1 matches Next::Done(Err(_)),
{
}

/// Whether an operation is refused from the start, for this reason, and the session
/// is what it was.
pub open spec fn refuses(s: SessionModel, op: Op, why: Seq<char>) -> bool {
    session_laws::start(s, op) == (s, Next::Done(Err(why)))
}

/// What is refused from the start is refused for what is wrong with it: a path that
/// is no path, or one with a name that is none; a session that is past use, or not
/// for writing; a range that is too long, or past the end of the device; and the root
/// where it would be replaced, removed or renamed.
pub proof fn law_refusals_say_what_is_wrong(
    s: SessionModel,
    p: Seq<char>,
    q: Seq<char>,
    offset: u64,
    length: usize,
    data: Seq<u8>,
)
    requires
        path::refusal(p) is None,
        path::refusal(q) is None,
    ensures
        ({
            let past = "filesystem session is closed or retired"@;
            let reading = "filesystem was opened read-only"@;
            let root = seq!['/'];
            &&& !s.mounted || s.device.retired ==> {
                &&& refuses(s, Op::Stat(p), past)
                &&& refuses(s, Op::List(p), past)
                &&& length <= 0x40_0000 ==> refuses(s, Op::Read(p, offset, length), past)
                &&& refuses(s, Op::Create(p), past)
                &&& refuses(s, Op::Write(p, offset, data), past)
                &&& refuses(s, Op::Truncate(p, offset), past)
                &&& refuses(s, Op::Mkdir(p), past)
                &&& refuses(s, Op::Remove(p), past)
                &&& refuses(s, Op::Rename(p, q), past)
                &&& refuses(s, Op::Inspect, past)
                &&& refuses(s, Op::Flush, past)
                &&& refuses(s, Op::FreshRead, past)
                &&& refuses(s, Op::Finish, past)
            }
            &&& s.mounted && !s.device.retired && !s.device.writable ==> {
                &&& refuses(s, Op::Create(p), reading)
                &&& refuses(s, Op::Write(p, offset, data), reading)
                &&& refuses(s, Op::Truncate(p, offset), reading)
                &&& refuses(s, Op::Mkdir(p), reading)
                &&& refuses(s, Op::Remove(p), reading)
                &&& refuses(s, Op::Rename(p, q), reading)
            }
            &&& length > 0x40_0000 ==> refuses(
                s,
                Op::Read(p, offset, length),
                "file read exceeds4MiB"@,
            )
            &&& open_for_changes(s) ==> {
                &&& data.len() > 0x40_0000 || offset + data.len() > s.device.size ==> refuses(
                    s,
                    Op::Write(p, offset, data),
                    "invalid file write range"@,
                )
                &&& refuses(s, Op::Create(root), "cannot replace root"@)
                &&& refuses(s, Op::Remove(root), "cannot remove root"@)
                &&& refuses(s, Op::Rename(root, q), "cannot rename root"@)
                &&& refuses(s, Op::Rename(p, root), "cannot rename root"@)
                &&& s.kind == Kind::Fat ==> refuses(s, Op::Mkdir(root), "already exists"@)
            }
        }),
{
}

/// What a lookup finds decides what becomes of a change: what is there is not created
/// again nor renamed to, only a regular file is written, and from no further than its
/// end, and only one is cut, and to no more than it has. What the lookup failed for is
/// what the change fails for.
pub proof fn law_lookups_decide_on_changes(
    s: SessionModel,
    p: Seq<char>,
    q: Seq<char>,
    offset: u64,
    data: Seq<u8>,
    found: EntryModel,
    why: Seq<char>,
)
    requires
        open_for_changes(s),
    ensures
        ({
            let there = (s, StepModel::<MutateModel, ()>::Done(Err("already exists"@)));
            let failed = (s, StepModel::<MutateModel, ()>::Done(Err(why)));
            let write = IntentModel::Write { path: p, offset, data };
            let cut = IntentModel::Truncate { path: p, length: offset };
            &&& s.after_lookup(IntentModel::Create(p), Ok(found)) == there
            &&& s.after_lookup(IntentModel::Mkdir(p), Ok(found)) == there
            &&& s.after_lookup(IntentModel::RenameTo(p, q), Ok(found)) == there
            &&& found.kind != "file"@ ==> s.after_lookup(write, Ok(found)) == (
                s,
                StepModel::<MutateModel, ()>::Done(Err("not a regular file"@)),
            )
            &&& found.kind == "file"@ && offset > found.size ==> s.after_lookup(write, Ok(found))
                == (
                s,
                StepModel::<MutateModel, ()>::Done(Err("file write cannot leave a gap"@)),
            )
            &&& found.kind != "file"@ || offset > found.size ==> s.after_lookup(cut, Ok(found)) == (
                s,
                StepModel::<MutateModel, ()>::Done(
                    Err("truncate only shrinks existing regular files"@),
                ),
            )
            &&& s.after_lookup(write, Err(why)) == failed
            &&& s.after_lookup(cut, Err(why)) == failed
            &&& s.after_lookup(IntentModel::Remove(p), Err(why)) == failed
            &&& s.after_lookup(IntentModel::RenameFrom(p, q), Err(why)) == failed
            &&& why != "not found"@ ==> {
                &&& s.after_lookup(IntentModel::Create(p), Err(why)) == failed
                &&& s.after_lookup(IntentModel::Mkdir(p), Err(why)) == failed
                &&& s.after_lookup(IntentModel::RenameTo(p, q), Err(why)) == failed
            }
        }),
{
}

/// A file with several names, or with none, is neither written nor cut, and the
/// attempt retires the session.
pub proof fn law_links_decide_on_changes(
    s: SessionModel,
    p: Seq<char>,
    offset: u64,
    data: Seq<u8>,
    length: u64,
    size: u64,
    facts: InodeFacts,
    layout: Layout,
)
    requires
        facts.links_count != 1,
        facts.mode / 0x1000 != 10,
    ensures
        ({
            let r = ReplyModel::Resolved(facts, layout);
            let (t, write) = s.resume_mutation(
                MutateModel::WriteCounting { path: p, offset, data },
                r,
            );
            let (u, cut) = s.resume_mutation(MutateModel::CutCounting { length, size }, r);
            &&& write == StepModel::<MutateModel, ()>::Done(
                Err("writing multiply linked files is refused"@),
            )
            &&& cut == StepModel::<MutateModel, ()>::Done(
                Err("truncating multiply linked files is refused"@),
            )
            &&& t.device.retired
            &&& u.device.retired
        }),
{
}

/// What is no directory is not listed, nor one that is larger than 16 MiB or keeps
/// its entries in its inode; a link is not followed, here or anywhere.
pub proof fn law_inodes_decide_on_listings(facts: InodeFacts, layout: Layout)
    ensures
        ({
            let r = ReplyModel::Resolved(facts, layout);
            let next = ListModel::Resolving.resume(r);
            let kind = facts.mode / 0x1000;
            &&& kind == 10 ==> next == ListStepModel::Done(
                Err("unsupported: symbolic links are not followed"@),
            )
            &&& kind != 10 && kind != 4 ==> next == ListStepModel::Done(Err("not a directory"@))
            &&& kind == 4 && (facts.size > 0x100_0000 || facts.flags / 0x1000_0000 % 2 == 1)
                ==> next == ListStepModel::Done(
                Err("unsupported or oversized directory layout"@),
            )
            &&& forall|name: Seq<char>|
                kind == 10 ==> (#[trigger] StatModel::Resolving { name }.resume(r)) == StepModel::<
                    StatModel,
                    EntryModel,
                >::Done(Err("unsupported: symbolic links are not followed"@))
        }),
{
}

/// Whether a reply is of the kind that a call is answered with.
pub open spec fn fits(c: CallModel, r: ReplyModel) -> bool {
    match c {
        CallOf::NextEntry => r is Entry,
        CallOf::Resolve(_) => r is Resolved,
        CallOf::ReadInode(_) => r is Inode,
        CallOf::MapBlock(_) => r is Mapped,
        CallOf::ReadBlock(_) => r is Bytes,
        CallOf::ReadSome(_) => r is Bytes,
        CallOf::ReadFile { .. } => r is Bytes,
        CallOf::Statistics => r is Clusters,
        CallOf::StatusFlags => r is Dirty,
        CallOf::ReadVolume => r is Superblocks,
        _ => r is Done || r is Created,
    }
}

/// Whether a lookup waits for the answer to this call.
spec fn looks_by(c: CallModel, x: StatModel) -> bool {
    match x {
        StatRunOf::Opening { .. } => c is OpenDirectory,
        StatRunOf::Scanning { .. } => c == CallModel::NextEntry,
        StatRunOf::Resolving { .. } => c is Resolve,
    }
}

/// Whether a listing waits for the answer to this call.
spec fn lists_by(c: CallModel, x: ListModel) -> bool {
    match x {
        ListModel::Opening => c is OpenDirectory,
        ListModel::Scanning { .. } => c == CallModel::NextEntry,
        ListModel::Resolving => c is Resolve,
        ListModel::Mapping(_) => c is MapBlock,
        ListModel::Loading(_) => c is ReadBlock,
        ListModel::Examining { .. } => c is ReadInode,
    }
}

/// Whether an operation waits for the answer to this call.
spec fn waits_for(c: CallModel, run: Run) -> bool {
    match run {
        Run::Stat(x) => looks_by(c, x),
        Run::List(x) => lists_by(c, x),
        Run::Read(x) => match x {
            ReadRunOf::Opening { .. } => c is OpenFile,
            ReadRunOf::Seeking { .. } => c is Seek,
            ReadRunOf::Reading { .. } => c is ReadSome,
            ReadRunOf::Resolving { .. } => c is Resolve,
            ReadRunOf::Fetching { .. } => c is ReadFile,
        },
        Run::Mutate(x) => match x {
            MutateRunOf::Looking { lookup, .. } => looks_by(c, lookup),
            MutateRunOf::WriteOpening { .. } => c is OpenFile,
            MutateRunOf::CutOpening { .. } => c is OpenFile,
            MutateRunOf::WriteSeeking { .. } => c is Seek,
            MutateRunOf::CutSeeking => c is Seek,
            MutateRunOf::WriteSending => c is WriteAll,
            MutateRunOf::WriteCounting { .. } => c is Resolve,
            MutateRunOf::CutCounting { .. } => c is Resolve,
            MutateRunOf::Committing => changing(c),
        },
        Run::Inspect(x) => match x {
            InspectStage::Counting => c == CallModel::Statistics,
            InspectStage::Flags { .. } => c == CallModel::StatusFlags,
            InspectStage::Reading => c == CallModel::ReadVolume,
        },
        Run::Live(_) => c == CallModel::FlushEngine || c == CallModel::FlushDevice || c
            == CallModel::Refresh,
        Run::Finish(_) => c == CallModel::Unmount || c == CallModel::FlushDevice,
    }
}

proof fn lemma_walks_wait(walk: WalkModel, records: Seq<directory::RecordModel>)
    ensures
        walk.next_record(records) matches StepModel::Call(c, x) ==> lists_by(c, x),
    decreases records.len(),
{
    if records.len() > 0 {
        lemma_walks_wait(walk, records.drop_first());
    }
}

proof fn lemma_listings_wait(x: ListModel, r: ReplyModel)
    ensures
        x.resume(r) matches StepModel::Call(c, y) ==> lists_by(c, y),
{
    match (x, r) {
        (ListModel::Loading(walk), ReplyOf::Bytes(block)) => {
            if let Ok(records) = directory::records_of(block, walk.inode, walk.layout) {
                lemma_walks_wait(walk, records);
            }
        },
        (ListModel::Examining { walk, records }, ReplyOf::Inode(inode)) => {
            let entry = stat::inode_entry(
                vstd::utf8::decode_utf8(records[0].1),
                InodeFacts { number: records[0].0, ..inode },
            );
            lemma_walks_wait(
                WalkModel { entries: walk.entries.push(entry), ..walk },
                records.drop_first(),
            );
        },
        _ => {},
    }
}

proof fn lemma_lookups_wait(x: StatModel, r: ReplyModel)
    ensures
        x.resume(r) matches StepModel::Call(c, y) ==> looks_by(c, y),
{
}

proof fn lemma_found_waits(
    s: SessionModel,
    intent: IntentModel,
    found: Result<EntryModel, Seq<char>>,
)
    ensures
        s.after_lookup(intent, found).1 matches StepModel::Call(c, x) ==> waits_for(
            c,
            Run::Mutate(x),
        ),
{
}

proof fn lemma_mutations_wait(s: SessionModel, x: MutateModel, r: ReplyModel)
    ensures
        s.resume_mutation(x, r).1 matches StepModel::Call(c, y) ==> waits_for(c, Run::Mutate(y)),
{
    if let MutateRunOf::Looking { lookup, intent } = x {
        lemma_lookups_wait(lookup, r);
        if let StepModel::Done(found) = lookup.resume(r) {
            lemma_found_waits(s, intent, found);
        }
    }
}

proof fn lemma_looks_wait(s: SessionModel, p: Seq<char>, intent: IntentModel)
    ensures
        s.look(p, intent).1 matches StepModel::Call(c, x) ==> waits_for(c, Run::Mutate(x)),
{
    if let StepModel::Done(found) = s.stat(p) {
        lemma_found_waits(s, intent, found);
    }
}

proof fn lemma_starts_wait(s: SessionModel, op: Op)
    ensures
        session_laws::start(s, op).1 matches Next::Call(c, run) ==> waits_for(c, run),
{
    match op {
        Op::Create(p) => lemma_looks_wait(s, p, IntentModel::Create(p)),
        Op::Mkdir(p) => lemma_looks_wait(s, p, IntentModel::Mkdir(p)),
        Op::Remove(p) => lemma_looks_wait(s, p, IntentModel::Remove(p)),
        Op::Write(p, offset, data) => {
            lemma_looks_wait(s, p, IntentModel::Write { path: p, offset, data });
        },
        Op::Truncate(p, length) => {
            lemma_looks_wait(s, p, IntentModel::Truncate { path: p, length });
        },
        Op::Rename(p, q) => lemma_looks_wait(s, p, IntentModel::RenameFrom(p, q)),
        _ => {},
    }
}

proof fn lemma_operations_wait(s: SessionModel, op: Op, events: Seq<Event>)
    ensures
        session_laws::progress(s, op, events).1 matches Next::Call(c, run) ==> waits_for(c, run),
    decreases events.len(),
{
    if events.len() == 0 {
        lemma_starts_wait(s, op);
    } else {
        lemma_operations_wait(s, op, events.drop_last());
        let (t, next) = session_laws::progress(s, op, events.drop_last());
        let (r, failed) = events.last();
        let u = if failed {
            t.retire()
        } else {
            t
        };
        if let Next::Call(c, run) = next {
            match run {
                Run::Stat(x) => lemma_lookups_wait(x, r),
                Run::List(x) => lemma_listings_wait(x, r),
                Run::Mutate(x) => lemma_mutations_wait(u, x, r),
                _ => {},
            }
        }
    }
}

/// A lookup that is answered with something else is over.
proof fn lemma_stray_lookups_end(c: CallModel, x: StatModel, r: ReplyModel)
    requires
        looks_by(c, x),
        !fits(c, r),
        !(r is Failed),
    ensures
        x.resume(r) matches StepModel::Done(Err(e)) && e != "not found"@,
{
    reveal_strlit("not found");
    reveal_strlit("directory entry limit exceeded");
    reveal_strlit("engine reply does not answer its call");
    assert("not found"@.len() == 9);
    assert("directory entry limit exceeded"@.len() == 30);
    assert("engine reply does not answer its call"@.len() == 37);
}

proof fn lemma_stray_mutations_end(s: SessionModel, c: CallModel, x: MutateModel, r: ReplyModel)
    requires
        waits_for(c, Run::Mutate(x)),
        !fits(c, r),
        !(r is Failed),
    ensures
        s.resume_mutation(x, r).1 matches StepModel::Done(Err(_)),
        changing(c) ==> s.resume_mutation(x, r).0.device.retired,
{
    if let MutateRunOf::Looking { lookup, intent } = x {
        lemma_stray_lookups_end(c, lookup, r);
    }
}

/// A reply that does not answer its call ends the operation as a failure; where the
/// call was a change the session is retired.
pub proof fn law_replies_answer_their_calls(
    s: SessionModel,
    op: Op,
    events: Seq<Event>,
    r: ReplyModel,
)
    requires
        !(r is Failed),
    ensures
        session_laws::progress(s, op, events).1 matches Next::Call(c, run) ==> !fits(c, r) ==> {
            let (t, next) = session_laws::advance(
                session_laws::progress(s, op, events).0,
                run,
                r,
            );
            &&& next matches Next::Done(Err(_))
            &&& changing(c) ==> t.device.retired
        },
{
    lemma_operations_wait(s, op, events);
    let (t, next) = session_laws::progress(s, op, events);
    if let Next::Call(c, run) = next {
        if !fits(c, r) {
            match run {
                Run::Stat(x) => lemma_stray_lookups_end(c, x, r),
                Run::Mutate(x) => lemma_stray_mutations_end(t, c, x, r),
                _ => {},
            }
        }
    }
}

} // verus!
