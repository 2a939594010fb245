//! What operations do to the files of a volume, over an engine that serves it
//! truthfully and a device that does not fail.

use vstd::prelude::*;

use crate::engine::CallModel;
use crate::engine::InodeFacts;
use crate::engine::Kind;
use crate::engine::ReplyModel;
use crate::list;
use crate::list::ListModel;
use crate::mutate::IntentModel;
use crate::mutate::MutateRunOf;
use crate::path;
use crate::range;
use crate::read::ReadRunOf;
use crate::session::EntryModel;
use crate::session::SessionModel;
use crate::session::StepModel;
use crate::session::MAX_ENTRIES;
use crate::session::MAX_FILE_CHUNK;
use crate::session_laws;
use crate::session_laws::Event;
use crate::session_laws::Next;
use crate::session_laws::Op;
use crate::session_laws::Run;
use crate::session_laws::Value;
use crate::stat;
use crate::stat::StatModel;
use crate::stat::StatRunOf;
use crate::text;
use crate::volume;
use crate::volume::Engine;
use crate::volume::Ext4Engine;
use crate::volume::Ext4Volume;
use crate::volume::FatBody;
use crate::volume::FatEngine;
use crate::volume::FatNode;
use crate::volume::FatVolume;
use crate::walk_laws;

verus! {

/// An absolute path and the same path named from the root.
pub proof fn lemma_relative(p: Seq<char>)
    requires
        0 < p.len(),
        p[0] == '/',
    ensures
        seq!['/'] + path::relative(p) == p,
        volume::parent(path::relative(p)) == path::holder(p),
        volume::leaf(path::relative(p)) == path::final_name(p),
{
    assert(seq!['/'] + path::relative(p) =~= p);
}

/// Every name of an accepted path is in order.
pub proof fn lemma_accepted_is_plain(p: Seq<char>)
    requires
        path::refusal(p) is None,
    ensures
        volume::plain(path::relative(p)),
        !path::is_root(p) ==> 0 < path::relative(p).len() && path::component_ok(
            path::final_name(p),
        ) && volume::plain(path::holder(p)),
{
    lemma_relative(p);
    if path::is_root(p) {
        assert(path::relative(p) =~= seq![]);
    } else {
        if p.len() == 1 {
            assert(p =~= seq!['/']);
        }
        lemma_components_are_plain(path::relative(p));
    }
}

proof fn lemma_components_are_plain(rel: Seq<char>)
    requires
        rel.len() == 0 || path::components_ok(seq!['/'] + rel),
    ensures
        volume::plain(rel),
    decreases rel.len(),
{
    if rel.len() > 0 {
        let s = seq!['/'] + rel;
        assert(s[0] == '/');
        path::lemma_last_slash(s);
        let at = path::last_slash(s);
        assert(path::is_component(s, at, s.len() as int));
        let up = volume::parent(rel);
        volume::lemma_parent_is_shorter(rel);
        if up.len() > 0 {
            let t = seq!['/'] + up;
            assert(t =~= s.subrange(0, at));
            assert forall|from: int, to: int| #[trigger]
                path::is_component(t, from, to) implies path::component_ok(
                t.subrange(from + 1, to),
            ) by {
                assert forall|k: int| from < k < to implies s[k] != '/' by {
                    assert(t[k] == s[k]);
                }
                assert(t[from] == s[from]);
                if to < t.len() {
                    assert(t[to] == s[to]);
                }
                assert(path::is_component(s, from, to));
                assert(t.subrange(from + 1, to) =~= s.subrange(from + 1, to));
            }
        }
        lemma_components_are_plain(up);
    }
}

/// What a directory holds under a name, taken apart again.
pub proof fn lemma_join(dir: Seq<char>, name: Seq<char>)
    requires
        path::refusal(dir) is None,
        !name.contains('/'),
    ensures
        path::holder(volume::join(dir, name)) == path::relative(dir),
        path::final_name(volume::join(dir, name)) == name,
        0 < volume::join(dir, name).len(),
        volume::join(dir, name)[0] == '/',
        volume::above(volume::join(dir, name)) == dir,
{
    let s = volume::join(dir, name);
    lemma_relative(dir);
    let k = if path::is_root(dir) {
        0int
    } else {
        dir.len() as int
    };
    assert(s[k] == '/');
    assert(s[0] == '/');
    path::lemma_last_slash(s);
    let at = path::last_slash(s);
    if k < at {
        assert(s[at] == name[at - k - 1]);
        assert(name.contains(name[at - k - 1]));
    }
    assert(at == k);
    assert(path::final_name(s) =~= name);
    assert(path::holder(s) =~= path::relative(dir));
}

/// What a search finds, and that nothing before it goes by the name.
pub proof fn lemma_find(nodes: Seq<FatNode>, w: Seq<char>)
    ensures
        match volume::find(nodes, w) {
            Some(i) => 0 <= i < nodes.len() && nodes[i].goes_by(w) && forall|k: int|
                0 <= k < i ==> !(#[trigger] nodes[k].goes_by(w)),
            None => forall|k: int| 0 <= k < nodes.len() ==> !(#[trigger] nodes[k].goes_by(w)),
        },
    decreases nodes.len(),
{
    if nodes.len() > 0 && !nodes[0].goes_by(w) {
        let rest = nodes.drop_first();
        lemma_find(rest, w);
        match volume::find(rest, w) {
            Some(i) => {
                assert(rest[i] == nodes[i + 1]);
                assert forall|k: int| 0 <= k < i + 1 implies !(#[trigger] nodes[k].goes_by(w)) by {
                    if k > 0 {
                        assert(rest[k - 1] == nodes[k]);
                        assert(!rest[k - 1].goes_by(w));
                    }
                }
            },
            None => {
                assert forall|k: int| 0 <= k < nodes.len() implies !(#[trigger] nodes[k].goes_by(
                    w,
                )) by {
                    if k > 0 {
                        assert(rest[k - 1] == nodes[k]);
                        assert(!rest[k - 1].goes_by(w));
                    }
                }
            },
        }
    }
}

/// A search ends at the one that goes by the name.
pub proof fn lemma_found(nodes: Seq<FatNode>, i: int, w: Seq<char>)
    requires
        volume::distinct(nodes),
        0 <= i < nodes.len(),
        nodes[i].goes_by(w),
    ensures
        volume::find(nodes, w) == Some(i),
{
    lemma_find(nodes, w);
    let j = volume::find(nodes, w)->0;
    if j < i {
        assert(nodes[j].goes_by(w) && nodes[i].goes_by(w));
    }
    if i < j {
        assert(nodes[i].goes_by(w) && nodes[j].goes_by(w));
    }
}

/// A directory that a path leads to is there.
pub proof fn lemma_directory_is_there(v: FatVolume, rel: Seq<char>)
    requires
        v.valid(),
    ensures
        v.directory_at(rel) matches Some(d) ==> v.directories.contains_key(d),
    decreases rel.len(),
{
    if rel.len() > 0 {
        volume::lemma_parent_is_shorter(rel);
        lemma_directory_is_there(v, volume::parent(rel));
        if let Some(d) = v.directory_at(volume::parent(rel)) {
            let w = text::uppercase(volume::leaf(rel));
            lemma_find(v.directories[d], w);
            if let Some(i) = volume::find(v.directories[d], w) {
                assert(v.valid_node(v.directories[d][i]));
            }
        }
    }
}

/// The kinds that entries have are different.
pub proof fn lemma_kinds()
    ensures
        "file"@ != "directory"@,
        "file"@ != "symlink"@,
        "file"@ != "other"@,
        "directory"@ != "symlink"@,
        "directory"@ != "other"@,
        "symlink"@ != "other"@,
{
    reveal_strlit("file");
    reveal_strlit("directory");
    reveal_strlit("symlink");
    reveal_strlit("other");
    assert("file"@.len() == 4);
    assert("directory"@.len() == 9);
    assert("symlink"@.len() == 7);
    assert("other"@.len() == 5);
}

/// Whether a lookup of `p` on FAT, with this call outstanding, has seen all that
/// it says to have seen, and found nothing yet.
pub open spec fn fat_looking(e: FatEngine, p: Seq<char>, c: CallModel, x: StatModel) -> bool {
    let w = text::uppercase(path::final_name(p));
    match x {
        StatRunOf::Opening { wanted } => wanted == w && c == CallModel::OpenDirectory(
            path::holder(p),
        ),
        StatRunOf::Scanning { wanted, seen } => {
            &&& wanted == w
            &&& c == CallModel::NextEntry
            &&& e.volume.directory_at(path::holder(p)) matches Some(d)
            &&& seen <= e.volume.directories[d].len()
            &&& e.walk == e.volume.directories[d].skip(seen as int)
            &&& forall|k: int|
                0 <= k < seen ==> !(#[trigger] e.volume.directories[d][k].goes_by(w))
        },
        StatRunOf::Resolving { .. } => false,
    }
}

/// Whether a lookup of `p` on FAT ended as the volume has it.
pub open spec fn fat_looked(v: FatVolume, p: Seq<char>, found: Result<EntryModel, Seq<char>>) -> bool {
    match found {
        Ok(entry) => v.node_at(path::relative(p)) matches Some(n) && entry == stat::fat_entry(
            n.item(),
        ),
        Err(why) => match v.directory_at(path::holder(p)) {
            None => v.place(path::relative(p)) is None,
            Some(d) => match v.place(path::relative(p)) {
                None => v.directories[d].len() <= MAX_ENTRIES ==> why == "not found"@,
                Some((_, i)) => MAX_ENTRIES <= i && why != "not found"@,
            },
        },
    }
}

/// A step of a lookup on FAT.
pub proof fn lemma_fat_lookup(
    e: FatEngine,
    p: Seq<char>,
    c: CallModel,
    x: StatModel,
    f: FatEngine,
    r: ReplyModel,
)
    requires
        path::refusal(p) is None,
        !path::is_root(p),
        fat_looking(e, p, c, x),
        e.answers(c, f, r),
    ensures
        f.volume == e.volume,
        match x.resume(r) {
            StepModel::Call(next, y) => fat_looking(f, p, next, y),
            StepModel::Done(found) => fat_looked(e.volume, p, found),
        },
{
    lemma_relative(p);
    lemma_accepted_is_plain(p);
    let v = e.volume;
    let w = text::uppercase(path::final_name(p));
    reveal_strlit("not found");
    reveal_strlit("directory entry limit exceeded");
    assert("not found"@.len() == 9);
    assert("directory entry limit exceeded"@.len() == 30);
    match x {
        StatRunOf::Opening { .. } => {
            if let Some(d) = v.directory_at(path::holder(p)) {
                assert(v.directories[d].skip(0) =~= v.directories[d]);
            }
        },
        StatRunOf::Scanning { wanted, seen } => {
            let d = v.directory_at(path::holder(p))->0;
            let nodes = v.directories[d];
            lemma_find(nodes, w);
            if e.walk.len() > 0 {
                assert(e.walk[0] == nodes[seen as int]);
                if nodes[seen as int].goes_by(w) {
                    let j = volume::find(nodes, w)->0;
                    if seen < j {
                        assert(!nodes[seen as int].goes_by(w));
                    }
                    if j < seen {
                        assert(!nodes[j].goes_by(w));
                    }
                } else if seen < MAX_ENTRIES {
                    assert(e.walk.drop_first() =~= nodes.skip(seen + 1));
                }
            } else {
                assert(seen == nodes.len());
                if let Some(j) = volume::find(nodes, w) {
                    assert(!nodes[j].goes_by(w));
                }
            }
        },
        StatRunOf::Resolving { .. } => {},
    }
}

/// Whether `p` is a file on FAT with at least `offset` bytes.
pub open spec fn fat_file(v: FatVolume, p: Seq<char>, offset: int) -> bool {
    v.file_at(path::relative(p)) matches Some(c) && offset <= c.len()
}

/// The volume after a write to `p`.
pub open spec fn fat_written(v: FatVolume, p: Seq<char>, offset: int, data: Seq<u8>) -> FatVolume {
    let (d, i) = v.place(path::relative(p))->0;
    v.with_content(
        d,
        i,
        volume::overwrite(v.file_at(path::relative(p))->0, offset, data),
    )
}

/// Whether the length of `p` after a write is a number.
pub open spec fn fat_fits(v: FatVolume, p: Seq<char>, offset: int, data: Seq<u8>) -> bool {
    volume::overwrite(v.file_at(path::relative(p))->0, offset, data).len() <= u64::MAX
}

/// Where a write on FAT may stand.
pub open spec fn fat_write_stands(
    v: FatVolume,
    p: Seq<char>,
    offset: u64,
    data: Seq<u8>,
    e: FatEngine,
    next: Next,
) -> bool {
    let o = offset as int;
    match next {
        Next::Done(Ok(_)) => fat_file(v, p, o) && fat_fits(v, p, o, data) && e.volume
            == fat_written(v, p, o, data),
        Next::Done(Err(_)) => true,
        Next::Call(c, Run::Mutate(x)) => match x {
            MutateRunOf::Looking { lookup, intent } => e.volume == v && !path::is_root(p)
                && path::refusal(p) is None && intent == (IntentModel::Write {
                path: p,
                offset,
                data,
            }) && fat_looking(e, p, c, lookup),
            MutateRunOf::WriteOpening { offset: at, data: bytes } => e.volume == v && fat_file(
                v,
                p,
                o,
            ) && c == CallModel::OpenFile(path::relative(p)) && at == offset && bytes == data,
            MutateRunOf::WriteSeeking { data: bytes } => e.volume == v && fat_file(v, p, o) && c
                == CallModel::Seek(offset) && e.file == v.place(path::relative(p))->0 && bytes
                == data,
            MutateRunOf::WriteSending => e.volume == v && fat_file(v, p, o) && c
                == CallModel::WriteAll(data) && e.file == v.place(path::relative(p))->0
                && e.position == o,
            MutateRunOf::Committing => fat_file(v, p, o) && fat_fits(v, p, o, data) && e.volume
                == fat_written(v, p, o, data) && c == CallModel::FlushFile,
            _ => false,
        },
        Next::Call(_, _) => false,
    }
}

proof fn lemma_fat_write_starts(
    v: FatVolume,
    s: SessionModel,
    p: Seq<char>,
    offset: u64,
    data: Seq<u8>,
    e: FatEngine,
)
    requires
        e.volume == v,
        s.kind == Kind::Fat,
    ensures
        fat_write_stands(
            v,
            p,
            offset,
            data,
            e,
            session_laws::start(s, Op::Write(p, offset, data)).1,
        ),
{
    lemma_kinds();
}

proof fn lemma_fat_write_step(
    v: FatVolume,
    s: SessionModel,
    p: Seq<char>,
    offset: u64,
    data: Seq<u8>,
    e: FatEngine,
    c: CallModel,
    run: Run,
    f: FatEngine,
    r: ReplyModel,
)
    requires
        v.valid(),
        s.kind == Kind::Fat,
        fat_write_stands(v, p, offset, data, e, Next::Call(c, run)),
        e.answers(c, f, r),
    ensures
        fat_write_stands(v, p, offset, data, f, session_laws::advance(s, run, r).1),
{
    lemma_kinds();
    if let Run::Mutate(x) = run {
        if let MutateRunOf::Looking { lookup, intent } = x {
            lemma_fat_lookup(e, p, c, lookup, f, r);
            lemma_relative(p);
            lemma_directory_is_there(v, path::holder(p));
            if let StepModel::Done(Ok(entry)) = lookup.resume(r) {
                let (d, i) = v.place(path::relative(p))->0;
                lemma_find(v.directories[d], text::uppercase(path::final_name(p)));
                assert(v.valid_node(v.directories[d][i]));
            }
        }
    }
}

/// Whether `p` is a file on ext4 with one name and at least `offset` bytes.
pub open spec fn ext4_file(v: Ext4Volume, p: Seq<char>, offset: int) -> bool {
    v.file_at(p) matches Some(c) && offset <= c.len()
}

/// The volume after a write to `p`.
pub open spec fn ext4_written(v: Ext4Volume, p: Seq<char>, offset: int, data: Seq<u8>) -> Ext4Volume {
    v.with_content(v.names[p], volume::overwrite(v.file_at(p)->0, offset, data))
}

/// Where a write on ext4 may stand.
pub open spec fn ext4_write_stands(
    first: Ext4Engine,
    p: Seq<char>,
    offset: u64,
    data: Seq<u8>,
    e: Ext4Engine,
    next: Next,
) -> bool {
    let v = first.volume;
    let o = offset as int;
    let same = e == (Ext4Engine { resolved: e.resolved, ..first });
    match next {
        Next::Done(Ok(_)) => {
            &&& ext4_file(v, p, o)
            &&& v.inodes[v.names[p]].facts.links_count == 1
            &&& volume::overwrite(v.file_at(p)->0, o, data).len() <= u64::MAX
            &&& e.volume == ext4_written(v, p, o, data)
            &&& e.readable()
        },
        Next::Done(Err(_)) => true,
        Next::Call(c, Run::Mutate(x)) => match x {
            MutateRunOf::Looking { lookup, intent } => same && intent == (IntentModel::Write {
                path: p,
                offset,
                data,
            }) && c == CallModel::Resolve(p) && lookup is Resolving,
            MutateRunOf::WriteCounting { path, offset: at, data: bytes } => same && ext4_file(
                v,
                p,
                o,
            ) && c == CallModel::Resolve(p) && path == p && at == offset && bytes == data,
            MutateRunOf::Committing => same && ext4_file(v, p, o) && v.inodes[v.names[p]].facts.links_count
                == 1 && c == (CallModel::WriteInode { path: p, offset, data }),
            _ => false,
        },
        Next::Call(_, _) => false,
    }
}

proof fn lemma_ext4_write_starts(
    first: Ext4Engine,
    s: SessionModel,
    p: Seq<char>,
    offset: u64,
    data: Seq<u8>,
)
    requires
        s.kind == Kind::Ext4,
    ensures
        ext4_write_stands(
            first,
            p,
            offset,
            data,
            first,
            session_laws::start(s, Op::Write(p, offset, data)).1,
        ),
{
}

proof fn lemma_ext4_write_step(
    first: Ext4Engine,
    s: SessionModel,
    p: Seq<char>,
    offset: u64,
    data: Seq<u8>,
    e: Ext4Engine,
    c: CallModel,
    run: Run,
    f: Ext4Engine,
    r: ReplyModel,
)
    requires
        first.valid(),
        s.kind == Kind::Ext4,
        ext4_write_stands(first, p, offset, data, e, Next::Call(c, run)),
        e.answers(c, f, r),
    ensures
        ext4_write_stands(first, p, offset, data, f, session_laws::advance(s, run, r).1),
{
    lemma_kinds();
}

/// Where a read on FAT may stand after so many events.
spec fn fat_read_stands(
    v: FatVolume,
    p: Seq<char>,
    offset: u64,
    length: usize,
    e: FatEngine,
    next: Next,
    steps: nat,
) -> bool {
    let content = v.file_at(path::relative(p))->0;
    let from = volume::lesser(offset as int, content.len() as int);
    &&& e.volume == v
    &&& v.file_at(path::relative(p)) is Some
    &&& match next {
        Next::Done(r) => r == Ok::<Value, Seq<char>>(
            Value::Bytes(volume::part(content, offset as int, length as int)),
        ),
        Next::Call(c, Run::Read(x)) => match x {
            ReadRunOf::Opening { offset: at, length: n } => c == CallModel::OpenFile(
                path::relative(p),
            ) && at == offset && n == length && steps == 0,
            ReadRunOf::Seeking { length: n } => c == CallModel::Seek(offset) && e.file == v.place(
                path::relative(p),
            )->0 && n == length && steps == 1,
            ReadRunOf::Reading { collected, length: n } => {
                &&& c == CallModel::ReadSome((length - collected.len()) as usize)
                &&& e.file == v.place(path::relative(p))->0
                &&& e.position == from + collected.len()
                &&& e.position <= content.len()
                &&& collected == content.subrange(from, e.position)
                &&& collected.len() < length
                &&& n == length
                &&& steps <= 2 + collected.len()
            },
            _ => false,
        },
        Next::Call(_, _) => false,
    }
}

proof fn lemma_fat_read_step(
    v: FatVolume,
    s: SessionModel,
    p: Seq<char>,
    offset: u64,
    length: usize,
    e: FatEngine,
    c: CallModel,
    run: Run,
    f: FatEngine,
    r: ReplyModel,
    steps: nat,
)
    requires
        fat_read_stands(v, p, offset, length, e, Next::Call(c, run), steps),
        e.answers(c, f, r),
    ensures
        fat_read_stands(v, p, offset, length, f, session_laws::advance(s, run, r).1, steps + 1),
{
    let content = v.file_at(path::relative(p))->0;
    let from = volume::lesser(offset as int, content.len() as int);
    if let Run::Read(x) = run {
        match x {
            ReadRunOf::Seeking { .. } => {
                assert(content.subrange(from, from) =~= seq![]);
                if length == 0 {
                    assert(volume::part(content, offset as int, 0) =~= seq![]);
                }
            },
            ReadRunOf::Reading { collected, .. } => {
                let b = r->Bytes_0;
                assert(collected + b =~= content.subrange(from, e.position + b.len()));
                if b.len() == 0 {
                    assert(collected =~= volume::part(content, offset as int, length as int));
                }
            },
            _ => {},
        }
    }
}

/// Where a read on ext4 may stand after so many events.
spec fn ext4_read_stands(
    v: Ext4Volume,
    p: Seq<char>,
    offset: u64,
    length: usize,
    e: Ext4Engine,
    next: Next,
    steps: nat,
) -> bool {
    &&& e.volume == v
    &&& v.file_at(p) is Some
    &&& match next {
        Next::Done(r) => r == Ok::<Value, Seq<char>>(
            Value::Bytes(volume::part(v.file_at(p)->0, offset as int, length as int)),
        ),
        Next::Call(c, Run::Read(x)) => match x {
            ReadRunOf::Resolving { offset: at, length: n } => c == CallModel::Resolve(p) && at
                == offset && n == length && steps == 0,
            ReadRunOf::Fetching { length: n } => c == (CallModel::ReadFile {
                offset,
                wanted: length,
            }) && e.resolved == v.names[p] && n == length && steps == 1,
            _ => false,
        },
        Next::Call(_, _) => false,
    }
}

proof fn lemma_ext4_read_step(
    v: Ext4Volume,
    s: SessionModel,
    p: Seq<char>,
    offset: u64,
    length: usize,
    e: Ext4Engine,
    c: CallModel,
    run: Run,
    f: Ext4Engine,
    r: ReplyModel,
    steps: nat,
)
    requires
        ext4_read_stands(v, p, offset, length, e, Next::Call(c, run), steps),
        e.answers(c, f, r),
    ensures
        ext4_read_stands(v, p, offset, length, f, session_laws::advance(s, run, r).1, steps + 1),
{
}

/// Reading a file gives exactly its bytes from `offset`, as many as were asked
/// for or as there are, whatever pieces the engine cuts them into, and leaves the
/// volume as it was. The read is over after at most `length + 3` replies.
pub proof fn law_reads_give_the_file(
    e: Engine,
    s: SessionModel,
    p: Seq<char>,
    offset: u64,
    length: usize,
    events: Seq<Event>,
    after: Seq<Engine>,
)
    requires
        e.kind() == s.kind,
        s.usable(),
        path::refusal(p) is None,
        length <= MAX_FILE_CHUNK,
        e.file_at(p) is Some,
        volume::truthful(e, s, Op::Read(p, offset, length), events, after),
    ensures
        volume::last_engine(e, after).same_volume(e),
        session_laws::progress(s, Op::Read(p, offset, length), events).1 matches Next::Done(r)
            ==> r == Ok::<Value, Seq<char>>(
            Value::Bytes(volume::part(e.file_at(p)->0, offset as int, length as int)),
        ),
        events.len() > length + 2 ==> session_laws::progress(
            s,
            Op::Read(p, offset, length),
            events,
        ).1 is Done,
{
    lemma_read_stands(e, s, p, offset, length, events, after);
}

proof fn lemma_read_stands(
    e: Engine,
    s: SessionModel,
    p: Seq<char>,
    offset: u64,
    length: usize,
    events: Seq<Event>,
    after: Seq<Engine>,
)
    requires
        e.kind() == s.kind,
        s.usable(),
        path::refusal(p) is None,
        length <= MAX_FILE_CHUNK,
        e.file_at(p) is Some,
        volume::truthful(e, s, Op::Read(p, offset, length), events, after),
    ensures
        match (e, volume::last_engine(e, after)) {
            (Engine::Fat(a), Engine::Fat(b)) => fat_read_stands(
                a.volume,
                p,
                offset,
                length,
                b,
                session_laws::progress(s, Op::Read(p, offset, length), events).1,
                events.len(),
            ),
            (Engine::Ext4(a), Engine::Ext4(b)) => ext4_read_stands(
                a.volume,
                p,
                offset,
                length,
                b,
                session_laws::progress(s, Op::Read(p, offset, length), events).1,
                events.len(),
            ),
            _ => false,
        },
    decreases events.len(),
{
    let op = Op::Read(p, offset, length);
    if events.len() > 0 {
        let before = events.drop_last();
        lemma_read_stands(e, s, p, offset, length, before, after.drop_last());
        let (t, next) = session_laws::progress(s, op, before);
        let r = events.last().0;
        if let Next::Call(c, run) = next {
            match (e, volume::last_engine(e, after.drop_last()), after.last()) {
                (Engine::Fat(a), Engine::Fat(b), Engine::Fat(f)) => {
                    lemma_fat_read_step(
                        a.volume,
                        t,
                        p,
                        offset,
                        length,
                        b,
                        c,
                        run,
                        f,
                        r,
                        before.len(),
                    );
                },
                (Engine::Ext4(a), Engine::Ext4(b), Engine::Ext4(f)) => {
                    lemma_ext4_read_step(
                        a.volume,
                        t,
                        p,
                        offset,
                        length,
                        b,
                        c,
                        run,
                        f,
                        r,
                        before.len(),
                    );
                },
                _ => {},
            }
        }
    }
}

/// Every write stands where it may.
pub proof fn lemma_write_stands(
    e: Engine,
    s: SessionModel,
    p: Seq<char>,
    offset: u64,
    data: Seq<u8>,
    events: Seq<Event>,
    after: Seq<Engine>,
)
    requires
        e.kind() == s.kind,
        e.valid(),
        volume::truthful(e, s, Op::Write(p, offset, data), events, after),
    ensures
        match (e, volume::last_engine(e, after)) {
            (Engine::Fat(a), Engine::Fat(b)) => fat_write_stands(
                a.volume,
                p,
                offset,
                data,
                b,
                session_laws::progress(s, Op::Write(p, offset, data), events).1,
            ),
            (Engine::Ext4(a), Engine::Ext4(b)) => ext4_write_stands(
                a,
                p,
                offset,
                data,
                b,
                session_laws::progress(s, Op::Write(p, offset, data), events).1,
            ),
            _ => false,
        },
    decreases events.len(),
{
    let op = Op::Write(p, offset, data);
    if events.len() == 0 {
        match e {
            Engine::Fat(a) => lemma_fat_write_starts(a.volume, s, p, offset, data, a),
            Engine::Ext4(a) => lemma_ext4_write_starts(a, s, p, offset, data),
        }
    } else {
        let before = events.drop_last();
        lemma_write_stands(e, s, p, offset, data, before, after.drop_last());
        session_laws::law_operations_keep_their_bounds(s, op, before);
        let (t, next) = session_laws::progress(s, op, before);
        let r = events.last().0;
        if let Next::Call(c, run) = next {
            match (e, volume::last_engine(e, after.drop_last()), after.last()) {
                (Engine::Fat(a), Engine::Fat(b), Engine::Fat(f)) => {
                    lemma_fat_write_step(a.volume, t, p, offset, data, b, c, run, f, r);
                },
                (Engine::Ext4(a), Engine::Ext4(b), Engine::Ext4(f)) => {
                    lemma_ext4_write_step(a, t, p, offset, data, b, c, run, f, r);
                },
                _ => {},
            }
        }
    }
}

/// A search depends on the names alone.
proof fn lemma_find_by_names(a: Seq<FatNode>, b: Seq<FatNode>, w: Seq<char>)
    requires
        a.len() == b.len(),
        forall|k: int|
            0 <= k < a.len() ==> (#[trigger] a[k]).name == b[k].name && a[k].short_name
                == b[k].short_name,
    ensures
        volume::find(a, w) == volume::find(b, w),
    decreases a.len(),
{
    if a.len() > 0 {
        assert(a[0].name == b[0].name);
        let x = a.drop_first();
        let y = b.drop_first();
        assert forall|k: int| 0 <= k < x.len() implies (#[trigger] x[k]).name == y[k].name
            && x[k].short_name == y[k].short_name by {
            assert(a[k + 1].name == b[k + 1].name);
        }
        lemma_find_by_names(x, y, w);
    }
}

/// Another content leaves every path where it was.
proof fn lemma_content_moves_nothing(v: FatVolume, d: int, i: int, c: Seq<u8>, rel: Seq<char>)
    requires
        0 <= i < v.directories[d].len(),
        v.directories[d][i].body is File,
    ensures
        v.with_content(d, i, c).directory_at(rel) == v.directory_at(rel),
        v.with_content(d, i, c).place(rel) == v.place(rel),
    decreases rel.len(),
{
    let u = v.with_content(d, i, c);
    if rel.len() > 0 {
        volume::lemma_parent_is_shorter(rel);
        lemma_content_moves_nothing(v, d, i, c, volume::parent(rel));
        if let Some(x) = v.directory_at(volume::parent(rel)) {
            let w = text::uppercase(volume::leaf(rel));
            lemma_find_by_names(u.directories[x], v.directories[x], w);
            lemma_find(v.directories[x], w);
        }
    }
}

/// Another content leaves a volume in order.
proof fn lemma_content_keeps_order(v: FatVolume, d: int, i: int, c: Seq<u8>)
    requires
        v.valid(),
        v.directories.contains_key(d),
        0 <= i < v.directories[d].len(),
        v.directories[d][i].body is File,
        c.len() <= u64::MAX,
    ensures
        v.with_content(d, i, c).valid(),
{
    let u = v.with_content(d, i, c);
    assert forall|x: int| #[trigger] u.directories.contains_key(x) implies u.valid_directory(
        u.directories[x],
    ) by {
        let nodes = v.directories[x];
        let now = u.directories[x];
        assert(v.directories.contains_key(x));
        assert(v.valid_directory(nodes));
        assert(now.len() == nodes.len());
        assert forall|j: int, k: int, w: Seq<char>|
            0 <= j < k < now.len() && #[trigger] now[j].goes_by(w) implies !(
        #[trigger] now[k].goes_by(w)) by {
            assert(nodes[j].goes_by(w) == now[j].goes_by(w));
            assert(nodes[k].goes_by(w) == now[k].goes_by(w));
        }
        assert forall|j: int| 0 <= j < now.len() implies u.valid_node(#[trigger] now[j]) by {
            assert(v.valid_node(nodes[j]));
            if now[j].is_dot() {
                assert forall|w: Seq<char>| path::component_ok(w) implies !now[j].goes_by(
                    #[trigger] text::uppercase(w),
                ) by {
                    assert(!nodes[j].goes_by(text::uppercase(w)));
                }
            }
        }
    }
}

/// Another content of a file leaves an ext4 volume in order.
proof fn lemma_ext4_content_keeps_order(v: Ext4Volume, p: Seq<char>, c: Seq<u8>)
    requires
        v.valid(),
        v.file_at(p) is Some,
        c.len() <= u64::MAX,
    ensures
        v.with_content(v.names[p], c).valid(),
{
    let u = v.with_content(v.names[p], c);
    assert forall|q: Seq<char>| u.has_directory(q) == v.has_directory(q) by {}
    assert forall|q: Seq<char>, r: Seq<char>|
        #![trigger u.names[q], u.names[r]]
        u.names.contains_key(q) && u.names.contains_key(r) && u.names[q] == u.names[r]
            && u.inodes[u.names[q]].facts.is_file() && u.inodes[u.names[q]].facts.links_count
            == 1 implies q == r by {
        assert(v.names[q] == v.names[r]);
    }
    assert forall|q: Seq<char>| #[trigger]
        u.names.contains_key(q) && !path::is_root(q) implies u.has_directory(volume::above(q)) by {
        assert(v.names.contains_key(q));
        assert(v.has_directory(volume::above(q)));
    }
}

/// The volume after a file was given a new content.
pub open spec fn replaced(e: Engine, p: Seq<char>, now: Seq<u8>, f: Engine) -> bool {
    match (e, f) {
        (Engine::Fat(a), Engine::Fat(b)) => {
            let (d, i) = a.volume.place(path::relative(p))->0;
            b.volume == a.volume.with_content(d, i, now)
        },
        (Engine::Ext4(a), Engine::Ext4(b)) => {
            &&& b.volume == a.volume.with_content(a.volume.names[p], now)
            &&& a.volume.inodes[a.volume.names[p]].facts.links_count == 1
            &&& b.readable()
        },
        _ => false,
    }
}

/// A new content changes nothing else.
proof fn lemma_only_the_content(e: Engine, p: Seq<char>, now: Seq<u8>, f: Engine)
    requires
        e.valid(),
        e.file_at(p) is Some,
        now.len() <= u64::MAX,
        replaced(e, p, now, f),
    ensures
        e.rewrites(p, now, f),
{
    match (e, f) {
        (Engine::Fat(a), Engine::Fat(b)) => {
            let v = a.volume;
            let rel = path::relative(p);
            let (d, i) = v.place(rel)->0;
            lemma_find(v.directories[d], text::uppercase(volume::leaf(rel)));
            lemma_directory_is_there(v, volume::parent(rel));
            lemma_content_keeps_order(v, d, i, now);
            lemma_content_moves_nothing(v, d, i, now, rel);
            assert forall|q: Seq<char>| #[trigger] f.place(q) == e.place(q) by {
                lemma_content_moves_nothing(v, d, i, now, path::relative(q));
            }
            assert forall|q: Seq<char>| e.place(q) != e.place(p) implies #[trigger] f.file_at(q)
                == e.file_at(q) by {
                let r = path::relative(q);
                lemma_content_moves_nothing(v, d, i, now, r);
                if let Some((x, j)) = v.place(r) {
                    lemma_find(v.directories[x], text::uppercase(volume::leaf(r)));
                }
            }
        },
        (Engine::Ext4(a), Engine::Ext4(b)) => {
            let v = a.volume;
            lemma_ext4_content_keeps_order(v, p, now);
            assert forall|q: Seq<char>|
                q != p && e.file_at(q) is Some implies #[trigger] e.place(q) != e.place(p) by {
                if e.place(q) == e.place(p) {
                    assert(v.names[q] == v.names[p]);
                }
            }
        },
        _ => {},
    }
}

/// A write that succeeds puts `bytes` at `offset` of the file, which reached at
/// least that far: what stood before them stays, and what stood behind them too.
/// The file is then as long as it was, or as far as the write reached. Nothing else
/// is changed.
pub proof fn law_writes_change_only_the_file(
    e: Engine,
    s: SessionModel,
    p: Seq<char>,
    offset: u64,
    bytes: Seq<u8>,
    events: Seq<Event>,
    after: Seq<Engine>,
)
    requires
        e.kind() == s.kind,
        e.valid(),
        volume::truthful(e, s, Op::Write(p, offset, bytes), events, after),
        session_laws::progress(s, Op::Write(p, offset, bytes), events).1 matches Next::Done(Ok(_)),
    ensures
        ({
            let c = e.file_at(p)->0;
            let now = volume::overwrite(c, offset as int, bytes);
            &&& e.rewrites(p, now, volume::last_engine(e, after))
            &&& offset <= c.len()
            &&& now.len() == if offset + bytes.len() <= c.len() {
                c.len() as int
            } else {
                offset + bytes.len()
            }
        }),
{
    lemma_write_stands(e, s, p, offset, bytes, events, after);
    let now = volume::overwrite(e.file_at(p)->0, offset as int, bytes);
    lemma_only_the_content(e, p, now, volume::last_engine(e, after));
}

/// The volume with the same content where it was.
proof fn lemma_same_content(e: Engine, p: Seq<char>)
    requires
        e.valid(),
        e.file_at(p) is Some,
    ensures
        match e {
            Engine::Fat(a) => {
                let (d, i) = a.volume.place(path::relative(p))->0;
                a.volume == a.volume.with_content(d, i, e.file_at(p)->0)
            },
            Engine::Ext4(a) => a.volume == a.volume.with_content(
                a.volume.names[p],
                e.file_at(p)->0,
            ),
        },
{
    match e {
        Engine::Fat(a) => {
            let v = a.volume;
            let rel = path::relative(p);
            let (d, i) = v.place(rel)->0;
            let c = e.file_at(p)->0;
            lemma_find(v.directories[d], text::uppercase(volume::leaf(rel)));
            lemma_directory_is_there(v, volume::parent(rel));
            let nodes = v.directories[d];
            assert(nodes.update(i, FatNode { body: FatBody::File(c), ..nodes[i] }) =~= nodes);
            assert(v.with_content(d, i, c).directories =~= v.directories);
        },
        Engine::Ext4(a) => {
            let v = a.volume;
            assert(v.names.contains_key(p));
            assert(v.inodes.contains_key(v.names[p]));
            assert(v.with_content(v.names[p], e.file_at(p)->0).inodes =~= v.inodes);
        },
    }
}

/// Which inode was resolved last does not matter to what the directories tell.
proof fn lemma_resolved_is_free(g: Ext4Engine, b: Ext4Engine)
    requires
        g.readable(),
        b == (Ext4Engine { resolved: b.resolved, ..g }),
    ensures
        b.readable(),
{
    assert forall|dir: Seq<char>, logical: u64| b.volume.has_directory(
        dir,
    ) implies #[trigger] b.block_tells(dir, logical) by {
        assert(g.block_tells(dir, logical));
        if let Some(at) = g.places[(g.volume.names[dir], logical)] {
            if let Ok(records) = crate::directory::records_of(
                g.blocks[at],
                g.volume.inodes[g.volume.names[dir]].facts,
                g.layout,
            ) {
                assert forall|i: int| 0 <= i < records.len() implies b.tells(
                    dir,
                    #[trigger] records[i],
                ) by {
                    assert(g.tells(dir, records[i]));
                }
            }
        }
    }
}

/// Where a cut on FAT may stand.
pub open spec fn fat_cut_stands(first: FatEngine, p: Seq<char>, length: u64, e: FatEngine, next: Next) -> bool {
    let v = first.volume;
    let n = length as int;
    let at = v.place(path::relative(p))->0;
    match next {
        Next::Done(Ok(_)) => fat_file(v, p, n) && replaced(
            Engine::Fat(first),
            p,
            v.file_at(path::relative(p))->0.take(n),
            Engine::Fat(e),
        ),
        Next::Done(Err(_)) => true,
        Next::Call(c, Run::Mutate(x)) => e.volume == v && match x {
            MutateRunOf::Looking { lookup, intent } => !path::is_root(p) && path::refusal(p) is None
                && intent == (IntentModel::Truncate { path: p, length }) && fat_looking(
                e,
                p,
                c,
                lookup,
            ),
            MutateRunOf::CutOpening { length: to } => fat_file(v, p, n) && to == length && c
                == CallModel::OpenFile(path::relative(p)),
            MutateRunOf::CutSeeking => fat_file(v, p, n) && c == CallModel::Seek(length) && e.file
                == at,
            MutateRunOf::Committing => fat_file(v, p, n) && c == CallModel::TruncateFile && e.file
                == at && e.position == n,
            _ => false,
        },
        Next::Call(_, _) => false,
    }
}

proof fn lemma_fat_cut_step(
    first: FatEngine,
    s: SessionModel,
    p: Seq<char>,
    length: u64,
    e: FatEngine,
    c: CallModel,
    run: Run,
    f: FatEngine,
    r: ReplyModel,
)
    requires
        first.volume.valid(),
        s.kind == Kind::Fat,
        fat_cut_stands(first, p, length, e, Next::Call(c, run)),
        e.answers(c, f, r),
    ensures
        fat_cut_stands(first, p, length, f, session_laws::advance(s, run, r).1),
{
    lemma_kinds();
    let v = first.volume;
    if let Run::Mutate(x) = run {
        if let MutateRunOf::Looking { lookup, intent } = x {
            lemma_fat_lookup(e, p, c, lookup, f, r);
            lemma_relative(p);
            lemma_directory_is_there(v, path::holder(p));
            if let StepModel::Done(Ok(entry)) = lookup.resume(r) {
                let (d, i) = v.place(path::relative(p))->0;
                lemma_find(v.directories[d], text::uppercase(path::final_name(p)));
                assert(v.valid_node(v.directories[d][i]));
                if let Some(content) = v.file_at(path::relative(p)) {
                    lemma_same_content(Engine::Fat(first), p);
                    assert(content.take(content.len() as int) =~= content);
                }
            }
        }
    }
}

/// Where a cut on ext4 may stand.
pub open spec fn ext4_cut_stands(
    first: Ext4Engine,
    p: Seq<char>,
    length: u64,
    e: Ext4Engine,
    next: Next,
) -> bool {
    let v = first.volume;
    let n = length as int;
    let same = e == (Ext4Engine { resolved: e.resolved, ..first });
    match next {
        Next::Done(Ok(_)) => ext4_file(v, p, n) && replaced(
            Engine::Ext4(first),
            p,
            v.file_at(p)->0.take(n),
            Engine::Ext4(e),
        ),
        Next::Done(Err(_)) => true,
        Next::Call(c, Run::Mutate(x)) => same && match x {
            MutateRunOf::Looking { lookup, intent } => intent == (IntentModel::Truncate {
                path: p,
                length,
            }) && c == CallModel::Resolve(p) && lookup is Resolving,
            MutateRunOf::CutCounting { length: to, size } => ext4_file(v, p, n) && to == length
                && size == v.file_at(p)->0.len() && c == CallModel::Resolve(p),
            MutateRunOf::Committing => ext4_file(v, p, n) && v.inodes[v.names[p]].facts.links_count
                == 1 && c == (CallModel::ShrinkInode { number: v.names[p], length }),
            _ => false,
        },
        Next::Call(_, _) => false,
    }
}

proof fn lemma_ext4_cut_step(
    first: Ext4Engine,
    s: SessionModel,
    p: Seq<char>,
    length: u64,
    e: Ext4Engine,
    c: CallModel,
    run: Run,
    f: Ext4Engine,
    r: ReplyModel,
)
    requires
        first.valid(),
        s.kind == Kind::Ext4,
        ext4_cut_stands(first, p, length, e, Next::Call(c, run)),
        e.answers(c, f, r),
    ensures
        ext4_cut_stands(first, p, length, f, session_laws::advance(s, run, r).1),
{
    lemma_kinds();
    if let Run::Mutate(MutateRunOf::CutCounting { .. }) = run {
        let content = first.volume.file_at(p)->0;
        lemma_same_content(Engine::Ext4(first), p);
        lemma_resolved_is_free(first, f);
        assert(content.take(content.len() as int) =~= content);
    }
}

/// Every cut stands where it may.
pub proof fn lemma_cut_stands(
    e: Engine,
    s: SessionModel,
    p: Seq<char>,
    length: u64,
    events: Seq<Event>,
    after: Seq<Engine>,
)
    requires
        e.kind() == s.kind,
        e.valid(),
        volume::truthful(e, s, Op::Truncate(p, length), events, after),
    ensures
        ({
            let next = session_laws::progress(s, Op::Truncate(p, length), events).1;
            match (e, volume::last_engine(e, after)) {
                (Engine::Fat(a), Engine::Fat(b)) => fat_cut_stands(a, p, length, b, next),
                (Engine::Ext4(a), Engine::Ext4(b)) => ext4_cut_stands(a, p, length, b, next),
                _ => false,
            }
        }),
    decreases events.len(),
{
    let op = Op::Truncate(p, length);
    if events.len() == 0 {
        lemma_kinds();
    } else {
        let before = events.drop_last();
        lemma_cut_stands(e, s, p, length, before, after.drop_last());
        session_laws::law_operations_keep_their_bounds(s, op, before);
        let (t, next) = session_laws::progress(s, op, before);
        let r = events.last().0;
        if let Next::Call(c, run) = next {
            match (e, volume::last_engine(e, after.drop_last()), after.last()) {
                (Engine::Fat(a), Engine::Fat(b), Engine::Fat(f)) => {
                    lemma_fat_cut_step(a, t, p, length, b, c, run, f, r);
                },
                (Engine::Ext4(a), Engine::Ext4(b), Engine::Ext4(f)) => {
                    lemma_ext4_cut_step(a, t, p, length, b, c, run, f, r);
                },
                _ => {},
            }
        }
    }
}

/// A truncation that succeeds leaves the first `length` bytes of the file, which
/// had at least so many, and changes nothing else.
pub proof fn law_truncations_keep_the_start(
    e: Engine,
    s: SessionModel,
    p: Seq<char>,
    length: u64,
    events: Seq<Event>,
    after: Seq<Engine>,
)
    requires
        e.kind() == s.kind,
        e.valid(),
        volume::truthful(e, s, Op::Truncate(p, length), events, after),
        session_laws::progress(s, Op::Truncate(p, length), events).1 matches Next::Done(Ok(_)),
    ensures
        length <= e.file_at(p)->0.len(),
        e.rewrites(p, e.file_at(p)->0.take(length as int), volume::last_engine(e, after)),
{
    lemma_cut_stands(e, s, p, length, events, after);
    lemma_only_the_content(
        e,
        p,
        e.file_at(p)->0.take(length as int),
        volume::last_engine(e, after),
    );
}

/// What was written is read back: a read of the file, in the same session or in a
/// fresh one on the same volume, gives what the write left there.
pub proof fn law_writes_are_read_back(
    e: Engine,
    s: SessionModel,
    p: Seq<char>,
    offset: u64,
    bytes: Seq<u8>,
    events: Seq<Event>,
    after: Seq<Engine>,
    fresh: Engine,
    reader: SessionModel,
    from: u64,
    length: usize,
    reads: Seq<Event>,
    then_after: Seq<Engine>,
)
    requires
        e.kind() == s.kind,
        e.valid(),
        volume::truthful(e, s, Op::Write(p, offset, bytes), events, after),
        session_laws::progress(s, Op::Write(p, offset, bytes), events).1 matches Next::Done(Ok(_)),
        fresh.same_volume(volume::last_engine(e, after)),
        reader.usable(),
        reader.kind == s.kind,
        path::refusal(p) is None,
        length <= MAX_FILE_CHUNK,
        volume::truthful(fresh, reader, Op::Read(p, from, length), reads, then_after),
    ensures
        session_laws::progress(reader, Op::Read(p, from, length), reads).1 matches Next::Done(r)
            ==> r == Ok::<Value, Seq<char>>(
            Value::Bytes(
                volume::part(
                    volume::overwrite(e.file_at(p)->0, offset as int, bytes),
                    from as int,
                    length as int,
                ),
            ),
        ),
{
    law_writes_change_only_the_file(e, s, p, offset, bytes, events, after);
    law_reads_give_the_file(fresh, reader, p, from, length, reads, then_after);
}

/// How a lookup of `p` on ext4 ends.
pub open spec fn ext4_looked(v: Ext4Volume, p: Seq<char>, r: Result<Value, Seq<char>>) -> bool {
    match v.node_at(p) {
        Some(n) => r == if n.facts.is_link() {
            Err::<Value, Seq<char>>(stat::link_refusal())
        } else {
            Ok(Value::Entry(stat::inode_entry(path::final_name(p), n.facts)))
        },
        None => r is Err && (v.has_directory(volume::above(p)) ==> r == Err::<Value, Seq<char>>(
            "not found"@,
        )),
    }
}

/// How a lookup of `p` on FAT ends.
pub open spec fn fat_told(v: FatVolume, p: Seq<char>, r: Result<Value, Seq<char>>) -> bool {
    match r {
        Ok(value) => value matches Value::Entry(entry) && fat_looked(v, p, Ok(entry)),
        Err(why) => fat_looked(v, p, Err(why)),
    }
}

/// Every lookup stands where it may.
pub proof fn lemma_stat_stands(
    e: Engine,
    s: SessionModel,
    p: Seq<char>,
    events: Seq<Event>,
    after: Seq<Engine>,
)
    requires
        e.kind() == s.kind,
        s.usable(),
        path::refusal(p) is None,
        !path::is_root(p),
        volume::truthful(e, s, Op::Stat(p), events, after),
    ensures
        match (e, volume::last_engine(e, after)) {
            (Engine::Fat(a), Engine::Fat(b)) => b.volume == a.volume && match session_laws::progress(
                s,
                Op::Stat(p),
                events,
            ).1 {
                Next::Done(r) => fat_told(a.volume, p, r),
                Next::Call(c, run) => run matches Run::Stat(x) && fat_looking(b, p, c, x) && (
                match x {
                    StatRunOf::Scanning { seen, .. } => seen <= MAX_ENTRIES && events.len() == seen
                        + 1,
                    _ => events.len() == 0,
                }),
            },
            (Engine::Ext4(a), Engine::Ext4(b)) => b.volume == a.volume && match session_laws::progress(
                s,
                Op::Stat(p),
                events,
            ).1 {
                Next::Done(r) => ext4_looked(a.volume, p, r),
                Next::Call(c, run) => run == Run::Stat(
                    StatRunOf::Resolving { name: path::final_name(p) },
                ) && c == CallModel::Resolve(p) && events.len() == 0,
            },
            _ => false,
        },
    decreases events.len(),
{
    if events.len() > 0 {
        let before = events.drop_last();
        lemma_stat_stands(e, s, p, before, after.drop_last());
        let (t, next) = session_laws::progress(s, Op::Stat(p), before);
        let r = events.last().0;
        match (volume::last_engine(e, after.drop_last()), after.last()) {
            (Engine::Fat(b), Engine::Fat(f)) => {
                if let Next::Call(c, Run::Stat(x)) = next {
                    lemma_fat_lookup(b, p, c, x, f, r);
                }
            },
            _ => {},
        }
    }
}

/// Where a removal on FAT may stand, and what has become of the session.
pub open spec fn fat_remove_stands(
    v: FatVolume,
    s: SessionModel,
    p: Seq<char>,
    e: FatEngine,
    t: SessionModel,
    next: Next,
) -> bool {
    let place = v.place(path::relative(p));
    match next {
        Next::Done(Ok(_)) => {
            &&& path::refusal(p) is None
            &&& !path::is_root(p)
            &&& place matches Some((d, i))
            &&& v.directories[d][i].body matches FatBody::Directory(k) ==> v.is_empty(k)
            &&& e.volume == v.without(d, i)
        },
        Next::Done(Err(_)) => e.volume == v && (place is None ==> t == s),
        Next::Call(c, Run::Mutate(x)) => e.volume == v && t == s && path::refusal(p) is None
            && !path::is_root(p) && match x {
            MutateRunOf::Looking { lookup, intent } => intent == IntentModel::Remove(p)
                && fat_looking(e, p, c, lookup),
            MutateRunOf::Committing => place is Some && c == CallModel::RemoveEntry(
                path::relative(p),
            ),
            _ => false,
        },
        Next::Call(_, _) => false,
    }
}

/// Where a removal on ext4 may stand, and what has become of the session.
pub open spec fn ext4_remove_stands(
    v: Ext4Volume,
    s: SessionModel,
    p: Seq<char>,
    e: Ext4Engine,
    t: SessionModel,
    next: Next,
) -> bool {
    match next {
        Next::Done(Ok(_)) => {
            &&& path::refusal(p) is None
            &&& !path::is_root(p)
            &&& v.names.contains_key(p)
            &&& v.has_directory(p) ==> v.is_empty(p)
            &&& e.volume.names == v.names.remove(p)
            &&& forall|q: Seq<char>| #[trigger]
                e.volume.names.contains_key(q) ==> e.volume.same_inode(v, e.volume.names[q])
            &&& e.valid()
        },
        Next::Done(Err(_)) => e.volume == v && (!v.names.contains_key(p) ==> t == s),
        Next::Call(c, Run::Mutate(x)) => e.volume == v && t == s && path::refusal(p) is None
            && !path::is_root(p) && match x {
            MutateRunOf::Looking { lookup, intent } => intent == IntentModel::Remove(p) && c
                == CallModel::Resolve(p) && lookup is Resolving,
            MutateRunOf::Committing => v.names.contains_key(p) && c == if v.has_directory(p) {
                CallModel::RemoveDirectory(p)
            } else {
                CallModel::Unlink(p)
            },
            _ => false,
        },
        Next::Call(_, _) => false,
    }
}

/// Every removal stands where it may.
pub proof fn lemma_remove_stands(
    e: Engine,
    s: SessionModel,
    p: Seq<char>,
    events: Seq<Event>,
    after: Seq<Engine>,
)
    requires
        e.kind() == s.kind,
        volume::truthful(e, s, Op::Remove(p), events, after),
    ensures
        ({
            let (t, next) = session_laws::progress(s, Op::Remove(p), events);
            match (e, volume::last_engine(e, after)) {
                (Engine::Fat(a), Engine::Fat(b)) => fat_remove_stands(a.volume, s, p, b, t, next),
                (Engine::Ext4(a), Engine::Ext4(b)) => ext4_remove_stands(
                    a.volume,
                    s,
                    p,
                    b,
                    t,
                    next,
                ),
                _ => false,
            }
        }),
    decreases events.len(),
{
    if events.len() == 0 {
        lemma_remove_starts(e, s, p);
    } else {
        let before = events.drop_last();
        lemma_remove_stands(e, s, p, before, after.drop_last());
        session_laws::law_operations_keep_their_bounds(s, Op::Remove(p), before);
        let (t, next) = session_laws::progress(s, Op::Remove(p), before);
        let r = events.last().0;
        if let Next::Call(c, run) = next {
            match (e, volume::last_engine(e, after.drop_last()), after.last()) {
                (Engine::Fat(a), Engine::Fat(b), Engine::Fat(f)) => {
                    lemma_fat_remove_step(a.volume, s, p, b, t, c, run, f, r);
                },
                (Engine::Ext4(a), Engine::Ext4(b), Engine::Ext4(f)) => {
                    lemma_ext4_remove_step(a.volume, s, p, b, t, c, run, f, r);
                },
                _ => {},
            }
        }
    }
}

proof fn lemma_remove_starts(e: Engine, s: SessionModel, p: Seq<char>)
    requires
        e.kind() == s.kind,
    ensures
        ({
            let (t, next) = session_laws::start(s, Op::Remove(p));
            match e {
                Engine::Fat(a) => fat_remove_stands(a.volume, s, p, a, t, next),
                Engine::Ext4(a) => ext4_remove_stands(a.volume, s, p, a, t, next),
            }
        }),
{
}

proof fn lemma_fat_remove_step(
    v: FatVolume,
    s: SessionModel,
    p: Seq<char>,
    e: FatEngine,
    t: SessionModel,
    c: CallModel,
    run: Run,
    f: FatEngine,
    r: ReplyModel,
)
    requires
        s.kind == Kind::Fat,
        fat_remove_stands(v, s, p, e, t, Next::Call(c, run)),
        e.answers(c, f, r),
    ensures
        fat_remove_stands(
            v,
            s,
            p,
            f,
            session_laws::advance(t, run, r).0,
            session_laws::advance(t, run, r).1,
        ),
{
    if let Run::Mutate(MutateRunOf::Looking { lookup, intent }) = run {
        lemma_fat_lookup(e, p, c, lookup, f, r);
    }
}

proof fn lemma_ext4_remove_step(
    v: Ext4Volume,
    s: SessionModel,
    p: Seq<char>,
    e: Ext4Engine,
    t: SessionModel,
    c: CallModel,
    run: Run,
    f: Ext4Engine,
    r: ReplyModel,
)
    requires
        s.kind == Kind::Ext4,
        ext4_remove_stands(v, s, p, e, t, Next::Call(c, run)),
        e.answers(c, f, r),
    ensures
        ext4_remove_stands(
            v,
            s,
            p,
            f,
            session_laws::advance(t, run, r).0,
            session_laws::advance(t, run, r).1,
        ),
{
    lemma_kinds();
}

/// What a search finds once one node is gone.
proof fn lemma_find_without(nodes: Seq<FatNode>, i: int, w: Seq<char>)
    requires
        volume::distinct(nodes),
        0 <= i < nodes.len(),
    ensures
        volume::distinct(nodes.remove(i)),
        match volume::find(nodes, w) {
            None => volume::find(nodes.remove(i), w) is None,
            Some(j) => if i == j {
                volume::find(nodes.remove(i), w) is None
            } else {
                volume::find(nodes.remove(i), w) matches Some(k) && 0 <= k < nodes.remove(i).len()
                    && nodes.remove(i)[k] == nodes[j]
            },
        },
{
    let now = nodes.remove(i);
    assert forall|j: int, k: int, x: Seq<char>|
        0 <= j < k < now.len() && #[trigger] now[j].goes_by(x) implies !(
    #[trigger] now[k].goes_by(x)) by {
        let a = if j < i {
            j
        } else {
            j + 1
        };
        let b = if k < i {
            k
        } else {
            k + 1
        };
        assert(now[j] == nodes[a] && now[k] == nodes[b]);
        assert(nodes[a].goes_by(x));
        assert(!nodes[b].goes_by(x));
    }
    lemma_find(nodes, w);
    lemma_find(now, w);
    if let Some(k) = volume::find(now, w) {
        let b = if k < i {
            k
        } else {
            k + 1
        };
        assert(now[k] == nodes[b]);
        assert(nodes[b].goes_by(w));
        lemma_found(nodes, b, w);
    }
    if let Some(j) = volume::find(nodes, w) {
        if i != j {
            let k = if j < i {
                j
            } else {
                j - 1
            };
            assert(now[k] == nodes[j]);
            lemma_found(now, k, w);
        }
    }
}

/// No name in order is that of something in an empty directory.
proof fn lemma_nothing_in_empty(v: FatVolume, k: int, name: Seq<char>)
    requires
        v.valid(),
        v.directories.contains_key(k),
        v.is_empty(k),
        path::component_ok(name),
    ensures
        volume::find(v.directories[k], text::uppercase(name)) is None,
{
    let nodes = v.directories[k];
    let w = text::uppercase(name);
    lemma_find(nodes, w);
    if let Some(j) = volume::find(nodes, w) {
        assert(v.valid_directory(nodes));
        assert(v.valid_node(nodes[j]));
        assert(nodes[j].is_dot());
        assert(!nodes[j].goes_by(text::uppercase(name)));
    }
}

/// A path leads to the same directory as before, unless it led to the one that is
/// gone.
proof fn lemma_directories_without(v: FatVolume, d: int, i: int, rel: Seq<char>)
    requires
        v.valid(),
        v.directories.contains_key(d),
        0 <= i < v.directories[d].len(),
        v.directories[d][i].body matches FatBody::Directory(k) ==> v.is_empty(k),
        volume::plain(rel),
    ensures
        v.without(d, i).directory_at(rel) == v.directory_at(rel) || (v.without(d, i).directory_at(
            rel,
        ) is None && (v.directories[d][i].body matches FatBody::Directory(k)
            && v.directory_at(rel) == Some(k))),
    decreases rel.len(),
{
    let u = v.without(d, i);
    if rel.len() > 0 {
        let up = volume::parent(rel);
        volume::lemma_parent_is_shorter(rel);
        lemma_directories_without(v, d, i, up);
        lemma_directory_is_there(v, up);
        let w = text::uppercase(volume::leaf(rel));
        if let Some(y) = v.directory_at(up) {
            assert(v.valid_directory(v.directories[y]));
            if u.directory_at(up) is None {
                lemma_nothing_in_empty(v, y, volume::leaf(rel));
            } else if y == d {
                lemma_find_without(v.directories[d], i, w);
            }
        }
    }
}

/// A path leads to the same as before, unless it led to what is gone.
proof fn lemma_nodes_without(v: FatVolume, d: int, i: int, rel: Seq<char>)
    requires
        v.valid(),
        v.directories.contains_key(d),
        0 <= i < v.directories[d].len(),
        v.directories[d][i].body matches FatBody::Directory(k) ==> v.is_empty(k),
        volume::plain(rel),
    ensures
        v.place(rel) == Some((d, i)) ==> v.without(d, i).place(rel) is None,
        v.place(rel) != Some((d, i)) ==> v.without(d, i).node_at(rel) == v.node_at(rel),
{
    let u = v.without(d, i);
    if rel.len() > 0 {
        let up = volume::parent(rel);
        volume::lemma_parent_is_shorter(rel);
        lemma_directories_without(v, d, i, up);
        lemma_directory_is_there(v, up);
        let w = text::uppercase(volume::leaf(rel));
        if let Some(y) = v.directory_at(up) {
            assert(v.valid_directory(v.directories[y]));
            lemma_find(v.directories[y], w);
            if u.directory_at(up) is None {
                lemma_nothing_in_empty(v, y, volume::leaf(rel));
            } else if y == d {
                lemma_find_without(v.directories[d], i, w);
            }
        }
    }
}

/// A volume without one of its nodes is in order.
proof fn lemma_order_without(v: FatVolume, d: int, i: int)
    requires
        v.valid(),
        v.directories.contains_key(d),
        0 <= i < v.directories[d].len(),
    ensures
        v.without(d, i).valid(),
{
    let u = v.without(d, i);
    assert forall|x: int| #[trigger] u.directories.contains_key(x) implies u.valid_directory(
        u.directories[x],
    ) by {
        let nodes = v.directories[x];
        let now = u.directories[x];
        assert(v.directories.contains_key(x));
        assert(v.valid_directory(nodes));
        if x == d {
            lemma_find_without(nodes, i, seq![]);
        }
        assert forall|j: int| 0 <= j < now.len() implies u.valid_node(#[trigger] now[j]) by {
            let a = if x != d || j < i {
                j
            } else {
                j + 1
            };
            assert(now[j] == nodes[a]);
            assert(v.valid_node(nodes[a]));
        }
    }
}

/// A removal that succeeds takes its entry off the volume, which was there, and
/// was no directory that held anything; every other accepted path leads to what it
/// led to. One that fails leaves the volume as it was, so that a directory is
/// kept with all that it holds.
pub proof fn law_removals_take_one_entry(
    e: Engine,
    s: SessionModel,
    p: Seq<char>,
    events: Seq<Event>,
    after: Seq<Engine>,
)
    requires
        e.kind() == s.kind,
        e.valid(),
        volume::truthful(e, s, Op::Remove(p), events, after),
    ensures
        ({
            let f = volume::last_engine(e, after);
            match session_laws::progress(s, Op::Remove(p), events).1 {
                Next::Done(Ok(_)) => {
                    &&& f.kind() == e.kind()
                    &&& f.valid()
                    &&& !path::is_root(p)
                    &&& e.place(p) is Some
                    &&& f.place(p) is None
                    &&& forall|q: Seq<char>|
                        path::refusal(q) is None ==> #[trigger] f.thing_at(q) == if e.same_entry(
                            p,
                            q,
                        ) {
                            None
                        } else {
                            e.thing_at(q)
                        }
                },
                _ => f.same_volume(e),
            }
        }),
{
    lemma_remove_stands(e, s, p, events, after);
    let f = volume::last_engine(e, after);
    if session_laws::progress(s, Op::Remove(p), events).1 matches Next::Done(Ok(_)) {
        match (e, f) {
            (Engine::Fat(a), Engine::Fat(b)) => {
                let v = a.volume;
                let rel = path::relative(p);
                let (d, i) = v.place(rel)->0;
                lemma_accepted_is_plain(p);
                lemma_directory_is_there(v, volume::parent(rel));
                lemma_find(v.directories[d], text::uppercase(volume::leaf(rel)));
                lemma_nodes_without(v, d, i, rel);
                lemma_order_without(v, d, i);
                assert forall|q: Seq<char>| path::refusal(q) is None implies #[trigger] f.thing_at(
                    q,
                ) == if e.same_entry(p, q) {
                    None
                } else {
                    e.thing_at(q)
                } by {
                    lemma_accepted_is_plain(q);
                    lemma_nodes_without(v, d, i, path::relative(q));
                }
            },
            (Engine::Ext4(a), Engine::Ext4(b)) => {
                assert forall|q: Seq<char>| p != q implies #[trigger] f.thing_at(q) == e.thing_at(
                    q,
                ) by {
                    if b.volume.names.contains_key(q) {
                        assert(b.volume.same_inode(a.volume, a.volume.names[q]));
                    }
                }
            },
            _ => {},
        }
    }
}

/// A path that was removed is not found, in the same session or in a fresh one on
/// the same volume. Where the directory that held it is too large to be looked
/// through, that is said instead.
pub proof fn law_removed_paths_are_not_found(
    e: Engine,
    s: SessionModel,
    p: Seq<char>,
    events: Seq<Event>,
    after: Seq<Engine>,
    fresh: Engine,
    reader: SessionModel,
    looks: Seq<Event>,
    looked: Seq<Engine>,
)
    requires
        e.kind() == s.kind,
        e.valid(),
        volume::truthful(e, s, Op::Remove(p), events, after),
        session_laws::progress(s, Op::Remove(p), events).1 matches Next::Done(Ok(_)),
        fresh.same_volume(volume::last_engine(e, after)),
        reader.usable(),
        reader.kind == s.kind,
        volume::truthful(fresh, reader, Op::Stat(p), looks, looked),
    ensures
        session_laws::progress(reader, Op::Stat(p), looks).1 matches Next::Done(r) ==> r is Err && (
        fresh.scannable(p) ==> r == Err::<Value, Seq<char>>("not found"@)),
{
    law_removals_take_one_entry(e, s, p, events, after);
    lemma_remove_stands(e, s, p, events, after);
    lemma_stat_stands(fresh, reader, p, looks, looked);
    match (e, fresh) {
        (Engine::Fat(a), Engine::Fat(g)) => {
            let v = a.volume;
            let rel = path::relative(p);
            let (d, i) = v.place(rel)->0;
            lemma_relative(p);
            lemma_accepted_is_plain(p);
            lemma_directory_is_there(v, path::holder(p));
            lemma_find(v.directories[d], text::uppercase(path::final_name(p)));
            lemma_directories_without(v, d, i, path::holder(p));
            if g.volume.directory_at(path::holder(p)) is None {
                lemma_nothing_in_empty(v, d, path::final_name(p));
            }
        },
        (Engine::Ext4(a), Engine::Ext4(g)) => {
            let v = a.volume;
            let up = volume::above(p);
            path::lemma_last_slash(p);
            assert(up.len() < p.len());
            assert(v.names.contains_key(p));
            assert(v.has_directory(up));
            assert(g.volume.names.contains_key(up));
            assert(g.volume.same_inode(v, v.names[up]));
        },
        _ => {},
    }
}

/// A removal of what is not there, or of the root, fails without a call that
/// could change anything, and leaves the session and the volume as they were.
pub proof fn law_absent_paths_are_not_removed(
    e: Engine,
    s: SessionModel,
    p: Seq<char>,
    events: Seq<Event>,
    after: Seq<Engine>,
)
    requires
        e.kind() == s.kind,
        e.place(p) is None || path::is_root(p),
        volume::truthful(e, s, Op::Remove(p), events, after),
    ensures
        volume::last_engine(e, after).same_volume(e),
        session_laws::progress(s, Op::Remove(p), events).0 == s,
        match session_laws::progress(s, Op::Remove(p), events).1 {
            Next::Done(r) => r is Err,
            Next::Call(c, _) => !c.mutates(),
        },
{
    lemma_remove_stands(e, s, p, events, after);
    if path::is_root(p) && events.len() > 0 {
        // No call was outstanding that an event could have answered.
        lemma_remove_stands(e, s, p, events.drop_last(), after.drop_last());
        assert(session_laws::progress(s, Op::Remove(p), events.drop_last()).1 is Call);
    }
    if let Next::Call(c, Run::Mutate(x)) = session_laws::progress(s, Op::Remove(p), events).1 {
        assert(x is Looking);
    }
}

/// Whether a lookup of `p`, with this call outstanding, is under way.
pub open spec fn looking(e: Engine, p: Seq<char>, c: CallModel, x: StatModel) -> bool {
    match e {
        Engine::Fat(b) => !path::is_root(p) && fat_looking(b, p, c, x),
        Engine::Ext4(_) => c == CallModel::Resolve(p) && x is Resolving,
    }
}

/// A step of a lookup: it goes on, or it ends, and on FAT it then says that nothing
/// was found only where nothing is there.
proof fn lemma_lookup_step(
    e: Engine,
    p: Seq<char>,
    c: CallModel,
    x: StatModel,
    f: Engine,
    r: ReplyModel,
)
    requires
        path::refusal(p) is None,
        looking(e, p, c, x),
        e.answers(c, f, r),
    ensures
        f.same_volume(e),
        match x.resume(r) {
            StepModel::Call(next, y) => looking(f, p, next, y),
            StepModel::Done(found) => found == Err::<EntryModel, Seq<char>>("not found"@) && e is Fat
                ==> e.place(p) is None,
        },
{
    if let (Engine::Fat(a), Engine::Fat(b)) = (e, f) {
        lemma_fat_lookup(a, p, c, x, b, r);
        lemma_relative(p);
    }
}

/// Where the creation of a file or a directory may stand.
pub open spec fn create_stands(first: Engine, op: Op, p: Seq<char>, e: Engine, next: Next) -> bool {
    match next {
        Next::Done(Ok(_)) => path::refusal(p) is None && match (first, e) {
            (Engine::Fat(a), Engine::Fat(b)) => a.adds(path::relative(p), b) && (
            b.volume.file_at(path::relative(p)) is Some ==> b.volume.file_at(path::relative(p))
                == Some(Seq::<u8>::empty())) && (op is Create <==> b.volume.file_at(
                path::relative(p),
            ) is Some),
            (Engine::Ext4(a), Engine::Ext4(b)) => a.adds(p, b) && match op {
                Op::Create(_) => b.volume.file_at(p) == Some(Seq::<u8>::empty()),
                _ => b.volume.has_directory(p) && b.holds_nothing(p),
            },
            _ => false,
        },
        Next::Done(Err(_)) => true,
        Next::Call(c, Run::Mutate(x)) => e.same_volume(first) && path::refusal(p) is None && match x {
            MutateRunOf::Looking { lookup, intent } => (intent == match op {
                Op::Create(_) => IntentModel::Create(p),
                _ => IntentModel::Mkdir(p),
            }) && looking(e, p, c, lookup),
            MutateRunOf::Committing => (e is Fat ==> e.place(p) is None) && c == match (e, op) {
                (Engine::Fat(_), Op::Create(_)) => CallModel::CreateFile(path::relative(p)),
                (Engine::Fat(_), _) => CallModel::CreateDirectory(path::relative(p)),
                (Engine::Ext4(_), Op::Create(_)) => CallModel::CreateInode(p),
                (Engine::Ext4(_), _) => CallModel::MakeDirectory(p),
            },
            _ => false,
        },
        Next::Call(_, _) => false,
    }
}

/// Every creation stands where it may.
pub proof fn lemma_create_stands(
    e: Engine,
    s: SessionModel,
    op: Op,
    p: Seq<char>,
    events: Seq<Event>,
    after: Seq<Engine>,
)
    requires
        op == Op::Create(p) || op == Op::Mkdir(p),
        e.kind() == s.kind,
        volume::truthful(e, s, op, events, after),
    ensures
        create_stands(
            e,
            op,
            p,
            volume::last_engine(e, after),
            session_laws::progress(s, op, events).1,
        ),
        volume::last_engine(e, after).kind() == e.kind(),
    decreases events.len(),
{
    if events.len() > 0 {
        let before = events.drop_last();
        lemma_create_stands(e, s, op, p, before, after.drop_last());
        session_laws::law_operations_keep_their_bounds(s, op, before);
        let now = volume::last_engine(e, after.drop_last());
        if let Next::Call(c, Run::Mutate(MutateRunOf::Looking { lookup, intent })) =
            session_laws::progress(s, op, before).1 {
            lemma_lookup_step(now, p, c, lookup, after.last(), events.last().0);
        }
    }
}

/// A creation that succeeds adds an empty file, or an empty directory, where
/// nothing was; every other accepted path leads to what it led to.
pub proof fn law_creations_add_one_entry(
    e: Engine,
    s: SessionModel,
    op: Op,
    p: Seq<char>,
    events: Seq<Event>,
    after: Seq<Engine>,
)
    requires
        op == Op::Create(p) || op == Op::Mkdir(p),
        e.kind() == s.kind,
        volume::truthful(e, s, op, events, after),
        session_laws::progress(s, op, events).1 matches Next::Done(Ok(_)),
    ensures
        ({
            let f = volume::last_engine(e, after);
            &&& f.kind() == e.kind()
            &&& f.valid()
            &&& f.place(p) is Some
            &&& f.thing_at(p) == Some(
                (
                    if op is Create {
                        "file"@
                    } else {
                        "directory"@
                    },
                    Seq::<u8>::empty(),
                ),
            )
            &&& forall|q: Seq<char>|
                path::refusal(q) is None ==> #[trigger] e.thing_at(q) == if f.same_entry(p, q) {
                    None
                } else {
                    f.thing_at(q)
                }
        }),
{
    lemma_create_stands(e, s, op, p, events, after);
    let f = volume::last_engine(e, after);
    match (e, f) {
        (Engine::Fat(a), Engine::Fat(b)) => {
            let v = b.volume;
            let rel = path::relative(p);
            let (d, i) = v.place(rel)->0;
            lemma_directory_is_there(v, volume::parent(rel));
            lemma_find(v.directories[d], text::uppercase(volume::leaf(rel)));
            assert forall|q: Seq<char>| path::refusal(q) is None implies #[trigger] e.thing_at(q)
                == if f.same_entry(p, q) {
                None
            } else {
                f.thing_at(q)
            } by {
                lemma_accepted_is_plain(q);
                lemma_nodes_without(v, d, i, path::relative(q));
            }
        },
        (Engine::Ext4(a), Engine::Ext4(b)) => {
            assert forall|q: Seq<char>| path::refusal(q) is None implies #[trigger] e.thing_at(q)
                == if f.same_entry(p, q) {
                None
            } else {
                f.thing_at(q)
            } by {
                if p != q && a.volume.names.contains_key(q) {
                    assert(b.volume.same_inode(a.volume, a.volume.names[q]));
                }
            }
        },
        _ => {},
    }
}

/// Removing what was created undoes the creation: every accepted path leads again
/// to what it led to before.
pub proof fn law_removal_undoes_creation(
    e: Engine,
    s: SessionModel,
    op: Op,
    p: Seq<char>,
    events: Seq<Event>,
    after: Seq<Engine>,
    next: Engine,
    t: SessionModel,
    removals: Seq<Event>,
    removed: Seq<Engine>,
    q: Seq<char>,
)
    requires
        op == Op::Create(p) || op == Op::Mkdir(p),
        e.kind() == s.kind,
        volume::truthful(e, s, op, events, after),
        session_laws::progress(s, op, events).1 matches Next::Done(Ok(_)),
        next.same_volume(volume::last_engine(e, after)),
        next.valid(),
        t.kind == s.kind,
        volume::truthful(next, t, Op::Remove(p), removals, removed),
        session_laws::progress(t, Op::Remove(p), removals).1 matches Next::Done(Ok(_)),
        path::refusal(q) is None,
    ensures
        volume::last_engine(next, removed).thing_at(q) == e.thing_at(q),
{
    law_creations_add_one_entry(e, s, op, p, events, after);
    law_removals_take_one_entry(next, t, p, removals, removed);
    let f = volume::last_engine(e, after);
    assert(e.thing_at(q) == if f.same_entry(p, q) {
        None
    } else {
        f.thing_at(q)
    });
    assert(next.thing_at(q) == f.thing_at(q));
    assert(next.same_entry(p, q) == f.same_entry(p, q));
}

/// Once a node is gone, a path that led to it or through it leads nowhere, and
/// every other leads to what it led to.
proof fn lemma_through_without(v: FatVolume, d: int, i: int, rel: Seq<char>)
    requires
        v.valid(),
        v.directories.contains_key(d),
        0 <= i < v.directories[d].len(),
    ensures
        v.through(rel, (d, i)) ==> v.without(d, i).directory_at(rel) is None && v.without(
            d,
            i,
        ).place(rel) is None,
        !v.through(rel, (d, i)) ==> v.without(d, i).directory_at(rel) == v.directory_at(rel)
            && v.without(d, i).node_at(rel) == v.node_at(rel),
    decreases rel.len(),
{
    if rel.len() > 0 {
        let up = volume::parent(rel);
        volume::lemma_parent_is_shorter(rel);
        lemma_through_without(v, d, i, up);
        lemma_directory_is_there(v, up);
        let w = text::uppercase(volume::leaf(rel));
        if let Some(y) = v.directory_at(up) {
            assert(v.valid_directory(v.directories[y]));
            if y == d {
                lemma_find_without(v.directories[d], i, w);
            }
        }
    }
}

/// Where a rename may stand.
pub open spec fn rename_stands(
    first: Engine,
    from: Seq<char>,
    to: Seq<char>,
    e: Engine,
    next: Next,
) -> bool {
    let in_order = path::refusal(from) is None && path::refusal(to) is None && !path::is_root(from)
        && !path::is_root(to);
    match next {
        Next::Done(Ok(_)) => in_order && match (first, e) {
            (Engine::Fat(a), Engine::Fat(b)) => a.renames(
                path::relative(from),
                path::relative(to),
                b,
            ),
            (Engine::Ext4(a), Engine::Ext4(b)) => a.renames(from, to, b),
            _ => false,
        },
        Next::Done(Err(_)) => true,
        Next::Call(c, Run::Mutate(x)) => in_order && e.same_volume(first) && match x {
            MutateRunOf::Looking { lookup, intent } => (intent == IntentModel::RenameFrom(from, to)
                && looking(e, from, c, lookup)) || (intent == IntentModel::RenameTo(from, to)
                && looking(e, to, c, lookup)),
            MutateRunOf::Committing => match e {
                Engine::Fat(_) => e.place(to) is None && c == CallModel::RenameEntry(
                    path::relative(from),
                    path::relative(to),
                ),
                Engine::Ext4(_) => c == CallModel::RenameInode(from, to),
            },
            _ => false,
        },
        Next::Call(_, _) => false,
    }
}

proof fn lemma_rename_step(
    first: Engine,
    s: SessionModel,
    from: Seq<char>,
    to: Seq<char>,
    e: Engine,
    c: CallModel,
    run: Run,
    f: Engine,
    r: ReplyModel,
)
    requires
        s.kind == first.kind(),
        rename_stands(first, from, to, e, Next::Call(c, run)),
        e.answers(c, f, r),
    ensures
        rename_stands(first, from, to, f, session_laws::advance(s, run, r).1),
{
    if let Run::Mutate(MutateRunOf::Looking { lookup, intent }) = run {
        lemma_lookup_step(
            e,
            if intent is RenameFrom {
                from
            } else {
                to
            },
            c,
            lookup,
            f,
            r,
        );
    }
    if let (Engine::Fat(a), Engine::Fat(b), Engine::Fat(g)) = (first, e, f) {
        let target = path::relative(to);
        if b.renames(path::relative(from), target, g) {
            let (d, i) = b.volume.place(path::relative(from))->0;
            let x = b.volume.directory_at(volume::parent(target))->0;
            let j = choose|j: int| #[trigger] b.put(d, i, x, j, volume::leaf(target), g);
            assert(a.put(d, i, x, j, volume::leaf(target), g));
        }
    }
}

/// Every rename stands where it may.
pub proof fn lemma_rename_stands(
    e: Engine,
    s: SessionModel,
    from: Seq<char>,
    to: Seq<char>,
    events: Seq<Event>,
    after: Seq<Engine>,
)
    requires
        e.kind() == s.kind,
        volume::truthful(e, s, Op::Rename(from, to), events, after),
    ensures
        rename_stands(
            e,
            from,
            to,
            volume::last_engine(e, after),
            session_laws::progress(s, Op::Rename(from, to), events).1,
        ),
    decreases events.len(),
{
    let op = Op::Rename(from, to);
    if events.len() > 0 {
        let before = events.drop_last();
        lemma_rename_stands(e, s, from, to, before, after.drop_last());
        session_laws::law_operations_keep_their_bounds(s, op, before);
        let (t, next) = session_laws::progress(s, op, before);
        if let Next::Call(c, run) = next {
            lemma_rename_step(
                e,
                t,
                from,
                to,
                volume::last_engine(e, after.drop_last()),
                c,
                run,
                after.last(),
                events.last().0,
            );
        }
    }
}

/// A rename that succeeds puts what `from` led to at `to`, where `to` does not lie
/// below it. Of the accepted paths that do not lead to the new name now, or through
/// it, those that led to the old one or through it lead nowhere, and every other
/// leads to what it led to.
pub proof fn law_renames_move_one_entry(
    e: Engine,
    s: SessionModel,
    from: Seq<char>,
    to: Seq<char>,
    events: Seq<Event>,
    after: Seq<Engine>,
)
    requires
        e.kind() == s.kind,
        e.valid(),
        volume::truthful(e, s, Op::Rename(from, to), events, after),
        session_laws::progress(s, Op::Rename(from, to), events).1 matches Next::Done(Ok(_)),
        !e.through(to, from),
    ensures
        ({
            let f = volume::last_engine(e, after);
            &&& f.kind() == e.kind()
            &&& f.valid()
            &&& e.place(from) is Some
            &&& f.thing_at(to) == e.thing_at(from)
            &&& forall|q: Seq<char>|
                path::refusal(q) is None && !f.through(q, to) ==> #[trigger] f.thing_at(q)
                    == if e.through(q, from) {
                    None
                } else {
                    e.thing_at(q)
                }
        }),
{
    lemma_rename_stands(e, s, from, to, events, after);
    let f = volume::last_engine(e, after);
    match (e, f) {
        (Engine::Fat(a), Engine::Fat(b)) => {
            let v = a.volume;
            let u = b.volume;
            let source = path::relative(from);
            let target = path::relative(to);
            let up = volume::parent(target);
            let (d, i) = v.place(source)->0;
            let x = v.directory_at(up)->0;
            let j = choose|j: int| #[trigger] a.put(d, i, x, j, volume::leaf(target), b);
            let w = text::uppercase(volume::leaf(target));
            lemma_accepted_is_plain(to);
            lemma_directory_is_there(v, volume::parent(source));
            lemma_find(v.directories[d], text::uppercase(volume::leaf(source)));
            lemma_through_without(v, d, i, up);
            lemma_through_without(u, x, j, up);
            assert(u.valid_directory(u.directories[x]));
            lemma_found(u.directories[x], j, w);
            assert(u.place(target) == Some((x, j)));
            assert forall|q: Seq<char>|
                path::refusal(q) is None && !f.through(q, to) implies #[trigger] f.thing_at(q)
                == if e.through(q, from) {
                None
            } else {
                e.thing_at(q)
            } by {
                lemma_through_without(v, d, i, path::relative(q));
                lemma_through_without(u, x, j, path::relative(q));
            }
        },
        (Engine::Ext4(a), Engine::Ext4(b)) => {
            assert(from + to.skip(to.len() as int) =~= from);
            assert(b.volume.names.contains_key(to));
            assert forall|q: Seq<char>|
                path::refusal(q) is None && !f.through(q, to) implies #[trigger] f.thing_at(q)
                == if e.through(q, from) {
                None
            } else {
                e.thing_at(q)
            } by {
                if b.volume.names.contains_key(q) {
                    assert(b.volume.same_inode(a.volume, b.volume.names[q]));
                }
            }
        },
        _ => {},
    }
}

/// Where the listing of a directory that holds nothing may stand.
spec fn empty_list_stands(first: Engine, dir: Seq<char>, e: Engine, next: Next) -> bool {
    &&& e.same_disk(first)
    &&& match next {
        Next::Done(r) => r == Ok::<Value, Seq<char>>(Value::Entries(seq![])),
        Next::Call(c, Run::List(x)) => match (e, x) {
            (Engine::Fat(_), ListModel::Opening) => c == CallModel::OpenDirectory(
                path::relative(dir),
            ),
            (Engine::Fat(b), ListModel::Scanning { entries }) => entries == Seq::<
                EntryModel,
            >::empty() && c == CallModel::NextEntry && forall|i: int|
                0 <= i < b.walk.len() ==> (#[trigger] b.walk[i]).is_dot(),
            (Engine::Ext4(_), ListModel::Resolving) => c == CallModel::Resolve(dir),
            (Engine::Ext4(b), ListModel::Mapping(walk)) => empty_walk(b, dir, walk) && c
                == CallModel::MapBlock(walk.logical),
            (Engine::Ext4(b), ListModel::Loading(walk)) => empty_walk(b, dir, walk) && (
            b.places[(b.resolved, walk.logical)] matches Some(at) && c == CallModel::ReadBlock(at)),
            _ => false,
        },
        Next::Call(_, _) => false,
    }
}

/// Whether a walk is over the blocks of `dir` and has shown nothing.
spec fn empty_walk(b: Ext4Engine, dir: Seq<char>, walk: list::WalkModel) -> bool {
    let facts = b.volume.inodes[b.volume.names[dir]].facts;
    &&& b.resolved == b.volume.names[dir]
    &&& walk.inode == facts
    &&& walk.layout == b.layout
    &&& walk.total == range::div_up(facts.size as int, b.layout.block_size as int)
    &&& walk.logical < walk.total
    &&& walk.entries == Seq::<EntryModel>::empty()
}

/// Records that are all dots are passed over.
proof fn lemma_dots_are_passed(walk: list::WalkModel, records: Seq<(u32, Seq<u8>)>)
    requires
        forall|i: int|
            0 <= i < records.len() ==> crate::directory::is_dot(#[trigger] records[i].1),
    ensures
        walk.next_record(records) == walk.leave_block(),
    decreases records.len(),
{
    if records.len() > 0 {
        let rest = records.drop_first();
        assert(crate::directory::is_dot(records[0].1));
        assert forall|i: int| 0 <= i < rest.len() implies crate::directory::is_dot(
            #[trigger] rest[i].1,
        ) by {
            assert(rest[i] == records[i + 1]);
        }
        lemma_dots_are_passed(walk, rest);
    }
}

proof fn lemma_empty_list_step(
    first: Engine,
    s: SessionModel,
    dir: Seq<char>,
    e: Engine,
    c: CallModel,
    run: Run,
    f: Engine,
    r: ReplyModel,
)
    requires
        first.valid(),
        first.holds_nothing(dir),
        empty_list_stands(first, dir, e, Next::Call(c, run)),
        e.answers(c, f, r),
    ensures
        empty_list_stands(first, dir, f, session_laws::advance(s, run, r).1),
{
    if let Run::List(x) = run {
        match (e, f) {
            (Engine::Fat(b), Engine::Fat(g)) => {
                if x is Scanning && b.walk.len() > 0 {
                    assert(b.walk[0].is_dot());
                }
            },
            (Engine::Ext4(b), Engine::Ext4(g)) => {
                let facts = b.volume.inodes[b.volume.names[dir]].facts;
                match x {
                    ListModel::Resolving => {
                        lemma_blocks_are_counted(facts.size, b.layout.block_size);
                    },
                    ListModel::Loading(walk) => {
                        assert(b.block_holds_nothing(dir, walk.logical)) by {
                            if let Engine::Ext4(a) = first {
                                assert(a.block_holds_nothing(dir, walk.logical));
                            }
                        }
                        let records = crate::directory::records_of(
                            r->Bytes_0,
                            walk.inode,
                            walk.layout,
                        )->Ok_0;
                        lemma_dots_are_passed(walk, records);
                    },
                    _ => {},
                }
            },
            _ => {},
        }
    }
}

/// A directory that is walked has a countable number of blocks.
pub proof fn lemma_blocks_are_counted(size: u64, block_size: u32)
    requires
        size <= list::MAX_DIRECTORY_BYTES,
        block_size > 0,
    ensures
        0 <= range::div_up(size as int, block_size as int) <= u64::MAX,
{
    let a = size as int;
    let b = block_size as int;
    assert(0 <= a / b <= a) by (nonlinear_arith)
        requires
            0 <= a,
            0 < b,
    ;
}

proof fn lemma_empty_list_stands(
    e: Engine,
    s: SessionModel,
    dir: Seq<char>,
    events: Seq<Event>,
    after: Seq<Engine>,
)
    requires
        e.kind() == s.kind,
        e.valid(),
        s.usable(),
        path::refusal(dir) is None,
        e.holds_nothing(dir),
        volume::truthful(e, s, Op::List(dir), events, after),
    ensures
        empty_list_stands(
            e,
            dir,
            volume::last_engine(e, after),
            session_laws::progress(s, Op::List(dir), events).1,
        ),
    decreases events.len(),
{
    if events.len() > 0 {
        let before = events.drop_last();
        lemma_empty_list_stands(e, s, dir, before, after.drop_last());
        let (t, next) = session_laws::progress(s, Op::List(dir), before);
        if let Next::Call(c, run) = next {
            lemma_empty_list_step(
                e,
                t,
                dir,
                volume::last_engine(e, after.drop_last()),
                c,
                run,
                after.last(),
                events.last().0,
            );
        }
    }
}

/// A directory that holds nothing is listed as empty.
pub proof fn law_empty_directories_list_nothing(
    e: Engine,
    s: SessionModel,
    dir: Seq<char>,
    events: Seq<Event>,
    after: Seq<Engine>,
)
    requires
        e.kind() == s.kind,
        e.valid(),
        s.usable(),
        path::refusal(dir) is None,
        e.holds_nothing(dir),
        volume::truthful(e, s, Op::List(dir), events, after),
    ensures
        session_laws::progress(s, Op::List(dir), events).1 matches Next::Done(r) ==> r == Ok::<
            Value,
            Seq<char>,
        >(Value::Entries(seq![])),
{
    lemma_empty_list_stands(e, s, dir, events, after);
}

/// A directory that was made is there and is listed as empty, in the same session
/// or in a fresh one on the same disk.
pub proof fn law_new_directories_are_empty(
    e: Engine,
    s: SessionModel,
    p: Seq<char>,
    events: Seq<Event>,
    after: Seq<Engine>,
    fresh: Engine,
    reader: SessionModel,
    looks: Seq<Event>,
    looked: Seq<Engine>,
)
    requires
        e.kind() == s.kind,
        volume::truthful(e, s, Op::Mkdir(p), events, after),
        session_laws::progress(s, Op::Mkdir(p), events).1 matches Next::Done(Ok(_)),
        fresh.same_disk(volume::last_engine(e, after)),
        fresh.valid(),
        reader.usable(),
        reader.kind == s.kind,
        volume::truthful(fresh, reader, Op::List(p), looks, looked),
    ensures
        fresh.holds_nothing(p),
        session_laws::progress(reader, Op::List(p), looks).1 matches Next::Done(r) ==> r == Ok::<
            Value,
            Seq<char>,
        >(Value::Entries(seq![])),
{
    lemma_create_stands(e, s, Op::Mkdir(p), p, events, after);
    match (volume::last_engine(e, after), fresh) {
        (Engine::Ext4(b), Engine::Ext4(g)) => {
            let facts = b.volume.inodes[b.volume.names[p]].facts;
            assert forall|logical: u64|
                logical < range::div_up(
                    facts.size as int,
                    g.layout.block_size as int,
                ) implies #[trigger] g.block_holds_nothing(p, logical) by {
                assert(b.block_holds_nothing(p, logical));
            }
        },
        _ => {},
    }
    law_empty_directories_list_nothing(fresh, reader, p, looks, looked);
}

/// What a FAT directory says of these.
pub open spec fn items(nodes: Seq<FatNode>) -> walk_laws::Items {
    nodes.map_values(|n: FatNode| n.item())
}

/// Where a listing on FAT may stand.
pub open spec fn fat_list_stands(v: FatVolume, dir: Seq<char>, e: FatEngine, next: Next) -> bool {
    let d = v.directory_at(path::relative(dir));
    let all = walk_laws::shown(items(v.directories[d->0]));
    &&& e.volume == v
    &&& match next {
        Next::Done(Ok(value)) => d is Some && value == Value::Entries(all),
        Next::Done(Err(_)) => true,
        Next::Call(c, Run::List(x)) => match x {
            ListModel::Opening => c == CallModel::OpenDirectory(path::relative(dir)),
            ListModel::Scanning { entries } => d is Some && c == CallModel::NextEntry && entries
                + walk_laws::shown(items(e.walk)) == all,
            _ => false,
        },
        Next::Call(_, _) => false,
    }
}

proof fn lemma_fat_list_step(
    v: FatVolume,
    s: SessionModel,
    dir: Seq<char>,
    e: FatEngine,
    c: CallModel,
    run: Run,
    f: FatEngine,
    r: ReplyModel,
)
    requires
        fat_list_stands(v, dir, e, Next::Call(c, run)),
        e.answers(c, f, r),
    ensures
        fat_list_stands(v, dir, f, session_laws::advance(s, run, r).1),
{
    if let Run::List(x) = run {
        match x {
            ListModel::Opening => {
                if let Some(d) = v.directory_at(path::relative(dir)) {
                    let all = walk_laws::shown(items(v.directories[d]));
                    assert(Seq::<EntryModel>::empty() + all =~= all);
                }
            },
            ListModel::Scanning { entries } => {
                let left = items(e.walk);
                if e.walk.len() == 0 {
                    assert(walk_laws::shown(left) =~= seq![]);
                    assert(entries + walk_laws::shown(left) =~= entries);
                } else {
                    assert(left[0] == e.walk[0].item());
                    assert(left.drop_first() =~= items(e.walk.drop_first()));
                    let entry = stat::fat_entry(left[0]);
                    let rest = walk_laws::shown(left.drop_first());
                    assert(entries.push(entry) + rest =~= entries + (seq![entry] + rest));
                }
            },
            _ => {},
        }
    }
}

/// Whether an entry of the listing of `dir` says what the volume has there.
pub open spec fn ext4_entry_told(v: Ext4Volume, dir: Seq<char>, entry: EntryModel) -> bool {
    let p = volume::join(dir, entry.name);
    &&& 0 < entry.name.len()
    &&& !entry.name.contains('/')
    &&& v.names.contains_key(p)
    &&& entry == stat::inode_entry(entry.name, v.inodes[v.names[p]].facts)
}

/// Whether all entries of the listing of `dir` say what the volume has there.
pub open spec fn ext4_entries_told(v: Ext4Volume, dir: Seq<char>, entries: Seq<EntryModel>) -> bool {
    forall|i: int|
        0 <= i < entries.len() ==> ext4_entry_told(v, dir, #[trigger] entries[i])
}

/// Whether a walk is over the directory `dir` and has told the truth so far.
pub open spec fn ext4_walk(first: Ext4Engine, dir: Seq<char>, walk: list::WalkModel) -> bool {
    &&& first.volume.has_directory(dir)
    &&& walk.inode == first.volume.inodes[first.volume.names[dir]].facts
    &&& walk.layout == first.layout
    &&& ext4_entries_told(first.volume, dir, walk.entries)
}

/// Where a listing on ext4 may stand.
pub open spec fn ext4_list_stands(first: Ext4Engine, dir: Seq<char>, e: Ext4Engine, next: Next) -> bool {
    let v = first.volume;
    &&& e == (Ext4Engine { resolved: e.resolved, ..first })
    &&& match next {
        Next::Done(Ok(Value::Entries(entries))) => ext4_entries_told(v, dir, entries),
        Next::Done(Ok(_)) => false,
        Next::Done(Err(_)) => true,
        Next::Call(c, Run::List(x)) => match x {
            ListModel::Resolving => c == CallModel::Resolve(dir),
            ListModel::Mapping(walk) => e.resolved == v.names[dir] && ext4_walk(first, dir, walk)
                && c == CallModel::MapBlock(walk.logical),
            ListModel::Loading(walk) => e.resolved == v.names[dir] && ext4_walk(first, dir, walk)
                && (first.places[(v.names[dir], walk.logical)] matches Some(at) && c
                == CallModel::ReadBlock(at)),
            ListModel::Examining { walk, records } => {
                &&& e.resolved == v.names[dir]
                &&& ext4_walk(first, dir, walk)
                &&& 0 < records.len()
                &&& !crate::directory::is_dot(records[0].1)
                &&& c == CallModel::ReadInode(records[0].0)
                &&& forall|i: int|
                    0 <= i < records.len() ==> first.tells(dir, #[trigger] records[i])
            },
            _ => false,
        },
        Next::Call(_, _) => false,
    }
}

proof fn lemma_ext4_records(
    first: Ext4Engine,
    dir: Seq<char>,
    e: Ext4Engine,
    walk: list::WalkModel,
    records: Seq<(u32, Seq<u8>)>,
)
    requires
        e == (Ext4Engine { resolved: e.resolved, ..first }),
        e.resolved == first.volume.names[dir],
        ext4_walk(first, dir, walk),
        forall|i: int| 0 <= i < records.len() ==> first.tells(dir, #[trigger] records[i]),
    ensures
        ext4_list_stands(first, dir, e, session_laws::list_next(walk.next_record(records))),
    decreases records.len(),
{
    if records.len() > 0 && crate::directory::is_dot(records[0].1) {
        let rest = records.drop_first();
        assert forall|i: int| 0 <= i < rest.len() implies first.tells(dir, #[trigger] rest[i]) by {
            assert(rest[i] == records[i + 1]);
        }
        lemma_ext4_records(first, dir, e, walk, rest);
    }
}

proof fn lemma_ext4_list_step(
    first: Ext4Engine,
    s: SessionModel,
    dir: Seq<char>,
    e: Ext4Engine,
    c: CallModel,
    run: Run,
    f: Ext4Engine,
    r: ReplyModel,
)
    requires
        first.valid(),
        ext4_list_stands(first, dir, e, Next::Call(c, run)),
        e.answers(c, f, r),
    ensures
        ext4_list_stands(first, dir, f, session_laws::advance(s, run, r).1),
{
    let v = first.volume;
    if let Run::List(x) = run {
        match x {
            ListModel::Loading(walk) => {
                let block = r->Bytes_0;
                assert(first.block_tells(dir, walk.logical));
                if let Ok(records) = crate::directory::records_of(block, walk.inode, walk.layout) {
                    lemma_ext4_records(first, dir, f, walk, records);
                }
            },
            ListModel::Examining { walk, records } => {
                let inode = r->Inode_0;
                assert(first.tells(dir, records[0]));
                if vstd::utf8::valid_utf8(records[0].1) {
                    let name = vstd::utf8::decode_utf8(records[0].1);
                    let entry = stat::inode_entry(
                        name,
                        InodeFacts { number: records[0].0, ..inode },
                    );
                    assert(v.names.contains_key(volume::join(dir, name)));
                    assert(ext4_entry_told(v, dir, entry));
                    let next = list::WalkModel { entries: walk.entries.push(entry), ..walk };
                    assert forall|i: int| 0 <= i < next.entries.len() implies ext4_entry_told(
                        v,
                        dir,
                        #[trigger] next.entries[i],
                    ) by {
                        if i < walk.entries.len() {
                            assert(next.entries[i] == walk.entries[i]);
                        }
                    }
                    let rest = records.drop_first();
                    assert forall|i: int| 0 <= i < rest.len() implies first.tells(
                        dir,
                        #[trigger] rest[i],
                    ) by {
                        assert(rest[i] == records[i + 1]);
                    }
                    lemma_ext4_records(first, dir, f, next, rest);
                }
            },
            _ => {},
        }
    }
}

/// Every listing stands where it may.
pub proof fn lemma_list_stands(
    e: Engine,
    s: SessionModel,
    dir: Seq<char>,
    events: Seq<Event>,
    after: Seq<Engine>,
)
    requires
        e.kind() == s.kind,
        e.valid(),
        volume::truthful(e, s, Op::List(dir), events, after),
    ensures
        match (e, volume::last_engine(e, after)) {
            (Engine::Fat(a), Engine::Fat(b)) => fat_list_stands(
                a.volume,
                dir,
                b,
                session_laws::progress(s, Op::List(dir), events).1,
            ),
            (Engine::Ext4(a), Engine::Ext4(b)) => ext4_list_stands(
                a,
                dir,
                b,
                session_laws::progress(s, Op::List(dir), events).1,
            ),
            _ => false,
        },
    decreases events.len(),
{
    if events.len() > 0 {
        let before = events.drop_last();
        lemma_list_stands(e, s, dir, before, after.drop_last());
        let (t, next) = session_laws::progress(s, Op::List(dir), before);
        let r = events.last().0;
        if let Next::Call(c, run) = next {
            match (e, volume::last_engine(e, after.drop_last()), after.last()) {
                (Engine::Fat(a), Engine::Fat(b), Engine::Fat(f)) => {
                    lemma_fat_list_step(a.volume, t, dir, b, c, run, f, r);
                },
                (Engine::Ext4(a), Engine::Ext4(b), Engine::Ext4(f)) => {
                    lemma_ext4_list_step(a, t, dir, b, c, run, f, r);
                },
                _ => {},
            }
        }
    }
}

/// What a FAT listing shows stands for something in the directory.
proof fn lemma_shown_is_there(nodes: Seq<FatNode>, i: int) -> (j: int)
    requires
        0 <= i < walk_laws::shown(items(nodes)).len(),
    ensures
        0 <= j < nodes.len(),
        walk_laws::shown(items(nodes))[i] == stat::fat_entry(nodes[j].item()),
    decreases nodes.len(),
{
    let all = items(nodes);
    assert(all.len() > 0) by {
        if all.len() == 0 {
            assert(walk_laws::shown(all) =~= seq![]);
        }
    }
    let rest = nodes.drop_first();
    assert(all[0] == nodes[0].item());
    assert(all.drop_first() =~= items(rest));
    if nodes[0].is_dot() {
        let k = lemma_shown_is_there(rest, i);
        k + 1
    } else if i == 0 {
        0
    } else {
        let k = lemma_shown_is_there(rest, i - 1);
        k + 1
    }
}

/// Whether something goes by exactly this name.
spec fn named(nodes: Seq<FatNode>, name: Seq<char>) -> bool {
    exists|k: int| 0 <= k < nodes.len() && (#[trigger] nodes[k]).name == name
}

/// A FAT listing leaves out at most two entries.
proof fn lemma_two_dots(nodes: Seq<FatNode>)
    requires
        volume::distinct(nodes),
    ensures
        nodes.len() - walk_laws::shown(items(nodes)).len() <= (if named(nodes, "."@) {
            1int
        } else {
            0
        }) + (if named(nodes, ".."@) {
            1int
        } else {
            0
        }),
    decreases nodes.len(),
{
    reveal_strlit(".");
    reveal_strlit("..");
    assert("."@.len() == 1);
    assert(".."@.len() == 2);
    if nodes.len() > 0 {
        let all = items(nodes);
        let rest = nodes.drop_first();
        assert(all[0] == nodes[0].item());
        assert(all.drop_first() =~= items(rest));
        assert forall|i: int, j: int, w: Seq<char>|
            0 <= i < j < rest.len() && #[trigger] rest[i].goes_by(w) implies !(
        #[trigger] rest[j].goes_by(w)) by {
            assert(rest[i] == nodes[i + 1] && rest[j] == nodes[j + 1]);
            assert(nodes[i + 1].goes_by(w));
            assert(!nodes[j + 1].goes_by(w));
        }
        lemma_two_dots(rest);
        let own = nodes[0].name;
        if named(rest, own) {
            let k = choose|k: int| 0 <= k < rest.len() && (#[trigger] rest[k]).name == own;
            assert(rest[k] == nodes[k + 1]);
            assert(nodes[0].goes_by(text::uppercase(own)));
            assert(nodes[k + 1].goes_by(text::uppercase(own)));
        }
        assert(named(nodes, own)) by {
            assert(nodes[0].name == own);
        }
        assert forall|name: Seq<char>| named(rest, name) implies named(nodes, name) by {
            let k = choose|k: int| 0 <= k < rest.len() && (#[trigger] rest[k]).name == name;
            assert(rest[k] == nodes[k + 1]);
            assert(nodes[k + 1].name == name);
        }
    }
}

/// A lookup agrees with the listing: what a directory shows under a name, other
/// than a symbolic link, the lookup of that name in that directory tells as well,
/// where the path is accepted and nothing was changed in between. That holds of
/// every entry of a listing that leaves room for the directory itself and its
/// parent within the limit, and of every entry that stands within it. The lookup
/// is over after at most so many replies as the limit has entries, and two.
pub proof fn law_lookups_agree_with_listings(
    e: Engine,
    s: SessionModel,
    dir: Seq<char>,
    events: Seq<Event>,
    after: Seq<Engine>,
    entries: Seq<EntryModel>,
    i: int,
    next: Engine,
    t: SessionModel,
    looks: Seq<Event>,
    looked: Seq<Engine>,
)
    requires
        e.kind() == s.kind,
        e.valid(),
        path::refusal(dir) is None,
        volume::truthful(e, s, Op::List(dir), events, after),
        session_laws::progress(s, Op::List(dir), events).1 == Next::Done(
            Ok(Value::Entries(entries)),
        ),
        0 <= i < entries.len(),
        entries[i].kind != "symlink"@,
        path::refusal(volume::join(dir, entries[i].name)) is None,
        entries.len() + 2 <= MAX_ENTRIES || e.reachable(volume::join(dir, entries[i].name)),
        next.same_volume(e),
        t.usable(),
        t.kind == s.kind,
        volume::truthful(
            next,
            t,
            Op::Stat(volume::join(dir, entries[i].name)),
            looks,
            looked,
        ),
    ensures
        session_laws::progress(t, Op::Stat(volume::join(dir, entries[i].name)), looks).1
            matches Next::Done(r) ==> r == Ok::<Value, Seq<char>>(Value::Entry(entries[i])),
        looks.len() > MAX_ENTRIES + 1 ==> session_laws::progress(
            t,
            Op::Stat(volume::join(dir, entries[i].name)),
            looks,
        ).1 is Done,
{
    let entry = entries[i];
    let p = volume::join(dir, entry.name);
    lemma_list_stands(e, s, dir, events, after);
    match e {
        Engine::Fat(a) => {
            lemma_fat_entry_is_found(a.volume, dir, entries, i);
            lemma_stat_stands(next, t, p, looks, looked);
        },
        Engine::Ext4(a) => {
            let end = Next::Done(Ok(Value::Entries(entries)));
            assert(ext4_list_stands(a, dir, volume::last_engine(e, after)->Ext4_0, end));
            assert(ext4_entries_told(a.volume, dir, entries));
            lemma_ext4_entry_is_found(a.volume, dir, entry);
            lemma_stat_stands(next, t, p, looks, looked);
        },
    }
}

proof fn lemma_ext4_entry_is_found(v: Ext4Volume, dir: Seq<char>, entry: EntryModel)
    requires
        path::refusal(dir) is None,
        path::refusal(volume::join(dir, entry.name)) is None,
        ext4_entry_told(v, dir, entry),
        entry.kind != "symlink"@,
    ensures
        !path::is_root(volume::join(dir, entry.name)),
        forall|r: Result<Value, Seq<char>>| #[trigger]
            ext4_looked(v, volume::join(dir, entry.name), r) ==> r == Ok::<Value, Seq<char>>(
                Value::Entry(entry),
            ),
{
    lemma_kinds();
    lemma_join(dir, entry.name);
    lemma_joined_is_not_root(dir, entry.name);
}

proof fn lemma_fat_entry_is_found(
    v: FatVolume,
    dir: Seq<char>,
    entries: Seq<EntryModel>,
    i: int,
)
    requires
        v.valid(),
        path::refusal(dir) is None,
        v.directory_at(path::relative(dir)) matches Some(d) && entries == walk_laws::shown(
            items(v.directories[d]),
        ),
        0 <= i < entries.len(),
        path::refusal(volume::join(dir, entries[i].name)) is None,
        entries.len() + 2 <= MAX_ENTRIES || (v.place(
            path::relative(volume::join(dir, entries[i].name)),
        ) matches Some((_, j)) ==> j < MAX_ENTRIES),
    ensures
        !path::is_root(volume::join(dir, entries[i].name)),
        forall|r: Result<Value, Seq<char>>| #[trigger]
            fat_told(v, volume::join(dir, entries[i].name), r) ==> r == Ok::<Value, Seq<char>>(
                Value::Entry(entries[i]),
            ),
{
    let entry = entries[i];
    let p = volume::join(dir, entry.name);
    let d = v.directory_at(path::relative(dir))->0;
    let nodes = v.directories[d];
    lemma_directory_is_there(v, path::relative(dir));
    assert(v.valid_directory(nodes));
    let j = lemma_shown_is_there(nodes, i);
    assert(v.valid_node(nodes[j]));
    assert(entry.name == nodes[j].name);
    lemma_join(dir, entry.name);
    lemma_joined_is_not_root(dir, entry.name);
    lemma_relative(p);
    assert(nodes[j].goes_by(text::uppercase(entry.name)));
    lemma_found(nodes, j, text::uppercase(entry.name));
    lemma_two_dots(nodes);
    assert(v.place(path::relative(p)) == Some((d, j)));
}

/// What a directory holds under a name has one.
pub proof fn lemma_joined_is_not_root(dir: Seq<char>, name: Seq<char>)
    requires
        path::refusal(dir) is None,
        path::refusal(volume::join(dir, name)) is None,
        !name.contains('/'),
        0 < name.len(),
    ensures
        !path::is_root(volume::join(dir, name)),
        0 < path::relative(volume::join(dir, name)).len(),
{
    let p = volume::join(dir, name);
    lemma_join(dir, name);
    if path::is_root(p) {
        assert(p.len() == 1);
    }
}

} // verus!
