//! What a listing shows, from the start of the operation to its end: all that the
//! directory holds, and nothing else.

use vstd::prelude::*;

use crate::directory;
use crate::directory::RecordModel;
use crate::engine::CallModel;
use crate::engine::InodeFacts;
use crate::engine::ReplyModel;
use crate::list;
use crate::list::ListModel;
use crate::path;
use crate::range;
use crate::session::EntryModel;
use crate::session::SessionModel;
use crate::session_laws;
use crate::session_laws::Event;
use crate::session_laws::Next;
use crate::session_laws::Op;
use crate::session_laws::Run;
use crate::session_laws::Value;
use crate::stat;
use crate::success_laws;
use crate::text;
use crate::volume;
use crate::volume::Engine;
use crate::volume::Ext4Engine;
use crate::volume::FatEngine;
use crate::volume::FatNode;
use crate::volume::FatVolume;
use crate::volume_laws;
use crate::walk_laws;
use crate::wire_laws;

verus! {

/// How many of these are neither the directory itself nor its parent.
pub open spec fn holdings(nodes: Seq<FatNode>) -> nat
    decreases nodes.len(),
{
    if nodes.len() == 0 {
        0
    } else {
        (if nodes[0].name == "."@ || nodes[0].name == ".."@ {
            0nat
        } else {
            1nat
        }) + holdings(nodes.drop_first())
    }
}

/// Whether a record is that of the directory itself or of its parent.
pub open spec fn dots(record: RecordModel) -> bool {
    record.1 == seq![0x2eu8] || record.1 == seq![0x2eu8, 0x2eu8]
}

/// How many of these records are neither of the directory itself nor of its parent.
pub open spec fn tally(records: Seq<RecordModel>) -> nat
    decreases records.len(),
{
    if records.len() == 0 {
        0
    } else {
        tally(records.drop_last()) + if dots(records.last()) {
            0nat
        } else {
            1nat
        }
    }
}

/// How many blocks a directory has.
pub open spec fn blocks_of(facts: InodeFacts, block_size: u32) -> int {
    if facts.size == 0 {
        0
    } else {
        (facts.size - 1) / (block_size as int) + 1
    }
}

/// What a block of the directory `dir` holds, or that it cannot be told: nothing
/// where it is a hole.
pub open spec fn block_at(a: Ext4Engine, dir: Seq<char>, logical: u64) -> Option<
    Seq<RecordModel>,
> {
    let facts = a.volume.inodes[a.volume.names[dir]].facts;
    match a.places[(a.volume.names[dir], logical)] {
        None => Some(seq![]),
        Some(at) => match directory::block_records(
            a.blocks[at],
            a.layout.file_types,
            facts.number,
            facts.generation,
            a.layout.checksum_seed,
            a.layout.checksums,
        ) {
            Ok(records) => Some(records),
            Err(_) => None,
        },
    }
}

/// What a block of the directory `dir` holds, as far as it can be told.
pub open spec fn told(a: Ext4Engine, dir: Seq<char>, logical: u64) -> Seq<RecordModel> {
    match block_at(a, dir, logical) {
        Some(records) => records,
        None => seq![],
    }
}

/// How many entries the first blocks of the directory `dir` hold.
pub open spec fn tallied(a: Ext4Engine, dir: Seq<char>, blocks: int) -> nat
    decreases blocks,
{
    if blocks <= 0 {
        0
    } else {
        tallied(a, dir, blocks - 1) + tally(told(a, dir, (blocks - 1) as u64))
    }
}

/// Whether a block of the directory `dir` can be told, and its names are text.
pub open spec fn legible(a: Ext4Engine, dir: Seq<char>, logical: u64) -> bool {
    &&& block_at(a, dir, logical) matches Some(records)
    &&& forall|i: int|
        0 <= i < records.len() && !dots(#[trigger] records[i]) ==> vstd::utf8::valid_utf8(
            records[i].1,
        )
}

/// Whether a block of the directory `dir` has a record of this name.
pub open spec fn recorded(a: Ext4Engine, dir: Seq<char>, name: Seq<char>, logical: u64) -> bool {
    let facts = a.volume.inodes[a.volume.names[dir]].facts;
    &&& logical * a.layout.block_size < facts.size
    &&& exists|i: int|
        0 <= i < told(a, dir, logical).len() && names(#[trigger] told(a, dir, logical)[i], name)
}

/// Whether a record is of this name.
pub open spec fn names(record: RecordModel, name: Seq<char>) -> bool {
    !dots(record) && vstd::utf8::valid_utf8(record.1) && vstd::utf8::decode_utf8(record.1) == name
}

/// Whether the blocks of the directory `dir` have a record of all that it holds.
pub open spec fn recorded_all(a: Ext4Engine, dir: Seq<char>) -> bool {
    forall|name: Seq<char>|
        0 < name.len() && !name.contains('/') && #[trigger] a.volume.names.contains_key(
            volume::join(dir, name),
        ) ==> exists|logical: u64| #[trigger] recorded(a, dir, name, logical)
}

/// Whether a path leads to a directory.
pub open spec fn leads_to_directory(e: Engine, dir: Seq<char>) -> bool {
    match e {
        Engine::Fat(a) => a.volume.directory_at(path::relative(dir)) is Some,
        Engine::Ext4(a) => {
            &&& a.volume.names.contains_key(dir)
            &&& a.volume.inodes[a.volume.names[dir]].facts.mode / 0x1000 == 4
        },
    }
}

/// How many entries the directory `dir` has, but for itself and its parent.
pub open spec fn entry_count(e: Engine, dir: Seq<char>) -> nat {
    match e {
        Engine::Fat(a) => holdings(
            a.volume.directories[a.volume.directory_at(path::relative(dir))->0],
        ),
        Engine::Ext4(a) => tallied(
            a,
            dir,
            blocks_of(a.volume.inodes[a.volume.names[dir]].facts, a.layout.block_size),
        ),
    }
}

/// Whether a directory is one that is listed: at most 4096 entries, and on ext4 at
/// most 16 MiB in blocks, all of which can be told.
pub open spec fn listable(e: Engine, dir: Seq<char>) -> bool {
    &&& leads_to_directory(e, dir)
    &&& entry_count(e, dir) <= 4096
    &&& e matches Engine::Ext4(a) ==> {
        let facts = a.volume.inodes[a.volume.names[dir]].facts;
        &&& facts.size <= 0x100_0000
        &&& facts.flags / 0x1000_0000 % 2 == 0
        &&& forall|logical: u64|
            logical < blocks_of(facts, a.layout.block_size) ==> #[trigger] legible(a, dir, logical)
    }
}

/// What a listing shows is as many entries as there are.
proof fn lemma_shown_is_counted(nodes: Seq<FatNode>)
    ensures
        walk_laws::shown(volume_laws::items(nodes)).len() == holdings(nodes),
    decreases nodes.len(),
{
    let all = volume_laws::items(nodes);
    if nodes.len() > 0 {
        assert(all[0] == nodes[0].item());
        assert(all.drop_first() =~= volume_laws::items(nodes.drop_first()));
        lemma_shown_is_counted(nodes.drop_first());
    }
}

/// What a directory holds is shown.
proof fn lemma_held_is_shown(nodes: Seq<FatNode>, j: int) -> (k: int)
    requires
        0 <= j < nodes.len(),
        !nodes[j].is_dot(),
    ensures
        0 <= k < walk_laws::shown(volume_laws::items(nodes)).len(),
        walk_laws::shown(volume_laws::items(nodes))[k] == stat::fat_entry(nodes[j].item()),
    decreases nodes.len(),
{
    let all = volume_laws::items(nodes);
    let rest = nodes.drop_first();
    assert(all[0] == nodes[0].item());
    assert(all.drop_first() =~= volume_laws::items(rest));
    if j == 0 {
        0
    } else {
        assert(rest[j - 1] == nodes[j]);
        let k = lemma_held_is_shown(rest, j - 1);
        if nodes[0].is_dot() {
            k
        } else {
            k + 1
        }
    }
}

/// What is shown is held.
proof fn lemma_shown_is_held(nodes: Seq<FatNode>, k: int) -> (j: int)
    requires
        0 <= k < walk_laws::shown(volume_laws::items(nodes)).len(),
    ensures
        0 <= j < nodes.len(),
        walk_laws::shown(volume_laws::items(nodes))[k] == stat::fat_entry(nodes[j].item()),
    decreases nodes.len(),
{
    let all = volume_laws::items(nodes);
    let rest = nodes.drop_first();
    if nodes.len() == 0 {
        assert(walk_laws::shown(all) =~= seq![]);
        0
    } else {
        assert(all[0] == nodes[0].item());
        assert(all.drop_first() =~= volume_laws::items(rest));
        if nodes[0].is_dot() {
            let j = lemma_shown_is_held(rest, k);
            j + 1
        } else if k == 0 {
            0
        } else {
            let j = lemma_shown_is_held(rest, k - 1);
            j + 1
        }
    }
}

/// Where a listing on FAT stands, as far as its end goes.
spec fn fat_ends(v: FatVolume, dir: Seq<char>, next: Next) -> bool {
    let d = v.directory_at(path::relative(dir));
    match next {
        Next::Done(r) => r is Ok == (d is Some && holdings(v.directories[d->0]) <= 4096),
        Next::Call(_, Run::List(ListModel::Scanning { entries })) => entries.len() <= 4096,
        Next::Call(_, _) => true,
    }
}

proof fn lemma_fat_ends(
    v: FatVolume,
    s: SessionModel,
    dir: Seq<char>,
    e: FatEngine,
    c: CallModel,
    run: Run,
    f: FatEngine,
    r: ReplyModel,
)
    requires
        volume_laws::fat_list_stands(v, dir, e, Next::Call(c, run)),
        fat_ends(v, dir, Next::Call(c, run)),
        e.answers(c, f, r),
    ensures
        fat_ends(v, dir, session_laws::advance(s, run, r).1),
{
    if let Some(d) = v.directory_at(path::relative(dir)) {
        lemma_shown_is_counted(v.directories[d]);
    }
    lemma_shown_is_counted(e.walk);
    if e.walk.len() > 0 {
        assert(holdings(e.walk) >= if e.walk[0].is_dot() {
            0nat
        } else {
            1nat
        });
    }
}

/// Whether an entry stands for this record.
spec fn stands_for(entries: Seq<EntryModel>, record: RecordModel) -> bool {
    exists|k: int|
        0 <= k < entries.len() && (#[trigger] entries[k]).name == vstd::utf8::decode_utf8(record.1)
}

/// Whether the first of these records all have an entry.
spec fn covers(entries: Seq<EntryModel>, records: Seq<RecordModel>, n: int) -> bool {
    forall|i: int|
        0 <= i < n && !dots(#[trigger] records[i]) ==> vstd::utf8::valid_utf8(records[i].1)
            && stands_for(entries, records[i])
}

/// Whether the first blocks all have their entries.
spec fn covers_blocks(
    a: Ext4Engine,
    dir: Seq<char>,
    entries: Seq<EntryModel>,
    blocks: int,
) -> bool {
    forall|l: u64| l < blocks ==> #[trigger] covered(a, dir, entries, l)
}

/// Whether a block could be told and has its entries.
spec fn covered(a: Ext4Engine, dir: Seq<char>, entries: Seq<EntryModel>, l: u64) -> bool {
    block_at(a, dir, l) is Some && covers(entries, told(a, dir, l), told(a, dir, l).len() as int)
}

/// More entries stand for no less.
proof fn lemma_still_covered(
    a: Ext4Engine,
    dir: Seq<char>,
    entries: Seq<EntryModel>,
    entry: EntryModel,
    blocks: int,
    records: Seq<RecordModel>,
    n: int,
)
    requires
        covers_blocks(a, dir, entries, blocks),
        covers(entries, records, n),
    ensures
        covers_blocks(a, dir, entries.push(entry), blocks),
        covers(entries.push(entry), records, n),
{
    let more = entries.push(entry);
    assert forall|record: RecordModel| stands_for(entries, record) implies #[trigger] stands_for(
        more,
        record,
    ) by {
        let k = choose|k: int|
            0 <= k < entries.len() && (#[trigger] entries[k]).name == vstd::utf8::decode_utf8(
                record.1,
            );
        assert(more[k] == entries[k]);
    }
    assert forall|l: u64| l < blocks implies #[trigger] covered(a, dir, more, l) by {
        assert(covered(a, dir, entries, l));
    }
}

/// Where the walk over a directory stands after the first `n` records of its block.
spec fn walked(a: Ext4Engine, dir: Seq<char>, walk: list::WalkModel, n: int) -> bool {
    let facts = a.volume.inodes[a.volume.names[dir]].facts;
    &&& leads_to_directory(Engine::Ext4(a), dir)
    &&& facts.size <= 0x100_0000
    &&& facts.flags / 0x1000_0000 % 2 == 0
    &&& walk.inode == facts
    &&& walk.layout == a.layout
    &&& walk.total == blocks_of(facts, a.layout.block_size)
    &&& walk.logical < walk.total
    &&& walk.entries.len() <= 4096
    &&& 0 <= n <= told(a, dir, walk.logical).len()
    &&& walk.entries.len() == tallied(a, dir, walk.logical as int) + tally(
        told(a, dir, walk.logical).take(n),
    )
    &&& covers_blocks(a, dir, walk.entries, walk.logical as int)
    &&& covers(walk.entries, told(a, dir, walk.logical), n)
}

/// Where a listing on ext4 stands.
spec fn ext4_ends(a: Ext4Engine, dir: Seq<char>, next: Next) -> bool {
    let facts = a.volume.inodes[a.volume.names[dir]].facts;
    match next {
        Next::Done(Ok(Value::Entries(entries))) => {
            &&& listable(Engine::Ext4(a), dir)
            &&& entries.len() == entry_count(Engine::Ext4(a), dir)
            &&& covers_blocks(a, dir, entries, blocks_of(facts, a.layout.block_size))
        },
        Next::Done(Ok(_)) => false,
        Next::Done(Err(_)) => !listable(Engine::Ext4(a), dir),
        Next::Call(c, Run::List(x)) => match x {
            ListModel::Resolving => true,
            ListModel::Mapping(walk) => walked(a, dir, walk, 0),
            ListModel::Loading(walk) => walked(a, dir, walk, 0),
            ListModel::Examining { walk, records } => {
                let all = told(a, dir, walk.logical);
                &&& block_at(a, dir, walk.logical) is Some
                &&& 0 < records.len() <= all.len()
                &&& walked(a, dir, walk, all.len() - records.len())
                &&& walk.entries.len() < 4096
                &&& records == all.skip(all.len() - records.len())
            },
            _ => false,
        },
        Next::Call(_, _) => false,
    }
}

/// One more record counts for itself.
proof fn lemma_one_more(records: Seq<RecordModel>, n: int)
    requires
        0 <= n < records.len(),
    ensures
        tally(records.take(n + 1)) == tally(records.take(n)) + if dots(records[n]) {
            0nat
        } else {
            1nat
        },
{
    let more = records.take(n + 1);
    assert(more.drop_last() =~= records.take(n));
    assert(more.last() == records[n]);
}

/// All records count for no less than the first.
proof fn lemma_more_records(records: Seq<RecordModel>, n: int)
    requires
        0 <= n <= records.len(),
    ensures
        tally(records.take(n)) <= tally(records),
    decreases records.len() - n,
{
    if n < records.len() {
        lemma_one_more(records, n);
        lemma_more_records(records, n + 1);
    } else {
        assert(records.take(n) =~= records);
    }
}

/// All blocks count for no less than the first.
proof fn lemma_more_blocks(a: Ext4Engine, dir: Seq<char>, m: int, n: int)
    requires
        0 <= m <= n,
    ensures
        tallied(a, dir, m) <= tallied(a, dir, n),
    decreases n - m,
{
    if m < n {
        lemma_more_blocks(a, dir, m, n - 1);
    }
}

/// Leaving a block whose records were all taken.
proof fn lemma_block_is_left(a: Ext4Engine, dir: Seq<char>, walk: list::WalkModel)
    requires
        a.layout.block_size > 0,
        block_at(a, dir, walk.logical) is Some,
        walked(a, dir, walk, told(a, dir, walk.logical).len() as int),
    ensures
        ext4_ends(a, dir, session_laws::list_next(walk.leave_block())),
{
    let all = told(a, dir, walk.logical);
    let l = walk.logical;
    assert(all.take(all.len() as int) =~= all);
    let next = (l + 1) as u64;
    assert(covered(a, dir, walk.entries, l));
    assert(covers_blocks(a, dir, walk.entries, l + 1));
    assert(tallied(a, dir, l + 1) == tallied(a, dir, l as int) + tally(all));
    if next < walk.total {
        assert(told(a, dir, next).take(0) =~= seq![]);
        assert(tally(told(a, dir, next).take(0)) == 0);
    } else {
        assert(l + 1 == walk.total);
        assert forall|logical: u64|
            logical < walk.total implies #[trigger] legible(a, dir, logical) by {
            assert(covered(a, dir, walk.entries, logical));
        }
    }
}

/// Going on in a block.
proof fn lemma_records_go_on(
    a: Ext4Engine,
    dir: Seq<char>,
    walk: list::WalkModel,
    records: Seq<RecordModel>,
)
    requires
        a.layout.block_size > 0,
        block_at(a, dir, walk.logical) is Some,
        records.len() <= told(a, dir, walk.logical).len(),
        walked(a, dir, walk, told(a, dir, walk.logical).len() - records.len()),
        records == told(a, dir, walk.logical).skip(
            told(a, dir, walk.logical).len() - records.len(),
        ),
    ensures
        ext4_ends(a, dir, session_laws::list_next(walk.next_record(records))),
    decreases records.len(),
{
    let all = told(a, dir, walk.logical);
    let n = all.len() - records.len();
    if records.len() == 0 {
        lemma_block_is_left(a, dir, walk);
    } else {
        assert(records[0] == all[n]);
        lemma_one_more(all, n);
        if directory::is_dot(records[0].1) {
            let rest = records.drop_first();
            assert(rest =~= all.skip(n + 1));
            lemma_records_go_on(a, dir, walk, rest);
        } else if walk.entries.len() >= 4096 {
            lemma_more_records(all, n + 1);
            lemma_more_blocks(a, dir, walk.logical + 1, walk.total as int);
            assert(tallied(a, dir, walk.logical + 1) == tallied(a, dir, walk.logical as int)
                + tally(all));
        }
    }
}

/// The number of blocks, and those that are within it.
proof fn lemma_block_count(facts: InodeFacts, block_size: u32)
    requires
        block_size > 0,
    ensures
        range::div_up(facts.size as int, block_size as int) == blocks_of(facts, block_size),
        forall|l: u64|
            #![trigger l * block_size]
            l * block_size < facts.size ==> l < blocks_of(facts, block_size),
{
    let b = block_size as int;
    if facts.size > 0 {
        wire_laws::lemma_last_block(facts.size as int, b);
    } else {
        assert(0int % b == 0 && 0int / b == 0) by (nonlinear_arith)
            requires
                b > 0,
        ;
    }
    assert forall|l: u64|
        #![trigger l * block_size]
        l * block_size < facts.size implies l < blocks_of(facts, block_size) by {
        let m = l as int;
        assert(0 <= m * b) by (nonlinear_arith)
            requires
                0 <= m,
                0 < b,
        ;
        vstd::arithmetic::div_mod::lemma_div_multiples_vanish(m, b);
        assert(b * m == m * b) by (nonlinear_arith);
        vstd::arithmetic::div_mod::lemma_div_is_ordered(m * b, facts.size - 1, b);
    }
}

proof fn lemma_ext4_ends(
    a: Ext4Engine,
    s: SessionModel,
    dir: Seq<char>,
    e: Ext4Engine,
    c: CallModel,
    run: Run,
    f: Ext4Engine,
    r: ReplyModel,
)
    requires
        a.valid(),
        volume_laws::ext4_list_stands(a, dir, e, Next::Call(c, run)),
        ext4_ends(a, dir, Next::Call(c, run)),
        e.answers(c, f, r),
    ensures
        ext4_ends(a, dir, session_laws::advance(s, run, r).1),
{
    let facts = a.volume.inodes[a.volume.names[dir]].facts;
    if let Run::List(x) = run {
        match x {
            ListModel::Resolving => {
                lemma_block_count(facts, a.layout.block_size);
                assert(told(a, dir, 0).take(0) =~= seq![]);
                assert(tally(told(a, dir, 0).take(0)) == 0);
                if leads_to_directory(Engine::Ext4(a), dir) && facts.size <= 0x100_0000 {
                    volume_laws::lemma_blocks_are_counted(facts.size, a.layout.block_size);
                }
            },
            ListModel::Mapping(walk) => {
                if a.places[(a.volume.names[dir], walk.logical)] is None {
                    assert(told(a, dir, walk.logical) =~= seq![]);
                    lemma_block_is_left(a, dir, walk);
                }
            },
            ListModel::Loading(walk) => {
                let all = told(a, dir, walk.logical);
                assert(all.skip(0) =~= all);
                if block_at(a, dir, walk.logical) is Some {
                    lemma_records_go_on(a, dir, walk, all);
                } else {
                    assert(!legible(a, dir, walk.logical));
                }
            },
            ListModel::Examining { walk, records } => {
                let all = told(a, dir, walk.logical);
                let n = all.len() - records.len();
                assert(records[0] == all[n]);
                assert(!dots(records[0]));
                if vstd::utf8::valid_utf8(records[0].1) {
                    let entry = stat::inode_entry(
                        vstd::utf8::decode_utf8(records[0].1),
                        InodeFacts { number: records[0].0, ..r->Inode_0 },
                    );
                    let more = walk.entries.push(entry);
                    let next = list::WalkModel { entries: more, ..walk };
                    lemma_still_covered(a, dir, walk.entries, entry, walk.logical as int, all, n);
                    lemma_one_more(all, n);
                    assert(stands_for(more, all[n])) by {
                        assert(more[walk.entries.len() as int] == entry);
                    }
                    assert(covers(more, all, n + 1));
                    lemma_more_records(all, n + 1);
                    let rest = records.drop_first();
                    assert(rest =~= all.skip(n + 1));
                    lemma_records_go_on(a, dir, next, rest);
                } else {
                    assert(!legible(a, dir, walk.logical)) by {
                        assert(block_at(a, dir, walk.logical) == Some(all));
                        assert(!dots(all[n]));
                    }
                }
            },
            _ => {},
        }
    }
}

proof fn lemma_listing_ends(
    e: Engine,
    s: SessionModel,
    dir: Seq<char>,
    events: Seq<Event>,
    after: Seq<Engine>,
)
    requires
        e.kind() == s.kind,
        e.valid(),
        s.mounted,
        !s.device.retired,
        path::refusal(dir) is None,
        volume::truthful(e, s, Op::List(dir), events, after),
    ensures
        ({
            let next = session_laws::progress(s, Op::List(dir), events).1;
            match e {
                Engine::Fat(a) => fat_ends(a.volume, dir, next),
                Engine::Ext4(a) => ext4_ends(a, dir, next),
            }
        }),
    decreases events.len(),
{
    if events.len() > 0 {
        let before = events.drop_last();
        lemma_listing_ends(e, s, dir, before, after.drop_last());
        volume_laws::lemma_list_stands(e, s, dir, before, after.drop_last());
        let (t, next) = session_laws::progress(s, Op::List(dir), before);
        let r = events.last().0;
        if let Next::Call(c, run) = next {
            match (e, volume::last_engine(e, after.drop_last()), after.last()) {
                (Engine::Fat(a), Engine::Fat(b), Engine::Fat(f)) => {
                    lemma_fat_ends(a.volume, t, dir, b, c, run, f, r);
                },
                (Engine::Ext4(a), Engine::Ext4(b), Engine::Ext4(f)) => {
                    lemma_ext4_ends(a, t, dir, b, c, run, f, r);
                },
                _ => {},
            }
        }
    }
}

/// Whether a listing has an entry for what `dir` holds under a name: on FAT under
/// the name of what goes by it, and on ext4 under that name.
pub open spec fn lists(
    e: Engine,
    dir: Seq<char>,
    name: Seq<char>,
    entries: Seq<EntryModel>,
) -> bool {
    exists|k: int|
        0 <= k < entries.len() && success_laws::says(
            e,
            volume::join(dir, name),
            #[trigger] entries[k],
        ) && (e is Ext4 ==> entries[k].name == name)
}

/// A listing that ends well, of an accepted path in a session that takes operations,
/// shows all that the directory at that path holds and nothing else: the path leads
/// to a directory, every accepted path of something in it has its entry, every entry
/// says what is there under its name, and there are as many as the directory has. It
/// ends well wherever the directory is one that is listed, and nowhere else.
pub proof fn law_listings_show_all_that_is_held(
    e: Engine,
    s: SessionModel,
    dir: Seq<char>,
    events: Seq<Event>,
    after: Seq<Engine>,
)
    requires
        e.kind() == s.kind,
        e.valid(),
        e matches Engine::Ext4(a) ==> recorded_all(a, dir),
        s.mounted,
        !s.device.retired,
        path::refusal(dir) is None,
        volume::truthful(e, s, Op::List(dir), events, after),
    ensures
        session_laws::progress(s, Op::List(dir), events).1 matches Next::Done(r) ==> {
            &&& 0 < events.len()
            &&& r is Ok <==> listable(e, dir)
            &&& r matches Ok(value) ==> {
                &&& value matches Value::Entries(entries)
                &&& leads_to_directory(e, dir)
                &&& entries.len() == entry_count(e, dir)
                &&& forall|name: Seq<char>|
                    0 < name.len() && !name.contains('/') && path::refusal(
                        #[trigger] volume::join(dir, name),
                    ) is None && e.place(volume::join(dir, name)) is Some ==> lists(
                        e,
                        dir,
                        name,
                        entries,
                    )
                &&& forall|k: int|
                    0 <= k < entries.len() ==> success_laws::says(
                        e,
                        volume::join(dir, #[trigger] entries[k].name),
                        entries[k],
                    )
            }
        },
{
    lemma_listing_ends(e, s, dir, events, after);
    volume_laws::lemma_list_stands(e, s, dir, events, after);
    if let Next::Done(Ok(Value::Entries(entries))) = session_laws::progress(
        s,
        Op::List(dir),
        events,
    ).1 {
        match (e, volume::last_engine(e, after)) {
            (Engine::Fat(a), Engine::Fat(_)) => {
                let d = a.volume.directory_at(path::relative(dir))->0;
                lemma_shown_is_counted(a.volume.directories[d]);
                assert forall|name: Seq<char>|
                    0 < name.len() && !name.contains('/') && path::refusal(
                        #[trigger] volume::join(dir, name),
                    ) is None && e.place(volume::join(dir, name)) is Some implies lists(
                    e,
                    dir,
                    name,
                    entries,
                ) by {
                    lemma_fat_lists(a, dir, name, entries);
                }
                assert forall|k: int| 0 <= k < entries.len() implies success_laws::says(
                    e,
                    volume::join(dir, #[trigger] entries[k].name),
                    entries[k],
                ) by {
                    lemma_fat_says(a, dir, entries, k);
                }
            },
            (Engine::Ext4(a), Engine::Ext4(b)) => {
                let end = Next::Done(Ok(Value::Entries(entries)));
                assert(volume_laws::ext4_list_stands(a, dir, b, end));
                assert(volume_laws::ext4_entries_told(a.volume, dir, entries));
                assert forall|k: int| 0 <= k < entries.len() implies success_laws::says(
                    e,
                    volume::join(dir, #[trigger] entries[k].name),
                    entries[k],
                ) by {
                    lemma_ext4_says(a, dir, entries[k]);
                }
                assert forall|name: Seq<char>|
                    0 < name.len() && !name.contains('/') && path::refusal(
                        #[trigger] volume::join(dir, name),
                    ) is None && e.place(volume::join(dir, name)) is Some implies lists(
                    e,
                    dir,
                    name,
                    entries,
                ) by {
                    lemma_ext4_lists(a, dir, name, entries);
                }
            },
            _ => {},
        }
    }
}

/// What a FAT directory holds under a name has its entry.
proof fn lemma_fat_lists(
    a: FatEngine,
    dir: Seq<char>,
    name: Seq<char>,
    entries: Seq<EntryModel>,
)
    requires
        a.volume.valid(),
        path::refusal(dir) is None,
        a.volume.directory_at(path::relative(dir)) matches Some(d) && entries == walk_laws::shown(
            volume_laws::items(a.volume.directories[d]),
        ),
        0 < name.len(),
        !name.contains('/'),
        path::refusal(volume::join(dir, name)) is None,
        Engine::Fat(a).place(volume::join(dir, name)) is Some,
    ensures
        lists(Engine::Fat(a), dir, name, entries),
{
    let v = a.volume;
    let p = volume::join(dir, name);
    volume_laws::lemma_join(dir, name);
    volume_laws::lemma_joined_is_not_root(dir, name);
    volume_laws::lemma_relative(p);
    volume_laws::lemma_accepted_is_plain(p);
    volume_laws::lemma_directory_is_there(v, path::relative(dir));
    let (d, i) = v.place(path::relative(p))->0;
    volume_laws::lemma_find(v.directories[d], text::uppercase(name));
    assert(v.valid_directory(v.directories[d]));
    assert(v.valid_node(v.directories[d][i]));
    assert(!v.directories[d][i].is_dot());
    let k = lemma_held_is_shown(v.directories[d], i);
    assert(success_laws::says(Engine::Fat(a), p, entries[k]));
}

/// What a listing of a FAT directory says is there.
proof fn lemma_fat_says(a: FatEngine, dir: Seq<char>, entries: Seq<EntryModel>, k: int)
    requires
        a.volume.valid(),
        path::refusal(dir) is None,
        a.volume.directory_at(path::relative(dir)) matches Some(d) && entries == walk_laws::shown(
            volume_laws::items(a.volume.directories[d]),
        ),
        0 <= k < entries.len(),
    ensures
        success_laws::says(Engine::Fat(a), volume::join(dir, entries[k].name), entries[k]),
{
    let v = a.volume;
    let d = v.directory_at(path::relative(dir))->0;
    let nodes = v.directories[d];
    let j = lemma_shown_is_held(nodes, k);
    let name = nodes[j].name;
    volume_laws::lemma_directory_is_there(v, path::relative(dir));
    assert(v.valid_directory(nodes));
    assert(v.valid_node(nodes[j]));
    volume_laws::lemma_join(dir, name);
    let p = volume::join(dir, name);
    volume_laws::lemma_relative(p);
    assert(path::relative(p).len() > 0);
    assert(nodes[j].goes_by(text::uppercase(name)));
    volume_laws::lemma_found(nodes, j, text::uppercase(name));
}

/// What a listing of an ext4 directory says is there.
proof fn lemma_ext4_says(a: Ext4Engine, dir: Seq<char>, entry: EntryModel)
    requires
        a.valid(),
        volume_laws::ext4_entry_told(a.volume, dir, entry),
    ensures
        success_laws::says(Engine::Ext4(a), volume::join(dir, entry.name), entry),
{
    let p = volume::join(dir, entry.name);
    assert(a.volume.valid_inode(a.volume.names[p]));
    let up = if path::is_root(dir) {
        Seq::<char>::empty()
    } else {
        dir
    };
    assert(p =~= (up + seq!['/']) + entry.name);
}

/// What an ext4 directory holds under a name has its entry.
proof fn lemma_ext4_lists(
    a: Ext4Engine,
    dir: Seq<char>,
    name: Seq<char>,
    entries: Seq<EntryModel>,
)
    requires
        a.valid(),
        recorded_all(a, dir),
        0 < name.len(),
        !name.contains('/'),
        a.volume.names.contains_key(volume::join(dir, name)),
        volume_laws::ext4_entries_told(a.volume, dir, entries),
        covers_blocks(
            a,
            dir,
            entries,
            blocks_of(a.volume.inodes[a.volume.names[dir]].facts, a.layout.block_size),
        ),
    ensures
        lists(Engine::Ext4(a), dir, name, entries),
{
    let facts = a.volume.inodes[a.volume.names[dir]].facts;
    let l = choose|logical: u64| #[trigger] recorded(a, dir, name, logical);
    assert(recorded(a, dir, name, l));
    lemma_block_count(facts, a.layout.block_size);
    assert(l * a.layout.block_size < facts.size);
    let all = told(a, dir, l);
    let i = choose|i: int| 0 <= i < all.len() && names(#[trigger] all[i], name);
    assert(covered(a, dir, entries, l));
    assert(stands_for(entries, all[i]));
    let k = choose|k: int|
        0 <= k < entries.len() && (#[trigger] entries[k]).name == vstd::utf8::decode_utf8(all[i].1);
    lemma_ext4_says(a, dir, entries[k]);
}

} // verus!
