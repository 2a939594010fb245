//! What lookups, listings and reads amount to as a whole, over an engine that
//! tells the truth.

use vstd::prelude::*;

use crate::directory;
use crate::directory::RecordModel;
use crate::engine::CallModel;
use crate::engine::CallOf;
use crate::engine::FatItemOf;
use crate::engine::InodeFacts;
use crate::engine::Layout;
use crate::engine::ReplyModel;
use crate::engine::ReplyOf;
use crate::list;
use crate::list::ListModel;
use crate::list::ListStepModel;
use crate::list::WalkModel;
use crate::range;
use crate::read::ReadModel;
use crate::read::ReadRunOf;
use crate::read::ReadStepModel;
use crate::session::EntryModel;
use crate::session::StepModel;
use crate::session::MAX_ENTRIES;
use crate::stat;
use crate::stat::StatModel;
use crate::stat::StatRunOf;

verus! {

/// The items of a FAT directory, in order.
pub type Items = Seq<FatItemOf<Seq<char>>>;

/// Where a lookup stands after these items.
pub open spec fn scan(x: StatModel, items: Items) -> StepModel<StatModel, EntryModel>
    decreases items.len(),
{
    if items.len() == 0 {
        StepModel::Call(CallOf::NextEntry, x)
    } else {
        match x.resume(ReplyOf::Entry(Some(items[0]))) {
            StepModel::Call(_, next) => scan(next, items.drop_first()),
            StepModel::Done(r) => StepModel::Done(r),
        }
    }
}

/// The first item that goes by the wanted name.
pub open spec fn first_named(items: Items, wanted: Seq<char>) -> Option<FatItemOf<Seq<char>>>
    decreases items.len(),
{
    if items.len() == 0 {
        None
    } else if stat::goes_by(items[0], wanted) {
        Some(items[0])
    } else {
        first_named(items.drop_first(), wanted)
    }
}

/// A lookup in a FAT directory of at most 4096 items ends with the first item
/// that goes by the name, and in `not found` where none does.
pub proof fn law_fat_lookups_find_the_first(wanted: Seq<char>, seen: usize, items: Items)
    requires
        seen + items.len() <= MAX_ENTRIES,
    ensures
        match first_named(items, wanted) {
            Some(item) => scan(StatRunOf::Scanning { wanted, seen }, items) == (StepModel::<
                StatModel,
                EntryModel,
            >::Done(Ok(stat::fat_entry(item)))),
            None => {
                let last = StatModel::Scanning { wanted, seen: (seen + items.len()) as usize };
                &&& scan(StatRunOf::Scanning { wanted, seen }, items) == (StepModel::<
                    StatModel,
                    EntryModel,
                >::Call(CallOf::NextEntry, last))
                &&& last.resume(ReplyOf::Entry(None)) == (StepModel::<StatModel, EntryModel>::Done(
                    Err("not found"@),
                ))
            },
        },
    decreases items.len(),
{
    if items.len() > 0 && !stat::goes_by(items[0], wanted) {
        law_fat_lookups_find_the_first(wanted, (seen + 1) as usize, items.drop_first());
    }
}

/// Where a listing stands after these items.
pub open spec fn collect(x: ListModel, items: Items) -> ListStepModel
    decreases items.len(),
{
    if items.len() == 0 {
        StepModel::Call(CallOf::NextEntry, x)
    } else {
        match x.resume(ReplyOf::Entry(Some(items[0]))) {
            StepModel::Call(_, next) => collect(next, items.drop_first()),
            StepModel::Done(r) => StepModel::Done(r),
        }
    }
}

/// What a listing shows of these items: all but the directory itself and its
/// parent, in order.
pub open spec fn shown(items: Items) -> Seq<EntryModel>
    decreases items.len(),
{
    if items.len() == 0 {
        seq![]
    } else if items[0].name == "."@ || items[0].name == ".."@ {
        shown(items.drop_first())
    } else {
        seq![stat::fat_entry(items[0])] + shown(items.drop_first())
    }
}

/// A listing of a FAT directory shows every item but the dots, in order, and is
/// refused where those are more than 4096.
pub proof fn law_fat_listings_show_everything(entries: Seq<EntryModel>, items: Items)
    requires
        entries.len() <= MAX_ENTRIES,
    ensures
        entries.len() + shown(items).len() <= MAX_ENTRIES ==> {
            let last = ListModel::Scanning { entries: entries + shown(items) };
            &&& collect(ListModel::Scanning { entries }, items) == ListStepModel::Call(
                CallOf::NextEntry,
                last,
            )
            &&& last.resume(ReplyOf::Entry(None)) == ListStepModel::Done(
                Ok(entries + shown(items)),
            )
        },
        entries.len() + shown(items).len() > MAX_ENTRIES ==> collect(
            ListModel::Scanning { entries },
            items,
        ) == ListStepModel::Done(Err(list::over_limit())),
    decreases items.len(),
{
    if items.len() == 0 {
        assert(entries + shown(items) =~= entries);
    } else {
        let rest = items.drop_first();
        if items[0].name == "."@ || items[0].name == ".."@ {
            law_fat_listings_show_everything(entries, rest);
        } else if entries.len() < MAX_ENTRIES {
            let more = entries.push(stat::fat_entry(items[0]));
            law_fat_listings_show_everything(more, rest);
            assert(more + shown(rest) =~= entries + shown(items));
        }
    }
}

/// An ext4 directory as an engine serves it: where its blocks lie, what they
/// hold, and the inodes of its entries.
pub struct Served {
    pub inode: InodeFacts,
    pub layout: Layout,
    pub places: Map<u64, Option<u64>>,
    pub blocks: Map<u64, Seq<u8>>,
    pub inodes: Map<u32, InodeFacts>,
}

impl Served {
    /// The truthful reply to a call of a listing.
    pub open spec fn reply(self, c: CallModel) -> ReplyModel {
        match c {
            CallOf::MapBlock(n) => ReplyOf::Mapped(self.places[n]),
            CallOf::ReadBlock(n) => ReplyOf::Bytes(self.blocks[n]),
            CallOf::ReadInode(n) => ReplyOf::Inode(self.inodes[n]),
            _ => ReplyOf::Done,
        }
    }

    /// Where a listing stands after so many truthful replies.
    pub open spec fn served(self, step: ListStepModel, replies: nat) -> ListStepModel
        decreases replies,
    {
        if replies == 0 {
            step
        } else {
            match step {
                StepModel::Call(c, x) => self.served(
                    x.resume(self.reply(c)),
                    (replies - 1) as nat,
                ),
                StepModel::Done(r) => StepModel::Done(r),
            }
        }
    }

    /// Whether the records of a block can be shown: their names are text.
    pub open spec fn readable(self, records: Seq<RecordModel>) -> bool {
        forall|i: int|
            0 <= i < records.len() && !directory::is_dot(#[trigger] records[i].1)
                ==> vstd::utf8::valid_utf8(records[i].1)
    }

    /// What a listing shows of these records.
    pub open spec fn shown(self, records: Seq<RecordModel>) -> Seq<EntryModel>
        decreases records.len(),
    {
        if records.len() == 0 {
            seq![]
        } else if directory::is_dot(records[0].1) {
            self.shown(records.drop_first())
        } else {
            seq![
                stat::inode_entry(
                    vstd::utf8::decode_utf8(records[0].1),
                    InodeFacts { number: records[0].0, ..self.inodes[records[0].0] },
                ),
            ] + self.shown(records.drop_first())
        }
    }

    /// The records of a logical block; none where it is a hole.
    pub open spec fn records(self, logical: u64) -> Result<Seq<RecordModel>, Seq<char>> {
        match self.places[logical] {
            None => Ok(seq![]),
            Some(at) => directory::records_of(self.blocks[at], self.inode, self.layout),
        }
    }

    /// Whether the blocks from `from` to `to` can all be shown.
    pub open spec fn sound(self, from: u64, to: u64) -> bool {
        forall|n: u64|
            from <= n < to ==> (#[trigger] self.records(n) is Ok && self.readable(
                self.records(n)->Ok_0,
            ))
    }

    /// What a listing shows of the blocks from `from` to `to`.
    pub open spec fn contents(self, from: u64, to: u64) -> Seq<EntryModel>
        decreases to - from,
    {
        if from >= to {
            seq![]
        } else {
            self.shown(self.records(from)->Ok_0) + self.contents((from + 1) as u64, to)
        }
    }

    /// How many replies the blocks from `from` to `to` take.
    pub open spec fn cost(self, from: u64, to: u64) -> nat
        decreases to - from,
    {
        if from >= to {
            0
        } else {
            (if self.places[from] is None {
                1nat
            } else {
                2nat
            }) + self.shown(self.records(from)->Ok_0).len() + self.cost((from + 1) as u64, to)
        }
    }
}

proof fn lemma_served_adds(d: Served, step: ListStepModel, a: nat, b: nat)
    ensures
        d.served(step, a + b) == d.served(d.served(step, a), b),
    decreases a,
{
    if a > 0 {
        match step {
            StepModel::Call(c, x) => {
                lemma_served_adds(d, x.resume(d.reply(c)), (a - 1) as nat, b);
            },
            StepModel::Done(r) => {
                lemma_served_done(d, r, a + b);
                lemma_served_done(d, r, b);
            },
        }
    }
}

proof fn lemma_served_done(d: Served, r: Result<Seq<EntryModel>, Seq<char>>, n: nat)
    ensures
        d.served(StepModel::Done(r), n) == ListStepModel::Done(r),
    decreases n,
{
    if n > 0 {
        lemma_served_done(d, r, (n - 1) as nat);
    }
}

/// Records that can be shown can be shown without the first.
proof fn lemma_rest_is_readable(d: Served, records: Seq<RecordModel>)
    requires
        0 < records.len(),
        d.readable(records),
    ensures
        d.readable(records.drop_first()),
{
    let rest = records.drop_first();
    assert forall|i: int|
        0 <= i < rest.len() && !directory::is_dot(
            #[trigger] rest[i].1,
        ) implies vstd::utf8::valid_utf8(rest[i].1) by {
        assert(rest[i] == records[i + 1]);
    }
}

/// The records of one block are all shown, and the walk leaves the block.
proof fn lemma_records_are_shown(d: Served, walk: WalkModel, records: Seq<RecordModel>)
    requires
        d.readable(records),
        walk.entries.len() + d.shown(records).len() <= MAX_ENTRIES,
    ensures
        d.served(walk.next_record(records), d.shown(records).len()) == (WalkModel {
            entries: walk.entries + d.shown(records),
            ..walk
        }).leave_block(),
    decreases records.len(),
{
    if records.len() == 0 {
        assert(walk.entries + d.shown(records) =~= walk.entries);
    } else {
        let rest = records.drop_first();
        lemma_rest_is_readable(d, records);
        if directory::is_dot(records[0].1) {
            lemma_records_are_shown(d, walk, rest);
        } else {
            let entry = stat::inode_entry(
                vstd::utf8::decode_utf8(records[0].1),
                InodeFacts { number: records[0].0, ..d.inodes[records[0].0] },
            );
            let next = WalkModel { entries: walk.entries.push(entry), ..walk };
            assert(vstd::utf8::valid_utf8(records[0].1));
            assert(d.shown(records).len() == 1 + d.shown(rest).len());
            lemma_records_are_shown(d, next, rest);
            assert(next.entries + d.shown(rest) =~= walk.entries + d.shown(records));
        }
    }
}

/// The records of one block are too many, and the walk ends.
proof fn lemma_records_are_too_many(d: Served, walk: WalkModel, records: Seq<RecordModel>)
    requires
        d.readable(records),
        walk.entries.len() + d.shown(records).len() > MAX_ENTRIES,
        walk.entries.len() <= MAX_ENTRIES,
    ensures
        d.served(walk.next_record(records), d.shown(records).len()) == ListStepModel::Done(
            Err(list::over_limit()),
        ),
    decreases records.len(),
{
    if records.len() > 0 {
        let rest = records.drop_first();
        lemma_rest_is_readable(d, records);
        if directory::is_dot(records[0].1) {
            lemma_records_are_too_many(d, walk, rest);
        } else if walk.entries.len() >= MAX_ENTRIES {
            lemma_served_done(d, Err(list::over_limit()), d.shown(records).len());
        } else {
            let entry = stat::inode_entry(
                vstd::utf8::decode_utf8(records[0].1),
                InodeFacts { number: records[0].0, ..d.inodes[records[0].0] },
            );
            let next = WalkModel { entries: walk.entries.push(entry), ..walk };
            assert(vstd::utf8::valid_utf8(records[0].1));
            assert(d.shown(records).len() == 1 + d.shown(rest).len());
            lemma_records_are_too_many(d, next, rest);
        }
    }
}

/// A walk over an ext4 directory that holds more than 4096 entries ends in a
/// refusal.
pub proof fn law_large_ext4_listings_are_refused(d: Served, walk: WalkModel)
    requires
        walk.inode == d.inode,
        walk.layout == d.layout,
        walk.logical <= walk.total < u64::MAX,
        walk.entries.len() <= MAX_ENTRIES,
        d.sound(walk.logical, walk.total),
        walk.entries.len() + d.contents(walk.logical, walk.total).len() > MAX_ENTRIES,
    ensures
        d.served(walk.next_block(), d.cost(walk.logical, walk.total)) == ListStepModel::Done(
            Err(list::over_limit()),
        ),
    decreases walk.total - walk.logical,
{
    let here = walk.logical;
    if here < walk.total {
        let next = (here + 1) as u64;
        assert(d.records(here) is Ok && d.readable(d.records(here)->Ok_0));
        let records = d.records(here)->Ok_0;
        let shown = d.shown(records);
        let after = WalkModel { logical: next, entries: walk.entries + shown, ..walk };
        let tail = d.cost(next, walk.total);
        match d.places[here] {
            None => {
                assert(records =~= seq![]);
                assert(shown =~= seq![]);
                assert(walk.entries + shown =~= walk.entries);
                law_large_ext4_listings_are_refused(d, after);
                assert(d.served(walk.next_block(), 1) == after.next_block()) by {
                    reveal_with_fuel(Served::served, 2);
                }
                lemma_served_adds(d, walk.next_block(), 1, tail);
            },
            Some(at) => {
                assert(d.served(walk.next_block(), 2) == walk.next_record(records)) by {
                    reveal_with_fuel(Served::served, 3);
                }
                lemma_served_adds(d, walk.next_block(), 2, shown.len());
                lemma_served_adds(d, walk.next_block(), 2 + shown.len(), tail);
                if walk.entries.len() + shown.len() > MAX_ENTRIES {
                    lemma_records_are_too_many(d, walk, records);
                    lemma_served_done(d, Err(list::over_limit()), tail);
                } else {
                    lemma_records_are_shown(d, walk, records);
                    law_large_ext4_listings_are_refused(d, after);
                }
            },
        }
    }
}

/// A walk over an ext4 directory shows every record of every block but the dots,
/// in order, under the name and with the inode that the record gives, and ends.
pub proof fn law_ext4_listings_show_everything(d: Served, walk: WalkModel)
    requires
        walk.inode == d.inode,
        walk.layout == d.layout,
        walk.logical <= walk.total < u64::MAX,
        d.sound(walk.logical, walk.total),
        walk.entries.len() + d.contents(walk.logical, walk.total).len() <= MAX_ENTRIES,
    ensures
        d.served(walk.next_block(), d.cost(walk.logical, walk.total)) == ListStepModel::Done(
            Ok(walk.entries + d.contents(walk.logical, walk.total)),
        ),
    decreases walk.total - walk.logical,
{
    let here = walk.logical;
    if here < walk.total {
        let next = (here + 1) as u64;
        assert(d.records(here) is Ok && d.readable(d.records(here)->Ok_0));
        let records = d.records(here)->Ok_0;
        let shown = d.shown(records);
        let rest = d.contents(next, walk.total);
        let after = WalkModel { logical: next, entries: walk.entries + shown, ..walk };
        assert(d.contents(here, walk.total) == shown + rest);
        assert(d.sound(next, walk.total));
        law_ext4_listings_show_everything(d, after);
        assert(after.entries + rest =~= walk.entries + (shown + rest));
        let tail = d.cost(next, walk.total);
        match d.places[here] {
            None => {
                assert(records =~= seq![]);
                assert(shown =~= seq![]);
                assert(walk.entries + shown =~= walk.entries);
                assert(d.served(walk.next_block(), 1) == after.next_block()) by {
                    reveal_with_fuel(Served::served, 2);
                }
                lemma_served_adds(d, walk.next_block(), 1, tail);
            },
            Some(at) => {
                assert(d.served(walk.next_block(), 2) == walk.next_record(records)) by {
                    reveal_with_fuel(Served::served, 3);
                }
                lemma_records_are_shown(d, walk, records);
                assert(d.served(walk.next_record(records), shown.len()) == after.next_block());
                lemma_served_adds(d, walk.next_block(), 2, shown.len());
                lemma_served_adds(d, walk.next_block(), 2 + shown.len(), tail);
            },
        }
    } else {
        assert(walk.entries + d.contents(walk.logical, walk.total) =~= walk.entries);
    }
}

/// The same of a whole directory: from the reply that resolves its path, a
/// listing ends with what all of its blocks show.
pub proof fn law_ext4_directories_are_listed_whole(d: Served)
    requires
        d.inode.is_directory(),
        !d.inode.is_inline(),
        d.inode.size <= list::MAX_DIRECTORY_BYTES,
        d.layout.block_size > 0,
        d.sound(0, range::div_up(d.inode.size as int, d.layout.block_size as int) as u64),
        d.contents(
            0,
            range::div_up(d.inode.size as int, d.layout.block_size as int) as u64,
        ).len() <= MAX_ENTRIES,
    ensures
        ({
            let total = range::div_up(d.inode.size as int, d.layout.block_size as int) as u64;
            d.served(
                ListModel::Resolving.resume(ReplyOf::Resolved(d.inode, d.layout)),
                d.cost(0, total),
            ) == ListStepModel::Done(Ok(d.contents(0, total)))
        }),
{
    let size = d.inode.size as int;
    let b = d.layout.block_size as int;
    assert(0 <= size / b <= size) by (nonlinear_arith)
        requires
            0 <= size,
            0 < b,
    ;
    let total = range::div_up(size, b) as u64;
    let walk = WalkModel {
        inode: d.inode,
        layout: d.layout,
        logical: 0,
        total,
        entries: seq![],
    };
    law_ext4_listings_show_everything(d, walk);
    assert(walk.entries + d.contents(0, total) =~= d.contents(0, total));
}

/// Whether a read that began at `offset` of `file` has collected the file so far.
pub open spec fn follows(file: Seq<u8>, offset: int, x: ReadModel) -> bool {
    x matches ReadRunOf::Reading { collected, length } && collected.len() < length && offset
        + collected.len() <= file.len() && collected == file.subrange(
        offset,
        offset + collected.len(),
    )
}

/// Whether a reply hands over some of the file, from where the read stands, and
/// nothing only at its end.
pub open spec fn hands_over(file: Seq<u8>, offset: int, x: ReadModel, r: ReplyModel) -> bool {
    x matches ReadRunOf::Reading { collected, length } && r matches ReplyOf::Bytes(b) && b.len()
        <= length - collected.len() && offset + collected.len() + b.len() <= file.len() && b
        == file.subrange(offset + collected.len(), offset + collected.len() + b.len()) && (b.len()
        == 0 ==> offset + collected.len() == file.len())
}

/// Reading from a FAT file gives exactly the bytes of the file from `offset`, as
/// many as were asked for or as there are, into however many pieces the engine
/// cuts them.
pub proof fn law_reads_give_the_bytes_of_the_file(
    file: Seq<u8>,
    offset: int,
    x: ReadModel,
    r: ReplyModel,
)
    requires
        0 <= offset,
        follows(file, offset, x),
        hands_over(file, offset, x, r),
    ensures
        match x.resume(r) {
            StepModel::Call(_, next) => follows(file, offset, next) && next->Reading_length
                == x->Reading_length,
            StepModel::Done(Ok(b)) => b == file.subrange(
                offset,
                if offset + x->Reading_length <= file.len() {
                    offset + x->Reading_length
                } else {
                    file.len() as int
                },
            ),
            StepModel::Done(Err(_)) => false,
        },
{
    let collected = x->collected;
    let b = r->Bytes_0;
    assert(collected + b =~= file.subrange(offset, offset + collected.len() + b.len()));
}

/// The read starts out having collected nothing, which follows the file.
pub proof fn law_reads_start_at_the_offset(file: Seq<u8>, offset: int, length: usize)
    requires
        0 <= offset <= file.len(),
        0 < length,
    ensures
        (ReadModel::Seeking { length }).resume(ReplyOf::Done) matches ReadStepModel::Call(c, x) && c
            == CallModel::ReadSome(length) && follows(file, offset, x),
{
    assert(file.subrange(offset, offset) =~= seq![]);
}

} // verus!
