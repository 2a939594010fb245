//! Listing a directory.

use vstd::prelude::*;

use crate::directory;
use crate::directory::DirRecord;
use crate::directory::RecordModel;
use crate::engine;
use crate::engine::CallOf;
use crate::engine::InodeFacts;
use crate::engine::Kind;
use crate::engine::Layout;
use crate::engine::Reply;
use crate::engine::ReplyModel;
use crate::engine::ReplyOf;
use crate::path;
use crate::range;
use crate::session::unanswered;
use crate::session::Entry;
use crate::session::EntryModel;
use crate::session::Session;
use crate::session::SessionModel;
use crate::session::Step;
use crate::session::StepModel;
use crate::session::MAX_ENTRIES;
use crate::stat;
use crate::text;

verus! {

/// The largest ext4 directory that is walked.
pub const MAX_DIRECTORY_BYTES: u64 = 0x100_0000;

/// The entries of a directory.
pub struct Listing {
    pub entries: Vec<Entry>,
}

/// Entries by their views.
pub open spec fn entries_view(s: Seq<Entry>) -> Seq<EntryModel> {
    s.map_values(|e: Entry| e@)
}

impl View for Listing {
    type V = Seq<EntryModel>;

    open spec fn view(&self) -> Seq<EntryModel> {
        entries_view(self.entries@)
    }
}

/// A walk over the blocks of an ext4 directory, as mathematics.
pub struct WalkModel {
    pub inode: InodeFacts,
    pub layout: Layout,
    pub logical: u64,
    pub total: u64,
    pub entries: Seq<EntryModel>,
}

/// A listing in flight, as mathematics.
pub enum ListModel {
    /// FAT: the directory is being opened.
    Opening,
    /// FAT: its entries are being collected.
    Scanning { entries: Seq<EntryModel> },
    /// ext4: the path is being resolved.
    Resolving,
    /// ext4: the walk asks where its next block lies.
    Mapping(WalkModel),
    /// ext4: the walk waits for its next block.
    Loading(WalkModel),
    /// ext4: the walk waits for the inode of the first of these records.
    Examining { walk: WalkModel, records: Seq<RecordModel> },
}

/// What a step of a listing is.
pub type ListStepModel = StepModel<ListModel, Seq<EntryModel>>;

/// The message for a directory that holds too much.
pub open spec fn over_limit() -> Seq<char> {
    "directory entry limit exceeded"@
}

impl WalkModel {
    /// Goes to the block that the walk stands at, or ends.
    pub open spec fn next_block(self) -> ListStepModel {
        if self.logical < self.total {
            StepModel::Call(CallOf::MapBlock(self.logical), ListModel::Mapping(self))
        } else {
            StepModel::Done(Ok(self.entries))
        }
    }

    /// Leaves the block that the walk stands at.
    pub open spec fn leave_block(self) -> ListStepModel {
        WalkModel { logical: (self.logical + 1) as u64, ..self }.next_block()
    }

    /// Goes to the first record that is not a dot, or leaves the block.
    pub open spec fn next_record(self, records: Seq<RecordModel>) -> ListStepModel
        decreases records.len(),
    {
        if records.len() == 0 {
            self.leave_block()
        } else if directory::is_dot(records[0].1) {
            self.next_record(records.drop_first())
        } else if self.entries.len() >= MAX_ENTRIES {
            StepModel::Done(Err(over_limit()))
        } else {
            StepModel::Call(
                CallOf::ReadInode(records[0].0),
                ListModel::Examining { walk: self, records },
            )
        }
    }

    /// Takes the records of the block that the walk stands at.
    pub open spec fn after_block(self, parsed: Result<Seq<RecordModel>, Seq<char>>) -> ListStepModel {
        match parsed {
            Ok(records) => self.next_record(records),
            Err(e) => StepModel::Done(Err(e)),
        }
    }

    /// Takes the inode of the first of these records.
    pub open spec fn after_inode(
        self,
        records: Seq<RecordModel>,
        inode: InodeFacts,
    ) -> ListStepModel {
        if vstd::utf8::valid_utf8(records[0].1) {
            let entry = stat::inode_entry(
                vstd::utf8::decode_utf8(records[0].1),
                InodeFacts { number: records[0].0, ..inode },
            );
            WalkModel { entries: self.entries.push(entry), ..self }.next_record(
                records.drop_first(),
            )
        } else {
            StepModel::Done(Err(text::utf8_complaint(records[0].1)))
        }
    }
}

/// Starts the walk over a directory, or says why it is not walked.
pub open spec fn walk_of(inode: InodeFacts, layout: Layout) -> ListStepModel {
    if !inode.is_directory() {
        StepModel::Done(Err("not a directory"@))
    } else if inode.size > MAX_DIRECTORY_BYTES || inode.is_inline() {
        StepModel::Done(Err("unsupported or oversized directory layout"@))
    } else {
        WalkModel {
            inode,
            layout,
            logical: 0,
            total: range::div_up(inode.size as int, layout.block_size as int) as u64,
            entries: seq![],
        }.next_block()
    }
}

/// Takes the next entry of a FAT directory, or its end.
pub open spec fn after_item(entries: Seq<EntryModel>, r: ReplyModel) -> ListStepModel {
    match r {
        ReplyOf::Entry(None) => StepModel::Done(Ok(entries)),
        ReplyOf::Entry(Some(item)) => if item.name == "."@ || item.name == ".."@ {
            StepModel::Call(CallOf::NextEntry, ListModel::Scanning { entries })
        } else if entries.len() >= MAX_ENTRIES {
            StepModel::Done(Err(over_limit()))
        } else {
            StepModel::Call(
                CallOf::NextEntry,
                ListModel::Scanning { entries: entries.push(stat::fat_entry(item)) },
            )
        },
        _ => StepModel::Done(Err(engine::stray(r))),
    }
}

impl SessionModel {
    /// Starts a listing.
    pub open spec fn list(self, value: Seq<char>) -> ListStepModel {
        match path::refusal(value) {
            Some(why) => StepModel::Done(Err(why)),
            None => match self.engine() {
                Err(e) => StepModel::Done(Err(e)),
                Ok(Kind::Fat) => StepModel::Call(
                    CallOf::OpenDirectory(path::relative(value)),
                    ListModel::Opening,
                ),
                Ok(Kind::Ext4) => StepModel::Call(CallOf::Resolve(value), ListModel::Resolving),
            },
        }
    }
}

impl ListModel {
    /// Takes the records of the block that the listing waits for.
    pub open spec fn take_records(
        self,
        parsed: Result<Seq<RecordModel>, Seq<char>>,
    ) -> ListStepModel {
        match self {
            ListModel::Loading(walk) => walk.after_block(parsed),
            _ => StepModel::Done(Err(engine::misplaced())),
        }
    }

    /// Takes the reply to the outstanding call of a listing.
    pub open spec fn resume(self, r: ReplyModel) -> ListStepModel {
        match self {
            ListModel::Opening => match engine::plain_outcome(r) {
                Ok(()) => StepModel::Call(
                    CallOf::NextEntry,
                    ListModel::Scanning { entries: seq![] },
                ),
                Err(e) => StepModel::Done(Err(e)),
            },
            ListModel::Scanning { entries } => after_item(entries, r),
            ListModel::Resolving => match stat::resolved(r) {
                Ok((inode, layout)) => walk_of(inode, layout),
                Err(e) => StepModel::Done(Err(e)),
            },
            ListModel::Mapping(walk) => match r {
                ReplyOf::Mapped(Some(at)) => StepModel::Call(
                    CallOf::ReadBlock(at),
                    ListModel::Loading(walk),
                ),
                ReplyOf::Mapped(None) => walk.leave_block(),
                _ => StepModel::Done(Err(engine::stray(r))),
            },
            ListModel::Loading(walk) => match r {
                ReplyOf::Bytes(block) => self.take_records(
                    directory::records_of(block, walk.inode, walk.layout),
                ),
                _ => StepModel::Done(Err(engine::stray(r))),
            },
            ListModel::Examining { walk, records } => match r {
                ReplyOf::Inode(inode) => walk.after_inode(records, inode),
                _ => StepModel::Done(Err(engine::stray(r))),
            },
        }
    }
}

/// A walk over the blocks of an ext4 directory.
pub struct Walk {
    inode: InodeFacts,
    layout: Layout,
    logical: u64,
    total: u64,
    entries: Vec<Entry>,
}

impl View for Walk {
    type V = WalkModel;

    closed spec fn view(&self) -> WalkModel {
        WalkModel {
            inode: self.inode,
            layout: self.layout,
            logical: self.logical,
            total: self.total,
            entries: entries_view(self.entries@),
        }
    }
}

/// What a listing in flight waits for.
enum ListState {
    Opening,
    Scanning(Vec<Entry>),
    Resolving,
    Mapping(Walk),
    Loading(Walk),
    Examining { walk: Walk, records: Vec<DirRecord>, at: usize },
}

/// A listing in flight.
pub struct ListRun {
    state: ListState,
}

impl View for ListRun {
    type V = ListModel;

    closed spec fn view(&self) -> ListModel {
        match self.state {
            ListState::Opening => ListModel::Opening,
            ListState::Scanning(entries) => ListModel::Scanning {
                entries: entries_view(entries@),
            },
            ListState::Resolving => ListModel::Resolving,
            ListState::Mapping(walk) => ListModel::Mapping(walk@),
            ListState::Loading(walk) => ListModel::Loading(walk@),
            ListState::Examining { walk, records, at } => ListModel::Examining {
                walk: walk@,
                records: directory::records_view(records@).skip(at as int),
            },
        }
    }
}

impl ListRun {
    #[verifier::type_invariant]
    spec fn valid(self) -> bool {
        match self.state {
            ListState::Mapping(walk) => walk.logical < walk.total,
            ListState::Loading(walk) => walk.logical < walk.total,
            ListState::Examining { walk, records, at } => walk.logical < walk.total && at
                < records@.len(),
            _ => true,
        }
    }
}

impl Walk {
    fn next_block(self) -> (step: Step<ListRun, Listing>)
        ensures
            step@ == self@.next_block(),
    {
        if self.logical < self.total {
            Step::Call(
                CallOf::MapBlock(self.logical),
                ListRun { state: ListState::Mapping(self) },
            )
        } else {
            Step::Done(Ok(Listing { entries: self.entries }))
        }
    }

    fn leave_block(self) -> (step: Step<ListRun, Listing>)
        requires
            self@.logical < self@.total,
        ensures
            step@ == self@.leave_block(),
    {
        Walk { logical: self.logical + 1, ..self }.next_block()
    }

    fn next_record(self, records: Vec<DirRecord>, from: usize) -> (step: Step<ListRun, Listing>)
        requires
            self@.logical < self@.total,
            from <= records@.len(),
        ensures
            step@ == self@.next_record(directory::records_view(records@).skip(from as int)),
    {
        let ghost all = directory::records_view(records@);
        let mut at: usize = from;
        while at < records.len() && directory::names_dot(&records[at].name)
            invariant
                from <= at <= records@.len(),
                all == directory::records_view(records@),
                self@.next_record(all.skip(from as int)) == self@.next_record(all.skip(at as int)),
            decreases records@.len() - at,
        {
            assert(all.skip(at as int).drop_first() =~= all.skip(at + 1));
            at = at + 1;
        }
        if at == records.len() {
            assert(all.skip(at as int) =~= seq![]);
            return self.leave_block();
        }
        assert(all.skip(at as int)[0] == records@[at as int]@);
        if self.entries.len() >= MAX_ENTRIES {
            return Step::Done(Err("directory entry limit exceeded".to_owned()));
        }
        Step::Call(
            CallOf::ReadInode(records[at].inode),
            ListRun { state: ListState::Examining { walk: self, records, at } },
        )
    }

    fn after_block(self, parsed: Result<Vec<DirRecord>, String>) -> (step: Step<
        ListRun,
        Listing,
    >)
        requires
            self@.logical < self@.total,
        ensures
            step@ == self@.after_block(directory::parsed_view(parsed)),
    {
        match parsed {
            Ok(records) => {
                assert(directory::records_view(records@).skip(0) =~= directory::records_view(
                    records@,
                ));
                self.next_record(records, 0)
            },
            Err(e) => Step::Done(Err(e)),
        }
    }

    fn after_inode(self, records: Vec<DirRecord>, at: usize, inode: InodeFacts) -> (step: Step<
        ListRun,
        Listing,
    >)
        requires
            self@.logical < self@.total,
            at < records@.len(),
        ensures
            step@ == self@.after_inode(directory::records_view(records@).skip(at as int), inode),
    {
        let count: usize = records.len();
        assert(at < count);
        let ghost rest = directory::records_view(records@).skip(at as int);
        assert(rest[0] == records@[at as int]@);
        match text::from_utf8(records[at].name.clone()) {
            Ok(name) => {
                let Walk { inode: dir, layout, logical, total, entries } = self;
                let mut entries = entries;
                let entry = stat::entry_of_inode(
                    name,
                    InodeFacts { number: records[at].inode, ..inode },
                );
                let ghost before = entries@;
                entries.push(entry);
                assert(entries_view(entries@) =~= entries_view(before).push(entry@));
                assert(rest.drop_first() =~= directory::records_view(records@).skip(at + 1));
                Walk { inode: dir, layout, logical, total, entries }.next_record(records, at + 1)
            },
            Err(e) => Step::Done(Err(e)),
        }
    }
}

fn start_walk(inode: InodeFacts, layout: Layout) -> (step: Step<ListRun, Listing>)
    requires
        layout.block_size > 0,
    ensures
        step@ == walk_of(inode, layout),
{
    if inode.mode / 0x1000 != 4 {
        return Step::Done(Err("not a directory".to_owned()));
    }
    if inode.size > MAX_DIRECTORY_BYTES || inode.flags / 0x1000_0000 % 2 == 1 {
        return Step::Done(Err("unsupported or oversized directory layout".to_owned()));
    }
    let block_size: u64 = layout.block_size as u64;
    let total: u64 = if inode.size % block_size == 0 {
        inode.size / block_size
    } else {
        inode.size / block_size + 1
    };
    let walk = Walk { inode, layout, logical: 0, total, entries: Vec::new() };
    assert(walk@.entries =~= seq![]);
    walk.next_block()
}

fn take_item(entries: Vec<Entry>, reply: Reply) -> (step: Step<ListRun, Listing>)
    ensures
        step@ == after_item(entries_view(entries@), reply@),
{
    match reply {
        ReplyOf::Entry(None) => Step::Done(Ok(Listing { entries })),
        ReplyOf::Entry(Some(item)) => {
            if text::same(item.name.as_str(), ".") || text::same(item.name.as_str(), "..") {
                return Step::Call(
                    CallOf::NextEntry,
                    ListRun { state: ListState::Scanning(entries) },
                );
            }
            if entries.len() >= MAX_ENTRIES {
                return Step::Done(Err("directory entry limit exceeded".to_owned()));
            }
            let mut entries = entries;
            let ghost before = entries@;
            let entry = stat::entry_of_item(item);
            entries.push(entry);
            assert(entries_view(entries@) =~= entries_view(before).push(entry@));
            Step::Call(CallOf::NextEntry, ListRun { state: ListState::Scanning(entries) })
        },
        _ => Step::Done(Err(engine::stray_reply(reply))),
    }
}

impl Session {
    /// Lists a directory, without the entries for itself and its parent.
    pub fn list(&self, value: &str) -> (step: Step<ListRun, Listing>)
        ensures
            step@ == self@.list(value@),
    {
        if let Err(e) = path::path(value) {
            return Step::Done(Err(e));
        }
        proof {
            path::lemma_accepted_is_absolute(value@);
        }
        match self.engine() {
            Err(e) => Step::Done(Err(e)),
            Ok(Kind::Fat) => Step::Call(
                CallOf::OpenDirectory(path::relative_of(value)),
                ListRun { state: ListState::Opening },
            ),
            Ok(Kind::Ext4) => Step::Call(
                CallOf::Resolve(value.to_owned()),
                ListRun { state: ListState::Resolving },
            ),
        }
    }
}

impl ListRun {
    /// Takes the records of the block that the listing waits for, or what is
    /// wrong with the block.
    pub fn take_records(self, parsed: Result<Vec<DirRecord>, String>) -> (step: Step<
        ListRun,
        Listing,
    >)
        ensures
            step@ == self@.take_records(directory::parsed_view(parsed)),
    {
        proof {
            use_type_invariant(&self);
        }
        match self.state {
            ListState::Loading(walk) => walk.after_block(parsed),
            _ => unanswered(),
        }
    }

    /// Takes the reply to the outstanding call. A volume has blocks of at least
    /// one byte.
    pub fn resume(self, reply: Reply) -> (step: Step<ListRun, Listing>)
        requires
            reply matches ReplyOf::Resolved(_, layout) ==> layout.block_size > 0,
        ensures
            step@ == self@.resume(reply@),
    {
        proof {
            use_type_invariant(&self);
        }
        match self.state {
            ListState::Opening => match engine::plainly(reply) {
                Ok(()) => {
                    let entries: Vec<Entry> = Vec::new();
                    assert(entries_view(entries@) =~= seq![]);
                    Step::Call(CallOf::NextEntry, ListRun { state: ListState::Scanning(entries) })
                },
                Err(e) => Step::Done(Err(e)),
            },
            ListState::Scanning(entries) => take_item(entries, reply),
            ListState::Resolving => match stat::resolved_inode(reply) {
                Ok((inode, layout)) => start_walk(inode, layout),
                Err(e) => Step::Done(Err(e)),
            },
            ListState::Mapping(walk) => match reply {
                ReplyOf::Mapped(Some(at)) => Step::Call(
                    CallOf::ReadBlock(at),
                    ListRun { state: ListState::Loading(walk) },
                ),
                ReplyOf::Mapped(None) => walk.leave_block(),
                _ => Step::Done(Err(engine::stray_reply(reply))),
            },
            ListState::Loading(walk) => match reply {
                ReplyOf::Bytes(block) => {
                    let parsed = directory::parse_block(&block, walk.inode, walk.layout);
                    walk.after_block(parsed)
                },
                _ => Step::Done(Err(engine::stray_reply(reply))),
            },
            ListState::Examining { walk, records, at } => match reply {
                ReplyOf::Inode(inode) => walk.after_inode(records, at, inode),
                _ => Step::Done(Err(engine::stray_reply(reply))),
            },
        }
    }
}

} // verus!
