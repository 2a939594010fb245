//! Looking one path up.

use vstd::prelude::*;

use crate::engine;
use crate::engine::CallOf;
use crate::engine::FatItem;
use crate::engine::FatItemOf;
use crate::engine::InodeFacts;
use crate::engine::Kind;
use crate::engine::Reply;
use crate::engine::ReplyModel;
use crate::engine::ReplyOf;
use crate::path;
use crate::session::Entry;
use crate::session::EntryModel;
use crate::session::Session;
use crate::session::SessionModel;
use crate::session::Step;
use crate::session::StepModel;
use crate::session::MAX_ENTRIES;
use crate::text;

verus! {

/// A lookup in flight.
pub enum StatRunOf<S> {
    /// FAT: the directory that holds the path is being opened.
    Opening { wanted: S },
    /// FAT: its entries are being compared, `seen` of them so far.
    Scanning { wanted: S, seen: usize },
    /// ext4: the path is being resolved.
    Resolving { name: S },
}

/// A lookup in flight, as mathematics.
pub type StatModel = StatRunOf<Seq<char>>;

impl View for StatRunOf<String> {
    type V = StatModel;

    open spec fn view(&self) -> StatModel {
        match *self {
            StatRunOf::Opening { wanted } => StatRunOf::Opening { wanted: wanted@ },
            StatRunOf::Scanning { wanted, seen } => StatRunOf::Scanning { wanted: wanted@, seen },
            StatRunOf::Resolving { name } => StatRunOf::Resolving { name: name@ },
        }
    }
}

/// A lookup in flight. Only a session begins one.
pub struct StatRun {
    state: StatRunOf<String>,
}

impl View for StatRun {
    type V = StatModel;

    closed spec fn view(&self) -> StatModel {
        self.state@
    }
}

fn sealed(step: Step<StatRunOf<String>, Entry>) -> (out: Step<StatRun, Entry>)
    ensures
        out@ == step@,
{
    match step {
        Step::Call(call, state) => Step::Call(call, StatRun { state }),
        Step::Done(r) => Step::Done(r),
    }
}

/// The entry of the root of a FAT volume.
pub open spec fn fat_root() -> EntryModel {
    EntryModel { name: "/"@, kind: "directory"@, size: 0, inode: None, generation: None }
}

/// What a FAT directory says of an item.
pub open spec fn fat_entry(item: FatItemOf<Seq<char>>) -> EntryModel {
    EntryModel {
        name: item.name,
        kind: if item.directory { "directory"@ } else { "file"@ },
        size: item.size,
        inode: None,
        generation: None,
    }
}

/// What an inode says under a name.
pub open spec fn inode_entry(name: Seq<char>, inode: InodeFacts) -> EntryModel {
    EntryModel {
        name,
        kind: inode.kind_name()@,
        size: inode.size,
        inode: Some(inode.number),
        generation: Some(inode.generation),
    }
}

/// Whether a FAT item goes by a name whose uppercase is `wanted`, in its long
/// or its short form.
pub open spec fn goes_by(item: FatItemOf<Seq<char>>, wanted: Seq<char>) -> bool {
    text::uppercase(item.name) == wanted || text::uppercase(item.short_name) == wanted
}

/// What is said of a symbolic link.
pub open spec fn link_refusal() -> Seq<char> {
    "unsupported: symbolic links are not followed"@
}

/// A regular or special inode that a path resolved to, or why it is refused.
pub open spec fn resolved(r: ReplyModel) -> Result<(InodeFacts, engine::Layout), Seq<char>> {
    match r {
        ReplyOf::Resolved(inode, layout) => if inode.is_link() {
            Err(link_refusal())
        } else {
            Ok((inode, layout))
        },
        _ => Err(engine::stray(r)),
    }
}

impl SessionModel {
    /// Starts a lookup.
    pub open spec fn stat(self, value: Seq<char>) -> StepModel<StatModel, EntryModel> {
        match path::refusal(value) {
            Some(why) => StepModel::Done(Err(why)),
            None => match self.engine() {
                Err(e) => StepModel::Done(Err(e)),
                Ok(Kind::Fat) => if path::is_root(value) {
                    StepModel::Done(Ok(fat_root()))
                } else {
                    StepModel::Call(
                        CallOf::OpenDirectory(path::holder(value)),
                        StatRunOf::Opening { wanted: text::uppercase(path::final_name(value)) },
                    )
                },
                Ok(Kind::Ext4) => StepModel::Call(
                    CallOf::Resolve(value),
                    StatRunOf::Resolving { name: path::final_name(value) },
                ),
            },
        }
    }
}

impl StatRunOf<Seq<char>> {
    /// Takes the reply to the outstanding call of a lookup.
    pub open spec fn resume(self, r: ReplyModel) -> StepModel<StatModel, EntryModel> {
        match self {
            StatRunOf::Opening { wanted } => match engine::plain_outcome(r) {
                Ok(()) => StepModel::Call(
                    CallOf::NextEntry,
                    StatRunOf::Scanning { wanted, seen: 0 },
                ),
                Err(e) => StepModel::Done(Err(e)),
            },
            StatRunOf::Scanning { wanted, seen } => match r {
                ReplyOf::Entry(None) => StepModel::Done(Err("not found"@)),
                _ => if seen >= MAX_ENTRIES {
                    StepModel::Done(Err("directory entry limit exceeded"@))
                } else {
                    match r {
                        ReplyOf::Entry(Some(item)) => if goes_by(item, wanted) {
                            StepModel::Done(Ok(fat_entry(item)))
                        } else {
                            StepModel::Call(
                                CallOf::NextEntry,
                                StatRunOf::Scanning { wanted, seen: (seen + 1) as usize },
                            )
                        },
                        _ => StepModel::Done(Err(engine::stray(r))),
                    }
                },
            },
            StatRunOf::Resolving { name } => match resolved(r) {
                Ok((inode, _)) => StepModel::Done(Ok(inode_entry(name, inode))),
                Err(e) => StepModel::Done(Err(e)),
            },
        }
    }
}

/// What a FAT directory says of an item.
pub fn entry_of_item(item: FatItem) -> (e: Entry)
    ensures
        e@ == fat_entry(item@),
{
    Entry {
        name: item.name,
        kind: if item.directory {
            "directory"
        } else {
            "file"
        },
        size: item.size,
        inode: None,
        generation: None,
    }
}

/// What an inode says under a name.
pub fn entry_of_inode(name: String, inode: InodeFacts) -> (e: Entry)
    ensures
        e@ == inode_entry(name@, inode),
{
    Entry {
        name,
        kind: inode.kind(),
        size: inode.size,
        inode: Some(inode.number),
        generation: Some(inode.generation),
    }
}

/// Whether one of two uppercase forms is the wanted one.
pub fn either_is(long: &String, short: &String, wanted: &String) -> (yes: bool)
    ensures
        yes == (long@ == wanted@ || short@ == wanted@),
{
    *long == *wanted || *short == *wanted
}

/// Whether a FAT item goes by a name whose uppercase is `wanted`.
pub fn item_goes_by(item: &FatItem, wanted: &String) -> (yes: bool)
    ensures
        yes == goes_by(item@, wanted@),
{
    let long = text::to_uppercase(item.name.as_str());
    let short = text::to_uppercase(item.short_name.as_str());
    either_is(&long, &short, wanted)
}

/// The inode that a path resolved to, or why it is refused.
pub(crate) fn resolved_inode(r: Reply) -> (out: Result<(InodeFacts, engine::Layout), String>)
    ensures
        engine::outcome_view(out) == resolved(r@),
{
    match r {
        ReplyOf::Resolved(inode, layout) => if inode.mode / 0x1000 == 10 {
            Err("unsupported: symbolic links are not followed".to_owned())
        } else {
            Ok((inode, layout))
        },
        _ => Err(engine::stray_reply(r)),
    }
}

impl Session {
    /// Looks a path up. Links are not followed, and names on FAT are compared
    /// in uppercase, in their long and short forms.
    pub fn stat(&self, value: &str) -> (step: Step<StatRun, Entry>)
        ensures
            step@ == self@.stat(value@),
    {
        sealed(self.look_up(value))
    }

    /// Looks a path up, on its own account or on that of a change.
    pub(crate) fn look_up(&self, value: &str) -> (step: Step<StatRunOf<String>, Entry>)
        ensures
            step@ == self@.stat(value@),
    {
        if let Err(e) = path::path(value) {
            return Step::Done(Err(e));
        }
        proof {
            path::lemma_accepted_is_absolute(value@);
        }
        match self.engine() {
            Err(e) => Step::Done(Err(e)),
            Ok(Kind::Fat) => {
                if path::names_root(value) {
                    return Step::Done(
                        Ok(
                            Entry {
                                name: "/".to_owned(),
                                kind: "directory",
                                size: 0,
                                inode: None,
                                generation: None,
                            },
                        ),
                    );
                }
                let name = path::name_of(value);
                let wanted = text::to_uppercase(name.as_str());
                Step::Call(
                    CallOf::OpenDirectory(path::holder_of(value)),
                    StatRunOf::Opening { wanted },
                )
            },
            Ok(Kind::Ext4) => Step::Call(
                CallOf::Resolve(value.to_owned()),
                StatRunOf::Resolving { name: path::name_of(value) },
            ),
        }
    }
}

impl StatRun {
    /// Takes the reply to the outstanding call.
    pub fn resume(self, reply: Reply) -> (step: Step<StatRun, Entry>)
        ensures
            step@ == self@.resume(reply@),
    {
        sealed(self.state.resume(reply))
    }
}

impl StatRunOf<String> {
    /// Takes the reply to the outstanding call.
    pub(crate) fn resume(self, reply: Reply) -> (step: Step<StatRunOf<String>, Entry>)
        ensures
            step@ == self@.resume(reply@),
    {
        match self {
            StatRunOf::Opening { wanted } => match engine::plainly(reply) {
                Ok(()) => Step::Call(CallOf::NextEntry, StatRunOf::Scanning { wanted, seen: 0 }),
                Err(e) => Step::Done(Err(e)),
            },
            StatRunOf::Scanning { wanted, seen } => match reply {
                ReplyOf::Entry(None) => Step::Done(Err("not found".to_owned())),
                _ => {
                    if seen >= MAX_ENTRIES {
                        return Step::Done(Err("directory entry limit exceeded".to_owned()));
                    }
                    match reply {
                        ReplyOf::Entry(Some(item)) => if item_goes_by(&item, &wanted) {
                            Step::Done(Ok(entry_of_item(item)))
                        } else {
                            Step::Call(
                                CallOf::NextEntry,
                                StatRunOf::Scanning { wanted, seen: seen + 1 },
                            )
                        },
                        _ => Step::Done(Err(engine::stray_reply(reply))),
                    }
                },
            },
            StatRunOf::Resolving { name } => match resolved_inode(reply) {
                Ok((inode, _)) => Step::Done(Ok(entry_of_inode(name, inode))),
                Err(e) => Step::Done(Err(e)),
            },
        }
    }
}

} // verus!
