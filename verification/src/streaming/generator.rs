//! The generator: it joins the entries of the source with what the
//! destination has, and decides for each what is to be done.

use crate::streaming::channel::{
    delta_view, DeltaInfo, DeltaInfoView, DestFileState, DestFileStateView, DestIndex,
    FileJob, FileJobView, GeneratorMessage, WorkItem, DELTA_MIN_SIZE,
};
use crate::streaming::protocol::{DestFileEntry, DestFileEntryView, DestFileFlags};
use std::collections::HashMap;
use vstd::prelude::*;

verus! {

broadcast use vstd::std_specs::hash::group_hash_axioms;

/// The mode given to a directory of the source.
pub const DIR_MODE: u32 = 0o755;

/// The mode given to a file of the source.
pub const FILE_MODE: u32 = 0o644;

/// How the generator is to work.
pub struct GeneratorConfig {
    /// The root of the source.
    pub root: String,
    /// Whether hidden files are part of the source.
    pub include_hidden: bool,
    /// Whether symbolic links are followed.
    pub follow_symlinks: bool,
    /// Whether paths that only the destination has are to be deleted.
    pub delete_enabled: bool,
}

/// One entry of the source, as a scan yields it.
#[derive(Debug, Clone)]
pub struct SourceEntry {
    /// The path below the root; empty for the root itself.
    pub relative_path: String,
    pub size: u64,
    /// Seconds since the Unix epoch.
    pub mtime: i64,
    pub is_dir: bool,
    pub is_symlink: bool,
    pub symlink_target: Option<String>,
    pub inode: Option<u64>,
    /// The number of hard links to the entry.
    pub nlink: u64,
}

/// A `SourceEntry` as a mathematical value.
pub ghost struct SourceEntryView {
    pub relative_path: Seq<char>,
    pub size: u64,
    pub mtime: i64,
    pub is_dir: bool,
    pub is_symlink: bool,
    pub symlink_target: Option<Seq<char>>,
    pub inode: Option<u64>,
    pub nlink: u64,
}

impl View for SourceEntry {
    type V = SourceEntryView;

    open spec fn view(&self) -> SourceEntryView {
        SourceEntryView {
            relative_path: self.relative_path@,
            size: self.size,
            mtime: self.mtime,
            is_dir: self.is_dir,
            is_symlink: self.is_symlink,
            symlink_target: match self.symlink_target {
                Some(t) => Some(t@),
                None => None,
            },
            inode: self.inode,
            nlink: self.nlink,
        }
    }
}

impl SourceEntryView {
    /// Whether the entry is a regular file: neither directory nor link.
    pub open spec fn is_file(self) -> bool {
        !self.is_dir && !self.is_symlink
    }

    /// The inode number; zero where the scan gave none.
    pub open spec fn inode_or_zero(self) -> u64 {
        match self.inode {
            Some(inode) => inode,
            None => 0,
        }
    }

    /// The quick check: a regular file whose size and modification time are
    /// those of the destination's entry is taken to be unchanged.
    pub open spec fn unchanged(self, dest: Option<DestFileStateView>) -> bool {
        self.is_file() && (dest matches Some(d) && d.size == self.size && d.mtime == self.mtime)
    }

    /// Whether nothing is to be done for the entry: it is the root, or the
    /// quick check passes.
    pub open spec fn skipped(self, dest: Option<DestFileStateView>) -> bool {
        self.relative_path.len() == 0 || self.unchanged(dest)
    }

    /// The work item of an entry that is not skipped.
    pub open spec fn work_item(self, dest: Option<DestFileStateView>) -> WorkItem {
        if self.is_dir {
            WorkItem::Mkdir { path: self.relative_path, mode: DIR_MODE }
        } else if self.is_symlink {
            WorkItem::Symlink {
                path: self.relative_path,
                target: match self.symlink_target {
                    Some(t) => t,
                    None => Seq::empty(),
                },
            }
        } else {
            WorkItem::File(
                FileJobView {
                    path: self.relative_path,
                    size: self.size,
                    mtime: self.mtime,
                    mode: FILE_MODE,
                    inode: self.inode_or_zero(),
                    need_delta: delta_for(dest, self.size) is Some,
                    checksums: delta_for(dest, self.size),
                },
            )
        }
    }

    /// Whether the entry is sent as a file that has more than one hard link.
    pub open spec fn is_linked_file(self, dest: Option<DestFileStateView>) -> bool {
        self.is_file() && !self.skipped(dest) && self.nlink > 1
    }

    /// The work item of the entry, if it has one.
    pub open spec fn planned(self, dest: Option<DestFileStateView>) -> Option<WorkItem> {
        if self.skipped(dest) {
            None
        } else {
            Some(self.work_item(dest))
        }
    }

    /// The hard-link target of the entry: for a file with several hard
    /// links whose inode was seen before, the first path seen with it.
    pub open spec fn link_target(
        self,
        dest: Option<DestFileStateView>,
        seen: Map<u64, Seq<char>>,
    ) -> Option<Seq<char>> {
        if self.is_linked_file(dest) && seen.contains_key(self.inode_or_zero()) {
            Some(seen[self.inode_or_zero()])
        } else {
            None
        }
    }

    /// The inodes seen once the entry is dealt with: a file with several
    /// hard links whose inode is new is remembered under its path.
    pub open spec fn seen_after(
        self,
        dest: Option<DestFileStateView>,
        seen: Map<u64, Seq<char>>,
    ) -> Map<u64, Seq<char>> {
        if self.is_linked_file(dest) && !seen.contains_key(self.inode_or_zero()) {
            seen.insert(self.inode_or_zero(), self.relative_path)
        } else {
            seen
        }
    }

    /// The destination index once the entry is dealt with: the entry's path
    /// is taken out, whatever is decided for it.
    pub open spec fn index_after(self, index: Map<Seq<char>, DestFileStateView>) -> Map<
        Seq<char>,
        DestFileStateView,
    > {
        if self.relative_path.len() == 0 {
            index
        } else {
            index.remove(self.relative_path)
        }
    }
}

/// What an index holds for a path, if anything.
pub open spec fn lookup(index: Map<Seq<char>, DestFileStateView>, path: Seq<char>) -> Option<
    DestFileStateView,
> {
    if index.contains_key(path) {
        Some(index[path])
    } else {
        None
    }
}

/// The views of optional strings.
pub open spec fn text_view(s: Option<String>) -> Option<Seq<char>> {
    match s {
        Some(s) => Some(s@),
        None => None,
    }
}

/// The views of optional work items.
pub open spec fn item_view(m: Option<GeneratorMessage>) -> Option<WorkItem> {
    match m {
        Some(m) => Some(m@),
        None => None,
    }
}

/// The checksums to compute a delta against: those of the destination's
/// entry, for a file of at least `DELTA_MIN_SIZE` bytes.
pub open spec fn delta_for(dest: Option<DestFileStateView>, size: u64) -> Option<DeltaInfoView> {
    match dest {
        Some(d) => if size >= DELTA_MIN_SIZE {
            d.delta_info
        } else {
            None
        },
        None => None,
    }
}

/// What the destination index holds for an entry of the initial exchange.
pub open spec fn dest_state(entry: DestFileEntryView) -> DestFileStateView {
    DestFileStateView {
        size: entry.size,
        mtime: entry.mtime,
        mode: entry.mode,
        is_dir: entry.flags.has(DestFileFlags { bits: DestFileFlags::DIR }),
        delta_info: if entry.has_checksums() {
            Some(
                DeltaInfoView {
                    block_size: entry.block_size,
                    file_size: entry.size,
                    checksums: entry.checksums,
                },
            )
        } else {
            None
        },
    }
}

/// The work items of a run over `entries`, in the order of the entries.
pub open spec fn plan_items(
    index: Map<Seq<char>, DestFileStateView>,
    entries: Seq<SourceEntryView>,
) -> Seq<WorkItem>
    decreases entries.len(),
{
    if entries.len() == 0 {
        Seq::empty()
    } else {
        let first = entries[0];
        let rest = plan_items(first.index_after(index), entries.skip(1));
        match first.planned(lookup(index, first.relative_path)) {
            Some(item) => seq![item] + rest,
            None => rest,
        }
    }
}

/// What is left of the destination index after a run over `entries`.
pub open spec fn index_left(
    index: Map<Seq<char>, DestFileStateView>,
    entries: Seq<SourceEntryView>,
) -> Map<Seq<char>, DestFileStateView>
    decreases entries.len(),
{
    if entries.len() == 0 {
        index
    } else {
        index_left(entries[0].index_after(index), entries.skip(1))
    }
}

/// How many of the work items are files.
pub open spec fn file_count(items: Seq<WorkItem>) -> nat
    decreases items.len(),
{
    if items.len() == 0 {
        0
    } else {
        file_count(items.drop_last()) + if items.last() is File {
            1nat
        } else {
            0nat
        }
    }
}

/// The sizes of the files among the work items, added up.
pub open spec fn file_bytes(items: Seq<WorkItem>) -> nat
    decreases items.len(),
{
    if items.len() == 0 {
        0
    } else {
        file_bytes(items.drop_last()) + match items.last() {
            WorkItem::File(job) => job.size as nat,
            _ => 0nat,
        }
    }
}

/// Whether `items` are the deletions for `index`: one `Delete` for each of
/// its paths, with the kind that the index holds, then a `DeleteEnd` with
/// their number.
pub open spec fn deletes_all(items: Seq<WorkItem>, index: Map<Seq<char>, DestFileStateView>)
    -> bool {
    &&& items.len() >= 1
    &&& items.last() == (WorkItem::DeleteEnd { count: (items.len() - 1) as u64 })
    &&& forall|i: int|
        0 <= i < items.len() - 1 ==> ((#[trigger] items[i]) matches WorkItem::Delete {
            path,
            is_dir,
        } && index.contains_key(path) && is_dir == index[path].is_dir)
    &&& forall|i: int, j: int|
        0 <= i < j < items.len() - 1 ==> items[i]->Delete_path != items[j]->Delete_path
    &&& forall|path: Seq<char>|
        index.contains_key(path) ==> exists|i: int|
            0 <= i < items.len() - 1 && (#[trigger] items[i])->Delete_path == path
}

/// The views of a list of work items.
pub open spec fn item_views(items: Seq<GeneratorMessage>) -> Seq<WorkItem> {
    items.map_values(|m: GeneratorMessage| m@)
}

/// What a run of the generator yields.
pub struct Plan {
    /// The work items: those of the entries, `FileEnd`, and with deletions
    /// enabled the deletions and `DeleteEnd`.
    pub messages: Vec<GeneratorMessage>,
    /// How many files are to be transferred.
    pub total_files: u64,
    /// The bytes of those files, modulo 2^64.
    pub total_bytes: u64,
}

/// Whether one of `entries` has the path `path`.
pub open spec fn in_source(entries: Seq<SourceEntryView>, path: Seq<char>) -> bool {
    exists|i: int| 0 <= i < entries.len() && (#[trigger] entries[i]).relative_path == path
}

/// The quick check: a regular file whose size and modification time are
/// those of the destination's entry gets no work item.
pub proof fn lemma_unchanged_file_is_skipped(entry: SourceEntryView, dest: DestFileStateView)
    requires
        entry.is_file(),
        entry.size == dest.size,
        entry.mtime == dest.mtime,
    ensures
        entry.planned(Some(dest)) is None,
{
}

/// After a run, the destination index holds what it held before of the
/// paths that the source does not have, and nothing else. With
/// `deletes_all` this says which paths are deleted: those that only the
/// destination has, each once.
pub proof fn lemma_left_is_dest_only(
    index: Map<Seq<char>, DestFileStateView>,
    entries: Seq<SourceEntryView>,
    path: Seq<char>,
)
    requires
        path.len() > 0,
    ensures
        index_left(index, entries).contains_key(path) <==> index.contains_key(path) && !in_source(
            entries,
            path,
        ),
        index_left(index, entries).contains_key(path) ==> index_left(index, entries)[path]
            == index[path],
    decreases entries.len(),
{
    if entries.len() > 0 {
        let rest = entries.skip(1);
        let next = entries[0].index_after(index);
        lemma_left_is_dest_only(next, rest, path);
        if in_source(rest, path) {
            let i = choose|i: int|
                0 <= i < rest.len() && (#[trigger] rest[i]).relative_path == path;
            assert(entries[i + 1].relative_path == path);
        }
        if in_source(entries, path) && entries[0].relative_path != path {
            let i = choose|i: int|
                0 <= i < entries.len() && (#[trigger] entries[i]).relative_path == path;
            assert(rest[i - 1].relative_path == path);
        }
    }
}

/// Once an inode is remembered, later entries leave its path as it is.
pub proof fn lemma_seen_is_kept(
    entry: SourceEntryView,
    dest: Option<DestFileStateView>,
    seen: Map<u64, Seq<char>>,
    inode: u64,
)
    requires
        seen.contains_key(inode),
    ensures
        entry.seen_after(dest, seen).contains_key(inode),
        entry.seen_after(dest, seen)[inode] == seen[inode],
{
}

/// Hard links: when two files with several links share an inode that was
/// not seen before the first, the second gets the first one's path as its
/// link target.
pub proof fn lemma_second_link_points_to_first(
    first: SourceEntryView,
    first_dest: Option<DestFileStateView>,
    second: SourceEntryView,
    second_dest: Option<DestFileStateView>,
    seen: Map<u64, Seq<char>>,
)
    requires
        first.is_linked_file(first_dest),
        second.is_linked_file(second_dest),
        first.inode_or_zero() == second.inode_or_zero(),
        !seen.contains_key(first.inode_or_zero()),
    ensures
        first.link_target(first_dest, seen) is None,
        second.link_target(second_dest, first.seen_after(first_dest, seen)) == Some(
            first.relative_path,
        ),
{
}

/// What the generator decided for one entry of the source.
pub struct Planned {
    /// The work item, unless the entry is skipped.
    pub message: Option<GeneratorMessage>,
    /// For a file with several hard links whose inode was seen before: the
    /// path of the first entry with that inode.
    pub link_target: Option<String>,
}

/// The generator: the destination index and the inodes seen so far.
pub struct Generator {
    config: GeneratorConfig,
    dest_index: DestIndex,
    seen_inodes: HashMap<u64, String>,
}

impl Generator {
    /// What the destination has and the source has not yet matched.
    pub closed spec fn index(&self) -> Map<Seq<char>, DestFileStateView> {
        self.dest_index@
    }

    /// The first path sent with each inode that has several hard links.
    pub closed spec fn seen(&self) -> Map<u64, Seq<char>> {
        Map::new(
            |inode: u64| self.seen_inodes@.contains_key(inode),
            |inode: u64| self.seen_inodes@[inode]@,
        )
    }

    /// Whether deletions are asked for.
    pub closed spec fn delete_enabled(&self) -> bool {
        self.config.delete_enabled
    }

    /// A generator that knows nothing of the destination yet.
    pub fn new(config: GeneratorConfig) -> (r: Generator)
        ensures
            r.index() == Map::<Seq<char>, DestFileStateView>::empty(),
            r.seen() == Map::<u64, Seq<char>>::empty(),
            r.delete_enabled() == config.delete_enabled,
    {
        let r = Generator { config, dest_index: DestIndex::new(), seen_inodes: HashMap::new() };
        assert(r.seen() =~= Map::<u64, Seq<char>>::empty());
        r
    }

    /// Takes note of one entry of the destination, sent in the initial
    /// exchange. A later entry for the same path replaces an earlier one.
    pub fn add_dest_entry(&mut self, entry: DestFileEntry)
        ensures
            final(self).index() == old(self).index().insert(entry@.path, dest_state(entry@)),
            final(self).seen() == old(self).seen(),
            final(self).delete_enabled() == old(self).delete_enabled(),
    {
        let is_dir = entry.flags.contains(DestFileFlags::dir());
        let delta_info = if entry.flags.contains(DestFileFlags::has_checksums()) {
            Some(
                DeltaInfo {
                    block_size: entry.block_size,
                    file_size: entry.size,
                    checksums: entry.checksums,
                },
            )
        } else {
            None
        };
        self.dest_index.insert(
            entry.path,
            DestFileState {
                size: entry.size,
                mtime: entry.mtime,
                mode: entry.mode,
                is_dir,
                delta_info,
            },
        );
    }

    /// How many entries of the destination are not yet matched.
    pub fn dest_count(&self) -> (r: usize)
        ensures
            r == self.index().len(),
    {
        self.dest_index.len()
    }

    /// Finds the hard-link target of a file with `nlink` links: the first
    /// path seen with its inode. An inode not seen before is remembered
    /// under `path`. A file with a single link has no target and is not
    /// remembered.
    pub fn hard_link_target(&mut self, inode: u64, nlink: u64, path: &str) -> (r: Option<String>)
        ensures
            text_view(r) == if nlink > 1 && old(self).seen().contains_key(inode) {
                Some(old(self).seen()[inode])
            } else {
                None
            },
            final(self).seen() == if nlink > 1 && !old(self).seen().contains_key(inode) {
                old(self).seen().insert(inode, path@)
            } else {
                old(self).seen()
            },
            final(self).index() == old(self).index(),
            final(self).delete_enabled() == old(self).delete_enabled(),
    {
        if nlink <= 1 {
            return None;
        }
        let found = match self.seen_inodes.get(&inode) {
            Some(existing) => Some(existing.clone()),
            None => None,
        };
        if found.is_none() {
            self.seen_inodes.insert(inode, path.to_owned());
            assert(self.seen() =~= old(self).seen().insert(inode, path@));
        }
        found
    }

    /// Decides what is to be done for one entry of the source. Its path
    /// leaves the destination index; a regular file that passes the quick
    /// check, and the root, get no work item.
    pub fn next_item(&mut self, entry: &SourceEntry) -> (r: Planned)
        ensures
            item_view(r.message) == entry@.planned(
                lookup(old(self).index(), entry@.relative_path),
            ),
            text_view(r.link_target) == entry@.link_target(
                lookup(old(self).index(), entry@.relative_path),
                old(self).seen(),
            ),
            final(self).index() == entry@.index_after(old(self).index()),
            final(self).seen() == entry@.seen_after(
                lookup(old(self).index(), entry@.relative_path),
                old(self).seen(),
            ),
            final(self).delete_enabled() == old(self).delete_enabled(),
    {
        let path = entry.relative_path.as_str();
        if path.is_empty() {
            return Planned { message: None, link_target: None };
        }
        let dest_state = self.dest_index.remove(path);
        if !entry.is_dir && !entry.is_symlink {
            if let Some(dest) = &dest_state {
                if dest.size == entry.size && dest.mtime == entry.mtime {
                    return Planned { message: None, link_target: None };
                }
            }
        }
        if entry.is_dir {
            let message = GeneratorMessage::Mkdir { path: path.to_owned(), mode: DIR_MODE };
            Planned { message: Some(message), link_target: None }
        } else if entry.is_symlink {
            let target = match &entry.symlink_target {
                Some(t) => t.clone(),
                None => String::new(),
            };
            let message = GeneratorMessage::Symlink { path: path.to_owned(), target };
            Planned { message: Some(message), link_target: None }
        } else {
            let inode = match entry.inode {
                Some(inode) => inode,
                None => 0,
            };
            let link_target = self.hard_link_target(inode, entry.nlink, path);
            let (need_delta, checksums) = self.check_delta_for_state(
                dest_state.as_ref(),
                entry.size,
            );
            let message = GeneratorMessage::File(
                FileJob {
                    path: path.to_owned(),
                    size: entry.size,
                    mtime: entry.mtime,
                    mode: FILE_MODE,
                    inode,
                    need_delta,
                    checksums,
                },
            );
            Planned { message: Some(message), link_target }
        }
    }

    /// The deletions: with deletions enabled, one `Delete` for each path
    /// left in the destination index, in no particular order, then
    /// `DeleteEnd`; nothing otherwise.
    pub fn deletions(&self) -> (r: Vec<GeneratorMessage>)
        ensures
            !self.delete_enabled() ==> r.len() == 0,
            self.delete_enabled() ==> deletes_all(item_views(r@), self.index()),
    {
        let mut r: Vec<GeneratorMessage> = Vec::new();
        if !self.config.delete_enabled {
            return r;
        }
        let remaining = self.dest_index.remaining_paths();
        let mut i: usize = 0;
        while i < remaining.len()
            invariant
                i <= remaining.len(),
                r.len() == i,
                forall|k: int|
                    0 <= k < i ==> (#[trigger] r[k])@ == (WorkItem::Delete {
                        path: remaining[k].0@,
                        is_dir: remaining[k].1@.is_dir,
                    }),
            decreases remaining.len() - i,
        {
            let (path, state) = remaining[i];
            r.push(GeneratorMessage::Delete { path: path.clone(), is_dir: state.is_dir });
            i = i + 1;
        }
        r.push(GeneratorMessage::DeleteEnd { count: i as u64 });
        proof {
            let items = item_views(r@);
            let index = self.index();
            assert(items.len() == remaining.len() + 1);
            assert forall|k: int| 0 <= k < items.len() - 1 implies (#[trigger] items[k])
                == (WorkItem::Delete { path: remaining[k].0@, is_dir: remaining[k].1@.is_dir }) by {
                assert(items[k] == r[k]@);
            }
            assert forall|path: Seq<char>| index.contains_key(path) implies exists|k: int|
                0 <= k < items.len() - 1 && (#[trigger] items[k])->Delete_path == path by {
                let k = choose|k: int|
                    0 <= k < remaining.len() && (#[trigger] remaining[k]).0@ == path;
                assert(items[k]->Delete_path == path);
            }
            assert(items.last() == r[r.len() - 1]@);
        }
        r
    }

    /// Runs the generator over the entries of a scan: the work item of each
    /// entry that has one, in the order of the scan; then `FileEnd` with the
    /// number of files and their bytes; then the deletions, if enabled.
    pub fn run(self, entries: &Vec<SourceEntry>) -> (plan: Plan)
        ensures
            ({
                let views = entries@.map_values(|e: SourceEntry| e@);
                let items = plan_items(self.index(), views);
                let out = item_views(plan.messages@);
                &&& out.len() > items.len()
                &&& out.take(items.len() as int) == items
                &&& out[items.len() as int] == (WorkItem::FileEnd {
                    total_files: plan.total_files,
                    total_bytes: plan.total_bytes,
                })
                &&& plan.total_files == file_count(items)
                &&& plan.total_bytes == file_bytes(items) % 0x1_0000_0000_0000_0000
                &&& !self.delete_enabled() ==> out.len() == items.len() + 1
                &&& self.delete_enabled() ==> deletes_all(
                    out.skip(items.len() as int + 1),
                    index_left(self.index(), views),
                )
            }),
    {
        let mut generator = self;
        let mut messages: Vec<GeneratorMessage> = Vec::new();
        let mut total_files: u64 = 0;
        let mut total_bytes: u64 = 0;
        let ghost views = entries@.map_values(|e: SourceEntry| e@);
        let ghost start = self.index();
        let mut i: usize = 0;
        assert(views.skip(0) =~= views);
        assert(item_views(messages@) + plan_items(start, views) =~= plan_items(start, views));
        assert(item_views(messages@) =~= Seq::<WorkItem>::empty());
        while i < entries.len()
            invariant
                i <= entries.len(),
                views == entries@.map_values(|e: SourceEntry| e@),
                generator.delete_enabled() == self.delete_enabled(),
                plan_items(start, views) == item_views(messages@) + plan_items(
                    generator.index(),
                    views.skip(i as int),
                ),
                index_left(start, views) == index_left(generator.index(), views.skip(i as int)),
                total_files == file_count(item_views(messages@)),
                total_files <= messages.len(),
                messages.len() <= i,
                total_bytes == file_bytes(item_views(messages@)) % 0x1_0000_0000_0000_0000,
            decreases entries.len() - i,
        {
            let ghost before = item_views(messages@);
            let ghost index = generator.index();
            let ghost rest = views.skip(i as int);
            let planned = generator.next_item(&entries[i]);
            proof {
                assert(rest[0] == entries[i as int]@);
                assert(rest.skip(1) =~= views.skip(i + 1));
            }
            if let Some(message) = planned.message {
                let ghost item = message@;
                if let GeneratorMessage::File(job) = &message {
                    total_files = total_files + 1;
                    total_bytes = total_bytes.wrapping_add(job.size);
                }
                messages.push(message);
                proof {
                    let after = item_views(messages@);
                    assert(after =~= before.push(item));
                    assert(after.drop_last() =~= before);
                    assert(before + (seq![item] + plan_items(generator.index(), views.skip(i + 1)))
                        =~= after + plan_items(generator.index(), views.skip(i + 1)));
                }
            }
            i = i + 1;
        }
        let ghost items = item_views(messages@);
        proof {
            assert(views.skip(i as int) =~= Seq::<SourceEntryView>::empty());
            assert(items + Seq::<WorkItem>::empty() =~= items);
        }
        messages.push(GeneratorMessage::FileEnd { total_files, total_bytes });
        let ghost with_end = item_views(messages@);
        let mut deletions = generator.deletions();
        let ghost dels = item_views(deletions@);
        messages.append(&mut deletions);
        proof {
            let out = item_views(messages@);
            assert(with_end =~= items.push(WorkItem::FileEnd { total_files, total_bytes }));
            assert(out =~= with_end + dels);
            assert(out.take(items.len() as int) =~= items);
            assert(out.skip(items.len() as int + 1) =~= dels);
        }
        Plan { messages, total_files, total_bytes }
    }

    /// Decides whether a file of `size` bytes is sent as a delta, and
    /// against which checksums.
    pub fn check_delta_for_state(&self, dest_state: Option<&DestFileState>, size: u64) -> (r: (
        bool,
        Option<DeltaInfo>,
    ))
        ensures
            delta_view(r.1) == delta_for(
                match dest_state {
                    Some(d) => Some(d@),
                    None => None,
                },
                size,
            ),
            r.0 == (r.1 is Some),
    {
        if size < DELTA_MIN_SIZE {
            return (false, None);
        }
        if let Some(state) = dest_state {
            if let Some(delta_info) = &state.delta_info {
                return (true, Some(delta_info.clone()));
            }
        }
        (false, None)
    }
}

} // verus!
