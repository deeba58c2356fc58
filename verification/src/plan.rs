//! Run planning for one source root: drop the excluded entries from the
//! enumerated catalog, then emit one action per retained entry — a
//! directory-creation action for every retained directory, a file-copy action
//! for every retained file — with every directory action placed before every
//! file action.

use vstd::prelude::*;

use crate::bytes::clone_bytes;
use crate::exclude::ExclusionSet;
use crate::remap::{spec_remap, wf_source_path, remap};

verus! {

/// Whether a catalog entry names a directory or a file; never both.
#[derive(Clone, Copy, PartialEq, Eq, Structural, Debug)]
pub enum EntryKind {
    Directory,
    File,
}

/// One discovered filesystem node under a source root.
pub struct CatalogEntry {
    pub path: Vec<u8>,
    pub kind: EntryKind,
}

/// The mathematical image of a catalog entry.
pub struct EntryModel {
    pub path: Seq<u8>,
    pub kind: EntryKind,
}

impl View for CatalogEntry {
    type V = EntryModel;

    open spec fn view(&self) -> EntryModel {
        EntryModel { path: self.path@, kind: self.kind }
    }
}

impl CatalogEntry {
    pub fn new(path: Vec<u8>, kind: EntryKind) -> (e: CatalogEntry)
        ensures
            e@.path == path@,
            e@.kind == kind,
    {
        CatalogEntry { path, kind }
    }
}

/// The views of a sequence of catalog entries.
pub open spec fn entry_views(s: Seq<CatalogEntry>) -> Seq<EntryModel> {
    s.map_values(|e: CatalogEntry| e@)
}

/// The entries that survive the exclusion filter, in enumeration order.
pub open spec fn retained_entries(entries: Seq<EntryModel>, ex: ExclusionSet) -> Seq<EntryModel>
    decreases entries.len(),
{
    if entries.len() == 0 {
        Seq::empty()
    } else {
        let rest = retained_entries(entries.drop_last(), ex);
        if ex.spec_excluded(entries.last().path) {
            rest
        } else {
            rest.push(entries.last())
        }
    }
}

/// No retained entry is excluded.
pub proof fn lemma_retained_not_excluded(entries: Seq<EntryModel>, ex: ExclusionSet)
    ensures
        forall|j: int|
            0 <= j < retained_entries(entries, ex).len() ==> !ex.spec_excluded(
                #[trigger] retained_entries(entries, ex)[j].path,
            ),
    decreases entries.len(),
{
    if entries.len() > 0 {
        lemma_retained_not_excluded(entries.drop_last(), ex);
    }
}

/// Exclusion soundness: an enumerated entry whose path equals a held
/// exclusion prefix, or descends below one, never appears among the retained
/// entries.
pub proof fn lemma_exclusion_sound(
    entries: Seq<EntryModel>,
    ex: ExclusionSet,
    prefix: Seq<u8>,
    e: EntryModel,
)
    requires
        ex@.contains(prefix),
        e.path == prefix || crate::exclude::is_descendant_of(e.path, prefix),
    ensures
        !retained_entries(entries, ex).contains(e),
{
    ex.lemma_exclusion_covers(prefix, e.path);
    lemma_retained_not_excluded(entries, ex);
    if retained_entries(entries, ex).contains(e) {
        let j = choose|j: int|
            0 <= j < retained_entries(entries, ex).len() && retained_entries(entries, ex)[j] == e;
        assert(!ex.spec_excluded(retained_entries(entries, ex)[j].path));
    }
}

/// Filter a catalog against the exclusion set, keeping enumeration order.
pub fn retain_entries(entries: &Vec<CatalogEntry>, ex: &ExclusionSet) -> (kept: Vec<CatalogEntry>)
    ensures
        entry_views(kept@) == retained_entries(entry_views(entries@), *ex),
{
    let mut kept: Vec<CatalogEntry> = Vec::new();
    let ghost all = entry_views(entries@);
    let mut i: usize = 0;
    while i < entries.len()
        invariant
            i <= entries@.len(),
            all == entry_views(entries@),
            entry_views(kept@) == retained_entries(all.take(i as int), *ex),
        decreases entries@.len() - i,
    {
        let excluded = ex.is_excluded(&entries[i].path);
        proof {
            assert(all.take(i as int + 1).drop_last() =~= all.take(i as int));
            assert(all.take(i as int + 1).last() == entries@[i as int]@);
        }
        if !excluded {
            let e = CatalogEntry { path: clone_bytes(&entries[i].path), kind: entries[i].kind };
            assert(e@ == entries@[i as int]@);
            kept.push(e);
        }
        proof {
            assert(entry_views(kept@) =~= retained_entries(all.take(i as int + 1), *ex));
        }
        i = i + 1;
    }
    proof {
        assert(all.take(entries@.len() as int) =~= all);
    }
    kept
}

/// One step of a root's sync run, ready for execution.
pub enum Action {
    /// Materialize the remapped directory on the target side.
    MakeDir { target: Vec<u8> },
    /// Consider the file at `source` for copying to `target`.
    CopyFile { source: Vec<u8>, target: Vec<u8> },
}

/// The mathematical image of an action.
pub enum ActionModel {
    MakeDir { target: Seq<u8> },
    CopyFile { source: Seq<u8>, target: Seq<u8> },
}

impl View for Action {
    type V = ActionModel;

    open spec fn view(&self) -> ActionModel {
        match self {
            Action::MakeDir { target } => ActionModel::MakeDir { target: target@ },
            Action::CopyFile { source, target } => ActionModel::CopyFile {
                source: source@,
                target: target@,
            },
        }
    }
}

/// The views of a sequence of actions.
pub open spec fn action_views(s: Seq<Action>) -> Seq<ActionModel> {
    s.map_values(|a: Action| a@)
}

/// The directory-creation pass: one MakeDir per retained directory entry, in
/// enumeration order, each aimed at the entry's remapped path.
pub open spec fn dir_actions(retained: Seq<EntryModel>, base: Seq<u8>) -> Seq<ActionModel>
    decreases retained.len(),
{
    if retained.len() == 0 {
        Seq::empty()
    } else {
        let rest = dir_actions(retained.drop_last(), base);
        if retained.last().kind == EntryKind::Directory {
            rest.push(ActionModel::MakeDir { target: spec_remap(retained.last().path, base) })
        } else {
            rest
        }
    }
}

/// The file-copy pass: one CopyFile per retained file entry, in enumeration
/// order.
pub open spec fn file_actions(retained: Seq<EntryModel>, base: Seq<u8>) -> Seq<ActionModel>
    decreases retained.len(),
{
    if retained.len() == 0 {
        Seq::empty()
    } else {
        let rest = file_actions(retained.drop_last(), base);
        if retained.last().kind == EntryKind::File {
            rest.push(ActionModel::CopyFile {
                source: retained.last().path,
                target: spec_remap(retained.last().path, base),
            })
        } else {
            rest
        }
    }
}

/// The full plan for one root: the whole directory pass, then the whole file
/// pass.
pub open spec fn plan_for(entries: Seq<EntryModel>, ex: ExclusionSet, base: Seq<u8>) -> Seq<
    ActionModel,
> {
    dir_actions(retained_entries(entries, ex), base) + file_actions(
        retained_entries(entries, ex),
        base,
    )
}

pub proof fn lemma_dir_actions_all_dirs(retained: Seq<EntryModel>, base: Seq<u8>)
    ensures
        forall|i: int|
            0 <= i < dir_actions(retained, base).len() ==> (#[trigger] dir_actions(
                retained,
                base,
            )[i]) is MakeDir,
    decreases retained.len(),
{
    if retained.len() > 0 {
        lemma_dir_actions_all_dirs(retained.drop_last(), base);
    }
}

pub proof fn lemma_file_actions_all_files(retained: Seq<EntryModel>, base: Seq<u8>)
    ensures
        forall|i: int|
            0 <= i < file_actions(retained, base).len() ==> (#[trigger] file_actions(
                retained,
                base,
            )[i]) is CopyFile,
    decreases retained.len(),
{
    if retained.len() > 0 {
        lemma_file_actions_all_files(retained.drop_last(), base);
    }
}

/// Ordering: within a root's plan, every directory-creation action stands
/// before every file-copy action.
pub proof fn lemma_plan_dirs_before_files(entries: Seq<EntryModel>, ex: ExclusionSet, base: Seq<u8>)
    ensures
        forall|i: int, j: int|
            0 <= i < plan_for(entries, ex, base).len() && 0 <= j < plan_for(
                entries,
                ex,
                base,
            ).len() && (#[trigger] plan_for(entries, ex, base)[i]) is MakeDir && (#[trigger] plan_for(
                entries,
                ex,
                base,
            )[j]) is CopyFile ==> i < j,
{
    let retained = retained_entries(entries, ex);
    lemma_dir_actions_all_dirs(retained, base);
    lemma_file_actions_all_files(retained, base);
    assert forall|i: int, j: int|
        0 <= i < plan_for(entries, ex, base).len() && 0 <= j < plan_for(entries, ex, base).len()
            && (#[trigger] plan_for(entries, ex, base)[i]) is MakeDir && (#[trigger] plan_for(
            entries,
            ex,
            base,
        )[j]) is CopyFile implies i < j by {
        let dirs = dir_actions(retained, base);
        let files = file_actions(retained, base);
        if i >= dirs.len() {
            assert(plan_for(entries, ex, base)[i] == files[i - dirs.len()]);
        }
        if j < dirs.len() {
            assert(plan_for(entries, ex, base)[j] == dirs[j]);
        }
    }
}

/// Build the executable plan for one root from its already-filtered entries:
/// the directory pass first, then the file pass, as `plan_for` lays it out
/// over the retained entries.
pub fn build_plan(entries: &Vec<CatalogEntry>, ex: &ExclusionSet, base: &Vec<u8>) -> (plan: Vec<
    Action,
>)
    requires
        forall|i: int| 0 <= i < entries@.len() ==> wf_source_path((#[trigger] entries@[i])@.path),
    ensures
        action_views(plan@) == plan_for(entry_views(entries@), *ex, base@),
{
    let ghost all = entry_views(entries@);
    let mut dirs: Vec<Action> = Vec::new();
    let mut files: Vec<Action> = Vec::new();
    let mut i: usize = 0;
    while i < entries.len()
        invariant
            i <= entries@.len(),
            all == entry_views(entries@),
            forall|k: int| 0 <= k < entries@.len() ==> wf_source_path((#[trigger] entries@[k])@.path),
            action_views(dirs@) == dir_actions(retained_entries(all.take(i as int), *ex), base@),
            action_views(files@) == file_actions(retained_entries(all.take(i as int), *ex), base@),
        decreases entries@.len() - i,
    {
        let excluded = ex.is_excluded(&entries[i].path);
        proof {
            assert(all.take(i as int + 1).drop_last() =~= all.take(i as int));
            assert(all.take(i as int + 1).last() == entries@[i as int]@);
        }
        let ghost prev_retained = retained_entries(all.take(i as int), *ex);
        let ghost next_retained = retained_entries(all.take(i as int + 1), *ex);
        if !excluded {
            let target = remap(&entries[i].path, base);
            proof {
                assert(next_retained == prev_retained.push(entries@[i as int]@));
                assert(next_retained.drop_last() =~= prev_retained);
            }
            match entries[i].kind {
                EntryKind::Directory => {
                    dirs.push(Action::MakeDir { target });
                },
                EntryKind::File => {
                    let source = clone_bytes(&entries[i].path);
                    files.push(Action::CopyFile { source, target });
                },
            }
        }
        proof {
            assert(action_views(dirs@) =~= dir_actions(next_retained, base@));
            assert(action_views(files@) =~= file_actions(next_retained, base@));
        }
        i = i + 1;
    }
    proof {
        assert(all.take(entries@.len() as int) =~= all);
    }
    let mut plan = dirs;
    plan.append(&mut files);
    proof {
        assert(action_views(plan@) =~= plan_for(all, *ex, base@));
    }
    plan
}

} // verus!
