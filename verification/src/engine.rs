//! The per-entry sync decision and the run model built on it.
//!
//! For a file entry the engine decides copy-new, skip, or refresh from the
//! observed metadata alone; a refresh against a read-only target goes through
//! first clearing that attribute and is blocked when the clearing fails. The
//! ghost run model replays those decisions over a mapped view of the target
//! and carries the laws: a first run over an empty target copies everything
//! as new, an immediate second run copies nothing.

use vstd::prelude::*;

use crate::meta::{FileMeta, spec_sync_identical, sync_identical};
use crate::remap::{spec_remap, wf_source_path, lemma_remap_injective};

verus! {

/// What to do with one retained directory entry.
#[derive(Clone, Copy, PartialEq, Eq, Structural, Debug)]
pub enum DirAction {
    /// The remapped path is not yet a directory on the target: create it.
    Create,
    /// The remapped path already is a directory: nothing to do.
    AlreadyExists,
}

/// What to do with one retained file entry.
#[derive(Clone, Copy, PartialEq, Eq, Structural, Debug)]
pub enum FileAction {
    /// No target counterpart exists: copy unconditionally.
    CopyNew,
    /// Both sides agree on last-write time and size: leave the target alone.
    Skip,
    /// The sides disagree: overwrite the target, clearing its read-only
    /// attribute first when `must_clear` is set.
    Refresh { must_clear: bool },
}

/// Whether a refresh against a possibly read-only target may proceed.
#[derive(Clone, Copy, PartialEq, Eq, Structural, Debug)]
pub enum RefreshGate {
    /// Go ahead and copy.
    Proceed,
    /// The read-only attribute could not be cleared: do not copy, count
    /// nothing.
    BlockedByReadOnly,
}

pub open spec fn spec_decide_dir(target_is_dir: bool) -> DirAction {
    if target_is_dir {
        DirAction::AlreadyExists
    } else {
        DirAction::Create
    }
}

/// Decide a retained directory entry from whether its remapped path already
/// exists as a directory.
pub fn decide_dir(target_is_dir: bool) -> (a: DirAction)
    ensures
        a == spec_decide_dir(target_is_dir),
{
    if target_is_dir {
        DirAction::AlreadyExists
    } else {
        DirAction::Create
    }
}

pub open spec fn spec_decide_file(target_exists: bool, source: FileMeta, target: FileMeta) -> FileAction {
    if !target_exists {
        FileAction::CopyNew
    } else if spec_sync_identical(source, target) {
        FileAction::Skip
    } else {
        FileAction::Refresh { must_clear: target.spec_is_read_only() }
    }
}

/// Decide a retained file entry from whether a target counterpart exists and
/// from the metadata observed on each side. When no counterpart exists the
/// target metadata is ignored; callers pass the zeroed record.
pub fn decide_file(target_exists: bool, source: &FileMeta, target: &FileMeta) -> (a: FileAction)
    ensures
        a == spec_decide_file(target_exists, *source, *target),
{
    if !target_exists {
        FileAction::CopyNew
    } else if sync_identical(source, target) {
        FileAction::Skip
    } else {
        FileAction::Refresh { must_clear: target.is_read_only() }
    }
}

pub open spec fn spec_gate_refresh(must_clear: bool, clear_succeeded: bool) -> RefreshGate {
    if must_clear && !clear_succeeded {
        RefreshGate::BlockedByReadOnly
    } else {
        RefreshGate::Proceed
    }
}

/// Gate a refresh on the outcome of clearing the target's read-only
/// attribute. With nothing to clear the copy always proceeds.
pub fn gate_refresh(must_clear: bool, clear_succeeded: bool) -> (g: RefreshGate)
    ensures
        g == spec_gate_refresh(must_clear, clear_succeeded),
        g is Proceed <==> (!must_clear || clear_succeeded),
{
    if must_clear && !clear_succeeded {
        RefreshGate::BlockedByReadOnly
    } else {
        RefreshGate::Proceed
    }
}

/// Read-only handling: a stale read-only target is refreshed only through
/// clearing the attribute; when the clearing fails the refresh is blocked and
/// the file counts as copied nowhere.
pub proof fn lemma_read_only_block(source: FileMeta, target: FileMeta, clear_succeeded: bool)
    requires
        target.spec_is_read_only(),
        !spec_sync_identical(source, target),
    ensures
        spec_decide_file(true, source, target) == (FileAction::Refresh { must_clear: true }),
        spec_gate_refresh(true, clear_succeeded) is Proceed <==> clear_succeeded,
{
}

/// One source file as the run model sees it: its path and the metadata
/// observed for it.
pub struct FileView {
    pub path: Seq<u8>,
    pub meta: FileMeta,
}

/// The mapped view of the target side: each existing target file's path,
/// with its observed metadata.
pub type TargetView = Map<Seq<u8>, FileMeta>;

/// What one root's file pass leaves behind: the target view after the pass
/// and the counters it accumulated.
pub struct RunOutcome {
    pub target: TargetView,
    pub new_copies: nat,
    pub refresh_copies: nat,
    pub skips: nat,
}

/// The target view after treating one file entry: a completed copy leaves
/// the source metadata at the remapped path; a skip changes nothing.
pub open spec fn apply_file(target: TargetView, f: FileView, base: Seq<u8>) -> TargetView {
    let tp = spec_remap(f.path, base);
    match spec_decide_file(target.dom().contains(tp), f.meta, if target.dom().contains(tp) {
        target[tp]
    } else {
        FileMeta::spec_zeroed()
    }) {
        FileAction::Skip => target,
        FileAction::CopyNew => target.insert(tp, f.meta),
        FileAction::Refresh { must_clear } => target.insert(tp, f.meta),
    }
}

/// Replay the file pass over a root's file entries in order, counting each
/// decision. The model run is the undisturbed one: every attempted copy
/// completes and every needed attribute clearing succeeds.
pub open spec fn run_files(files: Seq<FileView>, base: Seq<u8>, target: TargetView) -> RunOutcome
    decreases files.len(),
{
    if files.len() == 0 {
        RunOutcome { target, new_copies: 0, refresh_copies: 0, skips: 0 }
    } else {
        let f = files[0];
        let tp = spec_remap(f.path, base);
        let decision = spec_decide_file(target.dom().contains(tp), f.meta, if target.dom().contains(
            tp,
        ) {
            target[tp]
        } else {
            FileMeta::spec_zeroed()
        });
        let rest = run_files(files.skip(1), base, apply_file(target, f, base));
        match decision {
            FileAction::CopyNew => RunOutcome {
                target: rest.target,
                new_copies: rest.new_copies + 1,
                refresh_copies: rest.refresh_copies,
                skips: rest.skips,
            },
            FileAction::Skip => RunOutcome {
                target: rest.target,
                new_copies: rest.new_copies,
                refresh_copies: rest.refresh_copies,
                skips: rest.skips + 1,
            },
            FileAction::Refresh { must_clear } => RunOutcome {
                target: rest.target,
                new_copies: rest.new_copies,
                refresh_copies: rest.refresh_copies + 1,
                skips: rest.skips,
            },
        }
    }
}

/// Change detection for one file present on both sides: agreeing metadata
/// means the entry is skipped and the target left untouched; disagreeing
/// metadata means the entry is copied and the target's metadata afterwards
/// equals the source's.
pub proof fn lemma_change_detection(target: TargetView, f: FileView, base: Seq<u8>)
    requires
        target.dom().contains(spec_remap(f.path, base)),
    ensures
        spec_sync_identical(f.meta, target[spec_remap(f.path, base)]) ==> {
            &&& spec_decide_file(true, f.meta, target[spec_remap(f.path, base)]) is Skip
            &&& apply_file(target, f, base) == target
        },
        !spec_sync_identical(f.meta, target[spec_remap(f.path, base)]) ==> {
            &&& spec_decide_file(true, f.meta, target[spec_remap(f.path, base)]) is Refresh
            &&& apply_file(target, f, base)[spec_remap(f.path, base)] == f.meta
        },
{
}

/// All of a root's file entries are well-formed and name distinct source
/// paths.
pub open spec fn distinct_wf_files(files: Seq<FileView>) -> bool {
    &&& forall|i: int| 0 <= i < files.len() ==> wf_source_path((#[trigger] files[i]).path)
    &&& forall|i: int, j: int|
        0 <= i < files.len() && 0 <= j < files.len() && i != j ==> (#[trigger] files[i]).path != (
        #[trigger] files[j]).path
}

/// A first pass over files none of which yet has a target counterpart copies
/// every one as new: no refreshes, no skips, and afterwards the target holds
/// each file's metadata at its remapped path, with everything else untouched.
pub proof fn lemma_run_fresh(files: Seq<FileView>, base: Seq<u8>, target: TargetView)
    requires
        distinct_wf_files(files),
        forall|i: int|
            0 <= i < files.len() ==> !target.dom().contains(
                spec_remap((#[trigger] files[i]).path, base),
            ),
    ensures
        run_files(files, base, target).new_copies == files.len(),
        run_files(files, base, target).refresh_copies == 0,
        run_files(files, base, target).skips == 0,
        forall|i: int|
            0 <= i < files.len() ==> run_files(files, base, target).target.dom().contains(
                spec_remap((#[trigger] files[i]).path, base),
            ),
        forall|i: int|
            0 <= i < files.len() ==> run_files(files, base, target).target[spec_remap(
                (#[trigger] files[i]).path,
                base,
            )] == files[i].meta,
        forall|k: Seq<u8>|
            #[trigger] target.dom().contains(k) ==> run_files(
                files,
                base,
                target,
            ).target.dom().contains(k) && run_files(files, base, target).target[k] == target[k],
    decreases files.len(),
{
    if files.len() > 0 {
        let f = files[0];
        let tp = spec_remap(f.path, base);
        let target1 = apply_file(target, f, base);
        assert(target1 == target.insert(tp, f.meta));
        let rest = files.skip(1);
        assert forall|i: int, j: int|
            0 <= i < rest.len() && 0 <= j < rest.len() && i != j implies (#[trigger] rest[i]).path
            != (#[trigger] rest[j]).path by {
            assert(rest[i] == files[i + 1]);
            assert(rest[j] == files[j + 1]);
        }
        assert forall|i: int| 0 <= i < rest.len() implies wf_source_path(
            (#[trigger] rest[i]).path,
        ) && !target1.dom().contains(spec_remap(rest[i].path, base)) by {
            assert(rest[i] == files[i + 1]);
            if spec_remap(rest[i].path, base) == tp {
                lemma_remap_injective(rest[i].path, f.path, base);
            }
        }
        lemma_run_fresh(rest, base, target1);
        assert forall|i: int| 0 <= i < files.len() implies run_files(
            files,
            base,
            target,
        ).target.dom().contains(spec_remap((#[trigger] files[i]).path, base)) && run_files(
            files,
            base,
            target,
        ).target[spec_remap((#[trigger] files[i]).path, base)] == files[i].meta by {
            if i == 0 {
                assert(target1.dom().contains(tp) && target1[tp] == f.meta);
            } else {
                assert(rest[i - 1] == files[i]);
            }
        }
        assert(!target.dom().contains(spec_remap(files[0].path, base)));
        assert forall|k: Seq<u8>| #[trigger] target.dom().contains(k) implies run_files(
            files,
            base,
            target,
        ).target.dom().contains(k) && run_files(files, base, target).target[k] == target[k] by {
            assert(k != tp);
            assert(target1.dom().contains(k) && target1[k] == target[k]);
            assert(run_files(rest, base, target1).target.dom().contains(k));
            assert(run_files(rest, base, target1).target[k] == target1[k]);
            assert(run_files(files, base, target).target == run_files(rest, base, target1).target);
        }
    }
}

/// A pass over files whose target counterparts already carry their exact
/// metadata copies nothing and changes nothing.
pub proof fn lemma_run_stable(files: Seq<FileView>, base: Seq<u8>, target: TargetView)
    requires
        forall|i: int|
            0 <= i < files.len() ==> target.dom().contains(
                spec_remap((#[trigger] files[i]).path, base),
            ) && target[spec_remap((#[trigger] files[i]).path, base)] == files[i].meta,
    ensures
        run_files(files, base, target).new_copies == 0,
        run_files(files, base, target).refresh_copies == 0,
        run_files(files, base, target).skips == files.len(),
        run_files(files, base, target).target == target,
    decreases files.len(),
{
    if files.len() > 0 {
        let f = files[0];
        let tp = spec_remap(f.path, base);
        assert(spec_sync_identical(f.meta, target[tp]));
        assert(apply_file(target, f, base) == target);
        let rest = files.skip(1);
        assert forall|i: int| 0 <= i < rest.len() implies target.dom().contains(
            spec_remap((#[trigger] rest[i]).path, base),
        ) && target[spec_remap(rest[i].path, base)] == rest[i].meta by {
            assert(rest[i] == files[i + 1]);
        }
        lemma_run_stable(rest, base, target);
    }
}

/// Idempotence: over a fixed set of source files and an initially empty
/// target, the first pass copies every file as new and the immediate second
/// pass copies nothing, new or refreshed, and leaves the target as the first
/// pass left it.
pub proof fn lemma_sync_idempotent(files: Seq<FileView>, base: Seq<u8>)
    requires
        distinct_wf_files(files),
    ensures
        ({
            let first = run_files(files, base, Map::empty());
            let second = run_files(files, base, first.target);
            &&& first.new_copies == files.len()
            &&& first.refresh_copies == 0
            &&& first.skips == 0
            &&& second.new_copies == 0
            &&& second.refresh_copies == 0
            &&& second.skips == files.len()
            &&& second.target == first.target
        }),
{
    let empty: TargetView = Map::empty();
    lemma_run_fresh(files, base, empty);
    let first = run_files(files, base, empty);
    lemma_run_stable(files, base, first.target);
}

} // verus!
