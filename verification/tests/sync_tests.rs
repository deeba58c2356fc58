// Behaviour of the sync core: remapping, exclusion, planning, decisions,
// and the idempotence of a repeated run.

use sfbp::engine::{decide_dir, decide_file, gate_refresh, DirAction, FileAction, RefreshGate};
use sfbp::exclude::ExclusionSet;
use sfbp::meta::FileMeta;
use sfbp::plan::{build_plan, retain_entries, Action, CatalogEntry, EntryKind};
use sfbp::remap::remap;
use sfbp::stats::SyncStats;

fn bytes(s: &str) -> Vec<u8> {
    s.as_bytes().to_vec()
}

fn meta(attributes: u32, write_time: u64, size: u64) -> FileMeta {
    FileMeta { attributes, creation_time: 7, access_time: 9, write_time, size }
}

#[test]
fn remap_spec_example() {
    let t = remap(&bytes("C:\\Data\\x.txt"), &bytes("D:\\Backup"));
    assert_eq!(t, bytes("D:\\BackupC\\Data\\x.txt"));
}

#[test]
fn remap_deeper_path() {
    let t = remap(&bytes("C:\\Users\\a\\file.txt"), &bytes("D:\\Backup"));
    assert_eq!(t, bytes("D:\\BackupC\\Users\\a\\file.txt"));
}

#[test]
fn remap_bare_root() {
    let t = remap(&bytes("E:"), &bytes("D:\\bk"));
    assert_eq!(t, bytes("D:\\bkE"));
}

#[test]
fn exclusion_covers_self_and_descendants() {
    let mut ex = ExclusionSet::new();
    ex.push(bytes("C:\\proj\\sub"));
    assert!(ex.is_excluded(&bytes("C:\\proj\\sub")));
    assert!(ex.is_excluded(&bytes("C:\\proj\\sub\\b.txt")));
    assert!(!ex.is_excluded(&bytes("C:\\proj\\a.txt")));
    assert!(!ex.is_excluded(&bytes("C:\\proj")));
}

#[test]
fn exclusion_order_does_not_matter() {
    let mut one = ExclusionSet::new();
    one.push(bytes("C:\\a"));
    one.push(bytes("D:\\b"));
    let mut two = ExclusionSet::new();
    two.push(bytes("D:\\b"));
    two.push(bytes("C:\\a"));
    for path in ["C:\\a\\x", "D:\\b\\y", "E:\\c\\z"] {
        assert_eq!(one.is_excluded(&bytes(path)), two.is_excluded(&bytes(path)));
    }
}

#[test]
fn excluded_entries_never_retained() {
    let entries = vec![
        CatalogEntry::new(bytes("C:\\proj"), EntryKind::Directory),
        CatalogEntry::new(bytes("C:\\proj\\a.txt"), EntryKind::File),
        CatalogEntry::new(bytes("C:\\proj\\sub"), EntryKind::Directory),
        CatalogEntry::new(bytes("C:\\proj\\sub\\b.txt"), EntryKind::File),
    ];
    let mut ex = ExclusionSet::new();
    ex.push(bytes("C:\\proj\\sub"));
    let kept = retain_entries(&entries, &ex);
    assert_eq!(kept.len(), 2);
    assert_eq!(kept[0].path, bytes("C:\\proj"));
    assert_eq!(kept[1].path, bytes("C:\\proj\\a.txt"));
}

#[test]
fn scenario_one_root_with_exclusion() {
    let entries = vec![
        CatalogEntry::new(bytes("C:\\proj"), EntryKind::Directory),
        CatalogEntry::new(bytes("C:\\proj\\a.txt"), EntryKind::File),
        CatalogEntry::new(bytes("C:\\proj\\sub"), EntryKind::Directory),
        CatalogEntry::new(bytes("C:\\proj\\sub\\b.txt"), EntryKind::File),
    ];
    let mut ex = ExclusionSet::new();
    ex.push(bytes("C:\\proj\\sub"));
    let base = bytes("D:\\bk");
    let plan = build_plan(&entries, &ex, &base);
    assert_eq!(plan.len(), 2);
    match &plan[0] {
        Action::MakeDir { target } => assert_eq!(*target, bytes("D:\\bkC\\proj")),
        _ => panic!("directory pass must come first"),
    }
    match &plan[1] {
        Action::CopyFile { source, target } => {
            assert_eq!(*source, bytes("C:\\proj\\a.txt"));
            assert_eq!(*target, bytes("D:\\bkC\\proj\\a.txt"));
        }
        _ => panic!("file pass must follow"),
    }
    // The file is new on the target: one new copy of 100 bytes.
    let decision = decide_file(false, &meta(0, 50, 100), &FileMeta::zeroed());
    assert_eq!(decision, FileAction::CopyNew);
    let mut stats = SyncStats::new();
    stats.record_new_copy(100);
    assert_eq!(stats.new_copies, 1);
    assert_eq!(stats.refresh_copies, 0);
    assert_eq!(stats.files_copied, 1);
    assert_eq!(stats.bytes_copied, 100);
}

#[test]
fn plan_orders_all_directories_before_files() {
    let entries = vec![
        CatalogEntry::new(bytes("C:\\r"), EntryKind::Directory),
        CatalogEntry::new(bytes("C:\\r\\f1"), EntryKind::File),
        CatalogEntry::new(bytes("C:\\r\\d1"), EntryKind::Directory),
        CatalogEntry::new(bytes("C:\\r\\d1\\f2"), EntryKind::File),
        CatalogEntry::new(bytes("C:\\r\\d2"), EntryKind::Directory),
    ];
    let ex = ExclusionSet::new();
    let plan = build_plan(&entries, &ex, &bytes("D:\\bk"));
    let first_file = plan.iter().position(|a| matches!(a, Action::CopyFile { .. }));
    let last_dir = plan.iter().rposition(|a| matches!(a, Action::MakeDir { .. }));
    assert_eq!(plan.len(), 5);
    assert!(last_dir.unwrap() < first_file.unwrap());
}

#[test]
fn decide_dir_follows_target_state() {
    assert_eq!(decide_dir(true), DirAction::AlreadyExists);
    assert_eq!(decide_dir(false), DirAction::Create);
}

#[test]
fn change_detection_agreeing_sides_skip() {
    let source = meta(0, 1000, 64);
    let target = meta(0, 1000, 64);
    assert_eq!(decide_file(true, &source, &target), FileAction::Skip);
}

#[test]
fn change_detection_any_difference_refreshes() {
    let source = meta(0, 1000, 64);
    let newer = meta(0, 2000, 64);
    let larger = meta(0, 1000, 65);
    assert_eq!(
        decide_file(true, &source, &newer),
        FileAction::Refresh { must_clear: false }
    );
    assert_eq!(
        decide_file(true, &source, &larger),
        FileAction::Refresh { must_clear: false }
    );
}

#[test]
fn missing_target_copies_new() {
    let source = meta(0, 1000, 64);
    assert_eq!(decide_file(false, &source, &FileMeta::zeroed()), FileAction::CopyNew);
}

#[test]
fn read_only_target_must_be_cleared() {
    let source = meta(0, 2000, 64);
    let stale_read_only = meta(0x1, 1000, 64);
    assert_eq!(
        decide_file(true, &source, &stale_read_only),
        FileAction::Refresh { must_clear: true }
    );
    assert_eq!(gate_refresh(true, false), RefreshGate::BlockedByReadOnly);
    assert_eq!(gate_refresh(true, true), RefreshGate::Proceed);
    assert_eq!(gate_refresh(false, false), RefreshGate::Proceed);
}

#[test]
fn second_run_skips_everything() {
    // First run: no target counterparts, both files copied as new.
    let sources = [meta(0, 10, 100), meta(0, 20, 50)];
    let mut stats = SyncStats::new();
    for m in &sources {
        match decide_file(false, m, &FileMeta::zeroed()) {
            FileAction::CopyNew => stats.record_new_copy(m.size),
            other => panic!("unexpected first-run decision {:?}", other),
        }
    }
    assert_eq!(stats.new_copies, 2);
    assert_eq!(stats.refresh_copies, 0);
    assert_eq!(stats.bytes_copied, 150);
    // The copies left the source metadata on the target: the second run
    // decides Skip everywhere and the counters stay put.
    let before = stats;
    for m in &sources {
        let copied_target = *m;
        assert_eq!(decide_file(true, m, &copied_target), FileAction::Skip);
    }
    assert_eq!(stats, before);
}
