// Behaviour of configuration parsing, the volume counter, the run counters
// and the display scaling.

use sfbp::config::{
    is_exclusion_line, is_root_line, parse_config_line, ConfigError, ConfigValues,
};
use sfbp::logname::{build_log_file_name, construct_lf_name};
use sfbp::stats::{scale_bytes, size_summary, ByteUnit, SyncStats};
use sfbp::volume::VolumeCounter;

fn bytes(s: &str) -> Vec<u8> {
    s.as_bytes().to_vec()
}

#[test]
fn config_line_key_and_value_are_trimmed() {
    let r = parse_config_line(&bytes("BackupSource = C:\\lists\\roots.txt "));
    let (k, v) = r.unwrap();
    assert_eq!(k, bytes("BackupSource"));
    assert_eq!(v, bytes("C:\\lists\\roots.txt"));
}

#[test]
fn config_comment_and_empty_lines_yield_nothing() {
    assert!(parse_config_line(&bytes("# a comment")).is_none());
    assert!(parse_config_line(&bytes("")).is_none());
    assert!(parse_config_line(&bytes("NoSeparatorHere")).is_none());
}

#[test]
fn config_value_stops_at_second_separator() {
    let (k, v) = parse_config_line(&bytes("BackupSource=first=second")).unwrap();
    assert_eq!(k, bytes("BackupSource"));
    assert_eq!(v, bytes("first"));
}

#[test]
fn config_values_fill_from_lines() {
    let mut c = ConfigValues::new();
    c.apply_line(&bytes("# backup settings"));
    c.apply_line(&bytes("BackupSource=C:\\lists\\roots.txt"));
    c.apply_line(&bytes("ExcludeSource=C:\\lists\\excl.txt"));
    c.apply_line(&bytes("BackupBaseLocation=D:\\bk"));
    c.apply_line(&bytes("Unrelated=ignored"));
    assert_eq!(c.backup_source, bytes("C:\\lists\\roots.txt"));
    assert_eq!(c.exclude_source, bytes("C:\\lists\\excl.txt"));
    assert_eq!(c.target_base, bytes("D:\\bk"));
    assert!(c.validate().is_ok());
}

#[test]
fn config_missing_values_fail_in_order() {
    let mut c = ConfigValues::new();
    assert_eq!(c.validate(), Err(ConfigError::MissingBackupSource));
    c.apply_line(&bytes("BackupSource=a"));
    assert_eq!(c.validate(), Err(ConfigError::MissingExcludeSource));
    c.apply_line(&bytes("ExcludeSource=b"));
    assert_eq!(c.validate(), Err(ConfigError::MissingTargetBase));
    c.apply_line(&bytes("BackupBaseLocation=c"));
    assert_eq!(c.validate(), Ok(()));
}

#[test]
fn list_line_classification() {
    assert!(is_root_line(&bytes("C:\\data")));
    assert!(!is_root_line(&bytes("# note")));
    assert!(!is_root_line(&bytes("")));
    assert!(is_exclusion_line(&bytes("C:\\data\\tmp")));
    assert!(!is_exclusion_line(&bytes("")));
}

#[test]
fn volume_counter_counts_per_prefix() {
    let mut vc = VolumeCounter::new();
    vc.observe(&bytes("C:"));
    vc.observe(&bytes("D:"));
    vc.observe(&bytes("C:"));
    assert_eq!(vc.len(), 2);
    vc.increment(&bytes("C:"));
    vc.increment(&bytes("C:"));
    vc.increment(&bytes("D:"));
    assert_eq!(vc.count_for(&bytes("C:")), Some(2));
    assert_eq!(vc.count_for(&bytes("D:")), Some(1));
    assert_eq!(vc.count_for(&bytes("E:")), None);
    assert!(vc.contains(&bytes("C:")));
    assert!(!vc.contains(&bytes("E:")));
}

#[test]
fn sorted_prefixes_render_in_order() {
    let mut vc = VolumeCounter::new();
    vc.observe(&bytes("D:"));
    vc.observe(&bytes("C:"));
    vc.observe(&bytes("E:"));
    vc.observe(&bytes("C:"));
    let sorted = vc.sorted_prefixes();
    assert_eq!(sorted, vec![bytes("C:"), bytes("D:"), bytes("E:")]);
}

#[test]
fn counters_accumulate_and_never_decrease() {
    let mut s = SyncStats::new();
    s.record_new_copy(1000);
    s.record_refresh_copy(24);
    s.record_new_copy(0);
    assert_eq!(s.files_copied, 3);
    assert_eq!(s.new_copies, 2);
    assert_eq!(s.refresh_copies, 1);
    assert_eq!(s.bytes_copied, 1024);
}

#[test]
fn scaling_picks_the_largest_fitting_unit() {
    let b = scale_bytes(500);
    assert_eq!(b.unit, ByteUnit::Bytes);
    assert_eq!((b.whole, b.hundredths), (500, 0));

    let edge = scale_bytes(1024);
    assert_eq!(edge.unit, ByteUnit::Bytes);
    assert_eq!((edge.whole, edge.hundredths), (1024, 0));

    let k = scale_bytes(1536);
    assert_eq!(k.unit, ByteUnit::KiloBytes);
    assert_eq!((k.whole, k.hundredths), (1, 50));

    let m = scale_bytes(3 * 1024 * 1024);
    assert_eq!(m.unit, ByteUnit::MegaBytes);
    assert_eq!((m.whole, m.hundredths), (3, 0));

    let g = scale_bytes(5 * 1024 * 1024 * 1024 + 512 * 1024 * 1024);
    assert_eq!(g.unit, ByteUnit::GigaBytes);
    assert_eq!((g.whole, g.hundredths), (5, 50));
}

#[test]
fn size_summary_omitted_without_copies() {
    let s = SyncStats::new();
    assert!(size_summary(&s).is_none());
}

#[test]
fn size_summary_reports_total_and_mean() {
    let mut s = SyncStats::new();
    s.record_new_copy(2048);
    s.record_refresh_copy(2048);
    let sum = size_summary(&s).unwrap();
    assert_eq!(sum.total.unit, ByteUnit::KiloBytes);
    assert_eq!(sum.total.whole, 4);
    assert_eq!(sum.mean.unit, ByteUnit::KiloBytes);
    assert_eq!(sum.mean.whole, 2);
}

#[test]
fn log_file_name_is_assembled_from_its_parts() {
    let name = build_log_file_name("C:\\Logs", "\\sfbp", "20240101-120000");
    assert_eq!(name, "C:\\Logs\\sfbp\\Log_20240101-120000.txt");
}

#[test]
fn constructed_log_name_carries_a_timestamp() {
    let mut name = String::new();
    construct_lf_name(&mut name, "C:\\Logs", "\\sfbp");
    assert!(name.starts_with("C:\\Logs\\sfbp\\Log_"));
    assert!(name.ends_with(".txt"));
    // prefix + marker + a stamp of at least 15 characters + extension
    assert!(name.len() >= "C:\\Logs\\sfbp\\Log_".len() + 15 + ".txt".len());
    let stamp = &name["C:\\Logs\\sfbp\\Log_".len()..name.len() - ".txt".len()];
    assert!(stamp.chars().all(|c| c.is_ascii_digit() || c == '-'));
}
