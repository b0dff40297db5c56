//! The discovery protocol: sentinel records, the location table, the
//! prober, and the synchronization decisions.

use inwelling::probe::{
    dep_listing_sources, is_dep_listing_name, package_of_dir_name, probe_pending, ProbedDir,
};
use inwelling::record::{
    initial_record, parse_record, registration_line, sentinel_file_name,
};
use inwelling::scanner::{LocationTable, ScanEntry};
use inwelling::sync::{sync_step, DirStatus, SeenPaths, SyncState};

#[test]
fn sentinel_file_name_is_fixed() {
    assert_eq!(sentinel_file_name(), "manifest_dir.inwelling");
}

#[test]
fn initial_record_content() {
    let content = initial_record("/work/bar", "echo");
    assert_eq!(content, "/work/bar\necho\n");
}

#[test]
fn registration_line_content() {
    assert_eq!(registration_line("echo"), "echo\n");
}

#[test]
fn fresh_record_parses_back() {
    let content = initial_record("/work/bar", "echo");
    let rec = parse_record(&content).unwrap();
    assert_eq!(rec.manifest_dir, "/work/bar");
    assert_eq!(rec.collectors, vec!["echo".to_string()]);
}

#[test]
fn registering_twice_yields_two_lines() {
    // append-idempotent-safe: a second registration with the same collector
    // appends a second line rather than rewriting the record
    let mut content = initial_record("/work/bar", "echo");
    content.push_str(&registration_line("echo"));
    assert_eq!(content, "/work/bar\necho\necho\n");
    let rec = parse_record(&content).unwrap();
    assert_eq!(rec.manifest_dir, "/work/bar");
    assert_eq!(rec.collectors, vec!["echo".to_string(), "echo".to_string()]);
}

#[test]
fn record_with_several_collectors() {
    let mut content = initial_record("/work/bar", "echo");
    content.push_str(&registration_line("other"));
    let rec = parse_record(&content).unwrap();
    assert_eq!(rec.collectors, vec!["echo".to_string(), "other".to_string()]);
}

#[test]
fn record_without_collectors_parses_empty() {
    let rec = parse_record("/work/bar\n").unwrap();
    assert_eq!(rec.manifest_dir, "/work/bar");
    assert!(rec.collectors.is_empty());
}

#[test]
fn empty_record_is_malformed() {
    assert!(parse_record("").is_none());
}

#[test]
fn scanner_builds_one_entry_per_registrant() {
    // two registrants, no manifest-path collision: exactly two rows, each
    // with collector list ["echo"]
    let entries = vec![
        ScanEntry {
            dir_name: "alpha-0f".to_string(),
            sentinel: Some(initial_record("/work/alpha", "echo")),
        },
        ScanEntry {
            dir_name: "beta-1a".to_string(),
            sentinel: Some(initial_record("/work/beta", "echo")),
        },
        ScanEntry { dir_name: "quiet-2b".to_string(), sentinel: None },
    ];
    let mut table = LocationTable::new();
    table.merge_pass(&entries).unwrap();
    assert_eq!(table.entries.len(), 2);
    assert_eq!(table.entries[0].manifest_path, "/work/alpha");
    assert_eq!(table.entries[0].collectors, vec!["echo".to_string()]);
    assert_eq!(table.entries[1].manifest_path, "/work/beta");
    assert_eq!(table.entries[1].collectors, vec!["echo".to_string()]);
}

#[test]
fn scanner_first_write_wins() {
    // a stale duplicate build-output directory for the same manifest is
    // cache inconsistency, not an error: the first record is retained
    let entries = vec![
        ScanEntry {
            dir_name: "alpha-0f".to_string(),
            sentinel: Some(initial_record("/work/alpha", "echo")),
        },
        ScanEntry {
            dir_name: "alpha-9c".to_string(),
            sentinel: Some(initial_record("/work/alpha", "other")),
        },
    ];
    let mut table = LocationTable::new();
    table.merge_pass(&entries).unwrap();
    assert_eq!(table.entries.len(), 1);
    assert_eq!(table.entries[0].collectors, vec!["echo".to_string()]);
}

#[test]
fn scanner_first_write_wins_across_passes() {
    let mut table = LocationTable::new();
    table
        .merge_pass(&vec![ScanEntry {
            dir_name: "alpha-0f".to_string(),
            sentinel: Some(initial_record("/work/alpha", "echo")),
        }])
        .unwrap();
    table
        .merge_pass(&vec![ScanEntry {
            dir_name: "alpha-0f".to_string(),
            sentinel: Some(initial_record("/work/alpha", "late")),
        }])
        .unwrap();
    assert_eq!(table.entries.len(), 1);
    assert_eq!(table.entries[0].collectors, vec!["echo".to_string()]);
}

#[test]
fn scanner_reports_malformed_sentinel() {
    let entries = vec![ScanEntry { dir_name: "bad-00".to_string(), sentinel: Some(String::new()) }];
    let mut table = LocationTable::new();
    let err = table.merge_pass(&entries).unwrap_err();
    assert_eq!(err.dir_name, "bad-00");
}

#[test]
fn package_name_strips_fingerprint_at_last_hyphen() {
    assert_eq!(package_of_dir_name("my-crate-0123abcd").unwrap(), "my-crate");
    assert_eq!(package_of_dir_name("alpha-0f").unwrap(), "alpha");
    assert!(package_of_dir_name("nohyphen").is_none());
    assert!(package_of_dir_name("").is_none());
}

#[test]
fn dep_listing_name_shape() {
    assert!(is_dep_listing_name("build_script_build-11aa.d"));
    assert!(is_dep_listing_name("build-script-build.d"));
    assert!(!is_dep_listing_name("build_script_build-11aa"));
    assert!(!is_dep_listing_name("libfoo.d"));
}

#[test]
fn dep_listing_lists_sources_after_marker() {
    let text = "/t/debug/build/b-1/build_script_build-1: build.rs src/lib.rs\n";
    assert_eq!(
        dep_listing_sources(text),
        vec!["build.rs".to_string(), "src/lib.rs".to_string()]
    );
}

#[test]
fn dep_listing_keeps_drive_colons_whole() {
    let text = "C:\\t\\build_script_build.exe: C:\\w\\build.rs\nC:\\w\\build.rs:\n";
    assert_eq!(dep_listing_sources(text), vec!["C:\\w\\build.rs".to_string()]);
}

#[test]
fn prober_identifies_future_registrant() {
    // the dependency-listed source names the collector as a quoted literal
    // and calls the registration routine
    let source = "fn main() { inwelling::to( \"echo\" ); }".to_string();
    let dirs = vec![ProbedDir { dir_name: "beta-1a".to_string(), dep_sources: vec![source] }];
    let (pending, accounted) = probe_pending(&dirs, "echo");
    assert_eq!(pending, vec!["beta".to_string()]);
    assert_eq!(accounted, vec!["beta-1a".to_string()]);
}

#[test]
fn prober_ignores_unrelated_sources() {
    let source = "fn main() { println!(\"hello\"); }".to_string();
    let dirs = vec![ProbedDir { dir_name: "beta-1a".to_string(), dep_sources: vec![source] }];
    let (pending, accounted) = probe_pending(&dirs, "echo");
    assert!(pending.is_empty());
    assert!(accounted.is_empty());
}

#[test]
fn prober_needs_quoted_collector_name() {
    // the collector name occurs, but not as a quoted literal
    let source = "// talks about echo and inwelling".to_string();
    let dirs = vec![ProbedDir { dir_name: "beta-1a".to_string(), dep_sources: vec![source] }];
    let (pending, _) = probe_pending(&dirs, "echo");
    assert!(pending.is_empty());
}

#[test]
fn sync_remains_scanning_while_sentinel_pending() {
    // the prober found a future registrant, but the directory where its
    // sentinel will appear has none yet: the loop must not stop
    let source = "fn main() { inwelling::to( \"echo\" ); }".to_string();
    let probed = vec![ProbedDir { dir_name: "beta-1a".to_string(), dep_sources: vec![source] }];
    let (pending, accounted) = probe_pending(&probed, "echo");
    let dirs = vec![
        DirStatus { dir_name: "beta-1a".to_string(), has_sentinel: false },
        DirStatus { dir_name: "beta-9c".to_string(), has_sentinel: false },
    ];
    assert!(matches!(sync_step(&dirs, &pending, &accounted), SyncState::Scanning));
}

#[test]
fn sync_done_once_sentinel_written() {
    let source = "fn main() { inwelling::to( \"echo\" ); }".to_string();
    let probed = vec![ProbedDir { dir_name: "beta-1a".to_string(), dep_sources: vec![source] }];
    let (pending, accounted) = probe_pending(&probed, "echo");
    let dirs = vec![
        DirStatus { dir_name: "beta-1a".to_string(), has_sentinel: false },
        DirStatus { dir_name: "beta-9c".to_string(), has_sentinel: true },
    ];
    assert!(matches!(sync_step(&dirs, &pending, &accounted), SyncState::Done));
}

#[test]
fn sync_done_with_no_pending_registrants() {
    let dirs = vec![DirStatus { dir_name: "quiet-2b".to_string(), has_sentinel: false }];
    assert!(matches!(sync_step(&dirs, &Vec::new(), &Vec::new()), SyncState::Done));
}

#[test]
fn seen_paths_quiesce_when_nothing_new() {
    let mut seen = SeenPaths::new();
    let pass1 = vec!["/b/alpha-0f".to_string(), "/b/beta-1a".to_string()];
    assert!(seen.note_pass(&pass1));
    // same listing again: nothing new, the loop may stop
    assert!(!seen.note_pass(&pass1));
    // one more directory appears: keep polling
    let pass2 = vec![
        "/b/alpha-0f".to_string(),
        "/b/beta-1a".to_string(),
        "/b/gamma-2b".to_string(),
    ];
    assert!(seen.note_pass(&pass2));
    assert!(!seen.note_pass(&pass2));
}
