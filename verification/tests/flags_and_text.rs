//! Orchestrator-flag recovery and the text operations under the protocol.

use inwelling::flags::{parse_invocation_args, Flags};
use inwelling::scan_rs_paths;
use inwelling::text::{contains_substr, split_lines, str_eq};

fn args(list: &[&str]) -> Vec<String> {
    list.iter().map(|a| a.to_string()).collect()
}

#[test]
fn flags_default_to_unset() {
    let f = Flags::unset();
    assert!(!f.all_features);
    assert!(!f.no_default_features);
    assert!(f.features.is_empty());
    assert!(f.manifest_path.is_none());
    let g = parse_invocation_args(&Vec::new());
    assert!(!g.all_features && !g.no_default_features);
    assert!(g.features.is_empty() && g.manifest_path.is_none());
}

#[test]
fn flags_recognize_toggles() {
    let f = parse_invocation_args(&args(&[
        "cargo",
        "build",
        "--all-features",
        "--no-default-features",
    ]));
    assert!(f.all_features);
    assert!(f.no_default_features);
}

#[test]
fn flags_collect_feature_lists() {
    let f = parse_invocation_args(&args(&["--features", "a,b c", "--features=d"]));
    assert_eq!(
        f.features,
        vec!["a".to_string(), "b".to_string(), "c".to_string(), "d".to_string()]
    );
}

#[test]
fn flags_consume_feature_values() {
    // the value after --features is consumed, not scanned as a flag
    let f = parse_invocation_args(&args(&["--features", "--all-features"]));
    assert!(!f.all_features);
    assert_eq!(f.features, vec!["--all-features".to_string()]);
}

#[test]
fn flags_keep_first_manifest_path() {
    let f = parse_invocation_args(&args(&[
        "--manifest-path",
        "/a/Cargo.toml",
        "--manifest-path=/b/Cargo.toml",
    ]));
    assert_eq!(f.manifest_path.as_deref(), Some("/a/Cargo.toml"));
}

#[test]
fn flags_ignore_unknown_arguments() {
    let f = parse_invocation_args(&args(&["build", "-j", "8", "--quiet"]));
    assert!(!f.all_features && !f.no_default_features);
    assert!(f.features.is_empty() && f.manifest_path.is_none());
}

#[test]
fn flags_trailing_two_arg_flag_without_value() {
    // "--features" as the last argument carries no value and is ignored
    let f = parse_invocation_args(&args(&["--features"]));
    assert!(f.features.is_empty());
}

#[test]
fn split_lines_drops_final_terminator() {
    assert_eq!(split_lines("a\nb\n"), vec!["a".to_string(), "b".to_string()]);
    assert_eq!(split_lines("a\nb"), vec!["a".to_string(), "b".to_string()]);
    assert_eq!(split_lines("a\n\nb\n"), vec!["a".to_string(), String::new(), "b".to_string()]);
    assert!(split_lines("").is_empty());
}

#[test]
fn substring_search() {
    assert!(contains_substr("inwelling::to(\"echo\")", "\"echo\""));
    assert!(!contains_substr("inwelling::to(echo)", "\"echo\""));
    assert!(contains_substr("anything", ""));
    assert!(!contains_substr("ab", "abc"));
}

#[test]
fn string_equality_by_characters() {
    assert!(str_eq("echo", "echo"));
    assert!(!str_eq("echo", "echo "));
    assert!(!str_eq("echo", "ECHO"));
}

#[test]
fn scan_rs_paths_keeps_only_rust_sources() {
    let listed = args(&[
        "/w/alpha/src/lib.rs",
        "/w/alpha/src/data.bin",
        "/w/alpha/examples/demo.rs",
        "/w/alpha/tests",
        "/w/alpha/src/.rs",
    ]);
    let mut rs = vec!["/pre/existing.rs".to_string()];
    scan_rs_paths(&listed, &mut rs);
    assert_eq!(
        rs,
        args(&[
            "/pre/existing.rs",
            "/w/alpha/src/lib.rs",
            "/w/alpha/examples/demo.rs",
        ])
    );
}
