//! The manifest resolver: extraction from manifest text, feature gating,
//! and the final package set.

use inwelling::manifest::{extract_manifest, ManifestError};
use inwelling::resolve::{
    resolve, resolve_sources, ManifestSource, RegistrantFeatures, ResolveEntry,
};
use inwelling::{Downstream, Opts, Package};

fn manifest_alpha() -> String {
    "[package]\nname = \"alpha\"\nversion = \"0.1.0\"\n\n[package.metadata.inwelling.echo]\nalpha = true\n"
        .to_string()
}

fn manifest_beta_no_section() -> String {
    "[package]\nname = \"beta\"\nversion = \"0.1.0\"\n".to_string()
}

fn manifest_gated(feature: &str) -> String {
    format!(
        "[package]\nname = \"gated\"\n\n[package.metadata.inwelling.echo]\nfeature = \"{}\"\nmarker = 1\n",
        feature
    )
}

fn source(path: &str, collectors: &[&str], text: String) -> ManifestSource {
    ManifestSource {
        manifest_path: path.to_string(),
        collectors: collectors.iter().map(|c| c.to_string()).collect(),
        text,
        rs_paths: Vec::new(),
    }
}

fn resolve_default(sources: Vec<ManifestSource>) -> Result<Downstream, String> {
    resolve_sources(sources, "echo", false, &Vec::new(), &Opts::default())
        .map_err(|e| e.manifest_path)
}

#[test]
fn extract_reads_name_and_section() {
    let data = extract_manifest(&manifest_alpha()).unwrap();
    assert_eq!(data.package_name, "alpha");
    assert_eq!(data.sections.len(), 1);
    assert_eq!(data.sections[0].collector, "echo");
    assert!(data.sections[0].feature_gate.is_none());
}

#[test]
fn extract_rejects_invalid_toml() {
    match extract_manifest("not = = toml") {
        Err(ManifestError::Parse { .. }) => {}
        other => panic!("expected a parse failure, got {:?}", other.is_ok()),
    }
}

#[test]
fn extract_rejects_missing_package_name() {
    assert!(matches!(
        extract_manifest("[dependencies]\nserde = \"1\"\n"),
        Err(ManifestError::MissingPackageName)
    ));
    assert!(matches!(
        extract_manifest("[package]\nname = 7\n"),
        Err(ManifestError::MissingPackageName)
    ));
}

#[test]
fn extract_rejects_non_string_gate() {
    let text = "[package]\nname = \"x\"\n\n[package.metadata.inwelling.echo]\nfeature = 3\n";
    match extract_manifest(text) {
        Err(ManifestError::GateNotString { collector }) => assert_eq!(collector, "echo"),
        _ => panic!("expected a gate error"),
    }
}

#[test]
fn extract_reads_gate() {
    let data = extract_manifest(&manifest_gated("fast")).unwrap();
    assert_eq!(data.sections[0].feature_gate.as_deref(), Some("fast"));
}

#[test]
fn registrant_with_metadata_is_resolved() {
    // scenario: registrant A registers with "echo" and declares
    // [package.metadata.inwelling.echo] alpha = true
    let d = resolve_default(vec![source("/w/alpha/Cargo.toml", &["echo"], manifest_alpha())])
        .unwrap();
    assert_eq!(d.packages.len(), 1);
    let p: &Package = &d.packages[0];
    assert_eq!(p.name, "alpha");
    assert_eq!(p.manifest, "/w/alpha/Cargo.toml");
    assert!(p.rs_paths.is_none());
    let expected: toml::Table = "alpha = true".parse().unwrap();
    assert_eq!(p.metadata, toml::Value::Table(expected));
}

#[test]
fn registrant_without_section_yields_nothing() {
    // scenario: registrant B registers with "echo" but declares no
    // inwelling.echo metadata section
    let d = resolve_default(vec![source(
        "/w/beta/Cargo.toml",
        &["echo"],
        manifest_beta_no_section(),
    )])
    .unwrap();
    assert!(d.packages.is_empty());
}

#[test]
fn registrant_for_other_collector_yields_nothing() {
    let d = resolve_default(vec![source("/w/alpha/Cargo.toml", &["other"], manifest_alpha())])
        .unwrap();
    assert!(d.packages.is_empty());
}

#[test]
fn resolved_set_is_exactly_the_registered_and_addressed() {
    let d = resolve_default(vec![
        source("/w/alpha/Cargo.toml", &["echo"], manifest_alpha()),
        source("/w/beta/Cargo.toml", &["echo"], manifest_beta_no_section()),
    ])
    .unwrap();
    let names: Vec<&str> = d.packages.iter().map(|p| p.name.as_str()).collect();
    assert_eq!(names, vec!["alpha"]);
}

#[test]
fn duplicate_collector_lines_resolve_once() {
    // the record held two "echo" lines; the resolver must produce a single
    // logical registration
    let d = resolve_default(vec![source(
        "/w/alpha/Cargo.toml",
        &["echo", "echo"],
        manifest_alpha(),
    )])
    .unwrap();
    assert_eq!(d.packages.len(), 1);
}

#[test]
fn parse_failure_of_registered_manifest_aborts() {
    let r = resolve_default(vec![
        source("/w/alpha/Cargo.toml", &["echo"], manifest_alpha()),
        source("/w/bad/Cargo.toml", &["echo"], "not = = toml".to_string()),
    ]);
    assert_eq!(r.unwrap_err(), "/w/bad/Cargo.toml");
}

#[test]
fn missing_package_name_aborts_resolution() {
    // a registered manifest that parses but declares no string package
    // name is a malformed artifact, fatal like a parse failure
    let r = resolve_sources(
        vec![source(
            "/w/anon/Cargo.toml",
            &["echo"],
            "[dependencies]\nserde = \"1\"\n".to_string(),
        )],
        "echo",
        false,
        &Vec::new(),
        &Opts::default(),
    );
    let e = r.unwrap_err();
    assert_eq!(e.manifest_path, "/w/anon/Cargo.toml");
    assert!(matches!(e.error, ManifestError::MissingPackageName));
}

#[test]
fn non_string_gate_aborts_resolution() {
    let text = "[package]\nname = \"x\"\n\n[package.metadata.inwelling.echo]\nfeature = 3\n";
    let r = resolve_sources(
        vec![source("/w/badgate/Cargo.toml", &["echo"], text.to_string())],
        "echo",
        false,
        &Vec::new(),
        &Opts::default(),
    );
    let e = r.unwrap_err();
    assert_eq!(e.manifest_path, "/w/badgate/Cargo.toml");
    match e.error {
        ManifestError::GateNotString { collector } => assert_eq!(collector, "echo"),
        _ => panic!("expected a gate error"),
    }
}

#[test]
fn first_failing_manifest_is_reported() {
    let r = resolve_sources(
        vec![
            source("/w/alpha/Cargo.toml", &["echo"], manifest_alpha()),
            source("/w/anon/Cargo.toml", &["echo"], "[dependencies]\n".to_string()),
            source("/w/bad/Cargo.toml", &["echo"], "not = = toml".to_string()),
        ],
        "echo",
        false,
        &Vec::new(),
        &Opts::default(),
    );
    let e = r.unwrap_err();
    assert_eq!(e.manifest_path, "/w/anon/Cargo.toml");
    assert!(matches!(e.error, ManifestError::MissingPackageName));
}

#[test]
fn parse_failure_of_unregistered_manifest_is_ignored() {
    // a manifest whose record does not list this collector is never read
    let d = resolve_default(vec![
        source("/w/alpha/Cargo.toml", &["echo"], manifest_alpha()),
        source("/w/bad/Cargo.toml", &["other"], "not = = toml".to_string()),
    ])
    .unwrap();
    assert_eq!(d.packages.len(), 1);
}

#[test]
fn gated_registrant_needs_its_feature() {
    let sources = || vec![source("/w/gated/Cargo.toml", &["echo"], manifest_gated("fast"))];
    // feature not enabled: no entry
    let d = resolve_sources(sources(), "echo", false, &Vec::new(), &Opts::default()).unwrap();
    assert!(d.packages.is_empty());
    // feature enabled for this registrant: one entry
    let env = vec![RegistrantFeatures {
        package: "gated".to_string(),
        features: vec!["fast".to_string()],
    }];
    let d = resolve_sources(sources(), "echo", false, &env, &Opts::default()).unwrap();
    assert_eq!(d.packages.len(), 1);
    // a different feature enabled: no entry
    let env = vec![RegistrantFeatures {
        package: "gated".to_string(),
        features: vec!["slow".to_string()],
    }];
    let d = resolve_sources(sources(), "echo", false, &env, &Opts::default()).unwrap();
    assert!(d.packages.is_empty());
}

#[test]
fn all_features_satisfies_any_gate() {
    let sources = vec![source("/w/gated/Cargo.toml", &["echo"], manifest_gated("fast"))];
    let d = resolve_sources(sources, "echo", true, &Vec::new(), &Opts::default()).unwrap();
    assert_eq!(d.packages.len(), 1);
}

#[test]
fn ungated_registration_is_unconditional() {
    let d = resolve_sources(
        vec![source("/w/alpha/Cargo.toml", &["echo"], manifest_alpha())],
        "echo",
        false,
        &Vec::new(),
        &Opts::default(),
    )
    .unwrap();
    assert_eq!(d.packages.len(), 1);
}

#[test]
fn dump_rs_paths_carries_listed_sources() {
    let data = extract_manifest(&manifest_alpha()).unwrap();
    let entry = ResolveEntry {
        manifest_path: "/w/alpha/Cargo.toml".to_string(),
        collectors: vec!["echo".to_string()],
        data,
        rs_paths: vec!["/w/alpha/src/lib.rs".to_string()],
    };
    let opts = Opts { watch_manifest: true, watch_rs_files: false, dump_rs_paths: true };
    let d = resolve(vec![entry], "echo", false, &Vec::new(), &opts);
    assert_eq!(
        d.packages[0].rs_paths.as_deref(),
        Some(&["/w/alpha/src/lib.rs".to_string()][..])
    );
}

#[test]
fn manifest_addressing_two_collectors() {
    let text = "[package]\nname = \"dual\"\n\n[package.metadata.inwelling.echo]\na = 1\n\n[package.metadata.inwelling.other]\nb = 2\n";
    let data = extract_manifest(text).unwrap();
    assert_eq!(data.sections.len(), 2);
    let mut collectors: Vec<&str> = data.sections.iter().map(|s| s.collector.as_str()).collect();
    collectors.sort();
    assert_eq!(collectors, vec!["echo", "other"]);
    // each collector resolves its own section
    let d = resolve_sources(
        vec![source("/w/dual/Cargo.toml", &["echo", "other"], text.to_string())],
        "other",
        false,
        &Vec::new(),
        &Opts::default(),
    )
    .unwrap();
    assert_eq!(d.packages.len(), 1);
    let expected: toml::Table = "b = 2".parse().unwrap();
    assert_eq!(d.packages[0].metadata, toml::Value::Table(expected));
}

#[test]
fn default_opts_watch_manifest_only() {
    let opts = Opts::default();
    assert!(opts.watch_manifest);
    assert!(!opts.watch_rs_files);
    assert!(!opts.dump_rs_paths);
    assert!(Downstream::default().packages.is_empty());
}
