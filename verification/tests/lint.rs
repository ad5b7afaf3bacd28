use zarr_lint_core::cli::version_line;
use zarr_lint_core::scanner::{check_local_root, local_metadata_file, MetadataRole, RootStatus, ScanError, StoreScan};
use zarr_lint_core::{lint_store, lint_store_with, load_store, LintError, Severity, VERSION};

fn components(path: &str) -> Vec<String> {
    path.split('/').filter(|part| !part.is_empty()).map(String::from).collect()
}

fn walk(root: &str, entries: &[(&str, &str)]) -> StoreScan {
    let root_parts = components(root);
    let mut files = Vec::new();
    for (rel, body) in entries {
        let path = format!("{root}/{rel}");
        let parts = components(&path);
        let name = parts.last().unwrap().clone();
        if let Some(role) = MetadataRole::from_file_name(&name) {
            files.push(local_metadata_file(role, &root_parts, &parts, path.clone(), body.as_bytes().to_vec()));
        }
    }
    StoreScan { root: root.to_string(), files }
}

#[test]
fn version_is_populated_from_cargo() {
    assert_eq!(VERSION, "0.0.1");
    assert!(!VERSION.is_empty());
}

#[test]
fn cli_and_core_versions_agree() {
    assert_eq!(version_line(), format!("zarr-lint {}", VERSION));
}

#[test]
fn report_is_sorted_and_counts_match() {
    // Two arrays with distinct problems, discovered out of sorted order.
    let scan = walk(
        "/tmp/store",
        &[
            (".zgroup", r#"{"zarr_format":2}"#),
            ("z_arr/.zarray", r#"{"zarr_format":2,"shape":[4,3],"chunks":[2],"dtype":"<f8"}"#),
            ("a_arr/.zarray", "{bad"),
        ],
    );
    let report = lint_store_with("/tmp/store", &scan);
    let paths: Vec<&str> = report.diagnostics.iter().map(|d| d.path.as_str()).collect();
    assert_eq!(paths, vec!["a_arr/.zarray", "z_arr/.zarray"]);
    assert_eq!(report.counts(), (2, 0, 0));
    assert!(report.has_at_or_above(Severity::Error));
    assert!(report.has_at_or_above(Severity::Warning));
}

#[test]
fn missing_store_is_a_lint_error() {
    let target = "/no/such/store/zzz";
    let scanned = check_local_root(target, RootStatus::Missing).map(|()| walk(target, &[]));
    let err = lint_store(target, scanned).unwrap_err();
    assert!(matches!(err, LintError::Scan(ScanError::NotFound(_))));
    assert_eq!(err.message(), "store path does not exist: /no/such/store/zzz");
}

#[test]
fn report_names_store_and_version() {
    let scan = walk("/tmp/s", &[(".zgroup", r#"{"zarr_format":2}"#)]);
    let report = lint_store("/tmp/s", Ok(scan)).unwrap();
    assert_eq!(report.version, "0.0.1");
    assert_eq!(report.store, "/tmp/s");
    assert!(report.diagnostics.is_empty());
    assert_eq!(report.counts(), (0, 0, 0));
    assert!(!report.has_at_or_above(Severity::Info));
}

#[test]
fn equal_paths_are_ordered_by_rule() {
    // `t/.zarray` is missing `zarr_format` and has a rank mismatch: both
    // findings share the path, so the rule names decide the order.
    let scan = walk(
        "/tmp/s",
        &[(".zgroup", r#"{"zarr_format":2}"#), ("t/.zarray", r#"{"shape":[4,3],"chunks":[2],"dtype":"<f8"}"#)],
    );
    let report = lint_store_with("/tmp/s", &scan);
    let rules: Vec<&str> = report.diagnostics.iter().map(|d| d.rule).collect();
    assert_eq!(rules, vec!["array/rank-mismatch", "metadata/missing-required-field"]);
}

#[test]
fn load_store_parses_without_rules() {
    let scan = walk(
        "/tmp/s",
        &[(".zgroup", r#"{"zarr_format":2}"#), ("bad/.zarray", "{nope")],
    );
    let (scan, loaded) = load_store(Ok(scan)).unwrap();
    assert_eq!(scan.files.len(), 2);
    assert_eq!(loaded.parsed.len(), 1);
    assert_eq!(loaded.parse_failures.len(), 1);
    assert_eq!(loaded.parse_failures[0].rel_display, "bad/.zarray");
    let err = load_store(Err(ScanError::Walk("cycle".into()))).unwrap_err();
    assert!(matches!(err, LintError::Scan(ScanError::Walk(_))));
}

#[test]
fn discovery_order_does_not_change_the_report() {
    let entries = [
        (".zgroup", r#"{"zarr_format":2}"#),
        ("a/.zarray", r#"{"zarr_format":2,"shape":[1],"chunks":[1]}"#),
        ("a/.zgroup", r#"{"zarr_format":2}"#),
        ("b/zarr.json", r#"{"zarr_format":3,"node_type":"array","shape":[4,3],"chunk_grid":{"configuration":{"chunk_shape":[2]}}}"#),
        ("b/.zgroup", r#"{"zarr_format":7}"#),
        ("c/.zarray", "{bad"),
        ("d/.zarray", r#"{"shape":[2]}"#),
    ];
    let forward = lint_store_with("/tmp/s", &walk("/tmp/s", &entries));
    let mut reversed_entries = entries;
    reversed_entries.reverse();
    let backward = lint_store_with("/tmp/s", &walk("/tmp/s", &reversed_entries));
    assert_eq!(format!("{:?}", forward.diagnostics), format!("{:?}", backward.diagnostics));
    assert!(forward.diagnostics.len() >= 6);
}
