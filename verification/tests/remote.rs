use zarr_lint_core::remote::{join, RemoteProgress, RemoteScan};
use zarr_lint_core::scanner::{MetadataRole, StoreScan};
use zarr_lint_core::lint_store_with;

/// Run a remote discovery against fixed responses: a URL that is not listed
/// answers "not found".
fn scan_with(root: &str, responses: &[(&str, &str)]) -> StoreScan {
    let mut scan = RemoteScan::new(root);
    loop {
        let url = scan.next_url();
        let body = responses.iter().find(|(u, _)| *u == url).map(|(_, b)| b.as_bytes().to_vec());
        match scan.advance(body) {
            RemoteProgress::Finished(done) => return done,
            RemoteProgress::Pending(next) => scan = next,
        }
    }
}

fn displays(scan: &StoreScan) -> Vec<String> {
    let mut d: Vec<String> = scan.files.iter().map(|f| f.rel_display.clone()).collect();
    d.sort();
    d
}

#[test]
fn v2_consolidated_discovers_all_nodes() {
    let consolidated = r#"{
        "zarr_consolidated_format": 1,
        "metadata": {
            ".zgroup": {"zarr_format": 2},
            ".zattrs": {"note": "ignored"},
            "temperature/.zarray": {"zarr_format": 2, "shape": [4, 3], "chunks": [2, 2]},
            "stations/.zgroup": {"zarr_format": 2},
            "stations/elevation/.zarray": {"zarr_format": 2, "shape": [2], "chunks": [2]}
        }
    }"#;
    let scan = scan_with("https://h/s.zarr", &[("https://h/s.zarr/.zmetadata", consolidated)]);
    assert_eq!(
        displays(&scan),
        vec![".zgroup", "stations/.zgroup", "stations/elevation/.zarray", "temperature/.zarray"]
    );
    let temp = scan.files.iter().find(|f| f.rel_display == "temperature/.zarray").unwrap();
    assert_eq!(temp.location, "temperature");
    assert_eq!(temp.source, "https://h/s.zarr/temperature/.zarray");
}

#[test]
fn v3_root_without_consolidation_yields_root_only() {
    let root = r#"{"zarr_format": 3, "node_type": "group"}"#;
    let scan = scan_with("https://h/s.zarr", &[("https://h/s.zarr/zarr.json", root)]);
    assert_eq!(displays(&scan), vec!["zarr.json"]);
    assert_eq!(scan.files[0].role, MetadataRole::V3Node);
}

#[test]
fn v3_consolidated_expands_children() {
    let root = r#"{
        "zarr_format": 3,
        "node_type": "group",
        "consolidated_metadata": {
            "kind": "inline",
            "metadata": {
                "temp": {"zarr_format": 3, "node_type": "array", "shape": [2]}
            }
        }
    }"#;
    let scan = scan_with("https://h/s.zarr", &[("https://h/s.zarr/zarr.json", root)]);
    assert_eq!(displays(&scan), vec!["temp/zarr.json", "zarr.json"]);
}

#[test]
fn remote_files_are_listed_in_sorted_order() {
    let root = r#"{"zarr_format": 3, "node_type": "group",
        "consolidated_metadata": {"kind": "inline", "metadata": {"temp": {"zarr_format": 3, "node_type": "array", "shape": [2]}}}}"#;
    let scan = scan_with("https://h/s.zarr", &[("https://h/s.zarr/zarr.json", root)]);
    let order: Vec<&str> = scan.files.iter().map(|f| f.rel_display.as_str()).collect();
    assert_eq!(order, vec!["temp/zarr.json", "zarr.json"]);
    assert!(scan.files.iter().all(|f| f.role == MetadataRole::V3Node));
    assert_eq!(scan.files[0].location, "temp");
    assert_eq!(scan.files[0].source, "https://h/s.zarr/temp/zarr.json");
    let markers = scan_with(
        "https://h/s.zarr",
        &[("https://h/s.zarr/.zgroup", r#"{"zarr_format": 2}"#), ("https://h/s.zarr/.zarray", r#"{"zarr_format": 2}"#)],
    );
    let order: Vec<&str> = markers.files.iter().map(|f| f.rel_display.as_str()).collect();
    assert_eq!(order, vec![".zarray", ".zgroup"]);
}

#[test]
fn v2_root_marker_fallback() {
    let scan = scan_with("https://h/s.zarr", &[("https://h/s.zarr/.zgroup", r#"{"zarr_format": 2}"#)]);
    assert_eq!(displays(&scan), vec![".zgroup"]);
}

#[test]
fn nothing_found_is_unrecognized() {
    let scan = scan_with("https://h/s.zarr", &[]);
    assert!(!scan.is_recognized());
}

#[test]
fn trailing_slash_root_joins_cleanly() {
    let scan = scan_with("https://h/s.zarr/", &[("https://h/s.zarr/.zgroup", r#"{"zarr_format": 2}"#)]);
    assert_eq!(scan.files[0].source, "https://h/s.zarr/.zgroup");
}

#[test]
fn probes_follow_the_documented_order() {
    let mut scan = RemoteScan::new("https://h/s.zarr");
    let mut urls = Vec::new();
    loop {
        urls.push(scan.next_url());
        match scan.advance(None) {
            RemoteProgress::Finished(done) => {
                assert!(done.files.is_empty());
                break;
            },
            RemoteProgress::Pending(next) => scan = next,
        }
    }
    assert_eq!(
        urls,
        vec![
            "https://h/s.zarr/.zmetadata",
            "https://h/s.zarr/zarr.json",
            "https://h/s.zarr/.zgroup",
            "https://h/s.zarr/.zarray",
        ]
    );
}

#[test]
fn invalid_consolidated_metadata_falls_back_to_markers() {
    let scan = scan_with(
        "https://h/s.zarr",
        &[("https://h/s.zarr/.zmetadata", "{not json"), ("https://h/s.zarr/.zarray", r#"{"zarr_format": 2}"#)],
    );
    assert_eq!(displays(&scan), vec![".zarray"]);
    assert_eq!(scan.files[0].role, MetadataRole::V2Array);
    assert_eq!(scan.files[0].location, "");
}

#[test]
fn join_inserts_one_separator() {
    assert_eq!(join("https://h/s.zarr", ".zgroup"), "https://h/s.zarr/.zgroup");
    assert_eq!(join("https://h/s.zarr/", "a/zarr.json"), "https://h/s.zarr/a/zarr.json");
}

#[test]
fn remote_consolidated_store_is_linted() {
    let consolidated = r#"{"zarr_consolidated_format":1,"metadata":{
        ".zgroup":{"zarr_format":2},
        "t/.zarray":{"zarr_format":2,"shape":[4,3],"chunks":[2]}
    }}"#;
    let scan = scan_with("http://127.0.0.1:1/s.zarr", &[("http://127.0.0.1:1/s.zarr/.zmetadata", consolidated)]);
    let report = lint_store_with("http://127.0.0.1:1/s.zarr", &scan);
    let rules: Vec<&str> = report.diagnostics.iter().map(|d| d.rule).collect();
    assert_eq!(rules, vec!["array/rank-mismatch"]);
}
