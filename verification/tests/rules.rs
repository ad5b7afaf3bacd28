use zarr_lint_core::model::load;
use zarr_lint_core::rule::{
    evaluate, rules, ARRAY_RANK_MISMATCH, METADATA_INVALID_JSON, METADATA_MISSING_REQUIRED_FIELD,
    METADATA_UNSUPPORTED_FORMAT_VERSION, STRUCTURE_CONFLICTING_NODE_TYPE, STRUCTURE_UNRECOGNIZED_STORE,
};
use zarr_lint_core::scanner::{local_metadata_file, MetadataRole, StoreScan};
use zarr_lint_core::{Diagnostic, Severity};

fn components(path: &str) -> Vec<String> {
    path.split('/').filter(|part| !part.is_empty()).map(String::from).collect()
}

fn walk(root: &str, entries: &[(&str, &str)]) -> StoreScan {
    let root_parts = components(root);
    let mut files = Vec::new();
    for (rel, body) in entries {
        let path = format!("{root}/{rel}");
        let parts = components(&path);
        let name = parts.last().unwrap().clone();
        if let Some(role) = MetadataRole::from_file_name(&name) {
            files.push(local_metadata_file(role, &root_parts, &parts, path.clone(), body.as_bytes().to_vec()));
        }
    }
    StoreScan { root: root.to_string(), files }
}

fn run(entries: &[(&str, &str)]) -> Vec<Diagnostic> {
    let scan = walk("/tmp/store", entries);
    let loaded = load(&scan);
    evaluate(&scan, &loaded, "/tmp/store")
}

fn rule_ids(diags: &[Diagnostic]) -> Vec<&str> {
    diags.iter().map(|d| d.rule).collect()
}

#[test]
fn registry_has_six_documented_rules() {
    let registry = rules();
    assert_eq!(registry.len(), 6);
    for info in &registry {
        assert!(!info.id.is_empty());
        assert!(!info.summary.is_empty());
    }
}

#[test]
fn registry_lists_rules_in_documentation_order() {
    let ids: Vec<&str> = rules().iter().map(|r| r.id).collect();
    assert_eq!(
        ids,
        vec![
            STRUCTURE_UNRECOGNIZED_STORE,
            METADATA_INVALID_JSON,
            METADATA_MISSING_REQUIRED_FIELD,
            METADATA_UNSUPPORTED_FORMAT_VERSION,
            STRUCTURE_CONFLICTING_NODE_TYPE,
            ARRAY_RANK_MISMATCH,
        ]
    );
    assert!(rules().iter().all(|r| r.default_severity == Severity::Error));
}

#[test]
fn clean_v2_store_has_no_findings() {
    let diags = run(&[
        (".zgroup", r#"{"zarr_format":2}"#),
        ("t/.zarray", r#"{"zarr_format":2,"shape":[4,3],"chunks":[2,2],"dtype":"<f8"}"#),
    ]);
    assert!(diags.is_empty());
}

#[test]
fn unrecognized_store_fires_alone() {
    let diags = run(&[("readme.txt", "not zarr")]);
    assert_eq!(rule_ids(&diags), vec![STRUCTURE_UNRECOGNIZED_STORE]);
    assert_eq!(diags[0].path, "/tmp/store");
}

#[test]
fn invalid_json_is_reported_with_detail() {
    let diags = run(&[(".zgroup", r#"{"zarr_format":2}"#), ("bad/.zarray", "{not json")]);
    assert_eq!(rule_ids(&diags), vec![METADATA_INVALID_JSON]);
    assert!(diags[0].detail.is_some());
    assert_eq!(diags[0].path, "bad/.zarray");
}

#[test]
fn missing_zarr_format_is_reported() {
    let diags = run(&[
        (".zgroup", r#"{"zarr_format":2}"#),
        ("t/.zarray", r#"{"shape":[4,3],"chunks":[2,2],"dtype":"<f8"}"#),
    ]);
    assert_eq!(rule_ids(&diags), vec![METADATA_MISSING_REQUIRED_FIELD]);
    assert!(diags[0].message.contains("zarr_format"));
}

#[test]
fn v3_missing_node_type_reports_only_node_type() {
    let diags = run(&[("zarr.json", r#"{"zarr_format":3,"node_type":"group"}"#), ("a/zarr.json", r#"{"zarr_format":3}"#)]);
    assert_eq!(rule_ids(&diags), vec![METADATA_MISSING_REQUIRED_FIELD]);
    assert!(diags[0].message.contains("node_type"));
}

#[test]
fn unsupported_format_version_is_reported() {
    let diags = run(&[
        (".zgroup", r#"{"zarr_format":2}"#),
        ("t/.zarray", r#"{"zarr_format":9,"shape":[2],"chunks":[2],"dtype":"<i4"}"#),
    ]);
    assert_eq!(rule_ids(&diags), vec![METADATA_UNSUPPORTED_FORMAT_VERSION]);
}

#[test]
fn conflicting_markers_are_reported() {
    let diags = run(&[
        (".zgroup", r#"{"zarr_format":2}"#),
        ("both/.zarray", r#"{"zarr_format":2,"shape":[2],"chunks":[2],"dtype":"<i4"}"#),
        ("both/.zgroup", r#"{"zarr_format":2}"#),
    ]);
    assert_eq!(rule_ids(&diags), vec![STRUCTURE_CONFLICTING_NODE_TYPE]);
    assert_eq!(diags[0].path, "both");
}

#[test]
fn rank_mismatch_is_reported_for_both_versions() {
    let diags = run(&[
        (".zgroup", r#"{"zarr_format":2}"#),
        ("t/.zarray", r#"{"zarr_format":2,"shape":[4,3],"chunks":[2],"dtype":"<f8"}"#),
    ]);
    assert_eq!(rule_ids(&diags), vec![ARRAY_RANK_MISMATCH]);
    assert!(diags[0].message.contains("rank"));

    let v3 = run(&[(
        "zarr.json",
        r#"{"zarr_format":3,"node_type":"array","shape":[4,3],
            "chunk_grid":{"name":"regular","configuration":{"chunk_shape":[2]}}}"#,
    )]);
    assert_eq!(rule_ids(&v3), vec![ARRAY_RANK_MISMATCH]);
}

#[test]
fn rank_mismatch_message_and_detail_are_exact() {
    let diags = run(&[
        (".zgroup", r#"{"zarr_format":2}"#),
        ("t/.zarray", r#"{"zarr_format":2,"shape":[4,3],"chunks":[2],"dtype":"<f8"}"#),
    ]);
    assert_eq!(diags[0].message, "Array shape rank (2) does not match chunk shape rank (1).");
    assert_eq!(diags[0].detail.as_deref(), Some("shape [4, 3], chunks [2]"));
    assert_eq!(diags[0].path, "t/.zarray");
}

#[test]
fn v2_and_v3_markers_at_one_path_conflict() {
    let diags = run(&[(".zgroup", r#"{"zarr_format":2}"#), ("zarr.json", r#"{"zarr_format":3,"node_type":"group"}"#)]);
    assert_eq!(rule_ids(&diags), vec![STRUCTURE_CONFLICTING_NODE_TYPE]);
    assert_eq!(diags[0].path, "/tmp/store");
    assert_eq!(diags[0].detail.as_deref(), Some("Found: .zgroup, zarr.json"));
}

#[test]
fn v3_unusable_node_type_is_reported_as_missing() {
    let diags = run(&[("zarr.json", r#"{"zarr_format":3,"node_type":"group"}"#), ("a/zarr.json", r#"{"zarr_format":3,"node_type":"foo"}"#)]);
    assert_eq!(rule_ids(&diags), vec![METADATA_MISSING_REQUIRED_FIELD]);
    assert_eq!(diags[0].message, "Required field `node_type` is missing.");
    assert_eq!(diags[0].path, "a/zarr.json");
    let numeric = run(&[("zarr.json", r#"{"zarr_format":3,"node_type":7}"#)]);
    assert_eq!(rule_ids(&numeric), vec![METADATA_MISSING_REQUIRED_FIELD]);
}
