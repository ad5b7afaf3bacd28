use zarr_lint_core::format::{
    canonical_json, check_written, confirm_formatted, format_document, format_store_check, is_metadata_file,
    looks_like_url, plan_format_store, FormatChange, FormatError, FormatPlan, MetadataDocument, V2_ATTRS_FILE,
    V2_CONSOLIDATED_FILE,
};
use zarr_lint_core::json_codec::{json_equal, parse_json};
use zarr_lint_core::scanner::{local_metadata_file, MetadataRole, StoreScan, V2_ARRAY_FILE, V2_GROUP_FILE, V3_NODE_FILE};
use zarr_lint_core::{lint_store, LintError, Report};

fn components(path: &str) -> Vec<String> {
    path.split('/').filter(|part| !part.is_empty()).map(String::from).collect()
}

/// The lint report and the covered metadata documents of a store whose files
/// are `entries` (in walk order).
fn read_store(
    root: &str,
    entries: &[(&str, &str)],
) -> (Result<Report, LintError>, Result<Vec<MetadataDocument>, FormatError>) {
    let root_parts = components(root);
    let mut files = Vec::new();
    let mut documents = Vec::new();
    let mut failed = None;
    for (rel, body) in entries {
        let path = format!("{root}/{rel}");
        let parts = components(&path);
        let name = parts.last().unwrap().clone();
        if let Some(role) = MetadataRole::from_file_name(&name) {
            files.push(local_metadata_file(role, &root_parts, &parts, path.clone(), body.as_bytes().to_vec()));
        }
        if failed.is_none() && is_metadata_file(&name) {
            match format_document(&root_parts, &parts, path.clone(), body.as_bytes().to_vec()) {
                Ok(document) => documents.push(document),
                Err(err) => failed = Some(err),
            }
        }
    }
    let report = lint_store(root, Ok(StoreScan { root: root.to_string(), files }));
    let documents = match failed {
        Some(err) => Err(err),
        None => Ok(documents),
    };
    (report, documents)
}

fn plan(root: &str, entries: &[(&str, &str)]) -> Result<FormatPlan, FormatError> {
    let (report, documents) = read_store(root, entries);
    plan_format_store(root, report, documents)
}

#[test]
fn plan_reports_noncanonical_metadata_only() {
    let plan = plan(
        "/tmp/fmt",
        &[
            (".zattrs", r#"{"b":2,"a":[{"d":4,"c":3}]}"#),
            (".zgroup", "{\n  \"zarr_format\": 2\n}\n"),
            ("note.json", r#"{"z":0}"#),
        ],
    )
    .unwrap();
    let changed: Vec<&str> = plan.changes.iter().map(|change| change.rel_display.as_str()).collect();
    assert_eq!(changed, vec![".zattrs"]);
    assert_eq!(plan.unchanged, vec![".zgroup".to_string()]);
}

#[test]
fn write_is_idempotent_and_keeps_array_order() {
    let original = r#"{"b":[3,2,1],"a":{"d":4,"c":3}}"#;
    let group = "{\n  \"zarr_format\": 2\n}\n";
    let first = plan("/tmp/fmt", &[(".zattrs", original), (".zgroup", group)]).unwrap();
    assert_eq!(first.changes.len(), 1);
    let change = &first.changes[0];
    let text = String::from_utf8(change.formatted_bytes.clone()).unwrap();
    assert_eq!(text, "{\n  \"a\": {\n    \"c\": 3,\n    \"d\": 4\n  },\n  \"b\": [\n    3,\n    2,\n    1\n  ]\n}\n");
    assert!(check_written(change, &change.formatted_bytes).is_ok());

    let second = plan("/tmp/fmt", &[(".zattrs", &text), (".zgroup", group)]);
    let second = confirm_formatted("/tmp/fmt", first, second).unwrap();
    assert_eq!(second.changes.len(), 1);
    let again = plan("/tmp/fmt", &[(".zattrs", &text), (".zgroup", group)]).unwrap();
    assert!(again.is_empty());
}

#[test]
fn invalid_metadata_is_refused() {
    let err = plan("/tmp/fmt", &[(".zattrs", "{bad"), (".zgroup", r#"{"zarr_format":2}"#)]).unwrap_err();
    assert!(matches!(err, FormatError::InvalidJson { path, .. } if path == ".zattrs"));
}

#[test]
fn unsafe_zarr_metadata_is_refused() {
    let err = plan(
        "/tmp/fmt",
        &[(".zgroup", r#"{"zarr_format":2}"#), ("a/.zarray", r#"{"zarr_format":2,"shape":[2,2],"chunks":[2]}"#)],
    )
    .unwrap_err();
    assert!(matches!(err, FormatError::UnsafeMetadata));
}

#[test]
fn remote_targets_are_refused() {
    let target = "https://example.com/a.zarr";
    let report = lint_store(target, Ok(StoreScan { root: target.to_string(), files: vec![] }));
    let err = plan_format_store(target, report, Ok(vec![])).unwrap_err();
    assert!(matches!(err, FormatError::NonLocalStore));
}

#[test]
fn metadata_file_names_are_exact() {
    assert!(is_metadata_file(V2_GROUP_FILE));
    assert!(is_metadata_file(V2_ARRAY_FILE));
    assert!(is_metadata_file(V3_NODE_FILE));
    assert!(is_metadata_file(V2_ATTRS_FILE));
    assert!(is_metadata_file(V2_CONSOLIDATED_FILE));
    assert!(!is_metadata_file("metadata.json"));
    assert!(!is_metadata_file("0.0"));
}

#[test]
fn consolidated_metadata_can_define_the_store_for_fmt() {
    let plan = plan(
        "/tmp/fmt",
        &[(".zmetadata", r#"{"metadata":{".zgroup":{"zarr_format":2}},"zarr_consolidated_format":1}"#)],
    )
    .unwrap();
    assert_eq!(plan.changes.len(), 1);
    assert_eq!(plan.changes[0].rel_display, ".zmetadata");
    let text = String::from_utf8(plan.changes[0].formatted_bytes.clone()).unwrap();
    assert_eq!(
        text,
        "{\n  \"metadata\": {\n    \".zgroup\": {\n      \"zarr_format\": 2\n    }\n  },\n  \"zarr_consolidated_format\": 1\n}\n"
    );
}

#[test]
fn attrs_alone_do_not_define_a_store_for_fmt() {
    let err = plan("/tmp/fmt", &[(".zattrs", r#"{"a":1}"#)]).unwrap_err();
    assert!(matches!(err, FormatError::UnrecognizedStore(_)));
}

#[test]
fn fmt_check_reports_whether_changes_are_needed() {
    let needed = plan("/tmp/fmt", &[(".zgroup", r#"{"zarr_format":2}"#)]);
    assert_eq!(format_store_check(needed).unwrap(), true);
    let clean = plan("/tmp/fmt", &[(".zgroup", "{\n  \"zarr_format\": 2\n}\n")]);
    assert_eq!(format_store_check(clean).unwrap(), false);
    assert!(matches!(format_store_check(Err(FormatError::UnsafeMetadata)), Err(FormatError::UnsafeMetadata)));
}

#[test]
fn lint_failure_and_walk_failure_are_passed_on() {
    let err = plan_format_store("/tmp/x", Err(LintError::Scan(zarr_lint_core::ScanError::NotFound("/tmp/x".into()))), Ok(vec![]))
        .unwrap_err();
    assert_eq!(err.message(), "store path does not exist: /tmp/x");
    let (report, _) = read_store("/tmp/x", &[(".zgroup", r#"{"zarr_format":2}"#)]);
    let err = plan_format_store("/tmp/x", report, Err(FormatError::Walk("loop".into()))).unwrap_err();
    assert_eq!(err.message(), "failed to traverse store: loop");
}

#[test]
fn nested_documents_use_store_relative_paths() {
    let plan = plan(
        "/tmp/fmt",
        &[(".zgroup", "{\n  \"zarr_format\": 2\n}\n"), ("g/.zattrs", r#"{"y":1,"x":2}"#)],
    )
    .unwrap();
    assert_eq!(plan.changes.len(), 1);
    assert_eq!(plan.changes[0].rel_display, "g/.zattrs");
    assert_eq!(plan.changes[0].path, "/tmp/fmt/g/.zattrs");
    assert_eq!(plan.changes[0].original_bytes, br#"{"y":1,"x":2}"#.to_vec());
}

#[test]
fn written_bytes_must_parse_to_the_planned_value() {
    let change = FormatChange {
        rel_display: ".zattrs".into(),
        path: "/tmp/fmt/.zattrs".into(),
        original_bytes: br#"{"a":1}"#.to_vec(),
        formatted_bytes: b"{\n  \"a\": 1\n}\n".to_vec(),
    };
    assert!(check_written(&change, &br#"{"a":1}"#.to_vec()).is_ok());
    let err = check_written(&change, &br#"{"a":2}"#.to_vec()).unwrap_err();
    assert!(matches!(err, FormatError::SemanticMismatch(p) if p == ".zattrs"));
    let err = check_written(&change, &b"{".to_vec()).unwrap_err();
    assert!(matches!(err, FormatError::InvalidJson { path, .. } if path == ".zattrs"));
}

#[test]
fn confirm_refuses_a_store_that_still_needs_changes() {
    let leftover = plan("/tmp/fmt", &[(".zgroup", r#"{"zarr_format":2}"#)]);
    let err = confirm_formatted("/tmp/fmt", FormatPlan { changes: vec![], unchanged: vec![] }, leftover).unwrap_err();
    assert!(matches!(err, FormatError::SemanticMismatch(t) if t == "/tmp/fmt"));
}

#[test]
fn url_detection_for_fmt() {
    assert!(looks_like_url("https://example.com/a.zarr"));
    assert!(looks_like_url("s3://b/x"));
    assert!(!looks_like_url("://x"));
    assert!(!looks_like_url("1a://x"));
    assert!(!looks_like_url("a://"));
    assert!(!looks_like_url("/tmp/a.zarr"));
}

#[test]
fn canonical_json_sorts_members_and_ends_with_newline() {
    let value = parse_json(br#"{"b":{"z":1,"y":[{"k":2,"j":1}]},"a":null}"#).unwrap();
    let bytes = canonical_json(&value);
    let text = String::from_utf8(bytes).unwrap();
    assert_eq!(
        text,
        "{\n  \"a\": null,\n  \"b\": {\n    \"y\": [\n      {\n        \"j\": 1,\n        \"k\": 2\n      }\n    ],\n    \"z\": 1\n  }\n}\n"
    );
}

#[test]
fn format_error_messages() {
    assert_eq!(FormatError::NonLocalStore.message(), "fmt only supports local filesystem stores");
    assert_eq!(FormatError::UnrecognizedStore("/s".into()).message(), "no Zarr metadata found in /s");
    assert_eq!(
        FormatError::UnsafeMetadata.message(),
        "store has metadata problems; run `zarr-lint check` before formatting"
    );
    assert_eq!(
        FormatError::InvalidJson { path: ".zattrs".into(), message: "EOF".into() }.message(),
        "cannot format invalid JSON in .zattrs: EOF"
    );
    assert_eq!(
        FormatError::SemanticMismatch(".zattrs".into()).message(),
        "proposed formatting changed parsed metadata semantics for .zattrs"
    );
    assert_eq!(
        FormatError::Io { path: "/s/.zattrs".into(), message: "denied".into() }.message(),
        "failed to write /s/.zattrs: denied"
    );
}

#[test]
fn formatting_keeps_parsed_values() {
    let original = r#"{"z":[1,{"b":null,"a":-2}],"y":"t","x":{"q":true,"p":1.5}}"#;
    let planned = plan("/tmp/fmt", &[(".zattrs", original), (".zgroup", "{\n  \"zarr_format\": 2\n}\n")]).unwrap();
    let change = &planned.changes[0];
    let before = parse_json(&change.original_bytes).unwrap();
    let after = parse_json(&change.formatted_bytes).unwrap();
    assert!(json_equal(&before, &after));
    assert_ne!(change.original_bytes, change.formatted_bytes);
}
