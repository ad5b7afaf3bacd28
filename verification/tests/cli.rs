use zarr_lint_core::cli::{
    check_exit_code, fmt_exit_code, fmt_lines, fmt_report, inspect_lines, report_lines, rules_json, split_lines,
    version_lines, FailOn, FmtMode,
};
use zarr_lint_core::exit;
use zarr_lint_core::format::{
    format_document, is_metadata_file, plan_format_store, require_local_target, FormatChange, FormatError, FormatPlan,
};
use zarr_lint_core::json::JsonValue;
use zarr_lint_core::json_codec::{parse_json, to_pretty_bytes};
use zarr_lint_core::scanner::{local_metadata_file, MetadataRole, ScanError, StoreScan};
use zarr_lint_core::{lint_store, load_store, Diagnostic, LintError, Report, Severity};

fn components(path: &str) -> Vec<String> {
    path.split('/').filter(|part| !part.is_empty()).map(String::from).collect()
}

fn walk(root: &str, entries: &[(&str, &str)]) -> StoreScan {
    let root_parts = components(root);
    let mut files = Vec::new();
    for (rel, body) in entries {
        let path = format!("{root}/{rel}");
        let parts = components(&path);
        let name = parts.last().unwrap().clone();
        if let Some(role) = MetadataRole::from_file_name(&name) {
            files.push(local_metadata_file(role, &root_parts, &parts, path.clone(), body.as_bytes().to_vec()));
        }
    }
    StoreScan { root: root.to_string(), files }
}

/// Plan formatting for a local store whose files are `entries` (walk order).
fn plan_store(root: &str, entries: &[(&str, &str)]) -> Result<FormatPlan, FormatError> {
    require_local_target(root)?;
    let root_parts = components(root);
    let mut documents = Vec::new();
    for (rel, body) in entries {
        let path = format!("{root}/{rel}");
        let parts = components(&path);
        if is_metadata_file(parts.last().unwrap()) {
            documents.push(format_document(&root_parts, &parts, path.clone(), body.as_bytes().to_vec())?);
        }
    }
    let report = lint_store(root, Ok(walk(root, entries)));
    plan_format_store(root, report, Ok(documents))
}

fn report_with(severities: &[Severity]) -> Report {
    let diagnostics = severities
        .iter()
        .map(|s| Diagnostic::new("array/rank-mismatch", *s, "t/.zarray".to_string(), "m".to_string()))
        .collect();
    Report { version: "0.0.1", store: "s".to_string(), diagnostics }
}

fn change(rel: &str) -> FormatChange {
    FormatChange {
        rel_display: rel.to_string(),
        path: format!("/s/{rel}"),
        original_bytes: b"{}".to_vec(),
        formatted_bytes: b"{}\n".to_vec(),
    }
}

#[test]
fn fail_on_thresholds_decide_the_exit_code() {
    let warnings = Ok(report_with(&[Severity::Warning]));
    assert_eq!(check_exit_code(&warnings, FailOn::Error), exit::OK);
    assert_eq!(check_exit_code(&warnings, FailOn::Warning), exit::FINDINGS);
    let errors = Ok(report_with(&[Severity::Info, Severity::Error]));
    assert_eq!(check_exit_code(&errors, FailOn::Error), exit::FINDINGS);
    assert_eq!(check_exit_code(&errors, FailOn::Never), exit::OK);
    let infos = Ok(report_with(&[Severity::Info]));
    assert_eq!(check_exit_code(&infos, FailOn::Warning), exit::OK);
    let failed: Result<Report, LintError> = Err(LintError::Scan(ScanError::NotFound("x".into())));
    assert_eq!(check_exit_code(&failed, FailOn::Never), exit::FAILURE);
    assert_eq!(exit::USAGE, 2);
}

#[test]
fn fail_on_never_exits_zero_despite_findings() {
    let scan = walk(
        "/tmp/rank",
        &[(".zgroup", r#"{"zarr_format":2}"#), ("t/.zarray", r#"{"zarr_format":2,"shape":[4,3],"chunks":[2]}"#)],
    );
    let outcome = lint_store("/tmp/rank", Ok(scan));
    assert_eq!(check_exit_code(&outcome, FailOn::Never), exit::OK);
    let lines = report_lines(outcome.as_ref().unwrap(), false);
    assert!(lines.iter().any(|l| l.contains("array/rank-mismatch")));
}

#[test]
fn check_text_shows_findings_and_summary() {
    let scan = walk(
        "/tmp/rank",
        &[(".zgroup", r#"{"zarr_format":2}"#), ("temperature/.zarray", r#"{"zarr_format":2,"shape":[4,3],"chunks":[2]}"#)],
    );
    let report = lint_store("/tmp/rank", Ok(scan)).unwrap();
    assert_eq!(
        report_lines(&report, false),
        vec![
            "error[array/rank-mismatch] temperature/.zarray",
            "  Array shape rank (2) does not match chunk shape rank (1).",
            "",
            "  Caused by:",
            "    shape [4, 3], chunks [2]",
            "",
            "1 finding(s): 1 error(s), 0 warning(s), 0 info.",
        ]
    );
    assert_eq!(report_lines(&report, true).len(), 6);
}

#[test]
fn clean_store_text_says_no_problems() {
    let report = lint_store("/tmp/ok", Ok(walk("/tmp/ok", &[(".zgroup", r#"{"zarr_format":2}"#)]))).unwrap();
    assert_eq!(report_lines(&report, false), vec!["No problems found in /tmp/ok."]);
    assert!(report_lines(&report, true).is_empty());
}

#[test]
fn detail_lines_are_split_like_str_lines() {
    assert_eq!(split_lines("a\nb\r\nc"), vec!["a", "b", "c"]);
    assert_eq!(split_lines("a\n"), vec!["a"]);
    assert_eq!(split_lines(""), Vec::<String>::new());
    assert_eq!(split_lines("\n\nx\r"), vec!["", "", "x\r"]);
    let d = Diagnostic::new("metadata/invalid-json", Severity::Error, "p".into(), "m".into())
        .with_detail("one\ntwo".into());
    let report = Report { version: "0.0.1", store: "s".into(), diagnostics: vec![d] };
    assert_eq!(report_lines(&report, true), vec!["error[metadata/invalid-json] p", "  m", "", "  Caused by:", "    one", "    two", ""]);
}

#[test]
fn fmt_check_fails_when_formatting_is_needed() {
    let outcome = plan_store("/tmp/fmt", &[(".zattrs", r#"{"b":2,"a":1}"#), (".zgroup", "{\n  \"zarr_format\": 2\n}\n")]);
    assert_eq!(fmt_exit_code(FmtMode::Check, &outcome), exit::FINDINGS);
    let lines = fmt_lines(FmtMode::Check, outcome.as_ref().unwrap());
    assert!(lines.join("\n").contains("1 metadata file"));
    let clean = FormatPlan { changes: vec![], unchanged: vec![".zgroup".into()] };
    assert_eq!(fmt_lines(FmtMode::Check, &clean), vec!["All metadata files are formatted."]);
    assert_eq!(fmt_exit_code(FmtMode::Check, &Ok(clean)), exit::OK);
}

#[test]
fn fmt_json_output_reports_changes() {
    let outcome = plan_store("/tmp/fmt", &[(".zattrs", r#"{"b":2,"a":1}"#), (".zgroup", "{\n  \"zarr_format\": 2\n}\n")]);
    assert_eq!(fmt_exit_code(FmtMode::Check, &outcome), exit::FINDINGS);
    let value = fmt_report("/tmp/fmt", FmtMode::Check, outcome.as_ref().unwrap());
    let text = String::from_utf8(to_pretty_bytes(&value)).unwrap();
    let json = parse_json(text.as_bytes()).unwrap();
    assert_eq!(json.get("version").unwrap().as_str(), Some("0.0.1"));
    assert_eq!(json.get("mode").unwrap().as_str(), Some("check"));
    assert!(matches!(json.get("would_change").unwrap(), JsonValue::Bool(true)));
    assert_eq!(json.get("changed_count").unwrap().as_i64(), Some(1));
    assert_eq!(json.get("changes").unwrap().as_array().unwrap()[0].as_str(), Some(".zattrs"));
    assert_eq!(
        text,
        "{\n  \"changed_count\": 1,\n  \"changes\": [\n    \".zattrs\"\n  ],\n  \"mode\": \"check\",\n  \"store\": \"/tmp/fmt\",\n  \"version\": \"0.0.1\",\n  \"would_change\": true\n}"
    );
}

#[test]
fn fmt_refuses_invalid_metadata() {
    let outcome = plan_store("/tmp/fmt", &[(".zattrs", "{bad"), (".zgroup", r#"{"zarr_format":2}"#)]);
    assert_eq!(fmt_exit_code(FmtMode::DryRun, &outcome), exit::FAILURE);
    assert!(outcome.unwrap_err().message().contains("cannot format invalid JSON"));
}

#[test]
fn fmt_dry_run_reports_changes_without_writing() {
    let outcome = plan_store("/tmp/fmt", &[(".zattrs", r#"{"b":2,"a":1}"#), (".zgroup", "{\n  \"zarr_format\": 2\n}\n")]);
    assert_eq!(fmt_exit_code(FmtMode::DryRun, &outcome), exit::OK);
    let plan = outcome.unwrap();
    assert!(fmt_lines(FmtMode::DryRun, &plan)[0].contains("Would format 1 metadata file"));
    assert_eq!(plan.changes[0].original_bytes, br#"{"b":2,"a":1}"#.to_vec());
}

#[test]
fn fmt_dry_run_and_write_text() {
    let plan = FormatPlan { changes: vec![change(".zattrs"), change("a/.zattrs")], unchanged: vec![] };
    assert_eq!(
        fmt_lines(FmtMode::DryRun, &plan),
        vec![
            "Would format 2 metadata file(s):",
            "  .zattrs",
            "  a/.zattrs",
            "",
            "No files were changed. Run with --write to apply.",
        ]
    );
    assert_eq!(fmt_lines(FmtMode::Write, &plan), vec!["Formatted 2 metadata file(s).", "Validated store after write."]);
    assert_eq!(fmt_exit_code(FmtMode::Write, &Ok(plan)), exit::OK);
    assert_eq!(FmtMode::DryRun.as_str(), "dry-run");
    assert_eq!(FmtMode::Write.as_str(), "write");
}

#[test]
fn inspect_lists_nodes_and_failures() {
    let scan = walk(
        "/tmp/s",
        &[
            (".zgroup", r#"{"zarr_format":2}"#),
            ("bad/zarr.json", "{oops"),
            ("temperature/.zarray", r#"{"zarr_format":2,"shape":[4,3],"chunks":[2,2]}"#),
            ("v3/zarr.json", r#"{"zarr_format":3,"node_type":"array","shape":[5],
                "chunk_grid":{"name":"regular","configuration":{"chunk_shape":[5]}}}"#),
            ("x/zarr.json", r#"{"zarr_format":3}"#),
        ],
    );
    let (scan, loaded) = load_store(Ok(scan)).unwrap();
    assert_eq!(
        inspect_lines("/tmp/s", &scan, &loaded),
        vec![
            "Store: /tmp/s",
            "Discovered 5 metadata document(s):",
            "  v2 group   /",
            "  v2 array   temperature  shape=[4, 3] chunks=[2, 2]",
            "  v3 array   v3  shape=[5] chunks=[5]",
            "  v3 unknown x",
            "  ! bad/zarr.json (invalid JSON)",
        ]
    );
    let empty = walk("/tmp/e", &[]);
    let (empty, loaded) = load_store(Ok(empty)).unwrap();
    assert_eq!(inspect_lines("/tmp/e", &empty, &loaded), vec!["No Zarr metadata found in /tmp/e."]);
}

#[test]
fn version_output() {
    assert_eq!(version_lines(false, "abc1234", true), vec!["zarr-lint 0.0.1"]);
    assert_eq!(
        version_lines(true, "abc1234", false),
        vec!["zarr-lint 0.0.1", "commit: abc1234", "build profile: release"]
    );
    assert_eq!(version_lines(true, "unknown", true)[2], "build profile: debug");
}

#[test]
fn rules_json_lists_the_registry() {
    let text = String::from_utf8(to_pretty_bytes(&rules_json())).unwrap();
    let parsed = parse_json(text.as_bytes()).unwrap();
    let items = parsed.as_array().unwrap();
    assert_eq!(items.len(), 6);
    assert_eq!(items[0].get("id").unwrap().as_str(), Some("structure/unrecognized-store"));
    assert_eq!(items[5].get("default_severity").unwrap().as_str(), Some("error"));
    assert_eq!(
        items[3].get("summary").unwrap().as_str(),
        Some("The metadata declares an unsupported Zarr format version.")
    );
}

#[test]
fn valid_json_output_has_empty_diagnostics_and_version() {
    let outcome = lint_store(
        "/tmp/simple_v2.zarr",
        Ok(walk(
            "/tmp/simple_v2.zarr",
            &[
                (".zgroup", r#"{"zarr_format":2}"#),
                ("temperature/.zarray", r#"{"zarr_format":2,"shape":[4,3],"chunks":[2,3],"dtype":"<f8"}"#),
            ],
        )),
    );
    assert_eq!(check_exit_code(&outcome, FailOn::Error), exit::OK);
    let report = outcome.unwrap();
    assert_eq!(report.version, "0.0.1");
    assert_eq!(report.diagnostics.len(), 0);
}

#[test]
fn each_invalid_fixture_triggers_its_rule() {
    let cases: [(&[(&str, &str)], &str); 6] = [
        (&[(".zgroup", r#"{"zarr_format":2}"#), ("t/.zarray", "{not json")], "metadata/invalid-json"),
        (&[(".zgroup", r#"{"zarr_format":2}"#), ("t/.zarray", r#"{"shape":[2],"chunks":[2]}"#)], "metadata/missing-required-field"),
        (&[(".zgroup", r#"{"zarr_format":4}"#)], "metadata/unsupported-format-version"),
        (
            &[(".zgroup", r#"{"zarr_format":2}"#), ("t/.zarray", r#"{"zarr_format":2,"shape":[4,3],"chunks":[2]}"#)],
            "array/rank-mismatch",
        ),
        (
            &[(".zarray", r#"{"zarr_format":2,"shape":[2],"chunks":[2]}"#), (".zgroup", r#"{"zarr_format":2}"#)],
            "structure/conflicting-node-type",
        ),
        (&[("readme.txt", "not zarr")], "structure/unrecognized-store"),
    ];
    for (entries, rule) in cases {
        let outcome = lint_store("/tmp/case", Ok(walk("/tmp/case", entries)));
        assert_eq!(check_exit_code(&outcome, FailOn::Error), exit::FINDINGS, "{rule}");
        let report = outcome.unwrap();
        assert_eq!(report.diagnostics.len(), 1, "{rule} should report exactly one finding");
        assert_eq!(report.diagnostics[0].rule, rule);
    }
}
