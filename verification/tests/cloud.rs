use zarr_lint_core::cloud::{
    cloud_scan_outcome, next_access, cloud_entry, cloud_prefix, cloud_provider, fallback_access, first_access, relativize, skip_signature,
    sort_files, CloudAccess, CloudProvider,
};
use zarr_lint_core::scanner::{MetadataRole, RawMetadataFile, ScanError, StoreOptions};

/// What discovery keeps of a listing of `objects` under `prefix` for the
/// store addressed as `root`: the metadata documents, read and sorted.
fn discover(objects: &[(&str, &str)], prefix: &str, root: &str) -> Vec<RawMetadataFile> {
    let mut files = Vec::new();
    for (key, body) in objects {
        if let Some(entry) = cloud_entry(prefix, key, root) {
            files.push(entry.into_file(body.as_bytes().to_vec()));
        }
    }
    sort_files(files)
}

fn displays(files: &[RawMetadataFile]) -> Vec<String> {
    files.iter().map(|f| f.rel_display.clone()).collect()
}

#[test]
fn discovers_metadata_under_prefix_and_ignores_chunks() {
    let files = discover(
        &[
            ("data.zarr/.zgroup", r#"{"zarr_format":2}"#),
            ("data.zarr/temperature/.zarray", r#"{"zarr_format":2}"#),
            ("data.zarr/temperature/0.0", "chunk-bytes-ignored"),
            ("data.zarr/stations/.zgroup", r#"{"zarr_format":2}"#),
            ("data.zarr/v3/zarr.json", r#"{"zarr_format":3}"#),
        ],
        "data.zarr",
        "s3://bucket/data.zarr",
    );
    assert_eq!(displays(&files), vec![".zgroup", "stations/.zgroup", "temperature/.zarray", "v3/zarr.json"]);
    let temp = files.iter().find(|f| f.rel_display == "temperature/.zarray").unwrap();
    assert_eq!(temp.location, "temperature");
    assert_eq!(temp.source, "s3://bucket/data.zarr/temperature/.zarray");
}

#[test]
fn sibling_prefix_is_not_matched() {
    let files = discover(
        &[("data.zarr/.zgroup", r#"{"zarr_format":2}"#), ("data.zarr2/.zgroup", r#"{"zarr_format":2}"#)],
        "data.zarr",
        "s3://bucket/data.zarr",
    );
    assert_eq!(displays(&files), vec![".zgroup"]);
}

#[test]
fn empty_prefix_is_unrecognized() {
    let files = discover(&[("other/file.txt", "hi")], "data.zarr", "s3://bucket/data.zarr");
    assert!(files.is_empty());
}

#[test]
fn relativize_enforces_boundary() {
    assert_eq!(relativize("a/store.zarr", "a/store.zarr/x/.zarray"), Some("x/.zarray".to_string()));
    assert_eq!(relativize("store.zarr", "store.zarr2/.zgroup"), None);
    assert_eq!(relativize("store.zarr", "store.zarr"), None);
    assert_eq!(relativize("", "store.zarr/.zgroup"), Some("store.zarr/.zgroup".to_string()));
}

#[test]
fn entry_source_trims_trailing_slashes_of_root() {
    let entry = cloud_entry("d", "d/a/zarr.json", "gs://b/d//").unwrap();
    assert_eq!(entry.role, MetadataRole::V3Node);
    assert_eq!(entry.rel_display, "a/zarr.json");
    assert_eq!(entry.location, "a");
    assert_eq!(entry.source, "gs://b/d/a/zarr.json");
    assert!(cloud_entry("d", "d/.zattrs", "gs://b/d").is_none());
    assert!(cloud_entry("d", "d/.zmetadata", "gs://b/d").is_none());
}

#[test]
fn access_falls_back_from_credentials_to_anonymous() {
    assert_eq!(first_access(&StoreOptions::default()), CloudAccess::Credentialed);
    assert_eq!(first_access(&StoreOptions { anonymous: true }), CloudAccess::Anonymous);
    assert_eq!(fallback_access(CloudAccess::Credentialed), Some(CloudAccess::Anonymous));
    assert_eq!(fallback_access(CloudAccess::Anonymous), None);
}

#[test]
fn prefix_is_the_decoded_url_path() {
    assert_eq!(cloud_prefix("s3://bucket/data.zarr").unwrap(), "data.zarr");
    assert_eq!(cloud_prefix("s3://bucket/a%20b/c.zarr/").unwrap(), "a b/c.zarr");
    assert_eq!(cloud_prefix("s3://bucket").unwrap(), "");
    let err = cloud_prefix("s3://bucket/a//b").unwrap_err();
    assert!(matches!(err, ScanError::Remote { url, .. } if url == "s3://bucket/a//b"));
    let err = cloud_prefix("s3://[bad").unwrap_err();
    assert!(matches!(err, ScanError::Remote { .. }));
}

#[test]
fn providers_follow_the_scheme() {
    assert_eq!(cloud_provider("s3://b/x").unwrap(), CloudProvider::Amazon);
    assert_eq!(cloud_provider("S3A://b/x").unwrap(), CloudProvider::Amazon);
    assert_eq!(cloud_provider("gcs://b/x").unwrap(), CloudProvider::Google);
    assert_eq!(cloud_provider("abfss://b/x").unwrap(), CloudProvider::Azure);
    assert!(matches!(cloud_provider("ftp://b/x"), Err(ScanError::UnsupportedScheme(s)) if s == "ftp"));
    assert!(skip_signature(CloudProvider::Amazon, CloudAccess::Anonymous));
    assert!(skip_signature(CloudProvider::Azure, CloudAccess::Anonymous));
    assert!(!skip_signature(CloudProvider::Google, CloudAccess::Anonymous));
    assert!(!skip_signature(CloudProvider::Amazon, CloudAccess::Credentialed));
}

fn file(rel: &str) -> RawMetadataFile {
    cloud_entry("d", &format!("d/{rel}"), "s3://b/d").unwrap().into_file(b"{}".to_vec())
}

#[test]
fn cloud_outcome_keeps_the_first_success_and_the_first_error() {
    let credentialed = StoreOptions::default();
    let err = |m: &str| ScanError::Remote { url: "s3://b/d".into(), message: m.into() };

    let first: Result<Vec<RawMetadataFile>, ScanError> = Ok(vec![file("b/.zarray"), file(".zgroup")]);
    assert_eq!(next_access(&credentialed, &first), None);
    let scan = cloud_scan_outcome("s3://b/d", &credentialed, first, None).unwrap();
    assert_eq!(scan.root, "s3://b/d");
    assert_eq!(displays(&scan.files), vec![".zgroup", "b/.zarray"]);

    let failed: Result<Vec<RawMetadataFile>, ScanError> = Err(err("no credentials"));
    assert_eq!(next_access(&credentialed, &failed), Some(CloudAccess::Anonymous));
    let scan = cloud_scan_outcome("s3://b/d", &credentialed, Err(err("no credentials")), Some(Ok(vec![file("zarr.json")])))
        .unwrap();
    assert_eq!(displays(&scan.files), vec!["zarr.json"]);

    let both = cloud_scan_outcome("s3://b/d", &credentialed, Err(err("no credentials")), Some(Err(err("denied"))));
    assert!(matches!(both, Err(ScanError::Remote { message, .. }) if message == "no credentials"));

    let anonymous = StoreOptions { anonymous: true };
    assert_eq!(next_access(&anonymous, &Err(err("denied"))), None);
    let only = cloud_scan_outcome("s3://b/d", &anonymous, Err(err("denied")), None);
    assert!(matches!(only, Err(ScanError::Remote { message, .. }) if message == "denied"));
}
