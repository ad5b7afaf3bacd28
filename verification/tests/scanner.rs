use zarr_lint_core::scanner::{
    check_local_root, local_metadata_file, relative_display, scan_store, sorted_scan, url_scheme, walk_scan, MetadataRole, RootStatus,
    ScanError, ScanRoute, StoreOptions, StoreScan, V2_ARRAY_FILE, V2_GROUP_FILE, V3_NODE_FILE,
};
use zarr_lint_core::ZarrVersion;

fn components(path: &str) -> Vec<String> {
    path.split('/').filter(|part| !part.is_empty()).map(String::from).collect()
}

/// Build the scan a depth-first, name-ordered walk of `root` would produce
/// for `entries` (given in walk order).
fn walk(root: &str, entries: &[(&str, &str)]) -> StoreScan {
    let root_parts = components(root);
    let mut files = Vec::new();
    for (rel, body) in entries {
        let path = format!("{root}/{rel}");
        let parts = components(&path);
        let name = parts.last().unwrap().clone();
        if let Some(role) = MetadataRole::from_file_name(&name) {
            files.push(local_metadata_file(role, &root_parts, &parts, path.clone(), body.as_bytes().to_vec()));
        }
    }
    walk_scan(root.to_string(), files)
}

#[test]
fn url_scheme_detection() {
    assert_eq!(url_scheme("https://example.com/x"), Some("https".into()));
    assert_eq!(url_scheme("HTTP://example.com/x"), Some("http".into()));
    assert_eq!(url_scheme("s3://bucket/x"), Some("s3".into()));
    assert_eq!(url_scheme("/local/path/store.zarr"), None);
    assert_eq!(url_scheme("relative/store.zarr"), None);
    assert_eq!(url_scheme(r"C:\data\store.zarr"), None);
}

#[test]
fn url_scheme_accepts_scheme_punctuation_and_rejects_digits_first() {
    assert_eq!(url_scheme("git+SSH://host/x"), Some("git+ssh".into()));
    assert_eq!(url_scheme("1http://host/x"), None);
    assert_eq!(url_scheme("http:/host/x"), None);
    assert_eq!(url_scheme(""), None);
}

#[test]
fn unsupported_scheme_is_an_error() {
    let err = scan_store("ftp://host/store.zarr", &StoreOptions::default()).unwrap_err();
    assert!(matches!(err, ScanError::UnsupportedScheme(s) if s == "ftp"));
}

#[test]
fn scan_routes_by_scheme() {
    let options = StoreOptions::default();
    assert_eq!(scan_store("/data/store.zarr", &options).unwrap(), ScanRoute::Local);
    assert_eq!(scan_store("https://h/s.zarr", &options).unwrap(), ScanRoute::Http);
    assert_eq!(scan_store("s3://bucket/s.zarr", &options).unwrap(), ScanRoute::Cloud { anonymous: false });
    let anonymous = StoreOptions { anonymous: true };
    assert_eq!(scan_store("GS://bucket/s.zarr", &anonymous).unwrap(), ScanRoute::Cloud { anonymous: true });
}

#[test]
fn missing_path_is_not_found() {
    let target = "/definitely/not/here/zarr-lint";
    assert_eq!(scan_store(target, &StoreOptions::default()).unwrap(), ScanRoute::Local);
    let err = check_local_root(target, RootStatus::Missing).unwrap_err();
    assert!(matches!(err, ScanError::NotFound(_)));
}

#[test]
fn file_path_is_not_a_directory() {
    let status = RootStatus::Exists { is_dir: false, is_symlink: false, target_exists: true };
    let err = check_local_root("/tmp/plain.txt", status).unwrap_err();
    assert!(matches!(err, ScanError::NotADirectory(p) if p == "/tmp/plain.txt"));
}

#[test]
fn dangling_symlink_root_is_not_found() {
    let status = RootStatus::Exists { is_dir: false, is_symlink: true, target_exists: false };
    let err = check_local_root("/tmp/link", status).unwrap_err();
    assert!(matches!(err, ScanError::NotFound(p) if p == "/tmp/link"));
    let dir = RootStatus::Exists { is_dir: true, is_symlink: true, target_exists: true };
    assert!(check_local_root("/tmp/link", dir).is_ok());
}

#[test]
fn unreadable_root_is_an_io_error() {
    let err = check_local_root("/root/x", RootStatus::Unreadable("permission denied".to_string())).unwrap_err();
    assert_eq!(err.message(), "failed to read /root/x: permission denied");
}

#[test]
fn empty_directory_is_unrecognized_but_not_an_error() {
    let scan = walk("/tmp/empty", &[]);
    assert!(!scan.is_recognized());
    assert!(scan.files.is_empty());
}

#[test]
fn discovers_v2_and_v3_markers_and_ignores_chunks() {
    let scan = walk(
        "/tmp/store",
        &[
            (".zgroup", r#"{"zarr_format":2}"#),
            ("arr/.zarray", r#"{"zarr_format":2}"#),
            ("arr/0.0", "chunkbytes"),
            ("v3/c/0/0", "chunkbytes"),
            ("v3/zarr.json", r#"{"zarr_format":3}"#),
        ],
    );
    let displays: Vec<&str> = scan.files.iter().map(|f| f.rel_display.as_str()).collect();
    assert_eq!(displays, vec![".zgroup", "arr/.zarray", "v3/zarr.json"]);

    let root_group = &scan.files[0];
    assert_eq!(root_group.role, MetadataRole::V2Group);
    assert_eq!(root_group.location, "");

    let arr = &scan.files[1];
    assert_eq!(arr.role, MetadataRole::V2Array);
    assert_eq!(arr.location, "arr");

    let v3 = &scan.files[2];
    assert_eq!(v3.role, MetadataRole::V3Node);
    assert_eq!(v3.location, "v3");
}

#[test]
fn marker_names_map_to_roles_and_versions() {
    assert_eq!(MetadataRole::from_file_name(V2_GROUP_FILE), Some(MetadataRole::V2Group));
    assert_eq!(MetadataRole::from_file_name(V2_ARRAY_FILE), Some(MetadataRole::V2Array));
    assert_eq!(MetadataRole::from_file_name(V3_NODE_FILE), Some(MetadataRole::V3Node));
    assert_eq!(MetadataRole::from_file_name(".zattrs"), None);
    assert_eq!(MetadataRole::from_file_name("ZARR.JSON"), None);
    assert_eq!(MetadataRole::V2Group.version(), ZarrVersion::V2);
    assert_eq!(MetadataRole::V2Array.version(), ZarrVersion::V2);
    assert_eq!(MetadataRole::V3Node.version(), ZarrVersion::V3);
}

#[test]
fn relative_display_joins_components_below_root() {
    let root = components("/a/b");
    assert_eq!(relative_display(&root, &components("/a/b/c/.zarray")), "c/.zarray");
    // A path outside the root falls back to the file's own name.
    assert_eq!(relative_display(&root, &components("/x/y")), "y");
    assert_eq!(relative_display(&components("/r"), &components("/x/.zgroup")), ".zgroup");
    assert_eq!(relative_display(&components("/r"), &components("/r/a/.zarray")), "a/.zarray");
}

#[test]
fn scan_error_messages() {
    assert_eq!(ScanError::NotFound("p".into()).message(), "store path does not exist: p");
    assert_eq!(ScanError::NotADirectory("p".into()).message(), "store path is not a directory: p");
    assert_eq!(ScanError::Walk("loop".into()).message(), "failed to traverse store: loop");
    assert_eq!(
        ScanError::Remote { url: "https://h/x".into(), message: "status 500".into() }.message(),
        "failed to read remote store https://h/x: status 500"
    );
    assert_eq!(
        ScanError::UnsupportedScheme("ftp".into()).message(),
        "unsupported URL scheme `ftp://`: only http and https are supported"
    );
}

#[test]
fn sorted_scan_orders_files_by_display_path() {
    let root = components("/s");
    let make = |rel: &str| {
        let path = components(&format!("/s/{rel}"));
        let role = MetadataRole::from_file_name(path.last().unwrap()).unwrap();
        local_metadata_file(role, &root, &path, format!("/s/{rel}"), b"{}".to_vec())
    };
    let scan = sorted_scan("/s".to_string(), vec![make("a/zarr.json"), make("a.b/zarr.json"), make(".zgroup")]);
    let order: Vec<&str> = scan.files.iter().map(|f| f.rel_display.as_str()).collect();
    assert_eq!(order, vec![".zgroup", "a.b/zarr.json", "a/zarr.json"]);
    assert_eq!(scan.root, "/s");
}

#[test]
fn walk_scan_orders_files_as_a_name_sorted_walk() {
    let root = components("/s");
    let make = |rel: &str| {
        let path = components(&format!("/s/{rel}"));
        let role = MetadataRole::from_file_name(path.last().unwrap()).unwrap();
        local_metadata_file(role, &root, &path, format!("/s/{rel}"), b"{}".to_vec())
    };
    let scan = walk_scan(
        "/s".to_string(),
        vec![make("a.b/.zarray"), make("a/b/.zarray"), make("a/.zgroup"), make(".zgroup"), make("a/zarr.json")],
    );
    let order: Vec<&str> = scan.files.iter().map(|f| f.rel_display.as_str()).collect();
    assert_eq!(order, vec![".zgroup", "a/.zgroup", "a/b/.zarray", "a/zarr.json", "a.b/.zarray"]);
    assert_eq!(scan.root, "/s");
}
