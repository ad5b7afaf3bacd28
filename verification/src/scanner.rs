//! Store discovery: the metadata file names, the discovered documents, the
//! choice of backend for a target, and the decisions made while walking a
//! local directory.
//!
//! Reading directories, files and network resources is left to the caller;
//! this module decides what those reads mean.

use vstd::prelude::*;
use vstd::string::StringExecFns;

use crate::model::ZarrVersion;
use crate::text::{concat2, concat3, join_with, parent_of, str_eq, to_chars};

verus! {

/// Zarr v2 group marker file name.
pub const V2_GROUP_FILE: &'static str = ".zgroup";
/// Zarr v2 array marker file name.
pub const V2_ARRAY_FILE: &'static str = ".zarray";
/// Zarr v3 node marker file name (group or array; disambiguated by `node_type`).
pub const V3_NODE_FILE: &'static str = "zarr.json";

/// The kind of metadata file, as implied purely by its name.
#[derive(Debug, Clone, Copy, PartialEq, Eq, Structural)]
pub enum MetadataRole {
    /// A Zarr v2 `.zgroup` file.
    V2Group,
    /// A Zarr v2 `.zarray` file.
    V2Array,
    /// A Zarr v3 `zarr.json` file.
    V3Node,
}

/// The role a file name denotes, if it is a recognized marker.
pub open spec fn role_of_name(name: Seq<char>) -> Option<MetadataRole> {
    if name == V2_GROUP_FILE@ {
        Some(MetadataRole::V2Group)
    } else if name == V2_ARRAY_FILE@ {
        Some(MetadataRole::V2Array)
    } else if name == V3_NODE_FILE@ {
        Some(MetadataRole::V3Node)
    } else {
        None
    }
}

/// The recognized marker names are exactly `.zgroup` (a Zarr v2 group),
/// `.zarray` (a Zarr v2 array) and `zarr.json` (a Zarr v3 node); no other
/// name is a marker.
pub proof fn lemma_marker_names(name: Seq<char>)
    ensures
        role_of_name(".zgroup"@) == Some(MetadataRole::V2Group),
        role_of_name(".zarray"@) == Some(MetadataRole::V2Array),
        role_of_name("zarr.json"@) == Some(MetadataRole::V3Node),
        role_of_name(name) is Some ==> name == ".zgroup"@ || name == ".zarray"@ || name == "zarr.json"@,
{
    reveal_strlit(".zgroup");
    reveal_strlit(".zarray");
    reveal_strlit("zarr.json");
    assert(".zgroup"@[2] != ".zarray"@[2]);
    assert(".zgroup"@.len() != "zarr.json"@.len());
}

impl MetadataRole {
    /// Classify a file name into a metadata role, if it is a recognized marker.
    pub fn from_file_name(name: &str) -> (r: Option<Self>)
        ensures
            r == role_of_name(name@),
    {
        if str_eq(name, V2_GROUP_FILE) {
            Some(MetadataRole::V2Group)
        } else if str_eq(name, V2_ARRAY_FILE) {
            Some(MetadataRole::V2Array)
        } else if str_eq(name, V3_NODE_FILE) {
            Some(MetadataRole::V3Node)
        } else {
            None
        }
    }

    pub open spec fn spec_version(self) -> ZarrVersion {
        match self {
            MetadataRole::V2Group | MetadataRole::V2Array => ZarrVersion::V2,
            MetadataRole::V3Node => ZarrVersion::V3,
        }
    }

    /// The Zarr format version implied by the file name.
    pub fn version(self) -> (r: ZarrVersion)
        ensures
            r == self.spec_version(),
    {
        match self {
            MetadataRole::V2Group | MetadataRole::V2Array => ZarrVersion::V2,
            MetadataRole::V3Node => ZarrVersion::V3,
        }
    }
}

/// A recognized metadata document together with its raw contents and locations.
#[derive(Debug, Clone)]
pub struct RawMetadataFile {
    /// The role implied by the file name.
    pub role: MetadataRole,
    /// Where the document came from: a filesystem path or a URL.
    pub source: String,
    /// Store-relative path of the metadata document, using `/` separators.
    pub rel_display: String,
    /// Store-relative path of the node (the directory containing the file);
    /// empty for a node at the store root.
    pub location: String,
    /// Raw bytes of the metadata document.
    pub bytes: Vec<u8>,
}

/// The mathematical value of a [`RawMetadataFile`].
pub struct RawFileView {
    pub role: MetadataRole,
    pub source: Seq<char>,
    pub rel_display: Seq<char>,
    pub location: Seq<char>,
    pub bytes: Seq<u8>,
}

impl View for RawMetadataFile {
    type V = RawFileView;

    open spec fn view(&self) -> RawFileView {
        RawFileView {
            role: self.role,
            source: self.source@,
            rel_display: self.rel_display@,
            location: self.location@,
            bytes: self.bytes@,
        }
    }
}

/// The views of a sequence of files.
pub open spec fn files_view(files: Seq<RawMetadataFile>) -> Seq<RawFileView> {
    files.map_values(|f: RawMetadataFile| f@)
}

/// Orders discovered documents by display path.
pub open spec fn path_le() -> spec_fn(RawFileView, RawFileView) -> bool {
    |a: RawFileView, b: RawFileView| crate::text::seq_le(a.rel_display, b.rel_display)
}

/// The result of scanning a store: its root and every recognized metadata file.
#[derive(Debug, Clone)]
pub struct StoreScan {
    /// The store root as supplied (a path or URL).
    pub root: String,
    /// Every recognized metadata document discovered under the root, in a
    /// deterministic (sorted) order: for a local store, that of a depth-first
    /// walk visiting each directory's entries sorted by name (see
    /// [`walk_scan`]); for a remote or cloud store, by display path (see
    /// [`sorted_scan`]).
    pub files: Vec<RawMetadataFile>,
}

impl StoreScan {
    /// Whether any recognizable Zarr metadata was found.
    pub fn is_recognized(&self) -> (r: bool)
        ensures
            r == (self.files@.len() > 0),
    {
        self.files.len() > 0
    }
}

/// Options controlling how a store is accessed.
#[derive(Debug, Clone)]
pub struct StoreOptions {
    /// Access cloud object stores anonymously (no credentials or request
    /// signing). When `false`, credentials are taken from the environment and
    /// access falls back to anonymous for public data.
    pub anonymous: bool,
}

impl Default for StoreOptions {
    fn default() -> (r: Self)
        ensures
            !r.anonymous,
    {
        StoreOptions { anonymous: false }
    }
}

/// Errors that prevent a store from being scanned at all.
#[derive(Debug, Clone)]
pub enum ScanError {
    /// The supplied path does not exist.
    NotFound(String),
    /// The supplied path exists but is not a directory.
    NotADirectory(String),
    /// An I/O error occurred while reading a specific path.
    Io {
        /// The path that could not be read.
        path: String,
        /// The underlying I/O error, as text.
        message: String,
    },
    /// An error occurred while walking the directory tree.
    Walk(String),
    /// A remote request failed (network error or non-404 HTTP status).
    Remote {
        /// The URL that could not be read.
        url: String,
        /// A description of the failure.
        message: String,
    },
    /// The URL scheme is recognized but not supported.
    UnsupportedScheme(String),
}

/// The text of a scan error, as it is shown to users.
pub open spec fn scan_error_text(e: ScanError) -> Seq<char> {
    match e {
        ScanError::NotFound(p) => "store path does not exist: "@ + p@,
        ScanError::NotADirectory(p) => "store path is not a directory: "@ + p@,
        ScanError::Io { path, message } => "failed to read "@ + path@ + ": "@ + message@,
        ScanError::Walk(m) => "failed to traverse store: "@ + m@,
        ScanError::Remote { url, message } => "failed to read remote store "@ + url@ + ": "@ + message@,
        ScanError::UnsupportedScheme(s) => "unsupported URL scheme `"@ + s@
            + "://`: only http and https are supported"@,
    }
}

impl ScanError {
    /// The error's text, as it is shown to users.
    pub fn message(&self) -> (r: String)
        ensures
            r@ == scan_error_text(*self),
    {
        match self {
            ScanError::NotFound(p) => concat2("store path does not exist: ", p.as_str()),
            ScanError::NotADirectory(p) => concat2("store path is not a directory: ", p.as_str()),
            ScanError::Io { path, message } => {
                let mut r = concat3("failed to read ", path.as_str(), ": ");
                r.append(message.as_str());
                r
            },
            ScanError::Walk(m) => concat2("failed to traverse store: ", m.as_str()),
            ScanError::Remote { url, message } => {
                let mut r = concat3("failed to read remote store ", url.as_str(), ": ");
                r.append(message.as_str());
                r
            },
            ScanError::UnsupportedScheme(s) => concat3(
                "unsupported URL scheme `",
                s.as_str(),
                "://`: only http and https are supported",
            ),
        }
    }
}

} // verus!

verus! {

pub open spec fn is_ascii_alpha(c: char) -> bool {
    ('a' <= c && c <= 'z') || ('A' <= c && c <= 'Z')
}

/// A character allowed after the first one in a URL scheme.
pub open spec fn is_scheme_char(c: char) -> bool {
    is_ascii_alpha(c) || ('0' <= c && c <= '9') || c == '+' || c == '.' || c == '-'
}

/// The end of the run of scheme characters starting at `i`.
pub open spec fn scheme_run(s: Seq<char>, i: int) -> int
    decreases s.len() - i,
{
    if 0 <= i < s.len() && is_scheme_char(s[i]) {
        scheme_run(s, i + 1)
    } else {
        i
    }
}

pub open spec fn ascii_lower(c: char) -> char {
    if 'A' <= c && c <= 'Z' {
        ((c as int) + 32) as char
    } else {
        c
    }
}

/// The lowercase URL scheme of `s` when `s` starts with
/// `[a-zA-Z][a-zA-Z0-9+.-]*://`; `None` otherwise (so a Windows drive path
/// such as `C:\data` is not a URL).
pub open spec fn url_scheme_of(s: Seq<char>) -> Option<Seq<char>> {
    if s.len() == 0 || !is_ascii_alpha(s[0]) {
        None
    } else {
        let end = scheme_run(s, 1);
        if end + 3 <= s.len() && s[end] == ':' && s[end + 1] == '/' && s[end + 2] == '/' {
            Some(s.take(end).map_values(|c: char| ascii_lower(c)))
        } else {
            None
        }
    }
}

fn is_alpha(c: char) -> (r: bool)
    ensures
        r == is_ascii_alpha(c),
{
    ('a' <= c && c <= 'z') || ('A' <= c && c <= 'Z')
}

fn lower(c: char) -> (r: char)
    ensures
        r == ascii_lower(c),
{
    if 'A' <= c && c <= 'Z' {
        let b = c as u8;
        assert(b == c as int);
        let l = b + 32;
        l as char
    } else {
        c
    }
}

/// The lowercase URL scheme of `target` (e.g. `https`), if it looks like a URL.
pub fn url_scheme(target: &str) -> (r: Option<String>)
    ensures
        match r {
            Some(s) => url_scheme_of(target@) == Some(s@),
            None => url_scheme_of(target@).is_none(),
        },
{
    let cs = to_chars(target);
    if cs.len() == 0 || !is_alpha(cs[0]) {
        return None;
    }
    let mut end: usize = 1;
    while end < cs.len() && (is_alpha(cs[end]) || ('0' <= cs[end] && cs[end] <= '9') || cs[end] == '+' || cs[end] == '.' || cs[end] == '-')
        invariant
            1 <= end <= cs@.len(),
            cs@ == target@,
            scheme_run(cs@, 1) == scheme_run(cs@, end as int),
        decreases cs.len() - end,
    {
        end = end + 1;
    }
    assert(scheme_run(cs@, end as int) == end);
    if cs.len() - end >= 3 && cs[end] == ':' && cs[end + 1] == '/' && cs[end + 2] == '/' {
        let mut out = String::new();
        let mut i: usize = 0;
        while i < end
            invariant
                i <= end <= cs@.len(),
                out@ == cs@.take(i as int).map_values(|c: char| ascii_lower(c)),
            decreases end - i,
        {
            crate::text::push_char(&mut out, lower(cs[i]));
            assert(cs@.take(i + 1).map_values(|c: char| ascii_lower(c)) =~= cs@.take(i as int).map_values(|c: char| ascii_lower(c)).push(ascii_lower(cs@[i as int])));
            i = i + 1;
        }
        Some(out)
    } else {
        None
    }
}

/// How a target is read: as a local directory, over HTTP(S), or from a cloud
/// object store.
#[derive(Debug, Clone, Copy, PartialEq, Eq, Structural)]
pub enum ScanRoute {
    /// A local filesystem path.
    Local,
    /// An `http://` or `https://` URL.
    Http,
    /// A cloud object-store URL (`s3://`, `gs://`, `az://`, …).
    Cloud {
        /// Access the store anonymously.
        anonymous: bool,
    },
}

pub open spec fn is_http_scheme(s: Seq<char>) -> bool {
    s == "http"@ || s == "https"@
}

pub open spec fn is_cloud_scheme(s: Seq<char>) -> bool {
    s == "s3"@ || s == "s3a"@ || s == "gs"@ || s == "gcs"@ || s == "az"@ || s == "azure"@ || s == "abfs"@
        || s == "abfss"@
}

/// Decide how the store at `target` is discovered: a local filesystem path,
/// an `http(s)://` URL, or a cloud object-store URL (`s3://`, `gs://`,
/// `az://`, …). Any other URL scheme is [`ScanError::UnsupportedScheme`].
pub fn scan_store(target: &str, options: &StoreOptions) -> (r: Result<ScanRoute, ScanError>)
    ensures
        match url_scheme_of(target@) {
            None => r == Ok::<ScanRoute, ScanError>(ScanRoute::Local),
            Some(s) => if is_http_scheme(s) {
                r == Ok::<ScanRoute, ScanError>(ScanRoute::Http)
            } else if is_cloud_scheme(s) {
                r == Ok::<ScanRoute, ScanError>(ScanRoute::Cloud { anonymous: options.anonymous })
            } else {
                r matches Err(ScanError::UnsupportedScheme(x)) && x@ == s
            },
        },
{
    match url_scheme(target) {
        None => Ok(ScanRoute::Local),
        Some(s) => {
            let t = s.as_str();
            if str_eq(t, "http") || str_eq(t, "https") {
                Ok(ScanRoute::Http)
            } else if str_eq(t, "s3") || str_eq(t, "s3a") || str_eq(t, "gs") || str_eq(t, "gcs") || str_eq(t, "az")
                || str_eq(t, "azure") || str_eq(t, "abfs") || str_eq(t, "abfss") {
                Ok(ScanRoute::Cloud { anonymous: options.anonymous })
            } else {
                Err(ScanError::UnsupportedScheme(s))
            }
        },
    }
}

/// `s` with ASCII capitals lowered.
pub open spec fn lower_text(s: Seq<char>) -> Seq<char> {
    s.map_values(|c: char| ascii_lower(c))
}

proof fn lemma_lower_letter(c: char, l: char)
    requires
        'a' <= l && l <= 'z',
        ascii_lower(c) == l,
    ensures
        is_scheme_char(c),
        c != ':',
{
}

proof fn lemma_lower_fixed(c: char, l: char)
    requires
        ascii_lower(c) == l,
        l == ':' || l == '/',
    ensures
        c == l,
{
}

/// A target that begins with `http://` or `https://`, in any letter case,
/// has the URL scheme `http` or `https`, and that scheme is one that
/// `scan_store` routes to HTTP discovery: it is not a cloud scheme, and it
/// is never answered with `UnsupportedScheme`.
pub proof fn lemma_http_targets_route_to_http(t: Seq<char>)
    requires
        (t.len() >= 7 && lower_text(t.take(7)) == "http://"@) || (t.len() >= 8 && lower_text(t.take(8)) == "https://"@),
    ensures
        url_scheme_of(t) == Some("http"@) || url_scheme_of(t) == Some("https"@),
        t.len() >= 7 && lower_text(t.take(7)) == "http://"@ ==> url_scheme_of(t) == Some("http"@),
        is_http_scheme(url_scheme_of(t)->0),
        !is_cloud_scheme(url_scheme_of(t)->0),
{
    reveal_strlit("http://");
    reveal_strlit("https://");
    reveal_strlit("http");
    reveal_strlit("https");
    reveal_strlit("s3");
    reveal_strlit("s3a");
    reveal_strlit("gs");
    reveal_strlit("gcs");
    reveal_strlit("az");
    reveal_strlit("azure");
    reveal_strlit("abfs");
    reveal_strlit("abfss");
    let n: int = if t.len() >= 7 && lower_text(t.take(7)) == "http://"@ { 4 } else { 5 };
    let pre: Seq<char> = if n == 4 { "http://"@ } else { "https://"@ };
    let word: Seq<char> = if n == 4 { "http"@ } else { "https"@ };
    assert(lower_text(t.take(n + 3)) == pre);
    assert forall|i: int| 0 <= i < n + 3 implies ascii_lower(#[trigger] t[i]) == pre[i] by {
        assert(lower_text(t.take(n + 3))[i] == ascii_lower(t.take(n + 3)[i]));
    }
    assert forall|i: int| 0 <= i < n implies is_scheme_char(#[trigger] t[i]) && t[i] != ':' by {
        lemma_lower_letter(t[i], pre[i]);
    }
    lemma_lower_fixed(t[n], pre[n]);
    lemma_lower_fixed(t[n + 1], pre[n + 1]);
    lemma_lower_fixed(t[n + 2], pre[n + 2]);
    assert(scheme_run(t, n) == n);
    assert(scheme_run(t, 4) == n);
    assert(scheme_run(t, 3) == n);
    assert(scheme_run(t, 2) == n);
    assert(scheme_run(t, 1) == n);
    lemma_lower_letter(t[0], pre[0]);
    assert(is_ascii_alpha(t[0]));
    assert(t.take(n).map_values(|c: char| ascii_lower(c)) =~= word);
    assert(word[0] == 'h');
    assert("abfs"@[0] == 'a' && "azure"@[0] == 'a' && "abfss"@[0] == 'a');
    assert(word != "abfs"@ && word != "azure"@ && word != "abfss"@);
    assert(word.len() != "s3"@.len() && word.len() != "s3a"@.len() && word.len() != "gs"@.len());
    assert(word.len() != "gcs"@.len() && word.len() != "az"@.len());
}

proof fn lemma_scheme_run_to(t: Seq<char>, k: int, n: int)
    requires
        0 <= k <= n < t.len(),
        forall|i: int| k <= i < n ==> is_scheme_char(#[trigger] t[i]),
        !is_scheme_char(t[n]),
    ensures
        scheme_run(t, k) == n,
    decreases n - k,
{
    if k < n {
        lemma_scheme_run_to(t, k + 1, n);
    }
}

/// A target that begins, in any letter case, with a scheme word (a letter,
/// then letters, digits, `+`, `.` or `-`) followed by `://` has that word,
/// in lowercase, as its URL scheme.
pub proof fn lemma_scheme_prefix(t: Seq<char>, w: Seq<char>)
    requires
        w.len() > 0,
        is_ascii_alpha(w[0]),
        forall|i: int| 0 <= i < w.len() ==> is_scheme_char(#[trigger] w[i]) && !('A' <= w[i] && w[i] <= 'Z'),
        t.len() >= w.len() + 3,
        lower_text(t.take(w.len() + 3int)) == w + "://"@,
    ensures
        url_scheme_of(t) == Some(w),
{
    reveal_strlit("://");
    let n = w.len() as int;
    let pre = w + "://"@;
    assert forall|i: int| 0 <= i < n + 3 implies ascii_lower(#[trigger] t[i]) == pre[i] by {
        assert(lower_text(t.take(n + 3))[i] == ascii_lower(t.take(n + 3)[i]));
    }
    assert forall|i: int| 0 <= i < n implies is_scheme_char(#[trigger] t[i]) && ascii_lower(t[i]) == w[i] by {
        assert(pre[i] == w[i]);
        assert(ascii_lower(t[i]) == w[i]);
    }
    assert(pre[n] == ':' && pre[n + 1] == '/' && pre[n + 2] == '/');
    lemma_lower_fixed(t[n], pre[n]);
    lemma_lower_fixed(t[n + 1], pre[n + 1]);
    lemma_lower_fixed(t[n + 2], pre[n + 2]);
    assert(is_ascii_alpha(t[0]));
    lemma_scheme_run_to(t, 1, n);
    assert(t.take(n).map_values(|c: char| ascii_lower(c)) =~= w);
}

/// A target that begins, in any letter case, with one of the cloud schemes
/// (`s3`, `s3a`, `gs`, `gcs`, `az`, `azure`, `abfs`, `abfss`) and `://` has
/// that scheme, which `scan_store` routes to cloud discovery and not to
/// HTTP.
pub proof fn lemma_cloud_targets_route_to_cloud(t: Seq<char>, w: Seq<char>)
    requires
        w == "s3"@ || w == "s3a"@ || w == "gs"@ || w == "gcs"@ || w == "az"@ || w == "azure"@ || w == "abfs"@
            || w == "abfss"@,
        t.len() >= w.len() + 3,
        lower_text(t.take(w.len() + 3int)) == w + "://"@,
    ensures
        url_scheme_of(t) == Some(w),
        is_cloud_scheme(w),
        !is_http_scheme(w),
{
    reveal_strlit("s3");
    reveal_strlit("s3a");
    reveal_strlit("gs");
    reveal_strlit("gcs");
    reveal_strlit("az");
    reveal_strlit("azure");
    reveal_strlit("abfs");
    reveal_strlit("abfss");
    reveal_strlit("http");
    reveal_strlit("https");
    assert(w.len() > 0 && is_ascii_alpha(w[0]));
    assert(forall|i: int| 0 <= i < w.len() ==> is_scheme_char(#[trigger] w[i]) && !('A' <= w[i] && w[i] <= 'Z'));
    lemma_scheme_prefix(t, w);
    assert(w[0] != "http"@[0]);
}

/// What a look at a local store root found.
#[derive(Debug, Clone)]
pub enum RootStatus {
    /// Nothing exists at the path.
    Missing,
    /// The path could not be examined; the I/O error as text.
    Unreadable(String),
    /// Something exists at the path.
    Exists {
        /// The path (following symbolic links) is a directory.
        is_dir: bool,
        /// The path itself is a symbolic link.
        is_symlink: bool,
        /// The path (following symbolic links) exists.
        target_exists: bool,
    },
}

/// Decide whether a local store root can be walked. A missing path (or a
/// dangling symbolic link) is [`ScanError::NotFound`], a path that is not a
/// directory is [`ScanError::NotADirectory`], and a failed look is
/// [`ScanError::Io`].
pub fn check_local_root(root_display: &str, status: RootStatus) -> (r: Result<(), ScanError>)
    ensures
        match status {
            RootStatus::Missing => r matches Err(ScanError::NotFound(p)) && p@ == root_display@,
            RootStatus::Unreadable(m) => r matches Err(ScanError::Io { path, message }) && path@ == root_display@
                && message@ == m@,
            RootStatus::Exists { is_dir, is_symlink, target_exists } => if is_dir {
                r is Ok
            } else if is_symlink && !target_exists {
                r matches Err(ScanError::NotFound(p)) && p@ == root_display@
            } else {
                r matches Err(ScanError::NotADirectory(p)) && p@ == root_display@
            },
        },
{
    match status {
        RootStatus::Missing => Err(ScanError::NotFound(String::from_str(root_display))),
        RootStatus::Unreadable(m) => Err(ScanError::Io { path: String::from_str(root_display), message: m }),
        RootStatus::Exists { is_dir, is_symlink, target_exists } => {
            if is_dir {
                Ok(())
            } else if is_symlink && !target_exists {
                Err(ScanError::NotFound(String::from_str(root_display)))
            } else {
                Err(ScanError::NotADirectory(String::from_str(root_display)))
            }
        },
    }
}

/// The components of `path` below `root`; when `path` is not under `root`,
/// only its last component (the file's own name).
pub open spec fn relative_parts(root: Seq<Seq<char>>, path: Seq<Seq<char>>) -> Seq<Seq<char>> {
    if root.len() <= path.len() && path.take(root.len() as int) == root {
        path.skip(root.len() as int)
    } else if path.len() > 0 {
        seq![path.last()]
    } else {
        path
    }
}

/// Render `path` relative to `root` using `/` separators; both are given as
/// their path components. Falls back to the file's own name (the last
/// component of `path`) when `path` is not under `root`.
pub fn relative_display(root: &Vec<String>, path: &Vec<String>) -> (r: String)
    ensures
        r@ == join_with(
            relative_parts(root@.map_values(|s: String| s@), path@.map_values(|s: String| s@)),
            "/"@,
        ),
{
    let ghost rv = root@.map_values(|s: String| s@);
    let ghost pv = path@.map_values(|s: String| s@);
    let mut is_prefix = root.len() <= path.len();
    let mut i: usize = 0;
    while is_prefix && i < root.len()
        invariant
            i <= root@.len(),
            rv == root@.map_values(|s: String| s@),
            pv == path@.map_values(|s: String| s@),
            is_prefix ==> root@.len() <= path@.len() && forall|j: int| 0 <= j < i ==> rv[j] == pv[j],
            !is_prefix ==> !(root@.len() <= path@.len() && pv.take(root@.len() as int) == rv),
        decreases root.len() - i + (if is_prefix { 1int } else { 0int }),
    {
        if root[i] != path[i] {
            is_prefix = false;
            assert(pv.take(root@.len() as int)[i as int] != rv[i as int]);
        } else {
            i = i + 1;
        }
    }
    let mut parts: Vec<String> = Vec::new();
    let start: usize = if is_prefix {
        assert(pv.take(root@.len() as int) =~= rv);
        root.len()
    } else if path.len() > 0 {
        path.len() - 1
    } else {
        0
    };
    let mut k: usize = start;
    while k < path.len()
        invariant
            start <= k <= path@.len(),
            pv == path@.map_values(|s: String| s@),
            parts@.map_values(|s: String| s@) == pv.subrange(start as int, k as int),
        decreases path.len() - k,
    {
        let ghost before = parts@;
        let c = path[k].clone();
        assert(c@ == pv[k as int]);
        parts.push(c);
        assert(parts@ == before.push(c));
        assert(parts@.map_values(|s: String| s@) =~= before.map_values(|s: String| s@).push(c@));
        assert(parts@.map_values(|s: String| s@) =~= pv.subrange(start as int, k + 1));
        k = k + 1;
    }
    assert(pv.skip(start as int) =~= pv.subrange(start as int, path@.len() as int));
    assert(pv.skip(0) =~= pv);
    if !is_prefix && path.len() > 0 {
        assert(pv.subrange(start as int, path@.len() as int) =~= seq![pv.last()]);
    }
    crate::text::join_strings(&parts, "/")
}

/// The discovered-document record for a local metadata file: its display
/// path is `path` relative to `root`, its location the directory part of that.
pub fn local_metadata_file(role: MetadataRole, root: &Vec<String>, path: &Vec<String>, source: String, bytes: Vec<u8>) -> (r: RawMetadataFile)
    ensures
        r.role == role,
        r.source == source,
        r.bytes == bytes,
        r.rel_display@ == join_with(
            relative_parts(root@.map_values(|s: String| s@), path@.map_values(|s: String| s@)),
            "/"@,
        ),
        r.location@ == parent_of(r.rel_display@),
{
    let rel_display = relative_display(root, path);
    let location = crate::text::parent_location(rel_display.as_str());
    RawMetadataFile { role, source, rel_display, location, bytes }
}

/// The scan of the remote or cloud store at `root` that holds the discovered
/// `files`: the files sorted by display path (stably).
pub fn sorted_scan(root: String, files: Vec<RawMetadataFile>) -> (r: StoreScan)
    ensures
        r.root == root,
        files_view(r.files@) == crate::sorting::sort_by(files_view(files@), path_le()),
{
    StoreScan { root, files: crate::cloud::sort_files(files) }
}

/// The order of a depth-first walk that visits the entries of each
/// directory sorted by name: paths are compared name by name, so a name
/// comes before every longer name it begins (`a/x` before `a.b/y`).
/// Character by character, `/` ends a name and sorts before any other
/// character; a path that ends first sorts first.
pub open spec fn walk_text_le(a: Seq<char>, b: Seq<char>) -> bool
    decreases a.len(),
{
    if a.len() == 0 {
        true
    } else if b.len() == 0 {
        false
    } else if a[0] == b[0] {
        walk_text_le(a.drop_first(), b.drop_first())
    } else if a[0] == '/' {
        true
    } else if b[0] == '/' {
        false
    } else {
        (a[0] as int) < (b[0] as int)
    }
}

/// Orders discovered documents as a name-sorted depth-first walk visits
/// them (see [`walk_text_le`]).
pub open spec fn walk_le() -> spec_fn(RawFileView, RawFileView) -> bool {
    |a: RawFileView, b: RawFileView| walk_text_le(a.rel_display, b.rel_display)
}

proof fn lemma_walk_common_prefix(p: Seq<char>, a: Seq<char>, b: Seq<char>)
    ensures
        walk_text_le(p + a, p + b) == walk_text_le(a, b),
    decreases p.len(),
{
    if p.len() > 0 {
        assert((p + a).drop_first() =~= p.drop_first() + a);
        assert((p + b).drop_first() =~= p.drop_first() + b);
        assert((p + a)[0] == (p + b)[0]);
        lemma_walk_common_prefix(p.drop_first(), a, b);
    }
}

/// The walk order: paths below a common directory are ordered as their
/// parts below it, and everything inside a directory `n` comes before an
/// entry whose name is `n` followed by more characters (`a/x` before
/// `a.b/y`), never after it.
pub proof fn lemma_walk_order(d: Seq<char>, x: Seq<char>, y: Seq<char>, n: Seq<char>, c: char, z: Seq<char>)
    requires
        c != '/',
    ensures
        walk_text_le(d + "/"@ + x, d + "/"@ + y) == walk_text_le(x, y),
        walk_text_le(n + "/"@ + x, n + seq![c] + z),
        !walk_text_le(n + seq![c] + z, n + "/"@ + x),
{
    reveal_strlit("/");
    lemma_walk_common_prefix(d + "/"@, x, y);
    assert(d + "/"@ + x =~= (d + "/"@) + x);
    lemma_walk_common_prefix(n, "/"@ + x, seq![c] + z);
    lemma_walk_common_prefix(n, seq![c] + z, "/"@ + x);
    assert(n + "/"@ + x =~= n + ("/"@ + x));
    assert(n + seq![c] + z =~= n + (seq![c] + z));
    let a = "/"@ + x;
    let b = seq![c] + z;
    assert(a[0] == '/' && b[0] == c);
    assert(walk_text_le(a, b));
    assert(!walk_text_le(b, a));
}

fn walk_chars_le(a: &Vec<char>, b: &Vec<char>) -> (r: bool)
    ensures
        r == walk_text_le(a@, b@),
{
    let mut i: usize = 0;
    assert(a@.skip(0) =~= a@);
    assert(b@.skip(0) =~= b@);
    while i < a.len() && i < b.len() && a[i] == b[i]
        invariant
            i <= a@.len(),
            i <= b@.len(),
            walk_text_le(a@, b@) == walk_text_le(a@.skip(i as int), b@.skip(i as int)),
        decreases a.len() - i,
    {
        assert(a@.skip(i as int).drop_first() =~= a@.skip(i + 1));
        assert(b@.skip(i as int).drop_first() =~= b@.skip(i + 1));
        i = i + 1;
    }
    let ghost x = a@.skip(i as int);
    let ghost y = b@.skip(i as int);
    if i == a.len() {
        assert(x.len() == 0);
        assert(walk_text_le(x, y));
        true
    } else if i == b.len() {
        assert(y.len() == 0 && x.len() > 0);
        assert(!walk_text_le(x, y));
        false
    } else {
        assert(x[0] == a@[i as int] && y[0] == b@[i as int]);
        assert(x[0] != y[0]);
        if a[i] == '/' {
            assert(walk_text_le(x, y));
            true
        } else if b[i] == '/' {
            assert(!walk_text_le(x, y));
            false
        } else {
            assert(walk_text_le(x, y) == ((x[0] as int) < (y[0] as int)));
            a[i] < b[i]
        }
    }
}

/// The scan of the local store at `root` that holds the discovered `files`:
/// the files in the order of a depth-first walk that visits each
/// directory's entries sorted by name (see [`walk_le`]), ties kept in the
/// order given.
pub fn walk_scan(root: String, files: Vec<RawMetadataFile>) -> (r: StoreScan)
    ensures
        r.root == root,
        files_view(r.files@) == crate::sorting::sort_by(files_view(files@), walk_le()),
{
    let le = |a: &RawMetadataFile, b: &RawMetadataFile| -> (r: bool)
        ensures
            r == walk_le()(a@, b@),
        {
            let x = to_chars(a.rel_display.as_str());
            let y = to_chars(b.rel_display.as_str());
            walk_chars_le(&x, &y)
        };
    let ghost input = files@;
    let ghost file_le = |a: RawMetadataFile, b: RawMetadataFile| walk_le()(a@, b@);
    let sorted = crate::sorting::sort_vec_by(files, le, Ghost(file_le));
    proof {
        crate::sorting::lemma_sort_map(input, |f: RawMetadataFile| f@, file_le, walk_le());
        assert(files_view(input) == input.map_values(|f: RawMetadataFile| f@));
        assert(files_view(sorted@) == sorted@.map_values(|f: RawMetadataFile| f@));
    }
    StoreScan { root, files: sorted }
}

} // verus!
