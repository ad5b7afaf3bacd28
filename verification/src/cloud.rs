//! Cloud object-store discovery (`s3://`, `gs://`, `az://`, …).
//!
//! Object stores support listing, so discovery lists the store's prefix and
//! keeps every recognized metadata document. The listing and the reads are
//! done by the caller; this module decides which listed objects belong to the
//! store and what they are, and orders the result.

use vstd::prelude::*;
use vstd::string::StringExecFns;

use crate::scanner::{files_view, path_le, role_of_name, sorted_scan, StoreScan, url_scheme, url_scheme_of, MetadataRole, RawFileView, RawMetadataFile, ScanError, StoreOptions};
use crate::sorting::sort_by;
use crate::text::{concat3, final_segment, str_eq, last_segment, parent_location, parent_of, seq_le, string_from_chars, to_chars};

verus! {

broadcast use vstd::std_specs::vec::group_vec_axioms;

/// `full` relative to the directory `prefix`: all of `full` when `prefix` is
/// empty; otherwise what follows `prefix` and a `/`, or `None` when `full` is
/// not a proper child of the prefix directory.
pub open spec fn relative_to(prefix: Seq<char>, full: Seq<char>) -> Option<Seq<char>> {
    if prefix.len() == 0 {
        Some(full)
    } else if prefix.len() < full.len() && full.take(prefix.len() as int) == prefix && full[prefix.len() as int] == '/' {
        Some(full.skip(prefix.len() as int + 1))
    } else {
        None
    }
}

/// With no prefix every path is its own relative path; below a non-empty
/// prefix directory, a path found relative to it is the prefix, a `/` and
/// that relative path, and every path of that form is found, relative to
/// the prefix.
pub proof fn lemma_relative_to_inverse(prefix: Seq<char>, full: Seq<char>, rel: Seq<char>)
    ensures
        prefix.len() == 0 ==> relative_to(prefix, full) == Some(full),
        prefix.len() > 0 && relative_to(prefix, full) is Some ==> full == prefix + "/"@ + relative_to(prefix, full)->0,
        prefix.len() > 0 ==> relative_to(prefix, prefix + "/"@ + rel) == Some(rel),
{
    reveal_strlit("/");
    if prefix.len() > 0 && relative_to(prefix, full) is Some {
        assert(full =~= prefix + "/"@ + full.skip(prefix.len() as int + 1));
    }
    if prefix.len() > 0 {
        let t = prefix + "/"@ + rel;
        assert(t.take(prefix.len() as int) =~= prefix);
        assert(t[prefix.len() as int] == '/');
        assert(t.skip(prefix.len() as int + 1) =~= rel);
    }
}

/// Return `full` relative to `prefix`, or `None` if `full` is not a proper
/// child of the prefix directory (enforcing a `/` boundary).
pub fn relativize(prefix: &str, full: &str) -> (r: Option<String>)
    ensures
        match r {
            Some(s) => relative_to(prefix@, full@) == Some(s@),
            None => relative_to(prefix@, full@).is_none(),
        },
{
    let p = to_chars(prefix);
    let f = to_chars(full);
    if p.len() == 0 {
        return Some(string_from_chars(&f, 0, f.len()));
    }
    if p.len() >= f.len() {
        assert(!(prefix@.len() < full@.len()));
        assert(prefix@.len() != 0);
        return None;
    }
    let mut i: usize = 0;
    while i < p.len()
        invariant
            i <= p@.len() < f@.len(),
            p@ == prefix@,
            f@ == full@,
            p@.len() > 0,
            forall|j: int| 0 <= j < i ==> p@[j] == f@[j],
        decreases p.len() - i,
    {
        if p[i] != f[i] {
            assert(f@.take(p@.len() as int)[i as int] != p@[i as int]);
            return None;
        }
        i = i + 1;
    }
    assert(f@.take(p@.len() as int) =~= p@);
    if f[p.len()] != '/' {
        return None;
    }
    Some(string_from_chars(&f, p.len() + 1, f.len()))
}

/// `s` without its trailing `/` characters.
pub open spec fn trim_trailing_slashes(s: Seq<char>) -> Seq<char>
    decreases s.len(),
{
    if s.len() > 0 && s.last() == '/' {
        trim_trailing_slashes(s.drop_last())
    } else {
        s
    }
}

fn trim_end_slashes(s: &str) -> (r: String)
    ensures
        r@ == trim_trailing_slashes(s@),
{
    let cs = to_chars(s);
    let mut n = cs.len();
    assert(cs@.take(n as int) =~= cs@);
    while n > 0 && cs[n - 1] == '/'
        invariant
            n <= cs@.len(),
            trim_trailing_slashes(cs@) == trim_trailing_slashes(cs@.take(n as int)),
        decreases n,
    {
        assert(cs@.take(n as int).drop_last() =~= cs@.take(n - 1));
        n = n - 1;
    }
    assert(cs@.subrange(0, n as int) =~= cs@.take(n as int));
    string_from_chars(&cs, 0, n)
}

/// A listed object that is a metadata document of the store, before it is
/// read.
#[derive(Debug, Clone)]
pub struct CloudEntry {
    /// The role implied by the object's name.
    pub role: MetadataRole,
    /// The object's path relative to the store prefix.
    pub rel_display: String,
    /// The directory part of `rel_display`.
    pub location: String,
    /// The store URL joined with `rel_display`.
    pub source: String,
}

/// The entry for the object at `full` in a store listed under `prefix` and
/// addressed as `root`, when it is a proper child of the prefix named like a
/// node marker (chunk data, `.zattrs`, `.zmetadata`, … are not).
pub open spec fn cloud_entry_of(prefix: Seq<char>, full: Seq<char>, root: Seq<char>) -> Option<(MetadataRole, Seq<char>, Seq<char>, Seq<char>)> {
    match relative_to(prefix, full) {
        Some(rel) => match role_of_name(last_segment(rel)) {
            Some(role) => Some((role, rel, parent_of(rel), trim_trailing_slashes(root) + "/"@ + rel)),
            None => None,
        },
        None => None,
    }
}

/// An object listed below a non-empty prefix directory whose final name is
/// a node marker is discovered with that marker's role, its path relative
/// to the prefix, and that path's directory as its location: `<d>/<marker>`
/// is located at `d`, a marker directly below the prefix at the store root.
pub proof fn lemma_cloud_marker_discovered(prefix: Seq<char>, d: Seq<char>, marker: Seq<char>, root: Seq<char>)
    requires
        prefix.len() > 0,
        role_of_name(marker) is Some,
        forall|j: int| 0 <= j < marker.len() ==> marker[j] != '/',
    ensures
        cloud_entry_of(prefix, prefix + "/"@ + (d + "/"@ + marker), root) == Some(
            (role_of_name(marker)->0, d + "/"@ + marker, d, trim_trailing_slashes(root) + "/"@ + (d + "/"@ + marker)),
        ),
        cloud_entry_of(prefix, prefix + "/"@ + marker, root) == Some(
            (role_of_name(marker)->0, marker, Seq::<char>::empty(), trim_trailing_slashes(root) + "/"@ + marker),
        ),
{
    lemma_relative_to_inverse(prefix, prefix + "/"@ + (d + "/"@ + marker), d + "/"@ + marker);
    lemma_relative_to_inverse(prefix, prefix + "/"@ + marker, marker);
    crate::text::lemma_path_split(d, marker);
}

/// Classify one listed object (see [`cloud_entry_of`]).
pub fn cloud_entry(prefix: &str, full: &str, root: &str) -> (r: Option<CloudEntry>)
    ensures
        match r {
            Some(e) => cloud_entry_of(prefix@, full@, root@) == Some((e.role, e.rel_display@, e.location@, e.source@)),
            None => cloud_entry_of(prefix@, full@, root@).is_none(),
        },
{
    let rel = match relativize(prefix, full) {
        Some(rel) => rel,
        None => return None,
    };
    let name = final_segment(rel.as_str());
    let role = match MetadataRole::from_file_name(name.as_str()) {
        Some(role) => role,
        None => return None,
    };
    let location = parent_location(rel.as_str());
    let trimmed = trim_end_slashes(root);
    let source = concat3(trimmed.as_str(), "/", rel.as_str());
    Some(CloudEntry { role, rel_display: rel, location, source })
}

impl CloudEntry {
    /// The discovered-document record for this entry, with the bytes read.
    pub fn into_file(self, bytes: Vec<u8>) -> (r: RawMetadataFile)
        ensures
            r.role == self.role,
            r.rel_display == self.rel_display,
            r.location == self.location,
            r.source == self.source,
            r.bytes == bytes,
    {
        RawMetadataFile { role: self.role, source: self.source, rel_display: self.rel_display, location: self.location, bytes }
    }
}

/// Orders discovered documents by display path.
pub open spec fn display_le() -> spec_fn(RawMetadataFile, RawMetadataFile) -> bool {
    |a: RawMetadataFile, b: RawMetadataFile| seq_le(a.rel_display@, b.rel_display@)
}

/// Sort discovered documents by display path (stably).
pub fn sort_files(files: Vec<RawMetadataFile>) -> (r: Vec<RawMetadataFile>)
    ensures
        r@ == sort_by(files@, display_le()),
        files_view(r@) == sort_by(files_view(files@), path_le()),
{
    let le = |a: &RawMetadataFile, b: &RawMetadataFile| -> (r: bool)
        ensures
            r == display_le()(*a, *b),
        {
            proof {
                crate::text::lemma_seq_trichotomy(a.rel_display@, b.rel_display@);
            }
            let x = to_chars(a.rel_display.as_str());
            let y = to_chars(b.rel_display.as_str());
            match crate::text::compare_chars(&x, &y) {
                crate::text::Order::Greater => false,
                _ => true,
            }
        };
    let ghost input = files@;
    let r = crate::sorting::sort_vec_by(files, le, Ghost(display_le()));
    proof {
        crate::sorting::lemma_sort_map(input, |f: RawMetadataFile| f@, display_le(), path_le());
        assert(files_view(input) == input.map_values(|f: RawMetadataFile| f@));
        assert(files_view(r@) == r@.map_values(|f: RawMetadataFile| f@));
    }
    r
}

/// How an object store is accessed.
#[derive(Debug, Clone, Copy, PartialEq, Eq, Structural)]
pub enum CloudAccess {
    /// With credentials from the environment.
    Credentialed,
    /// Without credentials or request signing.
    Anonymous,
}

/// The first way to access a store: anonymous when asked for, otherwise with
/// credentials.
pub fn first_access(options: &StoreOptions) -> (r: CloudAccess)
    ensures
        r == (if options.anonymous { CloudAccess::Anonymous } else { CloudAccess::Credentialed }),
{
    if options.anonymous {
        CloudAccess::Anonymous
    } else {
        CloudAccess::Credentialed
    }
}

/// What to try after a failed access: credentialed access falls back to
/// anonymous access (so public data is readable without credentials);
/// anonymous access has no fallback. When the fallback fails too, the error
/// of the first access is the one reported.
pub fn fallback_access(failed: CloudAccess) -> (r: Option<CloudAccess>)
    ensures
        r == (if failed == CloudAccess::Credentialed { Some(CloudAccess::Anonymous) } else { None::<CloudAccess> }),
{
    match failed {
        CloudAccess::Credentialed => Some(CloudAccess::Anonymous),
        CloudAccess::Anonymous => None,
    }
}

/// The path of `target` read as a URL: what `url::Url::parse` and then
/// `Url::path` give, or the text of the parse error.
pub uninterp spec fn url_path_of(target: Seq<char>) -> Result<Seq<char>, Seq<char>>;

/// The object-store path for a URL path: what
/// `object_store::path::Path::from_url_path` gives (as its string form), or the
/// text of its error.
pub uninterp spec fn object_path_of(url_path: Seq<char>) -> Result<Seq<char>, Seq<char>>;

/// Parses `target` as a URL (`url::Url::parse`) and returns its path
/// (`Url::path`). The contract names the outcome as a function of `target`;
/// which strings are valid URLs is not stated.
#[verifier::external_body]
fn parse_url_path(target: &str) -> (r: Result<String, String>)
    ensures
        match r {
            Ok(p) => url_path_of(target@) == Ok::<Seq<char>, Seq<char>>(p@),
            Err(e) => url_path_of(target@) == Err::<Seq<char>, Seq<char>>(e@),
        },
{
    match url::Url::parse(target) {
        Ok(url) => Ok(url.path().to_string()),
        Err(err) => Err(err.to_string()),
    }
}

/// Decodes a URL path into an object-store path
/// (`object_store::path::Path::from_url_path`), as its string form. The
/// contract names the outcome as a function of `url_path`; which paths are
/// refused is not stated.
#[verifier::external_body]
fn object_path_from_url_path(url_path: &str) -> (r: Result<String, String>)
    ensures
        match r {
            Ok(p) => object_path_of(url_path@) == Ok::<Seq<char>, Seq<char>>(p@),
            Err(e) => object_path_of(url_path@) == Err::<Seq<char>, Seq<char>>(e@),
        },
{
    match object_store::path::Path::from_url_path(url_path) {
        Ok(path) => Ok(path.as_ref().to_string()),
        Err(err) => Err(err.to_string()),
    }
}

/// The prefix under which the store at the URL `target` is listed: the URL's
/// path, decoded into an object-store path. A URL or a path that cannot be
/// read is a [`ScanError::Remote`] naming `target`.
pub fn cloud_prefix(target: &str) -> (r: Result<String, ScanError>)
    ensures
        match url_path_of(target@) {
            Err(m) => r matches Err(ScanError::Remote { url, message }) && url@ == target@ && message@ == m,
            Ok(p) => match object_path_of(p) {
                Err(m) => r matches Err(ScanError::Remote { url, message }) && url@ == target@ && message@ == m,
                Ok(prefix) => r matches Ok(s) && s@ == prefix,
            },
        },
{
    let path = match parse_url_path(target) {
        Ok(path) => path,
        Err(message) => return Err(ScanError::Remote { url: String::from_str(target), message }),
    };
    match object_path_from_url_path(path.as_str()) {
        Ok(prefix) => Ok(prefix),
        Err(message) => Err(ScanError::Remote { url: String::from_str(target), message }),
    }
}

/// The cloud service an object-store URL addresses.
#[derive(Debug, Clone, Copy, PartialEq, Eq, Structural)]
pub enum CloudProvider {
    /// Amazon S3 (`s3://`, `s3a://`).
    Amazon,
    /// Google Cloud Storage (`gs://`, `gcs://`).
    Google,
    /// Microsoft Azure (`az://`, `azure://`, `abfs://`, `abfss://`).
    Azure,
}

/// The provider for a (lowercase) URL scheme.
pub open spec fn provider_of(scheme: Seq<char>) -> Option<CloudProvider> {
    if scheme == "s3"@ || scheme == "s3a"@ {
        Some(CloudProvider::Amazon)
    } else if scheme == "gs"@ || scheme == "gcs"@ {
        Some(CloudProvider::Google)
    } else if scheme == "az"@ || scheme == "azure"@ || scheme == "abfs"@ || scheme == "abfss"@ {
        Some(CloudProvider::Azure)
    } else {
        None
    }
}

/// The provider addressed by `target`; a scheme that names none is
/// [`ScanError::UnsupportedScheme`], as is a target that is not a URL (with
/// an empty scheme).
pub fn cloud_provider(target: &str) -> (r: Result<CloudProvider, ScanError>)
    ensures
        match url_scheme_of(target@) {
            Some(s) => match provider_of(s) {
                Some(p) => r == Ok::<CloudProvider, ScanError>(p),
                None => r matches Err(ScanError::UnsupportedScheme(x)) && x@ == s,
            },
            None => r matches Err(ScanError::UnsupportedScheme(x)) && x@ == Seq::<char>::empty(),
        },
{
    let scheme = match url_scheme(target) {
        Some(s) => s,
        None => return Err(ScanError::UnsupportedScheme(String::new())),
    };
    let t = scheme.as_str();
    if str_eq(t, "s3") || str_eq(t, "s3a") {
        Ok(CloudProvider::Amazon)
    } else if str_eq(t, "gs") || str_eq(t, "gcs") {
        Ok(CloudProvider::Google)
    } else if str_eq(t, "az") || str_eq(t, "azure") || str_eq(t, "abfs") || str_eq(t, "abfss") {
        Ok(CloudProvider::Azure)
    } else {
        Err(ScanError::UnsupportedScheme(scheme))
    }
}

/// Whether requests are sent unsigned: for anonymous access to Amazon or
/// Azure. Google Cloud Storage reads public objects without credentials and
/// has no such switch.
pub fn skip_signature(provider: CloudProvider, access: CloudAccess) -> (r: bool)
    ensures
        r == (access == CloudAccess::Anonymous && provider != CloudProvider::Google),
{
    match access {
        CloudAccess::Anonymous => match provider {
            CloudProvider::Google => false,
            _ => true,
        },
        CloudAccess::Credentialed => false,
    }
}

/// The access to try after the first access to a store had `first` as its
/// outcome: anonymous access when credentialed access failed; nothing when
/// it succeeded or was already anonymous.
pub fn next_access(options: &StoreOptions, first: &Result<Vec<RawMetadataFile>, ScanError>) -> (r: Option<CloudAccess>)
    ensures
        r == (if first is Err && !options.anonymous { Some(CloudAccess::Anonymous) } else { None::<CloudAccess> }),
{
    match first {
        Ok(_) => None,
        Err(_) => fallback_access(first_access(options)),
    }
}

/// What scanning the cloud store at `target` reports, from the outcome of
/// the first access (`first`) and of the access [`next_access`] names, if
/// any (`second`): the documents of the first access that succeeded, sorted
/// by display path; when every access failed, the first access's error.
pub fn cloud_scan_outcome(
    target: &str,
    options: &StoreOptions,
    first: Result<Vec<RawMetadataFile>, ScanError>,
    second: Option<Result<Vec<RawMetadataFile>, ScanError>>,
) -> (r: Result<StoreScan, ScanError>)
    ensures
        match first {
            Ok(f) => r matches Ok(s) && s.root@ == target@
                && files_view(s.files@) == sort_by(files_view(f@), path_le()),
            Err(e) => if options.anonymous {
                r == Err::<StoreScan, ScanError>(e)
            } else {
                match second {
                    Some(Ok(f)) => r matches Ok(s) && s.root@ == target@
                        && files_view(s.files@) == sort_by(files_view(f@), path_le()),
                    _ => r == Err::<StoreScan, ScanError>(e),
                }
            },
        },
{
    match first {
        Ok(files) => Ok(sorted_scan(String::from_str(target), files)),
        Err(e) => {
            if options.anonymous {
                return Err(e);
            }
            match second {
                Some(Ok(files)) => Ok(sorted_scan(String::from_str(target), files)),
                _ => Err(e),
            }
        },
    }
}

} // verus!
