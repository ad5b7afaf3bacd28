//! Conservative metadata formatting for local Zarr stores.
//!
//! Formatting is limited to representation-only JSON changes: object members
//! sorted by name, two-space indentation, and one final newline. A change is
//! only planned when the formatted bytes parse back to the same value.
//!
//! Walking the store and reading and writing files is done by the caller;
//! this module decides which documents change and checks what was written.

use vstd::prelude::*;
use vstd::string::StringExecFns;

use crate::diagnostic::{diags_view, DiagView, Severity};
use crate::json::{Json, JsonValue};
use crate::json_codec::{json_equal, json_parse, json_pretty, json_sort_keys, parse_json, sort_objects, to_pretty_bytes};
use crate::rule::STRUCTURE_UNRECOGNIZED_STORE;
use crate::scanner::{is_ascii_alpha, relative_display, relative_parts, role_of_name, scan_error_text, MetadataRole, ScanError};
use crate::text::{concat2, concat3, join_with, last_segment, str_eq, to_chars};
use crate::{LintError, Report};

verus! {

broadcast use vstd::std_specs::vec::group_vec_axioms;

/// The v2 attributes file name.
pub const V2_ATTRS_FILE: &'static str = ".zattrs";
/// The v2 consolidated metadata file name.
pub const V2_CONSOLIDATED_FILE: &'static str = ".zmetadata";

/// A proposed representation-only change to one metadata document.
#[derive(Debug, Clone)]
pub struct FormatChange {
    /// Store-relative path of the metadata document, using `/` separators.
    pub rel_display: String,
    /// Filesystem path to the metadata document.
    pub path: String,
    /// Original file bytes.
    pub original_bytes: Vec<u8>,
    /// Canonical JSON bytes to write.
    pub formatted_bytes: Vec<u8>,
}

/// The mathematical value of a [`FormatChange`].
pub struct ChangeView {
    pub rel_display: Seq<char>,
    pub path: Seq<char>,
    pub original_bytes: Seq<u8>,
    pub formatted_bytes: Seq<u8>,
}

impl View for FormatChange {
    type V = ChangeView;

    open spec fn view(&self) -> ChangeView {
        ChangeView {
            rel_display: self.rel_display@,
            path: self.path@,
            original_bytes: self.original_bytes@,
            formatted_bytes: self.formatted_bytes@,
        }
    }
}

/// The complete set of formatting changes for a store.
#[derive(Debug, Clone)]
pub struct FormatPlan {
    /// Metadata documents whose byte representation will change.
    pub changes: Vec<FormatChange>,
    /// Metadata documents that are already canonical.
    pub unchanged: Vec<String>,
}

impl FormatPlan {
    /// Whether the store already has canonical metadata formatting.
    pub fn is_empty(&self) -> (r: bool)
        ensures
            r == (self.changes@.len() == 0),
    {
        self.changes.len() == 0
    }
}

/// A metadata document read for formatting.
#[derive(Debug)]
pub struct MetadataDocument {
    /// Store-relative path of the document, using `/` separators.
    pub rel_display: String,
    /// Filesystem path to the document.
    pub path: String,
    /// The document's bytes.
    pub bytes: Vec<u8>,
    /// The bytes, parsed.
    pub parsed: JsonValue,
}

/// The mathematical value of a [`MetadataDocument`].
pub struct DocView {
    pub rel_display: Seq<char>,
    pub path: Seq<char>,
    pub bytes: Seq<u8>,
    pub parsed: Json,
}

impl View for MetadataDocument {
    type V = DocView;

    open spec fn view(&self) -> DocView {
        DocView { rel_display: self.rel_display@, path: self.path@, bytes: self.bytes@, parsed: self.parsed@ }
    }
}

pub open spec fn docs_view(docs: Seq<MetadataDocument>) -> Seq<DocView> {
    docs.map_values(|d: MetadataDocument| d@)
}

/// Errors that prevent safe metadata formatting.
#[derive(Debug, Clone)]
pub enum FormatError {
    /// The target is not a local filesystem store.
    NonLocalStore,
    /// The target does not contain recognized Zarr metadata.
    UnrecognizedStore(String),
    /// The store has lint findings that make formatting unsafe.
    UnsafeMetadata,
    /// A metadata file is not valid JSON.
    InvalidJson {
        /// Store-relative metadata path.
        path: String,
        /// JSON parser error.
        message: String,
    },
    /// Canonical JSON output did not preserve the parsed JSON value.
    SemanticMismatch(String),
    /// The store could not be scanned.
    Scan(ScanError),
    /// The store could not be linted.
    Lint(LintError),
    /// An error occurred while walking the directory tree.
    Walk(String),
    /// An I/O error occurred.
    Io {
        /// Path that could not be read or written.
        path: String,
        /// Underlying I/O error, as text.
        message: String,
    },
}

/// The text of a formatting error, as it is shown to users.
pub open spec fn format_error_text(e: FormatError) -> Seq<char> {
    match e {
        FormatError::NonLocalStore => "fmt only supports local filesystem stores"@,
        FormatError::UnrecognizedStore(t) => "no Zarr metadata found in "@ + t@,
        FormatError::UnsafeMetadata => "store has metadata problems; run `zarr-lint check` before formatting"@,
        FormatError::InvalidJson { path, message } => "cannot format invalid JSON in "@ + path@ + ": "@ + message@,
        FormatError::SemanticMismatch(p) => "proposed formatting changed parsed metadata semantics for "@ + p@,
        FormatError::Scan(e) => scan_error_text(e),
        FormatError::Lint(LintError::Scan(e)) => scan_error_text(e),
        FormatError::Walk(m) => "failed to traverse store: "@ + m@,
        FormatError::Io { path, message } => "failed to write "@ + path@ + ": "@ + message@,
    }
}

impl FormatError {
    /// The error's text, as it is shown to users.
    pub fn message(&self) -> (r: String)
        ensures
            r@ == format_error_text(*self),
    {
        match self {
            FormatError::NonLocalStore => String::from_str("fmt only supports local filesystem stores"),
            FormatError::UnrecognizedStore(t) => concat2("no Zarr metadata found in ", t.as_str()),
            FormatError::UnsafeMetadata => String::from_str(
                "store has metadata problems; run `zarr-lint check` before formatting",
            ),
            FormatError::InvalidJson { path, message } => {
                let mut r = concat3("cannot format invalid JSON in ", path.as_str(), ": ");
                r.append(message.as_str());
                r
            },
            FormatError::SemanticMismatch(p) => concat2(
                "proposed formatting changed parsed metadata semantics for ",
                p.as_str(),
            ),
            FormatError::Scan(e) => e.message(),
            FormatError::Lint(e) => e.message(),
            FormatError::Walk(m) => concat2("failed to traverse store: ", m.as_str()),
            FormatError::Io { path, message } => {
                let mut r = concat3("failed to write ", path.as_str(), ": ");
                r.append(message.as_str());
                r
            },
        }
    }
}

/// Whether `name` is a metadata file that formatting covers: a node marker,
/// `.zattrs`, or `.zmetadata`.
pub open spec fn is_metadata_name(name: Seq<char>) -> bool {
    role_of_name(name).is_some() || name == V2_ATTRS_FILE@ || name == V2_CONSOLIDATED_FILE@
}

/// Whether `name` is a metadata file that formatting covers.
pub fn is_metadata_file(name: &str) -> (r: bool)
    ensures
        r == is_metadata_name(name@),
{
    MetadataRole::from_file_name(name).is_some() || str_eq(name, V2_ATTRS_FILE) || str_eq(name, V2_CONSOLIDATED_FILE)
}

/// Whether a document can show that the directory is a Zarr store: every
/// covered file but `.zattrs` can.
pub open spec fn is_marker_doc(d: DocView) -> bool {
    last_segment(d.rel_display) != V2_ATTRS_FILE@
}

fn is_store_marker(d: &MetadataDocument) -> (r: bool)
    ensures
        r == is_marker_doc(d@),
{
    let name = crate::text::final_segment(d.rel_display.as_str());
    !str_eq(name.as_str(), V2_ATTRS_FILE)
}

/// The index of the first `://` in `s` at or after `i`.
pub open spec fn find_sep(s: Seq<char>, i: int) -> Option<int>
    decreases s.len() - i,
{
    if i < 0 || i + 3 > s.len() {
        None
    } else if s[i] == ':' && s[i + 1] == '/' && s[i + 2] == '/' {
        Some(i)
    } else {
        find_sep(s, i + 1)
    }
}

/// `s` has the form `scheme://rest` (split at the first `://`) with a
/// non-empty scheme starting with an ASCII letter and a non-empty rest.
pub open spec fn looks_like_url_spec(s: Seq<char>) -> bool {
    match find_sep(s, 0) {
        Some(i) => i > 0 && i + 3 < s.len() && is_ascii_alpha(s[0]),
        None => false,
    }
}

/// Whether `target` looks like a URL rather than a local path.
pub fn looks_like_url(target: &str) -> (r: bool)
    ensures
        r == looks_like_url_spec(target@),
{
    let cs = to_chars(target);
    let mut i: usize = 0;
    while i < cs.len() && cs.len() - i >= 3
        invariant
            i <= cs@.len(),
            cs@ == target@,
            find_sep(cs@, 0) == find_sep(cs@, i as int),
        decreases cs.len() - i,
    {
        if cs[i] == ':' && cs[i + 1] == '/' && cs[i + 2] == '/' {
            return i > 0 && cs.len() - i > 3 && (('a' <= cs[0] && cs[0] <= 'z') || ('A' <= cs[0] && cs[0] <= 'Z'));
        }
        i = i + 1;
    }
    false
}

/// The canonical rendering of a value: members sorted by name, indented by
/// `serde_json`, and a final newline.
pub open spec fn canonical_bytes(v: Json) -> Seq<u8> {
    json_pretty(json_sort_keys(v)).push(10u8)
}

/// Render a value canonically (see [`canonical_bytes`]).
pub fn canonical_json(value: &JsonValue) -> (r: Vec<u8>)
    ensures
        r@ == canonical_bytes(value@),
{
    let sorted = sort_objects(value);
    let mut bytes = to_pretty_bytes(&sorted);
    bytes.push(10u8);
    bytes
}

/// What formatting does with one document.
pub enum DocOutcome {
    /// The canonical bytes do not parse; the parser's message.
    Unparsable(Seq<char>),
    /// The canonical bytes parse to a different value.
    Mismatch,
    /// The document is already canonical.
    Unchanged,
    /// The document would be rewritten with these bytes.
    Changed(Seq<u8>),
}

pub open spec fn doc_outcome(d: DocView) -> DocOutcome {
    let f = canonical_bytes(d.parsed);
    match json_parse(f) {
        Err(m) => DocOutcome::Unparsable(m),
        Ok(v) => if v != d.parsed {
            DocOutcome::Mismatch
        } else if f == d.bytes {
            DocOutcome::Unchanged
        } else {
            DocOutcome::Changed(f)
        },
    }
}

/// The outcome of planning a list of documents.
pub enum PlanView {
    /// Canonical output of the document at this path does not parse.
    InvalidJson(Seq<char>, Seq<char>),
    /// Canonical output of the document at this path changes its value.
    Mismatch(Seq<char>),
    /// The changes, and the paths of the documents left as they are.
    Planned(Seq<ChangeView>, Seq<Seq<char>>),
}

/// Plan the documents in order, stopping at the first that cannot be
/// formatted safely.
pub open spec fn plan_docs(docs: Seq<DocView>) -> PlanView
    decreases docs.len(),
{
    if docs.len() == 0 {
        PlanView::Planned(seq![], seq![])
    } else {
        let d = docs.last();
        match plan_docs(docs.drop_last()) {
            PlanView::Planned(changes, unchanged) => match doc_outcome(d) {
                DocOutcome::Unparsable(m) => PlanView::InvalidJson(d.rel_display, m),
                DocOutcome::Mismatch => PlanView::Mismatch(d.rel_display),
                DocOutcome::Unchanged => PlanView::Planned(changes, unchanged.push(d.rel_display)),
                DocOutcome::Changed(f) => PlanView::Planned(
                    changes.push(ChangeView { rel_display: d.rel_display, path: d.path, original_bytes: d.bytes, formatted_bytes: f }),
                    unchanged,
                ),
            },
            failed => failed,
        }
    }
}

/// The findings make formatting unsafe: some finding is an error and not
/// every finding is `structure/unrecognized-store`.
pub open spec fn unsafe_findings(ds: Seq<DiagView>) -> bool {
    &&& exists|i: int| 0 <= i < ds.len() && (#[trigger] ds[i]).rule != STRUCTURE_UNRECOGNIZED_STORE@
    &&& exists|i: int| 0 <= i < ds.len() && (#[trigger] ds[i]).severity == Severity::Error
}

/// How a planning result reads as a [`PlanView`], when it is one.
pub open spec fn plan_result_view(r: Result<FormatPlan, FormatError>) -> Option<PlanView> {
    match r {
        Ok(p) => Some(PlanView::Planned(
            p.changes@.map_values(|c: FormatChange| c@),
            p.unchanged@.map_values(|s: String| s@),
        )),
        Err(FormatError::InvalidJson { path, message }) => Some(PlanView::InvalidJson(path@, message@)),
        Err(FormatError::SemanticMismatch(p)) => Some(PlanView::Mismatch(p@)),
        _ => None,
    }
}

/// The plan for a store whose lint report has findings `ds` and whose
/// metadata documents are `docs`.
pub open spec fn store_plan_ok(r: Result<FormatPlan, FormatError>, target: Seq<char>, ds: Seq<DiagView>, docs: Seq<DocView>) -> bool {
    if docs.len() == 0 || !(exists|i: int| 0 <= i < docs.len() && is_marker_doc(#[trigger] docs[i])) {
        r matches Err(FormatError::UnrecognizedStore(t)) && t@ == target
    } else if unsafe_findings(ds) {
        r matches Err(FormatError::UnsafeMetadata)
    } else {
        plan_result_view(r) == Some(plan_docs(docs))
    }
}

/// Each document as it reads once the plan's changes are written: its
/// bytes are the canonical rendering of its value.
pub open spec fn reformatted(docs: Seq<DocView>) -> Seq<DocView> {
    docs.map_values(|d: DocView| DocView {
        rel_display: d.rel_display,
        path: d.path,
        bytes: canonical_bytes(d.parsed),
        parsed: d.parsed,
    })
}

/// The display paths of the documents, in order.
pub open spec fn doc_paths(docs: Seq<DocView>) -> Seq<Seq<char>> {
    docs.map_values(|d: DocView| d.rel_display)
}

/// A planned list of documents was planned in full: a prefix of it is
/// planned too.
proof fn lemma_planned_prefix(docs: Seq<DocView>)
    requires
        docs.len() > 0,
        plan_docs(docs) is Planned,
    ensures
        plan_docs(docs.drop_last()) is Planned,
        doc_outcome(docs.last()) is Unchanged || doc_outcome(docs.last()) is Changed,
{
}

/// In a planned list of documents, the canonical bytes of every document
/// parse back to its value.
proof fn lemma_planned_parse_back(docs: Seq<DocView>)
    requires
        plan_docs(docs) is Planned,
    ensures
        forall|i: int| 0 <= i < docs.len() ==> json_parse(canonical_bytes((#[trigger] docs[i]).parsed)) == Ok::<Json, Seq<char>>(docs[i].parsed),
    decreases docs.len(),
{
    if docs.len() > 0 {
        let rest = docs.drop_last();
        lemma_planned_prefix(docs);
        lemma_planned_parse_back(rest);
        assert forall|i: int| 0 <= i < docs.len() implies json_parse(canonical_bytes((#[trigger] docs[i]).parsed)) == Ok::<Json, Seq<char>>(docs[i].parsed) by {
            if i < rest.len() {
                assert(rest[i] == docs[i]);
            } else {
                assert(docs[i] == docs.last());
            }
        }
    }
}

/// Formatting touches only the documents it was given: a plan lists each
/// document once, either as unchanged or as a change to its canonical bytes
/// (keeping its paths and original bytes), in the documents' order.
pub proof fn lemma_plan_covers_documents(docs: Seq<DocView>)
    ensures
        plan_docs(docs) matches PlanView::Planned(changes, unchanged) ==> {
            &&& changes.len() + unchanged.len() == docs.len()
            &&& forall|j: int| 0 <= j < changes.len() ==> exists|i: int| 0 <= i < docs.len() && {
                &&& (#[trigger] changes[j]).rel_display == (#[trigger] docs[i]).rel_display
                &&& changes[j].path == docs[i].path
                &&& changes[j].original_bytes == docs[i].bytes
                &&& changes[j].formatted_bytes == canonical_bytes(docs[i].parsed)
                &&& doc_outcome(docs[i]) == DocOutcome::Changed(canonical_bytes(docs[i].parsed))
            }
            &&& forall|j: int| 0 <= j < unchanged.len() ==> exists|i: int| 0 <= i < docs.len()
                && #[trigger] unchanged[j] == (#[trigger] docs[i]).rel_display && doc_outcome(docs[i]) == DocOutcome::Unchanged
        },
    decreases docs.len(),
{
    if docs.len() > 0 && plan_docs(docs) is Planned {
        let rest = docs.drop_last();
        let d = docs.last();
        lemma_planned_prefix(docs);
        lemma_plan_covers_documents(rest);
        assert(d == docs[docs.len() - 1]);
        let (c0, u0) = match plan_docs(rest) {
            PlanView::Planned(c, u) => (c, u),
            _ => (Seq::empty(), Seq::empty()),
        };
        let (c1, u1) = match plan_docs(docs) {
            PlanView::Planned(c, u) => (c, u),
            _ => (Seq::empty(), Seq::empty()),
        };
        assert forall|j: int| 0 <= j < c1.len() implies exists|i: int| 0 <= i < docs.len() && {
            &&& (#[trigger] c1[j]).rel_display == (#[trigger] docs[i]).rel_display
            &&& c1[j].path == docs[i].path
            &&& c1[j].original_bytes == docs[i].bytes
            &&& c1[j].formatted_bytes == canonical_bytes(docs[i].parsed)
            &&& doc_outcome(docs[i]) == DocOutcome::Changed(canonical_bytes(docs[i].parsed))
        } by {
            if j < c0.len() {
                assert(c1[j] == c0[j]);
                let i = choose|i: int| 0 <= i < rest.len() && {
                    &&& (#[trigger] c0[j]).rel_display == (#[trigger] rest[i]).rel_display
                    &&& c0[j].path == rest[i].path
                    &&& c0[j].original_bytes == rest[i].bytes
                    &&& c0[j].formatted_bytes == canonical_bytes(rest[i].parsed)
                    &&& doc_outcome(rest[i]) == DocOutcome::Changed(canonical_bytes(rest[i].parsed))
                };
                assert(rest[i] == docs[i]);
            } else {
                assert(c1[j].rel_display == docs[docs.len() - 1].rel_display);
            }
        }
        assert forall|j: int| 0 <= j < u1.len() implies exists|i: int| 0 <= i < docs.len()
            && #[trigger] u1[j] == (#[trigger] docs[i]).rel_display && doc_outcome(docs[i]) == DocOutcome::Unchanged by {
            if j < u0.len() {
                assert(u1[j] == u0[j]);
                let i = choose|i: int| 0 <= i < rest.len() && #[trigger] u0[j] == (#[trigger] rest[i]).rel_display
                    && doc_outcome(rest[i]) == DocOutcome::Unchanged;
                assert(rest[i] == docs[i]);
            } else {
                assert(u1[j] == docs[docs.len() - 1].rel_display);
            }
        }
    }
}

/// Formatting keeps values: when a list of documents (each parsed from its
/// own bytes) is planned, every planned change has new bytes that parse to
/// the same value as the original bytes.
pub proof fn lemma_format_preserves_values(docs: Seq<DocView>)
    requires
        forall|i: int| 0 <= i < docs.len() ==> json_parse((#[trigger] docs[i]).bytes) == Ok::<Json, Seq<char>>(docs[i].parsed),
    ensures
        plan_docs(docs) matches PlanView::Planned(changes, _) ==> forall|j: int| 0 <= j < changes.len() ==> {
            &&& json_parse((#[trigger] changes[j]).formatted_bytes) == json_parse(changes[j].original_bytes)
            &&& changes[j].formatted_bytes != changes[j].original_bytes
        },
    decreases docs.len(),
{
    if docs.len() > 0 && plan_docs(docs) is Planned {
        let rest = docs.drop_last();
        lemma_planned_prefix(docs);
        assert forall|i: int| 0 <= i < rest.len() implies json_parse((#[trigger] rest[i]).bytes) == Ok::<Json, Seq<char>>(rest[i].parsed) by {
            assert(rest[i] == docs[i]);
        }
        lemma_format_preserves_values(rest);
        assert(docs.last() == docs[docs.len() - 1]);
    }
}

/// Formatting is idempotent: once the changes of a plan are written, every
/// document reads back as the value it held, and planning the documents
/// again finds every one of them unchanged.
pub proof fn lemma_format_idempotent(docs: Seq<DocView>)
    requires
        plan_docs(docs) is Planned,
    ensures
        forall|i: int| 0 <= i < docs.len() ==> json_parse(#[trigger] reformatted(docs)[i].bytes) == Ok::<Json, Seq<char>>(docs[i].parsed),
        plan_docs(reformatted(docs)) == PlanView::Planned(Seq::<ChangeView>::empty(), doc_paths(docs)),
    decreases docs.len(),
{
    lemma_planned_parse_back(docs);
    if docs.len() == 0 {
        assert(reformatted(docs) =~= Seq::<DocView>::empty());
        assert(doc_paths(docs) =~= Seq::<Seq<char>>::empty());
    } else {
        let rest = docs.drop_last();
        lemma_planned_prefix(docs);
        lemma_format_idempotent(rest);
        assert(reformatted(docs).drop_last() =~= reformatted(rest));
        assert(doc_paths(docs) =~= doc_paths(rest).push(docs.last().rel_display));
        let d = docs.last();
        let e = reformatted(docs).last();
        assert(e == reformatted(docs)[docs.len() - 1]);
        assert(e.parsed == d.parsed && e.bytes == canonical_bytes(d.parsed) && e.rel_display == d.rel_display);
        assert(doc_outcome(e) == DocOutcome::Unchanged);
    }
}

/// Read one covered metadata file for formatting: its display path is `path`
/// relative to `root` (both as components), and its bytes must be valid JSON.
pub fn format_document(root: &Vec<String>, path: &Vec<String>, path_display: String, bytes: Vec<u8>) -> (r: Result<MetadataDocument, FormatError>)
    ensures
        ({
            let rel = join_with(relative_parts(root@.map_values(|s: String| s@), path@.map_values(|s: String| s@)), "/"@);
            match json_parse(bytes@) {
                Ok(v) => r matches Ok(d) && d@ == (DocView { rel_display: rel, path: path_display@, bytes: bytes@, parsed: v }),
                Err(m) => r matches Err(FormatError::InvalidJson { path, message }) && path@ == rel && message@ == m,
            }
        }),
{
    let rel_display = relative_display(root, path);
    match parse_json(bytes.as_slice()) {
        Ok(parsed) => Ok(MetadataDocument { rel_display, path: path_display, bytes, parsed }),
        Err(message) => Err(FormatError::InvalidJson { path: rel_display, message }),
    }
}

/// Once planning a prefix of the documents fails, planning all of them fails
/// the same way.
proof fn lemma_plan_failure_sticks(docs: Seq<DocView>, k: int)
    requires
        0 <= k <= docs.len(),
        !(plan_docs(docs.take(k)) is Planned),
    ensures
        plan_docs(docs) == plan_docs(docs.take(k)),
    decreases docs.len() - k,
{
    if k < docs.len() {
        assert(docs.take(k + 1).drop_last() =~= docs.take(k));
        lemma_plan_failure_sticks(docs, k + 1);
    } else {
        assert(docs.take(k) =~= docs);
    }
}

fn bytes_equal(a: &Vec<u8>, b: &Vec<u8>) -> (r: bool)
    ensures
        r == (a@ == b@),
{
    if a.len() != b.len() {
        return false;
    }
    let mut i: usize = 0;
    while i < a.len()
        invariant
            i <= a@.len(),
            a@.len() == b@.len(),
            forall|j: int| 0 <= j < i ==> a@[j] == b@[j],
        decreases a.len() - i,
    {
        if a[i] != b[i] {
            return false;
        }
        i = i + 1;
    }
    assert(a@ =~= b@);
    true
}

fn plan_documents(documents: Vec<MetadataDocument>) -> (r: Result<FormatPlan, FormatError>)
    ensures
        plan_result_view(r) == Some(plan_docs(docs_view(documents@))),
{
    let ghost dv = docs_view(documents@);
    let mut changes: Vec<FormatChange> = Vec::new();
    let mut unchanged: Vec<String> = Vec::new();
    let mut rest = documents;
    let ghost n = rest@.len();
    assert(n == rest.len());
    assert(dv.skip(0) =~= dv);
    let mut i: usize = 0;
    assert(changes@.map_values(|c: FormatChange| c@) =~= Seq::<ChangeView>::empty());
    assert(unchanged@.map_values(|s: String| s@) =~= Seq::<Seq<char>>::empty());
    while rest.len() > 0
        invariant
            dv == docs_view(documents@),
            dv.len() == n,
            n <= usize::MAX,
            rest@.len() + i == n,
            docs_view(rest@) == dv.skip(i as int),
            plan_docs(dv.take(i as int)) == PlanView::Planned(
                changes@.map_values(|c: FormatChange| c@),
                unchanged@.map_values(|s: String| s@),
            ),
        decreases rest.len(),
    {
        let ghost before_rest = rest@;
        let document = rest.remove(0);
        assert(document@ == docs_view(before_rest)[0]);
        assert(docs_view(rest@) =~= dv.skip(i + 1)) by {
            assert(rest@ =~= before_rest.skip(1));
            assert forall|k: int| 0 <= k < rest@.len() implies docs_view(rest@)[k] == dv.skip(i + 1)[k] by {
                assert(rest@[k] == before_rest[k + 1]);
                assert(docs_view(before_rest)[k + 1] == dv.skip(i as int)[k + 1]);
            }
        }
        assert(dv.take(i + 1).drop_last() =~= dv.take(i as int));
        assert(dv.take(i + 1).last() == document@);
        let formatted = canonical_json(&document.parsed);
        let reparsed = match parse_json(formatted.as_slice()) {
            Ok(v) => v,
            Err(message) => {
                proof {
                    assert(doc_outcome(document@) == DocOutcome::Unparsable(message@));
                    assert(plan_docs(dv.take(i + 1)) == PlanView::InvalidJson(document@.rel_display, message@));
                    lemma_plan_failure_sticks(dv, i + 1);
                }
                return Err(FormatError::InvalidJson { path: document.rel_display, message });
            },
        };
        if !json_equal(&reparsed, &document.parsed) {
            proof {
                assert(doc_outcome(document@) == DocOutcome::Mismatch);
                assert(plan_docs(dv.take(i + 1)) == PlanView::Mismatch(document@.rel_display));
                lemma_plan_failure_sticks(dv, i + 1);
            }
            return Err(FormatError::SemanticMismatch(document.rel_display));
        }
        if bytes_equal(&formatted, &document.bytes) {
            let ghost before = unchanged@;
            unchanged.push(document.rel_display);
            assert(unchanged@.map_values(|s: String| s@) =~= before.map_values(|s: String| s@).push(document@.rel_display));
        } else {
            let c = FormatChange {
                rel_display: document.rel_display,
                path: document.path,
                original_bytes: document.bytes,
                formatted_bytes: formatted,
            };
            let ghost before = changes@;
            changes.push(c);
            assert(changes@.map_values(|c: FormatChange| c@) =~= before.map_values(|c: FormatChange| c@).push(c@));
        }
        i = i + 1;
    }
    assert(dv.take(n as int) =~= dv);
    Ok(FormatPlan { changes, unchanged })
}

/// Whether the findings make formatting unsafe (see [`unsafe_findings`]).
fn findings_unsafe(report: &Report) -> (r: bool)
    ensures
        r == unsafe_findings(diags_view(report.diagnostics@)),
{
    let ghost dv = diags_view(report.diagnostics@);
    let mut other = false;
    let mut error = false;
    let mut i: usize = 0;
    while i < report.diagnostics.len()
        invariant
            i <= report.diagnostics@.len(),
            dv == diags_view(report.diagnostics@),
            other == exists|j: int| 0 <= j < i && (#[trigger] dv[j]).rule != STRUCTURE_UNRECOGNIZED_STORE@,
            error == exists|j: int| 0 <= j < i && (#[trigger] dv[j]).severity == Severity::Error,
        decreases report.diagnostics.len() - i,
    {
        let d = &report.diagnostics[i];
        assert(dv[i as int] == d@);
        if !str_eq(d.rule, STRUCTURE_UNRECOGNIZED_STORE) {
            other = true;
        }
        match d.severity {
            Severity::Error => {
                error = true;
            },
            _ => {},
        }
        i = i + 1;
    }
    other && error
}

/// Refuse a target that is not a local filesystem store: a URL is
/// [`FormatError::NonLocalStore`]. This is decided before the store is read.
pub fn require_local_target(target: &str) -> (r: Result<(), FormatError>)
    ensures
        looks_like_url_spec(target@) <==> r matches Err(FormatError::NonLocalStore),
        !looks_like_url_spec(target@) <==> r is Ok,
{
    if looks_like_url(target) {
        Err(FormatError::NonLocalStore)
    } else {
        Ok(())
    }
}

/// Build the formatting plan for the local store at `target`, given its lint
/// report and its covered metadata documents (both read by the caller).
///
/// Refuses URLs, a failed lint, a failed document read, a directory with no
/// store marker, and a store with error findings (other than
/// `structure/unrecognized-store`); then plans the documents in order.
pub fn plan_format_store(
    target: &str,
    report: Result<Report, LintError>,
    documents: Result<Vec<MetadataDocument>, FormatError>,
) -> (r: Result<FormatPlan, FormatError>)
    ensures
        looks_like_url_spec(target@) ==> r matches Err(FormatError::NonLocalStore),
        !looks_like_url_spec(target@) ==> match report {
            Err(e) => r == Err::<FormatPlan, FormatError>(FormatError::Lint(e)),
            Ok(rep) => match documents {
                Err(e) => r == Err::<FormatPlan, FormatError>(e),
                Ok(docs) => store_plan_ok(r, target@, diags_view(rep.diagnostics@), docs_view(docs@)),
            },
        },
{
    if looks_like_url(target) {
        return Err(FormatError::NonLocalStore);
    }
    let report = match report {
        Ok(report) => report,
        Err(e) => return Err(FormatError::Lint(e)),
    };
    let documents = match documents {
        Ok(d) => d,
        Err(e) => return Err(e),
    };
    let ghost dv = docs_view(documents@);
    let mut any_marker = false;
    let mut i: usize = 0;
    while i < documents.len()
        invariant
            i <= documents@.len(),
            dv == docs_view(documents@),
            any_marker == exists|j: int| 0 <= j < i && is_marker_doc(#[trigger] dv[j]),
        decreases documents.len() - i,
    {
        assert(dv[i as int] == documents@[i as int]@);
        if is_store_marker(&documents[i]) {
            any_marker = true;
        }
        i = i + 1;
    }
    if documents.len() == 0 || !any_marker {
        return Err(FormatError::UnrecognizedStore(String::from_str(target)));
    }
    if findings_unsafe(&report) {
        return Err(FormatError::UnsafeMetadata);
    }
    plan_documents(documents)
}

/// Whether a store needs formatting, from its planning result.
pub fn format_store_check(planned: Result<FormatPlan, FormatError>) -> (r: Result<bool, FormatError>)
    ensures
        match planned {
            Ok(p) => r == Ok::<bool, FormatError>(p.changes@.len() > 0),
            Err(e) => r == Err::<bool, FormatError>(e),
        },
{
    match planned {
        Ok(plan) => Ok(!plan.is_empty()),
        Err(e) => Err(e),
    }
}

/// Check a rewritten document: the bytes read back (`written`) must parse to
/// the same value as the planned bytes.
pub fn check_written(change: &FormatChange, written: &Vec<u8>) -> (r: Result<(), FormatError>)
    ensures
        match (json_parse(written@), json_parse(change.formatted_bytes@)) {
            (Err(m), _) => r matches Err(FormatError::InvalidJson { path, message })
                && path@ == change.rel_display@ && message@ == m,
            (Ok(_), Err(m)) => r matches Err(FormatError::InvalidJson { path, message })
                && path@ == change.rel_display@ && message@ == m,
            (Ok(a), Ok(b)) => if a == b {
                r is Ok
            } else {
                r matches Err(FormatError::SemanticMismatch(p)) && p@ == change.rel_display@
            },
        },
{
    let parsed = match parse_json(written.as_slice()) {
        Ok(v) => v,
        Err(message) => return Err(FormatError::InvalidJson { path: change.rel_display.clone(), message }),
    };
    let expected = match parse_json(change.formatted_bytes.as_slice()) {
        Ok(v) => v,
        Err(message) => return Err(FormatError::InvalidJson { path: change.rel_display.clone(), message }),
    };
    if json_equal(&parsed, &expected) {
        Ok(())
    } else {
        Err(FormatError::SemanticMismatch(change.rel_display.clone()))
    }
}

/// Finish formatting: after the changes of `plan` were written, the store is
/// planned again (`after`); it must need no further change.
pub fn confirm_formatted(target: &str, plan: FormatPlan, after: Result<FormatPlan, FormatError>) -> (r: Result<FormatPlan, FormatError>)
    ensures
        match after {
            Err(e) => r == Err::<FormatPlan, FormatError>(e),
            Ok(a) => if a.changes@.len() == 0 {
                r == Ok::<FormatPlan, FormatError>(plan)
            } else {
                r matches Err(FormatError::SemanticMismatch(t)) && t@ == target@
            },
        },
{
    match after {
        Err(e) => Err(e),
        Ok(a) => if a.is_empty() {
            Ok(plan)
        } else {
            Err(FormatError::SemanticMismatch(String::from_str(target)))
        },
    }
}

} // verus!
