//! The rule set and its evaluation.
//!
//! Each rule has a stable identifier, a default [`Severity`], and a one-line
//! summary, recorded by [`rules`]. [`evaluate`] runs the whole set against a
//! scanned and parsed store and returns the findings (unsorted; the caller
//! sorts them for deterministic output).

use vstd::prelude::*;
use vstd::string::StringExecFns;

use crate::diagnostic::{diags_view, DiagView, Diagnostic, Severity};
use crate::json::{group_json_view, items_view, json_field_i64, json_get, json_has_field, Json};
use crate::model::{dims_text, format_dims, has_chunk_grid_of, FailureView, LoadedStore, NodeKind, ParsedView};
use crate::scanner::{files_view, MetadataRole, RawFileView, StoreScan};
use crate::sorting::sort_by;
use crate::text::{
    compare_chars, concat3, decimal, i64_to_string, join_strings, join_with, seq_le, signed_decimal, str_eq,
    to_chars, u64_to_string, Order,
};

verus! {

broadcast use {vstd::std_specs::vec::group_vec_axioms, group_json_view};

/// The supplied path does not contain recognizable Zarr metadata.
pub const STRUCTURE_UNRECOGNIZED_STORE: &'static str = "structure/unrecognized-store";
/// A recognized metadata file could not be parsed as JSON.
pub const METADATA_INVALID_JSON: &'static str = "metadata/invalid-json";
/// A minimally required metadata field is absent.
pub const METADATA_MISSING_REQUIRED_FIELD: &'static str = "metadata/missing-required-field";
/// The metadata declares an unsupported Zarr format version.
pub const METADATA_UNSUPPORTED_FORMAT_VERSION: &'static str = "metadata/unsupported-format-version";
/// A single path declares both array and group (or v2 and v3) metadata.
pub const STRUCTURE_CONFLICTING_NODE_TYPE: &'static str = "structure/conflicting-node-type";
/// An array's shape rank disagrees with its chunk-shape rank.
pub const ARRAY_RANK_MISMATCH: &'static str = "array/rank-mismatch";

/// Documentation for one rule in the registry.
#[derive(Debug, Clone, Copy)]
pub struct RuleInfo {
    /// Stable rule identifier, for example `metadata/invalid-json`.
    pub id: &'static str,
    /// The severity findings from this rule are emitted at.
    pub default_severity: Severity,
    /// A one-line description of what the rule checks.
    pub summary: &'static str,
}

/// The rule registry as plain values: identifier, severity and summary of
/// each rule, in documentation order.
pub open spec fn rule_entries() -> Seq<(Seq<char>, Severity, Seq<char>)> {
    seq![
        (STRUCTURE_UNRECOGNIZED_STORE@, Severity::Error, "The supplied path does not contain recognizable Zarr metadata."@),
        (METADATA_INVALID_JSON@, Severity::Error, "A recognized metadata file could not be parsed as JSON."@),
        (METADATA_MISSING_REQUIRED_FIELD@, Severity::Error, "A minimally required metadata field is absent."@),
        (METADATA_UNSUPPORTED_FORMAT_VERSION@, Severity::Error, "The metadata declares an unsupported Zarr format version."@),
        (STRUCTURE_CONFLICTING_NODE_TYPE@, Severity::Error, "A path declares both array and group metadata."@),
        (ARRAY_RANK_MISMATCH@, Severity::Error, "An array's shape rank disagrees with its chunk-shape rank."@),
    ]
}

/// The plain value of a registry entry.
pub open spec fn rule_entry(r: RuleInfo) -> (Seq<char>, Severity, Seq<char>) {
    (r.id@, r.default_severity, r.summary@)
}

/// The complete rule registry, in documentation order.
pub fn rules() -> (r: Vec<RuleInfo>)
    ensures
        r@.map_values(|x: RuleInfo| rule_entry(x)) == rule_entries(),
{
    let r = vec![
        RuleInfo {
            id: STRUCTURE_UNRECOGNIZED_STORE,
            default_severity: Severity::Error,
            summary: "The supplied path does not contain recognizable Zarr metadata.",
        },
        RuleInfo {
            id: METADATA_INVALID_JSON,
            default_severity: Severity::Error,
            summary: "A recognized metadata file could not be parsed as JSON.",
        },
        RuleInfo {
            id: METADATA_MISSING_REQUIRED_FIELD,
            default_severity: Severity::Error,
            summary: "A minimally required metadata field is absent.",
        },
        RuleInfo {
            id: METADATA_UNSUPPORTED_FORMAT_VERSION,
            default_severity: Severity::Error,
            summary: "The metadata declares an unsupported Zarr format version.",
        },
        RuleInfo {
            id: STRUCTURE_CONFLICTING_NODE_TYPE,
            default_severity: Severity::Error,
            summary: "A path declares both array and group metadata.",
        },
        RuleInfo {
            id: ARRAY_RANK_MISMATCH,
            default_severity: Severity::Error,
            summary: "An array's shape rank disagrees with its chunk-shape rank.",
        },
    ];
    assert(r@.map_values(|x: RuleInfo| rule_entry(x)) =~= rule_entries());
    r
}

/// An error-severity finding.
pub open spec fn finding(rule: Seq<char>, path: Seq<char>, message: Seq<char>, detail: Option<Seq<char>>) -> DiagView {
    DiagView { rule, severity: Severity::Error, path, message, detail }
}

// ---- metadata/invalid-json ----------------------------------------------

pub open spec fn invalid_json_finding(f: FailureView) -> DiagView {
    finding(METADATA_INVALID_JSON@, f.rel_display, "Metadata could not be parsed as JSON."@, Some(f.message))
}

/// One finding per document that is not valid JSON, in order.
pub open spec fn invalid_json_findings(fs: Seq<FailureView>) -> Seq<DiagView> {
    fs.map_values(|f: FailureView| invalid_json_finding(f))
}

/// Every document that is not valid JSON gets exactly one
/// `metadata/invalid-json` error at its path, carrying the parser's message,
/// in order.
pub proof fn lemma_invalid_json_one_each(fs: Seq<FailureView>)
    ensures
        invalid_json_findings(fs).len() == fs.len(),
        forall|i: int| 0 <= i < fs.len() ==> (#[trigger] invalid_json_findings(fs)[i]).rule == METADATA_INVALID_JSON@
            && invalid_json_findings(fs)[i].severity == Severity::Error
            && invalid_json_findings(fs)[i].path == fs[i].rel_display
            && invalid_json_findings(fs)[i].detail == Some(fs[i].message),
{
}

// ---- metadata/missing-required-field --------------------------------------

/// The required fields a parsed document lacks, in the order they are
/// reported: `zarr_format`; `node_type` for a Zarr v3 document without a
/// usable one (absent, or naming neither `group` nor `array`); for arrays
/// `shape` and the chunk grid (`chunks` in v2, `chunk_grid` in v3).
pub open spec fn missing_fields(p: ParsedView) -> Seq<Seq<char>> {
    let is_v3 = p.role == MetadataRole::V3Node;
    let is_array = p.kind() == Some(NodeKind::Array);
    let a: Seq<Seq<char>> = if p.declared_format().is_none() { seq!["zarr_format"@] } else { seq![] };
    let b: Seq<Seq<char>> = if is_v3 && p.kind().is_none() { seq!["node_type"@] } else { seq![] };
    let c: Seq<Seq<char>> = if is_array && !json_has_field(p.value, "shape"@) { seq!["shape"@] } else { seq![] };
    let d: Seq<Seq<char>> = if is_array && !has_chunk_grid_of(p.version, p.value) {
        seq![if is_v3 { "chunk_grid"@ } else { "chunks"@ }]
    } else {
        seq![]
    };
    a + b + c + d
}

pub open spec fn missing_message(field: Seq<char>) -> Seq<char> {
    "Required field `"@ + field + "` is missing."@
}

pub open spec fn missing_findings_of(p: ParsedView) -> Seq<DiagView> {
    missing_fields(p).map_values(|f: Seq<char>| finding(METADATA_MISSING_REQUIRED_FIELD@, p.rel_display, missing_message(f), None))
}

/// One finding per missing field per parsed document, in order.
pub open spec fn missing_findings(ps: Seq<ParsedView>) -> Seq<DiagView>
    decreases ps.len(),
{
    if ps.len() == 0 {
        seq![]
    } else {
        missing_findings(ps.drop_last()) + missing_findings_of(ps.last())
    }
}

/// `key` is absent from `v`, or `null`.
pub open spec fn member_absent(v: Json, key: Seq<char>) -> bool {
    json_get(v, key) is None || json_get(v, key) == Some(Json::Null)
}

proof fn lemma_optional_contains(cond: bool, e: Seq<char>, x: Seq<char>)
    ensures
        (if cond { seq![e] } else { Seq::<Seq<char>>::empty() }).contains(x) <==> cond && e == x,
{
    if cond {
        let s: Seq<Seq<char>> = seq![e];
        assert(s[0] == e);
        if s.contains(x) {
            let k = choose|k: int| 0 <= k < s.len() && s[k] == x;
            assert(k == 0);
        }
    }
}

/// Whether `x` is among the fields a document is reported as lacking,
/// case by case.
proof fn lemma_missing_fields_contains(p: ParsedView, x: Seq<char>)
    ensures
        missing_fields(p).contains(x) <==> {
            ||| p.declared_format().is_none() && x == "zarr_format"@
            ||| p.role == MetadataRole::V3Node && p.kind().is_none() && x == "node_type"@
            ||| p.kind() == Some(NodeKind::Array) && !json_has_field(p.value, "shape"@) && x == "shape"@
            ||| p.kind() == Some(NodeKind::Array) && !has_chunk_grid_of(p.version, p.value)
                && x == (if p.role == MetadataRole::V3Node { "chunk_grid"@ } else { "chunks"@ })
        },
{
    let is_v3 = p.role == MetadataRole::V3Node;
    let is_array = p.kind() == Some(NodeKind::Array);
    let a: Seq<Seq<char>> = if p.declared_format().is_none() { seq!["zarr_format"@] } else { seq![] };
    let b: Seq<Seq<char>> = if is_v3 && p.kind().is_none() { seq!["node_type"@] } else { seq![] };
    let c: Seq<Seq<char>> = if is_array && !json_has_field(p.value, "shape"@) { seq!["shape"@] } else { seq![] };
    let g: Seq<char> = if is_v3 { "chunk_grid"@ } else { "chunks"@ };
    let d: Seq<Seq<char>> = if is_array && !has_chunk_grid_of(p.version, p.value) { seq![g] } else { seq![] };
    assert(missing_fields(p) == a + b + c + d);
    lemma_optional_contains(p.declared_format().is_none(), "zarr_format"@, x);
    lemma_optional_contains(is_v3 && p.kind().is_none(), "node_type"@, x);
    lemma_optional_contains(is_array && !json_has_field(p.value, "shape"@), "shape"@, x);
    lemma_optional_contains(is_array && !has_chunk_grid_of(p.version, p.value), g, x);
    crate::permutation::lemma_concat_contains(a + b + c, d, x);
    crate::permutation::lemma_concat_contains(a + b, c, x);
    crate::permutation::lemma_concat_contains(a, b, x);
}

/// Which required fields a document is reported as lacking: `zarr_format`
/// when it has no integer `zarr_format`; `node_type` when it is a Zarr v3
/// document whose kind is unknown; for an array, `shape` when `shape` is
/// absent or `null`, and the chunk grid (`chunks` in v2, `chunk_grid` in v3)
/// when that member is absent or `null`. Nothing else is reported.
pub proof fn lemma_missing_fields_reported(p: ParsedView)
    requires
        p.version == p.role.spec_version(),
    ensures
        missing_fields(p).contains("zarr_format"@) <==> json_field_i64(p.value, "zarr_format"@) is None,
        missing_fields(p).contains("node_type"@) <==> p.role == MetadataRole::V3Node && p.kind() is None,
        missing_fields(p).contains("shape"@) <==> p.kind() == Some(NodeKind::Array) && member_absent(p.value, "shape"@),
        missing_fields(p).contains("chunks"@) <==> p.role != MetadataRole::V3Node && p.kind() == Some(NodeKind::Array)
            && member_absent(p.value, "chunks"@),
        missing_fields(p).contains("chunk_grid"@) <==> p.role == MetadataRole::V3Node && p.kind() == Some(NodeKind::Array)
            && member_absent(p.value, "chunk_grid"@),
        forall|i: int| 0 <= i < missing_fields(p).len() ==> (#[trigger] missing_fields(p)[i] == "zarr_format"@
            || missing_fields(p)[i] == "node_type"@ || missing_fields(p)[i] == "shape"@
            || missing_fields(p)[i] == "chunks"@ || missing_fields(p)[i] == "chunk_grid"@),
{
    reveal_strlit("zarr_format");
    reveal_strlit("node_type");
    reveal_strlit("shape");
    reveal_strlit("chunk_grid");
    reveal_strlit("chunks");
    assert("zarr_format"@.len() == 11);
    assert("node_type"@.len() == 9);
    assert("shape"@.len() == 5);
    assert("chunks"@.len() == 6);
    assert("chunk_grid"@.len() == 10);
    lemma_missing_fields_contains(p, "zarr_format"@);
    lemma_missing_fields_contains(p, "node_type"@);
    lemma_missing_fields_contains(p, "shape"@);
    lemma_missing_fields_contains(p, "chunks"@);
    lemma_missing_fields_contains(p, "chunk_grid"@);
    assert forall|i: int| 0 <= i < missing_fields(p).len() implies (#[trigger] missing_fields(p)[i] == "zarr_format"@
        || missing_fields(p)[i] == "node_type"@ || missing_fields(p)[i] == "shape"@
        || missing_fields(p)[i] == "chunks"@ || missing_fields(p)[i] == "chunk_grid"@) by {
        let f = missing_fields(p)[i];
        assert(missing_fields(p).contains(f));
        lemma_missing_fields_contains(p, f);
    }
}

/// Each field a document is reported as lacking gives one
/// `metadata/missing-required-field` error at the document's path, naming
/// the field.
pub proof fn lemma_missing_findings_name_fields(p: ParsedView, i: int)
    requires
        0 <= i < missing_fields(p).len(),
    ensures
        exists|k: int| 0 <= k < missing_findings_of(p).len() && #[trigger] missing_findings_of(p)[k] == (DiagView {
            rule: METADATA_MISSING_REQUIRED_FIELD@,
            severity: Severity::Error,
            path: p.rel_display,
            message: "Required field `"@ + missing_fields(p)[i] + "` is missing."@,
            detail: None,
        }),
{
    assert(missing_findings_of(p)[i] == finding(METADATA_MISSING_REQUIRED_FIELD@, p.rel_display, missing_message(missing_fields(p)[i]), None));
}

proof fn lemma_shape_message()
    ensures
        missing_message("shape"@) == "Required field `shape` is missing."@,
{
    reveal_strlit("shape");
    reveal_strlit("Required field `");
    reveal_strlit("` is missing.");
    reveal_strlit("Required field `shape` is missing.");
    assert(missing_message("shape"@) =~= "Required field `shape` is missing."@);
}

proof fn lemma_missing_shape_finding_of(p: ParsedView)
    requires
        p.version == p.role.spec_version(),
        p.kind() == Some(NodeKind::Array),
        member_absent(p.value, "shape"@),
    ensures
        exists|k: int| 0 <= k < missing_findings_of(p).len() && #[trigger] missing_findings_of(p)[k]
            == finding(METADATA_MISSING_REQUIRED_FIELD@, p.rel_display, "Required field `shape` is missing."@, None),
{
    lemma_missing_fields_contains(p, "shape"@);
    assert(!json_has_field(p.value, "shape"@));
    lemma_shape_message();
    let fields = missing_fields(p);
    let k = choose|k: int| 0 <= k < fields.len() && fields[k] == "shape"@;
    assert(missing_findings_of(p)[k] == finding(METADATA_MISSING_REQUIRED_FIELD@, p.rel_display, missing_message("shape"@), None));
}

/// An array document without a usable `shape` gets a finding naming `shape`
/// among the rule's findings for a list of documents.
pub proof fn lemma_missing_shape_reported(ps: Seq<ParsedView>, i: int)
    requires
        0 <= i < ps.len(),
        ps[i].version == ps[i].role.spec_version(),
        ps[i].kind() == Some(NodeKind::Array),
        member_absent(ps[i].value, "shape"@),
    ensures
        exists|j: int| 0 <= j < missing_findings(ps).len() && (#[trigger] missing_findings(ps)[j]).rule == METADATA_MISSING_REQUIRED_FIELD@
            && missing_findings(ps)[j].path == ps[i].rel_display
            && missing_findings(ps)[j].message == "Required field `shape` is missing."@,
    decreases ps.len(),
{
    let rest = ps.drop_last();
    let a = missing_findings(rest);
    let b = missing_findings_of(ps.last());
    assert(missing_findings(ps) == a + b);
    if i == ps.len() - 1 {
        lemma_missing_shape_finding_of(ps.last());
        let k = choose|k: int| 0 <= k < b.len() && #[trigger] b[k]
            == finding(METADATA_MISSING_REQUIRED_FIELD@, ps.last().rel_display, "Required field `shape` is missing."@, None);
        assert(missing_findings(ps)[a.len() + k] == b[k]);
    } else {
        assert(rest[i] == ps[i]);
        lemma_missing_shape_reported(rest, i);
        let j = choose|j: int| 0 <= j < a.len() && (#[trigger] a[j]).rule == METADATA_MISSING_REQUIRED_FIELD@
            && a[j].path == ps[i].rel_display && a[j].message == "Required field `shape` is missing."@;
        assert(missing_findings(ps)[j] == a[j]);
    }
}

// ---- metadata/unsupported-format-version ----------------------------------

pub open spec fn unsupported_findings_of(p: ParsedView) -> Seq<DiagView> {
    match p.declared_format() {
        Some(v) => if v != 2 && v != 3 {
            seq![finding(
                METADATA_UNSUPPORTED_FORMAT_VERSION@,
                p.rel_display,
                "Unsupported Zarr format version: "@ + signed_decimal(v as int) + "."@,
                None,
            )]
        } else {
            seq![]
        },
        None => seq![],
    }
}

/// One finding per parsed document whose integer `zarr_format` is neither 2
/// nor 3, in order.
pub open spec fn unsupported_findings(ps: Seq<ParsedView>) -> Seq<DiagView>
    decreases ps.len(),
{
    if ps.len() == 0 {
        seq![]
    } else {
        unsupported_findings(ps.drop_last()) + unsupported_findings_of(ps.last())
    }
}

/// A document is reported for its format version exactly when its
/// `zarr_format` is an integer other than 2 and 3; it then gets one error at
/// its path, which names that version.
pub proof fn lemma_unsupported_version_reported(p: ParsedView)
    ensures
        unsupported_findings_of(p).len() > 0 <==> json_field_i64(p.value, "zarr_format"@) is Some
            && json_field_i64(p.value, "zarr_format"@)->0 != 2 && json_field_i64(p.value, "zarr_format"@)->0 != 3,
        unsupported_findings_of(p).len() <= 1,
        unsupported_findings_of(p).len() == 1 ==> unsupported_findings_of(p)[0] == finding(
            METADATA_UNSUPPORTED_FORMAT_VERSION@,
            p.rel_display,
            "Unsupported Zarr format version: "@ + signed_decimal(json_field_i64(p.value, "zarr_format"@)->0 as int) + "."@,
            None,
        ),
{
}

// ---- array/rank-mismatch ---------------------------------------------------

pub open spec fn rank_findings_of(p: ParsedView) -> Seq<DiagView> {
    match (p.shape_dims(), p.chunk_dims()) {
        (Some(shape), Some(chunks)) => if p.kind() == Some(NodeKind::Array) && shape.len() != chunks.len() {
            seq![finding(
                ARRAY_RANK_MISMATCH@,
                p.rel_display,
                "Array shape rank ("@ + decimal(shape.len()) + ") does not match chunk shape rank ("@
                    + decimal(chunks.len()) + ")."@,
                Some("shape "@ + dims_text(shape) + ", chunks "@ + dims_text(chunks)),
            )]
        } else {
            seq![]
        },
        _ => seq![],
    }
}

/// One finding per parsed array whose shape and chunk shape are both known
/// and differ in length, in order.
pub open spec fn rank_findings(ps: Seq<ParsedView>) -> Seq<DiagView>
    decreases ps.len(),
{
    if ps.len() == 0 {
        seq![]
    } else {
        rank_findings(ps.drop_last()) + rank_findings_of(ps.last())
    }
}

/// An array whose shape and chunk shape are both known gets a rank-mismatch
/// finding, at its own path, exactly when the two lengths differ (either
/// one may be the longer); it gets at most one.
pub proof fn lemma_rank_mismatch_iff_lengths_differ(p: ParsedView)
    requires
        p.kind() == Some(NodeKind::Array),
        p.shape_dims() is Some,
        p.chunk_dims() is Some,
    ensures
        rank_findings_of(p).len() == (if p.shape_dims()->Some_0.len() != p.chunk_dims()->Some_0.len() { 1int } else { 0int }),
        forall|k: int| 0 <= k < rank_findings_of(p).len() ==> {
            &&& (#[trigger] rank_findings_of(p)[k]).rule == ARRAY_RANK_MISMATCH@
            &&& rank_findings_of(p)[k].path == p.rel_display
            &&& rank_findings_of(p)[k].severity == Severity::Error
        },
{
}

/// A document that is not an array, or whose shape or chunk shape is
/// unknown, gets no rank-mismatch finding.
pub proof fn lemma_rank_mismatch_needs_known_array(p: ParsedView)
    requires
        p.kind() != Some(NodeKind::Array) || p.shape_dims() is None || p.chunk_dims() is None,
    ensures
        rank_findings_of(p).len() == 0,
{
}

/// Every parsed array whose shape and chunk shape lengths differ has a
/// rank-mismatch finding at its path among the rule's findings.
pub proof fn lemma_rank_findings_cover(ps: Seq<ParsedView>, i: int)
    requires
        0 <= i < ps.len(),
        ps[i].kind() == Some(NodeKind::Array),
        ps[i].shape_dims() is Some,
        ps[i].chunk_dims() is Some,
        ps[i].shape_dims()->Some_0.len() != ps[i].chunk_dims()->Some_0.len(),
    ensures
        exists|j: int| 0 <= j < rank_findings(ps).len() && (#[trigger] rank_findings(ps)[j]).rule == ARRAY_RANK_MISMATCH@
            && rank_findings(ps)[j].path == ps[i].rel_display,
    decreases ps.len(),
{
    let rest = ps.drop_last();
    let a = rank_findings(rest);
    let b = rank_findings_of(ps.last());
    assert(rank_findings(ps) == a + b);
    if i == ps.len() - 1 {
        lemma_rank_mismatch_iff_lengths_differ(ps.last());
        assert((a + b)[a.len() as int] == b[0]);
    } else {
        assert(rest[i] == ps[i]);
        lemma_rank_findings_cover(rest, i);
        let j = choose|j: int| 0 <= j < a.len() && (#[trigger] a[j]).rule == ARRAY_RANK_MISMATCH@ && a[j].path == ps[i].rel_display;
        assert((a + b)[j] == a[j]);
    }
}

// ---- structure/conflicting-node-type ----------------------------------------

/// The kind of the last parsed Zarr v3 document at display path `rel`.
pub open spec fn v3_kind_for(ps: Seq<ParsedView>, rel: Seq<char>) -> Option<NodeKind>
    decreases ps.len(),
{
    if ps.len() == 0 {
        None
    } else if ps.last().role == MetadataRole::V3Node && ps.last().rel_display == rel {
        ps.last().kind()
    } else {
        v3_kind_for(ps.drop_last(), rel)
    }
}

pub open spec fn declares_group(f: RawFileView, ps: Seq<ParsedView>) -> bool {
    f.role == MetadataRole::V2Group || (f.role == MetadataRole::V3Node && v3_kind_for(ps, f.rel_display) == Some(NodeKind::Group))
}

pub open spec fn declares_array(f: RawFileView, ps: Seq<ParsedView>) -> bool {
    f.role == MetadataRole::V2Array || (f.role == MetadataRole::V3Node && v3_kind_for(ps, f.rel_display) == Some(NodeKind::Array))
}

pub open spec fn is_v2_file(f: RawFileView) -> bool {
    f.role == MetadataRole::V2Group || f.role == MetadataRole::V2Array
}

/// The locations of `files`, each once, in order of first appearance.
pub open spec fn distinct_locations(files: Seq<RawFileView>) -> Seq<Seq<char>>
    decreases files.len(),
{
    if files.len() == 0 {
        seq![]
    } else {
        let d = distinct_locations(files.drop_last());
        if d.contains(files.last().location) {
            d
        } else {
            d.push(files.last().location)
        }
    }
}

/// The files at location `loc`, in order.
pub open spec fn files_at(files: Seq<RawFileView>, loc: Seq<char>) -> Seq<RawFileView>
    decreases files.len(),
{
    if files.len() == 0 {
        seq![]
    } else {
        let rest = files_at(files.drop_last(), loc);
        if files.last().location == loc {
            rest.push(files.last())
        } else {
            rest
        }
    }
}

/// The character-sequence order used to sort locations and marker names.
pub open spec fn text_le() -> spec_fn(Seq<char>, Seq<char>) -> bool {
    |a: Seq<char>, b: Seq<char>| seq_le(a, b)
}

/// The location declares both group and array metadata, or mixes Zarr v2
/// and Zarr v3 markers.
pub open spec fn conflicting(files: Seq<RawFileView>, ps: Seq<ParsedView>, loc: Seq<char>) -> bool {
    let g = files_at(files, loc);
    ||| (exists|i: int| 0 <= i < g.len() && declares_group(#[trigger] g[i], ps))
        && (exists|i: int| 0 <= i < g.len() && declares_array(#[trigger] g[i], ps))
    ||| (exists|i: int| 0 <= i < g.len() && is_v2_file(#[trigger] g[i]))
        && (exists|i: int| 0 <= i < g.len() && (#[trigger] g[i]).role == MetadataRole::V3Node)
}

pub open spec fn conflict_finding(files: Seq<RawFileView>, loc: Seq<char>, store: Seq<char>) -> DiagView {
    let markers = files_at(files, loc).map_values(|f: RawFileView| f.rel_display);
    finding(
        STRUCTURE_CONFLICTING_NODE_TYPE@,
        if loc.len() == 0 { store } else { loc },
        "Path contains conflicting node metadata."@,
        Some("Found: "@ + join_with(sort_by(markers, text_le()), ", "@)),
    )
}

/// One finding per conflicting location among `locs`, in order.
pub open spec fn conflict_findings_over(locs: Seq<Seq<char>>, files: Seq<RawFileView>, ps: Seq<ParsedView>, store: Seq<char>) -> Seq<DiagView>
    decreases locs.len(),
{
    if locs.len() == 0 {
        seq![]
    } else {
        let rest = conflict_findings_over(locs.drop_last(), files, ps, store);
        if conflicting(files, ps, locs.last()) {
            rest.push(conflict_finding(files, locs.last(), store))
        } else {
            rest
        }
    }
}

/// One finding per conflicting location, locations in sorted order.
pub open spec fn conflict_findings(files: Seq<RawFileView>, ps: Seq<ParsedView>, store: Seq<char>) -> Seq<DiagView> {
    conflict_findings_over(sort_by(distinct_locations(files), text_le()), files, ps, store)
}

// ---- the whole rule set ------------------------------------------------------

/// Every finding for a store, before sorting. A store with no recognized
/// metadata yields only `structure/unrecognized-store`; otherwise the
/// findings of each rule follow one another in registry order.
pub open spec fn spec_evaluate(files: Seq<RawFileView>, ps: Seq<ParsedView>, fs: Seq<FailureView>, store: Seq<char>) -> Seq<DiagView> {
    if files.len() == 0 {
        seq![finding(STRUCTURE_UNRECOGNIZED_STORE@, store, "The supplied path does not contain recognizable Zarr metadata."@, None)]
    } else {
        invalid_json_findings(fs) + missing_findings(ps) + unsupported_findings(ps) + conflict_findings(files, ps, store)
            + rank_findings(ps)
    }
}

} // verus!

verus! {


proof fn lemma_push_view(ds: Seq<Diagnostic>, d: Diagnostic)
    ensures
        diags_view(ds.push(d)) == diags_view(ds).push(d@),
{
    assert(diags_view(ds.push(d)) =~= diags_view(ds).push(d@));
}

fn error_finding(rule: &'static str, path: String, message: String) -> (d: Diagnostic)
    ensures
        d@ == finding(rule@, path@, message@, None),
{
    Diagnostic::new(rule, Severity::Error, path, message)
}

fn check_invalid_json(loaded: &LoadedStore, out: &mut Vec<Diagnostic>)
    ensures
        diags_view(final(out)@) == diags_view(old(out)@) + invalid_json_findings(loaded.failures_view()),
{
    let ghost start = diags_view(out@);
    let ghost fv = loaded.failures_view();
    let mut i: usize = 0;
    assert(invalid_json_findings(fv.take(0)) =~= Seq::<DiagView>::empty());
    assert(diags_view(out@) =~= start + invalid_json_findings(fv.take(0)));
    while i < loaded.parse_failures.len()
        invariant
            i <= loaded.parse_failures@.len(),
            fv == loaded.failures_view(),
            diags_view(out@) == start + invalid_json_findings(fv.take(i as int)),
        decreases loaded.parse_failures.len() - i,
    {
        let failure = &loaded.parse_failures[i];
        let d = error_finding(
            METADATA_INVALID_JSON,
            failure.rel_display.clone(),
            String::from_str("Metadata could not be parsed as JSON."),
        ).with_detail(failure.message.clone());
        assert(d@ == invalid_json_finding(fv[i as int]));
        proof {
            lemma_push_view(out@, d);
            assert(invalid_json_findings(fv.take(i + 1)) =~= invalid_json_findings(fv.take(i as int)).push(d@));
        }
        out.push(d);
        i = i + 1;
    }
    assert(fv.take(i as int) =~= fv);
}

fn push_missing(out: &mut Vec<Diagnostic>, rel: &String, field: &str)
    ensures
        diags_view(final(out)@) == diags_view(old(out)@).push(
            finding(METADATA_MISSING_REQUIRED_FIELD@, rel@, missing_message(field@), None),
        ),
{
    let d = error_finding(METADATA_MISSING_REQUIRED_FIELD, rel.clone(), concat3("Required field `", field, "` is missing."));
    proof {
        lemma_push_view(out@, d);
    }
    out.push(d);
}

fn check_missing_of(node: &crate::model::ParsedMetadata, out: &mut Vec<Diagnostic>)
    ensures
        diags_view(final(out)@) == diags_view(old(out)@) + missing_findings_of(node@),
{
    let ghost start = diags_view(out@);
    let ghost p = node@;
    let ghost mk = |f: Seq<char>| finding(METADATA_MISSING_REQUIRED_FIELD@, p.rel_display, missing_message(f), None);
    let ghost mut fields: Seq<Seq<char>> = seq![];
    if node.declared_format().is_none() {
        push_missing(out, &node.rel_display, "zarr_format");
        proof { fields = fields.push("zarr_format"@); }
    }
    let is_v3 = match node.role {
        MetadataRole::V3Node => true,
        _ => false,
    };
    if is_v3 && node.kind().is_none() {
        push_missing(out, &node.rel_display, "node_type");
        proof { fields = fields.push("node_type"@); }
    }
    let is_array = match node.kind() {
        Some(NodeKind::Array) => true,
        _ => false,
    };
    if is_array {
        if !node.has_field("shape") {
            push_missing(out, &node.rel_display, "shape");
            proof { fields = fields.push("shape"@); }
        }
        if !node.has_chunk_grid_field() {
            if is_v3 {
                push_missing(out, &node.rel_display, "chunk_grid");
                proof { fields = fields.push("chunk_grid"@); }
            } else {
                push_missing(out, &node.rel_display, "chunks");
                proof { fields = fields.push("chunks"@); }
            }
        }
    }
    assert(fields =~= missing_fields(p));
    assert(diags_view(out@) =~= start + missing_fields(p).map_values(mk));
}

fn check_missing_required_fields(loaded: &LoadedStore, out: &mut Vec<Diagnostic>)
    ensures
        diags_view(final(out)@) == diags_view(old(out)@) + missing_findings(loaded.parsed_view()),
{
    let ghost start = diags_view(out@);
    let ghost pv = loaded.parsed_view();
    let mut i: usize = 0;
    assert(pv.take(0) =~= Seq::<ParsedView>::empty());
    assert(diags_view(out@) =~= start + missing_findings(pv.take(0)));
    while i < loaded.parsed.len()
        invariant
            i <= loaded.parsed@.len(),
            pv == loaded.parsed_view(),
            diags_view(out@) == start + missing_findings(pv.take(i as int)),
        decreases loaded.parsed.len() - i,
    {
        check_missing_of(&loaded.parsed[i], out);
        assert(pv.take(i + 1).drop_last() =~= pv.take(i as int));
        assert(diags_view(out@) =~= start + missing_findings(pv.take(i + 1)));
        i = i + 1;
    }
    assert(pv.take(i as int) =~= pv);
}

fn check_unsupported_format_version(loaded: &LoadedStore, out: &mut Vec<Diagnostic>)
    ensures
        diags_view(final(out)@) == diags_view(old(out)@) + unsupported_findings(loaded.parsed_view()),
{
    let ghost start = diags_view(out@);
    let ghost pv = loaded.parsed_view();
    let mut i: usize = 0;
    assert(pv.take(0) =~= Seq::<ParsedView>::empty());
    assert(diags_view(out@) =~= start + unsupported_findings(pv.take(0)));
    while i < loaded.parsed.len()
        invariant
            i <= loaded.parsed@.len(),
            pv == loaded.parsed_view(),
            diags_view(out@) == start + unsupported_findings(pv.take(i as int)),
        decreases loaded.parsed.len() - i,
    {
        let node = &loaded.parsed[i];
        assert(pv.take(i + 1).drop_last() =~= pv.take(i as int));
        assert(pv.take(i + 1).last() == node@);
        let ghost before = diags_view(out@);
        match node.declared_format() {
            Some(version) => {
                if version != 2 && version != 3 {
                    let d = error_finding(
                        METADATA_UNSUPPORTED_FORMAT_VERSION,
                        node.rel_display.clone(),
                        concat3("Unsupported Zarr format version: ", i64_to_string(version).as_str(), "."),
                    );
                    proof {
                        lemma_push_view(out@, d);
                    }
                    out.push(d);
                }
            },
            None => {},
        }
        assert(diags_view(out@) =~= before + unsupported_findings_of(node@));
        assert(diags_view(out@) =~= start + unsupported_findings(pv.take(i + 1)));
        i = i + 1;
    }
    assert(pv.take(i as int) =~= pv);
}

fn check_rank_mismatch(loaded: &LoadedStore, out: &mut Vec<Diagnostic>)
    ensures
        diags_view(final(out)@) == diags_view(old(out)@) + rank_findings(loaded.parsed_view()),
{
    let ghost start = diags_view(out@);
    let ghost pv = loaded.parsed_view();
    let mut i: usize = 0;
    assert(pv.take(0) =~= Seq::<ParsedView>::empty());
    assert(diags_view(out@) =~= start + rank_findings(pv.take(0)));
    while i < loaded.parsed.len()
        invariant
            i <= loaded.parsed@.len(),
            pv == loaded.parsed_view(),
            diags_view(out@) == start + rank_findings(pv.take(i as int)),
        decreases loaded.parsed.len() - i,
    {
        let node = &loaded.parsed[i];
        assert(pv.take(i + 1).drop_last() =~= pv.take(i as int));
        assert(pv.take(i + 1).last() == node@);
        let ghost before = diags_view(out@);
        let is_array = match node.kind() {
            Some(NodeKind::Array) => true,
            _ => false,
        };
        match (node.shape_dims(), node.chunk_dims()) {
            (Some(shape), Some(chunks)) => {
                if is_array && shape.len() != chunks.len() {
                    let mut message = String::from_str("Array shape rank (");
                    message.append(u64_to_string(shape.len() as u64).as_str());
                    message.append(") does not match chunk shape rank (");
                    message.append(u64_to_string(chunks.len() as u64).as_str());
                    message.append(").");
                    let mut detail = String::from_str("shape ");
                    detail.append(format_dims(shape).as_str());
                    detail.append(", chunks ");
                    detail.append(format_dims(chunks).as_str());
                    let d = error_finding(ARRAY_RANK_MISMATCH, node.rel_display.clone(), message).with_detail(detail);
                    assert(d@ == rank_findings_of(node@)[0]);
                    proof {
                        lemma_push_view(out@, d);
                    }
                    out.push(d);
                }
            },
            _ => {},
        }
        assert(diags_view(out@) =~= before + rank_findings_of(node@));
        assert(diags_view(out@) =~= start + rank_findings(pv.take(i + 1)));
        i = i + 1;
    }
    assert(pv.take(i as int) =~= pv);
}

} // verus!

verus! {

/// The order on strings by their characters.
pub open spec fn string_le() -> spec_fn(String, String) -> bool {
    |a: String, b: String| seq_le(a@, b@)
}

pub open spec fn strings_view(v: Seq<String>) -> Seq<Seq<char>> {
    v.map_values(|s: String| s@)
}

fn string_le_exec(a: &String, b: &String) -> (r: bool)
    ensures
        r == seq_le(a@, b@),
{
    proof {
        crate::text::lemma_seq_trichotomy(a@, b@);
    }
    let x = to_chars(a.as_str());
    let y = to_chars(b.as_str());
    match compare_chars(&x, &y) {
        Order::Greater => false,
        _ => true,
    }
}

/// Sorts strings by their characters.
pub fn sort_strings(v: Vec<String>) -> (r: Vec<String>)
    ensures
        strings_view(r@) == sort_by(strings_view(v@), text_le()),
{
    let le = |a: &String, b: &String| -> (r: bool)
        ensures
            r == string_le()(*a, *b),
        { string_le_exec(a, b) };
    let r = crate::sorting::sort_vec_by(v, le, Ghost(string_le()));
    proof {
        crate::sorting::lemma_sort_map(v@, |s: String| s@, string_le(), text_le());
    }
    r
}

fn contains_string(v: &Vec<String>, s: &String) -> (r: bool)
    ensures
        r == strings_view(v@).contains(s@),
{
    let mut i: usize = 0;
    while i < v.len()
        invariant
            i <= v@.len(),
            forall|j: int| 0 <= j < i ==> v@[j]@ != s@,
        decreases v.len() - i,
    {
        if v[i] == *s {
            assert(strings_view(v@)[i as int] == s@);
            return true;
        }
        i = i + 1;
    }
    assert forall|j: int| 0 <= j < strings_view(v@).len() implies strings_view(v@)[j] != s@ by {
        assert(strings_view(v@)[j] == v@[j]@);
    }
    false
}

fn distinct_locations_exec(scan: &StoreScan) -> (r: Vec<String>)
    ensures
        strings_view(r@) == distinct_locations(files_view(scan.files@)),
{
    let ghost fv = files_view(scan.files@);
    let mut locs: Vec<String> = Vec::new();
    let mut i: usize = 0;
    assert(strings_view(locs@) =~= distinct_locations(fv.take(0)));
    while i < scan.files.len()
        invariant
            i <= scan.files@.len(),
            fv == files_view(scan.files@),
            strings_view(locs@) == distinct_locations(fv.take(i as int)),
        decreases scan.files.len() - i,
    {
        assert(fv.take(i + 1).drop_last() =~= fv.take(i as int));
        assert(fv.take(i + 1).last() == scan.files@[i as int]@);
        let loc = &scan.files[i].location;
        if !contains_string(&locs, loc) {
            let ghost before = locs@;
            locs.push(loc.clone());
            assert(strings_view(locs@) =~= strings_view(before).push(loc@));
        }
        i = i + 1;
    }
    assert(fv.take(i as int) =~= fv);
    locs
}

fn v3_kind_lookup(loaded: &LoadedStore, rel: &String) -> (r: Option<NodeKind>)
    ensures
        r == v3_kind_for(loaded.parsed_view(), rel@),
{
    let ghost pv = loaded.parsed_view();
    let mut i = loaded.parsed.len();
    assert(pv.take(i as int) =~= pv);
    while i > 0
        invariant
            i <= loaded.parsed@.len(),
            pv == loaded.parsed_view(),
            v3_kind_for(pv, rel@) == v3_kind_for(pv.take(i as int), rel@),
        decreases i,
    {
        let p = &loaded.parsed[i - 1];
        assert(pv.take(i as int).last() == p@);
        assert(pv.take(i as int).drop_last() =~= pv.take(i - 1));
        let is_v3 = match p.role {
            MetadataRole::V3Node => true,
            _ => false,
        };
        if is_v3 && p.rel_display == *rel {
            return p.kind();
        }
        i = i - 1;
    }
    None
}

/// What one location holds, for conflict detection.
struct LocationInfo {
    has_v2: bool,
    has_v3: bool,
    has_group: bool,
    has_array: bool,
    markers: Vec<String>,
}

fn location_info(scan: &StoreScan, loaded: &LoadedStore, loc: &String) -> (r: LocationInfo)
    ensures
        ({
            let g = files_at(files_view(scan.files@), loc@);
            let ps = loaded.parsed_view();
            &&& r.has_group == exists|i: int| 0 <= i < g.len() && declares_group(#[trigger] g[i], ps)
            &&& r.has_array == exists|i: int| 0 <= i < g.len() && declares_array(#[trigger] g[i], ps)
            &&& r.has_v2 == exists|i: int| 0 <= i < g.len() && is_v2_file(#[trigger] g[i])
            &&& r.has_v3 == exists|i: int| 0 <= i < g.len() && (#[trigger] g[i]).role == MetadataRole::V3Node
            &&& strings_view(r.markers@) == g.map_values(|f: RawFileView| f.rel_display)
        }),
{
    let ghost fv = files_view(scan.files@);
    let ghost ps = loaded.parsed_view();
    let mut info = LocationInfo { has_v2: false, has_v3: false, has_group: false, has_array: false, markers: Vec::new() };
    let mut i: usize = 0;
    assert(files_at(fv.take(0), loc@) =~= Seq::<RawFileView>::empty());
    while i < scan.files.len()
        invariant
            i <= scan.files@.len(),
            fv == files_view(scan.files@),
            ps == loaded.parsed_view(),
            ({
                let g = files_at(fv.take(i as int), loc@);
                &&& info.has_group == exists|j: int| 0 <= j < g.len() && declares_group(#[trigger] g[j], ps)
                &&& info.has_array == exists|j: int| 0 <= j < g.len() && declares_array(#[trigger] g[j], ps)
                &&& info.has_v2 == exists|j: int| 0 <= j < g.len() && is_v2_file(#[trigger] g[j])
                &&& info.has_v3 == exists|j: int| 0 <= j < g.len() && (#[trigger] g[j]).role == MetadataRole::V3Node
                &&& strings_view(info.markers@) == g.map_values(|f: RawFileView| f.rel_display)
            }),
        decreases scan.files.len() - i,
    {
        let file = &scan.files[i];
        let ghost g0 = files_at(fv.take(i as int), loc@);
        assert(fv.take(i + 1).drop_last() =~= fv.take(i as int));
        assert(fv.take(i + 1).last() == file@);
        if file.location == *loc {
            let ghost g1 = g0.push(file@);
            assert(files_at(fv.take(i + 1), loc@) == g1);
            let ghost before = info.markers@;
            info.markers.push(file.rel_display.clone());
            assert(strings_view(info.markers@) =~= g1.map_values(|f: RawFileView| f.rel_display)) by {
                assert(strings_view(info.markers@) =~= strings_view(before).push(file.rel_display@));
            }
            let (v2, v3, grp, arr) = match file.role {
                MetadataRole::V2Group => (true, false, true, false),
                MetadataRole::V2Array => (true, false, false, true),
                MetadataRole::V3Node => match v3_kind_lookup(loaded, &file.rel_display) {
                    Some(NodeKind::Group) => (false, true, true, false),
                    Some(NodeKind::Array) => (false, true, false, true),
                    None => (false, true, false, false),
                },
            };
            assert(v2 == is_v2_file(file@));
            assert(v3 == (file@.role == MetadataRole::V3Node));
            assert(grp == declares_group(file@, ps));
            assert(arr == declares_array(file@, ps));
            proof {
                assert(g1[g0.len() as int] == file@);
                assert forall|j: int| 0 <= j < g0.len() implies #[trigger] g1[j] == g0[j] by {}
                if info.has_group {
                    let j = choose|j: int| 0 <= j < g0.len() && declares_group(#[trigger] g0[j], ps);
                    assert(g1[j] == g0[j]);
                }
                if info.has_array {
                    let j = choose|j: int| 0 <= j < g0.len() && declares_array(#[trigger] g0[j], ps);
                    assert(g1[j] == g0[j]);
                }
                if info.has_v2 {
                    let j = choose|j: int| 0 <= j < g0.len() && is_v2_file(#[trigger] g0[j]);
                    assert(g1[j] == g0[j]);
                }
                if info.has_v3 {
                    let j = choose|j: int| 0 <= j < g0.len() && (#[trigger] g0[j]).role == MetadataRole::V3Node;
                    assert(g1[j] == g0[j]);
                }
            }
            info.has_v2 = info.has_v2 || v2;
            info.has_v3 = info.has_v3 || v3;
            info.has_group = info.has_group || grp;
            info.has_array = info.has_array || arr;
        } else {
            assert(files_at(fv.take(i + 1), loc@) == g0);
        }
        i = i + 1;
    }
    assert(fv.take(i as int) =~= fv);
    info
}

fn check_conflicting_node_type(scan: &StoreScan, loaded: &LoadedStore, store_display: &str, out: &mut Vec<Diagnostic>)
    ensures
        diags_view(final(out)@) == diags_view(old(out)@) + conflict_findings(
            files_view(scan.files@),
            loaded.parsed_view(),
            store_display@,
        ),
{
    let ghost start = diags_view(out@);
    let ghost fv = files_view(scan.files@);
    let ghost ps = loaded.parsed_view();
    let locs = sort_strings(distinct_locations_exec(scan));
    let ghost lv = strings_view(locs@);
    assert(lv == sort_by(distinct_locations(fv), text_le()));
    let mut k: usize = 0;
    assert(lv.take(0) =~= Seq::<Seq<char>>::empty());
    assert(diags_view(out@) =~= start + conflict_findings_over(lv.take(0), fv, ps, store_display@));
    while k < locs.len()
        invariant
            k <= locs@.len(),
            fv == files_view(scan.files@),
            ps == loaded.parsed_view(),
            lv == strings_view(locs@),
            diags_view(out@) == start + conflict_findings_over(lv.take(k as int), fv, ps, store_display@),
        decreases locs.len() - k,
    {
        let loc = &locs[k];
        assert(lv.take(k + 1).drop_last() =~= lv.take(k as int));
        assert(lv.take(k + 1).last() == loc@);
        let info = location_info(scan, loaded, loc);
        let mixed_kind = info.has_group && info.has_array;
        let mixed_version = info.has_v2 && info.has_v3;
        assert((mixed_kind || mixed_version) == conflicting(fv, ps, loc@));
        if mixed_kind || mixed_version {
            let path = if loc.as_str().is_empty() {
                String::from_str(store_display)
            } else {
                loc.clone()
            };
            let markers = sort_strings(info.markers);
            let mut detail = String::from_str("Found: ");
            detail.append(join_strings(&markers, ", ").as_str());
            let d = error_finding(STRUCTURE_CONFLICTING_NODE_TYPE, path, String::from_str("Path contains conflicting node metadata.")).with_detail(detail);
            assert(strings_view(markers@) == markers@.map_values(|p: String| p@));
            assert(d@ == conflict_finding(fv, loc@, store_display@));
            proof {
                lemma_push_view(out@, d);
            }
            out.push(d);
        }
        assert(diags_view(out@) =~= start + conflict_findings_over(lv.take(k + 1), fv, ps, store_display@));
        k = k + 1;
    }
    assert(lv.take(k as int) =~= lv);
}

/// Run the whole rule set against a scanned and parsed store.
///
/// `store_display` is the store path as supplied on the command line; it is
/// used as the location for store-level findings. The returned findings are
/// unsorted.
pub fn evaluate(scan: &StoreScan, loaded: &LoadedStore, store_display: &str) -> (r: Vec<Diagnostic>)
    ensures
        diags_view(r@) == spec_evaluate(
            files_view(scan.files@),
            loaded.parsed_view(),
            loaded.failures_view(),
            store_display@,
        ),
{
    let mut out: Vec<Diagnostic> = Vec::new();
    if !scan.is_recognized() {
        let d = error_finding(
            STRUCTURE_UNRECOGNIZED_STORE,
            String::from_str(store_display),
            String::from_str("The supplied path does not contain recognizable Zarr metadata."),
        );
        out.push(d);
        assert(diags_view(out@) =~= seq![d@]);
        return out;
    }
    assert(diags_view(out@) =~= Seq::<DiagView>::empty());
    check_invalid_json(loaded, &mut out);
    check_missing_required_fields(loaded, &mut out);
    check_unsupported_format_version(loaded, &mut out);
    check_conflicting_node_type(scan, loaded, store_display, &mut out);
    check_rank_mismatch(loaded, &mut out);
    out
}

} // verus!
