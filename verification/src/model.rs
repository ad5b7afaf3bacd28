//! The minimal normalized Zarr model and metadata field extraction.

use vstd::prelude::*;
use vstd::string::StringExecFns;

use crate::json::{
    group_json_view, items_view, json_as_i64, json_field_array, json_field_str, json_get, json_has_field,
    Json, JsonValue,
};
use crate::json_codec::{duplicate, json_parse, json_text, parse_json, to_compact_text};
use crate::scanner::{files_view, MetadataRole, RawFileView, RawMetadataFile, StoreScan};
use crate::text::{i64_to_string, join_strings, join_with, signed_decimal, str_eq};

verus! {

/// The Zarr format version a node was written in.
#[derive(Debug, Clone, Copy, PartialEq, Eq, Structural)]
pub enum ZarrVersion {
    /// Zarr version 2 (`.zgroup` / `.zarray`).
    V2,
    /// Zarr version 3 (`zarr.json`).
    V3,
}

impl ZarrVersion {
    pub open spec fn name(self) -> Seq<char> {
        match self {
            ZarrVersion::V2 => "v2"@,
            ZarrVersion::V3 => "v3"@,
        }
    }

    /// A short display label (`v2` / `v3`).
    pub fn as_str(self) -> (r: &'static str)
        ensures
            r@ == self.name(),
    {
        match self {
            ZarrVersion::V2 => "v2",
            ZarrVersion::V3 => "v3",
        }
    }
}

/// Whether a node is a group (a container) or an array (holds chunked data).
#[derive(Debug, Clone, Copy, PartialEq, Eq, Structural)]
pub enum NodeKind {
    /// A Zarr group.
    Group,
    /// A Zarr array.
    Array,
}

impl NodeKind {
    pub open spec fn name(self) -> Seq<char> {
        match self {
            NodeKind::Group => "group"@,
            NodeKind::Array => "array"@,
        }
    }

    /// A short display label (`group` / `array`).
    pub fn as_str(self) -> (r: &'static str)
        ensures
            r@ == self.name(),
    {
        match self {
            NodeKind::Group => "group",
            NodeKind::Array => "array",
        }
    }
}

} // verus!

verus! {

broadcast use {vstd::std_specs::vec::group_vec_axioms, group_json_view};

/// The node kind a document declares: fixed by the file name for Zarr v2,
/// read from `node_type` for Zarr v3.
pub open spec fn kind_of(role: MetadataRole, v: Json) -> Option<NodeKind> {
    match role {
        MetadataRole::V2Group => Some(NodeKind::Group),
        MetadataRole::V2Array => Some(NodeKind::Array),
        MetadataRole::V3Node => match json_field_str(v, "node_type"@) {
            Some(t) => if t == "group"@ {
                Some(NodeKind::Group)
            } else if t == "array"@ {
                Some(NodeKind::Array)
            } else {
                None
            },
            None => None,
        },
    }
}

/// A `.zgroup` declares a group and a `.zarray` an array, whatever they
/// hold; a `zarr.json` declares a group exactly when its `node_type` is the
/// string `group`, an array exactly when it is `array`, and no kind
/// otherwise.
pub proof fn lemma_declared_kinds(v: Json)
    ensures
        kind_of(MetadataRole::V2Group, v) == Some(NodeKind::Group),
        kind_of(MetadataRole::V2Array, v) == Some(NodeKind::Array),
        kind_of(MetadataRole::V3Node, v) == Some(NodeKind::Group) <==> json_field_str(v, "node_type"@) == Some("group"@),
        kind_of(MetadataRole::V3Node, v) == Some(NodeKind::Array) <==> json_field_str(v, "node_type"@) == Some("array"@),
        kind_of(MetadataRole::V3Node, v) is None <==> json_field_str(v, "node_type"@) != Some("group"@)
            && json_field_str(v, "node_type"@) != Some("array"@),
{
    reveal_strlit("group");
    reveal_strlit("array");
    assert("group"@[0] != "array"@[0]);
}

/// The chunk shape a document declares: `chunks` for Zarr v2,
/// `chunk_grid.configuration.chunk_shape` for Zarr v3.
pub open spec fn chunk_dims_of(version: ZarrVersion, v: Json) -> Option<Seq<Json>> {
    match version {
        ZarrVersion::V2 => json_field_array(v, "chunks"@),
        ZarrVersion::V3 => match json_get(v, "chunk_grid"@) {
            Some(g) => match json_get(g, "configuration"@) {
                Some(c) => json_field_array(c, "chunk_shape"@),
                None => None,
            },
            None => None,
        },
    }
}

/// Whether the field that carries chunk-grid information is present (and
/// not `null`): `chunks` for Zarr v2, `chunk_grid` for Zarr v3.
pub open spec fn has_chunk_grid_of(version: ZarrVersion, v: Json) -> bool {
    match version {
        ZarrVersion::V2 => json_has_field(v, "chunks"@),
        ZarrVersion::V3 => json_has_field(v, "chunk_grid"@),
    }
}

/// A metadata document that parsed as JSON, retained with its value.
#[derive(Debug)]
pub struct ParsedMetadata {
    /// The role implied by the metadata file name.
    pub role: MetadataRole,
    /// The Zarr version implied by the metadata file name.
    pub version: ZarrVersion,
    /// Store-relative node path (empty string for the store root).
    pub location: String,
    /// Store-relative display path of the metadata file.
    pub rel_display: String,
    /// Where the document came from: a filesystem path or a URL.
    pub source: String,
    /// The parsed JSON value.
    pub value: JsonValue,
}

/// The mathematical value of a [`ParsedMetadata`].
pub struct ParsedView {
    pub role: MetadataRole,
    pub version: ZarrVersion,
    pub location: Seq<char>,
    pub rel_display: Seq<char>,
    pub source: Seq<char>,
    pub value: Json,
}

impl View for ParsedMetadata {
    type V = ParsedView;

    open spec fn view(&self) -> ParsedView {
        ParsedView {
            role: self.role,
            version: self.version,
            location: self.location@,
            rel_display: self.rel_display@,
            source: self.source@,
            value: self.value@,
        }
    }
}

impl ParsedView {
    pub open spec fn kind(self) -> Option<NodeKind> {
        kind_of(self.role, self.value)
    }

    pub open spec fn declared_format(self) -> Option<i64> {
        match json_get(self.value, "zarr_format"@) {
            Some(x) => json_as_i64(x),
            None => None,
        }
    }

    pub open spec fn shape_dims(self) -> Option<Seq<Json>> {
        json_field_array(self.value, "shape"@)
    }

    pub open spec fn chunk_dims(self) -> Option<Seq<Json>> {
        chunk_dims_of(self.version, self.value)
    }
}

impl ParsedMetadata {
    /// The declared `zarr_format`, if present and an integer.
    pub fn declared_format(&self) -> (r: Option<i64>)
        ensures
            r == self@.declared_format(),
    {
        match self.value.get("zarr_format") {
            Some(x) => x.as_i64(),
            None => None,
        }
    }

    /// The declared `node_type` (Zarr v3), if present and a string.
    pub fn node_type(&self) -> (r: Option<&str>)
        ensures
            match r {
                Some(t) => json_field_str(self.value@, "node_type"@) == Some(t@),
                None => json_field_str(self.value@, "node_type"@).is_none(),
            },
    {
        match self.value.get("node_type") {
            Some(x) => x.as_str(),
            None => None,
        }
    }

    /// Resolve the concrete node kind: fixed by the file name for Zarr v2, from
    /// `node_type` for Zarr v3 (`None` when missing or unrecognized).
    pub fn kind(&self) -> (r: Option<NodeKind>)
        ensures
            r == self@.kind(),
    {
        match self.role {
            MetadataRole::V2Group => Some(NodeKind::Group),
            MetadataRole::V2Array => Some(NodeKind::Array),
            MetadataRole::V3Node => match self.node_type() {
                Some(t) => if str_eq(t, "group") {
                    Some(NodeKind::Group)
                } else if str_eq(t, "array") {
                    Some(NodeKind::Array)
                } else {
                    None
                },
                None => None,
            },
        }
    }

    /// The array shape, if the `shape` field is present and is an array.
    pub fn shape_dims(&self) -> (r: Option<&Vec<JsonValue>>)
        ensures
            match r {
                Some(a) => self@.shape_dims() == Some(items_view(a@)),
                None => self@.shape_dims().is_none(),
            },
    {
        match self.value.get("shape") {
            Some(x) => x.as_array(),
            None => None,
        }
    }

    /// The chunk shape, if determinable: `chunks` for Zarr v2,
    /// `chunk_grid.configuration.chunk_shape` for Zarr v3.
    pub fn chunk_dims(&self) -> (r: Option<&Vec<JsonValue>>)
        ensures
            match r {
                Some(a) => self@.chunk_dims() == Some(items_view(a@)),
                None => self@.chunk_dims().is_none(),
            },
    {
        match self.version {
            ZarrVersion::V2 => match self.value.get("chunks") {
                Some(x) => x.as_array(),
                None => None,
            },
            ZarrVersion::V3 => match self.value.get("chunk_grid") {
                Some(g) => match g.get("configuration") {
                    Some(c) => match c.get("chunk_shape") {
                        Some(x) => x.as_array(),
                        None => None,
                    },
                    None => None,
                },
                None => None,
            },
        }
    }

    /// Whether `key` is present with a non-null value.
    pub fn has_field(&self, key: &str) -> (r: bool)
        ensures
            r == json_has_field(self.value@, key@),
    {
        match self.value.get(key) {
            Some(x) => !x.is_null(),
            None => false,
        }
    }

    /// Whether the field that carries chunk-grid information is present.
    pub fn has_chunk_grid_field(&self) -> (r: bool)
        ensures
            r == has_chunk_grid_of(self.version, self.value@),
    {
        match self.version {
            ZarrVersion::V2 => self.has_field("chunks"),
            ZarrVersion::V3 => self.has_field("chunk_grid"),
        }
    }

    /// Build the normalized [`ZarrNode`] for this metadata, if the node kind is
    /// determinable.
    pub fn to_node(&self) -> (r: Option<ZarrNode>)
        ensures
            match r {
                Some(n) => self@.kind() == Some(n.kind) && n.logical_path@ == self.location@
                    && n.version == self.version && n.source@ == self.source@
                    && n.metadata@ == self.value@,
                None => self@.kind().is_none(),
            },
    {
        match self.kind() {
            Some(kind) => Some(ZarrNode {
                logical_path: self.location.clone(),
                version: self.version,
                kind,
                source: self.source.clone(),
                metadata: duplicate(&self.value),
            }),
            None => None,
        }
    }
}

/// A metadata document whose bytes were not valid JSON.
#[derive(Debug, Clone)]
pub struct ParseFailure {
    /// Store-relative display path of the metadata file.
    pub rel_display: String,
    /// The JSON parser's error message.
    pub message: String,
}

/// The mathematical value of a [`ParseFailure`].
pub struct FailureView {
    pub rel_display: Seq<char>,
    pub message: Seq<char>,
}

impl View for ParseFailure {
    type V = FailureView;

    open spec fn view(&self) -> FailureView {
        FailureView { rel_display: self.rel_display@, message: self.message@ }
    }
}

/// The normalized representation of a single Zarr node.
#[derive(Debug)]
pub struct ZarrNode {
    /// Store-relative logical path (empty string for the store root).
    pub logical_path: String,
    /// The Zarr format version.
    pub version: ZarrVersion,
    /// Whether the node is a group or an array.
    pub kind: NodeKind,
    /// Where the metadata came from: a filesystem path or a URL.
    pub source: String,
    /// The raw metadata JSON.
    pub metadata: JsonValue,
}

/// The parsed contents of a store: nodes that parsed and files that did not.
#[derive(Debug)]
pub struct LoadedStore {
    /// Metadata documents that parsed as JSON.
    pub parsed: Vec<ParsedMetadata>,
    /// Metadata documents whose bytes were not valid JSON.
    pub parse_failures: Vec<ParseFailure>,
}

impl LoadedStore {
    pub open spec fn parsed_view(self) -> Seq<ParsedView> {
        self.parsed@.map_values(|p: ParsedMetadata| p@)
    }

    pub open spec fn failures_view(self) -> Seq<FailureView> {
        self.parse_failures@.map_values(|f: ParseFailure| f@)
    }
}

/// The parsed document for a file whose bytes parse to `v`.
pub open spec fn parsed_of(f: RawFileView, v: Json) -> ParsedView {
    ParsedView {
        role: f.role,
        version: f.role.spec_version(),
        location: f.location,
        rel_display: f.rel_display,
        source: f.source,
        value: v,
    }
}

/// The documents among `files` that parse as JSON, in order.
pub open spec fn load_parsed(files: Seq<RawFileView>) -> Seq<ParsedView>
    decreases files.len(),
{
    if files.len() == 0 {
        seq![]
    } else {
        let rest = load_parsed(files.drop_last());
        match json_parse(files.last().bytes) {
            Ok(v) => rest.push(parsed_of(files.last(), v)),
            Err(_) => rest,
        }
    }
}

/// The documents among `files` that do not parse as JSON, in order, with the
/// parser's message.
pub open spec fn load_failures(files: Seq<RawFileView>) -> Seq<FailureView>
    decreases files.len(),
{
    if files.len() == 0 {
        seq![]
    } else {
        let rest = load_failures(files.drop_last());
        match json_parse(files.last().bytes) {
            Ok(_) => rest,
            Err(e) => rest.push(FailureView { rel_display: files.last().rel_display, message: e }),
        }
    }
}

fn parse_file(file: &RawMetadataFile) -> (r: Result<ParsedMetadata, ParseFailure>)
    ensures
        match r {
            Ok(p) => json_parse(file.bytes@) == Ok::<Json, Seq<char>>(p.value@) && p@ == parsed_of(file@, p.value@),
            Err(f) => json_parse(file.bytes@) == Err::<Json, Seq<char>>(f.message@) && f.rel_display@ == file.rel_display@,
        },
{
    match parse_json(file.bytes.as_slice()) {
        Ok(value) => Ok(ParsedMetadata {
            role: file.role,
            version: file.role.version(),
            location: file.location.clone(),
            rel_display: file.rel_display.clone(),
            source: file.source.clone(),
            value,
        }),
        Err(message) => Err(ParseFailure { rel_display: file.rel_display.clone(), message }),
    }
}

/// Parse every discovered metadata file. This never fails: documents that are
/// not valid JSON are collected as [`ParseFailure`]s, in order.
pub fn load(scan: &StoreScan) -> (r: LoadedStore)
    ensures
        r.parsed_view() == load_parsed(files_view(scan.files@)),
        r.failures_view() == load_failures(files_view(scan.files@)),
{
    let ghost fv = files_view(scan.files@);
    let mut parsed: Vec<ParsedMetadata> = Vec::new();
    let mut parse_failures: Vec<ParseFailure> = Vec::new();
    let mut i: usize = 0;
    while i < scan.files.len()
        invariant
            i <= scan.files@.len(),
            fv == files_view(scan.files@),
            parsed@.map_values(|p: ParsedMetadata| p@) == load_parsed(fv.take(i as int)),
            parse_failures@.map_values(|f: ParseFailure| f@) == load_failures(fv.take(i as int)),
        decreases scan.files.len() - i,
    {
        assert(fv.take(i + 1).drop_last() =~= fv.take(i as int));
        assert(fv.take(i + 1).last() == scan.files@[i as int]@);
        match parse_file(&scan.files[i]) {
            Ok(p) => {
                let ghost before = parsed@;
                parsed.push(p);
                assert(parsed@.map_values(|p: ParsedMetadata| p@) =~= before.map_values(|p: ParsedMetadata| p@).push(p@));
            },
            Err(f) => {
                let ghost before = parse_failures@;
                parse_failures.push(f);
                assert(parse_failures@.map_values(|f: ParseFailure| f@) =~= before.map_values(|f: ParseFailure| f@).push(f@));
            },
        }
        i = i + 1;
    }
    assert(fv.take(i as int) =~= fv);
    LoadedStore { parsed, parse_failures }
}

/// How a dimension is shown: an integer in decimal, anything else as compact
/// JSON.
pub open spec fn dim_text(v: Json) -> Seq<char> {
    match json_as_i64(v) {
        Some(n) => signed_decimal(n as int),
        None => json_text(v),
    }
}

/// `[a, b, c]`: the dimensions shown one by one, separated by `, `.
pub open spec fn dims_text(dims: Seq<Json>) -> Seq<char> {
    seq!['['] + join_with(dims.map_values(|d: Json| dim_text(d)), ", "@) + seq![']']
}

fn display_dim(value: &JsonValue) -> (r: String)
    ensures
        r@ == dim_text(value@),
{
    match value.as_i64() {
        Some(n) => i64_to_string(n),
        None => to_compact_text(value),
    }
}

/// Render a JSON array of dimensions as a compact `[a, b, c]` string.
pub fn format_dims(dims: &Vec<JsonValue>) -> (r: String)
    ensures
        r@ == dims_text(items_view(dims@)),
{
    let mut parts: Vec<String> = Vec::new();
    let mut i: usize = 0;
    while i < dims.len()
        invariant
            i <= dims@.len(),
            parts@.len() == i,
            forall|k: int| 0 <= k < i ==> #[trigger] parts@[k]@ == dim_text(json_view_at(dims@, k)),
        decreases dims.len() - i,
    {
        parts.push(display_dim(&dims[i]));
        i = i + 1;
    }
    let inner = join_strings(&parts, ", ");
    assert(parts@.map_values(|p: String| p@) =~= items_view(dims@).map_values(|d: Json| dim_text(d)));
    let mut r = String::from_str("[");
    r.append(inner.as_str());
    r.append("]");
    proof {
        reveal_strlit("[");
        reveal_strlit("]");
    }
    assert(r@ =~= dims_text(items_view(dims@)));
    r
}

/// The view of element `k` of a sequence of values.
pub open spec fn json_view_at(s: Seq<JsonValue>, k: int) -> Json {
    s[k]@
}

} // verus!
