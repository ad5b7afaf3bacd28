//! Remote store discovery over HTTP(S).
//!
//! HTTP offers no directory listing, so remote discovery relies on
//! consolidated metadata:
//!
//! 1. Fetch `<root>/.zmetadata` (Zarr v2 consolidated metadata). If it parses
//!    and lists nodes, it is the whole store.
//! 2. Otherwise fetch `<root>/zarr.json` (Zarr v3). If present it is the root
//!    node, expanded with its `consolidated_metadata` when it has one.
//! 3. Otherwise probe the Zarr v2 root markers `<root>/.zgroup` and
//!    `<root>/.zarray`.
//!
//! The fetching is done by the caller: [`RemoteScan`] says which URL to fetch
//! next and takes the answer (the body, or `None` for a 404).

use vstd::prelude::*;
use vstd::string::StringExecFns;

use crate::json::{entries_view, group_json_view, json_get, Json, JsonValue};
use crate::json_codec::{json_compact, json_parse, parse_json, to_compact_bytes};
use crate::scanner::{files_view, path_le, role_of_name, sorted_scan, MetadataRole, RawFileView, RawMetadataFile, StoreScan};
use crate::sorting::sort_by;
use crate::text::{concat2, final_segment, last_segment, parent_location, parent_of, to_chars};

verus! {

broadcast use {vstd::std_specs::vec::group_vec_axioms, group_json_view};

/// `root` and `key` joined with exactly one `/` when `root` does not already
/// end with one.
pub open spec fn join_url(root: Seq<char>, key: Seq<char>) -> Seq<char> {
    if root.len() > 0 && root.last() == '/' {
        root + key
    } else {
        root + "/"@ + key
    }
}

/// Join a store root and a store-relative key into a URL.
pub fn join(root: &str, key: &str) -> (r: String)
    ensures
        r@ == join_url(root@, key@),
{
    let cs = to_chars(root);
    if cs.len() > 0 && cs[cs.len() - 1] == '/' {
        concat2(root, key)
    } else {
        crate::text::concat3(root, "/", key)
    }
}

/// The node record for member `key` of Zarr v2 consolidated metadata, when
/// the key names a node marker (`.zgroup`, `.zarray`, `zarr.json`).
pub open spec fn v2_entry_file(key: Seq<char>, meta: Json, root: Seq<char>) -> Option<RawFileView> {
    match role_of_name(last_segment(key)) {
        Some(role) => Some(RawFileView {
            role,
            source: join_url(root, key),
            rel_display: key,
            location: parent_of(key),
            bytes: json_compact(meta),
        }),
        None => None,
    }
}

pub open spec fn v2_entries_files(entries: Seq<(Seq<char>, Json)>, root: Seq<char>) -> Seq<RawFileView>
    decreases entries.len(),
{
    if entries.len() == 0 {
        seq![]
    } else {
        let rest = v2_entries_files(entries.drop_last(), root);
        match v2_entry_file(entries.last().0, entries.last().1, root) {
            Some(f) => rest.push(f),
            None => rest,
        }
    }
}

/// The node records listed by Zarr v2 consolidated metadata: one per member
/// of its `metadata` object whose key names a node marker, in order.
pub open spec fn v2_consolidated_files(v: Json, root: Seq<char>) -> Seq<RawFileView> {
    match json_get(v, "metadata"@) {
        Some(Json::Object(entries)) => v2_entries_files(entries, root),
        _ => seq![],
    }
}

/// The record of a store document with marker role `role` at display path
/// `key`, holding `meta`: fetched from `<root>/<key>`, located at the
/// directory part of `key`, with the compact JSON of `meta`.
pub open spec fn keyed_record(role: MetadataRole, key: Seq<char>, meta: Json, root: Seq<char>) -> RawFileView {
    RawFileView { role, source: join_url(root, key), rel_display: key, location: parent_of(key), bytes: json_compact(meta) }
}

/// Expanding Zarr v2 consolidated metadata gives a record for every member
/// whose key ends in a node marker (`.zgroup`, `.zarray`, `zarr.json`), with
/// that marker's role, and every record it gives is that of such a member.
pub proof fn lemma_v2_entries_cover_markers(entries: Seq<(Seq<char>, Json)>, root: Seq<char>)
    ensures
        forall|i: int| 0 <= i < entries.len() && role_of_name(last_segment((#[trigger] entries[i]).0)) is Some
            ==> v2_entries_files(entries, root).contains(
                keyed_record(role_of_name(last_segment(entries[i].0))->0, entries[i].0, entries[i].1, root),
            ),
        forall|j: int| #![trigger v2_entries_files(entries, root)[j]] 0 <= j < v2_entries_files(entries, root).len()
            ==> exists|i: int| 0 <= i < entries.len() && role_of_name(last_segment((#[trigger] entries[i]).0)) is Some
            && v2_entries_files(entries, root)[j]
                == keyed_record(role_of_name(last_segment(entries[i].0))->0, entries[i].0, entries[i].1, root),
    decreases entries.len(),
{
    if entries.len() > 0 {
        let init = entries.drop_last();
        lemma_v2_entries_cover_markers(init, root);
        let rest = v2_entries_files(init, root);
        let cur = v2_entries_files(entries, root);
        let last = entries.len() - 1;
        assert(entries[last] == entries.last());
        assert forall|i: int| 0 <= i < entries.len() && role_of_name(last_segment((#[trigger] entries[i]).0)) is Some
            implies cur.contains(keyed_record(role_of_name(last_segment(entries[i].0))->0, entries[i].0, entries[i].1, root)) by {
            let rec = keyed_record(role_of_name(last_segment(entries[i].0))->0, entries[i].0, entries[i].1, root);
            if i < last {
                assert(init[i] == entries[i]);
                let k = choose|k: int| 0 <= k < rest.len() && rest[k] == rec;
                assert(cur[k] == rest[k]);
            } else {
                assert(cur[rest.len() as int] == rec);
            }
        }
        assert forall|j: int| #![trigger cur[j]] 0 <= j < cur.len() implies exists|i: int| 0 <= i < entries.len()
            && role_of_name(last_segment((#[trigger] entries[i]).0)) is Some
            && cur[j] == keyed_record(role_of_name(last_segment(entries[i].0))->0, entries[i].0, entries[i].1, root) by {
            if j < rest.len() {
                assert(cur[j] == rest[j]);
                let i = choose|i: int| 0 <= i < init.len() && role_of_name(last_segment((#[trigger] init[i]).0)) is Some
                    && rest[j] == keyed_record(role_of_name(last_segment(init[i].0))->0, init[i].0, init[i].1, root);
                assert(init[i] == entries[i]);
            } else {
                assert(cur[j] == keyed_record(role_of_name(last_segment(entries[last].0))->0, entries[last].0, entries[last].1, root));
            }
        }
    }
}

/// Expand Zarr v2 consolidated metadata (`.zmetadata`) into node records.
fn expand_v2_consolidated(value: &JsonValue, root: &str) -> (r: Vec<RawMetadataFile>)
    ensures
        files_view(r@) == v2_consolidated_files(value@, root@),
{
    let mut files: Vec<RawMetadataFile> = Vec::new();
    let metadata = match value.get("metadata") {
        Some(m) => m,
        None => {
            assert(files_view(files@) =~= Seq::<RawFileView>::empty());
            return files;
        },
    };
    let entries = match metadata.as_object() {
        Some(e) => e,
        None => {
            assert(files_view(files@) =~= Seq::<RawFileView>::empty());
            return files;
        },
    };
    let ghost ev = entries_view(entries@);
    let mut i: usize = 0;
    assert(files_view(files@) =~= v2_entries_files(ev.take(0), root@));
    while i < entries.len()
        invariant
            i <= entries@.len(),
            ev == entries_view(entries@),
            files_view(files@) == v2_entries_files(ev.take(i as int), root@),
        decreases entries.len() - i,
    {
        let key = &entries[i].0;
        let node_metadata = &entries[i].1;
        assert(ev.take(i + 1).drop_last() =~= ev.take(i as int));
        assert(ev.take(i + 1).last() == (key@, node_metadata@));
        let file_name = final_segment(key.as_str());
        match MetadataRole::from_file_name(file_name.as_str()) {
            Some(role) => {
                let f = RawMetadataFile {
                    role,
                    source: join(root, key.as_str()),
                    rel_display: key.clone(),
                    location: parent_location(key.as_str()),
                    bytes: to_compact_bytes(node_metadata),
                };
                let ghost before = files@;
                files.push(f);
                assert(files_view(files@) =~= files_view(before).push(f@));
            },
            None => {},
        }
        i = i + 1;
    }
    assert(ev.take(i as int) =~= ev);
    files
}

/// The root record of a Zarr v3 store whose `zarr.json` holds `bytes`.
pub open spec fn v3_root_file(bytes: Seq<u8>, root: Seq<char>) -> RawFileView {
    RawFileView {
        role: MetadataRole::V3Node,
        source: join_url(root, "zarr.json"@),
        rel_display: "zarr.json"@,
        location: seq![],
        bytes,
    }
}

pub open spec fn v3_child_files(entries: Seq<(Seq<char>, Json)>, root: Seq<char>) -> Seq<RawFileView>
    decreases entries.len(),
{
    if entries.len() == 0 {
        seq![]
    } else {
        let rest = v3_child_files(entries.drop_last(), root);
        let name = entries.last().0;
        if name.len() == 0 {
            rest
        } else {
            rest.push(RawFileView {
                role: MetadataRole::V3Node,
                source: join_url(root, name + "/zarr.json"@),
                rel_display: name + "/zarr.json"@,
                location: name,
                bytes: json_compact(entries.last().1),
            })
        }
    }
}

/// The node records of a Zarr v3 store from its root `zarr.json`: the root
/// itself, then one per named member of `consolidated_metadata.metadata` when
/// the document parses and has one.
pub open spec fn v3_root_files(bytes: Seq<u8>, root: Seq<char>) -> Seq<RawFileView> {
    let children = match json_parse(bytes) {
        Ok(v) => match json_get(v, "consolidated_metadata"@) {
            Some(c) => match json_get(c, "metadata"@) {
                Some(Json::Object(entries)) => v3_child_files(entries, root),
                _ => seq![],
            },
            None => seq![],
        },
        Err(_) => seq![],
    };
    seq![v3_root_file(bytes, root)] + children
}

/// The V3 node record for a consolidated-metadata member named `name`
/// holding `meta`: displayed as `<name>/zarr.json`, located at `<name>`,
/// fetched from `<root>/<name>/zarr.json`, with the member's compact JSON.
pub open spec fn member_record(name: Seq<char>, meta: Json, root: Seq<char>) -> RawFileView {
    RawFileView {
        role: MetadataRole::V3Node,
        source: join_url(root, name + "/zarr.json"@),
        rel_display: name + "/zarr.json"@,
        location: name,
        bytes: json_compact(meta),
    }
}

/// Expanding the members of a Zarr v3 root's consolidated metadata gives a
/// record for every member with a non-empty name, whatever the name holds
/// (`/` included), and every record it gives is that of such a member.
pub proof fn lemma_v3_children_cover_members(entries: Seq<(Seq<char>, Json)>, root: Seq<char>)
    ensures
        forall|i: int| 0 <= i < entries.len() && (#[trigger] entries[i]).0.len() > 0
            ==> v3_child_files(entries, root).contains(member_record(entries[i].0, entries[i].1, root)),
        forall|j: int| #![trigger v3_child_files(entries, root)[j]] 0 <= j < v3_child_files(entries, root).len()
            ==> exists|i: int| 0 <= i < entries.len() && (#[trigger] entries[i]).0.len() > 0
            && v3_child_files(entries, root)[j] == member_record(entries[i].0, entries[i].1, root),
    decreases entries.len(),
{
    if entries.len() > 0 {
        let init = entries.drop_last();
        lemma_v3_children_cover_members(init, root);
        let rest = v3_child_files(init, root);
        let cur = v3_child_files(entries, root);
        let last = entries.len() - 1;
        assert(entries[last] == entries.last());
        assert forall|i: int| 0 <= i < entries.len() && (#[trigger] entries[i]).0.len() > 0
            implies cur.contains(member_record(entries[i].0, entries[i].1, root)) by {
            if i < last {
                assert(init[i] == entries[i]);
                let k = choose|k: int| 0 <= k < rest.len() && rest[k] == member_record(init[i].0, init[i].1, root);
                assert(cur[k] == rest[k]);
            } else {
                assert(cur[rest.len() as int] == member_record(entries[i].0, entries[i].1, root));
            }
        }
        assert forall|j: int| #![trigger cur[j]] 0 <= j < cur.len() implies exists|i: int| 0 <= i < entries.len()
            && (#[trigger] entries[i]).0.len() > 0 && cur[j] == member_record(entries[i].0, entries[i].1, root) by {
            if j < rest.len() {
                assert(cur[j] == rest[j]);
                let i = choose|i: int| 0 <= i < init.len() && (#[trigger] init[i]).0.len() > 0
                    && rest[j] == member_record(init[i].0, init[i].1, root);
                assert(init[i] == entries[i]);
            } else {
                assert(cur[j] == member_record(entries[last].0, entries[last].1, root));
            }
        }
    }
}

/// A Zarr v3 root `zarr.json` whose `consolidated_metadata.metadata` is an
/// object is discovered as the root record first, followed by a record for
/// every member of that object with a non-empty name.
pub proof fn lemma_v3_root_expands_members(
    bytes: Seq<u8>,
    root: Seq<char>,
    v: Json,
    c: Json,
    entries: Seq<(Seq<char>, Json)>,
)
    requires
        json_parse(bytes) == Ok::<Json, Seq<char>>(v),
        json_get(v, "consolidated_metadata"@) == Some(c),
        json_get(c, "metadata"@) == Some(Json::Object(entries)),
    ensures
        v3_root_files(bytes, root)[0] == v3_root_file(bytes, root),
        forall|i: int| 0 <= i < entries.len() && (#[trigger] entries[i]).0.len() > 0
            ==> v3_root_files(bytes, root).contains(member_record(entries[i].0, entries[i].1, root)),
{
    lemma_v3_children_cover_members(entries, root);
    let kids = v3_child_files(entries, root);
    assert(v3_root_files(bytes, root) == seq![v3_root_file(bytes, root)] + kids);
    assert forall|i: int| 0 <= i < entries.len() && (#[trigger] entries[i]).0.len() > 0
        implies v3_root_files(bytes, root).contains(member_record(entries[i].0, entries[i].1, root)) by {
        let k = choose|k: int| 0 <= k < kids.len() && kids[k] == member_record(entries[i].0, entries[i].1, root);
        assert(v3_root_files(bytes, root)[k + 1] == kids[k]);
    }
}

fn expand_v3_children(entries: &Vec<(String, JsonValue)>, root: &str, files: &mut Vec<RawMetadataFile>)
    ensures
        files_view(final(files)@) == files_view(old(files)@) + v3_child_files(entries_view(entries@), root@),
{
    let ghost start = files_view(files@);
    let ghost ev = entries_view(entries@);
    let mut i: usize = 0;
    assert(v3_child_files(ev.take(0), root@) =~= Seq::<RawFileView>::empty());
    assert(files_view(files@) =~= start + v3_child_files(ev.take(0), root@));
    while i < entries.len()
        invariant
            i <= entries@.len(),
            ev == entries_view(entries@),
            files_view(files@) == start + v3_child_files(ev.take(i as int), root@),
        decreases entries.len() - i,
    {
        let name = &entries[i].0;
        let node_metadata = &entries[i].1;
        assert(ev.take(i + 1).drop_last() =~= ev.take(i as int));
        assert(ev.take(i + 1).last() == (name@, node_metadata@));
        if !name.as_str().is_empty() {
            let rel = concat2(name.as_str(), "/zarr.json");
            let f = RawMetadataFile {
                role: MetadataRole::V3Node,
                source: join(root, rel.as_str()),
                rel_display: rel,
                location: name.clone(),
                bytes: to_compact_bytes(node_metadata),
            };
            let ghost before = files@;
            files.push(f);
            assert(files_view(files@) =~= files_view(before).push(f@));
        }
        i = i + 1;
    }
    assert(ev.take(i as int) =~= ev);
}

/// Build node records from a Zarr v3 root `zarr.json`, expanding consolidated
/// metadata when present.
fn expand_v3_root(root_bytes: &Vec<u8>, root: &str) -> (r: Vec<RawMetadataFile>)
    ensures
        files_view(r@) == v3_root_files(root_bytes@, root@),
{
    let mut files: Vec<RawMetadataFile> = Vec::new();
    let first = RawMetadataFile {
        role: MetadataRole::V3Node,
        source: join(root, "zarr.json"),
        rel_display: String::from_str("zarr.json"),
        location: String::new(),
        bytes: root_bytes.clone(),
    };
    files.push(first);
    assert(files_view(files@) =~= seq![v3_root_file(root_bytes@, root@)]);
    let ghost start = files_view(files@);
    match parse_json(root_bytes.as_slice()) {
        Ok(value) => match value.get("consolidated_metadata") {
            Some(c) => match c.get("metadata") {
                Some(m) => match m.as_object() {
                    Some(entries) => {
                        expand_v3_children(entries, root, &mut files);
                    },
                    None => {
                        assert(files_view(files@) =~= start + Seq::<RawFileView>::empty());
                    },
                },
                None => {
                    assert(files_view(files@) =~= start + Seq::<RawFileView>::empty());
                },
            },
            None => {
                assert(files_view(files@) =~= start + Seq::<RawFileView>::empty());
            },
        },
        Err(_) => {
            assert(files_view(files@) =~= start + Seq::<RawFileView>::empty());
        },
    }
    files
}

} // verus!

verus! {

/// Where a remote scan is in its sequence of probes.
#[derive(Debug, Clone, Copy, PartialEq, Eq, Structural)]
pub enum RemoteStage {
    /// Probing `<root>/.zmetadata`.
    Consolidated,
    /// Probing `<root>/zarr.json`.
    V3Root,
    /// Probing `<root>/.zgroup`.
    V2Group,
    /// Probing `<root>/.zarray`.
    V2Array,
}

/// The store-relative key a stage fetches.
pub open spec fn stage_key(stage: RemoteStage) -> Seq<char> {
    match stage {
        RemoteStage::Consolidated => ".zmetadata"@,
        RemoteStage::V3Root => "zarr.json"@,
        RemoteStage::V2Group => ".zgroup"@,
        RemoteStage::V2Array => ".zarray"@,
    }
}

/// A remote scan in progress.
#[derive(Debug)]
pub struct RemoteScan {
    root: String,
    stage: RemoteStage,
    files: Vec<RawMetadataFile>,
}

/// The mathematical value of a [`RemoteScan`].
pub struct RemoteView {
    pub root: Seq<char>,
    pub stage: RemoteStage,
    pub files: Seq<RawFileView>,
}

impl View for RemoteScan {
    type V = RemoteView;

    closed spec fn view(&self) -> RemoteView {
        RemoteView { root: self.root@, stage: self.stage, files: files_view(self.files@) }
    }
}

/// The outcome of one probe.
#[derive(Debug)]
pub enum RemoteProgress {
    /// Discovery is complete.
    Finished(StoreScan),
    /// Another URL must be fetched.
    Pending(RemoteScan),
}

/// The mathematical value of a [`RemoteProgress`].
pub enum ProgressView {
    Finished(Seq<char>, Seq<RawFileView>),
    Pending(RemoteView),
}

impl View for RemoteProgress {
    type V = ProgressView;

    open spec fn view(&self) -> ProgressView {
        match self {
            RemoteProgress::Finished(scan) => ProgressView::Finished(scan.root@, files_view(scan.files@)),
            RemoteProgress::Pending(m) => ProgressView::Pending(m@),
        }
    }
}

pub open spec fn bytes_view(o: Option<Vec<u8>>) -> Option<Seq<u8>> {
    match o {
        Some(b) => Some(b@),
        None => None,
    }
}

/// The record for a Zarr v2 root marker fetched with body `bytes`.
pub open spec fn v2_marker_file(name: Seq<char>, role: MetadataRole, bytes: Seq<u8>, root: Seq<char>) -> RawFileView {
    RawFileView { role, source: join_url(root, name), rel_display: name, location: seq![], bytes }
}

/// The records Zarr v2 consolidated metadata with body `response` lists
/// (none when it is absent or not JSON).
pub open spec fn consolidated_response_files(response: Option<Seq<u8>>, root: Seq<char>) -> Seq<RawFileView> {
    match response {
        Some(b) => match json_parse(b) {
            Ok(v) => v2_consolidated_files(v, root),
            Err(_) => seq![],
        },
        None => seq![],
    }
}

/// One probe: what the answer `response` (`None` for "not found") to the
/// current stage's URL leads to.
pub open spec fn remote_step(m: RemoteView, response: Option<Seq<u8>>) -> ProgressView {
    match m.stage {
        RemoteStage::Consolidated => {
            let files = consolidated_response_files(response, m.root);
            if files.len() > 0 {
                ProgressView::Finished(m.root, sort_by(files, path_le()))
            } else {
                ProgressView::Pending(RemoteView { root: m.root, stage: RemoteStage::V3Root, files: seq![] })
            }
        },
        RemoteStage::V3Root => match response {
            Some(b) => ProgressView::Finished(m.root, sort_by(v3_root_files(b, m.root), path_le())),
            None => ProgressView::Pending(RemoteView { root: m.root, stage: RemoteStage::V2Group, files: seq![] }),
        },
        RemoteStage::V2Group => ProgressView::Pending(RemoteView {
            root: m.root,
            stage: RemoteStage::V2Array,
            files: match response {
                Some(b) => m.files.push(v2_marker_file(".zgroup"@, MetadataRole::V2Group, b, m.root)),
                None => m.files,
            },
        }),
        RemoteStage::V2Array => ProgressView::Finished(
            m.root,
            sort_by(
                match response {
                    Some(b) => m.files.push(v2_marker_file(".zarray"@, MetadataRole::V2Array, b, m.root)),
                    None => m.files,
                },
                path_le(),
            ),
        ),
    }
}

impl RemoteScan {
    /// Start discovering the remote store rooted at `root`.
    pub fn new(root: &str) -> (r: Self)
        ensures
            r@ == (RemoteView { root: root@, stage: RemoteStage::Consolidated, files: seq![] }),
    {
        let r = RemoteScan { root: String::from_str(root), stage: RemoteStage::Consolidated, files: Vec::new() };
        assert(files_view(r.files@) =~= Seq::<RawFileView>::empty());
        r
    }

    /// The URL to fetch next.
    pub fn next_url(&self) -> (r: String)
        ensures
            r@ == join_url(self@.root, stage_key(self@.stage)),
    {
        match self.stage {
            RemoteStage::Consolidated => join(self.root.as_str(), ".zmetadata"),
            RemoteStage::V3Root => join(self.root.as_str(), "zarr.json"),
            RemoteStage::V2Group => join(self.root.as_str(), ".zgroup"),
            RemoteStage::V2Array => join(self.root.as_str(), ".zarray"),
        }
    }

    /// Take the answer to [`RemoteScan::next_url`]: its body, or `None` when
    /// the resource is absent (HTTP 404).
    pub fn advance(self, response: Option<Vec<u8>>) -> (r: RemoteProgress)
        ensures
            r@ == remote_step(self@, bytes_view(response)),
    {
        let root = self.root;
        match self.stage {
            RemoteStage::Consolidated => {
                let files = match &response {
                    Some(bytes) => match parse_json(bytes.as_slice()) {
                        Ok(value) => expand_v2_consolidated(&value, root.as_str()),
                        Err(_) => {
                            let v: Vec<RawMetadataFile> = Vec::new();
                            assert(files_view(v@) =~= Seq::<RawFileView>::empty());
                            v
                        },
                    },
                    None => {
                        let v: Vec<RawMetadataFile> = Vec::new();
                        assert(files_view(v@) =~= Seq::<RawFileView>::empty());
                        v
                    },
                };
                if files.len() > 0 {
                    RemoteProgress::Finished(sorted_scan(root, files))
                } else {
                    let next = RemoteScan { root, stage: RemoteStage::V3Root, files: Vec::new() };
                    assert(files_view(next.files@) =~= Seq::<RawFileView>::empty());
                    RemoteProgress::Pending(next)
                }
            },
            RemoteStage::V3Root => match response {
                Some(bytes) => {
                    let files = expand_v3_root(&bytes, root.as_str());
                    RemoteProgress::Finished(sorted_scan(root, files))
                },
                None => {
                    let next = RemoteScan { root, stage: RemoteStage::V2Group, files: Vec::new() };
                    assert(files_view(next.files@) =~= Seq::<RawFileView>::empty());
                    RemoteProgress::Pending(next)
                },
            },
            RemoteStage::V2Group => {
                let mut files = self.files;
                match response {
                    Some(bytes) => {
                        let f = RawMetadataFile {
                            role: MetadataRole::V2Group,
                            source: join(root.as_str(), ".zgroup"),
                            rel_display: String::from_str(".zgroup"),
                            location: String::new(),
                            bytes,
                        };
                        let ghost before = files@;
                        files.push(f);
                        assert(files_view(files@) =~= files_view(before).push(f@));
                    },
                    None => {},
                }
                RemoteProgress::Pending(RemoteScan { root, stage: RemoteStage::V2Array, files })
            },
            RemoteStage::V2Array => {
                let mut files = self.files;
                match response {
                    Some(bytes) => {
                        let f = RawMetadataFile {
                            role: MetadataRole::V2Array,
                            source: join(root.as_str(), ".zarray"),
                            rel_display: String::from_str(".zarray"),
                            location: String::new(),
                            bytes,
                        };
                        let ghost before = files@;
                        files.push(f);
                        assert(files_view(files@) =~= files_view(before).push(f@));
                    },
                    None => {},
                }
                RemoteProgress::Finished(sorted_scan(root, files))
            },
        }
    }
}

/// Runs the probes against `fetch` (the body each URL answers with, `None`
/// for "not found"), for at most `fuel` probes.
pub open spec fn drive(m: RemoteView, fetch: spec_fn(Seq<char>) -> Option<Seq<u8>>, fuel: nat) -> Option<Seq<RawFileView>>
    decreases fuel,
{
    if fuel == 0 {
        None
    } else {
        match remote_step(m, fetch(join_url(m.root, stage_key(m.stage)))) {
            ProgressView::Finished(_, files) => Some(files),
            ProgressView::Pending(next) => drive(next, fetch, (fuel - 1) as nat),
        }
    }
}

/// What remote discovery finds at `root` when each URL answers as `fetch`
/// says: the nodes listed by `.zmetadata` when it parses and lists any;
/// otherwise the root `zarr.json` (expanded with its consolidated metadata)
/// when present; otherwise whichever of `.zgroup` and `.zarray` exist. The
/// documents are listed sorted by display path.
pub open spec fn remote_discovery(root: Seq<char>, fetch: spec_fn(Seq<char>) -> Option<Seq<u8>>) -> Seq<RawFileView> {
    let consolidated = consolidated_response_files(fetch(join_url(root, ".zmetadata"@)), root);
    let found = if consolidated.len() > 0 {
        consolidated
    } else {
        match fetch(join_url(root, "zarr.json"@)) {
            Some(b) => v3_root_files(b, root),
            None => {
                let g: Seq<RawFileView> = match fetch(join_url(root, ".zgroup"@)) {
                    Some(b) => seq![v2_marker_file(".zgroup"@, MetadataRole::V2Group, b, root)],
                    None => seq![],
                };
                match fetch(join_url(root, ".zarray"@)) {
                    Some(b) => g.push(v2_marker_file(".zarray"@, MetadataRole::V2Array, b, root)),
                    None => g,
                }
            },
        }
    };
    sort_by(found, path_le())
}

/// Driving a fresh scan with any answers finishes within four probes, with
/// exactly the documented discovery result.
pub proof fn lemma_remote_scan_discovers(root: Seq<char>, fetch: spec_fn(Seq<char>) -> Option<Seq<u8>>)
    ensures
        drive(RemoteView { root, stage: RemoteStage::Consolidated, files: seq![] }, fetch, 4)
            == Some(remote_discovery(root, fetch)),
{
    let m0 = RemoteView { root, stage: RemoteStage::Consolidated, files: seq![] };
    let m1 = RemoteView { root, stage: RemoteStage::V3Root, files: seq![] };
    let m2 = RemoteView { root, stage: RemoteStage::V2Group, files: seq![] };
    reveal_with_fuel(drive, 5);
    match fetch(join_url(root, ".zgroup"@)) {
        Some(b) => {
            assert(seq![v2_marker_file(".zgroup"@, MetadataRole::V2Group, b, root)]
                =~= Seq::<RawFileView>::empty().push(v2_marker_file(".zgroup"@, MetadataRole::V2Group, b, root)));
        },
        None => {},
    }
}

} // verus!
