use zarr_lint_core::json_codec::parse_json;
use zarr_lint_core::json::JsonValue;
use zarr_lint_core::model::format_dims;
use zarr_lint_core::scanner::MetadataRole;
use zarr_lint_core::{NodeKind, ParsedMetadata, ZarrVersion};

fn parsed(role: MetadataRole, json: &str) -> ParsedMetadata {
    ParsedMetadata {
        role,
        version: role.version(),
        location: "n".into(),
        rel_display: "n/meta".into(),
        source: "/store/n/meta".into(),
        value: parse_json(json.as_bytes()).unwrap(),
    }
}

#[test]
fn v2_array_extracts_shape_and_chunks() {
    let p = parsed(MetadataRole::V2Array, r#"{"zarr_format": 2, "shape": [4, 3], "chunks": [2, 2]}"#);
    assert_eq!(p.declared_format(), Some(2));
    assert_eq!(p.kind(), Some(NodeKind::Array));
    assert_eq!(p.shape_dims().unwrap().len(), 2);
    assert_eq!(p.chunk_dims().unwrap().len(), 2);
    assert!(p.has_chunk_grid_field());
}

#[test]
fn v3_array_reads_nested_chunk_shape() {
    let p = parsed(
        MetadataRole::V3Node,
        r#"{
            "zarr_format": 3,
            "node_type": "array",
            "shape": [3, 2],
            "chunk_grid": {"name": "regular", "configuration": {"chunk_shape": [2, 2]}}
        }"#,
    );
    assert_eq!(p.kind(), Some(NodeKind::Array));
    assert_eq!(p.chunk_dims().unwrap().len(), 2);
    assert!(p.has_chunk_grid_field());
}

#[test]
fn v3_missing_node_type_has_no_kind() {
    let p = parsed(MetadataRole::V3Node, r#"{"zarr_format": 3}"#);
    assert_eq!(p.kind(), None);
    assert!(p.to_node().is_none());
}

#[test]
fn null_required_field_counts_as_absent() {
    let p = parsed(
        MetadataRole::V3Node,
        r#"{"zarr_format": 3, "node_type": "array", "shape": null, "chunk_grid": null}"#,
    );
    assert!(!p.has_field("shape"));
    assert!(!p.has_chunk_grid_field());
}

#[test]
fn format_dims_is_compact() {
    assert_eq!(format_dims(&vec![JsonValue::PosInt(4), JsonValue::PosInt(3)]), "[4, 3]");
}

#[test]
fn format_dims_shows_non_integers_as_json() {
    let dims = vec![JsonValue::NegInt(-1), JsonValue::Str("x".into()), JsonValue::Null];
    assert_eq!(format_dims(&dims), "[-1, \"x\", null]");
    assert_eq!(format_dims(&vec![]), "[]");
}

#[test]
fn v3_group_node_and_unknown_node_type() {
    let group = parsed(MetadataRole::V3Node, r#"{"zarr_format": 3, "node_type": "group"}"#);
    assert_eq!(group.node_type(), Some("group"));
    let node = group.to_node().unwrap();
    assert_eq!(node.kind, NodeKind::Group);
    assert_eq!(node.version, ZarrVersion::V3);
    assert_eq!(node.logical_path, "n");
    let odd = parsed(MetadataRole::V3Node, r#"{"zarr_format": 3, "node_type": "table"}"#);
    assert_eq!(odd.kind(), None);
}

#[test]
fn declared_format_requires_an_integer() {
    let p = parsed(MetadataRole::V2Group, r#"{"zarr_format": "2"}"#);
    assert_eq!(p.declared_format(), None);
    assert_eq!(p.kind(), Some(NodeKind::Group));
    assert_eq!(ZarrVersion::V2.as_str(), "v2");
    assert_eq!(NodeKind::Array.as_str(), "array");
}
