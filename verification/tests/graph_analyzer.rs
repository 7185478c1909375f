//! Classification behaviour on whole inputs.

use adb_query_runner::{is_graph, ClassifyError, Document, Element, InvalidKind, JsonValue};

fn obj(fields: Vec<(&str, JsonValue)>) -> Element {
    Element::Object(Document {
        fields: fields.into_iter().map(|(k, v)| (k.to_string(), v)).collect(),
    })
}

fn string(v: &str) -> JsonValue {
    JsonValue::Str(v.to_string())
}

#[test]
fn test_valid_graph() {
    let input = vec![
        obj(vec![("_id", string("vertices/1")), ("name", string("Alice"))]),
        obj(vec![("_id", string("vertices/2")), ("name", string("Bob"))]),
        obj(vec![
            ("_from", string("vertices/1")),
            ("_to", string("vertices/2")),
            ("type", string("knows")),
        ]),
    ];

    let result = is_graph(&input).unwrap();

    assert_eq!(result.vertices.len(), 2);
    assert_eq!(result.edges.len(), 1);
}

#[test]
fn test_invalid_input() {
    let input = vec![obj(vec![("not", string("an array"))])];

    assert!(is_graph(&input).is_err());
}

#[test]
fn test_invalid_vertex() {
    let input = vec![obj(vec![
        ("_id", string("invalid_id_no_slash")),
        ("name", string("Alice")),
    ])];

    assert!(is_graph(&input).is_err());
}

#[test]
fn test_invalid_edge() {
    let input = vec![obj(vec![
        ("_from", string("invalid/from")),
        ("_to", string("invalid_to_no_slash")),
        ("type", string("knows")),
    ])];

    assert!(is_graph(&input).is_err());
}

#[test]
fn test_empty_array() {
    let input = vec![];
    assert!(is_graph(&input).is_err());
}

#[test]
fn test_non_graph_objects() {
    let input = vec![obj(vec![("just", string("a regular object"))])];

    assert!(is_graph(&input).is_err());
}

#[test]
fn empty_input_fails_with_no_edges_found() {
    let input: Vec<Element> = vec![];
    assert!(matches!(is_graph(&input), Err(ClassifyError::NoEdgesFound)));
}

#[test]
fn vertex_only_input_fails_with_no_edges_found() {
    let input = vec![
        obj(vec![("_id", string("vertices/1"))]),
        obj(vec![("_id", string("vertices/2"))]),
    ];
    assert!(matches!(is_graph(&input), Err(ClassifyError::NoEdgesFound)));
}

#[test]
fn bad_vertex_id_fails_with_invalid_element() {
    let input = vec![obj(vec![("_id", string("badid"))])];
    match is_graph(&input) {
        Err(ClassifyError::InvalidElement(kind, Element::Object(doc))) => {
            assert_eq!(kind, InvalidKind::VertexIdFormat);
            assert!(matches!(&doc.fields[0].1, JsonValue::Str(s) if s == "badid"));
        }
        other => panic!("expected an invalid-element error, got {:?}", other),
    }
}

#[test]
fn non_object_element_is_rejected() {
    let input = vec![Element::Primitive(JsonValue::Num("42".to_string()))];
    assert!(matches!(
        is_graph(&input),
        Err(ClassifyError::InvalidElement(InvalidKind::NonObject, _))
    ));
}

#[test]
fn non_string_endpoint_is_rejected() {
    let input = vec![obj(vec![
        ("_from", JsonValue::Bool(true)),
        ("_to", string("vertices/2")),
    ])];
    assert!(matches!(
        is_graph(&input),
        Err(ClassifyError::InvalidElement(
            InvalidKind::EdgeEndpointNotString,
            _
        ))
    ));
}

#[test]
fn non_string_vertex_id_is_rejected() {
    let input = vec![obj(vec![("_id", JsonValue::Num("7".to_string()))])];
    assert!(matches!(
        is_graph(&input),
        Err(ClassifyError::InvalidElement(
            InvalidKind::VertexIdNotString,
            _
        ))
    ));
}

#[test]
fn two_separators_in_endpoint_are_rejected() {
    let input = vec![obj(vec![
        ("_from", string("a/b/c")),
        ("_to", string("vertices/2")),
    ])];
    assert!(matches!(
        is_graph(&input),
        Err(ClassifyError::InvalidElement(
            InvalidKind::EdgeEndpointFormat,
            _
        ))
    ));
}

#[test]
fn placeholders_are_synthesized_for_referenced_ids() {
    let input = vec![obj(vec![
        ("_from", string("v/1")),
        ("_to", string("v/2")),
        ("_key", string("e1")),
    ])];
    let graph = is_graph(&input).unwrap();
    assert_eq!(graph.edges.len(), 1);
    assert_eq!(graph.vertices.len(), 2);
    for (vertex, id) in graph.vertices.iter().zip(["v/1", "v/2"]) {
        assert_eq!(vertex.fields.len(), 1);
        assert_eq!(vertex.fields[0].0, "_id");
        assert!(matches!(&vertex.fields[0].1, JsonValue::Str(s) if s == id));
    }
}

#[test]
fn classification_is_idempotent_on_its_output() {
    let input = vec![
        obj(vec![("_id", string("v/1")), ("name", string("Alice"))]),
        obj(vec![
            ("_from", string("v/1")),
            ("_to", string("v/2")),
            ("_key", string("e1")),
        ]),
    ];
    let first = is_graph(&input).unwrap();

    let rerun_input: Vec<Element> = first
        .vertices
        .iter()
        .chain(first.edges.iter())
        .map(|d| Element::Object(Document {
            fields: d.fields.clone(),
        }))
        .collect();
    let second = is_graph(&rerun_input).unwrap();

    assert_eq!(second.vertices.len(), first.vertices.len());
    assert_eq!(second.edges.len(), first.edges.len());
    for (a, b) in first.vertices.iter().zip(second.vertices.iter()) {
        assert_eq!(format!("{:?}", a), format!("{:?}", b));
    }
    for (a, b) in first.edges.iter().zip(second.edges.iter()) {
        assert_eq!(format!("{:?}", a), format!("{:?}", b));
    }
}
