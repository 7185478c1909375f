//! Translation of classified graphs into the visualization service's
//! element format, and the upload protocol's decisions.

use adb_query_runner::{
    classify_and_plan, collect_attributes, export_outcome, infer_column_type, is_graph,
    make_export_plan, network_creation_outcome, network_metadata, ClassifyError, ColumnType,
    Document, Element, ExportError, ExportOutcome, JsonValue,
};

fn doc(fields: Vec<(&str, JsonValue)>) -> Document {
    Document {
        fields: fields.into_iter().map(|(k, v)| (k.to_string(), v)).collect(),
    }
}

fn string(v: &str) -> JsonValue {
    JsonValue::Str(v.to_string())
}

fn field<'a>(d: &'a Document, key: &str) -> Option<&'a JsonValue> {
    d.fields.iter().find(|(k, _)| k == key).map(|(_, v)| v)
}

#[test]
fn attribute_discovery_skips_internal_fields() {
    let docs = vec![
        doc(vec![
            ("_id", string("v/1")),
            ("name", string("Alice")),
            ("age", JsonValue::Num("30".to_string())),
        ]),
        doc(vec![
            ("_id", string("v/2")),
            ("name", string("Bob")),
            ("_rev", string("x")),
            ("active", JsonValue::Bool(true)),
        ]),
    ];
    let attrs = collect_attributes(&docs);
    assert_eq!(
        attrs,
        vec!["name".to_string(), "age".to_string(), "active".to_string()]
    );
}

#[test]
fn column_type_uses_first_typed_value() {
    let docs = vec![
        doc(vec![("x", JsonValue::Null)]),
        doc(vec![("x", JsonValue::Bool(true))]),
        doc(vec![("x", string("later"))]),
    ];
    assert_eq!(infer_column_type(&docs, "x"), ColumnType::Boolean);

    let docs = vec![doc(vec![("y", JsonValue::Num("1.5".to_string()))])];
    assert_eq!(infer_column_type(&docs, "y"), ColumnType::Double);

    let docs = vec![doc(vec![("z", JsonValue::Null)])];
    assert_eq!(infer_column_type(&docs, "z"), ColumnType::Text);

    let docs = vec![doc(vec![])];
    assert_eq!(infer_column_type(&docs, "missing"), ColumnType::Text);
}

#[test]
fn column_labels_match_the_service_names() {
    assert_eq!(ColumnType::Text.label(), "String");
    assert_eq!(ColumnType::Double.label(), "Double");
    assert_eq!(ColumnType::Boolean.label(), "Boolean");
}

#[test]
fn explicit_graph_exports_nodes_and_drops_keyless_edge() {
    let input = vec![
        Element::Object(doc(vec![("_id", string("v/1")), ("name", string("Alice"))])),
        Element::Object(doc(vec![("_id", string("v/2")), ("name", string("Bob"))])),
        Element::Object(doc(vec![
            ("_from", string("v/1")),
            ("_to", string("v/2")),
            ("type", string("knows")),
        ])),
    ];
    let graph = is_graph(&input).unwrap();
    let plan = make_export_plan(&graph);

    assert_eq!(plan.nodes.len(), 2);
    assert!(matches!(field(&plan.nodes[0], "id"), Some(JsonValue::Str(s)) if s == "v/1"));
    assert!(matches!(field(&plan.nodes[0], "name"), Some(JsonValue::Str(s)) if s == "Alice"));
    assert!(matches!(field(&plan.nodes[1], "id"), Some(JsonValue::Str(s)) if s == "v/2"));
    assert!(matches!(field(&plan.nodes[1], "name"), Some(JsonValue::Str(s)) if s == "Bob"));

    // The edge has no `_key`, so it is dropped from the export and counted.
    assert_eq!(plan.edges.len(), 0);
    assert_eq!(plan.dropped_edges, 1);

    assert_eq!(plan.node_columns.len(), 1);
    assert_eq!(plan.node_columns[0].name, "name");
    assert_eq!(plan.node_columns[0].ctype, ColumnType::Text);
    assert_eq!(plan.edge_columns.len(), 1);
    assert_eq!(plan.edge_columns[0].name, "type");
}

#[test]
fn synthesized_graph_exports_minimal_elements() {
    let input = vec![Element::Object(doc(vec![
        ("_from", string("v/1")),
        ("_to", string("v/2")),
        ("_key", string("e1")),
    ]))];
    let graph = is_graph(&input).unwrap();
    let plan = make_export_plan(&graph);

    assert_eq!(plan.nodes.len(), 2);
    assert!(matches!(field(&plan.nodes[0], "id"), Some(JsonValue::Str(s)) if s == "v/1"));
    assert!(matches!(field(&plan.nodes[1], "id"), Some(JsonValue::Str(s)) if s == "v/2"));

    assert_eq!(plan.edges.len(), 1);
    assert!(matches!(field(&plan.edges[0], "id"), Some(JsonValue::Str(s)) if s == "e1"));
    assert!(matches!(field(&plan.edges[0], "source"), Some(JsonValue::Str(s)) if s == "v/1"));
    assert!(matches!(field(&plan.edges[0], "target"), Some(JsonValue::Str(s)) if s == "v/2"));
    assert_eq!(plan.dropped_edges, 0);

    assert!(plan.node_columns.is_empty());
    assert!(plan.edge_columns.is_empty());
}

#[test]
fn exported_edge_carries_discovered_attributes() {
    let input = vec![
        Element::Object(doc(vec![("_id", string("v/1"))])),
        Element::Object(doc(vec![("_id", string("v/2"))])),
        Element::Object(doc(vec![
            ("_from", string("v/1")),
            ("_to", string("v/2")),
            ("_key", string("e1")),
            ("weight", JsonValue::Num("0.8".to_string())),
            ("since", string("2020")),
        ])),
    ];
    let graph = is_graph(&input).unwrap();
    let plan = make_export_plan(&graph);

    assert_eq!(plan.edges.len(), 1);
    assert!(matches!(field(&plan.edges[0], "weight"), Some(JsonValue::Num(s)) if s == "0.8"));
    assert!(matches!(field(&plan.edges[0], "since"), Some(JsonValue::Str(s)) if s == "2020"));
    assert_eq!(plan.edge_columns.len(), 2);
    assert_eq!(plan.edge_columns[0].name, "weight");
    assert_eq!(plan.edge_columns[0].ctype, ColumnType::Double);
    assert_eq!(plan.edge_columns[1].name, "since");
    assert_eq!(plan.edge_columns[1].ctype, ColumnType::Text);
}

#[test]
fn network_metadata_is_fixed() {
    let m = network_metadata();
    assert_eq!(m.format_version, "1.0");
    assert_eq!(m.generated_by, "adb_query_runner");
    assert_eq!(m.target_version, "~3.0");
    assert_eq!(m.network_name, "ArangoDB Graph");
}

#[test]
fn network_creation_outcome_decides_per_response() {
    assert_eq!(network_creation_outcome(200, Some(52)), Ok(52));
    assert_eq!(
        network_creation_outcome(404, Some(52)),
        Err(ExportError::HttpStatus(404))
    );
    assert_eq!(
        network_creation_outcome(201, None),
        Err(ExportError::MalformedResponse)
    );
}

#[test]
fn export_outcome_aggregates_failures() {
    assert_eq!(export_outcome(0, true), ExportOutcome::Complete);
    assert_eq!(
        export_outcome(2, true),
        ExportOutcome::Partial {
            failed_columns: 2,
            layout_failed: false
        }
    );
    assert_eq!(
        export_outcome(0, false),
        ExportOutcome::Partial {
            failed_columns: 0,
            layout_failed: true
        }
    );
}

#[test]
fn classify_and_plan_runs_the_whole_pipeline() {
    let input = vec![
        Element::Object(doc(vec![("_id", string("v/1")), ("name", string("Alice"))])),
        Element::Object(doc(vec![
            ("_from", string("v/1")),
            ("_to", string("v/2")),
            ("_key", string("e1")),
        ])),
    ];
    let (graph, plan) = classify_and_plan(&input).unwrap();
    assert_eq!(graph.vertices.len(), 2);
    assert_eq!(graph.edges.len(), 1);
    assert_eq!(plan.nodes.len(), 2);
    assert_eq!(plan.edges.len(), 1);
    assert_eq!(plan.dropped_edges, 0);

    let empty: Vec<Element> = vec![];
    assert!(matches!(
        classify_and_plan(&empty),
        Err(ClassifyError::NoEdgesFound)
    ));
}

#[test]
fn export_node_name_defaults_to_id_only_without_name_attribute() {
    let input = vec![
        Element::Object(doc(vec![("_id", string("v/1"))])),
        Element::Object(doc(vec![("_id", string("v/2")), ("name", string("Bob"))])),
        Element::Object(doc(vec![
            ("_from", string("v/1")),
            ("_to", string("v/2")),
            ("_key", string("e1")),
        ])),
    ];
    let graph = is_graph(&input).unwrap();
    let plan = make_export_plan(&graph);

    assert!(matches!(field(&plan.nodes[0], "name"), Some(JsonValue::Str(s)) if s == "v/1"));
    assert!(matches!(field(&plan.nodes[1], "name"), Some(JsonValue::Str(s)) if s == "Bob"));
}

#[test]
fn export_documents_bind_each_key_once() {
    // Attributes named like the export element's own fields must not
    // produce a second binding for those keys.
    let input = vec![
        Element::Object(doc(vec![
            ("_id", string("v/1")),
            ("name", string("Alice")),
            ("id", string("custom")),
        ])),
        Element::Object(doc(vec![
            ("_from", string("v/1")),
            ("_to", string("v/2")),
            ("_key", string("e1")),
            ("source", string("elsewhere")),
            ("type", string("knows")),
        ])),
    ];
    let graph = is_graph(&input).unwrap();
    let plan = make_export_plan(&graph);

    let alice = &plan.nodes[0];
    assert_eq!(alice.fields.iter().filter(|(k, _)| k == "id").count(), 1);
    assert_eq!(alice.fields.iter().filter(|(k, _)| k == "name").count(), 1);
    assert!(matches!(field(alice, "id"), Some(JsonValue::Str(s)) if s == "v/1"));
    assert!(matches!(field(alice, "name"), Some(JsonValue::Str(s)) if s == "Alice"));

    let edge = &plan.edges[0];
    assert_eq!(edge.fields.iter().filter(|(k, _)| k == "source").count(), 1);
    assert!(matches!(field(edge, "source"), Some(JsonValue::Str(s)) if s == "v/1"));
    assert!(matches!(field(edge, "type"), Some(JsonValue::Str(s)) if s == "knows"));
}
