//! Graph pipeline for a document-store query runner: cursor pagination,
//! vertex/edge classification of query results, and translation of the
//! classified graph into the visualization service's element format.

pub mod classifier;
pub mod exporter;
pub mod json;
pub mod query;

pub use classifier::{is_graph, ClassifyError, Graph, InvalidKind};
pub use exporter::{
    classify_and_plan, collect_attributes, export_outcome, infer_column_type, make_export_plan,
    network_creation_outcome, network_metadata, ColumnSpec, ColumnType, ExportError, ExportOutcome,
    ExportPlan, NetworkMetadata,
};
pub use json::{Document, Element, JsonValue};
pub use query::{
    basic_auth_header, cursor_start, cursor_step, CursorDecision, CursorPage, CursorRun,
    CursorStep, QueryError,
};
