//! Translation of a classified graph into the visualization service's
//! element format: attribute discovery, per-attribute column typing, element
//! translation, and the decisions of the upload protocol. The HTTP calls
//! themselves happen outside the library; everything here is pure
//! computation over the documents.

use vstd::prelude::*;

use crate::classifier::{
    all_ok, edge_doc_ok, edge_docs, edge_from, edge_to, elem_verdict, first_bad, is_graph,
    lemma_edge_docs_ok, result_vertices, ClassifyError, Graph,
};
use crate::json::{
    contains_string, docs_view, elems_view, has_key, lookup, str_views, DocModel, Document,
    Element, JsonModel, JsonValue,
};

verus! {

/// The attribute keys of `d`, in order, excluding the store's internal
/// fields (those whose name starts with `_`). Duplicates are kept; discovery
/// deduplicates across the whole document list.
pub open spec fn attr_keys(d: DocModel) -> Seq<Seq<char>>
    decreases d.len(),
{
    if d.len() == 0 {
        Seq::empty()
    } else {
        attr_keys(d.drop_last()) + (if is_internal_key(d.last().0) {
            Seq::empty()
        } else {
            seq![d.last().0]
        })
    }
}

/// A key reserved by the store: one starting with the internal-field marker.
pub open spec fn is_internal_key(k: Seq<char>) -> bool {
    k.len() > 0 && k[0] == '_'
}

/// `acc` extended with the members of `ks` it lacks, in order.
pub open spec fn add_new(acc: Seq<Seq<char>>, ks: Seq<Seq<char>>) -> Seq<Seq<char>>
    decreases ks.len(),
{
    if ks.len() == 0 {
        acc
    } else {
        let r = add_new(acc, ks.drop_last());
        if r.contains(ks.last()) {
            r
        } else {
            r.push(ks.last())
        }
    }
}

/// The distinct non-internal attribute names present on at least one
/// document of `ds`, in first-occurrence order.
pub open spec fn discovered_attrs(ds: Seq<DocModel>) -> Seq<Seq<char>>
    decreases ds.len(),
{
    if ds.len() == 0 {
        Seq::empty()
    } else {
        add_new(discovered_attrs(ds.drop_last()), attr_keys(ds.last()))
    }
}

/// Whether the first character of `k` is the internal-field marker.
fn starts_with_marker(k: &String) -> (r: bool)
    ensures
        r == is_internal_key(k@),
{
    let s = k.as_str();
    if s.unicode_len() == 0 {
        false
    } else {
        s.get_char(0) == '_'
    }
}

/// Collect the distinct non-internal attribute names of `docs`, in
/// first-occurrence order.
pub fn collect_attributes(docs: &Vec<Document>) -> (r: Vec<String>)
    ensures
        str_views(r@) == discovered_attrs(docs_view(docs@)),
{
    let ghost ds = docs_view(docs@);
    let mut attrs: Vec<String> = Vec::new();
    let mut i: usize = 0;
    while i < docs.len()
        invariant
            0 <= i <= docs.len(),
            ds == docs_view(docs@),
            ds.len() == docs@.len(),
            str_views(attrs@) == discovered_attrs(ds.take(i as int)),
        decreases docs.len() - i,
    {
        let doc = &docs[i];
        let ghost keys = attr_keys(doc@);
        proof {
            assert(ds.take(i as int + 1).drop_last() =~= ds.take(i as int));
            assert(ds[i as int] == docs@[i as int]@);
            assert(ds.take(i as int + 1).last() == doc@);
        }
        let mut j: usize = 0;
        while j < doc.fields.len()
            invariant
                0 <= j <= doc.fields.len(),
                keys == attr_keys(doc@),
                doc@.len() == doc.fields@.len(),
                str_views(attrs@) == add_new(
                    discovered_attrs(ds.take(i as int)),
                    attr_keys(doc@.take(j as int)),
                ),
            decreases doc.fields.len() - j,
        {
            let ghost dj = doc@.take(j as int);
            let ghost dj1 = doc@.take(j as int + 1);
            proof {
                assert(dj1.drop_last() =~= dj);
                assert(doc@[j as int] == (doc.fields@[j as int].0@, doc.fields@[j as int].1@));
                assert(dj1.last() == doc@[j as int]);
            }
            let key = &doc.fields[j].0;
            if !starts_with_marker(key) {
                proof {
                    assert(attr_keys(dj1) =~= attr_keys(dj).push(key@));
                    assert(attr_keys(dj).push(key@).drop_last() =~= attr_keys(dj));
                }
                if !contains_string(&attrs, key) {
                    let owned = key.clone();
                    proof {
                        assert(str_views(attrs@.push(owned)) =~= str_views(attrs@).push(key@));
                    }
                    attrs.push(owned);
                }
            } else {
                proof {
                    assert(attr_keys(dj1) =~= attr_keys(dj));
                }
            }
            j += 1;
        }
        proof {
            assert(doc@.take(doc@.len() as int) =~= doc@);
            assert(attr_keys(doc@.take(doc.fields@.len() as int)) == attr_keys(doc@));
        }
        i += 1;
    }
    proof {
        assert(ds.take(docs@.len() as int) =~= ds);
    }
    attrs
}

/// A column type of the visualization service's tables. `Text` is the
/// service's `String` type; numbers are provisioned as `Double`.
#[derive(Debug, PartialEq, Eq, Structural, Clone, Copy)]
pub enum ColumnType {
    Text,
    Double,
    Boolean,
}

/// The column type of `attr` over `ds`: the type of the first document, in
/// input order, whose value under `attr` is a string, a number or a boolean;
/// `Text` when none has one.
pub open spec fn col_type_of(ds: Seq<DocModel>, attr: Seq<char>) -> ColumnType
    decreases ds.len(),
{
    if ds.len() == 0 {
        ColumnType::Text
    } else {
        match lookup(ds[0], attr) {
            Some(JsonModel::Str(_)) => ColumnType::Text,
            Some(JsonModel::Num(_)) => ColumnType::Double,
            Some(JsonModel::Bool(_)) => ColumnType::Boolean,
            _ => col_type_of(ds.drop_first(), attr),
        }
    }
}

/// Infer the column type of `attr` from the documents' values.
pub fn infer_column_type(docs: &Vec<Document>, attr: &str) -> (t: ColumnType)
    ensures
        t == col_type_of(docs_view(docs@), attr@),
{
    let ghost ds = docs_view(docs@);
    proof {
        assert(ds.skip(0) =~= ds);
    }
    let mut i: usize = 0;
    while i < docs.len()
        invariant
            0 <= i <= docs.len(),
            ds == docs_view(docs@),
            ds.len() == docs@.len(),
            col_type_of(ds, attr@) == col_type_of(ds.skip(i as int), attr@),
        decreases docs.len() - i,
    {
        proof {
            assert(ds[i as int] == docs@[i as int]@);
            assert(ds.skip(i as int)[0] == ds[i as int]);
            assert(ds.skip(i as int).drop_first() =~= ds.skip(i as int + 1));
        }
        match docs[i].get(attr) {
            Some(JsonValue::Str(_)) => {
                return ColumnType::Text;
            },
            Some(JsonValue::Num(_)) => {
                return ColumnType::Double;
            },
            Some(JsonValue::Bool(_)) => {
                return ColumnType::Boolean;
            },
            _ => {},
        }
        i += 1;
    }
    proof {
        assert(ds.skip(ds.len() as int) =~= Seq::<DocModel>::empty());
    }
    ColumnType::Text
}

impl ColumnType {
    /// The type name the visualization service expects for this column.
    pub fn label(&self) -> (r: String)
        ensures
            self is Text ==> r@ == "String"@,
            self is Double ==> r@ == "Double"@,
            self is Boolean ==> r@ == "Boolean"@,
    {
        match self {
            ColumnType::Text => String::from_str("String"),
            ColumnType::Double => String::from_str("Double"),
            ColumnType::Boolean => String::from_str("Boolean"),
        }
    }
}

/// The fields of `d` under the names of `attrs`, in `attrs` order, keeping
/// only the attributes the document carries and skipping the names the
/// export element binds itself, so that every key of an export document is
/// bound exactly once.
pub open spec fn picked_attrs(d: DocModel, attrs: Seq<Seq<char>>, reserved: Seq<Seq<char>>) -> DocModel
    decreases attrs.len(),
{
    if attrs.len() == 0 {
        Seq::empty()
    } else {
        picked_attrs(d, attrs.drop_last(), reserved) + (if reserved.contains(attrs.last()) {
            Seq::empty()
        } else {
            match lookup(d, attrs.last()) {
                Some(v) => seq![(attrs.last(), v)],
                None => Seq::empty(),
            }
        })
    }
}

/// The keys an export node binds itself.
pub open spec fn node_reserved() -> Seq<Seq<char>> {
    seq!["id"@, "name"@]
}

/// The keys an export edge binds itself.
pub open spec fn edge_reserved() -> Seq<Seq<char>> {
    seq!["id"@, "source"@, "target"@]
}

/// What an export node's `name` carries: the vertex's own `name` attribute
/// when it has one, else its `_id` as the default.
pub open spec fn node_name_of(d: DocModel) -> JsonModel {
    match lookup(d, "name"@) {
        Some(v) => v,
        None => lookup(d, "_id"@)->Some_0,
    }
}

/// The export form of a vertex document: `id` carries the vertex's `_id`,
/// `name` its own `name` attribute (defaulting to the `_id`), followed by
/// its other discovered attributes, each key bound once. A document without
/// `_id` has no export form.
pub open spec fn export_node_model(d: DocModel, attrs: Seq<Seq<char>>) -> Option<DocModel> {
    match lookup(d, "_id"@) {
        Some(idv) => Some(
            seq![("id"@, idv), ("name"@, node_name_of(d))] + picked_attrs(
                d,
                attrs,
                node_reserved(),
            ),
        ),
        None => None,
    }
}

/// The export form of an edge document: `id` carries `_key`, `source` and
/// `target` carry the endpoints, followed by the other discovered
/// attributes, each key bound once. An edge without `_key` is dropped from
/// the export.
pub open spec fn export_edge_model(d: DocModel, attrs: Seq<Seq<char>>) -> Option<DocModel> {
    match lookup(d, "_key"@) {
        Some(keyv) => Some(
            seq![
                ("id"@, keyv),
                ("source"@, JsonModel::Str(edge_from(d))),
                ("target"@, JsonModel::Str(edge_to(d))),
            ] + picked_attrs(d, attrs, edge_reserved()),
        ),
        None => None,
    }
}

/// Append the attributes of `attrs` that `doc` carries to `out`, skipping
/// the reserved names the export element binds itself.
fn push_picked_attrs(
    doc: &Document,
    attrs: &Vec<String>,
    reserved: &Vec<String>,
    out: &mut Vec<(String, JsonValue)>,
)
    ensures
        final(out)@.map_values(|p: (String, JsonValue)| (p.0@, p.1@)) == old(out)@.map_values(
            |p: (String, JsonValue)| (p.0@, p.1@),
        ) + picked_attrs(doc@, str_views(attrs@), str_views(reserved@)),
{
    let ghost base = out@.map_values(|p: (String, JsonValue)| (p.0@, p.1@));
    let ghost names = str_views(attrs@);
    let ghost rsv = str_views(reserved@);
    let mut a: usize = 0;
    while a < attrs.len()
        invariant
            0 <= a <= attrs.len(),
            names == str_views(attrs@),
            rsv == str_views(reserved@),
            names.len() == attrs@.len(),
            out@.map_values(|p: (String, JsonValue)| (p.0@, p.1@)) == base + picked_attrs(
                doc@,
                names.take(a as int),
                rsv,
            ),
        decreases attrs.len() - a,
    {
        let ghost q = names.take(a as int);
        let ghost q1 = names.take(a as int + 1);
        proof {
            assert(q1.drop_last() =~= q);
            assert(names[a as int] == attrs@[a as int]@);
            assert(q1.last() == names[a as int]);
        }
        let name = &attrs[a];
        if contains_string(reserved, name) {
            proof {
                assert(picked_attrs(doc@, q1, rsv) =~= picked_attrs(doc@, q, rsv));
            }
            a += 1;
            continue;
        }
        match doc.get(name.as_str()) {
            Some(v) => {
                let pair = (name.clone(), v.clone());
                proof {
                    let f = |p: (String, JsonValue)| (p.0@, p.1@);
                    assert(out@.push(pair).map_values(f) =~= out@.map_values(f).push(
                        (name@, v@),
                    ));
                    assert(picked_attrs(doc@, q1, rsv) =~= picked_attrs(doc@, q, rsv).push(
                        (name@, v@),
                    ));
                    assert(base + picked_attrs(doc@, q, rsv).push((name@, v@)) =~= (base
                        + picked_attrs(doc@, q, rsv)).push((name@, v@)));
                }
                out.push(pair);
            },
            None => {
                proof {
                    assert(picked_attrs(doc@, q1, rsv) =~= picked_attrs(doc@, q, rsv));
                }
            },
        }
        a += 1;
    }
    proof {
        assert(names.take(attrs@.len() as int) =~= names);
    }
}

/// The reserved key list of an export node.
fn node_reserved_keys() -> (r: Vec<String>)
    ensures
        str_views(r@) == node_reserved(),
{
    let r = vec![String::from_str("id"), String::from_str("name")];
    proof {
        assert(str_views(r@) =~= node_reserved());
    }
    r
}

/// The reserved key list of an export edge.
fn edge_reserved_keys() -> (r: Vec<String>)
    ensures
        str_views(r@) == edge_reserved(),
{
    let r = vec![
        String::from_str("id"),
        String::from_str("source"),
        String::from_str("target"),
    ];
    proof {
        assert(str_views(r@) =~= edge_reserved());
    }
    r
}

/// Translate one vertex document, or report that it lacks an `_id`.
pub fn export_node(doc: &Document, attrs: &Vec<String>) -> (r: Option<Document>)
    ensures
        match r {
            Some(out) => export_node_model(doc@, str_views(attrs@)) == Some(out@),
            None => export_node_model(doc@, str_views(attrs@)) is None,
        },
{
    let idv = match doc.get("_id") {
        Some(v) => v.clone(),
        None => {
            return None;
        },
    };
    let namev = match doc.get("name") {
        Some(v) => v.clone(),
        None => idv.clone(),
    };
    let mut fields: Vec<(String, JsonValue)> = Vec::new();
    fields.push((String::from_str("id"), idv));
    fields.push((String::from_str("name"), namev));
    proof {
        let f = |p: (String, JsonValue)| (p.0@, p.1@);
        assert(fields@.map_values(f) =~= seq![
            ("id"@, lookup(doc@, "_id"@)->Some_0),
            ("name"@, node_name_of(doc@)),
        ]);
    }
    let reserved = node_reserved_keys();
    push_picked_attrs(doc, attrs, &reserved, &mut fields);
    let out = Document { fields };
    proof {
        assert(out@ =~= export_node_model(doc@, str_views(attrs@))->Some_0);
    }
    Some(out)
}

/// Translate one edge document, or report that it lacks a `_key` and is
/// dropped from the export.
pub fn export_edge(doc: &Document, attrs: &Vec<String>) -> (r: Option<Document>)
    requires
        lookup(doc@, "_from"@) matches Some(f) && f is Str,
        lookup(doc@, "_to"@) matches Some(t) && t is Str,
    ensures
        match r {
            Some(out) => export_edge_model(doc@, str_views(attrs@)) == Some(out@),
            None => export_edge_model(doc@, str_views(attrs@)) is None,
        },
{
    let keyv = match doc.get("_key") {
        Some(v) => v.clone(),
        None => {
            return None;
        },
    };
    let fromv = match doc.get("_from") {
        Some(JsonValue::Str(sv)) => sv.clone(),
        _ => {
            return None;
        },
    };
    let tov = match doc.get("_to") {
        Some(JsonValue::Str(sv)) => sv.clone(),
        _ => {
            return None;
        },
    };
    let mut fields: Vec<(String, JsonValue)> = Vec::new();
    fields.push((String::from_str("id"), keyv));
    fields.push((String::from_str("source"), JsonValue::Str(fromv)));
    fields.push((String::from_str("target"), JsonValue::Str(tov)));
    proof {
        let f = |p: (String, JsonValue)| (p.0@, p.1@);
        assert(fields@.map_values(f) =~= seq![
            ("id"@, lookup(doc@, "_key"@)->Some_0),
            ("source"@, JsonModel::Str(edge_from(doc@))),
            ("target"@, JsonModel::Str(edge_to(doc@))),
        ]);
    }
    let reserved = edge_reserved_keys();
    push_picked_attrs(doc, attrs, &reserved, &mut fields);
    let out = Document { fields };
    proof {
        assert(out@ =~= export_edge_model(doc@, str_views(attrs@))->Some_0);
    }
    Some(out)
}


/// The export forms of the vertex documents of `ds`, in order, skipping
/// documents without an `_id`.
pub open spec fn export_nodes_model(ds: Seq<DocModel>, attrs: Seq<Seq<char>>) -> Seq<DocModel>
    decreases ds.len(),
{
    if ds.len() == 0 {
        Seq::empty()
    } else {
        export_nodes_model(ds.drop_last(), attrs) + (match export_node_model(ds.last(), attrs) {
            Some(d) => seq![d],
            None => Seq::empty(),
        })
    }
}

/// The export forms of the edge documents of `ds`, in order, dropping edges
/// without a `_key`.
pub open spec fn export_edges_model(ds: Seq<DocModel>, attrs: Seq<Seq<char>>) -> Seq<DocModel>
    decreases ds.len(),
{
    if ds.len() == 0 {
        Seq::empty()
    } else {
        export_edges_model(ds.drop_last(), attrs) + (match export_edge_model(ds.last(), attrs) {
            Some(d) => seq![d],
            None => Seq::empty(),
        })
    }
}

/// How many documents of `ds` lack a `_key` and are therefore dropped from
/// the export.
pub open spec fn missing_key_count(ds: Seq<DocModel>) -> nat
    decreases ds.len(),
{
    if ds.len() == 0 {
        0
    } else {
        missing_key_count(ds.drop_last()) + (if lookup(ds.last(), "_key"@) is None {
            1nat
        } else {
            0nat
        })
    }
}

/// The name and inferred type of one provisioned table column.
pub struct ColumnSpec {
    pub name: String,
    pub ctype: ColumnType,
}

/// The views of a column list.
pub open spec fn columns_view(v: Seq<ColumnSpec>) -> Seq<(Seq<char>, ColumnType)> {
    v.map_values(|c: ColumnSpec| (c.name@, c.ctype))
}

/// The column plan for `ds`: one column per attribute name, typed by the
/// first typed value found for it.
pub open spec fn column_plan(ds: Seq<DocModel>, attrs: Seq<Seq<char>>) -> Seq<
    (Seq<char>, ColumnType),
> {
    attrs.map_values(|a: Seq<char>| (a, col_type_of(ds, a)))
}

/// Build the column plan of `docs` over its discovered attributes.
pub fn plan_columns(docs: &Vec<Document>, attrs: &Vec<String>) -> (r: Vec<ColumnSpec>)
    ensures
        columns_view(r@) == column_plan(docs_view(docs@), str_views(attrs@)),
{
    let ghost names = str_views(attrs@);
    let ghost ds = docs_view(docs@);
    let ghost plan = column_plan(ds, names);
    let mut cols: Vec<ColumnSpec> = Vec::new();
    let mut i: usize = 0;
    while i < attrs.len()
        invariant
            0 <= i <= attrs.len(),
            names == str_views(attrs@),
            ds == docs_view(docs@),
            names.len() == attrs@.len(),
            columns_view(cols@) == column_plan(ds, names).take(i as int),
        decreases attrs.len() - i,
    {
        let name = &attrs[i];
        let t = infer_column_type(docs, name.as_str());
        let spec = ColumnSpec { name: name.clone(), ctype: t };
        proof {
            assert(names[i as int] == attrs@[i as int]@);
            assert(column_plan(ds, names)[i as int] == (name@, col_type_of(ds, name@)));
            assert(columns_view(cols@.push(spec)) =~= columns_view(cols@).push((name@, t)));
            assert(column_plan(ds, names).take(i as int + 1) =~= column_plan(ds, names).take(
                i as int,
            ).push(column_plan(ds, names)[i as int]));
        }
        cols.push(spec);
        i += 1;
    }
    proof {
        assert(column_plan(ds, names).take(attrs@.len() as int) =~= column_plan(ds, names));
    }
    cols
}

/// Everything the upload protocol sends, computed ahead of any network call:
/// the translated elements, the typed column plans for both tables, and how
/// many edges were dropped for lack of a `_key`.
pub struct ExportPlan {
    pub nodes: Vec<Document>,
    pub edges: Vec<Document>,
    pub node_columns: Vec<ColumnSpec>,
    pub edge_columns: Vec<ColumnSpec>,
    pub dropped_edges: usize,
}

/// Whether every edge document of `ds` is well formed.
pub open spec fn all_edges_ok(ds: Seq<DocModel>) -> bool {
    forall|j: int| 0 <= j < ds.len() ==> edge_doc_ok(#[trigger] ds[j])
}

/// Translate the vertex documents over the discovered attributes.
pub fn export_nodes(docs: &Vec<Document>, attrs: &Vec<String>) -> (r: Vec<Document>)
    ensures
        docs_view(r@) == export_nodes_model(docs_view(docs@), str_views(attrs@)),
{
    let ghost ds = docs_view(docs@);
    let ghost names = str_views(attrs@);
    let mut out: Vec<Document> = Vec::new();
    let mut i: usize = 0;
    while i < docs.len()
        invariant
            0 <= i <= docs.len(),
            ds == docs_view(docs@),
            names == str_views(attrs@),
            ds.len() == docs@.len(),
            docs_view(out@) == export_nodes_model(ds.take(i as int), names),
        decreases docs.len() - i,
    {
        let ghost p = ds.take(i as int);
        let ghost p1 = ds.take(i as int + 1);
        proof {
            assert(p1.drop_last() =~= p);
            assert(ds[i as int] == docs@[i as int]@);
            assert(p1.last() == ds[i as int]);
        }
        match export_node(&docs[i], attrs) {
            Some(node) => {
                proof {
                    assert(docs_view(out@.push(node)) =~= docs_view(out@).push(node@));
                    assert(export_nodes_model(p1, names) =~= export_nodes_model(p, names).push(
                        node@,
                    ));
                }
                out.push(node);
            },
            None => {
                proof {
                    assert(export_nodes_model(p1, names) =~= export_nodes_model(p, names));
                }
            },
        }
        i += 1;
    }
    proof {
        assert(ds.take(docs@.len() as int) =~= ds);
    }
    out
}

/// Translate the edge documents over the discovered attributes, counting the
/// edges dropped for lack of a `_key`.
pub fn export_edges(docs: &Vec<Document>, attrs: &Vec<String>) -> (r: (Vec<Document>, usize))
    requires
        all_edges_ok(docs_view(docs@)),
    ensures
        docs_view(r.0@) == export_edges_model(docs_view(docs@), str_views(attrs@)),
        r.1 == missing_key_count(docs_view(docs@)),
{
    let ghost ds = docs_view(docs@);
    let ghost names = str_views(attrs@);
    let mut out: Vec<Document> = Vec::new();
    let mut dropped: usize = 0;
    let mut i: usize = 0;
    while i < docs.len()
        invariant
            0 <= i <= docs.len(),
            dropped <= i,
            ds == docs_view(docs@),
            names == str_views(attrs@),
            ds.len() == docs@.len(),
            all_edges_ok(ds),
            docs_view(out@) == export_edges_model(ds.take(i as int), names),
            dropped == missing_key_count(ds.take(i as int)),
        decreases docs.len() - i,
    {
        let ghost p = ds.take(i as int);
        let ghost p1 = ds.take(i as int + 1);
        proof {
            assert(p1.drop_last() =~= p);
            assert(ds[i as int] == docs@[i as int]@);
            assert(p1.last() == ds[i as int]);
            assert(edge_doc_ok(ds[i as int]));
        }
        match export_edge(&docs[i], attrs) {
            Some(edge) => {
                proof {
                    assert(docs_view(out@.push(edge)) =~= docs_view(out@).push(edge@));
                    assert(export_edges_model(p1, names) =~= export_edges_model(p, names).push(
                        edge@,
                    ));
                }
                out.push(edge);
            },
            None => {
                proof {
                    assert(export_edges_model(p1, names) =~= export_edges_model(p, names));
                }
                dropped += 1;
            },
        }
        i += 1;
    }
    proof {
        assert(ds.take(docs@.len() as int) =~= ds);
    }
    (out, dropped)
}

/// Compute the whole upload, ready to send: translated elements and column
/// plans for a classified graph.
pub fn make_export_plan(graph: &Graph) -> (p: ExportPlan)
    requires
        all_edges_ok(docs_view(graph.edges@)),
    ensures
        ({
            let vs = docs_view(graph.vertices@);
            let es = docs_view(graph.edges@);
            &&& docs_view(p.nodes@) == export_nodes_model(vs, discovered_attrs(vs))
            &&& docs_view(p.edges@) == export_edges_model(es, discovered_attrs(es))
            &&& columns_view(p.node_columns@) == column_plan(vs, discovered_attrs(vs))
            &&& columns_view(p.edge_columns@) == column_plan(es, discovered_attrs(es))
            &&& p.dropped_edges == missing_key_count(es)
        }),
{
    let vertex_attrs = collect_attributes(&graph.vertices);
    let edge_attrs = collect_attributes(&graph.edges);
    let nodes = export_nodes(&graph.vertices, &vertex_attrs);
    let (edges, dropped_edges) = export_edges(&graph.edges, &edge_attrs);
    let node_columns = plan_columns(&graph.vertices, &vertex_attrs);
    let edge_columns = plan_columns(&graph.edges, &edge_attrs);
    ExportPlan { nodes, edges, node_columns, edge_columns, dropped_edges }
}

/// The fixed metadata that accompanies a network-creation request.
pub struct NetworkMetadata {
    pub format_version: String,
    pub generated_by: String,
    pub target_version: String,
    pub network_name: String,
}

/// The metadata of every network this tool creates.
pub fn network_metadata() -> (m: NetworkMetadata)
    ensures
        m.format_version@ == "1.0"@,
        m.generated_by@ == "adb_query_runner"@,
        m.target_version@ == "~3.0"@,
        m.network_name@ == "ArangoDB Graph"@,
{
    NetworkMetadata {
        format_version: String::from_str("1.0"),
        generated_by: String::from_str("adb_query_runner"),
        target_version: String::from_str("~3.0"),
        network_name: String::from_str("ArangoDB Graph"),
    }
}

/// How an upload step failed.
#[derive(Debug, PartialEq, Eq, Structural, Clone, Copy)]
pub enum ExportError {
    /// The connection itself failed.
    Transport,
    /// A service answered with a status outside the 2xx range.
    HttpStatus(u16),
    /// A 2xx response lacked the expected network identifier.
    MalformedResponse,
}

/// Decide the outcome of the network-creation step from the response's
/// status and the identifier extracted from its body. Creation succeeds
/// exactly when the status is 2xx and the identifier is there; everything
/// later needs that identifier.
pub fn network_creation_outcome(status: u16, suid: Option<i64>) -> (r: Result<i64, ExportError>)
    ensures
        match r {
            Ok(id) => 200 <= status < 300 && suid == Some(id),
            Err(ExportError::HttpStatus(st)) => !(200 <= status < 300) && st == status,
            Err(ExportError::MalformedResponse) => 200 <= status < 300 && suid is None,
            Err(ExportError::Transport) => false,
        },
{
    if status < 200 || status >= 300 {
        return Err(ExportError::HttpStatus(status));
    }
    match suid {
        Some(id) => Ok(id),
        None => Err(ExportError::MalformedResponse),
    }
}

/// The overall outcome of an export once the network exists: complete, or
/// partial with the number of failed column requests and whether the layout
/// step failed.
#[derive(Debug, PartialEq, Eq, Structural, Clone, Copy)]
pub enum ExportOutcome {
    Complete,
    Partial { failed_columns: usize, layout_failed: bool },
}

/// Aggregate the post-creation step results: the export is complete exactly
/// when every column request succeeded and the layout was applied.
pub fn export_outcome(failed_columns: usize, layout_ok: bool) -> (r: ExportOutcome)
    ensures
        r is Complete <==> (failed_columns == 0 && layout_ok),
        r matches ExportOutcome::Partial { failed_columns: fc, layout_failed: lf } ==> fc
            == failed_columns && lf == !layout_ok,
{
    if failed_columns == 0 && layout_ok {
        ExportOutcome::Complete
    } else {
        ExportOutcome::Partial { failed_columns, layout_failed: !layout_ok }
    }
}


proof fn lemma_attr_keys_non_internal(d: DocModel)
    ensures
        forall|j: int| 0 <= j < attr_keys(d).len() ==> !is_internal_key(#[trigger] attr_keys(d)[j]),
    decreases d.len(),
{
    if d.len() > 0 {
        lemma_attr_keys_non_internal(d.drop_last());
        assert forall|j: int| 0 <= j < attr_keys(d).len() implies !is_internal_key(
            #[trigger] attr_keys(d)[j],
        ) by {
            if j < attr_keys(d.drop_last()).len() {
                assert(attr_keys(d)[j] == attr_keys(d.drop_last())[j]);
            } else {
                assert(!is_internal_key(d.last().0));
                assert(attr_keys(d)[j] == d.last().0);
            }
        }
    }
}

proof fn lemma_add_new_non_internal(acc: Seq<Seq<char>>, ks: Seq<Seq<char>>)
    requires
        forall|j: int| 0 <= j < acc.len() ==> !is_internal_key(#[trigger] acc[j]),
        forall|j: int| 0 <= j < ks.len() ==> !is_internal_key(#[trigger] ks[j]),
    ensures
        forall|j: int| 0 <= j < add_new(acc, ks).len() ==> !is_internal_key(
            #[trigger] add_new(acc, ks)[j],
        ),
    decreases ks.len(),
{
    if ks.len() > 0 {
        let ks0 = ks.drop_last();
        assert forall|j: int| 0 <= j < ks0.len() implies !is_internal_key(#[trigger] ks0[j]) by {
            assert(ks0[j] == ks[j]);
        }
        lemma_add_new_non_internal(acc, ks0);
        let r0 = add_new(acc, ks0);
        assert forall|j: int| 0 <= j < add_new(acc, ks).len() implies !is_internal_key(
            #[trigger] add_new(acc, ks)[j],
        ) by {
            if j < r0.len() {
                assert(add_new(acc, ks)[j] == r0[j]);
            } else {
                assert(!is_internal_key(ks.last()));
                assert(add_new(acc, ks)[j] == ks.last());
            }
        }
    }
}

/// Attribute discovery never yields a key that starts with the store's
/// internal-field marker, whatever documents it scans.
pub proof fn lemma_discovery_excludes_internal(ds: Seq<DocModel>)
    ensures
        forall|j: int| 0 <= j < discovered_attrs(ds).len() ==> !is_internal_key(
            #[trigger] discovered_attrs(ds)[j],
        ),
    decreases ds.len(),
{
    if ds.len() > 0 {
        lemma_discovery_excludes_internal(ds.drop_last());
        lemma_attr_keys_non_internal(ds.last());
        lemma_add_new_non_internal(discovered_attrs(ds.drop_last()), attr_keys(ds.last()));
    }
}


/// Classify `array` and, when it is a graph, compute its whole upload plan
/// in one step. The classifier's guarantees establish the exporter's
/// precondition that every edge document carries string endpoints.
pub fn classify_and_plan(array: &Vec<Element>) -> (r: Result<(Graph, ExportPlan), ClassifyError>)
    ensures
        ({
            let s = elems_view(array@);
            match r {
                Ok((g, p)) => {
                    let vs = result_vertices(s);
                    let es = edge_docs(s);
                    &&& all_ok(s) && es.len() > 0
                    &&& docs_view(g.edges@) == es && docs_view(g.vertices@) == vs
                    &&& docs_view(p.nodes@) == export_nodes_model(vs, discovered_attrs(vs))
                    &&& docs_view(p.edges@) == export_edges_model(es, discovered_attrs(es))
                    &&& columns_view(p.node_columns@) == column_plan(vs, discovered_attrs(vs))
                    &&& columns_view(p.edge_columns@) == column_plan(es, discovered_attrs(es))
                    &&& p.dropped_edges == missing_key_count(es)
                },
                Err(ClassifyError::NoEdgesFound) => all_ok(s) && edge_docs(s).len() == 0,
                Err(ClassifyError::InvalidElement(kind, elem)) => first_bad(s) matches Some(i)
                    && elem_verdict(s[i]) == Some(kind) && elem@ == s[i],
            }
        }),
{
    match is_graph(array) {
        Err(e) => Err(e),
        Ok(graph) => {
            proof {
                lemma_edge_docs_ok(elems_view(array@));
            }
            let plan = make_export_plan(&graph);
            Ok((graph, plan))
        },
    }
}


/// What an export node's fixed fields read as under the library's
/// first-binding lookup: `id` is the vertex's `_id`, and `name` is the
/// vertex's own `name` attribute when it has one, else the `_id`.
pub proof fn lemma_export_node_fixed_fields(d: DocModel, attrs: Seq<Seq<char>>)
    requires
        has_key(d, "_id"@),
    ensures
        export_node_model(d, attrs) matches Some(out) && lookup(out, "id"@) == lookup(d, "_id"@)
            && lookup(out, "name"@) == Some(node_name_of(d)),
{
    reveal_strlit("id");
    reveal_strlit("name");
    assert("id"@.len() == 2 && "name"@.len() == 4);
    let out = export_node_model(d, attrs)->Some_0;
    let idv = lookup(d, "_id"@)->Some_0;
    assert(out[0] == ("id"@, idv));
    assert(out[1] == ("name"@, node_name_of(d)));
    assert(lookup(out, "id"@) == Some(idv));
    assert(out.drop_first()[0] == ("name"@, node_name_of(d)));
    assert(lookup(out.drop_first(), "name"@) == Some(node_name_of(d)));
    assert(lookup(out, "name"@) == Some(node_name_of(d)));
}

/// What an export edge's fixed fields read as under the library's
/// first-binding lookup: `id` is the edge's `_key`, and `source` and
/// `target` are its endpoints.
pub proof fn lemma_export_edge_fixed_fields(d: DocModel, attrs: Seq<Seq<char>>)
    requires
        has_key(d, "_key"@),
    ensures
        export_edge_model(d, attrs) matches Some(out) && lookup(out, "id"@) == lookup(d, "_key"@)
            && lookup(out, "source"@) == Some(JsonModel::Str(edge_from(d))) && lookup(
            out,
            "target"@,
        ) == Some(JsonModel::Str(edge_to(d))),
{
    reveal_strlit("id");
    reveal_strlit("source");
    reveal_strlit("target");
    assert("id"@.len() == 2 && "source"@.len() == 6 && "target"@.len() == 6);
    assert("source"@[0] == 's' && "target"@[0] == 't');
    let out = export_edge_model(d, attrs)->Some_0;
    let keyv = lookup(d, "_key"@)->Some_0;
    assert(out[0] == ("id"@, keyv));
    assert(out[1] == ("source"@, JsonModel::Str(edge_from(d))));
    assert(out[2] == ("target"@, JsonModel::Str(edge_to(d))));
    assert(lookup(out, "id"@) == Some(keyv));
    let o1 = out.drop_first();
    let o2 = o1.drop_first();
    assert(o1[0] == ("source"@, JsonModel::Str(edge_from(d))));
    assert(o2[0] == ("target"@, JsonModel::Str(edge_to(d))));
    assert(lookup(o1, "source"@) == Some(JsonModel::Str(edge_from(d))));
    assert(lookup(out, "source"@) == Some(JsonModel::Str(edge_from(d))));
    assert(lookup(o2, "target"@) == Some(JsonModel::Str(edge_to(d))));
    assert(lookup(o1, "target"@) == Some(JsonModel::Str(edge_to(d))));
    assert(lookup(out, "target"@) == Some(JsonModel::Str(edge_to(d))));
}

} // verus!
