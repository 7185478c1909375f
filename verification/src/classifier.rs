//! Classification of a flat query result into a vertex/edge graph.
//!
//! The decision rule, applied per element in input order: a non-object
//! element disqualifies the input; an object with both `_from` and `_to` is
//! an edge whose endpoints must be strings holding exactly one `/`; an
//! object with `_id` is a vertex whose id must have the same shape; anything
//! else disqualifies the input. After the scan an input with no edges is
//! rejected, and a placeholder vertex is synthesized for every edge endpoint
//! that no explicit vertex supplied.

use vstd::prelude::*;

use crate::json::{
    docs_view, elems_view, has_key, lookup, str_views, contains_string, DocModel, Document,
    Element, ElementModel, JsonModel, JsonValue,
};

verus! {

/// How many separator characters `/` occur in `s`.
pub open spec fn sep_count(s: Seq<char>) -> nat
    decreases s.len(),
{
    if s.len() == 0 {
        0
    } else {
        sep_count(s.drop_last()) + (if s.last() == '/' {
            1nat
        } else {
            0nat
        })
    }
}

/// A well-formed store id: a string with exactly one `collection/key` separator.
pub open spec fn valid_id(s: Seq<char>) -> bool {
    sep_count(s) == 1
}

proof fn lemma_sep_count_bound(s: Seq<char>)
    ensures
        sep_count(s) <= s.len(),
    decreases s.len(),
{
    if s.len() > 0 {
        lemma_sep_count_bound(s.drop_last());
    }
}

/// The number of `/` characters in `s`.
pub fn count_separators(s: &str) -> (n: usize)
    ensures
        n == sep_count(s@),
{
    let len = s.unicode_len();
    let mut n: usize = 0;
    let mut i: usize = 0;
    while i < len
        invariant
            0 <= i <= len,
            len == s@.len(),
            n == sep_count(s@.take(i as int)),
        decreases len - i,
    {
        proof {
            lemma_sep_count_bound(s@.take(i as int));
            assert(s@.take(i + 1).drop_last() =~= s@.take(i as int));
        }
        if s.get_char(i) == '/' {
            n = n + 1;
        }
        i += 1;
    }
    proof {
        assert(s@.take(len as int) =~= s@);
    }
    n
}

/// Whether `d` carries both edge markers.
pub open spec fn edge_marked(d: DocModel) -> bool {
    has_key(d, "_from"@) && has_key(d, "_to"@)
}

/// The characters of a string-valued lookup result, or empty when it is not
/// a string.
pub open spec fn the_str(v: Option<JsonModel>) -> Seq<char> {
    match v {
        Some(JsonModel::Str(s)) => s,
        _ => Seq::empty(),
    }
}

pub open spec fn edge_from(d: DocModel) -> Seq<char> {
    the_str(lookup(d, "_from"@))
}

pub open spec fn edge_to(d: DocModel) -> Seq<char> {
    the_str(lookup(d, "_to"@))
}

pub open spec fn vertex_id(d: DocModel) -> Seq<char> {
    the_str(lookup(d, "_id"@))
}

/// Why an element disqualifies the input as a graph.
#[derive(Debug, PartialEq, Eq, Structural, Clone, Copy)]
pub enum InvalidKind {
    /// The element is not a JSON object.
    NonObject,
    /// An edge's `_from` or `_to` is not a string.
    EdgeEndpointNotString,
    /// An edge's `_from` or `_to` does not have the `collection/key` shape.
    EdgeEndpointFormat,
    /// A vertex's `_id` is not a string.
    VertexIdNotString,
    /// A vertex's `_id` does not have the `collection/key` shape.
    VertexIdFormat,
    /// The object carries neither the edge markers nor a vertex id.
    NeitherVertexNorEdge,
}

/// The verdict on one element: `None` when it is a well-formed vertex or
/// edge, otherwise the reason it disqualifies the input.
pub open spec fn elem_verdict(e: ElementModel) -> Option<InvalidKind> {
    match e {
        ElementModel::Primitive(_) => Some(InvalidKind::NonObject),
        ElementModel::Object(d) => {
            if edge_marked(d) {
                match (lookup(d, "_from"@), lookup(d, "_to"@)) {
                    (Some(JsonModel::Str(f)), Some(JsonModel::Str(t))) => {
                        if valid_id(f) && valid_id(t) {
                            None
                        } else {
                            Some(InvalidKind::EdgeEndpointFormat)
                        }
                    },
                    _ => Some(InvalidKind::EdgeEndpointNotString),
                }
            } else if has_key(d, "_id"@) {
                match lookup(d, "_id"@) {
                    Some(JsonModel::Str(s)) => {
                        if valid_id(s) {
                            None
                        } else {
                            Some(InvalidKind::VertexIdFormat)
                        }
                    },
                    _ => Some(InvalidKind::VertexIdNotString),
                }
            } else {
                Some(InvalidKind::NeitherVertexNorEdge)
            }
        },
    }
}

pub open spec fn elem_ok(e: ElementModel) -> bool {
    elem_verdict(e) is None
}

/// A well-formed edge element.
pub open spec fn is_edge_elem(e: ElementModel) -> bool {
    elem_ok(e) && (e matches ElementModel::Object(d) && edge_marked(d))
}

/// A well-formed explicit vertex element.
pub open spec fn is_vertex_elem(e: ElementModel) -> bool {
    elem_ok(e) && (e matches ElementModel::Object(d) && !edge_marked(d))
}

pub open spec fn all_ok(s: Seq<ElementModel>) -> bool {
    forall|i: int| 0 <= i < s.len() ==> elem_ok(#[trigger] s[i])
}

/// The documents of the edge elements of `s`, in input order.
pub open spec fn edge_docs(s: Seq<ElementModel>) -> Seq<DocModel>
    decreases s.len(),
{
    if s.len() == 0 {
        Seq::empty()
    } else {
        edge_docs(s.drop_last()) + (if is_edge_elem(s.last()) {
            seq![s.last()->Object_0]
        } else {
            Seq::empty()
        })
    }
}

/// The documents of the explicit vertex elements of `s`, in input order.
pub open spec fn vertex_docs(s: Seq<ElementModel>) -> Seq<DocModel>
    decreases s.len(),
{
    if s.len() == 0 {
        Seq::empty()
    } else {
        vertex_docs(s.drop_last()) + (if is_vertex_elem(s.last()) {
            seq![s.last()->Object_0]
        } else {
            Seq::empty()
        })
    }
}

/// `acc` extended with the endpoints of edge document `d` that it lacks,
/// `_from` first.
pub open spec fn add_needed(acc: Seq<Seq<char>>, d: DocModel) -> Seq<Seq<char>> {
    let acc1 = if acc.contains(edge_from(d)) {
        acc
    } else {
        acc.push(edge_from(d))
    };
    if acc1.contains(edge_to(d)) {
        acc1
    } else {
        acc1.push(edge_to(d))
    }
}

/// The distinct endpoint ids referenced by `ds`, in first-occurrence order.
pub open spec fn needed_from_docs(ds: Seq<DocModel>) -> Seq<Seq<char>>
    decreases ds.len(),
{
    if ds.len() == 0 {
        Seq::empty()
    } else {
        add_needed(needed_from_docs(ds.drop_last()), ds.last())
    }
}

/// The distinct vertex ids that the edges of `s` reference.
pub open spec fn needed_ids(s: Seq<ElementModel>) -> Seq<Seq<char>> {
    needed_from_docs(edge_docs(s))
}

/// The `_id` of each document of `ds`.
pub open spec fn doc_ids(ds: Seq<DocModel>) -> Seq<Seq<char>> {
    ds.map_values(|d: DocModel| vertex_id(d))
}

/// The ids of the explicit vertices of `s`.
pub open spec fn present_ids(s: Seq<ElementModel>) -> Seq<Seq<char>> {
    doc_ids(vertex_docs(s))
}

/// The members of `ids`, in order, that `present` lacks.
pub open spec fn keep_missing(ids: Seq<Seq<char>>, present: Seq<Seq<char>>) -> Seq<Seq<char>>
    decreases ids.len(),
{
    if ids.len() == 0 {
        Seq::empty()
    } else {
        keep_missing(ids.drop_last(), present) + (if present.contains(ids.last()) {
            Seq::empty()
        } else {
            seq![ids.last()]
        })
    }
}

/// The ids for which a placeholder vertex is synthesized.
pub open spec fn placeholder_ids(s: Seq<ElementModel>) -> Seq<Seq<char>> {
    keep_missing(needed_ids(s), present_ids(s))
}

/// A minimal vertex document carrying only an `_id`.
pub open spec fn placeholder_doc(id: Seq<char>) -> DocModel {
    seq![("_id"@, JsonModel::Str(id))]
}

/// The vertex documents of the classified graph: the explicit vertices
/// followed by the synthesized placeholders.
pub open spec fn result_vertices(s: Seq<ElementModel>) -> Seq<DocModel> {
    vertex_docs(s) + placeholder_ids(s).map_values(|id: Seq<char>| placeholder_doc(id))
}

/// A classified graph: every edge endpoint has a vertex in `vertices`.
#[derive(Debug)]
pub struct Graph {
    pub vertices: Vec<Document>,
    pub edges: Vec<Document>,
}

/// A classifier rejection, as the caller sees it.
#[derive(Debug)]
pub enum ClassifyError {
    /// An element disqualified the input; carries the first offender.
    InvalidElement(InvalidKind, Element),
    /// Every element was well formed but the input holds no edge.
    NoEdgesFound,
}

/// The index of the first element that disqualifies the input, if any.
pub open spec fn first_bad(s: Seq<ElementModel>) -> Option<int>
    decreases s.len(),
{
    if s.len() == 0 {
        None
    } else if !elem_ok(s[0]) {
        Some(0)
    } else {
        match first_bad(s.drop_first()) {
            Some(i) => Some(i + 1),
            None => None,
        }
    }
}

proof fn lemma_first_bad_at(s: Seq<ElementModel>, i: int)
    requires
        0 <= i < s.len(),
        forall|j: int| 0 <= j < i ==> elem_ok(#[trigger] s[j]),
        !elem_ok(s[i]),
    ensures
        first_bad(s) == Some(i),
    decreases i,
{
    if i > 0 {
        assert forall|j: int| 0 <= j < i - 1 implies elem_ok(#[trigger] s.drop_first()[j]) by {
            assert(s.drop_first()[j] == s[j + 1]);
        }
        assert(s.drop_first()[i - 1] == s[i]);
        lemma_first_bad_at(s.drop_first(), i - 1);
    }
}

/// The decision on one object document, with the strings the scan needs.
enum ElementDecision {
    EdgeOk(String, String),
    VertexOk(String),
    Bad(InvalidKind),
}

/// Classify one object document and hand back its endpoint or id strings.
fn classify_object(doc: &Document) -> (r: ElementDecision)
    ensures
        match r {
            ElementDecision::EdgeOk(f, t) => elem_verdict(ElementModel::Object(doc@)) is None
                && edge_marked(doc@) && f@ == edge_from(doc@) && t@ == edge_to(doc@),
            ElementDecision::VertexOk(id) => elem_verdict(ElementModel::Object(doc@)) is None
                && !edge_marked(doc@) && id@ == vertex_id(doc@),
            ElementDecision::Bad(kind) => elem_verdict(ElementModel::Object(doc@)) == Some(kind),
        },
{
    let from = doc.get("_from");
    let to = doc.get("_to");
    match (from, to) {
        (Some(f), Some(t)) => match (f, t) {
            (JsonValue::Str(fs), JsonValue::Str(ts)) => {
                if count_separators(fs.as_str()) == 1 && count_separators(ts.as_str()) == 1 {
                    ElementDecision::EdgeOk(fs.clone(), ts.clone())
                } else {
                    ElementDecision::Bad(InvalidKind::EdgeEndpointFormat)
                }
            },
            _ => ElementDecision::Bad(InvalidKind::EdgeEndpointNotString),
        },
        _ => match doc.get("_id") {
            Some(JsonValue::Str(ids)) => {
                if count_separators(ids.as_str()) == 1 {
                    ElementDecision::VertexOk(ids.clone())
                } else {
                    ElementDecision::Bad(InvalidKind::VertexIdFormat)
                }
            },
            Some(_) => ElementDecision::Bad(InvalidKind::VertexIdNotString),
            None => ElementDecision::Bad(InvalidKind::NeitherVertexNorEdge),
        },
    }
}

/// Decide whether `array` is a graph. On success the edges are the
/// well-formed edge elements in input order and the vertices are the
/// explicit vertices followed by a placeholder for every endpoint no
/// explicit vertex supplied; otherwise the error names the first
/// disqualifying element, or reports that no edge was found.
pub fn is_graph(array: &Vec<Element>) -> (r: Result<Graph, ClassifyError>)
    ensures
        ({
            let s = elems_view(array@);
            match r {
                Ok(g) => all_ok(s) && edge_docs(s).len() > 0 && docs_view(g.edges@) == edge_docs(s)
                    && docs_view(g.vertices@) == result_vertices(s),
                Err(ClassifyError::NoEdgesFound) => all_ok(s) && edge_docs(s).len() == 0,
                Err(ClassifyError::InvalidElement(kind, elem)) => first_bad(s) matches Some(i)
                    && elem_verdict(s[i]) == Some(kind) && elem@ == s[i],
            }
        }),
{
    let ghost s = elems_view(array@);
    let mut vertices: Vec<Document> = Vec::new();
    let mut edges: Vec<Document> = Vec::new();
    let mut present: Vec<String> = Vec::new();
    let mut needed: Vec<String> = Vec::new();
    let mut idx: usize = 0;
    while idx < array.len()
        invariant
            0 <= idx <= array.len(),
            s == elems_view(array@),
            s.len() == array@.len(),
            all_ok(s.take(idx as int)),
            docs_view(edges@) == edge_docs(s.take(idx as int)),
            docs_view(vertices@) == vertex_docs(s.take(idx as int)),
            str_views(present@) == present_ids(s.take(idx as int)),
            str_views(needed@) == needed_from_docs(edge_docs(s.take(idx as int))),
        decreases array.len() - idx,
    {
        let ghost p = s.take(idx as int);
        let ghost p1 = s.take(idx as int + 1);
        let elem = &array[idx];
        proof {
            assert(p1.drop_last() =~= p);
            assert(s[idx as int] == array@[idx as int]@);
            assert(p1.last() == s[idx as int]);
            assert forall|j: int| 0 <= j < idx implies elem_ok(#[trigger] s[j]) by {
                assert(s.take(idx as int)[j] == s[j]);
            }
        }
        match elem {
            Element::Primitive(_) => {
                let bad = elem.clone();
                proof {
                    assert(bad@ == s[idx as int]);
                    assert(elem_verdict(s[idx as int]) == Some(InvalidKind::NonObject));
                    lemma_first_bad_at(s, idx as int);
                }
                return Err(ClassifyError::InvalidElement(InvalidKind::NonObject, bad));
            },
            Element::Object(doc) => {
                proof {
                    assert(ElementModel::Object(doc@) == s[idx as int]);
                }
                match classify_object(doc) {
                    ElementDecision::Bad(kind) => {
                        let bad = elem.clone();
                        proof {
                            assert(bad@ == s[idx as int]);
                            assert(elem_verdict(s[idx as int]) == Some(kind));
                            lemma_first_bad_at(s, idx as int);
                        }
                        return Err(ClassifyError::InvalidElement(kind, bad));
                    },
                    ElementDecision::EdgeOk(f, t) => {
                        let owned = doc.clone();
                        proof {
                            assert(is_edge_elem(s[idx as int]));
                            assert(edge_docs(p1) == edge_docs(p) + seq![doc@]);
                            assert(vertex_docs(p1) == vertex_docs(p));
                            assert(docs_view(edges@.push(owned)) =~= docs_view(edges@).push(doc@));
                            assert(edge_docs(p) + seq![doc@] =~= edge_docs(p).push(doc@));
                            assert((edge_docs(p).push(doc@)).drop_last() =~= edge_docs(p));
                            assert(needed_from_docs(edge_docs(p1)) == add_needed(
                                needed_from_docs(edge_docs(p)),
                                doc@,
                            ));
                            assert(present_ids(p1) =~= present_ids(p));
                        }
                        edges.push(owned);
                        if !contains_string(&needed, &f) {
                            proof {
                                assert(str_views(needed@.push(f)) =~= str_views(needed@).push(f@));
                            }
                            needed.push(f);
                        }
                        if !contains_string(&needed, &t) {
                            proof {
                                assert(str_views(needed@.push(t)) =~= str_views(needed@).push(t@));
                            }
                            needed.push(t);
                        }
                    },
                    ElementDecision::VertexOk(id) => {
                        let owned = doc.clone();
                        proof {
                            assert(is_vertex_elem(s[idx as int]));
                            assert(edge_docs(p1) == edge_docs(p));
                            assert(vertex_docs(p1) == vertex_docs(p) + seq![doc@]);
                            assert(docs_view(vertices@.push(owned)) =~= docs_view(
                                vertices@,
                            ).push(doc@));
                            assert(str_views(present@.push(id)) =~= str_views(present@).push(id@));
                            assert(present_ids(p1) =~= present_ids(p).push(vertex_id(doc@)));
                        }
                        vertices.push(owned);
                        present.push(id);
                    },
                }
            },
        }
        idx += 1;
    }
    proof {
        assert(s.take(array@.len() as int) =~= s);
    }
    if edges.is_empty() {
        return Err(ClassifyError::NoEdgesFound);
    }
    // Synthesize a placeholder vertex for every referenced id that no
    // explicit vertex supplied.
    let mut k: usize = 0;
    while k < needed.len()
        invariant
            0 <= k <= needed.len(),
            s == elems_view(array@),
            str_views(needed@) == needed_ids(s),
            str_views(present@) == present_ids(s),
            docs_view(vertices@) == vertex_docs(s) + keep_missing(
                needed_ids(s).take(k as int),
                present_ids(s),
            ).map_values(|id: Seq<char>| placeholder_doc(id)),
            all_ok(s),
            edge_docs(s).len() > 0,
            docs_view(edges@) == edge_docs(s),
        decreases needed.len() - k,
    {
        let ghost n = needed_ids(s);
        let ghost q = n.take(k as int);
        let ghost q1 = n.take(k as int + 1);
        proof {
            assert(q1.drop_last() =~= q);
            assert(q1.last() == n[k as int]);
            assert(str_views(needed@)[k as int] == needed@[k as int]@);
        }
        if !contains_string(&present, &needed[k]) {
            let id = needed[k].clone();
            let placeholder = Document {
                fields: vec![(String::from_str("_id"), JsonValue::Str(id))],
            };
            proof {
                assert(placeholder@ =~= placeholder_doc(n[k as int]));
                assert(keep_missing(q1, present_ids(s)) =~= keep_missing(q, present_ids(s)).push(
                    n[k as int],
                ));
                assert(docs_view(vertices@.push(placeholder)) =~= docs_view(vertices@).push(
                    placeholder@,
                ));
                assert(keep_missing(q1, present_ids(s)).map_values(
                    |id: Seq<char>| placeholder_doc(id),
                ) =~= keep_missing(q, present_ids(s)).map_values(
                    |id: Seq<char>| placeholder_doc(id),
                ).push(placeholder_doc(n[k as int])));
            }
            vertices.push(placeholder);
        } else {
            proof {
                assert(keep_missing(q1, present_ids(s)) =~= keep_missing(q, present_ids(s)));
            }
        }
        k += 1;
    }
    proof {
        assert(needed_ids(s).take(needed@.len() as int) =~= needed_ids(s));
    }
    Ok(Graph { vertices, edges })
}


/// A well-formed edge document: both endpoints are strings of the
/// `collection/key` shape.
pub open spec fn edge_doc_ok(d: DocModel) -> bool {
    &&& lookup(d, "_from"@) matches Some(JsonModel::Str(f)) && valid_id(f)
    &&& lookup(d, "_to"@) matches Some(JsonModel::Str(t)) && valid_id(t)
}

/// A well-formed vertex document: not edge-marked, with a string `_id` of
/// the `collection/key` shape.
pub open spec fn vertex_doc_ok(d: DocModel) -> bool {
    &&& !edge_marked(d)
    &&& lookup(d, "_id"@) matches Some(JsonModel::Str(v)) && valid_id(v)
}

/// In a well-formed input, every classified edge document is well formed.
pub proof fn lemma_edge_docs_ok(s: Seq<ElementModel>)
    requires
        all_ok(s),
    ensures
        forall|j: int| 0 <= j < edge_docs(s).len() ==> edge_doc_ok(#[trigger] edge_docs(s)[j]),
    decreases s.len(),
{
    if s.len() > 0 {
        let s0 = s.drop_last();
        assert forall|j: int| 0 <= j < s0.len() implies elem_ok(#[trigger] s0[j]) by {
            assert(s0[j] == s[j]);
        }
        lemma_edge_docs_ok(s0);
        assert(elem_ok(s[s.len() - 1]));
        assert forall|j: int| 0 <= j < edge_docs(s).len() implies edge_doc_ok(
            #[trigger] edge_docs(s)[j],
        ) by {
            if j < edge_docs(s0).len() {
                assert(edge_docs(s)[j] == edge_docs(s0)[j]);
            } else {
                assert(is_edge_elem(s.last()));
                assert(edge_docs(s)[j] == s.last()->Object_0);
            }
        }
    }
}

/// In a well-formed input, every classified explicit vertex document is well
/// formed.
pub proof fn lemma_vertex_docs_ok(s: Seq<ElementModel>)
    requires
        all_ok(s),
    ensures
        forall|j: int| 0 <= j < vertex_docs(s).len() ==> vertex_doc_ok(
            #[trigger] vertex_docs(s)[j],
        ),
    decreases s.len(),
{
    if s.len() > 0 {
        let s0 = s.drop_last();
        assert forall|j: int| 0 <= j < s0.len() implies elem_ok(#[trigger] s0[j]) by {
            assert(s0[j] == s[j]);
        }
        lemma_vertex_docs_ok(s0);
        assert(elem_ok(s[s.len() - 1]));
        assert forall|j: int| 0 <= j < vertex_docs(s).len() implies vertex_doc_ok(
            #[trigger] vertex_docs(s)[j],
        ) by {
            if j < vertex_docs(s0).len() {
                assert(vertex_docs(s)[j] == vertex_docs(s0)[j]);
            } else {
                assert(is_vertex_elem(s.last()));
                assert(vertex_docs(s)[j] == s.last()->Object_0);
            }
        }
    }
}

proof fn lemma_contains_extend(a: Seq<Seq<char>>, b: Seq<Seq<char>>, x: Seq<char>)
    requires
        a.contains(x),
    ensures
        (a + b).contains(x),
{
    let i = choose|i: int| 0 <= i < a.len() && a[i] == x;
    assert((a + b)[i] == x);
}

/// Every endpoint of every edge document of `ds` occurs among the needed ids.
proof fn lemma_needed_complete(ds: Seq<DocModel>)
    ensures
        forall|j: int| 0 <= j < ds.len() ==> needed_from_docs(ds).contains(
            edge_from(#[trigger] ds[j]),
        ) && needed_from_docs(ds).contains(edge_to(#[trigger] ds[j])),
    decreases ds.len(),
{
    if ds.len() > 0 {
        let ds0 = ds.drop_last();
        lemma_needed_complete(ds0);
        let acc = needed_from_docs(ds0);
        let last = ds.last();
        let r = needed_from_docs(ds);
        assert(r == add_needed(acc, last));
        let acc1 = if acc.contains(edge_from(last)) {
            acc
        } else {
            acc.push(edge_from(last))
        };
        assert(acc1.contains(edge_from(last))) by {
            if !acc.contains(edge_from(last)) {
                assert(acc1.last() == edge_from(last));
            }
        }
        assert(r.contains(edge_to(last))) by {
            if !acc1.contains(edge_to(last)) {
                assert(r.last() == edge_to(last));
            }
        }
        assert(r.contains(edge_from(last))) by {
            if acc1.contains(edge_from(last)) && r != acc1 {
                let i = choose|i: int| 0 <= i < acc1.len() && acc1[i] == edge_from(last);
                assert(r[i] == edge_from(last));
            }
        }
        assert forall|j: int| 0 <= j < ds0.len() implies r.contains(edge_from(#[trigger] ds[j]))
            && r.contains(edge_to(#[trigger] ds[j])) by {
            assert(ds0[j] == ds[j]);
            lemma_add_needed_monotone(acc, last, edge_from(ds0[j]));
            lemma_add_needed_monotone(acc, last, edge_to(ds0[j]));
        }
    }
}

proof fn lemma_add_needed_monotone(acc: Seq<Seq<char>>, d: DocModel, x: Seq<char>)
    requires
        acc.contains(x),
    ensures
        add_needed(acc, d).contains(x),
{
    let i = choose|i: int| 0 <= i < acc.len() && acc[i] == x;
    let r = add_needed(acc, d);
    assert(r[i] == x);
}

/// Every needed id is either present or kept among the missing ones.
proof fn lemma_keep_missing_covers(ids: Seq<Seq<char>>, present: Seq<Seq<char>>, x: Seq<char>)
    requires
        ids.contains(x),
    ensures
        present.contains(x) || keep_missing(ids, present).contains(x),
    decreases ids.len(),
{
    if !present.contains(x) {
        let ids0 = ids.drop_last();
        if ids0.contains(x) {
            lemma_keep_missing_covers(ids0, present, x);
            lemma_contains_extend(
                keep_missing(ids0, present),
                keep_missing(ids, present).skip(keep_missing(ids0, present).len() as int),
                x,
            );
            assert(keep_missing(ids0, present) + keep_missing(ids, present).skip(
                keep_missing(ids0, present).len() as int,
            ) =~= keep_missing(ids, present));
        } else {
            let i = choose|i: int| 0 <= i < ids.len() && ids[i] == x;
            assert(i == ids.len() - 1) by {
                if i < ids.len() - 1 {
                    assert(ids0[i] == x);
                }
            }
            assert(keep_missing(ids, present).last() == x);
        }
    }
}

/// The vertex set of a classified graph resolves every id its edges
/// reference: each `_from` and `_to` of each classified edge is the `_id` of
/// some classified vertex, explicit or synthesized.
pub proof fn lemma_edge_endpoints_resolved(s: Seq<ElementModel>)
    requires
        all_ok(s),
    ensures
        forall|j: int| 0 <= j < edge_docs(s).len() ==> doc_ids(result_vertices(s)).contains(
            edge_from(#[trigger] edge_docs(s)[j]),
        ) && doc_ids(result_vertices(s)).contains(edge_to(#[trigger] edge_docs(s)[j])),
{
    let ds = edge_docs(s);
    let needed = needed_ids(s);
    let present = present_ids(s);
    let missing = placeholder_ids(s);
    lemma_needed_complete(ds);
    lemma_result_ids(s);
    assert forall|j: int| 0 <= j < ds.len() implies doc_ids(result_vertices(s)).contains(
        edge_from(#[trigger] ds[j]),
    ) && doc_ids(result_vertices(s)).contains(edge_to(#[trigger] ds[j])) by {
        lemma_keep_missing_covers(needed, present, edge_from(ds[j]));
        lemma_keep_missing_covers(needed, present, edge_to(ds[j]));
        if present.contains(edge_from(ds[j])) {
            lemma_contains_extend(present, missing, edge_from(ds[j]));
        } else {
            lemma_contains_skip(present, missing, edge_from(ds[j]));
        }
        if present.contains(edge_to(ds[j])) {
            lemma_contains_extend(present, missing, edge_to(ds[j]));
        } else {
            lemma_contains_skip(present, missing, edge_to(ds[j]));
        }
    }
}

proof fn lemma_contains_skip(a: Seq<Seq<char>>, b: Seq<Seq<char>>, x: Seq<char>)
    requires
        b.contains(x),
    ensures
        (a + b).contains(x),
{
    let i = choose|i: int| 0 <= i < b.len() && b[i] == x;
    assert((a + b)[a.len() + i] == x);
}


/// The ids of the classified vertices: the explicit ids followed by the
/// synthesized ones.
proof fn lemma_result_ids(s: Seq<ElementModel>)
    ensures
        doc_ids(result_vertices(s)) == present_ids(s) + placeholder_ids(s),
{
    let missing = placeholder_ids(s);
    let mapped = missing.map_values(|id: Seq<char>| vertex_id(placeholder_doc(id)));
    assert(doc_ids(result_vertices(s)) =~= present_ids(s) + mapped);
    assert forall|k: int| 0 <= k < missing.len() implies mapped[k] == #[trigger] missing[k] by {
        assert(lookup(placeholder_doc(missing[k]), "_id"@) == Some(JsonModel::Str(missing[k])));
    }
    assert(mapped =~= missing);
    assert(present_ids(s) + mapped =~= present_ids(s) + missing);
}

proof fn lemma_docs_split(a: Seq<ElementModel>, b: Seq<ElementModel>)
    ensures
        edge_docs(a + b) == edge_docs(a) + edge_docs(b),
        vertex_docs(a + b) == vertex_docs(a) + vertex_docs(b),
    decreases b.len(),
{
    if b.len() == 0 {
        assert(a + b =~= a);
        assert(edge_docs(a) + edge_docs(b) =~= edge_docs(a));
        assert(vertex_docs(a) + vertex_docs(b) =~= vertex_docs(a));
    } else {
        lemma_docs_split(a, b.drop_last());
        assert((a + b).drop_last() =~= a + b.drop_last());
        assert((a + b).last() == b.last());
        assert(edge_docs(a) + edge_docs(b) =~= edge_docs(a + b));
        assert(vertex_docs(a) + vertex_docs(b) =~= vertex_docs(a + b));
    }
}

proof fn lemma_edge_docs_of_objects(ds: Seq<DocModel>)
    requires
        forall|j: int| 0 <= j < ds.len() ==> edge_doc_ok(#[trigger] ds[j]),
    ensures
        all_ok(ds.map_values(|d: DocModel| ElementModel::Object(d))),
        edge_docs(ds.map_values(|d: DocModel| ElementModel::Object(d))) == ds,
        vertex_docs(ds.map_values(|d: DocModel| ElementModel::Object(d))) == Seq::<
            DocModel,
        >::empty(),
    decreases ds.len(),
{
    let m = ds.map_values(|d: DocModel| ElementModel::Object(d));
    if ds.len() == 0 {
        assert(edge_docs(m) =~= ds);
        assert(vertex_docs(m) =~= Seq::<DocModel>::empty());
    } else {
        let ds0 = ds.drop_last();
        assert forall|j: int| 0 <= j < ds0.len() implies edge_doc_ok(#[trigger] ds0[j]) by {
            assert(ds0[j] == ds[j]);
        }
        lemma_edge_docs_of_objects(ds0);
        let m0 = ds0.map_values(|d: DocModel| ElementModel::Object(d));
        assert(m.drop_last() =~= m0);
        assert(m.last() == ElementModel::Object(ds.last()));
        assert(edge_doc_ok(ds.last()));
        assert(edge_marked(ds.last()));
        assert(elem_ok(m.last()));
        assert(is_edge_elem(m.last()));
        assert(edge_docs(m) == edge_docs(m0) + seq![ds.last()]);
        assert(edge_docs(m) =~= ds);
        assert(vertex_docs(m) =~= Seq::<DocModel>::empty());
        assert forall|i: int| 0 <= i < m.len() implies elem_ok(#[trigger] m[i]) by {
            if i < m0.len() {
                assert(m[i] == m0[i]);
            } else {
                assert(m[i] == m.last());
            }
        }
    }
}

proof fn lemma_vertex_docs_of_objects(ds: Seq<DocModel>)
    requires
        forall|j: int| 0 <= j < ds.len() ==> vertex_doc_ok(#[trigger] ds[j]),
    ensures
        all_ok(ds.map_values(|d: DocModel| ElementModel::Object(d))),
        vertex_docs(ds.map_values(|d: DocModel| ElementModel::Object(d))) == ds,
        edge_docs(ds.map_values(|d: DocModel| ElementModel::Object(d))) == Seq::<
            DocModel,
        >::empty(),
    decreases ds.len(),
{
    let m = ds.map_values(|d: DocModel| ElementModel::Object(d));
    if ds.len() == 0 {
        assert(vertex_docs(m) =~= ds);
        assert(edge_docs(m) =~= Seq::<DocModel>::empty());
    } else {
        let ds0 = ds.drop_last();
        assert forall|j: int| 0 <= j < ds0.len() implies vertex_doc_ok(#[trigger] ds0[j]) by {
            assert(ds0[j] == ds[j]);
        }
        lemma_vertex_docs_of_objects(ds0);
        let m0 = ds0.map_values(|d: DocModel| ElementModel::Object(d));
        assert(m.drop_last() =~= m0);
        assert(m.last() == ElementModel::Object(ds.last()));
        assert(vertex_doc_ok(ds.last()));
        assert(elem_ok(m.last()));
        assert(is_vertex_elem(m.last()));
        assert(vertex_docs(m) == vertex_docs(m0) + seq![ds.last()]);
        assert(vertex_docs(m) =~= ds);
        assert(edge_docs(m) =~= Seq::<DocModel>::empty());
        assert forall|i: int| 0 <= i < m.len() implies elem_ok(#[trigger] m[i]) by {
            if i < m0.len() {
                assert(m[i] == m0[i]);
            } else {
                assert(m[i] == m.last());
            }
        }
    }
}

proof fn lemma_needed_valid(ds: Seq<DocModel>)
    requires
        forall|j: int| 0 <= j < ds.len() ==> edge_doc_ok(#[trigger] ds[j]),
    ensures
        forall|j: int| 0 <= j < needed_from_docs(ds).len() ==> valid_id(
            #[trigger] needed_from_docs(ds)[j],
        ),
    decreases ds.len(),
{
    if ds.len() > 0 {
        let ds0 = ds.drop_last();
        assert forall|j: int| 0 <= j < ds0.len() implies edge_doc_ok(#[trigger] ds0[j]) by {
            assert(ds0[j] == ds[j]);
        }
        lemma_needed_valid(ds0);
        let acc = needed_from_docs(ds0);
        let last = ds.last();
        assert(edge_doc_ok(last));
        assert(valid_id(edge_from(last)));
        assert(valid_id(edge_to(last)));
        let acc1 = if acc.contains(edge_from(last)) {
            acc
        } else {
            acc.push(edge_from(last))
        };
        assert forall|j: int| 0 <= j < acc1.len() implies valid_id(#[trigger] acc1[j]) by {
            if j < acc.len() {
                assert(acc1[j] == acc[j]);
            } else {
                assert(acc1[j] == edge_from(last));
            }
        }
        let r = needed_from_docs(ds);
        assert forall|j: int| 0 <= j < r.len() implies valid_id(#[trigger] r[j]) by {
            if j < acc1.len() {
                assert(r[j] == acc1[j]);
            } else {
                assert(r[j] == edge_to(last));
            }
        }
    }
}

proof fn lemma_keep_missing_subset(ids: Seq<Seq<char>>, present: Seq<Seq<char>>)
    ensures
        forall|j: int| 0 <= j < keep_missing(ids, present).len() ==> ids.contains(
            #[trigger] keep_missing(ids, present)[j],
        ),
    decreases ids.len(),
{
    if ids.len() > 0 {
        let ids0 = ids.drop_last();
        lemma_keep_missing_subset(ids0, present);
        let r0 = keep_missing(ids0, present);
        let r = keep_missing(ids, present);
        assert forall|j: int| 0 <= j < r.len() implies ids.contains(#[trigger] r[j]) by {
            if j < r0.len() {
                assert(r[j] == r0[j]);
                assert(ids0.contains(r0[j]));
                let i = choose|i: int| 0 <= i < ids0.len() && ids0[i] == r0[j];
                assert(ids[i] == r[j]);
            } else {
                assert(r[j] == ids.last());
                assert(ids[ids.len() - 1] == r[j]);
            }
        }
    }
}

proof fn lemma_keep_missing_empty(ids: Seq<Seq<char>>, present: Seq<Seq<char>>)
    requires
        forall|j: int| 0 <= j < ids.len() ==> present.contains(#[trigger] ids[j]),
    ensures
        keep_missing(ids, present) == Seq::<Seq<char>>::empty(),
    decreases ids.len(),
{
    if ids.len() > 0 {
        let ids0 = ids.drop_last();
        assert forall|j: int| 0 <= j < ids0.len() implies present.contains(#[trigger] ids0[j]) by {
            assert(ids0[j] == ids[j]);
        }
        lemma_keep_missing_empty(ids0, present);
        assert(present.contains(ids.last()));
        assert(keep_missing(ids, present) =~= Seq::<Seq<char>>::empty());
    }
}

proof fn lemma_placeholder_ok(id: Seq<char>)
    requires
        valid_id(id),
    ensures
        vertex_doc_ok(placeholder_doc(id)),
{
    reveal_strlit("_id");
    reveal_strlit("_from");
    reveal_strlit("_to");
    assert("_id"@.len() == 3);
    assert("_from"@.len() == 5);
    assert("_id"@ != "_from"@);
    assert("_id"@[1] == 'i' && "_to"@[1] == 't');
    assert("_id"@ != "_to"@);
    let d = placeholder_doc(id);
    assert(d.len() == 1 && d[0] == ("_id"@, JsonModel::Str(id)));
    assert(d.drop_first().len() == 0);
    assert(lookup(d.drop_first(), "_from"@) is None);
    assert(lookup(d.drop_first(), "_to"@) is None);
    assert(lookup(d, "_from"@) is None);
    assert(lookup(d, "_to"@) is None);
    assert(lookup(d, "_id"@) == Some(JsonModel::Str(id)));
}

/// Classification is idempotent: feeding the classified vertices and edges
/// back in as a fresh input classifies cleanly and yields the same vertex
/// and edge documents, with no placeholder re-synthesized.
pub proof fn lemma_classification_idempotent(s: Seq<ElementModel>)
    requires
        all_ok(s),
    ensures
        ({
            let rerun = result_vertices(s).map_values(|d: DocModel| ElementModel::Object(d))
                + edge_docs(s).map_values(|d: DocModel| ElementModel::Object(d));
            &&& all_ok(rerun)
            &&& edge_docs(rerun) == edge_docs(s)
            &&& result_vertices(rerun) == result_vertices(s)
        }),
{
    let rv = result_vertices(s);
    let ed = edge_docs(s);
    let mv = rv.map_values(|d: DocModel| ElementModel::Object(d));
    let me = ed.map_values(|d: DocModel| ElementModel::Object(d));
    let rerun = mv + me;

    lemma_vertex_docs_ok(s);
    lemma_edge_docs_ok(s);
    lemma_needed_valid(ed);
    lemma_keep_missing_subset(needed_ids(s), present_ids(s));
    assert forall|j: int| 0 <= j < rv.len() implies vertex_doc_ok(#[trigger] rv[j]) by {
        if j < vertex_docs(s).len() {
            assert(rv[j] == vertex_docs(s)[j]);
        } else {
            let pid = placeholder_ids(s)[j - vertex_docs(s).len()];
            assert(rv[j] == placeholder_doc(pid));
            assert(needed_ids(s).contains(pid));
            let i = choose|i: int| 0 <= i < needed_ids(s).len() && needed_ids(s)[i] == pid;
            assert(valid_id(needed_ids(s)[i]));
            lemma_placeholder_ok(pid);
        }
    }
    lemma_vertex_docs_of_objects(rv);
    lemma_edge_docs_of_objects(ed);
    lemma_docs_split(mv, me);
    assert(edge_docs(rerun) =~= ed);
    assert(vertex_docs(rerun) =~= rv);
    assert forall|i: int| 0 <= i < rerun.len() implies elem_ok(#[trigger] rerun[i]) by {
        if i < mv.len() {
            assert(rerun[i] == mv[i]);
        } else {
            assert(rerun[i] == me[i - mv.len()]);
        }
    }
    lemma_result_ids(s);
    assert(present_ids(rerun) == doc_ids(rv));
    assert(needed_ids(rerun) == needed_ids(s));
    assert forall|j: int| 0 <= j < needed_ids(rerun).len() implies present_ids(rerun).contains(
        #[trigger] needed_ids(rerun)[j],
    ) by {
        let x = needed_ids(s)[j];
        assert(needed_ids(s).contains(x));
        lemma_keep_missing_covers(needed_ids(s), present_ids(s), x);
        if present_ids(s).contains(x) {
            lemma_contains_extend(present_ids(s), placeholder_ids(s), x);
        } else {
            lemma_contains_skip(present_ids(s), placeholder_ids(s), x);
        }
    }
    lemma_keep_missing_empty(needed_ids(rerun), present_ids(rerun));
    assert(placeholder_ids(rerun) == Seq::<Seq<char>>::empty());
    assert(placeholder_ids(rerun).map_values(|id: Seq<char>| placeholder_doc(id)) =~= Seq::<
        DocModel,
    >::empty());
    assert(result_vertices(rerun) =~= rv);
}

} // verus!
