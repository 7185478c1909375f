//! A plain model of the JSON documents that the query pipeline works on.
//!
//! The pipeline only ever reads the top level of a document: the marker
//! fields `_id`, `_from`, `_to` and `_key` must be strings, and column type
//! inference looks at whether an attribute value is a string, a number or a
//! boolean. Everything else is carried through untouched, so a nested array
//! or object is held opaquely as its serialized text.

use vstd::prelude::*;

verus! {

/// A top-level JSON value as the pipeline sees it. Numbers keep their
/// decimal text so that no precision is lost on the way through; nested
/// arrays and objects are carried as raw serialized text.
#[derive(Debug)]
pub enum JsonValue {
    Null,
    Bool(bool),
    Num(String),
    Str(String),
    Raw(String),
}

/// The mathematical shape of a `JsonValue`: strings become `Seq<char>`.
pub enum JsonModel {
    Null,
    Bool(bool),
    Num(Seq<char>),
    Str(Seq<char>),
    Raw(Seq<char>),
}

impl View for JsonValue {
    type V = JsonModel;

    open spec fn view(&self) -> JsonModel {
        match self {
            JsonValue::Null => JsonModel::Null,
            JsonValue::Bool(b) => JsonModel::Bool(*b),
            JsonValue::Num(s) => JsonModel::Num(s@),
            JsonValue::Str(s) => JsonModel::Str(s@),
            JsonValue::Raw(s) => JsonModel::Raw(s@),
        }
    }
}

impl Clone for JsonValue {
    fn clone(&self) -> (r: Self)
        ensures
            r == *self,
    {
        match self {
            JsonValue::Null => JsonValue::Null,
            JsonValue::Bool(b) => JsonValue::Bool(*b),
            JsonValue::Num(s) => JsonValue::Num(s.clone()),
            JsonValue::Str(s) => JsonValue::Str(s.clone()),
            JsonValue::Raw(s) => JsonValue::Raw(s.clone()),
        }
    }
}

/// A JSON object: an ordered list of key/value pairs.
#[derive(Debug)]
pub struct Document {
    pub fields: Vec<(String, JsonValue)>,
}

impl Clone for Document {
    fn clone(&self) -> (r: Self)
        ensures
            r@ == self@,
    {
        let mut fields: Vec<(String, JsonValue)> = Vec::new();
        let mut i: usize = 0;
        while i < self.fields.len()
            invariant
                0 <= i <= self.fields.len(),
                fields@.len() == i,
                forall|j: int| 0 <= j < i ==> #[trigger] fields@[j] == self.fields@[j],
            decreases self.fields.len() - i,
        {
            let p = &self.fields[i];
            fields.push((p.0.clone(), p.1.clone()));
            i += 1;
        }
        let r = Document { fields };
        proof {
            assert(r.fields@ =~= self.fields@);
        }
        r
    }
}

/// The mathematical shape of a `Document`.
pub type DocModel = Seq<(Seq<char>, JsonModel)>;

impl View for Document {
    type V = DocModel;

    open spec fn view(&self) -> DocModel {
        self.fields@.map_values(|p: (String, JsonValue)| (p.0@, p.1@))
    }
}

/// One element of a query result array: either a JSON object or some other
/// JSON value (which the classifier rejects).
#[derive(Debug)]
pub enum Element {
    Object(Document),
    Primitive(JsonValue),
}

impl Clone for Element {
    fn clone(&self) -> (r: Self)
        ensures
            r@ == self@,
    {
        match self {
            Element::Object(d) => Element::Object(d.clone()),
            Element::Primitive(v) => Element::Primitive(v.clone()),
        }
    }
}

/// The mathematical shape of an `Element`.
pub enum ElementModel {
    Object(DocModel),
    Primitive(JsonModel),
}

impl View for Element {
    type V = ElementModel;

    open spec fn view(&self) -> ElementModel {
        match self {
            Element::Object(d) => ElementModel::Object(d@),
            Element::Primitive(v) => ElementModel::Primitive(v@),
        }
    }
}

/// The value under `key` in `d`, taking the first binding when a key repeats.
pub open spec fn lookup(d: DocModel, key: Seq<char>) -> Option<JsonModel>
    decreases d.len(),
{
    if d.len() == 0 {
        None
    } else if d[0].0 == key {
        Some(d[0].1)
    } else {
        lookup(d.drop_first(), key)
    }
}

pub open spec fn has_key(d: DocModel, key: Seq<char>) -> bool {
    lookup(d, key) is Some
}

proof fn lemma_lookup_found(d: DocModel, key: Seq<char>, i: int)
    requires
        0 <= i < d.len(),
        d[i].0 == key,
        forall|j: int| 0 <= j < i ==> d[j].0 != key,
    ensures
        lookup(d, key) == Some(d[i].1),
    decreases i,
{
    if i > 0 {
        lemma_lookup_found(d.drop_first(), key, i - 1);
    }
}

proof fn lemma_lookup_absent(d: DocModel, key: Seq<char>)
    requires
        forall|j: int| 0 <= j < d.len() ==> d[j].0 != key,
    ensures
        lookup(d, key) is None,
    decreases d.len(),
{
    if d.len() > 0 {
        lemma_lookup_absent(d.drop_first(), key);
    }
}

impl Document {
    /// A reference to the value under `key`, or `None` when the key is absent.
    pub fn get(&self, key: &str) -> (r: Option<&JsonValue>)
        ensures
            match r {
                Some(v) => lookup(self@, key@) == Some(v@),
                None => lookup(self@, key@) is None,
            },
    {
        let ghost d = self@;
        let k = String::from_str(key);
        let mut i: usize = 0;
        while i < self.fields.len()
            invariant
                0 <= i <= self.fields.len(),
                d == self@,
                k@ == key@,
                forall|j: int| 0 <= j < i ==> d[j].0 != key@,
            decreases self.fields.len() - i,
        {
            assert(d[i as int] == (self.fields@[i as int].0@, self.fields@[i as int].1@));
            if self.fields[i].0 == k {
                proof {
                    lemma_lookup_found(d, key@, i as int);
                }
                return Some(&self.fields[i].1);
            }
            i += 1;
        }
        proof {
            lemma_lookup_absent(d, key@);
        }
        None
    }
}

/// The views of a sequence of strings.
pub open spec fn str_views(v: Seq<String>) -> Seq<Seq<char>> {
    v.map_values(|s: String| s@)
}

/// The views of a sequence of documents.
pub open spec fn docs_view(v: Seq<Document>) -> Seq<DocModel> {
    v.map_values(|d: Document| d@)
}

/// The views of a sequence of elements.
pub open spec fn elems_view(v: Seq<Element>) -> Seq<ElementModel> {
    v.map_values(|e: Element| e@)
}

/// Whether `v@` holds a string whose view is `s@`.
pub fn contains_string(v: &Vec<String>, s: &String) -> (r: bool)
    ensures
        r == str_views(v@).contains(s@),
{
    let mut i: usize = 0;
    while i < v.len()
        invariant
            0 <= i <= v.len(),
            forall|j: int| 0 <= j < i ==> v@[j]@ != s@,
        decreases v.len() - i,
    {
        assert(str_views(v@)[i as int] == v@[i as int]@);
        if v[i] == *s {
            return true;
        }
        i += 1;
    }
    assert forall|j: int| 0 <= j < str_views(v@).len() implies str_views(v@)[j] != s@ by {
        assert(str_views(v@)[j] == v@[j]@);
    }
    false
}

} // verus!
