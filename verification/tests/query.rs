//! The cursor protocol's decisions and the auth header.

use adb_query_runner::{
    basic_auth_header, cursor_start, cursor_step, CursorDecision, CursorPage, CursorStep,
    Document, Element, JsonValue, QueryError,
};

fn vertex(id: &str) -> Element {
    Element::Object(Document {
        fields: vec![("_id".to_string(), JsonValue::Str(id.to_string()))],
    })
}

fn page(result: Option<Vec<Element>>, has_more: Option<bool>, id: Option<&str>) -> CursorPage {
    CursorPage {
        result,
        has_more,
        id: id.map(|s| s.to_string()),
    }
}

fn ids(elements: &[Element]) -> Vec<String> {
    elements
        .iter()
        .map(|e| match e {
            Element::Object(d) => match &d.fields[0].1 {
                JsonValue::Str(s) => s.clone(),
                _ => panic!("expected a string id"),
            },
            _ => panic!("expected an object"),
        })
        .collect()
}

#[test]
fn cursor_concatenates_batches_in_order() {
    let first = page(Some(vec![vertex("c/1"), vertex("c/2")]), Some(true), Some("cur"));
    let mut run = match cursor_start(&first).unwrap() {
        CursorStep::More(run) => run,
        CursorStep::Done(_) => panic!("expected more batches"),
    };
    assert_eq!(run.cursor_id, "cur");

    let followups = [
        page(Some(vec![vertex("c/3")]), Some(true), None),
        page(Some(vec![vertex("c/4"), vertex("c/5")]), Some(true), None),
        page(Some(vec![vertex("c/6")]), Some(false), None),
    ];
    let mut decisions = Vec::new();
    for p in &followups {
        decisions.push(cursor_step(&mut run, p).unwrap());
    }
    assert!(matches!(decisions[0], CursorDecision::More));
    assert!(matches!(decisions[1], CursorDecision::More));
    assert!(matches!(decisions[2], CursorDecision::Done));

    assert_eq!(
        ids(&run.collected),
        vec!["c/1", "c/2", "c/3", "c/4", "c/5", "c/6"]
    );
}

#[test]
fn first_response_without_more_is_complete() {
    let p = page(Some(vec![vertex("c/1")]), Some(false), None);
    match cursor_start(&p).unwrap() {
        CursorStep::Done(v) => assert_eq!(ids(&v), vec!["c/1"]),
        CursorStep::More(_) => panic!("expected a complete result"),
    }
}

#[test]
fn first_response_without_has_more_is_complete() {
    let p = page(Some(vec![]), None, None);
    assert!(matches!(cursor_start(&p), Ok(CursorStep::Done(v)) if v.is_empty()));
}

#[test]
fn response_without_result_is_malformed() {
    let p = page(None, Some(false), None);
    assert_eq!(
        cursor_start(&p).err().unwrap(),
        QueryError::MalformedNoResult
    );
}

#[test]
fn promised_cursor_without_id_is_malformed() {
    let p = page(Some(vec![vertex("c/1")]), Some(true), None);
    assert_eq!(
        cursor_start(&p).err().unwrap(),
        QueryError::MalformedNoCursorId
    );
}

#[test]
fn continuation_without_has_more_is_malformed() {
    let first = page(Some(vec![]), Some(true), Some("cur"));
    let mut run = match cursor_start(&first).unwrap() {
        CursorStep::More(run) => run,
        CursorStep::Done(_) => panic!("expected more batches"),
    };
    let p = page(Some(vec![vertex("c/1")]), None, None);
    assert_eq!(
        cursor_step(&mut run, &p).err().unwrap(),
        QueryError::MalformedNoHasMore
    );
    assert!(run.collected.is_empty());
}

#[test]
fn continuation_without_result_is_malformed() {
    let first = page(Some(vec![]), Some(true), Some("cur"));
    let mut run = match cursor_start(&first).unwrap() {
        CursorStep::More(run) => run,
        CursorStep::Done(_) => panic!("expected more batches"),
    };
    let p = page(None, None, None);
    assert_eq!(
        cursor_step(&mut run, &p).err().unwrap(),
        QueryError::MalformedNoResult
    );
}

#[test]
fn basic_auth_header_encodes_credentials() {
    assert_eq!(basic_auth_header("user", "pass"), "Basic dXNlcjpwYXNz");
    assert_eq!(basic_auth_header("", ""), "Basic Og==");
}
