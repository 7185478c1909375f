//! The decisions of the store's cursor protocol: how one parsed cursor
//! response extends the collected result set and whether another batch must
//! be fetched. The HTTP calls themselves happen outside the library, which
//! hands back each response's fields as plain values.

use base64::prelude::Engine;
use base64::prelude::BASE64_STANDARD;
use vstd::prelude::*;

use crate::json::{elems_view, Element};

verus! {

/// The fields of one cursor response, as parsed by the caller: the batch
/// under `result`, the `hasMore` flag, and the cursor `id`, each absent when
/// the response lacked it.
pub struct CursorPage {
    pub result: Option<Vec<Element>>,
    pub has_more: Option<bool>,
    pub id: Option<String>,
}

/// A cursor drain in progress: what has been collected so far and the
/// cursor id under which the next batch is requested.
pub struct CursorRun {
    pub collected: Vec<Element>,
    pub cursor_id: String,
}

/// What to do after reading the first cursor response.
pub enum CursorStep {
    /// The result set is complete.
    Done(Vec<Element>),
    /// More batches exist; keep requesting under the run's cursor id.
    More(CursorRun),
}

/// How a query failed.
#[derive(Debug, PartialEq, Eq, Structural, Clone, Copy)]
pub enum QueryError {
    /// The connection itself failed.
    Transport,
    /// The store answered with a status outside the 2xx range.
    HttpStatus(u16),
    /// A response lacked the expected `result` field.
    MalformedNoResult,
    /// A continuation response lacked the `hasMore` flag.
    MalformedNoHasMore,
    /// The first response promised more batches but carried no cursor id.
    MalformedNoCursorId,
}

/// Copy a batch of elements.
fn clone_elements(v: &Vec<Element>) -> (r: Vec<Element>)
    ensures
        elems_view(r@) == elems_view(v@),
{
    let mut out: Vec<Element> = Vec::new();
    let mut i: usize = 0;
    while i < v.len()
        invariant
            0 <= i <= v.len(),
            out@.len() == i,
            forall|j: int| 0 <= j < i ==> #[trigger] out@[j]@ == v@[j]@,
        decreases v.len() - i,
    {
        out.push(v[i].clone());
        i += 1;
    }
    proof {
        assert forall|j: int| 0 <= j < v@.len() implies #[trigger] elems_view(out@)[j]
            == elems_view(v@)[j] by {
            assert(elems_view(out@)[j] == out@[j]@);
            assert(elems_view(v@)[j] == v@[j]@);
        }
        assert(elems_view(out@) =~= elems_view(v@));
    }
    out
}

/// Read the first cursor response: its batch is the start of the result
/// set, and `hasMore` decides whether the cursor must be followed. A
/// response without `result` is malformed, and one that promises more
/// batches without naming a cursor id cannot be followed.
pub fn cursor_start(page: &CursorPage) -> (r: Result<CursorStep, QueryError>)
    ensures
        match r {
            Ok(CursorStep::Done(v)) => page.result matches Some(b) && elems_view(v@)
                == elems_view(b@) && page.has_more != Some(true),
            Ok(CursorStep::More(run)) => page.result matches Some(b) && elems_view(run.collected@)
                == elems_view(b@) && page.has_more == Some(true) && (page.id matches Some(cid)
                && run.cursor_id@ == cid@),
            Err(QueryError::MalformedNoResult) => page.result is None,
            Err(QueryError::MalformedNoCursorId) => page.result is Some && page.has_more == Some(
                true,
            ) && page.id is None,
            Err(_) => false,
        },
{
    let batch = match &page.result {
        Some(b) => clone_elements(b),
        None => {
            return Err(QueryError::MalformedNoResult);
        },
    };
    if let Some(true) = page.has_more {
        match &page.id {
            Some(cid) => Ok(
                CursorStep::More(CursorRun { collected: batch, cursor_id: cid.clone() }),
            ),
            None => Err(QueryError::MalformedNoCursorId),
        }
    } else {
        Ok(CursorStep::Done(batch))
    }
}

/// What a continuation response decided.
pub enum CursorDecision {
    /// The result set is complete; the run holds all batches in order.
    Done,
    /// More batches exist; request the next one under the same cursor id.
    More,
}

/// Read one continuation response: its batch is appended to the collected
/// results in arrival order, and `hasMore` decides whether to continue. A
/// continuation without `result` or without `hasMore` is malformed and
/// leaves the run unchanged.
pub fn cursor_step(run: &mut CursorRun, page: &CursorPage) -> (r: Result<
    CursorDecision,
    QueryError,
>)
    ensures
        match r {
            Ok(d) => page.result matches Some(b) && elems_view(final(run).collected@)
                == elems_view(old(run).collected@) + elems_view(b@) && final(run).cursor_id@ == old(
                run,
            ).cursor_id@ && (page.has_more matches Some(m) && (d is Done <==> !m)),
            Err(QueryError::MalformedNoResult) => page.result is None && *final(run) == *old(run),
            Err(QueryError::MalformedNoHasMore) => page.result is Some && page.has_more is None
                && *final(run) == *old(run),
            Err(_) => false,
        },
{
    let more = match page.has_more {
        Some(m) => m,
        None => {
            if page.result.is_none() {
                return Err(QueryError::MalformedNoResult);
            }
            return Err(QueryError::MalformedNoHasMore);
        },
    };
    let mut batch = match &page.result {
        Some(b) => clone_elements(b),
        None => {
            return Err(QueryError::MalformedNoResult);
        },
    };
    let ghost before = run.collected@;
    let ghost incoming = batch@;
    run.collected.append(&mut batch);
    proof {
        assert forall|j: int| 0 <= j < run.collected@.len() implies #[trigger] elems_view(
            run.collected@,
        )[j] == (elems_view(before) + elems_view(incoming))[j] by {
            assert(elems_view(run.collected@)[j] == run.collected@[j]@);
            if j < before.len() {
                assert(run.collected@[j] == before[j]);
                assert(elems_view(before)[j] == before[j]@);
            } else {
                assert(run.collected@[j] == incoming[j - before.len()]);
                assert(elems_view(incoming)[j - before.len()] == incoming[j - before.len()]@);
            }
        }
        assert(elems_view(run.collected@) =~= elems_view(before) + elems_view(incoming));
    }
    if more {
        Ok(CursorDecision::More)
    } else {
        Ok(CursorDecision::Done)
    }
}

/// The base64 text that the standard alphabet with padding assigns to the
/// UTF-8 bytes of a string: a pure function of the characters alone.
pub uninterp spec fn base64_std_of(s: Seq<char>) -> Seq<char>;

/// Relies on base64's `BASE64_STANDARD` engine: `encode` deterministically
/// maps the input bytes to their standard-alphabet encoding.
#[verifier::external_body]
fn base64_encode(s: &str) -> (r: String)
    ensures
        r@ == base64_std_of(s@),
{
    BASE64_STANDARD.encode(s.as_bytes())
}

/// The Basic authentication header value for the configured credentials:
/// `Basic` followed by the encoding of `username:password`.
pub fn basic_auth_header(username: &str, password: &str) -> (r: String)
    ensures
        r@ == "Basic "@ + base64_std_of(username@ + ":"@ + password@),
{
    let mut creds = String::from_str(username);
    creds.append(":");
    creds.append(password);
    proof {
        assert(creds@ =~= username@ + ":"@ + password@);
    }
    let encoded = base64_encode(creds.as_str());
    let mut out = String::from_str("Basic ");
    out.append(encoded.as_str());
    proof {
        assert(out@ =~= "Basic "@ + base64_std_of(username@ + ":"@ + password@));
    }
    out
}

} // verus!
