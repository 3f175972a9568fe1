//! Decisions around fetching vector and raster overlays: the Overpass query
//! text and what to do after each attempt.
use crate::text::{push_char, push_decimal, trim_of, trim_text, decimal};
use vstd::prelude::*;

verus! {

/// Server-side timeout written into Overpass queries, in seconds.
pub const OVERPASS_TIMEOUT_SECONDS: u32 = 90;

/// How many times an Overpass request is tried.
pub const OVERPASS_MAX_RETRIES: usize = 100;

/// What `str::replace` makes of `s` when every `from` becomes `to`.
pub uninterp spec fn replaced(s: Seq<char>, from: Seq<char>, to: Seq<char>) -> Seq<char>;

/// Whether `str::contains` finds `pat` in `s`.
pub uninterp spec fn has_substring(s: Seq<char>, pat: Seq<char>) -> bool;

/// Relies on `str::replace`: every non-overlapping occurrence of `from`
/// replaced by `to`.
#[verifier::external_body]
fn replace_all(s: &str, from: &str, to: &str) -> (r: String)
    ensures
        r@ == replaced(s@, from@, to@),
{
    s.replace(from, to)
}

/// Relies on `str::contains`: whether `pat` occurs in `s`.
#[verifier::external_body]
pub(crate) fn contains_text(s: &str, pat: &str) -> (r: bool)
    ensures
        r == has_substring(s@, pat@),
{
    s.contains(pat)
}

/// The body of a query: the bounding box put in place of `{{bbox}}`,
/// trimmed, ending in `;`.
pub open spec fn query_body(query: Seq<char>, bbox: Seq<char>) -> Seq<char> {
    let t = trim_of(if has_substring(query, "{{bbox}}"@) {
        replaced(query, "{{bbox}}"@, bbox)
    } else {
        query
    });
    if t.len() > 0 && t.last() == ';' {
        t
    } else {
        t.push(';')
    }
}

/// The Overpass query of a layer over a bounding box.
pub open spec fn overpass_query_spec(query: Seq<char>, bbox: Seq<char>) -> Seq<char> {
    "[out:json][timeout:"@ + decimal(OVERPASS_TIMEOUT_SECONDS as nat) + "];"@ + query_body(query, bbox)
        + "out geom;"@
}

/// Builds the Overpass query of a layer: its text with the bounding box put
/// in, wrapped in a JSON output header with a timeout and a geometry footer.
pub fn build_query(query: &str, bbox_param: &str) -> (r: String)
    ensures
        r@ == overpass_query_spec(query@, bbox_param@),
{
    let body = if contains_text(query, "{{bbox}}") {
        replace_all(query, "{{bbox}}", bbox_param)
    } else {
        String::from_str(query)
    };
    let mut body = trim_text(body.as_str());
    let n = body.unicode_len();
    if !(n > 0 && body.get_char(n - 1) == ';') {
        push_char(&mut body, ';');
    }
    assert(body@ == query_body(query@, bbox_param@));
    let mut out = String::from_str("[out:json][timeout:");
    push_decimal(&mut out, OVERPASS_TIMEOUT_SECONDS);
    out.append("];");
    out.append(body.as_str());
    out.append("out geom;");
    proof {
        reveal_strlit("[out:json][timeout:");
        reveal_strlit("];");
        reveal_strlit("out geom;");
        assert(out@ =~= overpass_query_spec(query@, bbox_param@));
    }
    out
}

/// How one fetch attempt ended.
#[derive(Clone, Copy, Debug, PartialEq, Eq)]
pub enum FetchOutcome {
    /// A successful response.
    Success,
    /// The request could not be sent or read.
    TransportError,
    /// The server answered with a non-success status.
    BadStatus,
}

/// What to do after an attempt.
#[derive(Clone, Copy, Debug, PartialEq, Eq)]
pub enum FetchAction {
    /// Keep the response.
    Accept,
    /// Wait, rebuild the client and try again.
    Retry,
    /// Give up and report the failure.
    Fail,
}

/// After attempt number `attempt` (from 1) of at most `max_attempts` ended
/// with `outcome`: accept a success, retry a failure while attempts remain,
/// else fail.
pub fn next_fetch_action(attempt: usize, max_attempts: usize, outcome: FetchOutcome) -> (r: FetchAction)
    ensures
        outcome == FetchOutcome::Success ==> r == FetchAction::Accept,
        outcome != FetchOutcome::Success && attempt < max_attempts ==> r == FetchAction::Retry,
        outcome != FetchOutcome::Success && attempt >= max_attempts ==> r == FetchAction::Fail,
{
    match outcome {
        FetchOutcome::Success => FetchAction::Accept,
        _ => if attempt < max_attempts {
            FetchAction::Retry
        } else {
            FetchAction::Fail
        },
    }
}

} // verus!
