//! Calls to the catalog services, and why a refresh fails.

use crate::clock::{call_limit_ms, duration_nanos, next_call_timeout};
use crate::fields::header_texts;
use crate::json::{json_bytes, write_json, Body, JsonView};
use crate::number::{decimal, decimal_text};
use std::time::Duration;
use vstd::prelude::*;

verus! {

/// The calls of a refresh.
#[derive(Clone, Copy, Debug, PartialEq, Eq, Structural)]
pub enum Leg {
    Login,
    Token,
    Search,
}

/// The services that are called.
#[derive(Clone, Copy, Debug, PartialEq, Eq, Structural)]
pub enum Service {
    Login,
    Search,
}

/// A call to a service. With a body it is a POST, without one a GET.
#[derive(Debug)]
pub struct OutboundCall {
    pub service: Service,
    pub path: String,
    pub headers: Vec<(String, String)>,
    pub body: Option<Vec<u8>>,
    pub timeout: Duration,
}

/// Why a refresh fails.
#[derive(Debug)]
pub enum FetchError {
    /// The body of a call could not be written, with the words of the error. No request of this
    /// library comes to that.
    Encode(String),
    /// The time budget was used up before a call.
    Budget(Leg),
    /// A call was answered with a status of 300 or more.
    Status(Leg, u32),
    /// An answer could not be read, with the words of the error.
    Parse(Leg, String),
    /// The catalog lacks what a summary needs.
    Missing(Missing),
}

/// What a summary needs of the catalog.
#[derive(Clone, Copy, Debug, PartialEq, Eq, Structural)]
pub enum Missing {
    /// An asset with the schema id.
    Asset,
    /// The location of the asset.
    Location,
}

/// What a call is named in messages.
pub open spec fn leg_text(leg: Leg) -> Seq<char> {
    match leg {
        Leg::Login => "login"@,
        Leg::Token => "JWT"@,
        Leg::Search => "search"@,
    }
}

fn leg_name(leg: Leg) -> (r: String)
    ensures
        r@ == leg_text(leg),
{
    match leg {
        Leg::Login => "login".to_string(),
        Leg::Token => "JWT".to_string(),
        Leg::Search => "search".to_string(),
    }
}

/// The message that a call could not be made.
pub open spec fn transport_text(leg: Leg, detail: Seq<char>) -> Seq<char> {
    "CDGC "@ + leg_text(leg) + " failed: "@ + detail
}

/// Says that a call could not be made.
pub fn transport_message(leg: Leg, detail: &str) -> (r: String)
    ensures
        r@ == transport_text(leg, detail@),
{
    let mut out = "CDGC ".to_string();
    out.append(leg_name(leg).as_str());
    out.append(" failed: ");
    out.append(detail);
    out
}

/// The message that an answer could not be read.
pub open spec fn parse_text(leg: Leg, detail: Seq<char>) -> Seq<char> {
    match leg {
        Leg::Login => "parse login: "@ + detail,
        Leg::Token => "parse jwt: "@ + detail,
        Leg::Search => "parse search: "@ + detail,
    }
}

/// The message that the time budget was used up.
pub open spec fn budget_text(leg: Leg) -> Seq<char> {
    match leg {
        Leg::Login => "budget before Login"@,
        Leg::Token => "budget before JWT"@,
        Leg::Search => "budget before search"@,
    }
}

/// The message that a call was answered with a failing status. It names the status and nothing else
/// of the answer.
pub open spec fn status_text(leg: Leg, status: u32) -> Seq<char> {
    "CDGC "@ + leg_text(leg) + " status "@ + decimal(status as nat)
}

/// The message that the catalog lacks something.
pub open spec fn missing_text(missing: Missing, schema_id: Seq<char>) -> Seq<char> {
    match missing {
        Missing::Asset => "schema asset '"@ + schema_id + "' not found"@,
        Missing::Location => "schema asset has no core.location"@,
    }
}

/// The message why the refresh of an asset failed.
pub open spec fn failure_text(error: FetchError, schema_id: Seq<char>) -> Seq<char> {
    match error {
        FetchError::Encode(detail) => detail@,
        FetchError::Budget(leg) => budget_text(leg),
        FetchError::Status(leg, status) => status_text(leg, status),
        FetchError::Parse(leg, detail) => parse_text(leg, detail@),
        FetchError::Missing(missing) => missing_text(missing, schema_id),
    }
}

impl FetchError {
    /// Says why the refresh of an asset failed.
    pub fn message(&self, schema_id: &str) -> (r: String)
        ensures
            r@ == failure_text(*self, schema_id@),
    {
        match self {
            FetchError::Encode(detail) => detail.clone(),
            FetchError::Budget(leg) => match leg {
                Leg::Login => "budget before Login".to_string(),
                Leg::Token => "budget before JWT".to_string(),
                Leg::Search => "budget before search".to_string(),
            },
            FetchError::Status(leg, status) => {
                let mut out = "CDGC ".to_string();
                out.append(leg_name(*leg).as_str());
                out.append(" status ");
                out.append(decimal_text(*status as u128).as_str());
                out
            },
            FetchError::Parse(leg, detail) => {
                let mut out = match leg {
                    Leg::Login => "parse login: ".to_string(),
                    Leg::Token => "parse jwt: ".to_string(),
                    Leg::Search => "parse search: ".to_string(),
                };
                out.append(detail.as_str());
                out
            },
            FetchError::Missing(Missing::Asset) => {
                let mut out = "schema asset '".to_string();
                out.append(schema_id);
                out.append("' not found");
                out
            },
            FetchError::Missing(Missing::Location) => {
                "schema asset has no core.location".to_string()
            },
        }
    }
}

/// A status reports that a call did not succeed.
pub open spec fn failed_status(status: u32) -> bool {
    status >= 300
}

/// The call that a refresh makes to a service.
pub open spec fn is_call(
    call: OutboundCall,
    service: Service,
    path: Seq<char>,
    headers: Seq<(Seq<char>, Seq<char>)>,
    body: Option<Seq<u8>>,
    limit_ms: int,
) -> bool {
    &&& call.service == service
    &&& call.path@ == path
    &&& header_texts(call.headers@) == headers
    &&& match call.body {
        Some(bytes) => body == Some(bytes@),
        None => body is None,
    }
    &&& duration_nanos(call.timeout) == limit_ms * 1_000_000
}

/// The outcome of preparing a call with a JSON body: the call, unless no time is left for it.
pub open spec fn is_posted(
    r: Result<OutboundCall, FetchError>,
    leg: Leg,
    service: Service,
    path: Seq<char>,
    headers: Seq<(Seq<char>, Seq<char>)>,
    body: JsonView,
    limit_ms: Option<int>,
) -> bool {
    match limit_ms {
        Some(limit) => r matches Ok(call) && is_call(
            call,
            service,
            path,
            headers,
            Some(json_bytes(body)),
            limit,
        ),
        None => r matches Err(FetchError::Budget(at)) && at == leg,
    }
}

/// Prepares a call with a JSON body.
pub fn post_json(
    leg: Leg,
    service: Service,
    path: String,
    headers: Vec<(String, String)>,
    body: &Body,
    per_call_ms: i64,
    elapsed: i64,
) -> (r: Result<OutboundCall, FetchError>)
    ensures
        is_posted(
            r,
            leg,
            service,
            path@,
            header_texts(headers@),
            body.view(),
            call_limit_ms(per_call_ms as int, elapsed as int),
        ),
{
    let bytes = match write_json(body) {
        Ok(bytes) => bytes,
        Err(e) => {
            return Err(FetchError::Encode(e));
        },
    };
    match next_call_timeout(per_call_ms, elapsed) {
        Some(timeout) => Ok(OutboundCall { service, path, headers, body: Some(bytes), timeout }),
        None => Err(FetchError::Budget(leg)),
    }
}

/// What is said of each failure.
pub proof fn failures_are_told_in_these_words(
    status: u32,
    detail: String,
    schema_id: Seq<char>,
    reason: Seq<char>,
)
    ensures
        failure_text(FetchError::Encode(detail), schema_id) == detail@,
        failure_text(FetchError::Budget(Leg::Login), schema_id) == "budget before Login"@,
        failure_text(FetchError::Budget(Leg::Token), schema_id) == "budget before JWT"@,
        failure_text(FetchError::Budget(Leg::Search), schema_id) == "budget before search"@,
        failure_text(FetchError::Status(Leg::Login, status), schema_id) == "CDGC login status "@
            + decimal(status as nat),
        failure_text(FetchError::Status(Leg::Token, status), schema_id) == "CDGC JWT status "@
            + decimal(status as nat),
        failure_text(FetchError::Status(Leg::Search, status), schema_id) == "CDGC search status "@
            + decimal(status as nat),
        failure_text(FetchError::Parse(Leg::Login, detail), schema_id) == "parse login: "@
            + detail@,
        failure_text(FetchError::Parse(Leg::Token, detail), schema_id) == "parse jwt: "@ + detail@,
        failure_text(FetchError::Parse(Leg::Search, detail), schema_id) == "parse search: "@
            + detail@,
        failure_text(FetchError::Missing(Missing::Asset), schema_id) == "schema asset '"@
            + schema_id + "' not found"@,
        failure_text(FetchError::Missing(Missing::Location), schema_id)
            == "schema asset has no core.location"@,
        transport_text(Leg::Login, reason) == "CDGC login failed: "@ + reason,
        transport_text(Leg::Token, reason) == "CDGC JWT failed: "@ + reason,
        transport_text(Leg::Search, reason) == "CDGC search failed: "@ + reason,
{
    reveal_strlit("CDGC ");
    reveal_strlit("login");
    reveal_strlit("JWT");
    reveal_strlit("search");
    reveal_strlit(" status ");
    reveal_strlit(" failed: ");
    reveal_strlit("CDGC login status ");
    reveal_strlit("CDGC JWT status ");
    reveal_strlit("CDGC search status ");
    reveal_strlit("CDGC login failed: ");
    reveal_strlit("CDGC JWT failed: ");
    reveal_strlit("CDGC search failed: ");
    assert("CDGC "@ + "login"@ + " status "@ =~= "CDGC login status "@);
    assert("CDGC "@ + "JWT"@ + " status "@ =~= "CDGC JWT status "@);
    assert("CDGC "@ + "search"@ + " status "@ =~= "CDGC search status "@);
    assert("CDGC "@ + "login"@ + " failed: "@ =~= "CDGC login failed: "@);
    assert("CDGC "@ + "JWT"@ + " failed: "@ =~= "CDGC JWT failed: "@);
    assert("CDGC "@ + "search"@ + " failed: "@ =~= "CDGC search failed: "@);
}

/// An answer is a failure exactly from status 300 on.
pub proof fn statuses_from_300_on_are_failures(status: u32)
    ensures
        failed_status(status) <==> status > 299,
{
}

/// A prepared call is pinned down: where it goes, every header in order, its body and its time. It is
/// refused only where no time is left.
pub proof fn a_prepared_call_is_pinned_down(
    r: Result<OutboundCall, FetchError>,
    leg: Leg,
    service: Service,
    path: Seq<char>,
    headers: Seq<(Seq<char>, Seq<char>)>,
    body: JsonView,
    limit_ms: Option<int>,
)
    requires
        is_posted(r, leg, service, path, headers, body, limit_ms),
    ensures
        r is Ok <==> limit_ms is Some,
        r matches Err(e) ==> e == FetchError::Budget(leg),
        r matches Ok(call) ==> {
            &&& call.service == service
            &&& call.path@ == path
            &&& call.headers@.len() == headers.len()
            &&& forall|i: int|
                0 <= i < headers.len() ==> headers[i] == (
                    (#[trigger] call.headers@[i]).0@,
                    call.headers@[i].1@,
                )
            &&& call.body is Some
            &&& call.body->0@ == json_bytes(body)
            &&& duration_nanos(call.timeout) == limit_ms->0 * 1_000_000
        },
{
    match r {
        Ok(call) => {
            crate::fields::header_texts_are_taken_one_by_one(call.headers@);
            assert forall|i: int| 0 <= i < headers.len() implies headers[i] == (
                (#[trigger] call.headers@[i]).0@,
                call.headers@[i].1@,
            ) by {
                assert(header_texts(call.headers@)[i] == headers[i]);
            }
        },
        Err(_) => {},
    }
}

/// The same of a call that may be without a body.
pub proof fn a_call_is_pinned_down(
    call: OutboundCall,
    service: Service,
    path: Seq<char>,
    headers: Seq<(Seq<char>, Seq<char>)>,
    body: Option<Seq<u8>>,
    limit_ms: int,
)
    requires
        is_call(call, service, path, headers, body, limit_ms),
    ensures
        call.service == service,
        call.path@ == path,
        call.headers@.len() == headers.len(),
        forall|i: int|
            0 <= i < headers.len() ==> headers[i] == (
                (#[trigger] call.headers@[i]).0@,
                call.headers@[i].1@,
            ),
        call.body is Some <==> body is Some,
        call.body is Some ==> call.body->0@ == body->0,
        duration_nanos(call.timeout) == limit_ms * 1_000_000,
{
    crate::fields::header_texts_are_taken_one_by_one(call.headers@);
    assert forall|i: int| 0 <= i < headers.len() implies headers[i] == (
        (#[trigger] call.headers@[i]).0@,
        call.headers@[i].1@,
    ) by {
        assert(header_texts(call.headers@)[i] == headers[i]);
    }
}

} // verus!
