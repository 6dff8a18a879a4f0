//! Responses, and how a handler's result becomes one: a successful result
//! is sent as it is, an error as its status with a JSON `{"error": ...}` body.
use crate::web::error::ApiError;
use crate::web::json::{error_body, json_object_bytes};
use vstd::prelude::*;

verus! {

pub struct HttpResponse {
    pub status: u16,
    pub body: Vec<u8>,
}

/// The bytes of `{}`, sent when a body cannot be encoded.
pub open spec fn empty_object() -> Seq<u8> {
    seq![0x7bu8, 0x7d]
}

impl HttpResponse {
    pub fn status_only(status: u16) -> (r: HttpResponse)
        ensures
            r.status == status,
            r.body@ == Seq::<u8>::empty(),
    {
        HttpResponse { status, body: Vec::new() }
    }

    /// A response with a JSON body already encoded, or `{}` when the value
    /// could not be encoded.
    pub fn with_json_body(status: u16, encoded: Option<Vec<u8>>) -> (r: HttpResponse)
        ensures
            r.status == status,
            r.body@ == match encoded {
                Some(v) => v@,
                None => empty_object(),
            },
    {
        let body = match encoded {
            Some(v) => v,
            None => {
                let mut v: Vec<u8> = Vec::new();
                v.push(0x7b);
                v.push(0x7d);
                assert(v@ =~= empty_object());
                v
            },
        };
        HttpResponse { status, body }
    }

    /// 404 with the body `{"error":"not found"}`.
    pub fn not_found() -> (r: HttpResponse)
        ensures
            r.status == 404,
            r.body@ == error_body("not found"@),
    {
        HttpResponse::with_json_body(404, json_object_bytes("error", "not found"))
    }
}

/// The conversion is stated by the `ensures` of `from` below: a response
/// holds a `Vec`, which spec code cannot build, so no `from_spec` value
/// describes it.
impl<'a> vstd::std_specs::convert::FromSpecImpl<&'a ApiError> for HttpResponse {
    open spec fn obeys_from_spec() -> bool {
        false
    }

    open spec fn from_spec(e: &'a ApiError) -> HttpResponse {
        arbitrary()
    }
}

/// An error as a response: its status, and its client-safe message as the
/// JSON body `{"error":"<message>"}` (internal errors are redacted).
impl<'a> From<&'a ApiError> for HttpResponse {
    fn from(e: &'a ApiError) -> (r: HttpResponse)
        ensures
            r.status == e.status_of(),
            r.body@ == error_body(e.client_message()),
    {
        let message = e.public_message();
        HttpResponse::with_json_body(e.status_code(), json_object_bytes("error", message.as_str()))
    }
}

/// `resp` is what `resolve` makes of a handler's result: the response
/// itself, or the error's status with its client-safe message as the body.
pub open spec fn resolves_to(result: Result<HttpResponse, ApiError>, resp: HttpResponse) -> bool {
    match result {
        Ok(ok) => resp == ok,
        Err(e) => resp.status == e.status_of() && resp.body@ == error_body(e.client_message()),
    }
}

/// The line logged server-side for a handler's result: an internal error
/// (status 500) is logged with its full text, nothing else is.
pub open spec fn log_line_of(result: Result<HttpResponse, ApiError>) -> Option<Seq<char>> {
    match result {
        Err(e) => if e.status_of() == 500 {
            Some("internal error: "@ + e.display_text())
        } else {
            None
        },
        Ok(_) => None,
    }
}

/// `resp` and `log` are what a handler's result turns into: the response
/// sent and the line logged server-side, if any.
pub open spec fn answered(
    result: Result<HttpResponse, ApiError>,
    resp: HttpResponse,
    log: Option<String>,
) -> bool {
    &&& resolves_to(result, resp)
    &&& match log {
        Some(l) => log_line_of(result) == Some(l@),
        None => log_line_of(result) is None,
    }
}

/// Handlers return `Result<HttpResponse, ApiError>`; this turns that into
/// the single `HttpResponse` the router sends back.
pub fn resolve(result: Result<HttpResponse, ApiError>) -> (r: HttpResponse)
    ensures
        resolves_to(result, r),
{
    resolve_logged(result).0
}

/// `resolve`, together with the line to log server-side: an internal
/// error's full text, which the client never sees.
pub fn resolve_logged(result: Result<HttpResponse, ApiError>) -> (r: (HttpResponse, Option<String>))
    ensures
        answered(result, r.0, r.1),
{
    match result {
        Ok(resp) => (resp, None),
        Err(e) => {
            let log = if e.status_code() == 500 {
                let mut line = "internal error: ".to_owned();
                line.append(e.to_string().as_str());
                Some(line)
            } else {
                None
            };
            (HttpResponse::from(&e), log)
        },
    }
}

} // verus!
