//! `ApiError` is the single error type that flows from the repository layer
//! up to the HTTP layer, with the status code and client-safe message each
//! kind maps to, and the translation of database failures into it.
use crate::text::{same_bytes, utf8_of};
use vstd::prelude::*;
use vstd::slice::slice_subrange;

verus! {

#[derive(Debug)]
pub enum ApiError {
    /// The requested resource does not exist. -> HTTP 404.
    NotFound(String),
    /// The request body/parameters failed validation. -> HTTP 400.
    Validation(String),
    /// The request conflicts with existing state (duplicate username, etc.). -> HTTP 409.
    Conflict(String),
    /// Anything else (I/O, SQL, ...). -> HTTP 500. The detailed message is
    /// kept server-side and not echoed to the client.
    Internal(String),
}

/// A failure reported by the database layer.
#[derive(Debug)]
pub enum DbError {
    /// No row matched.
    NotFound,
    /// The record failed the database layer's own validation.
    Validation(String),
    /// The SQL engine refused a statement: its own message, and the text the
    /// database error displays as.
    Sql { message: String, display: String },
    /// Any other failure, by the text it displays as.
    Other(String),
}

impl ApiError {
    /// The HTTP status of each kind of error.
    pub open spec fn status_of(&self) -> u16 {
        match self {
            ApiError::NotFound(_) => 404,
            ApiError::Validation(_) => 400,
            ApiError::Conflict(_) => 409,
            ApiError::Internal(_) => 500,
        }
    }

    /// What may be shown to the client: the message, except for internal
    /// errors, which are redacted.
    pub open spec fn client_message(&self) -> Seq<char> {
        match self {
            ApiError::NotFound(m) => m@,
            ApiError::Validation(m) => m@,
            ApiError::Conflict(m) => m@,
            ApiError::Internal(_) => "internal server error"@,
        }
    }

    /// The error as text: its kind, a colon, and its full message.
    pub open spec fn display_text(&self) -> Seq<char> {
        match self {
            ApiError::NotFound(m) => "not found: "@ + m@,
            ApiError::Validation(m) => "validation: "@ + m@,
            ApiError::Conflict(m) => "conflict: "@ + m@,
            ApiError::Internal(m) => "internal: "@ + m@,
        }
    }

    pub fn status_code(&self) -> (r: u16)
        ensures
            r == self.status_of(),
    {
        match self {
            ApiError::NotFound(_) => 404,
            ApiError::Validation(_) => 400,
            ApiError::Conflict(_) => 409,
            ApiError::Internal(_) => 500,
        }
    }

    /// Message safe to send back to the client (internal errors are redacted).
    pub fn public_message(&self) -> (r: String)
        ensures
            r@ == self.client_message(),
    {
        match self {
            ApiError::NotFound(m) => m.clone(),
            ApiError::Validation(m) => m.clone(),
            ApiError::Conflict(m) => m.clone(),
            ApiError::Internal(_) => "internal server error".to_owned(),
        }
    }

    /// The 400 for a request body that is not the JSON expected, with the
    /// parser's own description of the problem.
    pub fn invalid_json_body(detail: &str) -> (r: ApiError)
        ensures
            r matches ApiError::Validation(m) && m@ == "invalid JSON body: "@ + detail@,
    {
        let mut m = "invalid JSON body: ".to_owned();
        m.append(detail);
        ApiError::Validation(m)
    }

    /// The error as text, e.g. `not found: user 3`.
    pub fn to_string(&self) -> (r: String)
        ensures
            r@ == self.display_text(),
    {
        let (prefix, m) = match self {
            ApiError::NotFound(m) => ("not found: ", m),
            ApiError::Validation(m) => ("validation: ", m),
            ApiError::Conflict(m) => ("conflict: ", m),
            ApiError::Internal(m) => ("internal: ", m),
        };
        let mut s = prefix.to_owned();
        s.append(m.as_str());
        s
    }
}

/// `needle` occurs as a contiguous run of `hay`.
pub open spec fn contains_run(hay: Seq<u8>, needle: Seq<u8>) -> bool {
    exists|i: int| 0 <= i <= hay.len() - needle.len() && #[trigger] hay.subrange(i, i + needle.len()) == needle
}

/// Whether `needle` occurs in `hay`, compared on their UTF-8 bytes.
pub fn text_contains(hay: &str, needle: &str) -> (r: bool)
    ensures
        r == contains_run(utf8_of(hay@), utf8_of(needle@)),
{
    let h = hay.as_bytes();
    let n = needle.as_bytes();
    if n.len() == 0 {
        assert(h@.subrange(0int, 0int + n@.len()) =~= n@);
        return true;
    }
    if n.len() > h.len() {
        return false;
    }
    let mut i: usize = 0;
    let last: usize = h.len() - n.len();
    while i <= last
        invariant
            h@ == utf8_of(hay@),
            n@ == utf8_of(needle@),
            n.len() >= 1,
            last == h.len() - n.len(),
            i <= last + 1,
            forall|j: int| 0 <= j < i ==> #[trigger] h@.subrange(j, j + n@.len()) != n@,
        decreases h.len() - i,
    {
        if same_bytes(slice_subrange(h, i, i + n.len()), n) {
            return true;
        }
        i = i + 1;
    }
    false
}

/// The message given for a SQL failure that leaves the shared connection
/// inside an open transaction.
pub open spec fn stuck_connection_message(sql_message: Seq<char>) -> Seq<char> {
    "database connection is stuck after a failed insert (known akgine issue, process restart required) - "@
        + sql_message
}

/// How a database failure is reported: a missing row is `NotFound`, a
/// validation failure keeps its message, a SQL failure about a nested
/// transaction gets a clearly labelled internal message, and anything else
/// is internal with the failure's own text.
pub open spec fn api_error_of(e: DbError) -> (Seq<char>, u16) {
    match e {
        DbError::NotFound => ("record not found"@, 404),
        DbError::Validation(m) => (m@, 400),
        DbError::Sql { message, display } => if contains_run(
            utf8_of(message@),
            utf8_of("transaction within a transaction"@),
        ) {
            (stuck_connection_message(message@), 500)
        } else {
            (display@, 500)
        },
        DbError::Other(d) => (d@, 500),
    }
}

impl ApiError {
    /// The message carried by the error, whatever its kind.
    pub open spec fn message(&self) -> Seq<char> {
        match self {
            ApiError::NotFound(m) => m@,
            ApiError::Validation(m) => m@,
            ApiError::Conflict(m) => m@,
            ApiError::Internal(m) => m@,
        }
    }
}

/// The conversion is stated by the `ensures` of `from` below: the result
/// holds a `String`, which spec code cannot build, so no `from_spec` value
/// describes it.
impl vstd::std_specs::convert::FromSpecImpl<DbError> for ApiError {
    open spec fn obeys_from_spec() -> bool {
        false
    }

    open spec fn from_spec(e: DbError) -> ApiError {
        arbitrary()
    }
}

/// Translates a database failure into an `ApiError`.
impl From<DbError> for ApiError {
    fn from(e: DbError) -> (r: ApiError)
        ensures
            (r.message(), r.status_of()) == api_error_of(e),
    {
        match e {
            DbError::NotFound => ApiError::NotFound("record not found".to_owned()),
            DbError::Validation(msg) => ApiError::Validation(msg),
            DbError::Sql { message, display } => {
                if text_contains(message.as_str(), "transaction within a transaction") {
                    let mut m = "database connection is stuck after a failed insert (known akgine issue, process restart required) - ".to_owned();
                    m.append(message.as_str());
                    ApiError::Internal(m)
                } else {
                    ApiError::Internal(display)
                }
            },
            DbError::Other(display) => ApiError::Internal(display),
        }
    }
}

} // verus!
