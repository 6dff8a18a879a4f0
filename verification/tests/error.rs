use akgine::web::error::{ApiError, DbError};
use akgine::web::response::{resolve, HttpResponse, resolve_logged};

#[test]
fn status_codes() {
    assert_eq!(ApiError::NotFound("x".into()).status_code(), 404);
    assert_eq!(ApiError::Validation("x".into()).status_code(), 400);
    assert_eq!(ApiError::Conflict("x".into()).status_code(), 409);
    assert_eq!(ApiError::Internal("x".into()).status_code(), 500);
}

#[test]
fn public_message_redacts_internal_errors() {
    assert_eq!(ApiError::NotFound("no user 3".into()).public_message(), "no user 3");
    assert_eq!(ApiError::Validation("bad".into()).public_message(), "bad");
    assert_eq!(ApiError::Conflict("taken".into()).public_message(), "taken");
    assert_eq!(
        ApiError::Internal("disk on fire".into()).public_message(),
        "internal server error"
    );
}

#[test]
fn display_text() {
    assert_eq!(ApiError::NotFound("a".into()).to_string(), "not found: a");
    assert_eq!(ApiError::Validation("b".into()).to_string(), "validation: b");
    assert_eq!(ApiError::Conflict("c".into()).to_string(), "conflict: c");
    assert_eq!(ApiError::Internal("d".into()).to_string(), "internal: d");
}

#[test]
fn db_errors_translate() {
    match ApiError::from(DbError::NotFound) {
        ApiError::NotFound(m) => assert_eq!(m, "record not found"),
        other => panic!("{other:?}"),
    }
    match ApiError::from(DbError::Validation("name is empty".into())) {
        ApiError::Validation(m) => assert_eq!(m, "name is empty"),
        other => panic!("{other:?}"),
    }
    match ApiError::from(DbError::Other("io failure".into())) {
        ApiError::Internal(m) => assert_eq!(m, "io failure"),
        other => panic!("{other:?}"),
    }
}

#[test]
fn sql_error_about_nested_transaction_is_labelled() {
    let e = DbError::Sql {
        message: "cannot start a transaction within a transaction".into(),
        display: "sql: cannot start a transaction within a transaction".into(),
    };
    match ApiError::from(e) {
        ApiError::Internal(m) => assert_eq!(
            m,
            "database connection is stuck after a failed insert (known akgine issue, process restart required) - cannot start a transaction within a transaction"
        ),
        other => panic!("{other:?}"),
    }
}

#[test]
fn other_sql_errors_keep_their_display() {
    let e = DbError::Sql {
        message: "UNIQUE constraint failed".into(),
        display: "sql error: UNIQUE constraint failed".into(),
    };
    match ApiError::from(e) {
        ApiError::Internal(m) => assert_eq!(m, "sql error: UNIQUE constraint failed"),
        other => panic!("{other:?}"),
    }
}

#[test]
fn error_response_body() {
    let r = HttpResponse::from(&ApiError::Validation("bad \"name\"".into()));
    assert_eq!(r.status, 400);
    assert_eq!(String::from_utf8(r.body).unwrap(), r#"{"error":"bad \"name\""}"#);
}

#[test]
fn internal_error_response_is_redacted() {
    let r = HttpResponse::from(&ApiError::Internal("secret detail".into()));
    assert_eq!(r.status, 500);
    assert_eq!(String::from_utf8(r.body).unwrap(), r#"{"error":"internal server error"}"#);
}

#[test]
fn internal_errors_answer_alike() {
    let a = resolve(Err(ApiError::Internal("one".into())));
    let b = resolve(Err(ApiError::Internal("two".into())));
    assert_eq!(a.status, b.status);
    assert_eq!(a.body, b.body);
}

#[test]
fn not_found_response() {
    let r = HttpResponse::not_found();
    assert_eq!(r.status, 404);
    assert_eq!(String::from_utf8(r.body).unwrap(), r#"{"error":"not found"}"#);
}

#[test]
fn status_only_has_empty_body() {
    let r = HttpResponse::status_only(204);
    assert_eq!(r.status, 204);
    assert!(r.body.is_empty());
}

#[test]
fn resolve_passes_success_through() {
    let r = resolve(Ok(HttpResponse { status: 201, body: b"{}".to_vec() }));
    assert_eq!(r.status, 201);
    assert_eq!(r.body, b"{}".to_vec());
}

#[test]
fn resolve_turns_errors_into_responses() {
    let r = resolve(Err(ApiError::Conflict("duplicate username".into())));
    assert_eq!(r.status, 409);
    assert_eq!(String::from_utf8(r.body).unwrap(), r#"{"error":"duplicate username"}"#);
}

#[test]
fn error_body_escapes_quotes_backslashes_and_control_bytes() {
    let e = ApiError::Validation("a\"b\\c\nd\u{1}é".to_string());
    let r = HttpResponse::from(&e);
    assert_eq!(
        String::from_utf8(r.body).unwrap(),
        "{\"error\":\"a\\\"b\\\\c\\nd\\u0001é\"}"
    );
}

#[test]
fn invalid_json_body_is_a_validation_error() {
    match ApiError::invalid_json_body("EOF while parsing a value at line 1 column 0") {
        ApiError::Validation(m) => {
            assert_eq!(m, "invalid JSON body: EOF while parsing a value at line 1 column 0")
        }
        other => panic!("{other:?}"),
    }
}

#[test]
fn json_body_falls_back_to_empty_object() {
    let r = HttpResponse::with_json_body(200, None);
    assert_eq!((r.status, r.body), (200, b"{}".to_vec()));
    let r = HttpResponse::with_json_body(201, Some(b"[1]".to_vec()));
    assert_eq!((r.status, r.body), (201, b"[1]".to_vec()));
}

#[test]
fn resolve_logged_logs_internal_errors_only() {
    let (r, log) = resolve_logged(Err(ApiError::Internal("db down".into())));
    assert_eq!(r.status, 500);
    assert_eq!(log.as_deref(), Some("internal error: internal: db down"));
    let (r, log) = resolve_logged(Err(ApiError::Conflict("dup".into())));
    assert_eq!(r.status, 409);
    assert_eq!(log, None);
    let (r, log) = resolve_logged(Ok(HttpResponse::status_only(204)));
    assert_eq!(r.status, 204);
    assert_eq!(log, None);
}

#[test]
fn error_body_uses_short_escapes_where_json_has_them() {
    let e = ApiError::NotFound("\u{8}\t\u{c}\r\u{1f} /".to_string());
    let r = HttpResponse::from(&e);
    assert_eq!(
        String::from_utf8(r.body).unwrap(),
        "{\"error\":\"\\b\\t\\f\\r\\u001f /\"}"
    );
}
