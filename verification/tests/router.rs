use akgine::web::error::ApiError;
use akgine::web::request::{Method, ParsedRequest, QueryParams};
use akgine::web::response::HttpResponse;
use akgine::web::router::{param_i64, PathParams, Router};

fn request(method: Method, target: &str) -> ParsedRequest {
    ParsedRequest::from_parts(method, target, Vec::new())
}

fn text(r: HttpResponse) -> (u16, String) {
    (r.status, String::from_utf8(r.body).unwrap())
}

fn echo_router() -> Router<String> {
    let mut router: Router<String> = Router::new();
    router.add(Method::Get, "/health", |state: &String, _req: &ParsedRequest, _p: &PathParams| {
        Ok(HttpResponse { status: 200, body: state.as_bytes().to_vec() })
    });
    router.add(Method::Get, "/conversations/:id/messages", |_s: &String, _r: &ParsedRequest, p: &PathParams| {
        let id = param_i64(p, "id")?;
        Ok(HttpResponse { status: 200, body: format!("messages of {id}").into_bytes() })
    });
    router.add(Method::Post, "/conversations/:id/messages", |_s: &String, _r: &ParsedRequest, p: &PathParams| {
        Ok(HttpResponse { status: 201, body: p.get("id").unwrap().clone().into_bytes() })
    });
    router.add(Method::Get, "/users/me", |_s: &String, _r: &ParsedRequest, _p: &PathParams| {
        Ok(HttpResponse::status_only(204))
    });
    router.add(Method::Get, "/users/:name", |_s: &String, _r: &ParsedRequest, p: &PathParams| {
        Ok(HttpResponse { status: 200, body: p.get("name").unwrap().clone().into_bytes() })
    });
    router.add(Method::Delete, "/users/:name", |_s: &String, _r: &ParsedRequest, _p: &PathParams| {
        Err(ApiError::Conflict("user is still referenced".into()))
    });
    router
}

#[test]
fn literal_route_is_dispatched() {
    let router = echo_router();
    let r = router.dispatch(&"ok".to_string(), &request(Method::Get, "/health"));
    assert_eq!(text(r), (200, "ok".to_string()));
}

#[test]
fn trailing_and_repeated_slashes_do_not_matter() {
    let router = echo_router();
    let state = "ok".to_string();
    assert_eq!(text(router.dispatch(&state, &request(Method::Get, "/health/"))).0, 200);
    assert_eq!(text(router.dispatch(&state, &request(Method::Get, "//health"))).0, 200);
}

#[test]
fn path_parameter_is_bound() {
    let router = echo_router();
    let r = router.dispatch(&String::new(), &request(Method::Get, "/conversations/42/messages"));
    assert_eq!(text(r), (200, "messages of 42".to_string()));
}

#[test]
fn path_parameter_is_decoded() {
    let router = echo_router();
    let r = router.dispatch(&String::new(), &request(Method::Get, "/users/J%C3%BCrgen"));
    assert_eq!(text(r), (200, "Jürgen".to_string()));
}

#[test]
fn bad_integer_parameter_is_a_400() {
    let router = echo_router();
    let r = router.dispatch(&String::new(), &request(Method::Get, "/conversations/abc/messages"));
    assert_eq!(
        text(r),
        (400, r#"{"error":"path parameter 'id' must be an integer"}"#.to_string())
    );
}

#[test]
fn method_selects_the_route() {
    let router = echo_router();
    let r = router.dispatch(&String::new(), &request(Method::Post, "/conversations/7/messages"));
    assert_eq!(text(r), (201, "7".to_string()));
}

#[test]
fn first_matching_route_wins() {
    let router = echo_router();
    let r = router.dispatch(&String::new(), &request(Method::Get, "/users/me"));
    assert_eq!(text(r).0, 204);
    let r = router.dispatch(&String::new(), &request(Method::Get, "/users/bob"));
    assert_eq!(text(r), (200, "bob".to_string()));
}

#[test]
fn handler_error_is_resolved() {
    let router = echo_router();
    let r = router.dispatch(&String::new(), &request(Method::Delete, "/users/bob"));
    assert_eq!(text(r), (409, r#"{"error":"user is still referenced"}"#.to_string()));
}

#[test]
fn unknown_route_is_404() {
    let router = echo_router();
    let state = String::new();
    for (m, t) in [
        (Method::Get, "/nope"),
        (Method::Put, "/health"),
        (Method::Get, "/conversations/1"),
        (Method::Get, "/conversations/1/messages/2"),
        (Method::Other, "/health"),
    ] {
        let r = router.dispatch(&state, &request(m, t));
        assert_eq!(text(r), (404, r#"{"error":"not found"}"#.to_string()));
    }
}

#[test]
fn route_reports_index_and_params() {
    let router = echo_router();
    let (i, params) = router.route(Method::Get, "/users/alice").unwrap();
    assert_eq!(i, 4);
    assert_eq!(params.get("name").map(|s| s.as_str()), Some("alice"));
    assert!(router.route(Method::Patch, "/users/alice").is_none());
}

#[test]
fn repeated_parameter_name_binds_the_last_segment() {
    let mut router: Router<()> = Router::new();
    router.add(Method::Get, "/:x/:x", |_s: &(), _r: &ParsedRequest, _p: &PathParams| {
        Ok(HttpResponse::status_only(200))
    });
    let (_, params) = router.route(Method::Get, "/a/b").unwrap();
    assert_eq!(params.get("x").map(|s| s.as_str()), Some("b"));
}

#[test]
fn empty_router_answers_404() {
    let router: Router<()> = Router::default();
    let r = router.dispatch(&(), &request(Method::Get, "/"));
    assert_eq!(r.status, 404);
}

#[test]
fn root_pattern_matches_root_path() {
    let mut router: Router<()> = Router::new();
    router.add(Method::Get, "/", |_s: &(), _r: &ParsedRequest, _p: &PathParams| {
        Ok(HttpResponse::status_only(200))
    });
    assert_eq!(router.dispatch(&(), &request(Method::Get, "/")).status, 200);
    assert_eq!(router.dispatch(&(), &request(Method::Get, "")).status, 200);
}

#[test]
fn param_i64_cases() {
    let mut params = PathParams::new();
    params.insert("id".to_string(), "-12".to_string());
    params.insert("bad".to_string(), "1e3".to_string());
    assert_eq!(param_i64(&params, "id").unwrap(), -12);
    match param_i64(&params, "bad") {
        Err(ApiError::Validation(m)) => assert_eq!(m, "path parameter 'bad' must be an integer"),
        other => panic!("{other:?}"),
    }
    match param_i64(&params, "missing") {
        Err(ApiError::Validation(m)) => {
            assert_eq!(m, "path parameter 'missing' must be an integer")
        }
        other => panic!("{other:?}"),
    }
    let _ = QueryParams::new();
}

type Calls = std::sync::Arc<std::sync::Mutex<Vec<(&'static str, Vec<(String, String)>)>>>;

fn recorder(calls: &Calls, name: &'static str, status: u16) -> impl Fn(&(), &ParsedRequest, &PathParams) -> Result<HttpResponse, ApiError> + Send + Sync + 'static {
    let calls = calls.clone();
    move |_s: &(), _r: &ParsedRequest, p: &PathParams| {
        let bound: Vec<(String, String)> = ["id", "x"]
            .iter()
            .filter_map(|k| p.get(k).map(|v| (k.to_string(), v.clone())))
            .collect();
        assert_eq!(bound.len(), p.len());
        calls.lock().unwrap().push((name, bound));
        Ok(HttpResponse::status_only(status))
    }
}

fn pairs(items: &[(&str, &str)]) -> Vec<(String, String)> {
    items.iter().map(|(k, v)| (k.to_string(), v.to_string())).collect()
}

#[test]
fn matched_handler_runs_once_with_bound_params() {
    let calls: Calls = Default::default();
    let mut router: Router<()> = Router::new();
    router.add(Method::Get, "/conversations/:id/messages", recorder(&calls, "h", 200));
    let r = router.dispatch(&(), &request(Method::Get, "/conversations/7/messages"));
    assert_eq!(r.status, 200);
    assert!(r.body.is_empty());
    assert_eq!(*calls.lock().unwrap(), vec![("h", pairs(&[("id", "7")]))]);
}

#[test]
fn earlier_literal_route_wins_over_later_param_route() {
    let calls: Calls = Default::default();
    let mut router: Router<()> = Router::new();
    router.add(Method::Get, "/users/me", recorder(&calls, "h1", 200));
    router.add(Method::Get, "/users/:id", recorder(&calls, "h2", 201));
    assert_eq!(router.dispatch(&(), &request(Method::Get, "/users/me")).status, 200);
    assert_eq!(router.dispatch(&(), &request(Method::Get, "/users/5")).status, 201);
    assert_eq!(
        *calls.lock().unwrap(),
        vec![("h1", pairs(&[])), ("h2", pairs(&[("id", "5")]))]
    );
}

#[test]
fn slashes_in_patterns_and_paths_are_ignored() {
    let calls: Calls = Default::default();
    let mut router: Router<()> = Router::new();
    router.add(Method::Get, "//users/:id/", recorder(&calls, "h", 200));
    router.add(Method::Get, "/", recorder(&calls, "h0", 201));
    assert_eq!(router.dispatch(&(), &request(Method::Get, "/users/5")).status, 200);
    assert_eq!(router.dispatch(&(), &request(Method::Get, "/")).status, 201);
    assert_eq!(router.dispatch(&(), &request(Method::Get, "")).status, 201);
    assert_eq!(router.dispatch(&(), &request(Method::Get, "/a//b/")).status, 404);
    let r = router.dispatch(&(), &request(Method::Get, "/users"));
    assert_eq!(text(r), (404, r#"{"error":"not found"}"#.to_string()));
    assert_eq!(
        *calls.lock().unwrap(),
        vec![("h", pairs(&[("id", "5")])), ("h0", pairs(&[])), ("h0", pairs(&[]))]
    );
}

#[test]
fn same_segments_reach_the_same_handler() {
    let calls: Calls = Default::default();
    let mut router: Router<()> = Router::new();
    router.add(Method::Get, "/a/:x", recorder(&calls, "h", 200));
    let r1 = router.dispatch(&(), &request(Method::Get, "/a//b/"));
    let r2 = router.dispatch(&(), &request(Method::Get, "a/b"));
    assert_eq!(text(r1), text(r2));
    assert_eq!(
        *calls.lock().unwrap(),
        vec![("h", pairs(&[("x", "b")])), ("h", pairs(&[("x", "b")]))]
    );
}

#[test]
fn adding_a_route_keeps_earlier_answers() {
    let calls: Calls = Default::default();
    let mut router: Router<()> = Router::new();
    router.add(Method::Get, "/users/:id", recorder(&calls, "g", 200));
    let before = text(router.dispatch(&(), &request(Method::Get, "/users/5")));
    let missing = text(router.dispatch(&(), &request(Method::Get, "/teams/5")));
    router.add(Method::Get, "/users/me", recorder(&calls, "later", 201));
    router.add(Method::Get, "/teams/:id", recorder(&calls, "teams", 202));
    assert_eq!(text(router.dispatch(&(), &request(Method::Get, "/users/5"))), before);
    assert_eq!(text(router.dispatch(&(), &request(Method::Get, "/users/me"))).0, 200);
    assert_eq!(missing.0, 404);
    assert_eq!(text(router.dispatch(&(), &request(Method::Get, "/teams/5"))).0, 202);
    let names: Vec<&str> = calls.lock().unwrap().iter().map(|c| c.0).collect();
    assert_eq!(names, vec!["g", "g", "g", "teams"]);
}

#[test]
fn internal_errors_are_logged_and_redacted() {
    let mut router: Router<()> = Router::new();
    router.add(Method::Get, "/boom", |_s: &(), _r: &ParsedRequest, _p: &PathParams| {
        Err(ApiError::Internal("disk on fire".into()))
    });
    router.add(Method::Get, "/gone", |_s: &(), _r: &ParsedRequest, _p: &PathParams| {
        Err(ApiError::NotFound("no such thing".into()))
    });
    let (r, log) = router.dispatch_logged(&(), &request(Method::Get, "/boom"));
    assert_eq!(text(r), (500, r#"{"error":"internal server error"}"#.to_string()));
    assert_eq!(log.as_deref(), Some("internal error: internal: disk on fire"));
    let (r, log) = router.dispatch_logged(&(), &request(Method::Get, "/gone"));
    assert_eq!(text(r), (404, r#"{"error":"no such thing"}"#.to_string()));
    assert_eq!(log, None);
    let (r, log) = router.dispatch_logged(&(), &request(Method::Get, "/none"));
    assert_eq!(r.status, 404);
    assert_eq!(log, None);
}
