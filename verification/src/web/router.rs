//! A tiny hand-rolled router: no macros, no external routing crate. Routes
//! are tried in the order they were added; the first whose method and
//! segments match the request handles it, with the `:name` segments bound.
use crate::text::{fields, parse_i64, parsed_i64, same_bytes, split_fields, string_from_utf8_lossy, utf8_of};
use crate::web::error::ApiError;
use crate::web::request::{text_values, Method, ParsedRequest};
use crate::web::json::error_body;
use crate::web::response::{answered, resolve_logged, HttpResponse};
use vstd::hash_map::StringHashMap;
use vstd::prelude::*;
use vstd::slice::slice_subrange;
use vstd::slice::slice_to_vec;
use vstd::utf8::{decode_utf8, encode_utf8_valid_utf8, valid_utf8};

verus! {

/// Path parameters bound by a route, keyed by parameter name.
pub type PathParams = StringHashMap<String>;

/// Something that answers a request routed to it.
trait Handler<T>: Send + Sync {
    /// `handle` may be called with these arguments.
    spec fn accepts(&self, state: &T, req: &ParsedRequest, params: &PathParams) -> bool;

    /// `r` is a result that `handle` may give for these arguments.
    spec fn answers(
        &self,
        state: &T,
        req: &ParsedRequest,
        params: &PathParams,
        r: Result<HttpResponse, ApiError>,
    ) -> bool;

    fn handle(&self, state: &T, req: &ParsedRequest, params: &PathParams) -> (r: Result<
        HttpResponse,
        ApiError,
    >)
        requires
            self.accepts(state, req, params),
        ensures
            self.answers(state, req, params, r),
    ;
}

/// A closure as a handler: it accepts and answers what the closure does.
struct FnHandler<F> {
    f: F,
}

impl<
    T,
    F: Fn(&T, &ParsedRequest, &PathParams) -> Result<HttpResponse, ApiError> + Send + Sync,
> Handler<T> for FnHandler<F> {
    closed spec fn accepts(&self, state: &T, req: &ParsedRequest, params: &PathParams) -> bool {
        call_requires(self.f, (state, req, params))
    }

    closed spec fn answers(
        &self,
        state: &T,
        req: &ParsedRequest,
        params: &PathParams,
        r: Result<HttpResponse, ApiError>,
    ) -> bool {
        call_ensures(self.f, (state, req, params), r)
    }

    fn handle(&self, state: &T, req: &ParsedRequest, params: &PathParams) -> (r: Result<
        HttpResponse,
        ApiError,
    >) {
        (self.f)(state, req, params)
    }
}

/// A handler of any type, boxed; it accepts and answers what the handler
/// inside it does.
#[verifier::reject_recursive_types(T)]
struct BoxedHandler<T>(Box<dyn Handler<T>>);

impl<T> BoxedHandler<T> {
    spec fn accepts(&self, state: &T, req: &ParsedRequest, params: &PathParams) -> bool {
        self.0.accepts(state, req, params)
    }

    spec fn answers(
        &self,
        state: &T,
        req: &ParsedRequest,
        params: &PathParams,
        r: Result<HttpResponse, ApiError>,
    ) -> bool {
        self.0.answers(state, req, params, r)
    }

    /// A closure, boxed as a handler.
    fn from_closure<F>(f: F) -> (r: Self) where
        F: Fn(&T, &ParsedRequest, &PathParams) -> Result<HttpResponse, ApiError>
            + Send
            + Sync
            + 'static,

        ensures
            forall|s: &T, q: &ParsedRequest, p: &PathParams|
                #[trigger] r.accepts(s, q, p) == call_requires(f, (s, q, p)),
            forall|s: &T, q: &ParsedRequest, p: &PathParams, res: Result<HttpResponse, ApiError>|
                #[trigger] r.answers(s, q, p, res) == call_ensures(f, (s, q, p), res),
    {
        BoxedHandler(Box::new(FnHandler { f }))
    }

    fn handle(&self, state: &T, req: &ParsedRequest, params: &PathParams) -> (r: Result<
        HttpResponse,
        ApiError,
    >)
        requires
            self.accepts(state, req, params),
        ensures
            self.answers(state, req, params, r),
    {
        self.0.handle(state, req, params)
    }
}

/// One segment of a route pattern, as the router reads it.
pub enum PatternPart {
    /// Matches exactly these bytes.
    Literal(Seq<u8>),
    /// Matches any segment and binds it under this name.
    Param(Seq<char>),
}

/// A route as the router reads it: its method and pattern segments.
pub struct RouteSpec {
    pub method: Method,
    pub parts: Seq<PatternPart>,
}

/// A pattern segment: `:name` is a parameter, anything else a literal.
pub open spec fn pattern_part(p: Seq<u8>) -> PatternPart {
    if p.len() > 0 && p[0] == 0x3a {
        PatternPart::Param(decode_utf8(p.drop_first()))
    } else {
        PatternPart::Literal(p)
    }
}

/// The segments of a pattern such as `/conversations/:id/messages`: its
/// non-empty pieces between slashes.
pub open spec fn pattern_parts(pattern: Seq<u8>) -> Seq<PatternPart> {
    fields(pattern, 0x2f).map_values(|p: Seq<u8>| pattern_part(p))
}

/// The segments of a request path: its non-empty pieces between slashes.
pub open spec fn path_segments(path: Seq<char>) -> Seq<Seq<u8>> {
    fields(utf8_of(path), 0x2f)
}

/// Every literal of the pattern equals the segment in its place, and there
/// are as many segments as pattern parts.
pub open spec fn parts_match(parts: Seq<PatternPart>, segs: Seq<Seq<u8>>) -> bool {
    &&& parts.len() == segs.len()
    &&& forall|i: int|
        0 <= i < parts.len() ==> match #[trigger] parts[i] {
            PatternPart::Literal(l) => l == segs[i],
            PatternPart::Param(_) => true,
        }
}

/// The route accepts a request with this method and these path segments.
pub open spec fn route_matches(r: RouteSpec, method: Method, segs: Seq<Seq<u8>>) -> bool {
    r.method == method && parts_match(r.parts, segs)
}

/// The parameters a matching pattern binds: each `:name` to the decoded
/// segment in its place, a later binding of a name replacing an earlier one.
pub open spec fn bound_params(parts: Seq<PatternPart>, segs: Seq<Seq<u8>>) -> Map<
    Seq<char>,
    Seq<char>,
>
    decreases parts.len(),
{
    if parts.len() == 0 {
        Map::empty()
    } else {
        let prev = bound_params(parts.drop_last(), segs.drop_last());
        match parts.last() {
            PatternPart::Param(name) => prev.insert(name, decode_utf8(segs.last())),
            PatternPart::Literal(_) => prev,
        }
    }
}

/// The position of the first route, in the order they were added, that
/// accepts a request with this method and these path segments.
pub open spec fn first_match(routes: Seq<RouteSpec>, method: Method, segs: Seq<Seq<u8>>) -> Option<
    int,
>
    decreases routes.len(),
{
    if routes.len() == 0 {
        None
    } else {
        match first_match(routes.drop_last(), method, segs) {
            Some(i) => Some(i),
            None => if route_matches(routes.last(), method, segs) {
                Some(routes.len() - 1)
            } else {
                None
            },
        }
    }
}

/// `first_match` finds a matching route with no matching route before it,
/// and `None` means that no route matches.
pub proof fn lemma_first_match(routes: Seq<RouteSpec>, method: Method, segs: Seq<Seq<u8>>)
    ensures
        match first_match(routes, method, segs) {
            Some(i) => {
                &&& 0 <= i < routes.len()
                &&& route_matches(routes[i], method, segs)
                &&& forall|j: int| 0 <= j < i ==> !route_matches(#[trigger] routes[j], method, segs)
            },
            None => forall|j: int|
                0 <= j < routes.len() ==> !route_matches(#[trigger] routes[j], method, segs),
        },
    decreases routes.len(),
{
    if routes.len() > 0 {
        let p = routes.drop_last();
        lemma_first_match(p, method, segs);
        assert(forall|j: int| 0 <= j < p.len() ==> p[j] == routes[j]);
        assert(routes.last() == routes[routes.len() - 1]);
    }
}

enum Segment {
    Literal(Vec<u8>),
    Param(String),
}

impl Segment {
    spec fn part(self) -> PatternPart {
        match self {
            Segment::Literal(l) => PatternPart::Literal(l@),
            Segment::Param(n) => PatternPart::Param(n@),
        }
    }
}

struct Route {
    method: Method,
    segments: Vec<Segment>,
}

impl Route {
    spec fn spec(self) -> RouteSpec {
        RouteSpec { method: self.method, parts: self.segments@.map_values(|s: Segment| s.part()) }
    }
}

/// Routes, each with the handler that answers the requests it is the first
/// to accept.
#[verifier::reject_recursive_types(T)]
pub struct Router<T> {
    routes: Vec<Route>,
    /// `handlers[i]` answers the requests that `routes[i]` accepts; `add`
    /// pushes to both.
    handlers: Vec<BoxedHandler<T>>,
}

impl<T> View for Router<T> {
    type V = Seq<RouteSpec>;

    closed spec fn view(&self) -> Seq<RouteSpec> {
        self.routes@.map_values(|r: Route| r.spec())
    }
}

impl<T> Router<T> {
    /// One handler per route, and each accepts every request.
    #[verifier::type_invariant]
    spec fn well_formed(self) -> bool {
        &&& self.handlers@.len() == self.routes@.len()
        &&& forall|i: int, s: &T, q: &ParsedRequest, p: &PathParams|
            0 <= i < self.handlers@.len() ==> #[trigger] self.handlers@[i].accepts(s, q, p)
    }

    /// `r` is a result that the handler of route `i` may give when called
    /// with these arguments.
    pub closed spec fn handler_answers(
        &self,
        i: int,
        state: &T,
        req: &ParsedRequest,
        params: &PathParams,
        r: Result<HttpResponse, ApiError>,
    ) -> bool {
        self.handlers@[i].answers(state, req, params, r)
    }

    /// What answering `req` may give: when no route accepts it, 404
    /// `{"error":"not found"}` and no log line; otherwise what the first
    /// route that accepts it has its handler give, called with the
    /// parameters that route binds, as `resolve` turns it into a response
    /// and a log line.
    pub open spec fn dispatch_outcome(
        &self,
        state: &T,
        req: &ParsedRequest,
        resp: HttpResponse,
        log: Option<String>,
    ) -> bool {
        let segs = path_segments(req.path@);
        match first_match(self@, req.method, segs) {
            None => resp.status == 404 && resp.body@ == error_body("not found"@) && log is None,
            Some(i) => exists|p: PathParams, res: Result<HttpResponse, ApiError>|
                {
                    &&& text_values(p@) == bound_params(self@[i].parts, segs)
                    &&& #[trigger] self.handler_answers(i, state, req, &p, res)
                    &&& answered(res, resp, log)
                },
        }
    }
}

impl<T> Default for Router<T> {
    fn default() -> (r: Self)
        ensures
            r@ == Seq::<RouteSpec>::empty(),
    {
        Self::new()
    }
}

/// Parses a pattern into segments.
fn pattern_segments(pattern: &str) -> (r: Vec<Segment>)
    ensures
        r@.map_values(|s: Segment| s.part()) == pattern_parts(utf8_of(pattern@)),
{
    let bytes = pattern.as_bytes();
    proof {
        encode_utf8_valid_utf8(pattern@);
    }
    let pieces = split_fields(bytes, 0x2f);
    let ghost parts = pattern_parts(utf8_of(pattern@));
    let mut out: Vec<Segment> = Vec::new();
    let mut k: usize = 0;
    while k < pieces.len()
        invariant
            k <= pieces@.len(),
            pieces@.len() == fields(bytes@, 0x2f).len(),
            forall|j: int| 0 <= j < pieces@.len() ==> #[trigger] pieces@[j]@ == fields(bytes@, 0x2f)[j],
            forall|j: int| 0 <= j < pieces@.len() ==> valid_utf8(#[trigger] pieces@[j]@),
            bytes@ == utf8_of(pattern@),
            parts == pattern_parts(utf8_of(pattern@)),
            out@.len() == k,
            forall|j: int| 0 <= j < k ==> #[trigger] out@[j].part() == parts[j],
        decreases pieces@.len() - k,
    {
        let piece = pieces[k].as_slice();
        assert(parts[k as int] == pattern_part(piece@));
        if piece.len() > 0 && piece[0] == 0x3a {
            let name_bytes = slice_subrange(piece, 1, piece.len());
            proof {
                crate::text::lemma_ascii_cut_valid(piece@, 1, piece@.len() as int);
                assert(name_bytes@ == piece@.drop_first());
            }
            out.push(Segment::Param(string_from_utf8_lossy(name_bytes)));
        } else {
            out.push(Segment::Literal(slice_to_vec(piece)));
        }
        k = k + 1;
    }
    assert(out@.map_values(|s: Segment| s.part()) =~= parts);
    out
}

impl<T> Router<T> {
    pub fn new() -> (r: Self)
        ensures
            r@ == Seq::<RouteSpec>::empty(),
    {
        let r = Self { routes: Vec::new(), handlers: Vec::new() };
        assert(r@ =~= Seq::<RouteSpec>::empty());
        r
    }

    /// Register a route. `pattern` looks like `/conversations/:id/messages`.
    /// The route comes after those already added, and `handler` answers the
    /// requests it is the first to accept.
    pub fn add<F>(&mut self, method: Method, pattern: &str, handler: F) where
        F: Fn(&T, &ParsedRequest, &PathParams) -> Result<HttpResponse, ApiError>
            + Send
            + Sync
            + 'static,

        requires
            forall|s: &T, r: &ParsedRequest, p: &PathParams| call_requires(handler, (s, r, p)),
        ensures
            final(self)@ == old(self)@.push(
                RouteSpec { method, parts: pattern_parts(utf8_of(pattern@)) },
            ),
            forall|s: &T, q: &ParsedRequest, p: &PathParams, res: Result<HttpResponse, ApiError>|
                #[trigger] final(self).handler_answers(old(self)@.len() as int, s, q, p, res)
                    == call_ensures(handler, (s, q, p), res),
            forall|
                i: int,
                s: &T,
                q: &ParsedRequest,
                p: &PathParams,
                res: Result<HttpResponse, ApiError>,
            |
                0 <= i < old(self)@.len() ==> #[trigger] final(self).handler_answers(
                    i,
                    s,
                    q,
                    p,
                    res,
                ) == old(self).handler_answers(i, s, q, p, res),
    {
        let segments = pattern_segments(pattern);
        let h = BoxedHandler::from_closure(handler);
        let route = Route { method, segments };
        let ghost added = route.spec();
        assert(added == RouteSpec { method, parts: pattern_parts(utf8_of(pattern@)) });
        let mut this: Router<T> = Router::new();
        core::mem::swap(&mut this, self);
        proof {
            use_type_invariant(&this);
        }
        let ghost before = this;
        let Router { mut routes, mut handlers } = this;
        let ghost old_routes = routes@;
        let ghost old_handlers = handlers@;
        routes.push(route);
        handlers.push(h);
        assert(routes@.len() == old_routes.len() + 1);
        assert(routes@[old_routes.len() as int].spec() == added);
        assert(forall|j: int| 0 <= j < old_routes.len() ==> routes@[j] == old_routes[j]);
        assert(forall|j: int| 0 <= j < old_handlers.len() ==> handlers@[j] == old_handlers[j]);
        *self = Router { routes, handlers };
        assert(self@ =~= before@.push(added));
    }

    /// The first route, in the order they were added, that accepts a request
    /// with this method and path, with the parameters it binds; `None` when
    /// no route accepts it.
    pub fn route(&self, method: Method, path: &str) -> (r: Option<(usize, PathParams)>)
        ensures
            match r {
                Some((i, params)) => {
                    &&& i < self@.len()
                    &&& route_matches(self@[i as int], method, path_segments(path@))
                    &&& forall|j: int|
                        0 <= j < i ==> !route_matches(
                            #[trigger] self@[j],
                            method,
                            path_segments(path@),
                        )
                    &&& text_values(params@) == bound_params(
                        self@[i as int].parts,
                        path_segments(path@),
                    )
                },
                None => forall|j: int|
                    0 <= j < self@.len() ==> !route_matches(
                        #[trigger] self@[j],
                        method,
                        path_segments(path@),
                    ),
            },
    {
        let bytes = path.as_bytes();
        proof {
            encode_utf8_valid_utf8(path@);
        }
        let segs = split_fields(bytes, 0x2f);
        let ghost want = path_segments(path@);
        assert(segs@.map_values(|v: Vec<u8>| v@) =~= want);
        let mut i: usize = 0;
        while i < self.routes.len()
            invariant
                i <= self@.len(),
                self@.len() == self.routes@.len(),
                want == path_segments(path@),
                segs@.len() == want.len(),
                forall|j: int| 0 <= j < segs@.len() ==> #[trigger] segs@[j]@ == want[j],
                forall|j: int| 0 <= j < segs@.len() ==> valid_utf8(#[trigger] segs@[j]@),
                forall|j: int| 0 <= j < i ==> !route_matches(#[trigger] self@[j], method, want),
            decreases self.routes@.len() - i,
        {
            let route = &self.routes[i];
            let ghost rs = self@[i as int];
            assert(rs == route.spec());
            if route.method == method && route.segments.len() == segs.len() {
                let mut params: PathParams = StringHashMap::new();
                let mut matched = true;
                let mut k: usize = 0;
                let n: usize = route.segments.len();
                assert(text_values(params@) =~= bound_params(rs.parts.take(0), want.take(0)));
                while k < n && matched
                    invariant
                        n == route.segments@.len(),
                        n == segs@.len(),
                        k <= n,
                        rs == route.spec(),
                        segs@.len() == want.len(),
                        forall|j: int| 0 <= j < segs@.len() ==> #[trigger] segs@[j]@ == want[j],
                        forall|j: int| 0 <= j < segs@.len() ==> valid_utf8(#[trigger] segs@[j]@),
                        matched <==> forall|l: int|
                            0 <= l < k ==> match #[trigger] rs.parts[l] {
                                PatternPart::Literal(lit) => lit == want[l],
                                PatternPart::Param(_) => true,
                            },
                        matched ==> text_values(params@) == bound_params(
                            rs.parts.take(k as int),
                            want.take(k as int),
                        ),
                    decreases n - k,
                {
                    assert(rs.parts[k as int] == route.segments@[k as int].part());
                    assert(rs.parts.take(k + 1).drop_last() == rs.parts.take(k as int));
                    assert(want.take(k + 1).drop_last() == want.take(k as int));
                    assert(rs.parts.take(k + 1).last() == rs.parts[k as int]);
                    assert(want.take(k + 1).last() == want[k as int]);
                    match &route.segments[k] {
                        Segment::Literal(lit) => {
                            if !same_bytes(lit.as_slice(), segs[k].as_slice()) {
                                matched = false;
                            }
                        },
                        Segment::Param(name) => {
                            let value = string_from_utf8_lossy(segs[k].as_slice());
                            proof {
                                let old_params = params@;
                                assert(text_values(old_params.insert(name@, value)) =~= text_values(
                                    old_params,
                                ).insert(name@, value@));
                            }
                            params.insert(name.clone(), value);
                        },
                    }
                    k = k + 1;
                }
                if matched {
                    assert(rs.parts.take(n as int) == rs.parts);
                    assert(want.take(n as int) == want);
                    return Some((i, params));
                }
            }
            i = i + 1;
        }
        None
    }

    /// Answers a request, with the line to log server-side: the first
    /// matching route's handler is called with the bound path parameters
    /// and its result resolved into a response; when no route matches, the
    /// answer is 404 `{"error":"not found"}`.
    pub fn dispatch_logged(&self, state: &T, req: &ParsedRequest) -> (r: (
        HttpResponse,
        Option<String>,
    ))
        ensures
            self.dispatch_outcome(state, req, r.0, r.1),
    {
        proof {
            use_type_invariant(self);
            lemma_first_match(self@, req.method, path_segments(req.path@));
        }
        match self.route(req.method, req.path.as_str()) {
            Some((i, params)) => {
                let res = self.handlers[i].handle(state, req, &params);
                assert(self.handler_answers(i as int, state, req, &params, res));
                resolve_logged(res)
            },
            None => (HttpResponse::not_found(), None),
        }
    }

    /// Answers a request: the first matching route's handler is called with
    /// the bound path parameters and its result resolved into a response;
    /// when no route matches, the answer is 404 `{"error":"not found"}`.
    pub fn dispatch(&self, state: &T, req: &ParsedRequest) -> (r: HttpResponse)
        ensures
            exists|log: Option<String>| #[trigger] self.dispatch_outcome(state, req, r, log),
    {
        let (resp, log) = self.dispatch_logged(state, req);
        assert(self.dispatch_outcome(state, req, resp, log));
        resp
    }
}

/// The text of a path-parameter error for `name`.
pub open spec fn param_error_text(name: Seq<char>) -> Seq<char> {
    "path parameter '"@ + name + "' must be an integer"@
}

/// Parse a `:id`-style path param as `i64`, or fail with a clean 400.
pub fn param_i64(params: &PathParams, name: &str) -> (r: Result<i64, ApiError>)
    ensures
        match r {
            Ok(v) => params@.contains_key(name@) && parsed_i64(utf8_of(params@[name@]@)) == Some(v),
            Err(e) => {
                &&& params@.contains_key(name@) ==> parsed_i64(utf8_of(params@[name@]@)) is None
                &&& e matches ApiError::Validation(m) && m@ == param_error_text(name@)
            },
        },
        params@.contains_key(name@) && parsed_i64(utf8_of(params@[name@]@)) is Some ==> r is Ok,
{
    let parsed = match params.get(name) {
        Some(v) => parse_i64(v.as_str()),
        None => None,
    };
    match parsed {
        Some(v) => Ok(v),
        None => {
            let mut m = "path parameter '".to_owned();
            m.append(name);
            m.append("' must be an integer");
            Err(ApiError::Validation(m))
        },
    }
}

} // verus!
