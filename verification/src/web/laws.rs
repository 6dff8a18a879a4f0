//! Properties of request parsing, routing and error responses that hold for
//! every input.
use crate::text::{
    fields, find_byte, lemma_ascii_cut_valid, lemma_fields_join, lemma_encode_ends_in_slash, lemma_find_byte,
    lemma_split_bytes_nonempty, lemma_trim_end_byte, nonempty_piece, split_bytes,
};
use crate::web::error::ApiError;
use crate::text::text_of;
use crate::web::request::{
    query_entries, query_entry, text_values, entries_map, path_bytes, percent_decoded, query_map, request_path, request_query, target_path,
};
use crate::web::json::error_body;
use crate::web::response::answered;
use crate::web::router::{
    bound_params, first_match, lemma_first_match, path_segments, pattern_part, pattern_parts,
    route_matches, PathParams, PatternPart, RouteSpec, Router,
};
use crate::web::request::ParsedRequest;
use crate::web::response::HttpResponse;
use crate::web::request::Method;
use vstd::prelude::*;
use vstd::utf8::{decode_utf8, decode_utf8_encode_utf8, valid_utf8};

verus! {

/// Bytes with no `%` and no `+` are left as they are by percent-decoding.
pub proof fn law_plain_bytes_decode_to_themselves(b: Seq<u8>)
    requires
        forall|i: int| 0 <= i < b.len() ==> b[i] != 0x25 && b[i] != 0x2b,
    ensures
        percent_decoded(b) == b,
    decreases b.len(),
{
    if b.len() > 0 {
        let rest = b.skip(1);
        assert(forall|i: int| 0 <= i < rest.len() ==> rest[i] == b[i + 1]);
        law_plain_bytes_decode_to_themselves(rest);
        assert(seq![b[0]] + rest =~= b);
    }
}

/// The query string of a request target never changes its path, and the
/// target's query parameters are those of the text after the first `?`.
pub proof fn law_query_does_not_affect_path(path: Seq<u8>, query: Seq<u8>)
    requires
        forall|i: int| 0 <= i < path.len() ==> path[i] != 0x3f,
    ensures
        request_path(path + seq![0x3fu8] + query) == request_path(path),
        request_query(path + seq![0x3fu8] + query) == query_map(query),
{
    let t = path + seq![0x3fu8] + query;
    lemma_find_byte(t, 0x3f);
    lemma_find_byte(path, 0x3f);
    assert(t[path.len() as int] == 0x3f);
    assert(forall|j: int| 0 <= j < path.len() ==> t[j] == path[j]);
    match find_byte(t, 0x3f) {
        Some(i) => {
            assert(i == path.len());
        },
        None => {
            assert(false);
        },
    }
    assert(t.take(path.len() as int) =~= path);
    assert(t.skip(path.len() as int + 1) =~= query);
    assert(target_path(path) == path);
}

/// A slash at the end of a path or pattern changes none of its segments.
pub proof fn law_trailing_slash_ignored(b: Seq<u8>)
    ensures
        fields(b.push(0x2f), 0x2f) == fields(b, 0x2f),
{
    let pred = nonempty_piece();
    lemma_split_bytes_nonempty(b, 0x2f);
    assert(b.push(0x2f).drop_last() == b);
    assert(split_bytes(b.push(0x2f), 0x2f) == split_bytes(b, 0x2f).push(Seq::<u8>::empty()));
    split_bytes(b, 0x2f).lemma_filter_push(Seq::<u8>::empty(), pred);
}

/// Slashes between segments count once: a run of two slashes separates
/// segments as one does, and a leading slash adds no segment.
pub proof fn law_slash_runs_separate_once(a: Seq<u8>, b: Seq<u8>)
    ensures
        fields(a.push(0x2f).push(0x2f) + b, 0x2f) == fields(a.push(0x2f) + b, 0x2f),
        fields(seq![0x2fu8] + b, 0x2f) == fields(b, 0x2f),
{
    let pred = nonempty_piece();
    lemma_fields_join(a.push(0x2f), b, 0x2f);
    lemma_fields_join(a, b, 0x2f);
    law_trailing_slash_ignored(a);
    let e = Seq::<u8>::empty();
    lemma_fields_join(e, b, 0x2f);
    assert(e.push(0x2f) + b == seq![0x2fu8] + b);
    assert(split_bytes(e, 0x2f) == Seq::<Seq<u8>>::empty().push(e));
    Seq::<Seq<u8>>::empty().lemma_filter_push(e, pred);
    assert(Seq::<Seq<u8>>::empty().filter(pred) =~= Seq::<Seq<u8>>::empty()) by {
        Seq::<Seq<u8>>::empty().lemma_filter_len(pred);
    }
    assert(fields(e, 0x2f) =~= Seq::<Seq<u8>>::empty());
    assert(fields(e, 0x2f) + fields(b, 0x2f) =~= fields(b, 0x2f));
}

/// A literal pattern segment matches only an equal path segment: a route
/// whose literal differs from the request's segment in its place does not
/// accept the request, whatever its other segments.
pub proof fn law_literal_matches_only_equal_segment(
    r: RouteSpec,
    method: Method,
    segs: Seq<Seq<u8>>,
    i: int,
    lit: Seq<u8>,
)
    requires
        0 <= i < r.parts.len(),
        r.parts[i] == PatternPart::Literal(lit),
        lit != segs[i],
    ensures
        !route_matches(r, method, segs),
{
    if route_matches(r, method, segs) {
        assert(match r.parts[i] {
            PatternPart::Literal(l) => l == segs[i],
            PatternPart::Param(_) => true,
        });
    }
}

/// A route whose pattern has no `:name` segment accepts a request only for
/// the pattern's own segments: any request it accepts has exactly them.
pub proof fn law_literal_route_accepts_only_own_path(
    method: Method,
    pattern: Seq<u8>,
    m: Method,
    segs: Seq<Seq<u8>>,
)
    requires
        forall|i: int|
            0 <= i < fields(pattern, 0x2f).len() ==> (#[trigger] fields(pattern, 0x2f)[i])[0]
                != 0x3a,
        route_matches(RouteSpec { method, parts: pattern_parts(pattern) }, m, segs),
    ensures
        m == method,
        segs == fields(pattern, 0x2f),
{
    let own = fields(pattern, 0x2f);
    let parts = pattern_parts(pattern);
    assert forall|i: int| 0 <= i < segs.len() implies segs[i] == own[i] by {
        assert(parts[i] == pattern_part(own[i]));
        assert(own[i][0] != 0x3a);
        assert(match parts[i] {
            PatternPart::Literal(l) => l == segs[i],
            PatternPart::Param(_) => true,
        });
    }
    assert(segs =~= own);
}

/// A route whose pattern has no `:name` segment accepts a request for the
/// pattern's own path with the route's method.
pub proof fn law_literal_route_accepts_own_path(method: Method, pattern: Seq<u8>)
    requires
        forall|i: int|
            0 <= i < fields(pattern, 0x2f).len() ==> (#[trigger] fields(pattern, 0x2f)[i])[0]
                != 0x3a,
    ensures
        route_matches(
            RouteSpec { method, parts: pattern_parts(pattern) },
            method,
            fields(pattern, 0x2f),
        ),
{
    let segs = fields(pattern, 0x2f);
    let parts = pattern_parts(pattern);
    assert forall|i: int| 0 <= i < parts.len() implies match #[trigger] parts[i] {
        PatternPart::Literal(l) => l == segs[i],
        PatternPart::Param(_) => true,
    } by {
        assert(parts[i] == pattern_part(segs[i]));
        assert(segs[i][0] != 0x3a);
    }
}

/// A `:name` segment of a matched pattern binds `name` to the request's
/// segment in its place, decoded, unless a later segment binds the same name.
pub proof fn law_param_binds_segment(
    parts: Seq<PatternPart>,
    segs: Seq<Seq<u8>>,
    i: int,
    name: Seq<char>,
)
    requires
        parts.len() == segs.len(),
        0 <= i < parts.len(),
        parts[i] == PatternPart::Param(name),
        forall|j: int| i < j < parts.len() ==> parts[j] != PatternPart::Param(name),
    ensures
        bound_params(parts, segs).contains_key(name),
        bound_params(parts, segs)[name] == decode_utf8(segs[i]),
    decreases parts.len(),
{
    let n: int = parts.len() as int;
    if i < n - 1 {
        let p = parts.drop_last();
        let s = segs.drop_last();
        assert(forall|j: int| i < j < p.len() ==> p[j] == parts[j]);
        law_param_binds_segment(p, s, i, name);
        assert(parts.last() == parts[n - 1]);
    } else {
        assert(parts.last() == parts[i]);
        assert(segs.last() == segs[i]);
    }
}

/// Internal errors all answer alike: status 500 and the same body, whatever
/// their message, which never reaches the client.
pub proof fn law_internal_errors_answer_alike(m1: String, m2: String)
    ensures
        ApiError::Internal(m1).status_of() == 500,
        error_body(ApiError::Internal(m1).client_message()) == error_body(
            ApiError::Internal(m2).client_message(),
        ),
{
}

/// Every error kind answers with its own status code.
pub proof fn law_status_tells_error_kind(e1: ApiError, e2: ApiError)
    requires
        e1.status_of() == e2.status_of(),
    ensures
        (e1 is NotFound) == (e2 is NotFound),
        (e1 is Validation) == (e2 is Validation),
        (e1 is Conflict) == (e2 is Conflict),
        (e1 is Internal) == (e2 is Internal),
{
}

/// Percent-decoding bytes with no `%` changes only `+`, into a space.
pub proof fn law_decoding_without_escapes_maps_bytes(b: Seq<u8>)
    requires
        forall|i: int| 0 <= i < b.len() ==> b[i] != 0x25,
    ensures
        percent_decoded(b).len() == b.len(),
        forall|i: int|
            0 <= i < b.len() ==> #[trigger] percent_decoded(b)[i] == if b[i] == 0x2b {
                0x20u8
            } else {
                b[i]
            },
    decreases b.len(),
{
    if b.len() > 0 {
        let rest = b.skip(1);
        assert(forall|i: int| 0 <= i < rest.len() ==> rest[i] == b[i + 1]);
        law_decoding_without_escapes_maps_bytes(rest);
    }
}

/// The decoded path of a request target never ends with a slash: its bytes
/// never do, and when the decoded bytes are valid UTF-8, its last character
/// is not `/`.
pub proof fn law_path_has_no_trailing_slash(target: Seq<u8>)
    ensures
        path_bytes(target).len() == 0 || path_bytes(target).last() != 0x2f,
        valid_utf8(percent_decoded(target_path(target))) ==> request_path(target).len() == 0
            || request_path(target).last() != '/',
{
    let d = percent_decoded(target_path(target));
    let b = path_bytes(target);
    lemma_trim_end_byte(d, 0x2f);
    if valid_utf8(d) {
        assert(b == d.subrange(0, b.len() as int));
        lemma_ascii_cut_valid(d, 0, b.len() as int);
        let s = decode_utf8(b);
        if s.len() > 0 && s.last() == '/' {
            decode_utf8_encode_utf8(b);
            lemma_encode_ends_in_slash(s);
            assert(false);
        }
    }
}

/// Among the entries of a query string, the last one for a name gives its
/// value: a later `name=value` replaces an earlier one.
pub proof fn law_last_query_entry_wins(
    entries: Seq<(Seq<char>, Seq<char>)>,
    i: int,
)
    requires
        0 <= i < entries.len(),
        forall|j: int| i < j < entries.len() ==> entries[j].0 != entries[i].0,
    ensures
        entries_map(entries).contains_key(entries[i].0),
        entries_map(entries)[entries[i].0] == entries[i].1,
    decreases entries.len(),
{
    if i < entries.len() - 1 {
        let p = entries.drop_last();
        assert(forall|j: int| i < j < p.len() ==> p[j] == entries[j]);
        law_last_query_entry_wins(p, i);
        assert(entries.last() == entries[entries.len() - 1]);
    } else {
        assert(entries.last() == entries[i]);
    }
}

/// A request that an earlier route accepts is never answered by a later
/// route: the route chosen is the first that accepts it.
pub proof fn law_earlier_route_wins(
    routes: Seq<RouteSpec>,
    method: Method,
    segs: Seq<Seq<u8>>,
    i: int,
    j: int,
)
    requires
        0 <= i < j < routes.len(),
        route_matches(routes[i], method, segs),
    ensures
        first_match(routes, method, segs) matches Some(k) && k <= i,
{
    lemma_first_match(routes, method, segs);
}

/// Adding a route changes no answer that the routes already there give: a
/// request that one of them accepts is answered exactly as before, and a
/// request that none accepts goes to the new route when it accepts it, and
/// is otherwise still not found.
pub proof fn law_adding_a_route_keeps_earlier_answers<T>(
    before: &Router<T>,
    after: &Router<T>,
    route: RouteSpec,
    state: &T,
    req: &ParsedRequest,
    resp: HttpResponse,
    log: Option<String>,
)
    requires
        after@ == before@.push(route),
        forall|
            i: int,
            s: &T,
            q: &ParsedRequest,
            p: &PathParams,
            res: Result<HttpResponse, ApiError>,
        |
            0 <= i < before@.len() ==> #[trigger] after.handler_answers(i, s, q, p, res)
                == before.handler_answers(i, s, q, p, res),
    ensures
        ({
            let segs = path_segments(req.path@);
            &&& first_match(before@, req.method, segs) is Some ==> first_match(
                after@,
                req.method,
                segs,
            ) == first_match(before@, req.method, segs) && after.dispatch_outcome(
                state,
                req,
                resp,
                log,
            ) == before.dispatch_outcome(state, req, resp, log)
            &&& first_match(before@, req.method, segs) is None ==> first_match(
                after@,
                req.method,
                segs,
            ) == if route_matches(route, req.method, segs) {
                Some(before@.len() as int)
            } else {
                None
            }
        }),
{
    let segs = path_segments(req.path@);
    assert(after@.drop_last() == before@);
    assert(after@.last() == route);
    match first_match(before@, req.method, segs) {
        Some(i) => {
            lemma_first_match(before@, req.method, segs);
            assert(after@[i] == before@[i]);
            assert(after.dispatch_outcome(state, req, resp, log) == before.dispatch_outcome(
                state,
                req,
                resp,
                log,
            )) by {
                if after.dispatch_outcome(state, req, resp, log) {
                    let (p, res) = choose|p: PathParams, res: Result<HttpResponse, ApiError>|
                        {
                            &&& text_values(p@) == bound_params(after@[i].parts, segs)
                            &&& #[trigger] after.handler_answers(i, state, req, &p, res)
                            &&& answered(res, resp, log)
                        };
                    assert(before.handler_answers(i, state, req, &p, res));
                }
                if before.dispatch_outcome(state, req, resp, log) {
                    let (p, res) = choose|p: PathParams, res: Result<HttpResponse, ApiError>|
                        {
                            &&& text_values(p@) == bound_params(before@[i].parts, segs)
                            &&& #[trigger] before.handler_answers(i, state, req, &p, res)
                            &&& answered(res, resp, log)
                        };
                    assert(after.handler_answers(i, state, req, &p, res));
                }
            }
        },
        None => {},
    }
}

/// Routing sees a request's method and path segments only: two requests
/// with the same method and the same segments go to the same route, with
/// the same parameters bound.
pub proof fn law_routing_sees_method_and_segments<T>(
    router: &Router<T>,
    req1: &ParsedRequest,
    req2: &ParsedRequest,
)
    requires
        req1.method == req2.method,
        path_segments(req1.path@) == path_segments(req2.path@),
    ensures
        first_match(router@, req1.method, path_segments(req1.path@)) == first_match(
            router@,
            req2.method,
            path_segments(req2.path@),
        ),
        first_match(router@, req1.method, path_segments(req1.path@)) matches Some(i) ==> bound_params(
            router@[i].parts,
            path_segments(req1.path@),
        ) == bound_params(router@[i].parts, path_segments(req2.path@)),
{
}

/// Two requests with the same method and the same path segments (such as
/// `/a//b/` and `a/b`) are answered alike when the handlers answer them
/// alike, as handlers that do not read the path do: the same response and
/// log line may come of each.
pub proof fn law_same_segments_same_answer<T>(
    router: &Router<T>,
    state: &T,
    req1: &ParsedRequest,
    req2: &ParsedRequest,
    resp: HttpResponse,
    log: Option<String>,
)
    requires
        req1.method == req2.method,
        path_segments(req1.path@) == path_segments(req2.path@),
        forall|i: int, p: &PathParams, res: Result<HttpResponse, ApiError>|
            0 <= i < router@.len() ==> #[trigger] router.handler_answers(i, state, req1, p, res)
                == router.handler_answers(i, state, req2, p, res),
    ensures
        router.dispatch_outcome(state, req1, resp, log) == router.dispatch_outcome(
            state,
            req2,
            resp,
            log,
        ),
{
    let segs = path_segments(req1.path@);
    lemma_first_match(router@, req1.method, segs);
    match first_match(router@, req1.method, segs) {
        Some(i) => {
            if router.dispatch_outcome(state, req1, resp, log) {
                let (p, res) = choose|p: PathParams, res: Result<HttpResponse, ApiError>|
                    {
                        &&& text_values(p@) == bound_params(router@[i].parts, segs)
                        &&& #[trigger] router.handler_answers(i, state, req1, &p, res)
                        &&& answered(res, resp, log)
                    };
                assert(router.handler_answers(i, state, req2, &p, res));
            }
            if router.dispatch_outcome(state, req2, resp, log) {
                let (p, res) = choose|p: PathParams, res: Result<HttpResponse, ApiError>|
                    {
                        &&& text_values(p@) == bound_params(router@[i].parts, segs)
                        &&& #[trigger] router.handler_answers(i, state, req2, &p, res)
                        &&& answered(res, resp, log)
                    };
                assert(router.handler_answers(i, state, req1, &p, res));
            }
        },
        None => {},
    }
}

/// The name and the value of a query entry are decoded alike: the name of
/// `a=b` is the value of `b=a`, the decoded text of `a`.
pub proof fn law_query_name_decoded_as_value(a: Seq<u8>, b: Seq<u8>)
    requires
        forall|k: int| 0 <= k < a.len() ==> a[k] != 0x3d,
        forall|k: int| 0 <= k < b.len() ==> b[k] != 0x3d,
    ensures
        query_entry(a.push(0x3d) + b).0 == query_entry(b.push(0x3d) + a).1,
        query_entry(a.push(0x3d) + b).0 == text_of(percent_decoded(a)),
        query_entry(a.push(0x3d) + b).1 == text_of(percent_decoded(b)),
{
    lemma_entry_split(a, b);
    lemma_entry_split(b, a);
}

proof fn lemma_entry_split(a: Seq<u8>, b: Seq<u8>)
    requires
        forall|k: int| 0 <= k < a.len() ==> a[k] != 0x3d,
    ensures
        find_byte(a.push(0x3d) + b, 0x3d) == Some(a.len() as int),
        (a.push(0x3d) + b).take(a.len() as int) == a,
        (a.push(0x3d) + b).skip(a.len() as int + 1) == b,
{
    let t = a.push(0x3d) + b;
    lemma_find_byte(t, 0x3d);
    assert(t[a.len() as int] == 0x3d);
    assert(forall|k: int| 0 <= k < a.len() ==> t[k] == a[k]);
    match find_byte(t, 0x3d) {
        Some(i) => {
            assert(i == a.len());
        },
        None => {
            assert(false);
        },
    }
    assert(t.take(a.len() as int) =~= a);
    assert(t.skip(a.len() as int + 1) =~= b);
}

proof fn lemma_split_without_separator(b: Seq<u8>, sep: u8)
    requires
        forall|k: int| 0 <= k < b.len() ==> b[k] != sep,
    ensures
        split_bytes(b, sep) == seq![b],
    decreases b.len(),
{
    if b.len() > 0 {
        let p = b.drop_last();
        assert(forall|k: int| 0 <= k < p.len() ==> p[k] == b[k]);
        lemma_split_without_separator(p, sep);
        assert(b.last() == b[b.len() - 1]);
        assert(p.push(b.last()) =~= b);
        assert(seq![p].drop_last().push(seq![p].last().push(b.last())) =~= seq![b]);
    } else {
        assert(b =~= Seq::<u8>::empty());
    }
}

/// A query string `name=value` (neither holding `=` or `&`) maps the decoded
/// name to the decoded value, and nothing else.
pub proof fn law_single_query_entry(n: Seq<u8>, v: Seq<u8>)
    requires
        forall|k: int| 0 <= k < n.len() ==> n[k] != 0x3d && n[k] != 0x26,
        forall|k: int| 0 <= k < v.len() ==> v[k] != 0x3d && v[k] != 0x26,
    ensures
        query_map(n.push(0x3d) + v) == Map::<Seq<char>, Seq<char>>::empty().insert(
            text_of(percent_decoded(n)),
            text_of(percent_decoded(v)),
        ),
{
    let raw = n.push(0x3d) + v;
    assert forall|k: int| 0 <= k < raw.len() implies raw[k] != 0x26 by {
        if k < n.len() {
            assert(raw[k] == n[k]);
        } else if k > n.len() {
            assert(raw[k] == v[k - n.len() - 1]);
        }
    }
    lemma_split_without_separator(raw, 0x26);
    let pred = nonempty_piece();
    Seq::<Seq<u8>>::empty().lemma_filter_push(raw, pred);
    assert(seq![raw] == Seq::<Seq<u8>>::empty().push(raw));
    assert(Seq::<Seq<u8>>::empty().filter(pred) =~= Seq::<Seq<u8>>::empty()) by {
        Seq::<Seq<u8>>::empty().lemma_filter_len(pred);
    }
    assert(fields(raw, 0x26) =~= seq![raw]);
    lemma_entry_split(n, v);
    let es = query_entries(raw);
    assert(es.len() == 1);
    assert(es[0] == query_entry(raw));
    assert(es.drop_last() =~= Seq::<(Seq<char>, Seq<char>)>::empty());
    assert(entries_map(es.drop_last()) == Map::<Seq<char>, Seq<char>>::empty());
}

} // verus!
