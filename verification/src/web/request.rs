//! A transport-agnostic request: method, decoded path, query parameters and
//! body. Building one from a raw request target (`/path?k=v`) is verified
//! here; reading the request off the network is the server's business.
use crate::text::{
    fields, find_byte, find_byte_index, parse_i64, parsed_i64, split_fields, string_from_utf8_lossy,
    text_of, trim_end_byte, trimmed_end_len, utf8_of,
};
use vstd::hash_map::StringHashMap;
use vstd::prelude::*;
use vstd::slice::slice_subrange;

verus! {

/// HTTP methods the router distinguishes; anything else is `Other`.
#[derive(Debug, Clone, Copy, PartialEq, Eq, Structural)]
pub enum Method {
    Get,
    Post,
    Put,
    Delete,
    Patch,
    Other,
}

/// Query-string parameters, keyed by decoded name.
pub type QueryParams = StringHashMap<String>;

/// The texts of a map from texts to `String`s.
pub open spec fn text_values(m: Map<Seq<char>, String>) -> Map<Seq<char>, Seq<char>> {
    m.map_values(|v: String| v@)
}

pub struct ParsedRequest {
    pub method: Method,
    /// Path only (no query string), percent-decoded, without a trailing slash.
    pub path: String,
    pub query: QueryParams,
    pub body: Vec<u8>,
}

/// The value of an ASCII hexadecimal digit byte.
pub open spec fn hex_digit(b: u8) -> Option<u8> {
    if 0x30 <= b <= 0x39 {
        Some((b - 0x30) as u8)
    } else if 0x61 <= b <= 0x66 {
        Some((b - 0x61 + 10) as u8)
    } else if 0x41 <= b <= 0x46 {
        Some((b - 0x41 + 10) as u8)
    } else {
        None
    }
}

/// The byte that the two bytes after a `%` denote when both are hex digits.
pub open spec fn hex_pair(b1: u8, b2: u8) -> Option<u8> {
    match (hex_digit(b1), hex_digit(b2)) {
        (Some(h), Some(l)) => Some((h * 16 + l) as u8),
        _ => None,
    }
}

/// `application/x-www-form-urlencoded`-style decoding of bytes: `%XX`
/// becomes the byte `XX` (a `%` without a well-formed pair stays as it is)
/// and `+` becomes a space.
pub open spec fn percent_decoded(b: Seq<u8>) -> Seq<u8>
    decreases b.len(),
{
    if b.len() == 0 {
        Seq::<u8>::empty()
    } else if b[0] == 0x25 && b.len() >= 3 && hex_pair(b[1], b[2]) is Some {
        seq![hex_pair(b[1], b[2])->0] + percent_decoded(b.skip(3))
    } else if b[0] == 0x2b {
        seq![0x20u8] + percent_decoded(b.skip(1))
    } else {
        seq![b[0]] + percent_decoded(b.skip(1))
    }
}

/// One `name=value` (or bare `name`) piece of a query string, decoded.
pub open spec fn query_entry(piece: Seq<u8>) -> (Seq<char>, Seq<char>) {
    match find_byte(piece, 0x3d) {
        Some(i) => (
            text_of(percent_decoded(piece.take(i))),
            text_of(percent_decoded(piece.skip(i + 1))),
        ),
        None => (text_of(percent_decoded(piece)), Seq::<char>::empty()),
    }
}

/// The decoded entries of a query string, in order: its non-empty pieces
/// separated by `&`.
pub open spec fn query_entries(raw: Seq<u8>) -> Seq<(Seq<char>, Seq<char>)> {
    fields(raw, 0x26).map_values(|p: Seq<u8>| query_entry(p))
}

/// The map that inserting `entries` in order builds: a later entry for a
/// name replaces an earlier one.
pub open spec fn entries_map(entries: Seq<(Seq<char>, Seq<char>)>) -> Map<Seq<char>, Seq<char>>
    decreases entries.len(),
{
    if entries.len() == 0 {
        Map::empty()
    } else {
        entries_map(entries.drop_last()).insert(entries.last().0, entries.last().1)
    }
}

/// The parameters of a query string.
pub open spec fn query_map(raw: Seq<u8>) -> Map<Seq<char>, Seq<char>> {
    entries_map(query_entries(raw))
}

/// The path part of a request target: before the first `?`.
pub open spec fn target_path(target: Seq<u8>) -> Seq<u8> {
    match find_byte(target, 0x3f) {
        Some(i) => target.take(i),
        None => target,
    }
}

/// The bytes of a request target's path: percent-decoded, then without
/// the slashes at its end.
pub open spec fn path_bytes(target: Seq<u8>) -> Seq<u8> {
    trim_end_byte(percent_decoded(target_path(target)), 0x2f)
}

/// The decoded path of a request target, without a trailing slash.
pub open spec fn request_path(target: Seq<u8>) -> Seq<char> {
    text_of(path_bytes(target))
}

/// The query parameters of a request target: those after the first `?`,
/// none when there is no `?`.
pub open spec fn request_query(target: Seq<u8>) -> Map<Seq<char>, Seq<char>> {
    match find_byte(target, 0x3f) {
        Some(i) => query_map(target.skip(i + 1)),
        None => Map::empty(),
    }
}

fn hex_digit_of(b: u8) -> (r: Option<u8>)
    ensures
        r == hex_digit(b),
{
    if 0x30 <= b && b <= 0x39 {
        Some(b - 0x30)
    } else if 0x61 <= b && b <= 0x66 {
        Some(b - 0x61 + 10)
    } else if 0x41 <= b && b <= 0x46 {
        Some(b - 0x41 + 10)
    } else {
        None
    }
}

fn hex_pair_of(b1: u8, b2: u8) -> (r: Option<u8>)
    ensures
        r == hex_pair(b1, b2),
{
    match (hex_digit_of(b1), hex_digit_of(b2)) {
        (Some(h), Some(l)) => Some(h * 16 + l),
        _ => None,
    }
}

/// Percent-decodes raw bytes (`%XX` and `+`).
pub fn percent_decode_bytes(b: &[u8]) -> (r: Vec<u8>)
    ensures
        r@ == percent_decoded(b@),
{
    let mut out: Vec<u8> = Vec::new();
    let mut i: usize = 0;
    assert(b@.skip(0) == b@);
    while i < b.len()
        invariant
            i <= b.len(),
            percent_decoded(b@) == out@ + percent_decoded(b@.skip(i as int)),
        decreases b.len() - i,
    {
        let ghost rest = b@.skip(i as int);
        assert(rest[0] == b@[i as int]);
        if b[i] == 0x25 && b.len() - i >= 3 {
            assert(rest[1] == b@[i + 1] && rest[2] == b@[i + 2]);
            match hex_pair_of(b[i + 1], b[i + 2]) {
                Some(byte) => {
                    assert(rest.skip(3) == b@.skip(i + 3));
                    out.push(byte);
                    i = i + 3;
                    assert(percent_decoded(b@) == out@ + percent_decoded(b@.skip(i as int)));
                },
                None => {
                    assert(rest.skip(1) == b@.skip(i + 1));
                    out.push(b[i]);
                    i = i + 1;
                    assert(percent_decoded(b@) == out@ + percent_decoded(b@.skip(i as int)));
                },
            }
        } else if b[i] == 0x2b {
            assert(rest.skip(1) == b@.skip(i + 1));
            out.push(0x20);
            i = i + 1;
            assert(percent_decoded(b@) == out@ + percent_decoded(b@.skip(i as int)));
        } else {
            assert(rest.skip(1) == b@.skip(i + 1));
            out.push(b[i]);
            i = i + 1;
            assert(percent_decoded(b@) == out@ + percent_decoded(b@.skip(i as int)));
        }
    }
    assert(percent_decoded(b@.skip(i as int)) == Seq::<u8>::empty());
    assert(out@ + Seq::<u8>::empty() == out@);
    out
}

/// Minimal `application/x-www-form-urlencoded`-style decoder (`%XX` and `+`);
/// the decoded bytes are read back as UTF-8, ill-formed sequences replaced.
pub fn percent_decode(input: &str) -> (r: String)
    ensures
        r@ == text_of(percent_decoded(utf8_of(input@))),
{
    let decoded = percent_decode_bytes(input.as_bytes());
    string_from_utf8_lossy(decoded.as_slice())
}

fn decode_text(b: &[u8]) -> (r: String)
    ensures
        r@ == text_of(percent_decoded(b@)),
{
    let decoded = percent_decode_bytes(b);
    string_from_utf8_lossy(decoded.as_slice())
}

fn query_entry_of(piece: &[u8]) -> (r: (String, String))
    ensures
        (r.0@, r.1@) == query_entry(piece@),
{
    match find_byte_index(piece, 0x3d) {
        Some(i) => {
            let name = decode_text(slice_subrange(piece, 0, i));
            let value = decode_text(slice_subrange(piece, i + 1, piece.len()));
            assert(piece@.subrange(0, i as int) == piece@.take(i as int));
            assert(piece@.subrange(i + 1, piece@.len() as int) == piece@.skip(i + 1));
            (name, value)
        },
        None => (decode_text(piece), String::new()),
    }
}

proof fn lemma_text_values_insert(m: Map<Seq<char>, String>, k: Seq<char>, v: String)
    ensures
        text_values(m.insert(k, v)) == text_values(m).insert(k, v@),
{
    assert(text_values(m.insert(k, v)) =~= text_values(m).insert(k, v@));
}

/// The parameters of a raw query string given as bytes.
pub fn parse_query_bytes(raw: &[u8]) -> (r: QueryParams)
    ensures
        text_values(r@) == query_map(raw@),
{
    let pieces = split_fields(raw, 0x26);
    let mut m: QueryParams = StringHashMap::new();
    let ghost entries = query_entries(raw@);
    let mut k: usize = 0;
    assert(entries.take(0) =~= Seq::<(Seq<char>, Seq<char>)>::empty());
    assert(text_values(m@) =~= Map::<Seq<char>, Seq<char>>::empty());
    while k < pieces.len()
        invariant
            k <= pieces@.len(),
            pieces@.len() == fields(raw@, 0x26).len(),
            forall|j: int| 0 <= j < pieces@.len() ==> #[trigger] pieces@[j]@ == fields(raw@, 0x26)[j],
            entries == query_entries(raw@),
            text_values(m@) == entries_map(entries.take(k as int)),
        decreases pieces@.len() - k,
    {
        let (name, value) = query_entry_of(pieces[k].as_slice());
        proof {
            assert(entries[k as int] == query_entry(pieces@[k as int]@));
            assert(entries.take(k + 1).drop_last() == entries.take(k as int));
            assert(entries.take(k + 1).last() == entries[k as int]);
            lemma_text_values_insert(m@, name@, value);
        }
        m.insert(name, value);
        k = k + 1;
    }
    assert(entries.take(k as int) == entries);
    m
}

/// Parses a raw query string (`a=1&b=x%20y`) into its decoded parameters;
/// empty pieces are skipped and a later value for a name wins.
pub fn parse_query(raw: &str) -> (r: QueryParams)
    ensures
        text_values(r@) == query_map(utf8_of(raw@)),
{
    parse_query_bytes(raw.as_bytes())
}

impl ParsedRequest {
    /// Builds a request from its method, its raw target (`/path?query`) and
    /// its body: the path is what precedes the first `?`, percent-decoded,
    /// then without trailing slashes; the query is what follows it.
    pub fn from_parts(method: Method, target: &str, body: Vec<u8>) -> (r: ParsedRequest)
        ensures
            r.method == method,
            r.body@ == body@,
            r.path@ == request_path(utf8_of(target@)),
            text_values(r.query@) == request_query(utf8_of(target@)),
    {
        let bytes = target.as_bytes();
        let q = find_byte_index(bytes, 0x3f);
        let path_end: usize = match q {
            Some(i) => i,
            None => bytes.len(),
        };
        let raw_path = slice_subrange(bytes, 0, path_end);
        assert(raw_path@ == target_path(bytes@));
        let decoded = percent_decode_bytes(raw_path);
        let kept: usize = trimmed_end_len(decoded.as_slice(), 0x2f);
        let path = string_from_utf8_lossy(slice_subrange(decoded.as_slice(), 0, kept));
        let query = match q {
            Some(i) => {
                let rest = slice_subrange(bytes, i + 1, bytes.len());
                assert(rest@ == bytes@.skip(i + 1));
                parse_query_bytes(rest)
            },
            None => {
                let empty: QueryParams = StringHashMap::new();
                assert(text_values(empty@) =~= Map::<Seq<char>, Seq<char>>::empty());
                empty
            },
        };
        ParsedRequest { method, path, query, body }
    }

    /// The query parameter `key` read as an `i64`; `None` when it is absent
    /// or is not a decimal integer that fits.
    pub fn query_i64(&self, key: &str) -> (r: Option<i64>)
        ensures
            r == (if self.query@.contains_key(key@) {
                parsed_i64(utf8_of(self.query@[key@]@))
            } else {
                None
            }),
    {
        match self.query.get(key) {
            Some(v) => parse_i64(v.as_str()),
            None => None,
        }
    }
}

} // verus!
