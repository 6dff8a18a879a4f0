//! Byte-level text helpers shared by the request parser, the router and the
//! record-schema derivation: splitting on ASCII separators, searching,
//! trimming, and turning UTF-8 bytes back into `String`s.
use vstd::prelude::*;
use vstd::slice::slice_subrange;
use vstd::slice::slice_to_vec;
use vstd::utf8::*;

verus! {

broadcast use vstd::seq_lib::group_seq_properties;

/// The pieces of `b` between occurrences of `sep`, empty pieces included
/// (what `split` on a separator yields).
pub open spec fn split_bytes(b: Seq<u8>, sep: u8) -> Seq<Seq<u8>>
    decreases b.len(),
{
    if b.len() == 0 {
        seq![Seq::<u8>::empty()]
    } else {
        let prev = split_bytes(b.drop_last(), sep);
        if b.last() == sep {
            prev.push(Seq::<u8>::empty())
        } else {
            prev.drop_last().push(prev.last().push(b.last()))
        }
    }
}

/// The non-empty pieces of `b` between occurrences of `sep`.
pub open spec fn fields(b: Seq<u8>, sep: u8) -> Seq<Seq<u8>> {
    split_bytes(b, sep).filter(nonempty_piece())
}

/// Holds of the pieces that are not empty.
pub open spec fn nonempty_piece() -> spec_fn(Seq<u8>) -> bool {
    |p: Seq<u8>| p.len() > 0
}

/// The position of the first occurrence of `c` in `b`, if any.
pub open spec fn find_byte(b: Seq<u8>, c: u8) -> Option<int>
    decreases b.len(),
{
    if b.len() == 0 {
        None
    } else {
        match find_byte(b.drop_last(), c) {
            Some(i) => Some(i),
            None => if b.last() == c {
                Some(b.len() - 1)
            } else {
                None
            },
        }
    }
}

/// `b` without the occurrences of `c` at its end.
pub open spec fn trim_end_byte(b: Seq<u8>, c: u8) -> Seq<u8>
    decreases b.len(),
{
    if b.len() > 0 && b.last() == c {
        trim_end_byte(b.drop_last(), c)
    } else {
        b
    }
}

/// The characters of `s` as UTF-8 bytes.
pub open spec fn utf8_of(s: Seq<char>) -> Seq<u8> {
    encode_utf8(s)
}

/// What `String::from_utf8_lossy` makes of `bytes`: the decoded text, with
/// each ill-formed sequence replaced by U+FFFD.
pub uninterp spec fn utf8_lossy(bytes: Seq<u8>) -> Seq<char>;

/// The text that `bytes` read as: exactly the characters they encode when
/// they are valid UTF-8, otherwise what lossy decoding makes of them.
pub open spec fn text_of(bytes: Seq<u8>) -> Seq<char> {
    if valid_utf8(bytes) {
        decode_utf8(bytes)
    } else {
        utf8_lossy(bytes)
    }
}

/// A text that ends in `/` encodes to bytes that end in `/`.
pub proof fn lemma_encode_ends_in_slash(s: Seq<char>)
    requires
        s.len() > 0,
        s.last() == '/',
    ensures
        encode_utf8(s).len() > 0,
        encode_utf8(s).last() == 0x2f,
    decreases s.len(),
{
    let rest = s.drop_first();
    if s.len() == 1 {
        let v: u32 = s[0] as u32;
        assert(v == 0x2f);
        assert((v & 0x7f) as u8 == 0x2f) by (bit_vector)
            requires
                v == 0x2f,
        ;
        assert(encode_utf8(rest) =~= Seq::<u8>::empty());
        assert(encode_utf8(s) =~= seq![0x2fu8]);
    } else {
        assert(rest.last() == s.last());
        lemma_encode_ends_in_slash(rest);
    }
}

/// Splitting always yields at least one piece.
pub proof fn lemma_split_bytes_nonempty(b: Seq<u8>, sep: u8)
    ensures
        split_bytes(b, sep).len() >= 1,
    decreases b.len(),
{
    if b.len() > 0 {
        lemma_split_bytes_nonempty(b.drop_last(), sep);
    }
}

/// Splitting `a`, a separator and `b` yields the pieces of `a` and then
/// those of `b`.
pub proof fn lemma_split_bytes_join(a: Seq<u8>, b: Seq<u8>, sep: u8)
    ensures
        split_bytes(a.push(sep) + b, sep) == split_bytes(a, sep) + split_bytes(b, sep),
    decreases b.len(),
{
    let c = a.push(sep) + b;
    if b.len() == 0 {
        assert(c == a.push(sep));
        assert(c.drop_last() == a);
        assert(split_bytes(a, sep) + seq![Seq::<u8>::empty()] == split_bytes(a, sep).push(
            Seq::<u8>::empty(),
        ));
    } else {
        lemma_split_bytes_join(a, b.drop_last(), sep);
        lemma_split_bytes_nonempty(b.drop_last(), sep);
        assert(c.drop_last() == a.push(sep) + b.drop_last());
        assert(c.last() == b.last());
        let sa = split_bytes(a, sep);
        let pb = split_bytes(b.drop_last(), sep);
        if b.last() == sep {
            assert((sa + pb).push(Seq::<u8>::empty()) == sa + pb.push(Seq::<u8>::empty()));
        } else {
            assert((sa + pb).drop_last() == sa + pb.drop_last());
            assert((sa + pb).last() == pb.last());
            assert((sa + pb).drop_last().push((sa + pb).last().push(b.last())) == sa
                + pb.drop_last().push(pb.last().push(b.last())));
        }
    }
}

/// The non-empty pieces of `a`, a separator and `b` are those of `a` and
/// then those of `b`.
pub proof fn lemma_fields_join(a: Seq<u8>, b: Seq<u8>, sep: u8)
    ensures
        fields(a.push(sep) + b, sep) == fields(a, sep) + fields(b, sep),
{
    lemma_split_bytes_join(a, b, sep);
    Seq::filter_distributes_over_add(split_bytes(a, sep), split_bytes(b, sep), nonempty_piece());
}

/// `find_byte` finds the first occurrence, and `None` means there is none.
pub proof fn lemma_find_byte(b: Seq<u8>, c: u8)
    ensures
        match find_byte(b, c) {
            Some(i) => 0 <= i < b.len() && b[i] == c && forall|j: int| 0 <= j < i ==> b[j] != c,
            None => forall|j: int| 0 <= j < b.len() ==> b[j] != c,
        },
    decreases b.len(),
{
    if b.len() > 0 {
        let p = b.drop_last();
        lemma_find_byte(p, c);
        assert(forall|j: int| 0 <= j < p.len() ==> p[j] == b[j]);
    }
}

/// Trimming keeps a prefix that is empty or ends in a byte other than `c`,
/// and drops only `c` bytes.
pub proof fn lemma_trim_end_byte(b: Seq<u8>, c: u8)
    ensures
        trim_end_byte(b, c).len() <= b.len(),
        trim_end_byte(b, c) == b.take(trim_end_byte(b, c).len() as int),
        trim_end_byte(b, c).len() == 0 || trim_end_byte(b, c).last() != c,
        forall|j: int| trim_end_byte(b, c).len() <= j < b.len() ==> b[j] == c,
    decreases b.len(),
{
    if b.len() > 0 && b.last() == c {
        let p = b.drop_last();
        lemma_trim_end_byte(p, c);
        assert(forall|j: int| 0 <= j < p.len() ==> p[j] == b[j]);
        assert(trim_end_byte(b, c) == trim_end_byte(p, c));
        assert(p.take(trim_end_byte(p, c).len() as int) == b.take(trim_end_byte(p, c).len() as int));
    } else {
        assert(b.take(b.len() as int) == b);
    }
}

/// A piece of valid UTF-8 cut out right after and right before ASCII bytes
/// (or at the ends) is valid UTF-8 too.
pub proof fn lemma_ascii_cut_valid(b: Seq<u8>, i: int, j: int)
    requires
        valid_utf8(b),
        0 <= i <= j <= b.len(),
        i == 0 || b[i - 1] < 0x80,
        j == b.len() || b[j] < 0x80,
    ensures
        valid_utf8(b.subrange(i, j)),
{
    let tail = b.subrange(i, b.len() as int);
    if i == 0 {
        assert(tail == b);
    } else {
        is_char_boundary_iff_not_is_continuation_byte(b, i - 1);
        valid_utf8_split(b, i - 1);
        let t1 = b.subrange(i - 1, b.len() as int);
        assert(t1[0] == b[i - 1]);
        assert(t1.len() != 0);
        assert(valid_first_scalar(t1) && valid_utf8(pop_first_scalar(t1)));
        assert(length_of_first_scalar(t1) == 1);
        assert(pop_first_scalar(t1) =~= tail);
    }
    assert(valid_utf8(tail));
    if j < b.len() {
        assert(tail[j - i] == b[j]);
        is_char_boundary_iff_not_is_continuation_byte(tail, j - i);
        valid_utf8_split(tail, j - i);
        assert(tail.subrange(0, j - i) =~= b.subrange(i, j));
    } else {
        assert(tail =~= b.subrange(i, j));
    }
}

/// Byte-wise equality of two slices.
pub fn same_bytes(a: &[u8], b: &[u8]) -> (r: bool)
    ensures
        r == (a@ == b@),
{
    if a.len() != b.len() {
        return false;
    }
    let mut i: usize = 0;
    while i < a.len()
        invariant
            a.len() == b.len(),
            i <= a.len(),
            forall|j: int| 0 <= j < i ==> a@[j] == b@[j],
        decreases a.len() - i,
    {
        if a[i] != b[i] {
            return false;
        }
        i = i + 1;
    }
    assert(a@ =~= b@);
    true
}

/// Equality of two texts, decided on their UTF-8 bytes.
pub fn same_text(a: &str, b: &str) -> (r: bool)
    ensures
        r == (a@ == b@),
{
    proof {
        encode_utf8_decode_utf8(a@);
        encode_utf8_decode_utf8(b@);
    }
    same_bytes(a.as_bytes(), b.as_bytes())
}

/// The position of the first `c` in `b`.
pub fn find_byte_index(b: &[u8], c: u8) -> (r: Option<usize>)
    ensures
        match r {
            Some(i) => find_byte(b@, c) == Some(i as int) && i < b.len() && b@[i as int] == c,
            None => find_byte(b@, c) is None,
        },
{
    let mut i: usize = 0;
    proof {
        lemma_find_byte(b@, c);
    }
    while i < b.len()
        invariant
            i <= b.len(),
            forall|j: int| 0 <= j < i ==> b@[j] != c,
        decreases b.len() - i,
    {
        if b[i] == c {
            proof {
                lemma_find_byte(b@, c);
                match find_byte(b@, c) {
                    Some(k) => {
                        assert(k >= i);
                        assert(k <= i);
                    },
                    None => {},
                }
            }
            return Some(i);
        }
        i = i + 1;
    }
    proof {
        lemma_find_byte(b@, c);
    }
    None
}

/// The length of `b` once the `c` bytes at its end are cut off.
pub fn trimmed_end_len(b: &[u8], c: u8) -> (r: usize)
    ensures
        r == trim_end_byte(b@, c).len(),
        r <= b@.len(),
        trim_end_byte(b@, c) == b@.take(r as int),
{
    proof {
        lemma_trim_end_byte(b@, c);
    }
    let mut n: usize = b.len();
    while n > 0 && b[n - 1] == c
        invariant
            n <= b.len(),
            trim_end_byte(b@.take(n as int), c) == trim_end_byte(b@, c),
        decreases n,
    {
        assert(b@.take(n as int).drop_last() == b@.take(n - 1));
        n = n - 1;
    }
    assert(trim_end_byte(b@.take(n as int), c) == b@.take(n as int));
    n
}

/// The non-empty pieces of `b` separated by `sep`, in order. When `b` is
/// valid UTF-8 and `sep` an ASCII byte, every piece is valid UTF-8.
pub fn split_fields(b: &[u8], sep: u8) -> (r: Vec<Vec<u8>>)
    ensures
        r@.len() == fields(b@, sep).len(),
        forall|k: int| 0 <= k < r@.len() ==> #[trigger] r@[k]@ == fields(b@, sep)[k],
        valid_utf8(b@) && sep < 0x80 ==> forall|k: int|
            0 <= k < r@.len() ==> valid_utf8(#[trigger] r@[k]@),
{
    let mut done: Vec<Vec<u8>> = Vec::new();
    let mut start: usize = 0;
    let mut i: usize = 0;
    let ghost pred = nonempty_piece();
    assert(b@.take(0) =~= Seq::<u8>::empty());
    while i < b.len()
        invariant
            start <= i <= b.len(),
            split_bytes(b@.take(i as int), sep).len() >= 1,
            split_bytes(b@.take(i as int), sep).last() == b@.subrange(start as int, i as int),
            split_bytes(b@.take(i as int), sep).drop_last().filter(pred).len() == done@.len(),
            forall|k: int|
                0 <= k < done@.len() ==> #[trigger] done@[k]@ == split_bytes(
                    b@.take(i as int),
                    sep,
                ).drop_last().filter(pred)[k],
            start == 0 || b@[start - 1] == sep,
            valid_utf8(b@) && sep < 0x80 ==> forall|k: int|
                0 <= k < done@.len() ==> valid_utf8(#[trigger] done@[k]@),
            pred == nonempty_piece(),
        decreases b.len() - i,
    {
        let ghost prev = split_bytes(b@.take(i as int), sep);
        assert(b@.take(i + 1).drop_last() == b@.take(i as int));
        assert(b@.take(i + 1).last() == b@[i as int]);
        if b[i] == sep {
            let ghost piece = b@.subrange(start as int, i as int);
            assert(split_bytes(b@.take(i + 1), sep) == prev.push(Seq::<u8>::empty()));
            assert(split_bytes(b@.take(i + 1), sep).drop_last() == prev);
            assert(prev == prev.drop_last().push(piece));
            proof {
                prev.drop_last().lemma_filter_push(piece, pred);
            }
            assert(pred(piece) == (start < i));
            if start < i {
                assert(prev.filter(pred) == prev.drop_last().filter(pred).push(piece));
                let v = slice_to_vec(slice_subrange(b, start, i));
                proof {
                    if valid_utf8(b@) && sep < 0x80 {
                        lemma_ascii_cut_valid(b@, start as int, i as int);
                    }
                }
                done.push(v);
            } else {
                assert(prev.filter(pred) == prev.drop_last().filter(pred));
            }
            start = i + 1;
        } else {
            assert(split_bytes(b@.take(i + 1), sep) == prev.drop_last().push(
                prev.last().push(b@[i as int]),
            ));
            assert(b@.subrange(start as int, i + 1) == b@.subrange(start as int, i as int).push(
                b@[i as int],
            ));
            assert(split_bytes(b@.take(i + 1), sep).drop_last() =~= prev.drop_last());
        }
        i = i + 1;
    }
    assert(b@.take(b.len() as int) == b@);
    let ghost all = split_bytes(b@, sep);
    let ghost last = b@.subrange(start as int, b.len() as int);
    assert(all == all.drop_last().push(last));
    proof {
        all.drop_last().lemma_filter_push(last, pred);
    }
    if start < b.len() {
        let v = slice_to_vec(slice_subrange(b, start, b.len()));
        proof {
            if valid_utf8(b@) && sep < 0x80 {
                lemma_ascii_cut_valid(b@, start as int, b.len() as int);
            }
        }
        done.push(v);
    }
    done
}

/// The value of an ASCII decimal digit byte.
pub open spec fn decimal_digit(b: u8) -> Option<int> {
    if 0x30 <= b <= 0x39 {
        Some(b - 0x30)
    } else {
        None
    }
}

/// The number that a run of ASCII decimal digits denotes; `None` when a
/// byte is not a digit.
pub open spec fn decimal_value(ds: Seq<u8>) -> Option<int>
    decreases ds.len(),
{
    if ds.len() == 0 {
        Some(0)
    } else {
        match (decimal_value(ds.drop_last()), decimal_digit(ds.last())) {
            (Some(v), Some(d)) => Some(v * 10 + d),
            _ => None,
        }
    }
}

/// What `str::parse::<i64>` yields for a text with these bytes: an optional
/// `+` or `-` sign, then at least one decimal digit and nothing else, the
/// value fitting in an `i64`.
pub open spec fn parsed_i64(b: Seq<u8>) -> Option<i64> {
    let negative = b.len() > 0 && b[0] == 0x2d;
    let digits = if b.len() > 0 && (b[0] == 0x2b || b[0] == 0x2d) {
        b.drop_first()
    } else {
        b
    };
    if digits.len() == 0 {
        None
    } else {
        match decimal_value(digits) {
            Some(v) => {
                let x = if negative {
                    -v
                } else {
                    v
                };
                if i64::MIN <= x <= i64::MAX {
                    Some(x as i64)
                } else {
                    None
                }
            },
            None => None,
        }
    }
}

proof fn lemma_decimal_prefix(ds: Seq<u8>, k: int)
    requires
        0 <= k <= ds.len(),
        decimal_value(ds) is Some,
    ensures
        decimal_value(ds.take(k)) is Some,
        decimal_value(ds.take(k))->0 <= decimal_value(ds)->0,
        decimal_value(ds)->0 >= 0,
    decreases ds.len(),
{
    if ds.len() == 0 {
        assert(ds.take(k) == ds);
    } else if k == ds.len() {
        assert(ds.take(k) == ds);
        lemma_decimal_prefix(ds.drop_last(), 0);
    } else {
        lemma_decimal_prefix(ds.drop_last(), k);
        assert(ds.drop_last().take(k) == ds.take(k));
    }
}

/// Parses a decimal `i64` as `str::parse` does: optional sign, then digits.
pub fn parse_i64(s: &str) -> (r: Option<i64>)
    ensures
        r == parsed_i64(utf8_of(s@)),
{
    let b = s.as_bytes();
    let n: usize = b.len();
    let negative = n > 0 && b[0] == 0x2d;
    let start: usize = if n > 0 && (b[0] == 0x2b || b[0] == 0x2d) {
        1
    } else {
        0
    };
    let ghost digits = if n > 0 && (b@[0] == 0x2b || b@[0] == 0x2d) {
        b@.drop_first()
    } else {
        b@
    };
    assert(digits =~= b@.skip(start as int));
    if start >= n {
        return None;
    }
    let limit: i128 = if negative {
        9223372036854775808
    } else {
        9223372036854775807
    };
    let mut acc: i128 = 0;
    let mut i: usize = start;
    assert(digits.take(0) =~= Seq::<u8>::empty());
    while i < n
        invariant
            start <= i <= n,
            n == b@.len(),
            digits == b@.skip(start as int),
            b@ == utf8_of(s@),
            digits == (if n > 0 && (b@[0] == 0x2b || b@[0] == 0x2d) {
                b@.drop_first()
            } else {
                b@
            }),
            negative == (n > 0 && b@[0] == 0x2d),
            limit == (if negative { 9223372036854775808i128 } else { 9223372036854775807i128 }),
            digits.len() > 0,
            0 <= acc <= limit,
            limit <= 9223372036854775808,
            decimal_value(digits.take(i - start)) == Some(acc as int),
        decreases n - i,
    {
        let c: u8 = b[i];
        assert(digits.take(i - start + 1).drop_last() == digits.take(i - start));
        assert(digits.take(i - start + 1).last() == c);
        if c < 0x30 || c > 0x39 {
            proof {
                assert(decimal_digit(c) is None);
                assert(decimal_value(digits.take(i - start + 1)) is None);
                if decimal_value(digits) is Some {
                    lemma_decimal_prefix(digits, i - start + 1);
                }
            }
            return None;
        }
        let next: i128 = acc * 10 + (c - 0x30) as i128;
        assert(decimal_value(digits.take(i - start + 1)) == Some(next as int));
        if next > limit {
            proof {
                if decimal_value(digits) is Some {
                    lemma_decimal_prefix(digits, i - start + 1);
                }
            }
            return None;
        }
        acc = next;
        i = i + 1;
    }
    assert(digits.take(n - start) == digits);
    if negative {
        Some((-acc) as i64)
    } else {
        Some(acc as i64)
    }
}

/// `String::from_utf8_lossy`: the text that `bytes` encode, with ill-formed
/// sequences replaced by U+FFFD. Its result is named `utf8_lossy`; the
/// contract also states what the std documentation promises for valid
/// UTF-8, that it decodes to exactly the encoded characters.
#[verifier::external_body]
pub(crate) fn string_from_utf8_lossy(bytes: &[u8]) -> (r: String)
    ensures
        r@ == utf8_lossy(bytes@),
        valid_utf8(bytes@) ==> r@ == decode_utf8(bytes@),
{
    String::from_utf8_lossy(bytes).into_owned()
}

} // verus!
