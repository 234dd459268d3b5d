//! `application/x-www-form-urlencoded` encoding and decoding of bytes, and
//! the search for a key among the pairs of a query string.

use vstd::prelude::*;
use vstd::string::StringSliceAdditionalSpecFns;

verus! {

/// Bytes that form serialization leaves as they are: ASCII letters, digits
/// and `*`, `-`, `.`, `_`.
pub open spec fn is_unreserved(b: u8) -> bool {
    (65 <= b <= 90) || (97 <= b <= 122) || (48 <= b <= 57) || b == 42 || b == 45 || b == 46
        || b == 95
}

/// An ASCII hexadecimal digit, either case.
pub open spec fn is_hex(b: u8) -> bool {
    (48 <= b <= 57) || (65 <= b <= 70) || (97 <= b <= 102)
}

/// The value of an ASCII hexadecimal digit.
pub open spec fn hex_value(b: u8) -> int {
    if 48 <= b <= 57 {
        b - 48
    } else if 65 <= b <= 70 {
        b - 55
    } else {
        b - 87
    }
}

/// The upper-case ASCII hexadecimal digit for a value below 16.
pub open spec fn hex_digit(v: int) -> u8 {
    if v < 10 {
        (48 + v) as u8
    } else {
        (55 + v) as u8
    }
}

/// The serialization of one byte: itself, `+` for a space, or `%XX`.
pub open spec fn encode_byte(b: u8) -> Seq<u8> {
    if is_unreserved(b) {
        seq![b]
    } else if b == 32 {
        seq![43u8]
    } else {
        seq![37u8, hex_digit(b as int / 16), hex_digit(b as int % 16)]
    }
}

/// The form serialization of a byte string.
pub open spec fn form_encode(s: Seq<u8>) -> Seq<u8>
    decreases s.len(),
{
    if s.len() == 0 {
        Seq::empty()
    } else {
        encode_byte(s[0]) + form_encode(s.subrange(1, s.len() as int))
    }
}

/// The form decoding of a byte string: `+` becomes a space, `%` followed by
/// two hexadecimal digits becomes the byte they spell, every other byte is
/// kept.
pub open spec fn form_decode(s: Seq<u8>) -> Seq<u8>
    decreases s.len(),
{
    if s.len() == 0 {
        Seq::empty()
    } else if s[0] == 37 && s.len() >= 3 && is_hex(s[1]) && is_hex(s[2]) {
        seq![(hex_value(s[1]) * 16 + hex_value(s[2])) as u8] + form_decode(
            s.subrange(3, s.len() as int),
        )
    } else if s[0] == 43 {
        seq![32u8] + form_decode(s.subrange(1, s.len() as int))
    } else {
        seq![s[0]] + form_decode(s.subrange(1, s.len() as int))
    }
}

/// The characters that stand for ASCII bytes.
pub open spec fn ascii_chars(s: Seq<u8>) -> Seq<char> {
    s.map_values(|b: u8| b as char)
}

/// Encoding one byte more appends that byte's serialization.
pub proof fn lemma_form_encode_push(s: Seq<u8>, b: u8)
    ensures
        form_encode(s.push(b)) == form_encode(s) + encode_byte(b),
    decreases s.len(),
{
    if s.len() == 0 {
        assert(s.push(b).subrange(1, 1) =~= Seq::<u8>::empty());
        assert(form_encode(Seq::<u8>::empty()) =~= Seq::<u8>::empty());
        assert(encode_byte(b) + Seq::<u8>::empty() =~= encode_byte(b));
    } else {
        let t = s.subrange(1, s.len() as int);
        lemma_form_encode_push(t, b);
        assert(s.push(b).subrange(1, s.push(b).len() as int) =~= t.push(b));
        assert(form_encode(s.push(b)) == encode_byte(s[0]) + form_encode(t.push(b)));
        assert(encode_byte(s[0]) + (form_encode(t) + encode_byte(b)) =~= (encode_byte(s[0])
            + form_encode(t)) + encode_byte(b));
    }
}

/// Decoding a serialized byte followed by more text yields the byte followed
/// by the decoding of the rest.
pub proof fn lemma_decode_encoded_byte(b: u8, t: Seq<u8>)
    ensures
        form_decode(encode_byte(b) + t) == seq![b] + form_decode(t),
{
    let e = encode_byte(b);
    let s = e + t;
    if is_unreserved(b) {
        assert(s[0] == b);
        assert(s.subrange(1, s.len() as int) =~= t);
    } else if b == 32 {
        assert(s[0] == 43u8);
        assert(s.subrange(1, s.len() as int) =~= t);
    } else {
        let hi = b as int / 16;
        let lo = b as int % 16;
        assert(0 <= hi < 16 && 0 <= lo < 16);
        assert(s[0] == 37u8);
        assert(s[1] == hex_digit(hi));
        assert(s[2] == hex_digit(lo));
        assert(is_hex(hex_digit(hi)) && hex_value(hex_digit(hi)) == hi);
        assert(is_hex(hex_digit(lo)) && hex_value(hex_digit(lo)) == lo);
        assert(hi * 16 + lo == b as int);
        assert(s.subrange(3, s.len() as int) =~= t);
    }
}

/// Decoding undoes encoding: `form_decode(form_encode(s)) == s` for every
/// byte string `s`.
pub proof fn lemma_form_roundtrip(s: Seq<u8>)
    ensures
        form_decode(form_encode(s)) == s,
    decreases s.len(),
{
    if s.len() == 0 {
    } else {
        let t = s.subrange(1, s.len() as int);
        lemma_form_roundtrip(t);
        lemma_decode_encoded_byte(s[0], form_encode(t));
        assert(seq![s[0]] + t =~= s);
    }
}


/// Appends a character to a string (`String::push`).
#[verifier::external_body]
pub(crate) fn push_char(s: &mut String, c: char)
    ensures
        final(s)@ == old(s)@.push(c),
{
    s.push(c);
}

/// The upper-case hexadecimal digit of a value below 16.
fn hex_digit_exec(v: u8) -> (d: u8)
    requires
        v < 16,
    ensures
        d == hex_digit(v as int),
{
    if v < 10 {
        48 + v
    } else {
        55 + v
    }
}

/// Appends the form serialization of the UTF-8 bytes of `input` to `out`.
pub fn append_form_encoded(out: &mut String, input: &str)
    ensures
        final(out)@ == old(out)@ + ascii_chars(form_encode(input.spec_bytes())),
{
    let bytes = input.as_bytes();
    let n = bytes.len();
    let ghost start = out@;
    assert(bytes@.subrange(0, 0) =~= Seq::<u8>::empty());
    assert(ascii_chars(Seq::<u8>::empty()) =~= Seq::<char>::empty());
    for i in 0..n
        invariant
            n == bytes@.len(),
            bytes@ == input.spec_bytes(),
            out@ == start + ascii_chars(form_encode(bytes@.subrange(0, i as int))),
    {
        let b = bytes[i];
        proof {
            lemma_form_encode_push(bytes@.subrange(0, i as int), b);
            assert(bytes@.subrange(0, i as int).push(b) =~= bytes@.subrange(0, i + 1));
        }
        let ghost before = out@;
        if (65 <= b && b <= 90) || (97 <= b && b <= 122) || (48 <= b && b <= 57) || b == 42
            || b == 45 || b == 46 || b == 95 {
            push_char(out, b as char);
        } else if b == 32 {
            push_char(out, '+');
        } else {
            push_char(out, '%');
            push_char(out, hex_digit_exec(b / 16) as char);
            push_char(out, hex_digit_exec(b % 16) as char);
        }
        proof {
            let prev = form_encode(bytes@.subrange(0, i as int));
            assert(ascii_chars(prev + encode_byte(b)) =~= ascii_chars(prev) + ascii_chars(
                encode_byte(b),
            ));
            assert(out@ =~= before + ascii_chars(encode_byte(b)));
        }
    }
    assert(bytes@.subrange(0, n as int) =~= bytes@);
}


/// The index of the first `c` in `s`, or `s.len()` when `s` holds none.
pub open spec fn find_or_len(s: Seq<u8>, c: u8) -> int
    decreases s.len(),
{
    if s.len() == 0 {
        0
    } else if s[0] == c {
        0
    } else {
        1 + find_or_len(s.subrange(1, s.len() as int), c)
    }
}

/// `find_or_len` is the first index holding `c`, or the length.
pub proof fn lemma_find_or_len(s: Seq<u8>, c: u8)
    ensures
        0 <= find_or_len(s, c) <= s.len(),
        find_or_len(s, c) < s.len() ==> s[find_or_len(s, c)] == c,
        forall|j: int| 0 <= j < find_or_len(s, c) ==> s[j] != c,
    decreases s.len(),
{
    if s.len() > 0 && s[0] != c {
        let t = s.subrange(1, s.len() as int);
        lemma_find_or_len(t, c);
        assert forall|j: int| 0 <= j < find_or_len(s, c) implies s[j] != c by {
            if j > 0 {
                assert(s[j] == t[j - 1]);
            }
        }
    }
}

/// An index with no `c` before it, holding `c` or at the end, is `find_or_len`.
pub proof fn lemma_find_or_len_unique(s: Seq<u8>, c: u8, k: int)
    requires
        0 <= k <= s.len(),
        k < s.len() ==> s[k] == c,
        forall|j: int| 0 <= j < k ==> s[j] != c,
    ensures
        find_or_len(s, c) == k,
    decreases s.len(),
{
    if s.len() > 0 && s[0] != c {
        let t = s.subrange(1, s.len() as int);
        assert forall|j: int| 0 <= j < k - 1 implies t[j] != c by {
            assert(t[j] == s[j + 1]);
        }
        lemma_find_or_len_unique(t, c, k - 1);
    }
}

/// The raw (still encoded) key of a query pair: the text before its first `=`.
pub open spec fn pair_key(pair: Seq<u8>) -> Seq<u8> {
    pair.subrange(0, find_or_len(pair, 61))
}

/// Whether one of the non-empty `&`-separated pairs of a query has a key that
/// decodes to `key`.
pub open spec fn query_has_key(q: Seq<u8>, key: Seq<u8>) -> bool
    decreases q.len(),
{
    if q.len() == 0 {
        false
    } else {
        let end = find_or_len(q, 38);
        let pair = q.subrange(0, end);
        proof {
            lemma_find_or_len(q, 38);
        }
        ||| (pair.len() > 0 && form_decode(pair_key(pair)) == key)
        ||| (end < q.len() && query_has_key(q.subrange(end + 1, q.len() as int), key))
    }
}

/// Whether `q[s..e]` is one of the non-empty `&`-separated pairs of the
/// query `q`, and the pair's key (its text before its first `=`, or all of
/// it) form-decodes to `key`.
pub open spec fn pair_with_key_at(q: Seq<u8>, s: int, e: int, key: Seq<u8>) -> bool {
    &&& 0 <= s < e <= q.len()
    &&& (s == 0 || q[s - 1] == 38)
    &&& (e == q.len() || q[e] == 38)
    &&& forall|j: int| s <= j < e ==> q[j] != 38
    &&& exists|k: int|
        s <= k <= e && (k == e || q[k] == 61) && (forall|j: int| s <= j < k ==> q[j] != 61)
            && #[trigger] form_decode(q.subrange(s, k)) == key
}

/// A pair of the query after its first `&` is a pair of the whole query,
/// shifted past that `&`, and the other way round.
proof fn lemma_pair_shift(q: Seq<u8>, end: int, s1: int, e1: int, key: Seq<u8>)
    requires
        0 <= end < q.len(),
        q[end] == 38,
        0 <= s1,
    ensures
        pair_with_key_at(q.subrange(end + 1, q.len() as int), s1, e1, key) <==> pair_with_key_at(
            q,
            s1 + end + 1,
            e1 + end + 1,
            key,
        ),
{
    let t = q.subrange(end + 1, q.len() as int);
    let d = end + 1;
    assert forall|j: int| 0 <= j < t.len() implies #[trigger] t[j] == q[j + d] by {}
    if pair_with_key_at(t, s1, e1, key) {
        let k1 = choose|k1: int|
            s1 <= k1 <= e1 && (k1 == e1 || t[k1] == 61) && (forall|j: int| s1 <= j < k1 ==> t[j] != 61)
                && #[trigger] form_decode(t.subrange(s1, k1)) == key;
        assert(t.subrange(s1, k1) =~= q.subrange(s1 + d, k1 + d));
        assert(forall|j: int| s1 + d <= j < e1 + d ==> q[j] == t[j - d]);
        assert(s1 > 0 ==> q[s1 + d - 1] == t[s1 - 1]);
        assert(e1 < t.len() ==> q[e1 + d] == t[e1]);
        assert(k1 < e1 ==> q[k1 + d] == t[k1]);
        assert(form_decode(q.subrange(s1 + d, k1 + d)) == key);
    }
    if pair_with_key_at(q, s1 + d, e1 + d, key) {
        let k = choose|k: int|
            s1 + d <= k <= e1 + d && (k == e1 + d || q[k] == 61) && (forall|j: int|
                s1 + d <= j < k ==> q[j] != 61) && #[trigger] form_decode(q.subrange(s1 + d, k))
                == key;
        let k1 = k - d;
        assert(t.subrange(s1, k1) =~= q.subrange(s1 + d, k));
        assert(forall|j: int| s1 <= j < e1 ==> t[j] == q[j + d]);
        assert(s1 > 0 ==> t[s1 - 1] == q[s1 + d - 1]);
        assert(e1 < t.len() ==> t[e1] == q[e1 + d]);
        assert(k1 < e1 ==> t[k1] == q[k]);
        assert(form_decode(t.subrange(s1, k1)) == key);
    }
}

/// The first pair of a query (up to its first `&`) has the key exactly when
/// a pair at position 0 has it.
proof fn lemma_first_pair(q: Seq<u8>, key: Seq<u8>)
    requires
        q.len() > 0,
    ensures
        ({
            let end = find_or_len(q, 38);
            let pair = q.subrange(0, end);
            (pair.len() > 0 && form_decode(pair_key(pair)) == key) <==> exists|e: int|
                pair_with_key_at(q, 0, e, key)
        }),
{
    lemma_find_or_len(q, 38);
    let end = find_or_len(q, 38);
    let pair = q.subrange(0, end);
    if pair.len() > 0 && form_decode(pair_key(pair)) == key {
        lemma_find_or_len(pair, 61);
        let k = find_or_len(pair, 61);
        assert(q.subrange(0, k) =~= pair_key(pair));
        assert(forall|j: int| 0 <= j < k ==> q[j] == pair[j]);
        assert(k < end ==> q[k] == pair[k]);
        assert(form_decode(q.subrange(0, k)) == key);
        assert(pair_with_key_at(q, 0, end, key));
    }
    if exists|e: int| pair_with_key_at(q, 0, e, key) {
        let e = choose|e: int| pair_with_key_at(q, 0, e, key);
        let k = choose|k: int|
            0 <= k <= e && (k == e || q[k] == 61) && (forall|j: int| 0 <= j < k ==> q[j] != 61)
                && #[trigger] form_decode(q.subrange(0, k)) == key;
        lemma_find_or_len_unique(q, 38, e);
        assert forall|j: int| 0 <= j < k implies pair[j] != 61 by {
            assert(pair[j] == q[j]);
        }
        assert(k < end ==> pair[k] == q[k]);
        lemma_find_or_len_unique(pair, 61, k);
        assert(pair_key(pair) =~= q.subrange(0, k));
    }
}

/// A query has a key exactly when one of its pairs, at any position, has a
/// key that form-decodes to it.
pub proof fn lemma_query_has_key_iff_some_pair(q: Seq<u8>, key: Seq<u8>)
    ensures
        query_has_key(q, key) <==> exists|s: int, e: int| pair_with_key_at(q, s, e, key),
    decreases q.len(),
{
    if q.len() == 0 {
        return;
    }
    lemma_find_or_len(q, 38);
    lemma_first_pair(q, key);
    let end = find_or_len(q, 38);
    let t = q.subrange(end + 1, q.len() as int);
    if end < q.len() {
        lemma_query_has_key_iff_some_pair(t, key);
    }
    if query_has_key(q, key) {
        if !(exists|e: int| pair_with_key_at(q, 0, e, key)) {
            let (s1, e1) = choose|s1: int, e1: int| pair_with_key_at(t, s1, e1, key);
            lemma_pair_shift(q, end, s1, e1, key);
        }
    }
    if exists|s: int, e: int| pair_with_key_at(q, s, e, key) {
        let (s, e) = choose|s: int, e: int| pair_with_key_at(q, s, e, key);
        if s > 0 {
            assert(q[s - 1] == 38);
            assert(end <= s - 1);
            if end == q.len() {
                assert(false);
            }
            lemma_pair_shift(q, end, s - end - 1, e - end - 1, key);
            assert(pair_with_key_at(t, s - end - 1, e - end - 1, key));
        }
    }
}

/// The form decoding of `b[from..to]`.
pub fn form_decode_range(b: &[u8], from: usize, to: usize) -> (r: Vec<u8>)
    requires
        from <= to <= b@.len(),
    ensures
        r@ == form_decode(b@.subrange(from as int, to as int)),
{
    let mut out: Vec<u8> = Vec::new();
    let mut i = from;
    while i < to
        invariant
            from <= i <= to <= b@.len(),
            form_decode(b@.subrange(from as int, to as int)) == out@ + form_decode(
                b@.subrange(i as int, to as int),
            ),
        decreases to - i,
    {
        let ghost s = b@.subrange(i as int, to as int);
        let c = b[i];
        if c == 37 && to - i >= 3 && is_hex_exec(b[i + 1]) && is_hex_exec(b[i + 2]) {
            let v = hex_value_exec(b[i + 1]) * 16 + hex_value_exec(b[i + 2]);
            out.push(v);
            proof {
                assert(s.subrange(3, s.len() as int) =~= b@.subrange(i + 3, to as int));
            }
            i = i + 3;
        } else if c == 43 {
            out.push(32);
            proof {
                assert(s.subrange(1, s.len() as int) =~= b@.subrange(i + 1, to as int));
            }
            i = i + 1;
        } else {
            out.push(c);
            proof {
                assert(s.subrange(1, s.len() as int) =~= b@.subrange(i + 1, to as int));
            }
            i = i + 1;
        }
        proof {
            let x = out@.last();
            assert(out@ =~= out@.drop_last().push(x));
            assert(seq![x] + form_decode(b@.subrange(i as int, to as int)) == form_decode(s));
            assert(out@.drop_last() + (seq![x] + form_decode(b@.subrange(i as int, to as int)))
                =~= out@ + form_decode(b@.subrange(i as int, to as int)));
        }
    }
    proof {
        assert(b@.subrange(to as int, to as int) =~= Seq::<u8>::empty());
        assert(out@ + Seq::<u8>::empty() =~= out@);
    }
    out
}

fn is_hex_exec(b: u8) -> (r: bool)
    ensures
        r == is_hex(b),
{
    (48 <= b && b <= 57) || (65 <= b && b <= 70) || (97 <= b && b <= 102)
}

fn hex_value_exec(b: u8) -> (r: u8)
    requires
        is_hex(b),
    ensures
        r as int == hex_value(b),
        r < 16,
{
    if 48 <= b && b <= 57 {
        b - 48
    } else if 65 <= b && b <= 70 {
        b - 55
    } else {
        b - 87
    }
}

/// Whether `a` and `b` hold the same bytes.
pub(crate) fn bytes_equal(a: &Vec<u8>, b: &[u8]) -> (r: bool)
    ensures
        r == (a@ == b@),
{
    if a.len() != b.len() {
        return false;
    }
    let n = a.len();
    for i in 0..n
        invariant
            n == a@.len() == b@.len(),
            forall|j: int| 0 <= j < i ==> a@[j] == b@[j],
    {
        if a[i] != b[i] {
            return false;
        }
    }
    assert(a@ =~= b@);
    true
}

/// The index of the first `c` in `b[from..to]`, or `to`.
fn find_in(b: &[u8], from: usize, to: usize, c: u8) -> (r: usize)
    requires
        from <= to <= b@.len(),
    ensures
        from <= r <= to,
        r - from == find_or_len(b@.subrange(from as int, to as int), c),
{
    let mut i = from;
    while i < to && b[i] != c
        invariant
            from <= i <= to <= b@.len(),
            forall|j: int| from <= j < i ==> b@[j] != c,
        decreases to - i,
    {
        i = i + 1;
    }
    proof {
        let s = b@.subrange(from as int, to as int);
        assert forall|j: int| 0 <= j < i - from implies s[j] != c by {
            assert(s[j] == b@[from + j]);
        }
        lemma_find_or_len_unique(s, c, i - from);
    }
    i
}

/// Whether the query `query` has a pair whose decoded key is `key`.
pub fn query_contains_key(query: &str, key: &str) -> (r: bool)
    ensures
        r == query_has_key(query.spec_bytes(), key.spec_bytes()),
{
    let q = query.as_bytes();
    let k = key.as_bytes();
    let n = q.len();
    let mut pos: usize = 0;
    assert(q@.subrange(0, n as int) =~= q@);
    while pos < n
        invariant
            n == q@.len(),
            pos <= n,
            q@ == query.spec_bytes(),
            k@ == key.spec_bytes(),
            query_has_key(q@, k@) == query_has_key(q@.subrange(pos as int, n as int), k@),
        decreases n - pos,
    {
        let end = find_in(q, pos, n, 38);
        let ghost rest = q@.subrange(pos as int, n as int);
        proof {
            lemma_find_or_len(rest, 38);
        }
        let mut found = false;
        if end > pos {
            let eq = find_in(q, pos, end, 61);
            let decoded = form_decode_range(q, pos, eq);
            found = bytes_equal(&decoded, k);
            proof {
                let pair = rest.subrange(0, end - pos);
                assert(pair =~= q@.subrange(pos as int, end as int));
                assert(pair_key(pair) =~= q@.subrange(pos as int, eq as int));
            }
        }
        proof {
            let pair = rest.subrange(0, end - pos);
            assert(pair =~= q@.subrange(pos as int, end as int));
        }
        if found {
            return true;
        }
        if end == n {
            return false;
        }
        proof {
            assert(rest.subrange(end - pos + 1, rest.len() as int) =~= q@.subrange(
                end + 1,
                n as int,
            ));
        }
        pos = end + 1;
    }
    assert(q@.subrange(pos as int, n as int) =~= Seq::<u8>::empty());
    false
}


/// Every byte of a serialization is ASCII and none is `&`, `=` or `#`.
pub proof fn lemma_form_encode_safe(s: Seq<u8>)
    ensures
        forall|i: int|
            0 <= i < form_encode(s).len() ==> #[trigger] form_encode(s)[i] < 128
                && form_encode(s)[i] != 38 && form_encode(s)[i] != 61 && form_encode(s)[i] != 35,
    decreases s.len(),
{
    if s.len() > 0 {
        let t = s.subrange(1, s.len() as int);
        lemma_form_encode_safe(t);
        let e = encode_byte(s[0]);
        assert(forall|i: int| 0 <= i < e.len() ==> #[trigger] e[i] < 128 && e[i] != 38 && e[i]
            != 61 && e[i] != 35);
        assert forall|i: int| 0 <= i < form_encode(s).len() implies #[trigger] form_encode(s)[i]
            < 128 && form_encode(s)[i] != 38 && form_encode(s)[i] != 61 && form_encode(s)[i]
            != 35 by {
            if i >= e.len() {
                assert(form_encode(s)[i] == form_encode(t)[i - e.len()]);
            }
        }
    }
}

/// The UTF-8 encoding of a concatenation is the concatenation of encodings.
pub proof fn lemma_encode_utf8_add(a: Seq<char>, b: Seq<char>)
    ensures
        vstd::utf8::encode_utf8(a + b) == vstd::utf8::encode_utf8(a) + vstd::utf8::encode_utf8(b),
    decreases a.len(),
{
    if a.len() == 0 {
        assert(a + b =~= b);
        assert(Seq::<u8>::empty() + vstd::utf8::encode_utf8(b) =~= vstd::utf8::encode_utf8(b));
    } else {
        lemma_encode_utf8_add(a.drop_first(), b);
        assert((a + b).drop_first() =~= a.drop_first() + b);
        assert((a + b)[0] == a[0]);
        let h = vstd::utf8::encode_scalar(a[0] as u32);
        assert(h + (vstd::utf8::encode_utf8(a.drop_first()) + vstd::utf8::encode_utf8(b)) =~= (h
            + vstd::utf8::encode_utf8(a.drop_first())) + vstd::utf8::encode_utf8(b));
    }
}

/// The UTF-8 encoding of the characters standing for ASCII bytes is those bytes.
pub proof fn lemma_encode_ascii_chars(s: Seq<u8>)
    requires
        forall|i: int| 0 <= i < s.len() ==> #[trigger] s[i] < 128,
    ensures
        vstd::utf8::encode_utf8(ascii_chars(s)) == s,
    decreases s.len(),
{
    if s.len() > 0 {
        let c = ascii_chars(s);
        let t = s.subrange(1, s.len() as int);
        assert(c.drop_first() =~= ascii_chars(t));
        lemma_encode_ascii_chars(t);
        let b = s[0];
        assert(c[0] == b as char);
        let v = (b as char) as u32;
        assert(v == b as u32);
        assert(v < 128);
        assert(vstd::utf8::has_width_1_encoding(v));
        assert(vstd::utf8::leading_byte_width_1(v) == b) by (bit_vector)
            requires
                v == b as u32,
                v < 128,
        ;
        assert(seq![b] + t =~= s);
    }
}

/// In a query that begins with `key=value` (both serialized) and goes on
/// with `&` or ends, the first pair decodes to `key` and `value`, and the
/// query has the key `key`.
pub proof fn lemma_leading_pair(key: Seq<u8>, value: Seq<u8>, rest: Seq<u8>)
    requires
        rest.len() == 0 || rest[0] == 38,
    ensures
        ({
            let q = form_encode(key) + seq![61u8] + form_encode(value) + rest;
            let end = (form_encode(key).len() + 1 + form_encode(value).len()) as int;
            &&& find_or_len(q, 38) == end
            &&& form_decode(pair_key(q.subrange(0, end))) == key
            &&& form_decode(q.subrange(form_encode(key).len() + 1int, end)) == value
            &&& query_has_key(q, key)
            &&& find_or_len(q.subrange(0, end), 61) == form_encode(key).len()
            &&& q.subrange(end, q.len() as int) == rest
        }),
{
    let ek = form_encode(key);
    let ev = form_encode(value);
    let q = ek + seq![61u8] + ev + rest;
    let end = (ek.len() + 1 + ev.len()) as int;
    lemma_form_encode_safe(key);
    lemma_form_encode_safe(value);
    assert forall|j: int| 0 <= j < end implies q[j] != 38 by {
        if j < ek.len() {
            assert(q[j] == ek[j]);
        } else if j > ek.len() {
            assert(q[j] == ev[j - ek.len() - 1]);
        }
    }
    lemma_find_or_len_unique(q, 38, end);
    let pair = q.subrange(0, end);
    assert forall|j: int| 0 <= j < ek.len() implies pair[j] != 61 by {
        assert(pair[j] == ek[j]);
    }
    assert(pair[ek.len() as int] == 61u8);
    lemma_find_or_len_unique(pair, 61, ek.len() as int);
    assert(pair_key(pair) =~= ek);
    assert(q.subrange(ek.len() + 1int, end) =~= ev);
    lemma_form_roundtrip(key);
    lemma_form_roundtrip(value);
    if key.len() == 0 {
        // An empty key serializes to nothing; the pair is still non-empty
        // because of its `=`.
        assert(pair.len() > 0);
    }
    assert(pair.len() > 0);
    lemma_find_or_len(q, 38);
    assert(q.subrange(end, q.len() as int) =~= rest);
}


/// Whether two strings hold the same characters.
pub fn str_eq(a: &str, b: &str) -> (r: bool)
    ensures
        r == (a@ == b@),
{
    let ab = vstd::slice::slice_to_vec(a.as_bytes());
    let r = bytes_equal(&ab, b.as_bytes());
    proof {
        vstd::utf8::encode_utf8_decode_utf8(a@);
        vstd::utf8::encode_utf8_decode_utf8(b@);
    }
    r
}

} // verus!
