//! RFC 8089 `file://` URIs: percent-encoding and decoding of native paths.
use vstd::prelude::*;
use vstd::utf8::*;

use crate::text::string_of;

verus! {

/// Bytes kept verbatim by the encoder: ASCII letters, digits, `-_.~/`.
pub open spec fn is_unreserved(b: u8) -> bool {
    (0x61 <= b <= 0x7a) || (0x41 <= b <= 0x5a) || (0x30 <= b <= 0x39) || b == 0x2d || b == 0x5f
        || b == 0x2e || b == 0x7e || b == 0x2f
}

/// Upper-case hexadecimal digit for a nibble.
pub open spec fn hex_digit(n: u8) -> u8 {
    if n < 10 {
        (0x30 + n) as u8
    } else {
        (0x41 + n - 10) as u8
    }
}

/// Encoding of one byte: itself, or `%XX`.
pub open spec fn enc_byte(b: u8) -> Seq<u8> {
    if is_unreserved(b) {
        seq![b]
    } else {
        seq![0x25u8, hex_digit(b / 16), hex_digit(b % 16)]
    }
}

/// Percent-encoding of a byte string.
pub open spec fn pct_encode(bs: Seq<u8>) -> Seq<u8>
    decreases bs.len(),
{
    if bs.len() == 0 {
        Seq::empty()
    } else {
        enc_byte(bs[0]) + pct_encode(bs.drop_first())
    }
}

/// The scheme prefix `file://`.
pub open spec fn file_scheme() -> Seq<u8> {
    seq![0x66u8, 0x69u8, 0x6cu8, 0x65u8, 0x3au8, 0x2fu8, 0x2fu8]
}

/// The bytes of the URI for a path.
pub open spec fn file_uri_bytes(path: Seq<u8>) -> Seq<u8> {
    file_scheme() + pct_encode(path)
}

/// ASCII bytes viewed as characters.
pub open spec fn ascii_chars(bs: Seq<u8>) -> Seq<char> {
    Seq::new(bs.len(), |i: int| bs[i] as char)
}

/// Value of an ASCII hex digit (either case).
pub open spec fn hex_val(c: u8) -> Option<u8> {
    if 0x30 <= c <= 0x39 {
        Some((c - 0x30) as u8)
    } else if 0x41 <= c <= 0x46 {
        Some((c - 0x41 + 10) as u8)
    } else if 0x61 <= c <= 0x66 {
        Some((c - 0x61 + 10) as u8)
    } else {
        None
    }
}

/// The byte escaped by the two bytes after a `%`, read as a hexadecimal
/// number the way `u8::from_str_radix` reads it: two hex digits (either
/// case), or a `+` sign followed by one.
pub open spec fn hex_pair(a: u8, b: u8) -> Option<u8> {
    if a == 0x2b {
        hex_val(b)
    } else {
        match (hex_val(a), hex_val(b)) {
            (Some(x), Some(y)) => Some((16 * x + y) as u8),
            _ => None,
        }
    }
}

/// Percent-decoding: `%XX` with at least two bytes following becomes one
/// byte; anything else is copied.
pub open spec fn pct_decode(s: Seq<u8>) -> Seq<u8>
    decreases s.len(),
{
    if s.len() == 0 {
        Seq::empty()
    } else if s[0] == 0x25 && s.len() >= 3 && hex_pair(s[1], s[2]) is Some {
        seq![hex_pair(s[1], s[2])->0] + pct_decode(s.skip(3))
    } else {
        seq![s[0]] + pct_decode(s.skip(1))
    }
}

/// Decoding of a whole URI: `None` unless it starts with `file://`; an
/// optional `localhost/` or `/` is dropped and the leading `/` restored;
/// `file://` alone is the root.
pub open spec fn decode_uri(uri: Seq<u8>) -> Option<Seq<u8>> {
    let scheme = file_scheme();
    let localhost = seq![0x6cu8, 0x6fu8, 0x63u8, 0x61u8, 0x6cu8, 0x68u8, 0x6fu8, 0x73u8, 0x74u8, 0x2fu8];
    if uri.len() < 7 || uri.take(7) != scheme {
        None
    } else {
        let raw = uri.skip(7);
        if raw.len() >= 10 && raw.take(10) == localhost {
            Some(seq![0x2fu8] + pct_decode(raw.skip(10)))
        } else if raw.len() >= 1 && raw[0] == 0x2f {
            Some(seq![0x2fu8] + pct_decode(raw.skip(1)))
        } else if raw.len() == 0 {
            Some(seq![0x2fu8])
        } else {
            Some(seq![0x2fu8] + pct_decode(raw))
        }
    }
}

proof fn lemma_pct_encode_push(bs: Seq<u8>, b: u8)
    ensures
        pct_encode(bs.push(b)) == pct_encode(bs) + enc_byte(b),
    decreases bs.len(),
{
    if bs.len() == 0 {
        assert(bs.push(b).drop_first() =~= Seq::<u8>::empty());
        assert(pct_encode(Seq::<u8>::empty()) =~= Seq::<u8>::empty());
        assert(pct_encode(bs) =~= Seq::<u8>::empty());
        assert(pct_encode(bs.push(b)) =~= enc_byte(b) + Seq::<u8>::empty());
        assert(pct_encode(bs.push(b)) =~= pct_encode(bs) + enc_byte(b));
    } else {
        assert(bs.push(b).drop_first() =~= bs.drop_first().push(b));
        lemma_pct_encode_push(bs.drop_first(), b);
        assert(pct_encode(bs.push(b)) =~= pct_encode(bs) + enc_byte(b));
    }
}

proof fn lemma_hex_roundtrip(b: u8)
    ensures
        hex_pair(hex_digit(b / 16), hex_digit(b % 16)) == Some(b),
{
    assert(hex_val(hex_digit(b / 16)) == Some(b / 16));
    assert(hex_val(hex_digit(b % 16)) == Some(b % 16));
}

proof fn lemma_decode_enc_byte(b: u8, t: Seq<u8>)
    ensures
        pct_decode(enc_byte(b) + t) == seq![b] + pct_decode(t),
{
    let s = enc_byte(b) + t;
    if is_unreserved(b) {
        assert(s.skip(1) =~= t);
    } else {
        lemma_hex_roundtrip(b);
        assert(s.skip(3) =~= t);
    }
}

pub proof fn lemma_decode_encode(bs: Seq<u8>)
    ensures
        pct_decode(pct_encode(bs)) == bs,
    decreases bs.len(),
{
    if bs.len() > 0 {
        lemma_decode_enc_byte(bs[0], pct_encode(bs.drop_first()));
        lemma_decode_encode(bs.drop_first());
        assert(bs =~= seq![bs[0]] + bs.drop_first());
    }
}

pub proof fn lemma_encode_ascii(bs: Seq<u8>)
    ensures
        forall|i: int| 0 <= i < pct_encode(bs).len() ==> #[trigger] pct_encode(bs)[i] < 0x80,
        forall|i: int| 0 <= i < pct_encode(bs).len() ==> pct_encode(bs)[i] != 0x25 ==> is_unreserved(#[trigger] pct_encode(bs)[i]),
    decreases bs.len(),
{
    if bs.len() > 0 {
        lemma_encode_ascii(bs.drop_first());
        let e = enc_byte(bs[0]);
        let r = pct_encode(bs.drop_first());
        assert forall|i: int| 0 <= i < pct_encode(bs).len() implies #[trigger] pct_encode(bs)[i] < 0x80 by {
            if i >= e.len() {
                assert(pct_encode(bs)[i] == r[i - e.len()]);
            }
        }
        assert forall|i: int| 0 <= i < pct_encode(bs).len() && pct_encode(bs)[i] != 0x25 implies is_unreserved(#[trigger] pct_encode(bs)[i]) by {
            if i >= e.len() {
                assert(pct_encode(bs)[i] == r[i - e.len()]);
            }
        }
    }
}

/// The URI bytes of a path are ASCII, so the URI string's UTF-8 encoding is
/// exactly those bytes.
pub proof fn lemma_uri_string_bytes(path: Seq<u8>)
    ensures
        encode_utf8(ascii_chars(file_uri_bytes(path))) == file_uri_bytes(path),
{
    let u = file_uri_bytes(path);
    lemma_encode_ascii(path);
    assert forall|i: int| 0 <= i < u.len() implies #[trigger] u[i] < 0x80 by {
        if i >= 7 {
            assert(u[i] == pct_encode(path)[i - 7]);
        }
    }
    let cs = ascii_chars(u);
    assert(is_ascii_chars(cs));
    is_ascii_chars_encode_utf8(cs);
    assert(encode_utf8(cs) =~= u);
}

/// Encode a filesystem path (given by its bytes) into a `file://` URI.
pub fn encode_file_uri_bytes(path: &[u8]) -> (uri: String)
    ensures
        uri@ == ascii_chars(file_uri_bytes(path@)),
{
    let mut out: Vec<u8> = Vec::new();
    out.push(0x66);
    out.push(0x69);
    out.push(0x6c);
    out.push(0x65);
    out.push(0x3a);
    out.push(0x2f);
    out.push(0x2f);
    assert(out@ =~= file_scheme());
    let mut i: usize = 0;
    while i < path.len()
        invariant
            i <= path@.len(),
            out@ == file_scheme() + pct_encode(path@.take(i as int)),
        decreases path.len() - i,
    {
        let b = path[i];
        proof {
            assert(path@.take(i + 1) =~= path@.take(i as int).push(b));
            lemma_pct_encode_push(path@.take(i as int), b);
        }
        if (0x61 <= b && b <= 0x7a) || (0x41 <= b && b <= 0x5a) || (0x30 <= b && b <= 0x39) || b
            == 0x2d || b == 0x5f || b == 0x2e || b == 0x7e || b == 0x2f {
            out.push(b);
        } else {
            let hi = b / 16;
            let lo = b % 16;
            out.push(0x25);
            out.push(if hi < 10 { 0x30 + hi } else { 0x41 + hi - 10 });
            out.push(if lo < 10 { 0x30 + lo } else { 0x41 + lo - 10 });
        }
        assert(out@ =~= file_scheme() + pct_encode(path@.take(i + 1)));
        i = i + 1;
    }
    assert(path@.take(path@.len() as int) =~= path@);
    let mut cs: Vec<char> = Vec::new();
    let mut j: usize = 0;
    while j < out.len()
        invariant
            j <= out@.len(),
            cs@ == ascii_chars(out@.take(j as int)),
        decreases out.len() - j,
    {
        cs.push(out[j] as char);
        assert(cs@ =~= ascii_chars(out@.take(j + 1)));
        j = j + 1;
    }
    assert(out@.take(out@.len() as int) =~= out@);
    string_of(cs.as_slice())
}

/// Encode a filesystem path into a canonical `file://...` URI.
pub fn encode_file_uri(path: &str) -> (uri: String)
    ensures
        uri@ == ascii_chars(file_uri_bytes(encode_utf8(path@))),
{
    encode_file_uri_bytes(path.as_bytes())
}

fn hex_value(c: u8) -> (r: Option<u8>)
    ensures
        r == hex_val(c),
{
    if 0x30 <= c && c <= 0x39 {
        Some(c - 0x30)
    } else if 0x41 <= c && c <= 0x46 {
        Some(c - 0x41 + 10)
    } else if 0x61 <= c && c <= 0x66 {
        Some(c - 0x61 + 10)
    } else {
        None
    }
}

fn hex_pair_value(a: u8, b: u8) -> (r: Option<u8>)
    ensures
        r == hex_pair(a, b),
{
    if a == 0x2b {
        return hex_value(b);
    }
    match (hex_value(a), hex_value(b)) {
        (Some(x), Some(y)) => Some(16 * x + y),
        _ => None,
    }
}

/// Percent-decode `s[start..]`.
pub fn pct_decode_from(s: &[u8], start: usize) -> (r: Vec<u8>)
    requires
        start <= s@.len(),
    ensures
        r@ == pct_decode(s@.skip(start as int)),
{
    let mut out: Vec<u8> = Vec::new();
    let mut i = start;
    let n = s.len();
    while i < n
        invariant
            start <= i <= n == s@.len(),
            out@ + pct_decode(s@.skip(i as int)) == pct_decode(s@.skip(start as int)),
        decreases n - i,
    {
        let ghost rest = s@.skip(i as int);
        if s[i] == 0x25 && n - i > 2 {
            if let Some(v) = hex_pair_value(s[i + 1], s[i + 2]) {
                proof {
                    assert(rest.skip(3) =~= s@.skip(i + 3));
                    assert(out@.push(v) + pct_decode(s@.skip(i + 3)) =~= out@ + pct_decode(rest));
                }
                out.push(v);
                i = i + 3;
                continue;
            }
        }
        proof {
            assert(rest.skip(1) =~= s@.skip(i + 1));
            assert(out@.push(s@[i as int]) + pct_decode(s@.skip(i + 1)) =~= out@ + pct_decode(rest));
        }
        out.push(s[i]);
        i = i + 1;
    }
    assert(pct_decode(s@.skip(n as int)) =~= Seq::<u8>::empty());
    assert(out@ + Seq::<u8>::empty() =~= out@);
    out
}

fn has_prefix_at(s: &[u8], at: usize, p: &[u8]) -> (r: bool)
    requires
        at <= s@.len(),
    ensures
        r == (s@.len() - at >= p@.len() && s@.skip(at as int).take(p@.len() as int) == p@),
{
    let n = s.len();
    if n - at < p.len() {
        return false;
    }
    let mut k: usize = 0;
    while k < p.len()
        invariant
            k <= p@.len(),
            n == s@.len(),
            at + p@.len() <= n,
            forall|j: int| 0 <= j < k ==> s@[at + j] == p@[j],
        decreases p.len() - k,
    {
        if s[at + k] != p[k] {
            assert(s@.skip(at as int).take(p@.len() as int)[k as int] == s@[at + k]);
            return false;
        }
        k = k + 1;
    }
    assert(s@.skip(at as int).take(p@.len() as int) =~= p@);
    true
}

/// Decode a `file://` URI into the bytes of a native path.
/// Handles `file:///path`, `file://localhost/path` and percent-encoded bytes.
pub fn decode_file_uri_bytes(uri: &[u8]) -> (r: Option<Vec<u8>>)
    ensures
        match r {
            Some(v) => decode_uri(uri@) == Some(v@),
            None => decode_uri(uri@) is None,
        },
{
    let scheme: [u8; 7] = [0x66, 0x69, 0x6c, 0x65, 0x3a, 0x2f, 0x2f];
    let localhost: [u8; 10] = [0x6c, 0x6f, 0x63, 0x61, 0x6c, 0x68, 0x6f, 0x73, 0x74, 0x2f];
    assert(scheme@ =~= file_scheme());
    assert(localhost@ =~= seq![0x6cu8, 0x6fu8, 0x63u8, 0x61u8, 0x6cu8, 0x68u8, 0x6fu8, 0x73u8, 0x74u8, 0x2fu8]);
    let n = uri.len();
    if !has_prefix_at(uri, 0, &scheme) {
        assert(uri@.skip(0) =~= uri@);
        return None;
    }
    assert(uri@.skip(0) =~= uri@);
    let ghost raw = uri@.skip(7);
    let start: usize = if has_prefix_at(uri, 7, &localhost) {
        assert(uri@.skip(17) =~= raw.skip(10));
        17
    } else if n > 7 && uri[7] == 0x2f {
        assert(uri@.skip(8) =~= raw.skip(1));
        8
    } else if n == 7 {
        let mut root: Vec<u8> = Vec::new();
        root.push(0x2f);
        return Some(root);
    } else {
        7
    };
    let body = pct_decode_from(uri, start);
    let mut out: Vec<u8> = Vec::new();
    out.push(0x2f);
    let mut k: usize = 0;
    while k < body.len()
        invariant
            k <= body@.len(),
            out@ == seq![0x2fu8] + body@.take(k as int),
        decreases body.len() - k,
    {
        out.push(body[k]);
        assert(out@ =~= seq![0x2fu8] + body@.take(k + 1));
        k = k + 1;
    }
    assert(body@.take(body@.len() as int) =~= body@);
    Some(out)
}

/// Decode a `file://` URI into the bytes of a native path.
pub fn decode_file_uri(uri: &str) -> (r: Option<Vec<u8>>)
    ensures
        match r {
            Some(v) => decode_uri(encode_utf8(uri@)) == Some(v@),
            None => decode_uri(encode_utf8(uri@)) is None,
        },
{
    decode_file_uri_bytes(uri.as_bytes())
}

/// A byte written as it is in a URI: an ASCII letter or digit, `-`, `_`,
/// `.`, `~` or `/`.
pub open spec fn kept_in_uri(b: u8) -> bool {
    (0x61 <= b <= 0x7a) || (0x41 <= b <= 0x5a) || (0x30 <= b <= 0x39) || b == 0x2d || b == 0x5f || b == 0x2e
        || b == 0x7e || b == 0x2f
}

/// An upper-case hexadecimal digit.
pub open spec fn upper_hex(b: u8) -> bool {
    (0x30 <= b <= 0x39) || (0x41 <= b <= 0x46)
}

proof fn lemma_encode_shape(bs: Seq<u8>)
    ensures
        forall|i: int| 0 <= i < pct_encode(bs).len() ==> kept_in_uri(#[trigger] pct_encode(bs)[i]) || pct_encode(bs)[i] == 0x25 || upper_hex(pct_encode(bs)[i]),
        forall|i: int|
            0 <= i < pct_encode(bs).len() && #[trigger] pct_encode(bs)[i] == 0x25 ==> i + 2 < pct_encode(bs).len() && upper_hex(
                pct_encode(bs)[i + 1],
            ) && upper_hex(pct_encode(bs)[i + 2]),
        forall|i: int| 0 <= i < pct_encode(bs).len() ==> (#[trigger] pct_encode(bs)[i] != 0x25 && !kept_in_uri(pct_encode(bs)[i])) ==> i > 0 && (pct_encode(bs)[i - 1] == 0x25 || (i > 1 && pct_encode(bs)[i - 2] == 0x25)),
        (forall|j: int| 0 <= j < bs.len() ==> kept_in_uri(#[trigger] bs[j])) ==> pct_encode(bs) == bs,
    decreases bs.len(),
{
    if bs.len() > 0 {
        let b = bs[0];
        let t = bs.drop_first();
        lemma_encode_shape(t);
        let e = enc_byte(b);
        let r = pct_encode(t);
        let u = pct_encode(bs);
        assert(u == e + r);
        if !kept_in_uri(b) {
            assert(hex_digit(b / 16) == if b / 16 < 10 { (0x30 + b / 16) as u8 } else { (0x41 + b / 16 - 10) as u8 });
            assert(upper_hex(hex_digit(b / 16)));
            assert(upper_hex(hex_digit(b % 16)));
        }
        assert forall|i: int| 0 <= i < u.len() implies kept_in_uri(#[trigger] u[i]) || u[i] == 0x25 || upper_hex(u[i]) by {
            if i >= e.len() {
                assert(u[i] == r[i - e.len()]);
            }
        }
        assert forall|i: int| 0 <= i < u.len() && #[trigger] u[i] == 0x25 implies i + 2 < u.len() && upper_hex(u[i + 1]) && upper_hex(u[i + 2]) by {
            if i >= e.len() {
                assert(u[i] == r[i - e.len()]);
                assert(u[i + 1] == r[i + 1 - e.len()]);
                assert(u[i + 2] == r[i + 2 - e.len()]);
            }
        }
        assert forall|i: int| 0 <= i < u.len() implies (#[trigger] u[i] != 0x25 && !kept_in_uri(u[i])) ==> i > 0 && (u[i - 1] == 0x25 || (i > 1 && u[i - 2] == 0x25)) by {
            if i >= e.len() {
                assert(u[i] == r[i - e.len()]);
                if u[i] != 0x25 && !kept_in_uri(u[i]) {
                    let i2 = i - e.len();
                    assert(i2 > 0);
                    assert(u[i - 1] == r[i2 - 1]);
                    if i2 > 1 {
                        assert(u[i - 2] == r[i2 - 2]);
                    }
                }
            }
        }
        if forall|j: int| 0 <= j < bs.len() ==> kept_in_uri(#[trigger] bs[j]) {
            assert(kept_in_uri(bs[0]));
            assert forall|j: int| 0 <= j < t.len() implies kept_in_uri(#[trigger] t[j]) by {
                assert(t[j] == bs[j + 1]);
            }
            assert(u =~= bs);
        }
    }
}

/// What a `file://` URI of a path is made of: the scheme, then only ASCII
/// letters, digits, `-`, `_`, `.`, `~`, `/` and escapes `%XX` of two
/// upper-case hex digits (so no `?`, `#`, space or `%` stands bare); a path
/// made only of letters, digits, `-`, `_`, `.`, `~` and `/` is written as it is.
pub proof fn law_uri_alphabet(path: Seq<u8>)
    ensures
        ({
            let u = file_uri_bytes(path);
            &&& u.take(7) == seq![0x66u8, 0x69u8, 0x6cu8, 0x65u8, 0x3au8, 0x2fu8, 0x2fu8]
            &&& forall|i: int| 7 <= i < u.len() ==> kept_in_uri(#[trigger] u[i]) || u[i] == 0x25 || upper_hex(u[i])
            &&& forall|i: int| 7 <= i < u.len() && #[trigger] u[i] == 0x25 ==> i + 2 < u.len() && upper_hex(u[i + 1]) && upper_hex(u[i + 2])
            &&& forall|i: int| 7 <= i < u.len() ==> (#[trigger] u[i] != 0x25 && !kept_in_uri(u[i])) ==> (u[i - 1] == 0x25 || u[i - 2] == 0x25)
            &&& (forall|j: int| 0 <= j < path.len() ==> kept_in_uri(#[trigger] path[j])) ==> u == file_scheme() + path
        }),
{
    lemma_encode_shape(path);
    let u = file_uri_bytes(path);
    let e = pct_encode(path);
    assert(u.take(7) =~= seq![0x66u8, 0x69u8, 0x6cu8, 0x65u8, 0x3au8, 0x2fu8, 0x2fu8]);
    assert forall|i: int| 7 <= i < u.len() implies kept_in_uri(#[trigger] u[i]) || u[i] == 0x25 || upper_hex(u[i]) by {
        assert(u[i] == e[i - 7]);
    }
    assert forall|i: int| 7 <= i < u.len() && #[trigger] u[i] == 0x25 implies i + 2 < u.len() && upper_hex(u[i + 1]) && upper_hex(u[i + 2]) by {
        assert(u[i] == e[i - 7]);
        assert(u[i + 1] == e[i - 6]);
        assert(u[i + 2] == e[i - 5]);
    }
    assert forall|i: int| 7 <= i < u.len() implies (#[trigger] u[i] != 0x25 && !kept_in_uri(u[i])) ==> (u[i - 1] == 0x25 || u[i - 2] == 0x25) by {
        assert(u[i] == e[i - 7]);
        if u[i] != 0x25 && !kept_in_uri(u[i]) {
            assert(u[i - 1] == e[i - 8]);
            if i - 7 > 1 {
                assert(u[i - 2] == e[i - 9]);
            }
        }
    }
}

/// Decoding the URI of an absolute path gives the path back.
pub proof fn law_file_uri_roundtrip(path: Seq<u8>)
    requires
        path.len() > 0,
        path[0] == 0x2f,
    ensures
        decode_uri(file_uri_bytes(path)) == Some(path),
        decode_uri(encode_utf8(ascii_chars(file_uri_bytes(path)))) == Some(path),
{
    lemma_uri_string_bytes(path);
    let u = file_uri_bytes(path);
    let rest = path.drop_first();
    assert(pct_encode(path) == seq![0x2fu8] + pct_encode(rest));
    assert(u.take(7) =~= file_scheme());
    let raw = u.skip(7);
    assert(raw =~= pct_encode(path));
    assert(raw[0] == 0x2f);
    // `localhost/` would need raw[0] == 'l'
    assert(raw.skip(1) =~= pct_encode(rest));
    lemma_decode_encode(rest);
    assert(seq![0x2fu8] + rest =~= path);
}

} // verus!
