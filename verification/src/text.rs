//! Character-sequence helpers shared by every parser in the crate.
//!
//! Text is handled as `Vec<char>` internally so that every scan has an exact
//! specification over `Seq<char>`.
use vstd::prelude::*;

verus! {

/// The characters of `s`, in order.
pub fn chars_of(s: &str) -> (out: Vec<char>)
    ensures
        out@ == s@,
{
    let mut out: Vec<char> = Vec::new();
    for c in it: s.chars()
        invariant
            out@ == it.seq().take(it.index() as int),
    {
        out.push(c);
    }
    out
}

/// Builds a `String` holding exactly the characters `cs`
/// (`String::from_iter` over the slice).
#[verifier::external_body]
pub(crate) fn string_of(cs: &[char]) -> (s: String)
    ensures
        s@ == cs@,
{
    String::from_iter(cs.iter())
}

/// Unicode `White_Space` property, as used by `char::is_whitespace` and `str::trim`.
pub open spec fn is_ws(c: char) -> bool {
    let v = c as u32;
    ||| (0x09 <= v <= 0x0d)
    ||| v == 0x20
    ||| v == 0x85
    ||| v == 0xa0
    ||| v == 0x1680
    ||| (0x2000 <= v <= 0x200a)
    ||| v == 0x2028
    ||| v == 0x2029
    ||| v == 0x202f
    ||| v == 0x205f
    ||| v == 0x3000
}

/// Whether `c` is Unicode whitespace.
pub fn char_is_ws(c: char) -> (b: bool)
    ensures
        b == is_ws(c),
{
    let v = c as u32;
    (0x09 <= v && v <= 0x0d) || v == 0x20 || v == 0x85 || v == 0xa0 || v == 0x1680 || (0x2000
        <= v && v <= 0x200a) || v == 0x2028 || v == 0x2029 || v == 0x202f || v == 0x205f || v
        == 0x3000
}

/// ASCII lower-casing of one character (other characters are unchanged).
pub open spec fn ascii_lower(c: char) -> char {
    if 'A' <= c <= 'Z' {
        ((c as u32) + 32) as char
    } else {
        c
    }
}

/// ASCII lower-casing of one character (see [`ascii_lower`]).
pub(crate) fn char_ascii_lower(c: char) -> (r: char)
    ensures
        r == ascii_lower(c),
{
    if 'A' <= c && c <= 'Z' {
        let v: u32 = (c as u32) + 32;
        let b: u8 = v as u8;
        b as char
    } else {
        c
    }
}

/// ASCII lower-casing of a whole sequence.
pub open spec fn ascii_lower_seq(s: Seq<char>) -> Seq<char> {
    Seq::new(s.len(), |i: int| ascii_lower(s[i]))
}

/// Unicode lower-casing as performed by `str::to_lowercase`.
pub uninterp spec fn lower(s: Seq<char>) -> Seq<char>;

/// `str::to_lowercase`: full Unicode lower-casing, named by [`lower`].
#[verifier::external_body]
pub(crate) fn lowercase(s: &[char]) -> (r: Vec<char>)
    ensures
        r@ == lower(s@),
{
    let text: String = s.iter().collect();
    text.to_lowercase().chars().collect()
}

/// Index of the first non-whitespace character (or `s.len()`).
pub open spec fn trim_start_idx(s: Seq<char>) -> int
    decreases s.len(),
{
    if s.len() == 0 {
        0
    } else if is_ws(s[0]) {
        1 + trim_start_idx(s.drop_first())
    } else {
        0
    }
}

/// One past the last non-whitespace character (or `0`).
pub open spec fn trim_end_idx(s: Seq<char>) -> int
    decreases s.len(),
{
    if s.len() == 0 {
        0
    } else if is_ws(s.last()) {
        trim_end_idx(s.drop_last())
    } else {
        s.len() as int
    }
}

/// `str::trim`.
pub open spec fn trim(s: Seq<char>) -> Seq<char> {
    let a = trim_start_idx(s);
    let b = trim_end_idx(s);
    if a < b {
        s.subrange(a, b)
    } else {
        Seq::empty()
    }
}

pub proof fn lemma_trim_start_idx(s: Seq<char>)
    ensures
        0 <= trim_start_idx(s) <= s.len(),
        forall|i: int| 0 <= i < trim_start_idx(s) ==> is_ws(#[trigger] s[i]),
        trim_start_idx(s) < s.len() ==> !is_ws(s[trim_start_idx(s)]),
    decreases s.len(),
{
    if s.len() > 0 && is_ws(s[0]) {
        lemma_trim_start_idx(s.drop_first());
        assert forall|i: int| 0 <= i < trim_start_idx(s) implies is_ws(#[trigger] s[i]) by {
            if i > 0 {
                assert(s[i] == s.drop_first()[i - 1]);
            }
        }
    }
}

pub proof fn lemma_trim_end_idx(s: Seq<char>)
    ensures
        0 <= trim_end_idx(s) <= s.len(),
        forall|i: int| trim_end_idx(s) <= i < s.len() ==> is_ws(#[trigger] s[i]),
        trim_end_idx(s) > 0 ==> !is_ws(s[trim_end_idx(s) - 1]),
    decreases s.len(),
{
    if s.len() > 0 && is_ws(s.last()) {
        lemma_trim_end_idx(s.drop_last());
        assert forall|i: int| trim_end_idx(s) <= i < s.len() implies is_ws(#[trigger] s[i]) by {
            if i < s.len() - 1 {
                assert(s[i] == s.drop_last()[i]);
            }
        }
    }
}

/// Characterisation of the start index by its two defining properties.
pub proof fn lemma_trim_start_unique(s: Seq<char>, k: int)
    requires
        0 <= k <= s.len(),
        forall|i: int| 0 <= i < k ==> is_ws(#[trigger] s[i]),
        k < s.len() ==> !is_ws(s[k]),
    ensures
        trim_start_idx(s) == k,
{
    lemma_trim_start_idx(s);
    let t = trim_start_idx(s);
    if t < k {
        assert(is_ws(s[t]));
    }
    if k < t {
        assert(is_ws(s[k]));
    }
}

pub proof fn lemma_trim_end_unique(s: Seq<char>, k: int)
    requires
        0 <= k <= s.len(),
        forall|i: int| k <= i < s.len() ==> is_ws(#[trigger] s[i]),
        k > 0 ==> !is_ws(s[k - 1]),
    ensures
        trim_end_idx(s) == k,
{
    lemma_trim_end_idx(s);
    let t = trim_end_idx(s);
    if t < k {
        assert(is_ws(s[k - 1]));
    }
    if k < t {
        assert(is_ws(s[t - 1]));
    }
}

/// Bounds `(a, b)` of `trim(s@)` inside `s` (`a == b` when it is empty).
pub fn trim_bounds(s: &[char]) -> (r: (usize, usize))
    ensures
        r.0 <= r.1 <= s@.len(),
        s@.subrange(r.0 as int, r.1 as int) == trim(s@),
{
    let n = s.len();
    let mut a: usize = 0;
    while a < n && char_is_ws(s[a])
        invariant
            a <= n == s@.len(),
            forall|i: int| 0 <= i < a ==> is_ws(#[trigger] s@[i]),
        decreases n - a,
    {
        a = a + 1;
    }
    proof {
        lemma_trim_start_unique(s@, a as int);
    }
    let mut b: usize = n;
    while b > a && char_is_ws(s[b - 1])
        invariant
            a <= b <= n == s@.len(),
            forall|i: int| b <= i < n ==> is_ws(#[trigger] s@[i]),
            a < n ==> !is_ws(s@[a as int]),
        decreases b,
    {
        b = b - 1;
    }
    proof {
        if b > 0 {
            if b == a {
                // all of s@[a..] is whitespace, so the end index is a or below it
                lemma_trim_end_idx(s@);
                if a < n {
                    assert(is_ws(s@[a as int]));
                }
            }
        }
        lemma_trim_end_idx(s@);
        let e = trim_end_idx(s@);
        if a < b {
            lemma_trim_end_unique(s@, b as int);
        } else {
            // a == b: every char from a on is whitespace, so trim is empty
            if e > a {
                assert(!is_ws(s@[e - 1]));
                assert(is_ws(s@[e - 1]));
            }
        }
    }
    (a, b)
}

/// `str::trim` on a character slice.
pub fn trimmed(s: &[char]) -> (r: Vec<char>)
    ensures
        r@ == trim(s@),
{
    let (a, b) = trim_bounds(s);
    slice_to_vec(s, a, b)
}

/// Copy of `s[a..b]`.
pub fn slice_to_vec(s: &[char], a: usize, b: usize) -> (r: Vec<char>)
    requires
        a <= b <= s@.len(),
    ensures
        r@ == s@.subrange(a as int, b as int),
{
    let mut r: Vec<char> = Vec::new();
    let mut i = a;
    while i < b
        invariant
            a <= i <= b <= s@.len(),
            r@ == s@.subrange(a as int, i as int),
        decreases b - i,
    {
        r.push(s[i]);
        i = i + 1;
    }
    r
}

/// Appends all of `src` to `dst`.
pub fn push_all(dst: &mut Vec<char>, src: &[char])
    ensures
        final(dst)@ == old(dst)@ + src@,
{
    let mut i: usize = 0;
    while i < src.len()
        invariant
            i <= src@.len(),
            dst@ == old(dst)@ + src@.subrange(0, i as int),
        decreases src.len() - i,
    {
        dst.push(src[i]);
        i = i + 1;
    }
}

/// Appends the characters of `src` to `dst`.
pub fn push_str(dst: &mut Vec<char>, src: &str)
    ensures
        final(dst)@ == old(dst)@ + src@,
{
    let cs = chars_of(src);
    push_all(dst, cs.as_slice());
}

/// Whether two character slices are equal.
pub fn eq_chars(a: &[char], b: &[char]) -> (r: bool)
    ensures
        r == (a@ == b@),
{
    if a.len() != b.len() {
        return false;
    }
    let mut i: usize = 0;
    while i < a.len()
        invariant
            i <= a@.len() == b@.len(),
            forall|j: int| 0 <= j < i ==> a@[j] == b@[j],
        decreases a.len() - i,
    {
        if a[i] != b[i] {
            return false;
        }
        i = i + 1;
    }
    assert(a@ =~= b@);
    true
}

/// Whether `p` is a prefix of `s`.
pub open spec fn is_prefix(p: Seq<char>, s: Seq<char>) -> bool {
    p.len() <= s.len() && s.subrange(0, p.len() as int) == p
}

/// Whether `p` is a suffix of `s`.
pub open spec fn is_suffix(p: Seq<char>, s: Seq<char>) -> bool {
    p.len() <= s.len() && s.subrange(s.len() - p.len(), s.len() as int) == p
}

pub fn starts_with(s: &[char], p: &[char]) -> (r: bool)
    ensures
        r == is_prefix(p@, s@),
{
    if p.len() > s.len() {
        return false;
    }
    let mut i: usize = 0;
    while i < p.len()
        invariant
            i <= p@.len() <= s@.len(),
            forall|j: int| 0 <= j < i ==> s@[j] == p@[j],
        decreases p.len() - i,
    {
        if s[i] != p[i] {
            assert(s@.subrange(0, p@.len() as int)[i as int] == s@[i as int]);
            return false;
        }
        i = i + 1;
    }
    assert(s@.subrange(0, p@.len() as int) =~= p@);
    true
}

pub fn ends_with(s: &[char], p: &[char]) -> (r: bool)
    ensures
        r == is_suffix(p@, s@),
{
    if p.len() > s.len() {
        return false;
    }
    let n = s.len();
    let off = n - p.len();
    let mut i: usize = 0;
    while i < p.len()
        invariant
            n == s@.len(),
            i <= p@.len() <= s@.len(),
            off + p@.len() == s@.len(),
            forall|j: int| 0 <= j < i ==> s@[off + j] == p@[j],
        decreases p.len() - i,
    {
        if s[off + i] != p[i] {
            assert(s@.subrange(off as int, s@.len() as int)[i as int] == s@[off + i]);
            return false;
        }
        i = i + 1;
    }
    assert(s@.subrange(off as int, s@.len() as int) =~= p@);
    true
}

/// Index of the first occurrence of `c` at or after `from`, if any.
pub open spec fn find_from(s: Seq<char>, c: char, from: int) -> int
    decreases s.len() - from,
{
    if from >= s.len() {
        s.len() as int
    } else if from < 0 {
        find_from(s, c, 0)
    } else if s[from] == c {
        from
    } else {
        find_from(s, c, from + 1)
    }
}

pub proof fn lemma_find_from(s: Seq<char>, c: char, from: int)
    requires
        0 <= from <= s.len(),
    ensures
        from <= find_from(s, c, from) <= s.len(),
        forall|i: int| from <= i < find_from(s, c, from) ==> s[i] != c,
        find_from(s, c, from) < s.len() ==> s[find_from(s, c, from)] == c,
    decreases s.len() - from,
{
    if from < s.len() && s[from] != c {
        lemma_find_from(s, c, from + 1);
    }
}

/// Index of the first `c` at or after `from` (or `s.len()`).
pub fn find_char(s: &[char], c: char, from: usize) -> (r: usize)
    requires
        from <= s@.len(),
    ensures
        r == find_from(s@, c, from as int),
{
    let mut i = from;
    while i < s.len() && s[i] != c
        invariant
            from <= i <= s@.len(),
            find_from(s@, c, from as int) == find_from(s@, c, i as int),
        decreases s.len() - i,
    {
        i = i + 1;
    }
    i
}

/// Whether `c` occurs in `s`.
pub fn contains_char(s: &[char], c: char) -> (r: bool)
    ensures
        r == s@.contains(c),
{
    let mut i: usize = 0;
    while i < s.len()
        invariant
            i <= s@.len(),
            forall|j: int| 0 <= j < i ==> s@[j] != c,
        decreases s.len() - i,
    {
        if s[i] == c {
            return true;
        }
        i = i + 1;
    }
    false
}

/// Index of the last `c` in `s`, if any.
pub open spec fn rfind(s: Seq<char>, c: char) -> Option<int>
    decreases s.len(),
{
    if s.len() == 0 {
        None
    } else if s.last() == c {
        Some(s.len() - 1)
    } else {
        rfind(s.drop_last(), c)
    }
}

pub proof fn lemma_rfind(s: Seq<char>, c: char)
    ensures
        match rfind(s, c) {
            Some(i) => 0 <= i < s.len() && s[i] == c && forall|j: int| i < j < s.len() ==> s[j]
                != c,
            None => forall|j: int| 0 <= j < s.len() ==> s[j] != c,
        },
    decreases s.len(),
{
    if s.len() > 0 && s.last() != c {
        lemma_rfind(s.drop_last(), c);
        match rfind(s, c) {
            Some(i) => {
                assert forall|j: int| i < j < s.len() implies s[j] != c by {
                    if j < s.len() - 1 {
                        assert(s[j] == s.drop_last()[j]);
                    }
                }
            },
            None => {
                assert forall|j: int| 0 <= j < s.len() implies s[j] != c by {
                    if j < s.len() - 1 {
                        assert(s[j] == s.drop_last()[j]);
                    }
                }
            },
        }
    }
}

/// Unique characterisation of `rfind`.
pub proof fn lemma_rfind_unique(s: Seq<char>, c: char, k: int)
    requires
        0 <= k < s.len(),
        s[k] == c,
        forall|j: int| k < j < s.len() ==> s[j] != c,
    ensures
        rfind(s, c) == Some(k),
{
    lemma_rfind(s, c);
    match rfind(s, c) {
        Some(i) => {
            if i < k {
            }
            if k < i {
            }
        },
        None => {},
    }
}

pub proof fn lemma_rfind_none(s: Seq<char>, c: char)
    requires
        forall|j: int| 0 <= j < s.len() ==> s[j] != c,
    ensures
        rfind(s, c) == None::<int>,
{
    lemma_rfind(s, c);
    match rfind(s, c) {
        Some(i) => {
            assert(s[i] == c);
        },
        None => {},
    }
}

/// Index of the last `c` in `s`.
pub fn rfind_char(s: &[char], c: char) -> (r: Option<usize>)
    ensures
        match r {
            Some(i) => rfind(s@, c) == Some(i as int),
            None => rfind(s@, c) == None::<int>,
        },
{
    let mut i = s.len();
    while i > 0
        invariant
            i <= s@.len(),
            forall|j: int| i <= j < s@.len() ==> s@[j] != c,
        decreases i,
    {
        if s[i - 1] == c {
            proof {
                lemma_rfind_unique(s@, c, i - 1);
            }
            return Some(i - 1);
        }
        i = i - 1;
    }
    proof {
        lemma_rfind_none(s@, c);
    }
    None
}

/// The part after the last `sep` (the whole of `s` when there is none):
/// `s.rsplit(sep).next()`.
pub open spec fn last_segment(s: Seq<char>, sep: char) -> Seq<char> {
    match rfind(s, sep) {
        Some(i) => s.subrange(i + 1, s.len() as int),
        None => s,
    }
}

pub fn last_segment_of(s: &[char], sep: char) -> (r: Vec<char>)
    ensures
        r@ == last_segment(s@, sep),
{
    proof {
        lemma_rfind(s@, sep);
    }
    let n = s.len();
    match rfind_char(s, sep) {
        Some(i) => {
            assert(i < n);
            slice_to_vec(s, i + 1, n)
        },
        None => slice_to_vec(s, 0, s.len()),
    }
}

/// Lexicographic comparison by code point: `-1`, `0` or `1`
/// (the order of `str::cmp`).
pub open spec fn lexord(a: Seq<char>, b: Seq<char>) -> int
    decreases a.len(),
{
    if a.len() == 0 && b.len() == 0 {
        0
    } else if a.len() == 0 {
        -1
    } else if b.len() == 0 {
        1
    } else if a[0] < b[0] {
        -1
    } else if a[0] > b[0] {
        1
    } else {
        lexord(a.drop_first(), b.drop_first())
    }
}

pub proof fn lemma_lexord_antisym(a: Seq<char>, b: Seq<char>)
    ensures
        lexord(a, b) == -lexord(b, a),
        -1 <= lexord(a, b) <= 1,
    decreases a.len(),
{
    if a.len() > 0 && b.len() > 0 && a[0] == b[0] {
        lemma_lexord_antisym(a.drop_first(), b.drop_first());
    }
}

pub proof fn lemma_lexord_trans(a: Seq<char>, b: Seq<char>, c: Seq<char>)
    requires
        lexord(a, b) <= 0,
        lexord(b, c) <= 0,
    ensures
        lexord(a, c) <= 0,
    decreases a.len(),
{
    if a.len() > 0 && b.len() > 0 && c.len() > 0 && a[0] == b[0] && b[0] == c[0] {
        lemma_lexord_trans(a.drop_first(), b.drop_first(), c.drop_first());
    }
}

/// Strings that compare equal are equal.
pub proof fn lemma_lexord_zero(a: Seq<char>, b: Seq<char>)
    requires
        lexord(a, b) == 0,
    ensures
        a == b,
    decreases a.len(),
{
    if a.len() > 0 && b.len() > 0 && a[0] == b[0] {
        lemma_lexord_zero(a.drop_first(), b.drop_first());
        assert(a =~= seq![a[0]] + a.drop_first());
        assert(b =~= seq![b[0]] + b.drop_first());
    }
}

pub proof fn lemma_lexord_refl(a: Seq<char>)
    ensures
        lexord(a, a) == 0,
    decreases a.len(),
{
    if a.len() > 0 {
        lemma_lexord_refl(a.drop_first());
    }
}

/// Exec form of [`lexord`].
pub fn lex_compare(a: &[char], b: &[char]) -> (r: i8)
    ensures
        r as int == lexord(a@, b@),
{
    let mut i: usize = 0;
    assert(a@.skip(0) =~= a@);
    assert(b@.skip(0) =~= b@);
    loop
        invariant
            i <= a@.len(),
            i <= b@.len(),
            lexord(a@.skip(i as int), b@.skip(i as int)) == lexord(a@, b@),
        decreases a@.len() - i,
    {
        let ghost sa = a@.skip(i as int);
        let ghost sb = b@.skip(i as int);
        if i == a.len() && i == b.len() {
            return 0;
        } else if i == a.len() {
            return -1;
        } else if i == b.len() {
            return 1;
        } else if a[i] < b[i] {
            return -1;
        } else if a[i] > b[i] {
            return 1;
        }
        assert(sa.drop_first() =~= a@.skip(i + 1));
        assert(sb.drop_first() =~= b@.skip(i + 1));
        i = i + 1;
    }
}

/// Whether `t` occurs as a contiguous piece of `s`.
pub open spec fn contains_sub(s: Seq<char>, t: Seq<char>) -> bool {
    exists|i: int| 0 <= i && i + t.len() <= s.len() && #[trigger] s.subrange(i, i + t.len()) == t
}

fn matches_at(s: &[char], i: usize, t: &[char]) -> (r: bool)
    requires
        i + t@.len() <= s@.len(),
    ensures
        r == (s@.subrange(i as int, i + t@.len()) == t@),
{
    let mut k: usize = 0;
    let n = s.len();
    while k < t.len()
        invariant
            k <= t@.len(),
            n == s@.len(),
            i + t@.len() <= s@.len(),
            forall|j: int| 0 <= j < k ==> s@[i + j] == t@[j],
        decreases t.len() - k,
    {
        if s[i + k] != t[k] {
            assert(s@.subrange(i as int, i + t@.len())[k as int] == s@[i + k]);
            return false;
        }
        k = k + 1;
    }
    assert(s@.subrange(i as int, i + t@.len()) =~= t@);
    true
}

/// `str::contains` for a pattern string.
pub fn contains_chars(s: &[char], t: &[char]) -> (r: bool)
    ensures
        r == contains_sub(s@, t@),
{
    if t.len() > s.len() {
        return false;
    }
    if t.len() == 0 {
        assert(s@.subrange(0int, 0int + t@.len()) =~= t@);
        return true;
    }
    let n = s.len();
    let last = n - t.len();
    let mut i: usize = 0;
    while i <= last
        invariant
            n == s@.len(),
            last + t@.len() == s@.len(),
            t@.len() > 0,
            i <= last + 1,
            forall|j: int| 0 <= j < i ==> #[trigger] s@.subrange(j, j + t@.len()) != t@,
        decreases last + 1 - i,
    {
        if matches_at(s, i, t) {
            return true;
        }
        i = i + 1;
    }
    false
}

} // verus!
verus! {

/// What `String::from_utf8_lossy` yields: invalid sequences become U+FFFD.
pub uninterp spec fn utf8_lossy(b: Seq<u8>) -> Seq<char>;

/// `String::from_utf8_lossy`: valid UTF-8 decodes exactly; invalid sequences
/// are replaced (the replacement itself is only named, by [`utf8_lossy`]).
#[verifier::external_body]
pub(crate) fn string_from_utf8_lossy(b: &[u8]) -> (s: String)
    ensures
        s@ == utf8_lossy(b@),
        vstd::utf8::valid_utf8(b@) ==> s@ == vstd::utf8::decode_utf8(b@),
{
    String::from_utf8_lossy(b).into_owned()
}

/// `String::from_utf8`: `Some` exactly for valid UTF-8.
#[verifier::external_body]
pub(crate) fn string_from_utf8(b: Vec<u8>) -> (s: Option<String>)
    ensures
        s is Some <==> vstd::utf8::valid_utf8(b@),
        s matches Some(t) ==> t@ == vstd::utf8::decode_utf8(b@),
{
    String::from_utf8(b).ok()
}

/// Whether two strings are equal.
pub fn str_eq(a: &str, b: &str) -> (r: bool)
    ensures
        r == (a@ == b@),
{
    let x = chars_of(a);
    let y = chars_of(b);
    eq_chars(x.as_slice(), y.as_slice())
}

/// `split_once(c)`: the parts before and after the first `c`.
pub open spec fn split_once(s: Seq<char>, c: char) -> Option<(Seq<char>, Seq<char>)> {
    let i = find_from(s, c, 0);
    if i < s.len() {
        Some((s.subrange(0, i), s.subrange(i + 1, s.len() as int)))
    } else {
        None
    }
}

pub fn split_once_chars(s: &[char], c: char) -> (r: Option<(Vec<char>, Vec<char>)>)
    ensures
        match r {
            Some((a, b)) => split_once(s@, c) == Some((a@, b@)),
            None => split_once(s@, c) is None,
        },
{
    let i = find_char(s, c, 0);
    proof {
        lemma_find_from(s@, c, 0);
    }
    if i < s.len() {
        Some((slice_to_vec(s, 0, i), slice_to_vec(s, i + 1, s.len())))
    } else {
        None
    }
}

} // verus!
verus! {

/// A line as produced by `str::lines`: a `\r` just before the `\n` is dropped.
pub open spec fn line_body(s: Seq<char>, start: int, end: int) -> Seq<char> {
    if end < s.len() && end > start && s[end - 1] == '\r' {
        s.subrange(start, end - 1)
    } else {
        s.subrange(start, end)
    }
}

/// The lines of `s[i..]` (`str::lines`: split at `\n`, `\r\n` accepted, no
/// final empty line).
pub open spec fn lines_from(s: Seq<char>, i: int) -> Seq<Seq<char>>
    decreases s.len() - i,
    when 0 <= i <= s.len()
{
    if i >= s.len() {
        Seq::empty()
    } else {
        let j = find_from(s, '\n', i);
        if i <= j < s.len() {
            seq![line_body(s, i, j)] + lines_from(s, j + 1)
        } else {
            seq![line_body(s, i, j)]
        }
    }
}

pub open spec fn lines(s: Seq<char>) -> Seq<Seq<char>> {
    lines_from(s, 0)
}

/// Splits `s` into its lines.
pub fn split_lines(s: &[char]) -> (r: Vec<Vec<char>>)
    ensures
        r@.map_values(|l: Vec<char>| l@) == lines(s@),
{
    let mut out: Vec<Vec<char>> = Vec::new();
    let n = s.len();
    let mut i: usize = 0;
    while i < n
        invariant
            i <= n == s@.len(),
            out@.map_values(|l: Vec<char>| l@) + lines_from(s@, i as int) == lines(s@),
        decreases n - i,
    {
        let ghost before = out@.map_values(|l: Vec<char>| l@);
        let j = find_char(s, '\n', i);
        proof {
            lemma_find_from(s@, '\n', i as int);
        }
        let end = if j < n && j > i && s[j - 1] == '\r' {
            j - 1
        } else {
            j
        };
        let line = slice_to_vec(s, i, end);
        out.push(line);
        proof {
            assert(out@.map_values(|l: Vec<char>| l@) =~= before.push(line_body(s@, i as int, j as int)));
        }
        if j >= n {
            proof {
                assert(lines_from(s@, n as int) =~= Seq::<Seq<char>>::empty());
                assert(before + lines_from(s@, i as int) =~= out@.map_values(|l: Vec<char>| l@) + lines_from(s@, n as int));
            }
            i = n;
        } else {
            proof {
                assert(before + lines_from(s@, i as int) =~= out@.map_values(|l: Vec<char>| l@) + lines_from(s@, j + 1));
            }
            i = j + 1;
        }
    }
    proof {
        assert(lines_from(s@, i as int) =~= Seq::<Seq<char>>::empty());
        assert(out@.map_values(|l: Vec<char>| l@) + Seq::<Seq<char>>::empty() =~= out@.map_values(|l: Vec<char>| l@));
    }
    out
}

/// Leading and trailing `c` removed (`trim_matches(c)`).
pub open spec fn strip_char_start(s: Seq<char>, c: char) -> Seq<char>
    decreases s.len(),
{
    if s.len() > 0 && s[0] == c {
        strip_char_start(s.drop_first(), c)
    } else {
        s
    }
}

pub open spec fn strip_char_end(s: Seq<char>, c: char) -> Seq<char>
    decreases s.len(),
{
    if s.len() > 0 && s.last() == c {
        strip_char_end(s.drop_last(), c)
    } else {
        s
    }
}

pub open spec fn trim_matches(s: Seq<char>, c: char) -> Seq<char> {
    strip_char_end(strip_char_start(s, c), c)
}

pub fn trim_matches_chars(s: &[char], c: char) -> (r: Vec<char>)
    ensures
        r@ == trim_matches(s@, c),
{
    let n = s.len();
    let mut a: usize = 0;
    assert(s@.skip(0) =~= s@);
    while a < n && s[a] == c
        invariant
            a <= n == s@.len(),
            strip_char_start(s@.skip(a as int), c) == strip_char_start(s@, c),
        decreases n - a,
    {
        assert(s@.skip(a as int).drop_first() =~= s@.skip(a + 1));
        a = a + 1;
    }
    let mut b: usize = n;
    while b > a && s[b - 1] == c
        invariant
            a <= b <= n == s@.len(),
            strip_char_end(s@.subrange(a as int, b as int), c) == strip_char_end(s@.skip(a as int), c),
        decreases b,
    {
        assert(s@.subrange(a as int, b as int).drop_last() =~= s@.subrange(a as int, b - 1));
        b = b - 1;
    }
    proof {
        assert(s@.subrange(a as int, n as int) =~= s@.skip(a as int));
        assert(s@.skip(a as int) == strip_char_start(s@, c)) by {
            assert(strip_char_start(s@.skip(a as int), c) == s@.skip(a as int));
        }
    }
    slice_to_vec(s, a, b)
}

/// The text of an optional string slice.
pub open spec fn opt_text(o: Option<&str>) -> Option<Seq<char>> {
    match o {
        Some(s) => Some(s@),
        None => None,
    }
}

/// The pieces of `s` between occurrences of `c`, from offset `i` on
/// (`str::split`).
pub open spec fn split_from(s: Seq<char>, c: char, i: int) -> Seq<Seq<char>>
    decreases s.len() - i,
    when 0 <= i <= s.len()
{
    let j = find_from(s, c, i);
    let piece = if i <= j <= s.len() { s.subrange(i, j) } else { Seq::empty() };
    if i <= j < s.len() {
        seq![piece] + split_from(s, c, j + 1)
    } else {
        seq![piece]
    }
}

/// `s.split(c)`.
pub open spec fn split_all(s: Seq<char>, c: char) -> Seq<Seq<char>> {
    split_from(s, c, 0)
}

pub open spec fn char_views(v: Seq<Vec<char>>) -> Seq<Seq<char>> {
    v.map_values(|x: Vec<char>| x@)
}

/// `s.split(c)` as character vectors.
pub fn split_chars(s: &[char], c: char) -> (r: Vec<Vec<char>>)
    ensures
        char_views(r@) == split_all(s@, c),
{
    let n = s.len();
    let mut out: Vec<Vec<char>> = Vec::new();
    let mut i: usize = 0;
    assert(char_views(out@) =~= Seq::<Seq<char>>::empty());
    loop
        invariant_except_break
            i <= n == s@.len(),
            char_views(out@) + split_from(s@, c, i as int) == split_from(s@, c, 0),
        ensures
            char_views(out@) == split_from(s@, c, 0),
        decreases n - i,
    {
        let j = find_char(s, c, i);
        proof {
            lemma_find_from(s@, c, i as int);
        }
        let piece = slice_to_vec(s, i, j);
        let ghost before = char_views(out@);
        out.push(piece);
        assert(char_views(out@) =~= before + seq![s@.subrange(i as int, j as int)]);
        if j >= n {
            break;
        }
        assert(char_views(out@) + split_from(s@, c, j + 1) =~= before + split_from(s@, c, i as int));
        i = j + 1;
    }
    out
}

/// How `{:?}` renders a string: quoted, with escapes.
pub uninterp spec fn debug_text(s: Seq<char>) -> Seq<char>;

/// `format!("{:?}", s)` for a string slice (its `Debug` rendering).
#[verifier::external_body]
pub(crate) fn debug_quoted(s: &str) -> (r: String)
    ensures
        r@ == debug_text(s@),
{
    format!("{:?}", s)
}

/// `find_from` is determined by its defining properties.
pub proof fn lemma_find_from_unique(s: Seq<char>, c: char, from: int, k: int)
    requires
        0 <= from <= k <= s.len(),
        forall|i: int| from <= i < k ==> s[i] != c,
        k < s.len() ==> s[k] == c,
    ensures
        find_from(s, c, from) == k,
{
    lemma_find_from(s, c, from);
    let f = find_from(s, c, from);
    if f < k {
        assert(s[f] == c);
    }
    if k < f {
        assert(s[k] != c);
    }
}

/// Searching in `p + q` past `p` is searching in `q`.
pub proof fn lemma_find_from_shift(p: Seq<char>, q: Seq<char>, c: char, k: int)
    requires
        0 <= k <= q.len(),
    ensures
        find_from(p + q, c, p.len() + k) == p.len() + find_from(q, c, k),
{
    lemma_find_from(q, c, k);
    let f = find_from(q, c, k);
    let s = p + q;
    assert forall|i: int| p.len() + k <= i < p.len() + f implies s[i] != c by {
        assert(s[i] == q[i - p.len()]);
    }
    if f < q.len() {
        assert(s[p.len() + f] == q[f]);
    }
    lemma_find_from_unique(s, c, p.len() + k, p.len() + f);
}

/// The lines of `p + q` after `p` are the lines of `q`.
pub proof fn lemma_lines_shift(p: Seq<char>, q: Seq<char>, k: int)
    requires
        0 <= k <= q.len(),
    ensures
        lines_from(p + q, p.len() + k) == lines_from(q, k),
    decreases q.len() - k,
{
    let s = p + q;
    if k < q.len() {
        lemma_find_from_shift(p, q, '\n', k);
        lemma_find_from(q, '\n', k);
        let j = find_from(q, '\n', k);
        assert(line_body(s, p.len() + k, p.len() + j) =~= line_body(q, k, j)) by {
            if j < q.len() && j > k {
                assert(s[p.len() + j - 1] == q[j - 1]);
            }
            assert(s.subrange(p.len() + k, p.len() + j) =~= q.subrange(k, j));
            if j > k {
                assert(s.subrange(p.len() + k, p.len() + j - 1) =~= q.subrange(k, j - 1));
            }
        }
        if j < q.len() {
            lemma_lines_shift(p, q, j + 1);
        }
    }
}

/// Lines of a text that ends with a newline, followed by more text.
pub proof fn lemma_lines_append(x: Seq<char>, y: Seq<char>)
    requires
        x.len() == 0 || x.last() == '\n',
    ensures
        lines(x + y) == lines(x) + lines(y),
{
    lemma_lines_append_from(x, y, 0);
}

proof fn lemma_lines_append_from(x: Seq<char>, y: Seq<char>, i: int)
    requires
        0 <= i <= x.len(),
        x.len() == 0 || x.last() == '\n',
    ensures
        lines_from(x + y, i) == lines_from(x, i) + lines_from(y, 0),
    decreases x.len() - i,
{
    let s = x + y;
    if i == x.len() {
        lemma_lines_shift(x, y, 0);
        assert(lines_from(x, i) =~= Seq::<Seq<char>>::empty());
        assert(lines_from(s, i) =~= lines_from(x, i) + lines_from(y, 0));
    } else {
        lemma_find_from(x, '\n', i);
        let j = find_from(x, '\n', i);
        assert(x[x.len() - 1] == '\n');
        assert(j < x.len());
        assert forall|t: int| i <= t < j implies s[t] != '\n' by {
            assert(s[t] == x[t]);
        }
        assert(s[j] == x[j]);
        lemma_find_from_unique(s, '\n', i, j);
        assert(line_body(s, i, j) =~= line_body(x, i, j)) by {
            if j > i {
                assert(s[j - 1] == x[j - 1]);
            }
            assert(s.subrange(i, j) =~= x.subrange(i, j));
            if j > i {
                assert(s.subrange(i, j - 1) =~= x.subrange(i, j - 1));
            }
        }
        lemma_lines_append_from(x, y, j + 1);
        assert(lines_from(s, i) =~= seq![line_body(s, i, j)] + lines_from(s, j + 1));
        assert(lines_from(x, i) =~= seq![line_body(x, i, j)] + lines_from(x, j + 1));
    }
}

/// A single line of text followed by a newline.
pub proof fn lemma_lines_single(l: Seq<char>)
    requires
        forall|i: int| 0 <= i < l.len() ==> l[i] != '\n',
        l.len() == 0 || l.last() != '\r',
    ensures
        lines(l + seq!['\n']) == seq![l],
{
    let s = l + seq!['\n'];
    assert forall|t: int| 0 <= t < l.len() implies s[t] != '\n' by {
        assert(s[t] == l[t]);
    }
    lemma_find_from_unique(s, '\n', 0, l.len() as int);
    if l.len() > 0 {
        assert(s[l.len() - 1] == l.last());
    }
    assert(line_body(s, 0, l.len() as int) =~= l);
    assert(lines_from(s, (l.len() + 1) as int) =~= Seq::<Seq<char>>::empty());
    assert(lines_from(s, 0) =~= seq![l]);
}

/// A single line of text followed by `\r\n`.
pub proof fn lemma_lines_single_crlf(l: Seq<char>)
    requires
        forall|i: int| 0 <= i < l.len() ==> l[i] != '\n',
    ensures
        lines(l + seq!['\r', '\n']) == seq![l],
{
    let s = l + seq!['\r', '\n'];
    assert forall|t: int| 0 <= t < l.len() + 1 implies s[t] != '\n' by {
        if t < l.len() {
            assert(s[t] == l[t]);
        }
    }
    lemma_find_from_unique(s, '\n', 0, l.len() + 1int);
    assert(s[l.len() as int] == '\r');
    assert(line_body(s, 0, l.len() + 1int) =~= l);
    assert(lines_from(s, (l.len() + 2) as int) =~= Seq::<Seq<char>>::empty());
    assert(lines_from(s, 0) =~= seq![l]);
}

/// A non-empty text without a newline is one line.
pub proof fn lemma_lines_unbroken(l: Seq<char>)
    requires
        l.len() > 0,
        forall|i: int| 0 <= i < l.len() ==> l[i] != '\n',
    ensures
        lines(l) == seq![l],
{
    lemma_find_from_unique(l, '\n', 0, l.len() as int);
    assert(line_body(l, 0, l.len() as int) =~= l);
    assert(lines_from(l, 0) =~= seq![l]);
}

/// A trimmed non-empty text starts and ends with non-whitespace.
pub proof fn lemma_trimmed_ends(v: Seq<char>)
    requires
        v.len() > 0,
        trim(v) == v,
    ensures
        !is_ws(v[0]),
        !is_ws(v.last()),
{
    lemma_trim_start_idx(v);
    lemma_trim_end_idx(v);
    let a = trim_start_idx(v);
    let b = trim_end_idx(v);
    if a < b {
        assert(v.subrange(a, b).len() == v.len());
        assert(a == 0 && b == v.len());
    } else {
        assert(trim(v).len() == 0);
    }
}

/// Trimming a text whose ends are not whitespace leaves it unchanged.
pub proof fn lemma_trim_noop(v: Seq<char>)
    requires
        v.len() > 0,
        !is_ws(v[0]),
        !is_ws(v.last()),
    ensures
        trim(v) == v,
{
    lemma_trim_start_unique(v, 0);
    lemma_trim_end_unique(v, v.len() as int);
    assert(v.subrange(0, v.len() as int) =~= v);
}

/// Trimming `pad + v + pad2` for whitespace pads and a trimmed non-empty `v`.
pub proof fn lemma_trim_padded(pre: Seq<char>, v: Seq<char>, post: Seq<char>)
    requires
        v.len() > 0,
        trim(v) == v,
        forall|i: int| 0 <= i < pre.len() ==> is_ws(pre[i]),
        forall|i: int| 0 <= i < post.len() ==> is_ws(post[i]),
    ensures
        trim(pre + v + post) == v,
{
    lemma_trimmed_ends(v);
    let s = pre + v + post;
    assert forall|i: int| 0 <= i < pre.len() implies is_ws(#[trigger] s[i]) by {
        assert(s[i] == pre[i]);
    }
    assert(s[pre.len() as int] == v[0]);
    lemma_trim_start_unique(s, pre.len() as int);
    assert forall|i: int| pre.len() + v.len() <= i < s.len() implies is_ws(#[trigger] s[i]) by {
        assert(s[i] == post[i - pre.len() - v.len()]);
    }
    assert(s[pre.len() + v.len() - 1] == v.last());
    lemma_trim_end_unique(s, (pre.len() + v.len()) as int);
    assert(s.subrange(pre.len() as int, (pre.len() + v.len()) as int) =~= v);
}

} // verus!
