//! Path auto-completion for the location bar.
//!
//! [`completion_query`] works out which directory to list and what prefix
//! to match; the caller lists that directory; [`complete_path`] turns the
//! listing into the completion.
use vstd::prelude::*;
use vstd::utf8::{decode_utf8, encode_utf8, is_char_boundary};

use crate::engine::path::{join_chars, join_spec, resolve_spec, slash, tilde, tilde_slash};
use crate::text::{
    ascii_lower, char_ascii_lower, chars_of, is_prefix, lemma_lexord_antisym, lemma_lexord_trans, lemma_lexord_zero,
    lemma_rfind, lex_compare, lexord, lower, lowercase, push_all, rfind, rfind_char, slice_to_vec,
    starts_with, string_of, strip_char_end, trim, trim_matches_chars, trimmed,
};

verus! {

broadcast use vstd::seq_lib::group_to_multiset_ensures;

/// Result of a path auto-completion query.
#[derive(Debug, Clone, PartialEq, Eq)]
pub struct PathCompletion {
    /// The completed input (common prefix or single match applied).
    pub completed: String,
    /// All matching paths, directories with a trailing slash.
    pub candidates: Vec<String>,
}

/// What to list and match for a completion.
pub enum CompletionQuery {
    /// The input is `~`: it completes to `~/`.
    Home,
    /// List `search_dir` and match names against `file_prefix`;
    /// candidates are written after `dir_prefix`.
    Search { raw_input: String, dir_prefix: String, file_prefix: String, search_dir: String },
}

pub open spec fn split_at_last_slash(raw: Seq<char>) -> (Seq<char>, Seq<char>) {
    match rfind(raw, '/') {
        Some(i) => (raw.take(i + 1), raw.skip(i + 1)),
        None => (Seq::empty(), raw),
    }
}

/// The directory listed for a completion.
pub open spec fn search_dir_spec(cwd: Seq<char>, raw: Seq<char>, dir_prefix: Seq<char>, home: Seq<char>) -> Seq<char> {
    if is_prefix(tilde_slash(), raw) {
        let rest = dir_prefix.skip(2);
        if rest.len() == 0 {
            home
        } else {
            join_spec(home, strip_char_end(rest, '/'))
        }
    } else if is_prefix(slash(), dir_prefix) {
        if dir_prefix == slash() {
            slash()
        } else {
            strip_char_end(dir_prefix, '/')
        }
    } else if dir_prefix.len() == 0 {
        cwd
    } else {
        resolve_spec(cwd, strip_char_end(dir_prefix, '/'), home)
    }
}

/// The query for `input` typed in directory `cwd`, `home` being the home
/// directory.
pub open spec fn query_spec(cwd: Seq<char>, input: Seq<char>, home: Seq<char>) -> Option<(Seq<char>, Seq<char>, Seq<char>, Seq<char>)> {
    let raw = trim(input);
    if raw == tilde() {
        None
    } else {
        let (dp, fp) = split_at_last_slash(raw);
        Some((raw, dp, fp, search_dir_spec(cwd, raw, dp, home)))
    }
}

pub open spec fn query_view(q: CompletionQuery) -> Option<(Seq<char>, Seq<char>, Seq<char>, Seq<char>)> {
    match q {
        CompletionQuery::Home => None,
        CompletionQuery::Search { raw_input, dir_prefix, file_prefix, search_dir } => Some(
            (raw_input@, dir_prefix@, file_prefix@, search_dir@),
        ),
    }
}

/// Work out what to list for completing `input` in `cwd`.
pub fn completion_query(cwd: &str, input: &str, home: &str) -> (q: CompletionQuery)
    ensures
        query_view(q) == query_spec(cwd@, input@, home@),
{
    let ic = chars_of(input);
    let raw = trimmed(ic.as_slice());
    if raw.len() == 1 && raw[0] == '~' {
        assert(raw@ =~= tilde());
        return CompletionQuery::Home;
    }
    assert(raw@ != tilde()) by {
        if raw@ == tilde() {
            assert(raw@.len() == 1 && raw@[0] == '~');
        }
    }
    proof {
        lemma_rfind(raw@, '/');
    }
    let n = raw.len();
    let (dp, fp) = match rfind_char(raw.as_slice(), '/') {
        Some(i) => {
            assert(i < n);
            let a = slice_to_vec(raw.as_slice(), 0, i + 1);
            let b = slice_to_vec(raw.as_slice(), i + 1, n);
            assert(a@ =~= raw@.take(i + 1));
            assert(b@ =~= raw@.skip(i + 1));
            (a, b)
        },
        None => {
            let b = slice_to_vec(raw.as_slice(), 0, n);
            assert(b@ =~= raw@);
            (Vec::new(), b)
        },
    };
    let ts: [char; 2] = ['~', '/'];
    assert(ts@ =~= tilde_slash());
    let sl: [char; 1] = ['/'];
    assert(sl@ =~= slash());
    let h = chars_of(home);
    let dir: Vec<char> = if starts_with(raw.as_slice(), &ts) {
        let rest = if dp.len() >= 2 {
            slice_to_vec(dp.as_slice(), 2, dp.len())
        } else {
            Vec::new()
        };
        assert(dp@.len() >= 2) by {
            assert(raw@[1] == '/');
            assert(rfind(raw@, '/') is Some);
        }
        assert(rest@ =~= dp@.skip(2));
        if rest.len() == 0 {
            h
        } else {
            let r = strip_end_slashes(rest.as_slice());
            join_chars(h.as_slice(), r.as_slice())
        }
    } else if starts_with(dp.as_slice(), &sl) {
        if dp.len() == 1 {
            assert(dp@ =~= slash());
            dp.clone()
        } else {
            assert(dp@ != slash()) by {
                if dp@ == slash() {
                    assert(dp@.len() == 1);
                }
            }
            strip_end_slashes(dp.as_slice())
        }
    } else if dp.len() == 0 {
        chars_of(cwd)
    } else {
        let r = strip_end_slashes(dp.as_slice());
        let rs = string_of(r.as_slice());
        let out = crate::engine::path::resolve(cwd, rs.as_str(), home);
        chars_of(out.as_str())
    };
    CompletionQuery::Search {
        raw_input: string_of(raw.as_slice()),
        dir_prefix: string_of(dp.as_slice()),
        file_prefix: string_of(fp.as_slice()),
        search_dir: string_of(dir.as_slice()),
    }
}

fn strip_end_slashes(s: &[char]) -> (r: Vec<char>)
    ensures
        r@ == strip_char_end(s@, '/'),
{
    let mut b = s.len();
    assert(s@.take(b as int) =~= s@);
    while b > 0 && s[b - 1] == '/'
        invariant
            b <= s@.len(),
            strip_char_end(s@.take(b as int), '/') == strip_char_end(s@, '/'),
        decreases b,
    {
        assert(s@.take(b as int).drop_last() =~= s@.take(b - 1));
        b = b - 1;
    }
    let r = slice_to_vec(s, 0, b);
    assert(r@ =~= s@.take(b as int));
    r
}

/// Whether a listed name is offered for `prefix`: hidden names only for a
/// prefix starting with `.`; the name starts with the prefix, exactly or
/// after lower-casing both.
pub open spec fn offered(name: Seq<char>, prefix: Seq<char>) -> bool {
    (is_prefix(seq!['.'], prefix) || !is_prefix(seq!['.'], name)) && (is_prefix(prefix, name) || is_prefix(
        lower(prefix),
        lower(name),
    ))
}

/// A byte with ASCII upper-case letters lowered.
pub open spec fn lower_byte(b: u8) -> u8 {
    if 0x41 <= b <= 0x5a {
        (b + 32) as u8
    } else {
        b
    }
}

/// Whether the first `n` bytes of `a` and `b` agree up to ASCII case.
pub open spec fn same_bytes_ic(a: Seq<u8>, b: Seq<u8>, n: int) -> bool {
    forall|i: int| 0 <= i < n ==> lower_byte(#[trigger] a[i]) == lower_byte(b[i])
}

/// Shrink `c` until the first `c` bytes of `name` and `first` agree.
pub open spec fn shrink(first: Seq<u8>, name: Seq<u8>, c: int) -> int
    decreases c,
{
    if c <= 0 || same_bytes_ic(name, first, c) {
        c
    } else {
        shrink(first, name, c - 1)
    }
}

/// Whether every length that shrinking from `c` tries (each one cuts both
/// `name` and `first`) falls between two characters of both.
pub open spec fn shrink_cuts_whole(first: Seq<u8>, name: Seq<u8>, c: int) -> bool
    decreases c,
{
    c <= 0 || (is_char_boundary(name, c) && is_char_boundary(first, c) && (same_bytes_ic(name, first, c)
        || shrink_cuts_whole(first, name, c - 1)))
}

/// The length in bytes of the prefix that all of `names` share with
/// `first`, up to ASCII case, starting from `c`.
pub open spec fn common_len(first: Seq<u8>, names: Seq<Seq<u8>>, c: int) -> int
    decreases names.len(),
{
    if names.len() == 0 {
        c
    } else {
        let c0 = common_len(first, names.drop_last(), c);
        let m = if names.last().len() < c0 { names.last().len() as int } else { c0 };
        shrink(first, names.last(), m)
    }
}

/// Whether working out [`common_len`] only ever cuts between characters.
pub open spec fn common_cuts_whole(first: Seq<u8>, names: Seq<Seq<u8>>, c: int) -> bool
    decreases names.len(),
{
    if names.len() == 0 {
        true
    } else {
        let c0 = common_len(first, names.drop_last(), c);
        let m = if names.last().len() < c0 { names.last().len() as int } else { c0 };
        common_cuts_whole(first, names.drop_last(), c) && shrink_cuts_whole(first, names.last(), m)
    }
}

/// The UTF-8 bytes of the names of `ms` after the first.
pub open spec fn other_names(ms: Seq<(Seq<char>, bool)>) -> Seq<Seq<u8>> {
    Seq::new((ms.len() - 1) as nat, |i: int| encode_utf8(ms[i + 1].0))
}

/// The sorted matches `ms` have a common prefix that is worked out without
/// cutting a character of a name in two.
pub open spec fn cuts_whole(ms: Seq<(Seq<char>, bool)>) -> bool {
    ms.len() <= 1 || common_cuts_whole(encode_utf8(ms[0].0), other_names(ms), encode_utf8(ms[0].0).len() as int)
}

/// The listing entries (name, is-directory) offered for `prefix`, in order.
pub open spec fn offered_entries(es: Seq<(Seq<char>, bool)>, prefix: Seq<char>) -> Seq<(Seq<char>, bool)>
    decreases es.len(),
{
    if es.len() == 0 {
        es
    } else if offered(es.last().0, prefix) {
        offered_entries(es.drop_last(), prefix).push(es.last())
    } else {
        offered_entries(es.drop_last(), prefix)
    }
}

/// Sorted by lower-cased name.
pub open spec fn sorted_by_lower(s: Seq<(Seq<char>, bool)>) -> bool {
    forall|i: int, j: int| 0 <= i < j < s.len() ==> lexord(lower(#[trigger] s[i].0), lower(#[trigger] s[j].0)) <= 0
}

/// The entries whose lower-cased name is `l`.
pub open spec fn lower_is(l: Seq<char>) -> spec_fn((Seq<char>, bool)) -> bool {
    |e: (Seq<char>, bool)| lower(e.0) == l
}

/// `ms` keeps the order of `s` among entries with the same lower-cased name.
pub open spec fn keeps_ties(ms: Seq<(Seq<char>, bool)>, s: Seq<(Seq<char>, bool)>) -> bool {
    forall|l: Seq<char>| #[trigger] ms.filter(lower_is(l)) == s.filter(lower_is(l))
}

proof fn lemma_single_filter_pair(x: (Seq<char>, bool), f: spec_fn((Seq<char>, bool)) -> bool)
    ensures
        seq![x].filter(f) == (if f(x) {
            seq![x]
        } else {
            Seq::<(Seq<char>, bool)>::empty()
        }),
{
    Seq::<(Seq<char>, bool)>::empty().lemma_filter_push(x, f);
    assert(Seq::<(Seq<char>, bool)>::empty().push(x) =~= seq![x]);
    reveal(Seq::filter);
    assert(Seq::<(Seq<char>, bool)>::empty().filter(f) =~= Seq::<(Seq<char>, bool)>::empty());
}

proof fn lemma_insert_lower_ties(before: Seq<(Seq<char>, bool)>, p: int, x: (Seq<char>, bool), l: Seq<char>)
    requires
        0 <= p <= before.len(),
        forall|k: int| p <= k < before.len() ==> lexord(lower(x.0), lower((#[trigger] before[k]).0)) < 0,
    ensures
        before.insert(p, x).filter(lower_is(l)) == before.filter(lower_is(l)) + seq![x].filter(
            lower_is(l),
        ),
{
    let f = lower_is(l);
    let a = before.take(p);
    let b = before.skip(p);
    assert(before.insert(p, x) =~= a + seq![x] + b);
    assert(before =~= a + b);
    Seq::filter_distributes_over_add(a + seq![x], b, f);
    Seq::filter_distributes_over_add(a, seq![x], f);
    Seq::filter_distributes_over_add(a, b, f);
    lemma_single_filter_pair(x, f);
    if f(x) {
        assert(b.filter(f).len() == 0) by {
            if b.filter(f).len() > 0 {
                b.lemma_filter_pred(f, 0);
                let y = b.filter(f)[0];
                assert(b.filter(f).contains(y));
                b.lemma_filter_contains_rev(f, y);
                let k = choose|k: int| 0 <= k < b.len() && b[k] == y;
                assert(b[k] == before[k + p]);
                crate::text::lemma_lexord_refl(lower(x.0));
            }
        }
        assert(b.filter(f) =~= Seq::<(Seq<char>, bool)>::empty());
        assert(before.insert(p, x).filter(f) =~= a.filter(f) + seq![x]);
        assert(before.filter(f) + seq![x].filter(f) =~= a.filter(f) + seq![x]);
    } else {
        assert(before.insert(p, x).filter(f) =~= a.filter(f) + b.filter(f));
    }
}

pub open spec fn candidate_text(dir_prefix: Seq<char>, e: (Seq<char>, bool)) -> Seq<char> {
    dir_prefix + e.0 + if e.1 { seq!['/'] } else { Seq::empty() }
}

/// The completion for the sorted matches `ms` (`ms` not empty).
pub open spec fn completion_spec(raw: Seq<char>, dir_prefix: Seq<char>, file_prefix: Seq<char>, ms: Seq<(Seq<char>, bool)>) -> (Seq<char>, Seq<Seq<char>>) {
    let cands = Seq::new(ms.len(), |i: int| candidate_text(dir_prefix, ms[i]));
    if ms.len() == 1 {
        (cands[0], cands)
    } else {
        let first = encode_utf8(ms[0].0);
        let c = common_len(first, other_names(ms), first.len() as int);
        if c > encode_utf8(file_prefix).len() {
            (dir_prefix + decode_utf8(first.take(c)), cands)
        } else {
            (raw, cands)
        }
    }
}

pub open spec fn entry_views(es: Seq<(String, bool)>) -> Seq<(Seq<char>, bool)> {
    es.map_values(|e: (String, bool)| (e.0@, e.1))
}

fn offered_exec(name: &[char], prefix: &[char]) -> (r: bool)
    ensures
        r == offered(name@, prefix@),
{
    let dot: [char; 1] = ['.'];
    assert(dot@ =~= seq!['.']);
    let hidden_ok = starts_with(prefix, &dot) || !starts_with(name, &dot);
    if !hidden_ok {
        return false;
    }
    if starts_with(name, prefix) {
        return true;
    }
    let ln = lowercase(name);
    let lp = lowercase(prefix);
    starts_with(ln.as_slice(), lp.as_slice())
}

fn lower_byte_exec(b: u8) -> (r: u8)
    ensures
        r == lower_byte(b),
{
    if 0x41 <= b && b <= 0x5a {
        b + 32
    } else {
        b
    }
}

fn same_bytes_ic_exec(a: &[u8], b: &[u8], n: usize) -> (r: bool)
    requires
        n <= a@.len(),
        n <= b@.len(),
    ensures
        r == same_bytes_ic(a@, b@, n as int),
{
    let mut i: usize = 0;
    while i < n
        invariant
            i <= n <= a@.len(),
            n <= b@.len(),
            same_bytes_ic(a@, b@, i as int),
        decreases n - i,
    {
        if lower_byte_exec(a[i]) != lower_byte_exec(b[i]) {
            return false;
        }
        i = i + 1;
    }
    true
}

/// [`shrink`] of `first` and `name` from `m`.
fn shrink_len(first: &[u8], name: &[u8], m: usize) -> (r: usize)
    requires
        m <= first@.len(),
        m <= name@.len(),
    ensures
        r as int == shrink(first@, name@, m as int),
        r <= m,
{
    let mut k = m;
    while k > 0 && !same_bytes_ic_exec(name, first, k)
        invariant
            k <= m,
            m <= first@.len(),
            m <= name@.len(),
            shrink(first@, name@, k as int) == shrink(first@, name@, m as int),
        decreases k,
    {
        k = k - 1;
    }
    k
}

/// [`shrink_cuts_whole`] of `first` and `name` from `m`.
fn shrink_cuts_ok(first_s: &str, name_s: &str, first: &[u8], name: &[u8], m: usize) -> (r: bool)
    requires
        first@ == encode_utf8(first_s@),
        name@ == encode_utf8(name_s@),
        m <= first@.len(),
        m <= name@.len(),
    ensures
        r == shrink_cuts_whole(first@, name@, m as int),
{
    let mut k = m;
    while k > 0
        invariant
            k <= m,
            m <= first@.len(),
            m <= name@.len(),
            first@ == encode_utf8(first_s@),
            name@ == encode_utf8(name_s@),
            shrink_cuts_whole(first@, name@, k as int) == shrink_cuts_whole(first@, name@, m as int),
        decreases k,
    {
        if !name_s.is_char_boundary(k) || !first_s.is_char_boundary(k) {
            return false;
        }
        if same_bytes_ic_exec(name, first, k) {
            return true;
        }
        k = k - 1;
    }
    true
}

/// The common prefix length in bytes of the sorted matches, and whether
/// working it out cuts only between characters.
fn byte_walk(sorted: &Vec<(Vec<char>, bool)>) -> (r: (usize, bool))
    requires
        sorted@.len() >= 2,
    ensures
        ({
            let sv = sorted@.map_values(|e: (Vec<char>, bool)| (e.0@, e.1));
            let fb = encode_utf8(sv[0].0);
            &&& r.0 as int == common_len(fb, other_names(sv), fb.len() as int)
            &&& r.1 == cuts_whole(sv)
        }),
{
    let ghost sv = sorted@.map_values(|e: (Vec<char>, bool)| (e.0@, e.1));
    let ghost names = other_names(sv);
    let first_s = string_of(sorted[0].0.as_slice());
    let fb = first_s.as_str().as_bytes();
    assert(fb@ == encode_utf8(sv[0].0));
    let mut c: usize = fb.len();
    let mut ok = true;
    let mut j: usize = 1;
    assert(names.take(0) =~= Seq::<Seq<u8>>::empty());
    while j < sorted.len()
        invariant
            2 <= sorted@.len(),
            1 <= j <= sorted@.len(),
            sv == sorted@.map_values(|e: (Vec<char>, bool)| (e.0@, e.1)),
            names == other_names(sv),
            fb@ == encode_utf8(sv[0].0),
            fb@ == encode_utf8(first_s@),
            c <= fb@.len(),
            c as int == common_len(fb@, names.take(j - 1), fb@.len() as int),
            ok == common_cuts_whole(fb@, names.take(j - 1), fb@.len() as int),
        decreases sorted.len() - j,
    {
        assert(names.take(j as int).drop_last() =~= names.take(j - 1));
        let name_s = string_of(sorted[j].0.as_slice());
        let nb = name_s.as_str().as_bytes();
        assert(nb@ == names[j - 1]);
        assert(names.take(j as int).last() == nb@);
        let m: usize = if nb.len() < c {
            nb.len()
        } else {
            c
        };
        let fits = shrink_cuts_ok(first_s.as_str(), name_s.as_str(), fb, nb, m);
        ok = ok && fits;
        c = shrink_len(fb, nb, m);
        j = j + 1;
    }
    assert(names.take(names.len() as int) =~= names);
    (c, ok)
}

proof fn lemma_shrink_boundary(first: Seq<u8>, name: Seq<u8>, c: int)
    requires
        vstd::utf8::valid_utf8(first),
        0 <= c,
        shrink_cuts_whole(first, name, c),
    ensures
        0 <= shrink(first, name, c) <= c,
        is_char_boundary(first, shrink(first, name, c)),
    decreases c,
{
    if c > 0 && !same_bytes_ic(name, first, c) {
        lemma_shrink_boundary(first, name, c - 1);
    }
}

/// The common prefix of names that cut only between characters ends
/// between two characters of the first.
proof fn lemma_common_boundary(first: Seq<u8>, names: Seq<Seq<u8>>, c: int)
    requires
        vstd::utf8::valid_utf8(first),
        0 <= c,
        names.len() > 0,
        common_cuts_whole(first, names, c),
    ensures
        is_char_boundary(first, common_len(first, names, c)),
{
    lemma_common_nonneg(first, names.drop_last(), c);
    let c0 = common_len(first, names.drop_last(), c);
    let m = if names.last().len() < c0 { names.last().len() as int } else { c0 };
    lemma_shrink_boundary(first, names.last(), m);
}

proof fn lemma_common_nonneg(first: Seq<u8>, names: Seq<Seq<u8>>, c: int)
    requires
        0 <= c,
    ensures
        0 <= common_len(first, names, c) <= c,
    decreases names.len(),
{
    if names.len() > 0 {
        lemma_common_nonneg(first, names.drop_last(), c);
        let c0 = common_len(first, names.drop_last(), c);
        let m = if names.last().len() < c0 { names.last().len() as int } else { c0 };
        lemma_shrink_nonneg(first, names.last(), m);
    }
}

proof fn lemma_shrink_nonneg(first: Seq<u8>, name: Seq<u8>, c: int)
    requires
        0 <= c,
    ensures
        0 <= shrink(first, name, c) <= c,
    decreases c,
{
    if c > 0 && !same_bytes_ic(name, first, c) {
        lemma_shrink_nonneg(first, name, c - 1);
    }
}

proof fn lemma_filter_cons(x: (Seq<char>, bool), rest: Seq<(Seq<char>, bool)>, f: spec_fn((Seq<char>, bool)) -> bool)
    ensures
        (seq![x] + rest).filter(f) == (if f(x) {
            seq![x] + rest.filter(f)
        } else {
            rest.filter(f)
        }),
{
    Seq::filter_distributes_over_add(seq![x], rest, f);
    lemma_single_filter_pair(x, f);
    if !f(x) {
        assert(Seq::<(Seq<char>, bool)>::empty() + rest.filter(f) =~= rest.filter(f));
    }
}

/// Two orders sorted by lower-cased name that agree on the order within
/// each lower-cased name are the same.
proof fn lemma_stable_unique(a: Seq<(Seq<char>, bool)>, b: Seq<(Seq<char>, bool)>)
    requires
        sorted_by_lower(a),
        sorted_by_lower(b),
        forall|l: Seq<char>| #[trigger] a.filter(lower_is(l)) == b.filter(lower_is(l)),
    ensures
        a == b,
    decreases a.len(),
{
    if a.len() == 0 || b.len() == 0 {
        if a.len() > 0 || b.len() > 0 {
            let (x, y) = if a.len() > 0 { (a, b) } else { (b, a) };
            let l = lower(x[0].0);
            assert(x =~= seq![x[0]] + x.drop_first());
            lemma_filter_cons(x[0], x.drop_first(), lower_is(l));
            assert(x.filter(lower_is(l)).len() > 0);
            assert(y =~= Seq::<(Seq<char>, bool)>::empty());
            reveal(Seq::filter);
            assert(y.filter(lower_is(l)).len() == 0);
            assert(a.filter(lower_is(l)) == b.filter(lower_is(l)));
        }
        assert(a =~= b);
    } else {
        let ka = lower(a[0].0);
        let kb = lower(b[0].0);
        assert(a =~= seq![a[0]] + a.drop_first());
        assert(b =~= seq![b[0]] + b.drop_first());
        lemma_filter_cons(a[0], a.drop_first(), lower_is(ka));
        lemma_filter_cons(b[0], b.drop_first(), lower_is(kb));
        assert(b.filter(lower_is(ka)) == a.filter(lower_is(ka)));
        assert(b.filter(lower_is(ka))[0] == a[0]);
        assert(b.filter(lower_is(ka)).contains(a[0]));
        b.lemma_filter_contains_rev(lower_is(ka), a[0]);
        let j = choose|j: int| 0 <= j < b.len() && b[j] == a[0];
        if j > 0 {
            assert(lexord(lower(b[0].0), lower(b[j].0)) <= 0);
        } else {
            crate::text::lemma_lexord_refl(kb);
        }
        assert(a.filter(lower_is(kb)) == b.filter(lower_is(kb)));
        assert(a.filter(lower_is(kb))[0] == b[0]);
        assert(a.filter(lower_is(kb)).contains(b[0]));
        a.lemma_filter_contains_rev(lower_is(kb), b[0]);
        let i = choose|i: int| 0 <= i < a.len() && a[i] == b[0];
        if i > 0 {
            assert(lexord(lower(a[0].0), lower(a[i].0)) <= 0);
        } else {
            crate::text::lemma_lexord_refl(ka);
        }
        lemma_lexord_antisym(ka, kb);
        lemma_lexord_zero(ka, kb);
        assert(a[0] == b[0]);
        let a1 = a.drop_first();
        let b1 = b.drop_first();
        assert forall|l: Seq<char>| #[trigger] a1.filter(lower_is(l)) == b1.filter(lower_is(l)) by {
            lemma_filter_cons(a[0], a1, lower_is(l));
            lemma_filter_cons(b[0], b1, lower_is(l));
            assert(a.filter(lower_is(l)) == b.filter(lower_is(l)));
            if lower(a[0].0) == l {
                assert(a1.filter(lower_is(l)) =~= a.filter(lower_is(l)).drop_first());
                assert(b1.filter(lower_is(l)) =~= b.filter(lower_is(l)).drop_first());
            }
        }
        assert(sorted_by_lower(a1)) by {
            assert forall|p: int, q: int| 0 <= p < q < a1.len() implies lexord(lower(#[trigger] a1[p].0), lower(#[trigger] a1[q].0)) <= 0 by {
                assert(a1[p] == a[p + 1] && a1[q] == a[q + 1]);
            }
        }
        assert(sorted_by_lower(b1)) by {
            assert forall|p: int, q: int| 0 <= p < q < b1.len() implies lexord(lower(#[trigger] b1[p].0), lower(#[trigger] b1[q].0)) <= 0 by {
                assert(b1[p] == b[p + 1] && b1[q] == b[q + 1]);
            }
        }
        lemma_stable_unique(a1, b1);
    }
}

/// The stable order of the offered entries is the only one.
proof fn lemma_stable_order_unique(a: Seq<(Seq<char>, bool)>, b: Seq<(Seq<char>, bool)>, offered: Seq<(Seq<char>, bool)>)
    requires
        stable_order(a, offered),
        stable_order(b, offered),
    ensures
        a == b,
{
    assert forall|l: Seq<char>| #[trigger] a.filter(lower_is(l)) == b.filter(lower_is(l)) by {
        assert(a.filter(lower_is(l)) == offered.filter(lower_is(l)));
        assert(b.filter(lower_is(l)) == offered.filter(lower_is(l)));
    }
    lemma_stable_unique(a, b);
}

/// The listing entries offered for the prefix `fp`, as characters.
fn offered_matches(es: &[(String, bool)], fp: &[char]) -> (ms: Vec<(Vec<char>, bool)>)
    ensures
        ms@.map_values(|e: (Vec<char>, bool)| (e.0@, e.1)) == offered_entries(entry_views(es@), fp@),
{
    let ghost ev = entry_views(es@);
    let mut ms: Vec<(Vec<char>, bool)> = Vec::new();
    let mut i: usize = 0;
    while i < es.len()
        invariant
            i <= es@.len(),
            ev == entry_views(es@),
            ms@.map_values(|e: (Vec<char>, bool)| (e.0@, e.1)) == offered_entries(ev.take(i as int), fp@),
        decreases es.len() - i,
    {
        assert(ev.take(i + 1).drop_last() =~= ev.take(i as int));
        let nm = chars_of(es[i].0.as_str());
        if offered_exec(nm.as_slice(), fp) {
            let ghost before = ms@.map_values(|e: (Vec<char>, bool)| (e.0@, e.1));
            ms.push((nm, es[i].1));
            assert(ms@.map_values(|e: (Vec<char>, bool)| (e.0@, e.1)) =~= before.push(ev[i as int]));
        }
        i = i + 1;
    }
    assert(ev.take(es@.len() as int) =~= ev);
    ms
}

/// Turn the listing of the query's directory (name and whether it is a
/// directory or a link, as listed) into the completion; `None` when
/// nothing matches or the directory could not be listed.
pub open spec fn pc_view(r: Option<PathCompletion>) -> Option<(Seq<char>, Seq<Seq<char>>)> {
    match r {
        Some(pc) => Some((pc.completed@, pc.candidates@.map_values(|s: String| s@))),
        None => None,
    }
}

pub open spec fn listing_view(l: Option<&[(String, bool)]>) -> Option<Seq<(Seq<char>, bool)>> {
    match l {
        Some(es) => Some(entry_views(es@)),
        None => None,
    }
}

/// `ms` is `offered` sorted by lower-cased name, entries with the same
/// lower-cased name in their order in `offered`.
pub open spec fn stable_order(ms: Seq<(Seq<char>, bool)>, offered: Seq<(Seq<char>, bool)>) -> bool {
    ms.to_multiset() == offered.to_multiset() && sorted_by_lower(ms) && ms.len() == offered.len() && keeps_ties(
        ms,
        offered,
    )
}

/// Whether completing works out its common prefix without cutting a
/// character of a matching name in two (completing fails otherwise).
pub open spec fn completion_fits(
    q: Option<(Seq<char>, Seq<char>, Seq<char>, Seq<char>)>,
    listing: Option<Seq<(Seq<char>, bool)>>,
) -> bool {
    match q {
        None => true,
        Some(t) => match listing {
            None => true,
            Some(es) => every_order_cuts_whole(offered_entries(es, t.2)),
        },
    }
}

/// Every stable order of `offered` (there is one) is completed without
/// cutting a character in two.
pub open spec fn every_order_cuts_whole(offered: Seq<(Seq<char>, bool)>) -> bool {
    forall|ms: Seq<(Seq<char>, bool)>| #[trigger] stable_order(ms, offered) ==> cuts_whole(ms)
}

/// What completing gives: `~/` for `~`; nothing for an unreadable
/// directory or when no name is offered; else the completion of the offered
/// entries sorted by lower-cased name (entries with the same lower-cased name
/// in the listing's order).
pub open spec fn completion_holds(
    q: Option<(Seq<char>, Seq<char>, Seq<char>, Seq<char>)>,
    listing: Option<Seq<(Seq<char>, bool)>>,
    r: Option<(Seq<char>, Seq<Seq<char>>)>,
) -> bool {
    match q {
        None => r == Some(("~/"@, seq!["~/"@])),
        Some(t) => match listing {
            None => r is None,
            Some(es) => {
                let offered = offered_entries(es, t.2);
                if offered.len() == 0 {
                    r is None
                } else {
                    exists|ms: Seq<(Seq<char>, bool)>|
                        #![trigger completion_spec(t.0, t.1, t.2, ms)]
                        stable_order(ms, offered) && r == Some(completion_spec(t.0, t.1, t.2, ms))
                }
            },
        },
    }
}

/// Turn the listing of the query's directory (name and whether it is a
/// directory or a link, as listed) into the completion; `None` when
/// nothing matches or the directory could not be listed. The common prefix
/// of several matches is worked out on their UTF-8 bytes, so it must not
/// cut a character in two (see [`completion_fits`] and
/// [`try_complete_path`]).
pub fn complete_path(query: &CompletionQuery, listing: Option<&[(String, bool)]>) -> (r: Option<PathCompletion>)
    requires
        completion_fits(query_view(*query), listing_view(listing)),
    ensures
        completion_holds(query_view(*query), listing_view(listing), pc_view(r)),
{
    match query {
        CompletionQuery::Home => {
            let mut c: Vec<String> = Vec::new();
            let t = String::from_str("~/");
            c.push(t);
            assert(c@[0]@ == "~/"@);
            let pc = PathCompletion { completed: String::from_str("~/"), candidates: c };
            assert(query_view(*query) is None);
            assert(pc.completed@ == "~/"@);
            assert(pc.candidates@.len() == 1);
            assert(pc.candidates@.map_values(|s: String| s@) =~= seq!["~/"@]);
            let res = Some(pc);
            assert(pc_view(res) == Some(("~/"@, seq!["~/"@])));
            assert(query_view(*query) is None);
            assert(completion_holds(None, listing_view(listing), pc_view(res)));
            assert(completion_holds(query_view(*query), listing_view(listing), pc_view(res)));
            res
        },
        CompletionQuery::Search { raw_input, dir_prefix, file_prefix, search_dir } => {
            let es = match listing {
                None => {
                    return None;
                },
                Some(es) => es,
            };
            let fp = chars_of(file_prefix.as_str());
            let ms = offered_matches(es, fp.as_slice());
            if ms.len() == 0 {
                return None;
            }
            let ghost offered = ms@.map_values(|e: (Vec<char>, bool)| (e.0@, e.1));
            let sorted = sort_by_lower(ms);
            let ghost sv = sorted@.map_values(|e: (Vec<char>, bool)| (e.0@, e.1));
            assert(query_view(*query) == Some((raw_input@, dir_prefix@, file_prefix@, search_dir@)));
            assert(stable_order(sv, offered_entries(entry_views(es@), file_prefix@)));
            assert(listing_view(listing) == Some(entry_views(es@)));
            assert(every_order_cuts_whole(offered_entries(entry_views(es@), file_prefix@)));
            assert(cuts_whole(sv));
            let pc = finish_completion(&raw_input, &dir_prefix, &file_prefix, &sorted);
            let res = Some(pc);
            proof {
                assert(query_view(*query) == Some((raw_input@, dir_prefix@, file_prefix@, search_dir@)));
                assert(listing_view(listing) == Some(entry_views(es@)));
                assert(offered == offered_entries(entry_views(es@), file_prefix@));
                assert(pc_view(res) == Some(completion_spec(raw_input@, dir_prefix@, file_prefix@, sv)));
                assert(stable_order(sv, offered));
                assert(offered.len() != 0);
                let raw = raw_input@;
                let dpv = dir_prefix@;
                let fpv = file_prefix@;
                assert(completion_spec(raw, dpv, fpv, sv) == completion_spec(raw_input@, dir_prefix@, file_prefix@, sv));
                assert(exists|ms: Seq<(Seq<char>, bool)>|
                    #![trigger completion_spec(raw, dpv, fpv, ms)]
                    stable_order(ms, offered) && pc_view(res) == Some(completion_spec(raw, dpv, fpv, ms)));
                let tt = (raw, dpv, fpv, search_dir@);
                assert(offered_entries(entry_views(es@), tt.2) == offered);
                assert(completion_spec(tt.0, tt.1, tt.2, sv) == completion_spec(raw, dpv, fpv, sv));
                assert(completion_holds(Some(tt), Some(entry_views(es@)), pc_view(res)));
                assert(completion_holds(query_view(*query), listing_view(listing), pc_view(res)));
            }
            res
        },
    }
}

/// Whether [`complete_path`] can complete `query` from `listing`: the
/// common prefix of the matches is worked out without cutting a character
/// of a name in two.
pub fn can_complete(query: &CompletionQuery, listing: Option<&[(String, bool)]>) -> (r: bool)
    ensures
        r == completion_fits(query_view(*query), listing_view(listing)),
{
    match query {
        CompletionQuery::Home => true,
        CompletionQuery::Search { raw_input, dir_prefix, file_prefix, search_dir } => {
            let es = match listing {
                None => {
                    return true;
                },
                Some(es) => es,
            };
            let fp = chars_of(file_prefix.as_str());
            let ms = offered_matches(es, fp.as_slice());
            let ghost offered = ms@.map_values(|e: (Vec<char>, bool)| (e.0@, e.1));
            assert(query_view(*query) == Some((raw_input@, dir_prefix@, file_prefix@, search_dir@)));
            assert(listing_view(listing) == Some(entry_views(es@)));
            assert(offered == offered_entries(entry_views(es@), file_prefix@));
            if ms.len() <= 1 {
                assert forall|m: Seq<(Seq<char>, bool)>| #[trigger] stable_order(m, offered) implies cuts_whole(m) by {}
                return true;
            }
            let sorted = sort_by_lower(ms);
            let ghost sv = sorted@.map_values(|e: (Vec<char>, bool)| (e.0@, e.1));
            let (_, ok) = byte_walk(&sorted);
            proof {
                assert(stable_order(sv, offered));
                if ok {
                    assert forall|m: Seq<(Seq<char>, bool)>| #[trigger] stable_order(m, offered) implies cuts_whole(m) by {
                        lemma_stable_order_unique(m, sv, offered);
                    }
                }
            }
            ok
        },
    }
}

/// Complete as [`complete_path`] does where [`can_complete`] holds, and
/// `None` where it does not.
pub fn try_complete_path(query: &CompletionQuery, listing: Option<&[(String, bool)]>) -> (r: Option<Option<PathCompletion>>)
    ensures
        r is None <==> !completion_fits(query_view(*query), listing_view(listing)),
        r matches Some(c) ==> completion_holds(query_view(*query), listing_view(listing), pc_view(c)),
{
    if can_complete(query, listing) {
        Some(complete_path(query, listing))
    } else {
        None
    }
}

fn finish_completion(raw_input: &String, dir_prefix: &String, file_prefix: &String, sorted: &Vec<(Vec<char>, bool)>) -> (pc: PathCompletion)
    requires
        sorted@.len() >= 1,
        cuts_whole(sorted@.map_values(|e: (Vec<char>, bool)| (e.0@, e.1))),
    ensures
        pc_view(Some(pc)) == Some(
            completion_spec(raw_input@, dir_prefix@, file_prefix@, sorted@.map_values(|e: (Vec<char>, bool)| (e.0@, e.1))),
        ),
{
    let ghost sv = sorted@.map_values(|e: (Vec<char>, bool)| (e.0@, e.1));
    let dp = chars_of(dir_prefix.as_str());
    let mut cands: Vec<String> = Vec::new();
    let mut k: usize = 0;
    while k < sorted.len()
        invariant
            k <= sorted@.len(),
            sv == sorted@.map_values(|e: (Vec<char>, bool)| (e.0@, e.1)),
            dp@ == dir_prefix@,
            cands@.len() == k,
            forall|j: int| 0 <= j < k ==> (#[trigger] cands@[j])@ == candidate_text(dp@, sv[j]),
        decreases sorted.len() - k,
    {
        let mut t = slice_to_vec(dp.as_slice(), 0, dp.len());
        push_all(&mut t, sorted[k].0.as_slice());
        if sorted[k].1 {
            t.push('/');
        }
        assert(t@ =~= candidate_text(dp@, sv[k as int])) by {
            assert(dp@.subrange(0, dp@.len() as int) =~= dp@);
        }
        cands.push(string_of(t.as_slice()));
        k = k + 1;
    }
    let ghost cv = Seq::new(sv.len(), |j: int| candidate_text(dir_prefix@, sv[j]));
    assert(cands@.map_values(|s: String| s@) =~= cv);
    if sorted.len() == 1 {
        let completed = cands[0].clone();
        let pc = PathCompletion { completed, candidates: cands };
        assert(pc_view(Some(pc)) == Some(completion_spec(raw_input@, dir_prefix@, file_prefix@, sv)));
        return pc;
    }
    let (c, _) = byte_walk(sorted);
    let first_s = string_of(sorted[0].0.as_slice());
    let ghost fb = encode_utf8(sv[0].0);
    proof {
        vstd::utf8::encode_utf8_valid_utf8(sv[0].0);
        lemma_common_boundary(fb, other_names(sv), fb.len() as int);
        assert(encode_utf8(first_s@) == fb);
    }
    let (common, _) = first_s.as_str().split_at(c);
    proof {
        vstd::utf8::encode_utf8_decode_utf8(common@);
        assert(common@ == decode_utf8(fb.take(c as int)));
    }
    let longer = c > file_prefix.as_str().as_bytes().len();
    assert(longer == (c > encode_utf8(file_prefix@).len()));
    assert(sv.len() > 1);
    let completed = if longer {
        let mut t = chars_of(dir_prefix.as_str());
        let cc = chars_of(common);
        push_all(&mut t, cc.as_slice());
        string_of(t.as_slice())
    } else {
        raw_input.clone()
    };
    proof {
        assert(cands@.map_values(|s: String| s@) == Seq::new(sv.len(), |i: int| candidate_text(dir_prefix@, sv[i])));
        assert(completed@ == completion_spec(raw_input@, dir_prefix@, file_prefix@, sv).0);
    }
    PathCompletion { completed, candidates: cands }
}

/// Stable sort by lower-cased name.
fn sort_by_lower(v: Vec<(Vec<char>, bool)>) -> (r: Vec<(Vec<char>, bool)>)
    ensures
        r@.map_values(|e: (Vec<char>, bool)| (e.0@, e.1)).to_multiset() == v@.map_values(
            |e: (Vec<char>, bool)| (e.0@, e.1),
        ).to_multiset(),
        r@.len() == v@.len(),
        sorted_by_lower(r@.map_values(|e: (Vec<char>, bool)| (e.0@, e.1))),
        keeps_ties(
            r@.map_values(|e: (Vec<char>, bool)| (e.0@, e.1)),
            v@.map_values(|e: (Vec<char>, bool)| (e.0@, e.1)),
        ),
{
    let mut src = v;
    let ghost orig = src@.map_values(|e: (Vec<char>, bool)| (e.0@, e.1));
    let mut out: Vec<(Vec<char>, bool)> = Vec::new();
    proof {
        let ov = out@.map_values(|e: (Vec<char>, bool)| (e.0@, e.1));
        vstd::seq_lib::lemma_multiset_commutative(ov, orig);
        assert(ov + orig =~= orig);
        assert forall|l: Seq<char>| #[trigger] ov.filter(lower_is(l)) + orig.filter(lower_is(l))
            == orig.filter(lower_is(l)) by {
            reveal(Seq::filter);
            assert(ov.filter(lower_is(l)) =~= Seq::<(Seq<char>, bool)>::empty());
            assert(Seq::<(Seq<char>, bool)>::empty() + orig.filter(lower_is(l)) =~= orig.filter(
                lower_is(l),
            ));
        }
    }
    while src.len() > 0
        invariant
            forall|l: Seq<char>|
                #![trigger lower_is(l)]
                out@.map_values(|e: (Vec<char>, bool)| (e.0@, e.1)).filter(lower_is(l))
                    + src@.map_values(|e: (Vec<char>, bool)| (e.0@, e.1)).filter(lower_is(l))
                    == orig.filter(lower_is(l)),
            (out@.map_values(|e: (Vec<char>, bool)| (e.0@, e.1)) + src@.map_values(
                |e: (Vec<char>, bool)| (e.0@, e.1),
            )).to_multiset() == orig.to_multiset(),
            out@.len() + src@.len() == orig.len(),
            sorted_by_lower(out@.map_values(|e: (Vec<char>, bool)| (e.0@, e.1))),
        decreases src.len(),
    {
        let ghost sv0 = src@.map_values(|e: (Vec<char>, bool)| (e.0@, e.1));
        let ghost before = out@.map_values(|e: (Vec<char>, bool)| (e.0@, e.1));
        let x = src.remove(0);
        let ghost xv = (x.0@, x.1);
        assert(sv0[0] == xv);
        let lx = lowercase(x.0.as_slice());
        let mut p = out.len();
        while p > 0 && lex_compare(lx.as_slice(), lowercase(out[p - 1].0.as_slice()).as_slice()) < 0
            invariant
                p <= out@.len(),
                lx@ == lower(xv.0),
                before == out@.map_values(|e: (Vec<char>, bool)| (e.0@, e.1)),
                forall|k: int| p <= k < out@.len() ==> lexord(lower(xv.0), lower((#[trigger] before[k]).0)) < 0,
            decreases p,
        {
            p = p - 1;
        }
        proof {
            if p > 0 {
                lemma_lexord_antisym(lower(xv.0), lower(before[p - 1].0));
                assert forall|i: int| 0 <= i < p implies lexord(lower((#[trigger] before[i]).0), lower(xv.0)) <= 0 by {
                    if i < p - 1 {
                        lemma_lexord_trans(lower(before[i].0), lower(before[p - 1].0), lower(xv.0));
                    }
                }
            }
        }
        out.insert(p, x);
        proof {
            let s = out@.map_values(|e: (Vec<char>, bool)| (e.0@, e.1));
            assert(s =~= before.insert(p as int, xv));
            assert forall|i: int, j: int| 0 <= i < j < s.len() implies lexord(lower(#[trigger] s[i].0), lower(#[trigger] s[j].0)) <= 0 by {
                if j < p {
                    assert(s[i] == before[i] && s[j] == before[j]);
                } else if j == p {
                    assert(s[i] == before[i]);
                } else if i == p {
                    assert(s[j] == before[j - 1]);
                } else if i < p {
                    assert(s[i] == before[i] && s[j] == before[j - 1]);
                    lemma_lexord_trans(lower(before[i].0), lower(xv.0), lower(before[j - 1].0));
                } else {
                    assert(s[i] == before[i - 1] && s[j] == before[j - 1]);
                }
            }
            let sv = src@.map_values(|e: (Vec<char>, bool)| (e.0@, e.1));
            assert(sv =~= sv0.remove(0));
            broadcast use vstd::multiset::group_multiset_axioms;
            vstd::seq_lib::lemma_multiset_commutative(s, sv);
            vstd::seq_lib::lemma_multiset_commutative(before, sv0);
            assert(sv0.to_multiset().contains(xv));
            assert(sv.to_multiset() == sv0.to_multiset().remove(xv));
            assert(s.to_multiset() == before.to_multiset().insert(xv));
            assert(s.to_multiset().add(sv.to_multiset()) =~= before.to_multiset().add(sv0.to_multiset()));
            assert forall|l: Seq<char>| #[trigger] s.filter(lower_is(l)) + sv.filter(lower_is(l))
                == orig.filter(lower_is(l)) by {
                let f = lower_is(l);
                lemma_insert_lower_ties(before, p as int, xv, l);
                assert(sv0 =~= seq![xv] + sv);
                Seq::filter_distributes_over_add(seq![xv], sv, f);
                assert(before.filter(f) + sv0.filter(f) == orig.filter(f));
                assert(s.filter(f) + sv.filter(f) =~= before.filter(f) + sv0.filter(f));
            }
        }
    }
    proof {
        let ov = out@.map_values(|e: (Vec<char>, bool)| (e.0@, e.1));
        assert(src@.map_values(|e: (Vec<char>, bool)| (e.0@, e.1)) =~= Seq::<(Seq<char>, bool)>::empty());
        assert(ov + Seq::<(Seq<char>, bool)>::empty() =~= ov);
        assert forall|l: Seq<char>| #[trigger] ov.filter(lower_is(l)) == orig.filter(lower_is(l)) by {
            reveal(Seq::filter);
            assert(Seq::<(Seq<char>, bool)>::empty().filter(lower_is(l)) =~= Seq::<(Seq<char>, bool)>::empty());
            assert(ov.filter(lower_is(l)) + Seq::<(Seq<char>, bool)>::empty() =~= ov.filter(lower_is(l)));
        }
    }
    out
}

} // verus!
