//! Small string-based path helpers (the UI deals in displayable path strings).
//!
//! The home directory is an input here: reading `$HOME` is the caller's job.
use vstd::prelude::*;

use crate::text::{
    chars_of, last_segment, last_segment_of, eq_chars, find_char, find_from, is_prefix, lemma_find_from, lemma_rfind, push_all, rfind,
    rfind_char, slice_to_vec, starts_with, string_of,
};

verus! {

pub open spec fn slash() -> Seq<char> {
    seq!['/']
}

/// `dir/name` without producing `//` when `dir` is the root.
pub open spec fn join_spec(dir: Seq<char>, name: Seq<char>) -> Seq<char> {
    if dir == slash() {
        slash() + name
    } else {
        dir + slash() + name
    }
}

pub fn join_chars(dir: &[char], name: &[char]) -> (r: Vec<char>)
    ensures
        r@ == join_spec(dir@, name@),
{
    let mut out = slice_to_vec(dir, 0, dir.len());
    assert(dir@.subrange(0, dir@.len() as int) =~= dir@);
    if dir.len() == 1 && dir[0] == '/' {
        assert(dir@ =~= slash());
        push_all(&mut out, name);
        assert(out@ =~= slash() + name@);
    } else {
        assert(dir@ != slash() ==> true);
        out.push('/');
        push_all(&mut out, name);
        assert(out@ =~= dir@ + slash() + name@);
        assert(dir@ != slash()) by {
            if dir@ == slash() {
                assert(dir@.len() == 1 && dir@[0] == '/');
            }
        }
    }
    out
}

/// Join a child name onto a directory path without producing `//`.
pub fn join(dir: &str, name: &str) -> (r: String)
    ensures
        r@ == join_spec(dir@, name@),
{
    let d = chars_of(dir);
    let n = chars_of(name);
    let r = join_chars(d.as_slice(), n.as_slice());
    string_of(r.as_slice())
}

pub open spec fn tilde() -> Seq<char> {
    seq!['~']
}

pub open spec fn tilde_slash() -> Seq<char> {
    seq!['~', '/']
}

/// A leading `~` (alone or before `/`) stands for `home`.
pub open spec fn expand_tilde_spec(input: Seq<char>, home: Seq<char>) -> Seq<char> {
    if input == tilde() {
        home
    } else if is_prefix(tilde_slash(), input) {
        join_spec(home, input.skip(2))
    } else {
        input
    }
}

fn expand_tilde(input: &[char], home: &[char]) -> (r: Vec<char>)
    ensures
        r@ == expand_tilde_spec(input@, home@),
{
    let ts: [char; 2] = ['~', '/'];
    assert(ts@ =~= tilde_slash());
    if input.len() == 1 && input[0] == '~' {
        assert(input@ =~= tilde());
        slice_to_vec(home, 0, home.len())
    } else if starts_with(input, &ts) {
        assert(input@ != tilde());
        let rest = slice_to_vec(input, 2, input.len());
        assert(rest@ =~= input@.skip(2));
        join_chars(home, rest.as_slice())
    } else {
        assert(input@ != tilde()) by {
            if input@ == tilde() {
                assert(input@.len() == 1 && input@[0] == '~');
            }
        }
        slice_to_vec(input, 0, input.len())
    }
}

pub open spec fn dot() -> Seq<char> {
    seq!['.']
}

pub open spec fn dotdot() -> Seq<char> {
    seq!['.', '.']
}

/// One lexical step over a path segment: empty and `.` are dropped, `..`
/// pops the previous segment (kept as `..` in relative paths when there is
/// nothing to pop).
pub open spec fn step(parts: Seq<Seq<char>>, seg: Seq<char>, absolute: bool) -> Seq<Seq<char>> {
    if seg.len() == 0 || seg == dot() {
        parts
    } else if seg == dotdot() {
        if parts.len() > 0 && parts.last() != dotdot() {
            parts.drop_last()
        } else if !absolute {
            parts.push(dotdot())
        } else {
            parts
        }
    } else {
        parts.push(seg)
    }
}

/// Folds [`step`] over the `/`-separated segments of `s` starting at `i`.
pub open spec fn norm_from(parts: Seq<Seq<char>>, s: Seq<char>, i: int, absolute: bool) -> Seq<Seq<char>>
    decreases s.len() - i,
    when 0 <= i <= s.len()
{
    let j = find_from(s, '/', i);
    let p2 = if i <= j <= s.len() { step(parts, s.subrange(i, j), absolute) } else { parts };
    if i <= j < s.len() {
        norm_from(p2, s, j + 1, absolute)
    } else {
        p2
    }
}

/// Segments joined with `/`.
pub open spec fn join_parts(ps: Seq<Seq<char>>) -> Seq<char>
    decreases ps.len(),
{
    if ps.len() == 0 {
        Seq::empty()
    } else if ps.len() == 1 {
        ps[0]
    } else {
        join_parts(ps.drop_last()) + slash() + ps.last()
    }
}

/// Lexical normalisation of an already tilde-expanded path.
pub open spec fn normalize_expanded(e: Seq<char>) -> Seq<char> {
    let absolute = is_prefix(slash(), e);
    let body = join_parts(norm_from(Seq::empty(), e, 0, absolute));
    if absolute {
        slash() + body
    } else if body.len() == 0 {
        dot()
    } else {
        body
    }
}

/// Expand a leading `~`, collapse duplicate slashes, resolve `.`/`..`
/// lexically and drop any trailing slash (except for `/`).
pub open spec fn normalize_spec(input: Seq<char>, home: Seq<char>) -> Seq<char> {
    normalize_expanded(expand_tilde_spec(input, home))
}

fn is_dot(s: &[char]) -> (r: bool)
    ensures
        r == (s@ == dot()),
{
    let d: [char; 1] = ['.'];
    assert(d@ =~= dot());
    eq_chars(s, &d)
}

fn is_dotdot(s: &[char]) -> (r: bool)
    ensures
        r == (s@ == dotdot()),
{
    let d: [char; 2] = ['.', '.'];
    assert(d@ =~= dotdot());
    eq_chars(s, &d)
}

fn join_parts_exec(ps: &Vec<Vec<char>>) -> (r: Vec<char>)
    ensures
        r@ == join_parts(ps@.map_values(|p: Vec<char>| p@)),
{
    let ghost v = ps@.map_values(|p: Vec<char>| p@);
    let mut out: Vec<char> = Vec::new();
    let mut k: usize = 0;
    while k < ps.len()
        invariant
            k <= ps@.len(),
            v == ps@.map_values(|p: Vec<char>| p@),
            out@ == join_parts(v.take(k as int)),
        decreases ps.len() - k,
    {
        proof {
            assert(v.take(k + 1).drop_last() =~= v.take(k as int));
        }
        if k > 0 {
            out.push('/');
        }
        push_all(&mut out, ps[k].as_slice());
        proof {
            if k == 0 {
                assert(v.take(1) =~= seq![v[0]]);
                assert(out@ =~= v[0]);
            } else {
                assert(out@ =~= join_parts(v.take(k as int)) + slash() + v[k as int]);
            }
        }
        k = k + 1;
    }
    assert(v.take(ps@.len() as int) =~= v);
    out
}

fn normalize_chars(e: &[char]) -> (r: Vec<char>)
    ensures
        r@ == normalize_expanded(e@),
{
    let sl: [char; 1] = ['/'];
    assert(sl@ =~= slash());
    let absolute = starts_with(e, &sl);
    let n = e.len();
    let mut parts: Vec<Vec<char>> = Vec::new();
    let ghost empty: Seq<Seq<char>> = Seq::empty();
    assert(parts@.map_values(|p: Vec<char>| p@) =~= empty);
    let mut i: usize = 0;
    loop
        invariant_except_break
            i <= n == e@.len(),
            norm_from(parts@.map_values(|p: Vec<char>| p@), e@, i as int, absolute) == norm_from(
                empty,
                e@,
                0,
                absolute,
            ),
        ensures
            parts@.map_values(|p: Vec<char>| p@) == norm_from(empty, e@, 0, absolute),
        decreases n - i,
    {
        let ghost pv = parts@.map_values(|p: Vec<char>| p@);
        let j = find_char(e, '/', i);
        proof {
            lemma_find_from(e@, '/', i as int);
        }
        let seg = slice_to_vec(e, i, j);
        if seg.len() == 0 || is_dot(seg.as_slice()) {
        } else if is_dotdot(seg.as_slice()) {
            let np = parts.len();
            if np > 0 && !is_dotdot(parts[np - 1].as_slice()) {
                parts.pop();
                assert(parts@.map_values(|p: Vec<char>| p@) =~= pv.drop_last());
            } else if !absolute {
                let mut dd: Vec<char> = Vec::new();
                dd.push('.');
                dd.push('.');
                assert(dd@ =~= dotdot());
                parts.push(dd);
                assert(parts@.map_values(|p: Vec<char>| p@) =~= pv.push(dotdot()));
            }
        } else {
            parts.push(seg);
            assert(parts@.map_values(|p: Vec<char>| p@) =~= pv.push(e@.subrange(i as int, j as int)));
        }
        assert(parts@.map_values(|p: Vec<char>| p@) == step(pv, e@.subrange(i as int, j as int), absolute));
        if j >= n {
            assert(norm_from(pv, e@, i as int, absolute) == step(pv, e@.subrange(i as int, j as int), absolute));
            break;
        }
        i = j + 1;
    }
    let body = join_parts_exec(&parts);
    if absolute {
        let mut out: Vec<char> = Vec::new();
        out.push('/');
        push_all(&mut out, body.as_slice());
        assert(out@ =~= slash() + body@);
        out
    } else if body.len() == 0 {
        let mut out: Vec<char> = Vec::new();
        out.push('.');
        assert(out@ =~= dot());
        out
    } else {
        body
    }
}

/// Expand a leading `~` and tidy up the path: collapse duplicate slashes,
/// resolve `.`/`..` lexically, drop any trailing slash (except for `/`).
pub fn normalize(input: &str, home: &str) -> (r: String)
    ensures
        r@ == normalize_spec(input@, home@),
{
    let i = chars_of(input);
    let h = chars_of(home);
    let e = expand_tilde(i.as_slice(), h.as_slice());
    let r = normalize_chars(e.as_slice());
    string_of(r.as_slice())
}

/// The parent of a normalised path; the parent of `/` is `/` itself.
pub open spec fn parent_spec(path: Seq<char>, home: Seq<char>) -> Seq<char> {
    let t = normalize_spec(path, home);
    if t == slash() {
        slash()
    } else {
        match rfind(t, '/') {
            Some(i) => if i == 0 {
                slash()
            } else {
                t.subrange(0, i)
            },
            None => t,
        }
    }
}

/// Parent of `path`; the parent of `/` is `/` itself.
pub fn parent(path: &str, home: &str) -> (r: String)
    ensures
        r@ == parent_spec(path@, home@),
{
    let i = chars_of(path);
    let h = chars_of(home);
    let e = expand_tilde(i.as_slice(), h.as_slice());
    let t = normalize_chars(e.as_slice());
    let mut root: Vec<char> = Vec::new();
    root.push('/');
    assert(root@ =~= slash());
    if t.len() == 1 && t[0] == '/' {
        assert(t@ =~= slash());
        return string_of(root.as_slice());
    }
    assert(t@ != slash()) by {
        if t@ == slash() {
            assert(t@.len() == 1 && t@[0] == '/');
        }
    }
    proof {
        lemma_rfind(t@, '/');
    }
    let n = t.len();
    match rfind_char(t.as_slice(), '/') {
        Some(0) => string_of(root.as_slice()),
        Some(k) => {
            assert(k < n);
            let p = slice_to_vec(t.as_slice(), 0, k);
            string_of(p.as_slice())
        },
        None => string_of(t.as_slice()),
    }
}

/// Normalise and, for relative input, resolve against `cwd`.
pub open spec fn resolve_spec(cwd: Seq<char>, input: Seq<char>, home: Seq<char>) -> Seq<char> {
    let e = expand_tilde_spec(input, home);
    if is_prefix(slash(), e) {
        normalize_spec(e, home)
    } else {
        normalize_spec(join_spec(cwd, e), home)
    }
}

/// Normalize and, for relative input, resolve against `cwd`.
pub fn resolve(cwd: &str, input: &str, home: &str) -> (r: String)
    ensures
        r@ == resolve_spec(cwd@, input@, home@),
{
    let i = chars_of(input);
    let h = chars_of(home);
    let c = chars_of(cwd);
    let e = expand_tilde(i.as_slice(), h.as_slice());
    let sl: [char; 1] = ['/'];
    assert(sl@ =~= slash());
    let target = if starts_with(e.as_slice(), &sl) {
        e
    } else {
        join_chars(c.as_slice(), e.as_slice())
    };
    let t2 = expand_tilde(target.as_slice(), h.as_slice());
    let r = normalize_chars(t2.as_slice());
    string_of(r.as_slice())
}

/// The final component of a path, as `Path::file_name` gives it: trailing
/// slashes and `.` components are skipped; `/`, `.`, `..` and the empty
/// path have none.
pub open spec fn file_name_spec(p: Seq<char>) -> Option<Seq<char>>
    decreases p.len(),
{
    if p.len() == 0 {
        None
    } else if p.last() == '/' {
        file_name_spec(p.drop_last())
    } else {
        let seg = last_segment(p, '/');
        if seg == dot() {
            if p.len() == 1 {
                None
            } else {
                file_name_spec(p.drop_last())
            }
        } else if seg == dotdot() {
            None
        } else {
            Some(seg)
        }
    }
}

pub fn file_name_chars(p: &[char]) -> (r: Option<Vec<char>>)
    ensures
        match r {
            Some(v) => file_name_spec(p@) == Some(v@),
            None => file_name_spec(p@) is None,
        },
{
    let mut end: usize = p.len();
    assert(p@.take(end as int) =~= p@);
    while end > 0
        invariant
            end <= p@.len(),
            file_name_spec(p@) == file_name_spec(p@.take(end as int)),
        decreases end,
    {
        let ghost t = p@.take(end as int);
        if p[end - 1] == '/' {
            assert(t.drop_last() =~= p@.take(end - 1));
            end = end - 1;
        } else {
            let tv = slice_to_vec(p, 0, end);
            assert(tv@ =~= t);
            let seg = last_segment_of(tv.as_slice(), '/');
            if is_dot(seg.as_slice()) {
                if end == 1 {
                    return None;
                }
                assert(t.drop_last() =~= p@.take(end - 1));
                end = end - 1;
            } else if is_dotdot(seg.as_slice()) {
                return None;
            } else {
                return Some(seg);
            }
        }
    }
    None
}

/// How much of a path's start `Path` never trims: its root, or a leading
/// `.` component.
pub open spec fn path_base(q: Seq<char>) -> int {
    if q.len() > 0 && q[0] == '/' {
        1
    } else if q == dot() || (q.len() >= 2 && q[0] == '.' && q[1] == '/') {
        1
    } else {
        0
    }
}

/// `q` without its trailing separators and `.` components, down to its base.
pub open spec fn trim_tail(q: Seq<char>) -> Seq<char>
    decreases q.len(),
{
    if q.len() <= path_base(q) {
        q
    } else if q.last() == '/' {
        trim_tail(q.drop_last())
    } else if last_segment(q, '/') == dot() {
        trim_tail(q.drop_last())
    } else {
        q
    }
}

pub open spec fn all_slashes(p: Seq<char>) -> bool {
    forall|i: int| 0 <= i < p.len() ==> p[i] == '/'
}

/// `Path::parent`: the path without its final component (trailing
/// separators and `.` components do not count); none for the empty path and
/// the root; empty for a single relative component.
pub open spec fn path_parent_spec(p: Seq<char>) -> Option<Seq<char>>
    decreases p.len(),
{
    if p.len() == 0 {
        None
    } else if p.last() == '/' {
        if all_slashes(p) {
            None
        } else {
            path_parent_spec(p.drop_last())
        }
    } else {
        let seg = last_segment(p, '/');
        if seg == dot() && p.len() > 1 {
            path_parent_spec(p.drop_last())
        } else if seg == dot() {
            Some(Seq::empty())
        } else {
            let pre = p.take(p.len() - seg.len());
            if pre.len() == 0 {
                Some(Seq::empty())
            } else {
                Some(trim_tail(pre))
            }
        }
    }
}

fn path_base_exec(q: &[char]) -> (r: usize)
    ensures
        r == path_base(q@),
{
    if q.len() > 0 && q[0] == '/' {
        1
    } else if (q.len() == 1 && q[0] == '.') || (q.len() >= 2 && q[0] == '.' && q[1] == '/') {
        proof {
            if q@.len() == 1 {
                assert(q@ =~= dot());
            }
        }
        1
    } else {
        proof {
            if q@ == dot() {
                assert(q@.len() == 1 && q@[0] == '.');
            }
        }
        0
    }
}

fn trim_tail_exec(q: &[char]) -> (r: Vec<char>)
    ensures
        r@ == trim_tail(q@),
{
    let mut end: usize = q.len();
    assert(q@.take(end as int) =~= q@);
    loop
        invariant
            end <= q@.len(),
            trim_tail(q@) == trim_tail(q@.take(end as int)),
        decreases end,
    {
        let t = slice_to_vec(q, 0, end);
        assert(t@ =~= q@.take(end as int));
        let base = path_base_exec(t.as_slice());
        if end <= base {
            return t;
        }
        if q[end - 1] == '/' {
            assert(t@.drop_last() =~= q@.take(end - 1));
            end = end - 1;
        } else {
            let seg = last_segment_of(t.as_slice(), '/');
            if is_dot(seg.as_slice()) {
                assert(t@.drop_last() =~= q@.take(end - 1));
                end = end - 1;
            } else {
                return t;
            }
        }
    }
}

/// The parent of the path `p` (see [`parent_spec`]).
pub fn parent_chars(p: &[char]) -> (r: Option<Vec<char>>)
    ensures
        match r {
            Some(v) => path_parent_spec(p@) == Some(v@),
            None => path_parent_spec(p@) is None,
        },
{
    let mut end: usize = p.len();
    assert(p@.take(end as int) =~= p@);
    while end > 0
        invariant
            end <= p@.len(),
            path_parent_spec(p@) == path_parent_spec(p@.take(end as int)),
        decreases end,
    {
        let ghost t = p@.take(end as int);
        if p[end - 1] == '/' {
            let mut k: usize = 0;
            while k < end && p[k] == '/'
                invariant
                    k <= end <= p@.len(),
                    t == p@.take(end as int),
                    forall|i: int| 0 <= i < k ==> t[i] == '/',
                decreases end - k,
            {
                k = k + 1;
            }
            if k == end {
                assert(all_slashes(t));
                return None;
            }
            assert(t[k as int] != '/');
            assert(!all_slashes(t));
            assert(t.drop_last() =~= p@.take(end - 1));
            end = end - 1;
        } else {
            let tv = slice_to_vec(p, 0, end);
            assert(tv@ =~= t);
            let seg = last_segment_of(tv.as_slice(), '/');
            proof {
                lemma_rfind(t, '/');
            }
            if is_dot(seg.as_slice()) {
                if end == 1 {
                    return Some(Vec::new());
                }
                assert(t.drop_last() =~= p@.take(end - 1));
                end = end - 1;
            } else {
                assert(seg@.len() <= t.len());
                let pre_len = end - seg.len();
                if pre_len == 0 {
                    return Some(Vec::new());
                }
                let pre = slice_to_vec(p, 0, pre_len);
                assert(pre@ =~= t.take(t.len() - seg@.len()));
                return Some(trim_tail_exec(pre.as_slice()));
            }
        }
    }
    None
}

/// The file name of `path` as text, empty when it has none.
pub fn file_name_text(path: &str) -> (r: String)
    ensures
        r@ == file_name_or_empty(path@),
{
    let c = chars_of(path);
    match file_name_chars(c.as_slice()) {
        Some(v) => string_of(v.as_slice()),
        None => String::new(),
    }
}

pub open spec fn file_name_or_empty(p: Seq<char>) -> Seq<char> {
    match file_name_spec(p) {
        Some(n) => n,
        None => Seq::empty(),
    }
}

} // verus!
