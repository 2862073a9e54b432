//! Shell-style glob matching for chooser filters: `*`, `?`, `[...]` sets and
//! ranges, `[!...]` negation; ASCII case-insensitive.
use vstd::prelude::*;

use crate::text::{ascii_lower, chars_of, char_ascii_lower};

verus! {

/// Scans the items of a `[...]` class from `idx`; returns the index of the
/// closing `]` (or `p.len()`) and the `(low, high)` ranges, lower-cased.
pub open spec fn class_scan(p: Seq<char>, idx: int, items: Seq<(char, char)>) -> (int, Seq<(char, char)>)
    decreases p.len() - idx,
{
    if idx < 0 || idx >= p.len() || p[idx] == ']' {
        (idx, items)
    } else {
        let low = ascii_lower(p[idx]);
        if idx + 2 < p.len() && p[idx + 1] == '-' && p[idx + 2] != ']' {
            class_scan(p, idx + 3, items.push((low, ascii_lower(p[idx + 2]))))
        } else {
            class_scan(p, idx + 1, items.push((low, low)))
        }
    }
}

/// A parsed class at `start` (which holds `[`): negation, ranges, and the
/// index just past the closing `]`; `None` when unterminated or empty.
pub open spec fn parse_class(p: Seq<char>, start: int) -> Option<(bool, Seq<(char, char)>, int)> {
    let negated = start + 1 < p.len() && p[start + 1] == '!';
    let first = if negated {
        start + 2
    } else {
        start + 1
    };
    let (end, items) = class_scan(p, first, Seq::empty());
    if end >= p.len() || items.len() == 0 {
        None
    } else {
        Some((negated, items, end + 1))
    }
}

pub open spec fn in_ranges(items: Seq<(char, char)>, c: char) -> bool {
    exists|k: int| 0 <= k < items.len() && (#[trigger] items[k]).0 <= c <= items[k].1
}

pub open spec fn class_matches(negated: bool, items: Seq<(char, char)>, c: char) -> bool {
    in_ranges(items, ascii_lower(c)) != negated
}

/// Glob semantics on suffixes `p[pi..]` and `n[ni..]`.
pub open spec fn glob_at(p: Seq<char>, pi: int, n: Seq<char>, ni: int) -> bool
    decreases p.len() - pi, n.len() - ni,
    when 0 <= pi <= p.len() && 0 <= ni <= n.len()
{
    if pi >= p.len() {
        ni >= n.len()
    } else if p[pi] == '*' {
        glob_at(p, pi + 1, n, ni) || (ni < n.len() && glob_at(p, pi, n, ni + 1))
    } else if p[pi] == '?' {
        ni < n.len() && glob_at(p, pi + 1, n, ni + 1)
    } else if p[pi] == '[' {
        match parse_class(p, pi) {
            Some((neg, items, rest)) if ni < n.len() && pi < rest <= p.len() => class_matches(
                neg,
                items,
                n[ni],
            ) && glob_at(p, rest, n, ni + 1),
            _ => ni < n.len() && ascii_lower(n[ni]) == '[' && glob_at(p, pi + 1, n, ni + 1),
        }
    } else {
        ni < n.len() && ascii_lower(n[ni]) == ascii_lower(p[pi]) && glob_at(p, pi + 1, n, ni + 1)
    }
}

pub open spec fn glob_spec(pattern: Seq<char>, name: Seq<char>) -> bool {
    glob_at(pattern, 0, name, 0)
}

proof fn lemma_class_scan(p: Seq<char>, idx: int, items: Seq<(char, char)>)
    requires
        0 <= idx,
    ensures
        idx <= class_scan(p, idx, items).0,
        class_scan(p, idx, items).1.len() >= items.len(),
        idx < p.len() && p[idx] != ']' ==> class_scan(p, idx, items).1.len() > items.len(),
    decreases p.len() - idx,
{
    if idx < p.len() && p[idx] != ']' {
        let low = ascii_lower(p[idx]);
        if idx + 2 < p.len() && p[idx + 1] == '-' && p[idx + 2] != ']' {
            lemma_class_scan(p, idx + 3, items.push((low, ascii_lower(p[idx + 2]))));
        } else {
            lemma_class_scan(p, idx + 1, items.push((low, low)));
        }
    }
}

proof fn lemma_scan_shift(pp: Seq<char>, p: Seq<char>, po: int, idx: int, items: Seq<(char, char)>)
    requires
        0 <= po <= pp.len(),
        p == pp.skip(po),
        0 <= idx,
    ensures
        class_scan(pp, po + idx, items) == (class_scan(p, idx, items).0 + po, class_scan(p, idx, items).1),
    decreases p.len() - idx,
{
    if idx < p.len() && p[idx] != ']' {
        assert(pp[po + idx] == p[idx]);
        let low = ascii_lower(p[idx]);
        if idx + 2 < p.len() && p[idx + 1] == '-' && p[idx + 2] != ']' {
            assert(pp[po + idx + 1] == p[idx + 1] && pp[po + idx + 2] == p[idx + 2]);
            lemma_scan_shift(pp, p, po, idx + 3, items.push((low, ascii_lower(p[idx + 2]))));
        } else {
            if idx + 2 < p.len() {
                assert(pp[po + idx + 1] == p[idx + 1] && pp[po + idx + 2] == p[idx + 2]);
            }
            lemma_scan_shift(pp, p, po, idx + 1, items.push((low, low)));
        }
    } else if idx < p.len() {
        assert(pp[po + idx] == p[idx]);
    }
}

proof fn lemma_parse_shift(pp: Seq<char>, p: Seq<char>, po: int, i: int)
    requires
        0 <= po <= pp.len(),
        p == pp.skip(po),
        0 <= i < p.len(),
    ensures
        parse_class(pp, po + i) == match parse_class(p, i) {
            Some((neg, items, rest)) => Some((neg, items, rest + po)),
            None => None,
        },
{
    if i + 1 < p.len() {
        assert(pp[po + i + 1] == p[i + 1]);
    }
    let negated = i + 1 < p.len() && p[i + 1] == '!';
    let first = if negated { i + 2 } else { i + 1 };
    lemma_scan_shift(pp, p, po, first, Seq::empty());
}

/// Matching is unchanged by dropping a prefix of the pattern and a prefix of
/// the name in front of the positions compared.
proof fn lemma_glob_shift(
    pp: Seq<char>,
    p: Seq<char>,
    po: int,
    nn: Seq<char>,
    n: Seq<char>,
    no: int,
    i: int,
    j: int,
)
    requires
        0 <= po <= pp.len(),
        0 <= no <= nn.len(),
        p == pp.skip(po),
        n == nn.skip(no),
        0 <= i <= p.len(),
        0 <= j <= n.len(),
    ensures
        glob_at(pp, po + i, nn, no + j) == glob_at(p, i, n, j),
    decreases p.len() - i, n.len() - j,
{
    if i < p.len() {
        assert(pp[po + i] == p[i]);
        if j < n.len() {
            assert(nn[no + j] == n[j]);
        }
        if p[i] == '*' {
            lemma_glob_shift(pp, p, po, nn, n, no, i + 1, j);
            if j < n.len() {
                lemma_glob_shift(pp, p, po, nn, n, no, i, j + 1);
            }
        } else if p[i] == '?' {
            if j < n.len() {
                lemma_glob_shift(pp, p, po, nn, n, no, i + 1, j + 1);
            }
        } else if p[i] == '[' {
            lemma_parse_shift(pp, p, po, i);
            match parse_class(p, i) {
                Some((neg, items, rest)) => {
                    if j < n.len() && i < rest <= p.len() {
                        lemma_glob_shift(pp, p, po, nn, n, no, rest, j + 1);
                    } else if j < n.len() {
                        lemma_glob_shift(pp, p, po, nn, n, no, i + 1, j + 1);
                    }
                },
                None => {
                    if j < n.len() {
                        lemma_glob_shift(pp, p, po, nn, n, no, i + 1, j + 1);
                    }
                },
            }
        } else {
            if j < n.len() {
                lemma_glob_shift(pp, p, po, nn, n, no, i + 1, j + 1);
            }
        }
    }
}

/// The ranges a set of single characters stands for, lower-cased.
pub open spec fn set_items(t: Seq<char>) -> Seq<(char, char)> {
    Seq::new(t.len(), |k: int| (ascii_lower(t[k]), ascii_lower(t[k])))
}

proof fn lemma_scan_set(pp: Seq<char>, pre: Seq<char>, s: Seq<char>, rest: Seq<char>, j: int)
    requires
        pp == pre + s + seq![']'] + rest,
        forall|k: int| 0 <= k < s.len() ==> #[trigger] s[k] != ']' && s[k] != '-',
        0 <= j <= s.len(),
    ensures
        class_scan(pp, pre.len() + j, set_items(s.take(j))) == ((pre.len() + s.len()) as int, set_items(s)),
    decreases s.len() - j,
{
    let o = pre.len() as int;
    assert(pp[o + s.len()] == ']');
    if j < s.len() {
        assert(pp[o + j] == s[j]);
        if j + 1 < s.len() {
            assert(pp[o + j + 1] == s[j + 1]);
        }
        assert(set_items(s.take(j)).push((ascii_lower(s[j]), ascii_lower(s[j]))) =~= set_items(s.take(j + 1)));
        lemma_scan_set(pp, pre, s, rest, j + 1);
    } else {
        assert(s.take(j) =~= s);
    }
}

/// A character set `[s]` (members listed one by one, no ranges, not
/// negated) matches a name exactly when the name's first character is one
/// of the members, ASCII case ignored, and the rest of the name matches
/// what follows the set.
pub proof fn law_glob_set(s: Seq<char>, rest: Seq<char>, name: Seq<char>)
    requires
        s.len() > 0,
        s[0] != '!',
        forall|k: int| 0 <= k < s.len() ==> #[trigger] s[k] != ']' && s[k] != '-',
    ensures
        glob_spec(seq!['['] + s + seq![']'] + rest, name) == (name.len() > 0 && (exists|k: int|
            0 <= k < s.len() && ascii_lower(#[trigger] s[k]) == ascii_lower(name[0])) && glob_spec(
            rest,
            name.drop_first(),
        )),
{
    let pp = seq!['['] + s + seq![']'] + rest;
    assert(pp[0] == '[');
    assert(pp[1] == s[0]);
    assert(s.take(0) =~= Seq::<char>::empty());
    assert(set_items(Seq::<char>::empty()) =~= Seq::<(char, char)>::empty());
    lemma_scan_set(pp, seq!['['], s, rest, 0);
    assert(seq!['['] + s + seq![']'] + rest == pp);
    let items = set_items(s);
    assert(parse_class(pp, 0) == Some((false, items, s.len() + 2int)));
    if name.len() > 0 {
        assert(pp.skip(s.len() + 2int) =~= rest);
        assert(name.skip(1) =~= name.drop_first());
        lemma_glob_shift(pp, rest, s.len() + 2int, name, name.drop_first(), 1, 0, 0);
        let c = ascii_lower(name[0]);
        if exists|k: int| 0 <= k < s.len() && ascii_lower(#[trigger] s[k]) == c {
            let k = choose|k: int| 0 <= k < s.len() && ascii_lower(#[trigger] s[k]) == c;
            assert(items[k].0 <= c <= items[k].1);
        }
        if in_ranges(items, c) {
            let k = choose|k: int| 0 <= k < items.len() && (#[trigger] items[k]).0 <= c <= items[k].1;
            assert(ascii_lower(s[k]) == c);
        }
    }
}

/// A negated set `[!s]` (members listed one by one, no ranges) matches a
/// name exactly when the name's first character is none of the members,
/// ASCII case ignored, and the rest of the name matches what follows.
pub proof fn law_glob_negated_set(s: Seq<char>, rest: Seq<char>, name: Seq<char>)
    requires
        s.len() > 0,
        forall|k: int| 0 <= k < s.len() ==> #[trigger] s[k] != ']' && s[k] != '-',
    ensures
        glob_spec(seq!['[', '!'] + s + seq![']'] + rest, name) == (name.len() > 0 && !(exists|k: int|
            0 <= k < s.len() && ascii_lower(#[trigger] s[k]) == ascii_lower(name[0])) && glob_spec(
            rest,
            name.drop_first(),
        )),
{
    let pp = seq!['[', '!'] + s + seq![']'] + rest;
    assert(pp[0] == '[');
    assert(pp[1] == '!');
    assert(s.take(0) =~= Seq::<char>::empty());
    assert(set_items(Seq::<char>::empty()) =~= Seq::<(char, char)>::empty());
    lemma_scan_set(pp, seq!['[', '!'], s, rest, 0);
    let items = set_items(s);
    assert(parse_class(pp, 0) == Some((true, items, s.len() + 3int)));
    if name.len() > 0 {
        assert(pp.skip(s.len() + 3int) =~= rest);
        assert(name.skip(1) =~= name.drop_first());
        lemma_glob_shift(pp, rest, s.len() + 3int, name, name.drop_first(), 1, 0, 0);
        let c = ascii_lower(name[0]);
        if exists|k: int| 0 <= k < s.len() && ascii_lower(#[trigger] s[k]) == c {
            let k = choose|k: int| 0 <= k < s.len() && ascii_lower(#[trigger] s[k]) == c;
            assert(items[k].0 <= c <= items[k].1);
        }
        if in_ranges(items, c) {
            let k = choose|k: int| 0 <= k < items.len() && (#[trigger] items[k]).0 <= c <= items[k].1;
            assert(ascii_lower(s[k]) == c);
        }
    }
}

/// A range `[x-y]` matches a name exactly when the name's first character
/// lies from `x` to `y`, both included, ASCII case ignored, and the rest of
/// the name matches what follows the range.
pub proof fn law_glob_range(x: char, y: char, rest: Seq<char>, name: Seq<char>)
    requires
        x != '!',
        x != ']',
        y != ']',
    ensures
        glob_spec(seq!['[', x, '-', y, ']'] + rest, name) == (name.len() > 0 && ascii_lower(x) <= ascii_lower(name[0])
            <= ascii_lower(y) && glob_spec(rest, name.drop_first())),
{
    let pp = seq!['[', x, '-', y, ']'] + rest;
    assert(pp[0] == '[' && pp[1] == x && pp[2] == '-' && pp[3] == y && pp[4] == ']');
    let items = seq![(ascii_lower(x), ascii_lower(y))];
    assert(Seq::<(char, char)>::empty().push((ascii_lower(x), ascii_lower(y))) =~= items);
    assert(class_scan(pp, 4, items) == (4int, items));
    assert(class_scan(pp, 1, Seq::empty()) == (4int, items));
    assert(parse_class(pp, 0) == Some((false, items, 5int)));
    if name.len() > 0 {
        assert(pp.skip(5) =~= rest);
        assert(name.skip(1) =~= name.drop_first());
        lemma_glob_shift(pp, rest, 5, name, name.drop_first(), 1, 0, 0);
        let c = ascii_lower(name[0]);
        if ascii_lower(x) <= c <= ascii_lower(y) {
            assert(items[0].0 <= c <= items[0].1);
        }
    }
}

/// Exec form of [`parse_class`].
fn parse_class_exec(p: &[char], start: usize) -> (r: Option<(bool, Vec<(char, char)>, usize)>)
    requires
        start < p@.len(),
        p@[start as int] == '[',
    ensures
        match r {
            Some((neg, items, rest)) => parse_class(p@, start as int) == Some(
                (neg, items@, rest as int),
            ) && start < rest <= p@.len(),
            None => parse_class(p@, start as int) is None,
        },
{
    let n = p.len();
    let negated = start + 1 < n && p[start + 1] == '!';
    let first = if negated {
        start + 2
    } else {
        start + 1
    };
    let mut idx = first;
    let mut items: Vec<(char, char)> = Vec::new();
    proof {
        lemma_class_scan(p@, first as int, Seq::empty());
    }
    while idx < n && p[idx] != ']'
        invariant
            first <= idx <= n == p@.len(),
            first == (if negated { start + 2 } else { start + 1 }),
            class_scan(p@, idx as int, items@) == class_scan(p@, first as int, Seq::empty()),
        decreases n - idx,
    {
        let low = char_ascii_lower(p[idx]);
        if n - idx > 2 && p[idx + 1] == '-' && p[idx + 2] != ']' {
            let high = char_ascii_lower(p[idx + 2]);
            items.push((low, high));
            idx = idx + 3;
        } else {
            items.push((low, low));
            idx = idx + 1;
        }
    }
    if idx >= n || items.len() == 0 {
        None
    } else {
        Some((negated, items, idx + 1))
    }
}

fn class_matches_exec(negated: bool, items: &Vec<(char, char)>, c: char) -> (r: bool)
    ensures
        r == class_matches(negated, items@, c),
{
    let lower = char_ascii_lower(c);
    let mut k: usize = 0;
    let mut found = false;
    while k < items.len()
        invariant
            k <= items@.len(),
            found == exists|j: int| 0 <= j < k && (#[trigger] items@[j]).0 <= lower <= items@[j].1,
        decreases items.len() - k,
    {
        let (lo, hi) = items[k];
        if lo <= lower && lower <= hi {
            found = true;
        }
        k = k + 1;
    }
    found != negated
}

fn glob_rec(p: &[char], pi: usize, n: &[char], ni: usize) -> (r: bool)
    requires
        pi <= p@.len(),
        ni <= n@.len(),
    ensures
        r == glob_at(p@, pi as int, n@, ni as int),
    decreases p@.len() - pi, n@.len() - ni,
{
    if pi >= p.len() {
        return ni >= n.len();
    }
    let c = p[pi];
    if c == '*' {
        glob_rec(p, pi + 1, n, ni) || (ni < n.len() && glob_rec(p, pi, n, ni + 1))
    } else if c == '?' {
        ni < n.len() && glob_rec(p, pi + 1, n, ni + 1)
    } else if c == '[' {
        match parse_class_exec(p, pi) {
            Some((neg, items, rest)) if ni < n.len() => {
                class_matches_exec(neg, &items, n[ni]) && glob_rec(p, rest, n, ni + 1)
            },
            _ => ni < n.len() && char_ascii_lower(n[ni]) == '[' && glob_rec(p, pi + 1, n, ni + 1),
        }
    } else {
        ni < n.len() && char_ascii_lower(n[ni]) == char_ascii_lower(c) && glob_rec(
            p,
            pi + 1,
            n,
            ni + 1,
        )
    }
}

/// Match a filename against a glob pattern. Supports `*`, `?`, `[...]`
/// character sets and ranges, and `[!...]` negation; ASCII case-insensitive.
pub fn glob_match(pattern: &str, name: &str) -> (r: bool)
    ensures
        r == glob_spec(pattern@, name@),
{
    let p = chars_of(pattern);
    let n = chars_of(name);
    glob_rec(p.as_slice(), 0, n.as_slice(), 0)
}

} // verus!
