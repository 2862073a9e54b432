//! XDG Shared MIME-info: `globs2`, `aliases` and `subclasses` databases,
//! glob matching, a built-in extension table and magic-byte sniffing.
//!
//! Reading the database files and the first bytes of a file is the
//! caller's part.
use vstd::prelude::*;

use crate::engine::path::{file_name_or_empty, file_name_text};
use crate::text::{
    ascii_lower_seq, char_ascii_lower, char_views, chars_of, contains_char, contains_chars,
    contains_sub, ends_with, eq_chars, is_prefix, is_suffix, lines, slice_to_vec, split_all,
    split_chars, split_lines, split_once, split_once_chars, starts_with, str_eq, string_of, trim,
    trimmed,
};

verus! {

broadcast use vstd::seq_lib::group_to_multiset_ensures;

/// One rule of `globs2`.
#[derive(Debug, Clone)]
pub struct GlobRule {
    pub weight: u32,
    pub mime_type: String,
    pub pattern: String,
    pub case_sensitive: bool,
}

/// The shared MIME database: glob rules (highest weight first once
/// loaded), aliases and subclass links, in file order.
pub struct MimeDatabase {
    pub rules: Vec<GlobRule>,
    pub aliases: Vec<(String, String)>,
    pub subclasses: Vec<(String, String)>,
}

/// The contents of one `mime` directory's files (`None` when absent).
pub struct MimeDirFiles {
    pub globs2: Option<String>,
    pub aliases: Option<String>,
    pub subclasses: Option<String>,
}

pub open spec fn rule_view(r: GlobRule) -> (u32, Seq<char>, Seq<char>, bool) {
    (r.weight, r.mime_type@, r.pattern@, r.case_sensitive)
}

pub open spec fn rules_view(v: Seq<GlobRule>) -> Seq<(u32, Seq<char>, Seq<char>, bool)> {
    v.map_values(|r: GlobRule| rule_view(r))
}

pub open spec fn pairs_view(v: Seq<(String, String)>) -> Seq<(Seq<char>, Seq<char>)> {
    v.map_values(|p: (String, String)| (p.0@, p.1@))
}

// ---- numbers ----

pub open spec fn is_digit(c: char) -> bool {
    '0' <= c <= '9'
}

pub open spec fn all_digits(s: Seq<char>) -> bool {
    forall|i: int| 0 <= i < s.len() ==> is_digit(#[trigger] s[i])
}

pub open spec fn digits_value(s: Seq<char>) -> nat
    decreases s.len(),
{
    if s.len() == 0 {
        0
    } else {
        digits_value(s.drop_last()) * 10 + ((s.last() as u32) - 48) as nat
    }
}

/// `u32::from_str`: an optional `+`, at least one digit, no overflow.
pub open spec fn parse_u32_spec(s: Seq<char>) -> Option<u32> {
    let t = if s.len() > 0 && s[0] == '+' { s.skip(1) } else { s };
    if t.len() == 0 || !all_digits(t) || digits_value(t) > u32::MAX {
        None
    } else {
        Some(digits_value(t) as u32)
    }
}

proof fn lemma_digits_mono(t: Seq<char>, i: int)
    requires
        0 <= i <= t.len(),
        all_digits(t),
    ensures
        digits_value(t.take(i)) <= digits_value(t),
    decreases t.len() - i,
{
    if i < t.len() {
        lemma_digits_mono(t, i + 1);
        assert(t.take(i + 1).drop_last() =~= t.take(i));
        assert(is_digit(t[i]));
        assert(t.take(i + 1).last() == t[i]);
        assert(digits_value(t.take(i + 1)) == digits_value(t.take(i)) * 10 + ((t[i] as u32) - 48) as nat);
    } else {
        assert(t.take(i) =~= t);
    }
}

fn parse_u32(s: &[char]) -> (r: Option<u32>)
    ensures
        r == parse_u32_spec(s@),
{
    let start: usize = if s.len() > 0 && s[0] == '+' { 1 } else { 0 };
    let ghost t = if s@.len() > 0 && s@[0] == '+' { s@.skip(1) } else { s@ };
    assert(t =~= s@.skip(start as int));
    if start >= s.len() {
        return None;
    }
    let mut acc: u64 = 0;
    let mut i: usize = start;
    while i < s.len()
        invariant
            start <= i <= s@.len(),
            t == s@.skip(start as int),
            t == (if s@.len() > 0 && s@[0] == '+' { s@.skip(1) } else { s@ }),
            t.len() > 0,
            all_digits(t.take(i - start)),
            acc == digits_value(t.take(i - start)),
            acc <= u32::MAX,
        decreases s.len() - i,
    {
        let c = s[i];
        assert(t[i - start] == c);
        if !('0' <= c && c <= '9') {
            assert(!is_digit(t[i - start]));
            assert(!all_digits(t));
            assert(parse_u32_spec(s@) is None);
            return None;
        }
        assert(t.take(i - start + 1).drop_last() =~= t.take(i - start));
        let d = (c as u32 - 48) as u64;
        acc = acc * 10 + d;
        assert(t.take(i - start + 1).last() == c);
        assert(acc == digits_value(t.take(i - start + 1)));
        if acc > 0xffff_ffff {
            proof {
                if all_digits(t) {
                    lemma_digits_mono(t, i - start + 1);
                }
            }
            assert(parse_u32_spec(s@) is None);
            return None;
        }
        assert(all_digits(t.take(i - start + 1))) by {
            assert forall|j: int| 0 <= j < t.take(i - start + 1).len() implies is_digit(#[trigger] t.take(i - start + 1)[j]) by {
                if j < i - start {
                    assert(t.take(i - start + 1)[j] == t.take(i - start)[j]);
                }
            }
        }
        i = i + 1;
    }
    assert(t.take(s@.len() - start) =~= t);
    Some(acc as u32)
}

// ---- database files ----

/// A significant line: trimmed, not empty, not a comment.
pub open spec fn significant(line: Seq<char>) -> Option<Seq<char>> {
    let l = trim(line);
    if l.len() == 0 || l[0] == '#' {
        None
    } else {
        Some(l)
    }
}

/// One `weight:mime:glob[:flags]` line of `globs2`.
pub open spec fn glob_line(line: Seq<char>) -> Option<(u32, Seq<char>, Seq<char>, bool)> {
    match significant(line) {
        None => None,
        Some(l) => {
            let parts = split_all(l, ':');
            if parts.len() < 3 {
                None
            } else {
                let flags = if parts.len() > 3 { parts[3] } else { Seq::empty() };
                let weight = match parse_u32_spec(parts[0]) {
                    Some(w) => w,
                    None => 50u32,
                };
                Some((weight, parts[1], parts[2], contains_sub(flags, "cs"@)))
            }
        },
    }
}

pub open spec fn glob_step() -> spec_fn(Seq<(u32, Seq<char>, Seq<char>, bool)>, Seq<char>) -> Seq<(u32, Seq<char>, Seq<char>, bool)> {
    |acc: Seq<(u32, Seq<char>, Seq<char>, bool)>, line: Seq<char>| match glob_line(line) {
        Some(r) => acc.push(r),
        None => acc,
    }
}

/// One `a b` line of `aliases` or `subclasses`.
pub open spec fn pair_line(line: Seq<char>) -> Option<(Seq<char>, Seq<char>)> {
    match significant(line) {
        None => None,
        Some(l) => match split_once(l, ' ') {
            Some((a, b)) => Some((trim(a), trim(b))),
            None => None,
        },
    }
}

pub open spec fn pair_step() -> spec_fn(Seq<(Seq<char>, Seq<char>)>, Seq<char>) -> Seq<(Seq<char>, Seq<char>)> {
    |acc: Seq<(Seq<char>, Seq<char>)>, line: Seq<char>| match pair_line(line) {
        Some(p) => acc.push(p),
        None => acc,
    }
}

fn glob_line_exec(line: &[char]) -> (r: Option<GlobRule>)
    ensures
        match r {
            Some(g) => glob_line(line@) == Some(rule_view(g)),
            None => glob_line(line@) is None,
        },
{
    let l = trimmed(line);
    if l.len() == 0 || l[0] == '#' {
        return None;
    }
    let parts = split_chars(l.as_slice(), ':');
    if parts.len() < 3 {
        return None;
    }
    let flags: Vec<char> = if parts.len() > 3 {
        slice_to_vec(parts[3].as_slice(), 0, parts[3].len())
    } else {
        Vec::new()
    };
    assert(parts@.len() > 3 ==> parts@[3]@.subrange(0, parts@[3]@.len() as int) =~= parts@[3]@);
    let weight: u32 = match parse_u32(parts[0].as_slice()) {
        Some(w) => w,
        None => 50,
    };
    let cs = contains_chars(flags.as_slice(), chars_of("cs").as_slice());
    let g = GlobRule {
        weight,
        mime_type: string_of(parts[1].as_slice()),
        pattern: string_of(parts[2].as_slice()),
        case_sensitive: cs,
    };
    assert(char_views(parts@)[0] == parts@[0]@);
    assert(char_views(parts@)[1] == parts@[1]@);
    assert(char_views(parts@)[2] == parts@[2]@);
    assert(parts@.len() > 3 ==> char_views(parts@)[3] == parts@[3]@);
    Some(g)
}

fn pair_line_exec(line: &[char]) -> (r: Option<(String, String)>)
    ensures
        match r {
            Some((a, b)) => pair_line(line@) == Some((a@, b@)),
            None => pair_line(line@) is None,
        },
{
    let l = trimmed(line);
    if l.len() == 0 || l[0] == '#' {
        return None;
    }
    match split_once_chars(l.as_slice(), ' ') {
        Some((a, b)) => Some((string_of(trimmed(a.as_slice()).as_slice()), string_of(trimmed(b.as_slice()).as_slice()))),
        None => None,
    }
}

fn parse_pairs(content: &str, out: &mut Vec<(String, String)>)
    ensures
        pairs_view(final(out)@) == pairs_view(old(out)@) + lines(content@).fold_left(Seq::empty(), pair_step()),
{
    let c = chars_of(content);
    let ls = split_lines(c.as_slice());
    let ghost lv = ls@.map_values(|l: Vec<char>| l@);
    let ghost base = pairs_view(out@);
    let mut k: usize = 0;
    assert(lv.take(0) =~= Seq::<Seq<char>>::empty());
    assert(base + Seq::<(Seq<char>, Seq<char>)>::empty() =~= base);
    while k < ls.len()
        invariant
            k <= ls@.len(),
            lv == ls@.map_values(|l: Vec<char>| l@),
            lv == lines(content@),
            pairs_view(out@) == base + lv.take(k as int).fold_left(Seq::empty(), pair_step()),
        decreases ls.len() - k,
    {
        let ghost prev = pairs_view(out@);
        assert(lv.take(k + 1).drop_last() =~= lv.take(k as int));
        match pair_line_exec(ls[k].as_slice()) {
            Some(p) => {
                let ghost pv = (p.0@, p.1@);
                out.push(p);
                assert(pairs_view(out@) =~= prev.push(pv));
                assert(base + lv.take(k as int).fold_left(Seq::empty(), pair_step()).push(pv) =~= prev.push(pv));
            },
            None => {},
        }
        k = k + 1;
    }
    assert(lv.take(ls@.len() as int) =~= lv);
}

/// The rule a glob applies to `name`; `weight` first when sorted.
pub open spec fn by_weight_desc(s: Seq<(u32, Seq<char>, Seq<char>, bool)>) -> bool {
    forall|i: int, j: int| 0 <= i < j < s.len() ==> (#[trigger] s[i]).0 >= (#[trigger] s[j]).0
}

/// The rules of weight `w`.
pub open spec fn weighing(w: u32) -> spec_fn((u32, Seq<char>, Seq<char>, bool)) -> bool {
    |r: (u32, Seq<char>, Seq<char>, bool)| r.0 == w
}

proof fn lemma_insert_weighing(before: Seq<(u32, Seq<char>, Seq<char>, bool)>, p: int, x: (u32, Seq<char>, Seq<char>, bool), w: u32)
    requires
        0 <= p <= before.len(),
        forall|k: int| p <= k < before.len() ==> (#[trigger] before[k]).0 < x.0,
    ensures
        before.insert(p, x).filter(weighing(w)) == before.filter(weighing(w)) + seq![x].filter(weighing(w)),
{
    let f = weighing(w);
    let a = before.take(p);
    let b = before.skip(p);
    assert(before.insert(p, x) =~= a + seq![x] + b);
    assert(before =~= a + b);
    Seq::filter_distributes_over_add(a + seq![x], b, f);
    Seq::filter_distributes_over_add(a, seq![x], f);
    Seq::filter_distributes_over_add(a, b, f);
    Seq::<(u32, Seq<char>, Seq<char>, bool)>::empty().lemma_filter_push(x, f);
    assert(Seq::<(u32, Seq<char>, Seq<char>, bool)>::empty().push(x) =~= seq![x]);
    reveal(Seq::filter);
    assert(Seq::<(u32, Seq<char>, Seq<char>, bool)>::empty().filter(f) =~= Seq::<(u32, Seq<char>, Seq<char>, bool)>::empty());
    if f(x) {
        assert(b.filter(f).len() == 0) by {
            if b.filter(f).len() > 0 {
                b.lemma_filter_pred(f, 0);
                let y = b.filter(f)[0];
                assert(b.filter(f).contains(y));
                b.lemma_filter_contains_rev(f, y);
                let k = choose|k: int| 0 <= k < b.len() && b[k] == y;
                assert(b[k] == before[k + p]);
            }
        }
        assert(b.filter(f) =~= Seq::<(u32, Seq<char>, Seq<char>, bool)>::empty());
        assert(before.insert(p, x).filter(f) =~= a.filter(f) + seq![x]);
    } else {
        assert(before.insert(p, x).filter(f) =~= a.filter(f) + b.filter(f));
    }
}

impl MimeDatabase {
    /// An empty database.
    pub fn new() -> (db: Self)
        ensures
            db.rules@.len() == 0,
            db.aliases@.len() == 0,
            db.subclasses@.len() == 0,
    {
        MimeDatabase { rules: Vec::new(), aliases: Vec::new(), subclasses: Vec::new() }
    }

    /// Add the rules of a `globs2` file.
    pub fn load_globs2(&mut self, content: &str)
        ensures
            rules_view(final(self).rules@) == rules_view(old(self).rules@) + lines(content@).fold_left(
                Seq::empty(),
                glob_step(),
            ),
            final(self).aliases == old(self).aliases,
            final(self).subclasses == old(self).subclasses,
    {
        let c = chars_of(content);
        let ls = split_lines(c.as_slice());
        let ghost lv = ls@.map_values(|l: Vec<char>| l@);
        let ghost base = rules_view(self.rules@);
        let mut k: usize = 0;
        assert(lv.take(0) =~= Seq::<Seq<char>>::empty());
        assert(base + Seq::<(u32, Seq<char>, Seq<char>, bool)>::empty() =~= base);
        while k < ls.len()
            invariant
                k <= ls@.len(),
                lv == ls@.map_values(|l: Vec<char>| l@),
                lv == lines(content@),
                rules_view(self.rules@) == base + lv.take(k as int).fold_left(Seq::empty(), glob_step()),
                self.aliases == old(self).aliases,
                self.subclasses == old(self).subclasses,
            decreases ls.len() - k,
        {
            let ghost prev = rules_view(self.rules@);
            assert(lv.take(k + 1).drop_last() =~= lv.take(k as int));
            match glob_line_exec(ls[k].as_slice()) {
                Some(g) => {
                    let ghost gv = rule_view(g);
                    self.rules.push(g);
                    assert(rules_view(self.rules@) =~= prev.push(gv));
                    assert(base + lv.take(k as int).fold_left(Seq::empty(), glob_step()).push(gv) =~= prev.push(gv));
                },
                None => {},
            }
            k = k + 1;
        }
        assert(lv.take(ls@.len() as int) =~= lv);
    }

    /// Add the links of an `aliases` file.
    pub fn load_aliases(&mut self, content: &str)
        ensures
            pairs_view(final(self).aliases@) == pairs_view(old(self).aliases@) + lines(content@).fold_left(
                Seq::empty(),
                pair_step(),
            ),
            final(self).rules == old(self).rules,
            final(self).subclasses == old(self).subclasses,
    {
        parse_pairs(content, &mut self.aliases);
    }

    /// Add the links of a `subclasses` file.
    pub fn load_subclasses(&mut self, content: &str)
        ensures
            pairs_view(final(self).subclasses@) == pairs_view(old(self).subclasses@) + lines(content@).fold_left(
                Seq::empty(),
                pair_step(),
            ),
            final(self).rules == old(self).rules,
            final(self).aliases == old(self).aliases,
    {
        parse_pairs(content, &mut self.subclasses);
    }

    /// Order the rules by weight, highest first (a stable sort).
    pub fn sort_rules(&mut self)
        ensures
            rules_view(final(self).rules@).to_multiset() == rules_view(old(self).rules@).to_multiset(),
            by_weight_desc(rules_view(final(self).rules@)),
            forall|w: u32|
                #[trigger] rules_view(final(self).rules@).filter(weighing(w)) == rules_view(
                    old(self).rules@,
                ).filter(weighing(w)),
            final(self).aliases == old(self).aliases,
            final(self).subclasses == old(self).subclasses,
    {
        let mut src: Vec<GlobRule> = Vec::new();
        std::mem::swap(&mut src, &mut self.rules);
        let ghost orig = rules_view(src@);
        let mut out: Vec<GlobRule> = Vec::new();
        proof {
            vstd::seq_lib::lemma_multiset_commutative(rules_view(out@), orig);
            assert(rules_view(out@) + orig =~= orig);
            assert forall|w: u32| #[trigger] rules_view(out@).filter(weighing(w)) + orig.filter(weighing(w)) == orig.filter(weighing(w)) by {
                reveal(Seq::filter);
                assert(rules_view(out@).filter(weighing(w)) =~= Seq::<(u32, Seq<char>, Seq<char>, bool)>::empty());
                assert(Seq::<(u32, Seq<char>, Seq<char>, bool)>::empty() + orig.filter(weighing(w)) =~= orig.filter(weighing(w)));
            }
        }
        while src.len() > 0
            invariant
                forall|w: u32| #[trigger] rules_view(out@).filter(weighing(w)) + rules_view(src@).filter(weighing(w)) == orig.filter(weighing(w)),
                (rules_view(out@) + rules_view(src@)).to_multiset() == orig.to_multiset(),
                by_weight_desc(rules_view(out@)),
                self.aliases == old(self).aliases,
                self.subclasses == old(self).subclasses,
            decreases src.len(),
        {
            let ghost sv0 = rules_view(src@);
            let ghost before = rules_view(out@);
            let x = src.remove(0);
            let ghost xv = rule_view(x);
            assert(sv0[0] == xv);
            let mut p = out.len();
            while p > 0 && out[p - 1].weight < x.weight
                invariant
                    p <= out@.len(),
                    before == rules_view(out@),
                    xv == rule_view(x),
                    forall|k: int| p <= k < out@.len() ==> (#[trigger] before[k]).0 < xv.0,
                decreases p,
            {
                p = p - 1;
            }
            out.insert(p, x);
            proof {
                let s = rules_view(out@);
                assert(s =~= before.insert(p as int, xv));
                assert forall|i: int, j: int| 0 <= i < j < s.len() implies (#[trigger] s[i]).0 >= (#[trigger] s[j]).0 by {
                    if j < p {
                        assert(s[i] == before[i] && s[j] == before[j]);
                    } else if j == p {
                        assert(s[i] == before[i]);
                        assert(before[i].0 >= before[p - 1].0);
                    } else if i == p {
                        assert(s[j] == before[j - 1]);
                    } else if i < p {
                        assert(s[i] == before[i] && s[j] == before[j - 1]);
                        assert(before[i].0 >= before[p - 1].0);
                    } else {
                        assert(s[i] == before[i - 1] && s[j] == before[j - 1]);
                    }
                }
                let sv = rules_view(src@);
                assert(sv =~= sv0.remove(0));
                broadcast use vstd::multiset::group_multiset_axioms;
                vstd::seq_lib::lemma_multiset_commutative(s, sv);
                vstd::seq_lib::lemma_multiset_commutative(before, sv0);
                assert(sv0.to_multiset().contains(xv));
                assert(sv.to_multiset() == sv0.to_multiset().remove(xv));
                assert(s.to_multiset() == before.to_multiset().insert(xv));
                assert(s.to_multiset().add(sv.to_multiset()) =~= before.to_multiset().add(sv0.to_multiset()));
                assert forall|w: u32| #[trigger] s.filter(weighing(w)) + sv.filter(weighing(w)) == orig.filter(weighing(w)) by {
                    lemma_insert_weighing(before, p as int, xv, w);
                    assert(sv0 =~= seq![xv] + sv);
                    Seq::filter_distributes_over_add(seq![xv], sv, weighing(w));
                    assert(s.filter(weighing(w)) + sv.filter(weighing(w)) =~= before.filter(weighing(w)) + sv0.filter(weighing(w)));
                }
            }
        }
        proof {
            assert(rules_view(src@) =~= Seq::<(u32, Seq<char>, Seq<char>, bool)>::empty());
            assert(rules_view(out@) + rules_view(src@) =~= rules_view(out@));
            assert forall|w: u32| #[trigger] rules_view(out@).filter(weighing(w)) == orig.filter(weighing(w)) by {
                reveal(Seq::filter);
                assert(rules_view(src@).filter(weighing(w)) =~= Seq::<(u32, Seq<char>, Seq<char>, bool)>::empty());
                assert(rules_view(out@).filter(weighing(w)) + Seq::<(u32, Seq<char>, Seq<char>, bool)>::empty() =~= rules_view(out@).filter(weighing(w)));
            }
        }
        self.rules = out;
    }

    /// Load the database from the `mime` directories of the data search
    /// path, in order, then order the rules by weight.
    pub fn load_system(dirs: &[MimeDirFiles]) -> (db: Self)
        ensures
            rules_view(db.rules@).to_multiset() == all_globs(dirs@).to_multiset(),
            by_weight_desc(rules_view(db.rules@)),
            pairs_view(db.aliases@) == all_pairs(dirs@, true),
            pairs_view(db.subclasses@) == all_pairs(dirs@, false),
    {
        let mut db = MimeDatabase::new();
        let mut i: usize = 0;
        assert(dirs@.take(0) =~= Seq::<MimeDirFiles>::empty());
        assert(rules_view(db.rules@) =~= Seq::empty());
        assert(pairs_view(db.aliases@) =~= Seq::empty());
        assert(pairs_view(db.subclasses@) =~= Seq::empty());
        while i < dirs.len()
            invariant
                i <= dirs@.len(),
                rules_view(db.rules@) == all_globs(dirs@.take(i as int)),
                pairs_view(db.aliases@) == all_pairs(dirs@.take(i as int), true),
                pairs_view(db.subclasses@) == all_pairs(dirs@.take(i as int), false),
            decreases dirs.len() - i,
        {
            assert(dirs@.take(i + 1).drop_last() =~= dirs@.take(i as int));
            let d = &dirs[i];
            match &d.globs2 {
                Some(t) => db.load_globs2(t.as_str()),
                None => {
                    assert(rules_view(db.rules@) =~= rules_view(db.rules@) + Seq::empty());
                },
            }
            match &d.aliases {
                Some(t) => db.load_aliases(t.as_str()),
                None => {
                    assert(pairs_view(db.aliases@) =~= pairs_view(db.aliases@) + Seq::empty());
                },
            }
            match &d.subclasses {
                Some(t) => db.load_subclasses(t.as_str()),
                None => {
                    assert(pairs_view(db.subclasses@) =~= pairs_view(db.subclasses@) + Seq::empty());
                },
            }
            i = i + 1;
        }
        assert(dirs@.take(dirs@.len() as int) =~= dirs@);
        db.sort_rules();
        db
    }

    /// The canonical name of `mime`: its alias target (the last alias
    /// line for it wins), or itself.
    pub fn canonicalize(&self, mime: &str) -> (r: String)
        ensures
            r@ == canonical(pairs_view(self.aliases@), mime@),
    {
        let ghost av = pairs_view(self.aliases@);
        let mut i = self.aliases.len();
        assert(av.take(i as int) =~= av);
        while i > 0
            invariant
                i <= self.aliases@.len(),
                av == pairs_view(self.aliases@),
                canonical(av, mime@) == canonical(av.take(i as int), mime@),
            decreases i,
        {
            assert(av.take(i as int).drop_last() =~= av.take(i - 1));
            if str_eq(self.aliases[i - 1].0.as_str(), mime) {
                return self.aliases[i - 1].1.clone();
            }
            i = i - 1;
        }
        string_of(chars_of(mime).as_slice())
    }

    /// Whether `sub` is `parent` or inherits from it through subclass
    /// links, searched depth first (see [`subclass_search`]). On a table
    /// where that search comes back round to a type it is still searching
    /// from, it would never end; `requires` leaves such queries out.
    pub fn is_subclass_of(&self, sub: &str, parent: &str) -> (r: bool)
        requires
            exists|f: nat| #[trigger] subclass_search(pairs_view(self.subclasses@), sub@, parent@, f) is Some,
        ensures
            forall|f: nat|
                #[trigger] subclass_search(pairs_view(self.subclasses@), sub@, parent@, f) is Some
                    ==> subclass_search(pairs_view(self.subclasses@), sub@, parent@, f) == Some(r),
    {
        let ghost sv = pairs_view(self.subclasses@);
        let ghost f = choose|f: nat| #[trigger] subclass_search(sv, sub@, parent@, f) is Some;
        let r = self.search(sub, parent, Ghost(f));
        proof {
            assert forall|g: nat| #[trigger] subclass_search(sv, sub@, parent@, g) is Some implies subclass_search(
                sv,
                sub@,
                parent@,
                g,
            ) == Some(r) by {
                if g <= f {
                    lemma_search_more_fuel(sv, sub@, parent@, g, f);
                } else {
                    lemma_search_more_fuel(sv, sub@, parent@, f, g);
                }
            }
        }
        r
    }

    fn search(&self, a: &str, b: &str, Ghost(fuel): Ghost<nat>) -> (r: bool)
        requires
            subclass_search(pairs_view(self.subclasses@), a@, b@, fuel) is Some,
        ensures
            subclass_search(pairs_view(self.subclasses@), a@, b@, fuel) == Some(r),
        decreases fuel,
    {
        let ghost sv = pairs_view(self.subclasses@);
        if str_eq(a, b) {
            return true;
        }
        let mut i: usize = 0;
        while i < self.subclasses.len()
            invariant
                i <= self.subclasses@.len(),
                sv == pairs_view(self.subclasses@),
                a@ != b@,
                fuel > 0,
                subclass_search(sv, a@, b@, fuel) == search_from(sv, a@, b@, fuel, i as int),
                search_from(sv, a@, b@, fuel, i as int) is Some,
            decreases self.subclasses.len() - i,
        {
            assert(sv[i as int] == (self.subclasses@[i as int].0@, self.subclasses@[i as int].1@));
            if str_eq(self.subclasses[i].0.as_str(), a) {
                if self.search(self.subclasses[i].1.as_str(), b, Ghost((fuel - 1) as nat)) {
                    return true;
                }
            }
            i = i + 1;
        }
        false
    }

    /// The MIME type of `path`. `is_dir` says whether it is a directory;
    /// `head` holds the first bytes of the file (up to 512), `None` when it
    /// could not be read. Directories are `inode/directory`; then the first
    /// matching glob rule, the built-in extension table and the content
    /// decide, each canonicalised; else `application/octet-stream`.
    pub fn guess_mime_type(&self, path: &str, is_dir: bool, head: Option<&[u8]>) -> (r: String)
        ensures
            r@ == guess_spec(
                rules_view(self.rules@),
                pairs_view(self.aliases@),
                path@,
                is_dir,
                match head {
                    Some(h) => Some(h@),
                    None => None,
                },
            ),
    {
        if is_dir {
            return String::from_str("inode/directory");
        }
        let name = file_name_text(path);
        let nc = chars_of(name.as_str());
        let ghost rv = rules_view(self.rules@);
        let mut i: usize = 0;
        assert(rv.skip(0) =~= rv);
        while i < self.rules.len()
            invariant
                i <= self.rules@.len(),
                rv == rules_view(self.rules@),
                nc@ == file_name_or_empty(path@),
                name@ == nc@,
                !is_dir,
                first_glob(rv, nc@) == first_glob(rv.skip(i as int), nc@),
            decreases self.rules.len() - i,
        {
            assert(rv.skip(i as int).drop_first() =~= rv.skip(i + 1));
            let rule = &self.rules[i];
            assert(rv.skip(i as int)[0] == rule_view(*rule));
            if glob_match(rule.pattern.as_str(), name.as_str(), rule.case_sensitive) {
                assert(first_glob(rv, nc@) == Some(rule.mime_type@));
                return self.canonicalize(rule.mime_type.as_str());
            }
            i = i + 1;
        }
        match extension_of(nc.as_slice()) {
            Some(ext) => {
                let mut low: Vec<char> = Vec::new();
                let mut k: usize = 0;
                while k < ext.len()
                    invariant
                        k <= ext@.len(),
                        low@ == ascii_lower_seq(ext@.take(k as int)),
                    decreases ext.len() - k,
                {
                    low.push(char_ascii_lower(ext[k]));
                    assert(low@ =~= ascii_lower_seq(ext@.take(k + 1)));
                    k = k + 1;
                }
                assert(ext@.take(ext@.len() as int) =~= ext@);
                let ls = string_of(low.as_slice());
                match builtin_extension_mime(ls.as_str()) {
                    Some(m) => {
                        return self.canonicalize(m);
                    },
                    None => {},
                }
            },
            None => {},
        }
        match head {
            Some(h) => match sniff_magic(h) {
                Some(m) => {
                    return self.canonicalize(m);
                },
                None => {},
            },
            None => {},
        }
        String::from_str("application/octet-stream")
    }
}

pub open spec fn all_globs(dirs: Seq<MimeDirFiles>) -> Seq<(u32, Seq<char>, Seq<char>, bool)>
    decreases dirs.len(),
{
    if dirs.len() == 0 {
        Seq::empty()
    } else {
        all_globs(dirs.drop_last()) + match dirs.last().globs2 {
            Some(t) => lines(t@).fold_left(Seq::empty(), glob_step()),
            None => Seq::empty(),
        }
    }
}

/// All alias links (`aliases == true`) or subclass links of the files.
pub open spec fn all_pairs(dirs: Seq<MimeDirFiles>, aliases: bool) -> Seq<(Seq<char>, Seq<char>)>
    decreases dirs.len(),
{
    if dirs.len() == 0 {
        Seq::empty()
    } else {
        let f = if aliases { dirs.last().aliases } else { dirs.last().subclasses };
        all_pairs(dirs.drop_last(), aliases) + match f {
            Some(t) => lines(t@).fold_left(Seq::empty(), pair_step()),
            None => Seq::empty(),
        }
    }
}

/// The alias target of `mime` (the last link wins), or `mime` itself.
pub open spec fn canonical(aliases: Seq<(Seq<char>, Seq<char>)>, mime: Seq<char>) -> Seq<char>
    decreases aliases.len(),
{
    if aliases.len() == 0 {
        mime
    } else if aliases.last().0 == mime {
        aliases.last().1
    } else {
        canonical(aliases.drop_last(), mime)
    }
}

/// The depth-first search for `b` from `a` along the subclass links, each
/// type's parents tried in the order of `links`, stopping at the first
/// success: `Some` of its answer when it ends within `fuel` nested steps,
/// `None` when it needs more.
pub open spec fn subclass_search(links: Seq<(Seq<char>, Seq<char>)>, a: Seq<char>, b: Seq<char>, fuel: nat) -> Option<bool>
    decreases fuel, links.len() + 1,
{
    if a == b {
        Some(true)
    } else if fuel == 0 {
        None
    } else {
        search_from(links, a, b, fuel, 0)
    }
}

/// The search from `a` over its parents listed at index `j` or later.
pub open spec fn search_from(links: Seq<(Seq<char>, Seq<char>)>, a: Seq<char>, b: Seq<char>, fuel: nat, j: int) -> Option<bool>
    decreases fuel, links.len() - j,
{
    if j < 0 || j >= links.len() || fuel == 0 {
        Some(false)
    } else if links[j].0 == a {
        match subclass_search(links, links[j].1, b, (fuel - 1) as nat) {
            Some(true) => Some(true),
            Some(false) => search_from(links, a, b, fuel, j + 1),
            None => None,
        }
    } else {
        search_from(links, a, b, fuel, j + 1)
    }
}

/// A search that ends gives the same answer with more room.
proof fn lemma_search_more_fuel(links: Seq<(Seq<char>, Seq<char>)>, a: Seq<char>, b: Seq<char>, f: nat, g: nat)
    requires
        f <= g,
        subclass_search(links, a, b, f) is Some,
    ensures
        subclass_search(links, a, b, g) == subclass_search(links, a, b, f),
    decreases f, links.len() + 1,
{
    if a != b {
        lemma_from_more_fuel(links, a, b, f, g, 0);
    }
}

proof fn lemma_from_more_fuel(links: Seq<(Seq<char>, Seq<char>)>, a: Seq<char>, b: Seq<char>, f: nat, g: nat, j: int)
    requires
        0 < f <= g,
        0 <= j,
        search_from(links, a, b, f, j) is Some,
    ensures
        search_from(links, a, b, g, j) == search_from(links, a, b, f, j),
    decreases f, links.len() - j,
{
    if j < links.len() {
        if links[j].0 == a {
            lemma_search_more_fuel(links, links[j].1, b, (f - 1) as nat, (g - 1) as nat);
            if subclass_search(links, links[j].1, b, (f - 1) as nat) == Some(false) {
                lemma_from_more_fuel(links, a, b, f, g, j + 1);
            }
        } else {
            lemma_from_more_fuel(links, a, b, f, g, j + 1);
        }
    }
}

// ---- names ----

/// Simple globs: `*suffix`, `prefix*` or a literal; ASCII case is ignored
/// unless `case_sensitive`.
pub open spec fn glob_spec(pattern: Seq<char>, text: Seq<char>, case_sensitive: bool) -> bool {
    if pattern.len() > 1 && pattern[0] == '*' && !pattern.skip(1).contains('*') {
        let suffix = pattern.skip(1);
        if case_sensitive {
            is_suffix(suffix, text)
        } else {
            is_suffix(ascii_lower_seq(suffix), ascii_lower_seq(text))
        }
    } else if pattern.len() > 1 && pattern.last() == '*' && !pattern.drop_last().contains('*') {
        let prefix = pattern.drop_last();
        if case_sensitive {
            is_prefix(prefix, text)
        } else {
            is_prefix(ascii_lower_seq(prefix), ascii_lower_seq(text))
        }
    } else if case_sensitive {
        pattern == text
    } else {
        ascii_lower_seq(pattern) == ascii_lower_seq(text)
    }
}

fn ascii_lower_vec(s: &[char]) -> (r: Vec<char>)
    ensures
        r@ == ascii_lower_seq(s@),
{
    let mut low: Vec<char> = Vec::new();
    let mut k: usize = 0;
    while k < s.len()
        invariant
            k <= s@.len(),
            low@ == ascii_lower_seq(s@.take(k as int)),
        decreases s.len() - k,
    {
        low.push(char_ascii_lower(s[k]));
        assert(low@ =~= ascii_lower_seq(s@.take(k + 1)));
        k = k + 1;
    }
    assert(s@.take(s@.len() as int) =~= s@);
    low
}

/// Match a simple glob (leading `*`, trailing `*`, or literal).
pub fn glob_match(pattern: &str, text: &str, case_sensitive: bool) -> (r: bool)
    ensures
        r == glob_spec(pattern@, text@, case_sensitive),
{
    let p = chars_of(pattern);
    let t = chars_of(text);
    let n = p.len();
    if n > 1 && p[0] == '*' {
        let suffix = slice_to_vec(p.as_slice(), 1, n);
        assert(suffix@ =~= p@.skip(1));
        if !contains_char(suffix.as_slice(), '*') {
            return if case_sensitive {
                ends_with(t.as_slice(), suffix.as_slice())
            } else {
                ends_with(ascii_lower_vec(t.as_slice()).as_slice(), ascii_lower_vec(suffix.as_slice()).as_slice())
            };
        }
    }
    if n > 1 && p[n - 1] == '*' {
        let prefix = slice_to_vec(p.as_slice(), 0, n - 1);
        assert(prefix@ =~= p@.drop_last());
        if !contains_char(prefix.as_slice(), '*') {
            return if case_sensitive {
                starts_with(t.as_slice(), prefix.as_slice())
            } else {
                starts_with(ascii_lower_vec(t.as_slice()).as_slice(), ascii_lower_vec(prefix.as_slice()).as_slice())
            };
        }
    }
    if case_sensitive {
        eq_chars(p.as_slice(), t.as_slice())
    } else {
        eq_chars(ascii_lower_vec(p.as_slice()).as_slice(), ascii_lower_vec(t.as_slice()).as_slice())
    }
}

/// The MIME type of the first rule whose glob matches `name`.
pub open spec fn first_glob(rules: Seq<(u32, Seq<char>, Seq<char>, bool)>, name: Seq<char>) -> Option<Seq<char>>
    decreases rules.len(),
{
    if rules.len() == 0 {
        None
    } else if glob_spec(rules[0].2, name, rules[0].3) {
        Some(rules[0].1)
    } else {
        first_glob(rules.drop_first(), name)
    }
}

/// `Path::extension` of a file name: the part after the last `.`, unless
/// that dot starts the name.
pub open spec fn extension_spec(name: Seq<char>) -> Option<Seq<char>> {
    match crate::text::rfind(name, '.') {
        Some(i) => if i == 0 {
            None
        } else {
            Some(name.skip(i + 1))
        },
        None => None,
    }
}

fn extension_of(name: &[char]) -> (r: Option<Vec<char>>)
    ensures
        match r {
            Some(e) => extension_spec(name@) == Some(e@),
            None => extension_spec(name@) is None,
        },
{
    proof {
        crate::text::lemma_rfind(name@, '.');
    }
    let n = name.len();
    match crate::text::rfind_char(name, '.') {
        Some(i) => if i == 0 {
            None
        } else {
            assert(i < n);
            let e = slice_to_vec(name, i + 1, n);
            assert(e@ =~= name@.skip(i + 1));
            Some(e)
        },
        None => None,
    }
}

/// The built-in extension table (lower-case extensions).
pub open spec fn builtin_spec(ext: Seq<char>) -> Option<Seq<char>> {
    if ext == "txt"@ {
        Some("text/plain"@)
    } else if ext == "md"@ || ext == "markdown"@ {
        Some("text/markdown"@)
    } else if ext == "c"@ || ext == "h"@ {
        Some("text/x-c"@)
    } else if ext == "cpp"@ || ext == "hpp"@ || ext == "cc"@ {
        Some("text/x-c++"@)
    } else if ext == "rs"@ {
        Some("text/rust"@)
    } else if ext == "py"@ {
        Some("text/x-python"@)
    } else if ext == "js"@ {
        Some("text/javascript"@)
    } else if ext == "ts"@ {
        Some("text/typescript"@)
    } else if ext == "html"@ || ext == "htm"@ {
        Some("text/html"@)
    } else if ext == "css"@ {
        Some("text/css"@)
    } else if ext == "json"@ {
        Some("application/json"@)
    } else if ext == "toml"@ {
        Some("application/toml"@)
    } else if ext == "yaml"@ || ext == "yml"@ {
        Some("application/yaml"@)
    } else if ext == "xml"@ {
        Some("application/xml"@)
    } else if ext == "png"@ {
        Some("image/png"@)
    } else if ext == "jpg"@ || ext == "jpeg"@ {
        Some("image/jpeg"@)
    } else if ext == "gif"@ {
        Some("image/gif"@)
    } else if ext == "webp"@ {
        Some("image/webp"@)
    } else if ext == "svg"@ {
        Some("image/svg+xml"@)
    } else if ext == "bmp"@ {
        Some("image/bmp"@)
    } else if ext == "ico"@ {
        Some("image/x-icon"@)
    } else if ext == "mp3"@ {
        Some("audio/mpeg"@)
    } else if ext == "flac"@ {
        Some("audio/flac"@)
    } else if ext == "wav"@ {
        Some("audio/wav"@)
    } else if ext == "ogg"@ {
        Some("audio/ogg"@)
    } else if ext == "mp4"@ || ext == "m4v"@ {
        Some("video/mp4"@)
    } else if ext == "mkv"@ {
        Some("video/x-matroska"@)
    } else if ext == "webm"@ {
        Some("video/webm"@)
    } else if ext == "pdf"@ {
        Some("application/pdf"@)
    } else if ext == "zip"@ {
        Some("application/zip"@)
    } else if ext == "tar"@ {
        Some("application/x-tar"@)
    } else if ext == "gz"@ {
        Some("application/gzip"@)
    } else if ext == "xz"@ {
        Some("application/x-xz"@)
    } else if ext == "7z"@ {
        Some("application/x-7z-compressed"@)
    } else if ext == "desktop"@ {
        Some("application/x-desktop"@)
    } else {
        None
    }
}

/// The built-in MIME type for a lower-case extension.
pub fn builtin_extension_mime(ext: &str) -> (r: Option<&'static str>)
    ensures
        match r {
            Some(m) => builtin_spec(ext@) == Some(m@),
            None => builtin_spec(ext@) is None,
        },
{
    if str_eq(ext, "txt") {
        return Some("text/plain");
    }
    if str_eq(ext, "md") {
        return Some("text/markdown");
    }
    if str_eq(ext, "markdown") {
        return Some("text/markdown");
    }
    if str_eq(ext, "c") {
        return Some("text/x-c");
    }
    if str_eq(ext, "h") {
        return Some("text/x-c");
    }
    if str_eq(ext, "cpp") {
        return Some("text/x-c++");
    }
    if str_eq(ext, "hpp") {
        return Some("text/x-c++");
    }
    if str_eq(ext, "cc") {
        return Some("text/x-c++");
    }
    if str_eq(ext, "rs") {
        return Some("text/rust");
    }
    if str_eq(ext, "py") {
        return Some("text/x-python");
    }
    if str_eq(ext, "js") {
        return Some("text/javascript");
    }
    if str_eq(ext, "ts") {
        return Some("text/typescript");
    }
    if str_eq(ext, "html") {
        return Some("text/html");
    }
    if str_eq(ext, "htm") {
        return Some("text/html");
    }
    if str_eq(ext, "css") {
        return Some("text/css");
    }
    if str_eq(ext, "json") {
        return Some("application/json");
    }
    if str_eq(ext, "toml") {
        return Some("application/toml");
    }
    if str_eq(ext, "yaml") {
        return Some("application/yaml");
    }
    if str_eq(ext, "yml") {
        return Some("application/yaml");
    }
    if str_eq(ext, "xml") {
        return Some("application/xml");
    }
    if str_eq(ext, "png") {
        return Some("image/png");
    }
    if str_eq(ext, "jpg") {
        return Some("image/jpeg");
    }
    if str_eq(ext, "jpeg") {
        return Some("image/jpeg");
    }
    if str_eq(ext, "gif") {
        return Some("image/gif");
    }
    if str_eq(ext, "webp") {
        return Some("image/webp");
    }
    if str_eq(ext, "svg") {
        return Some("image/svg+xml");
    }
    if str_eq(ext, "bmp") {
        return Some("image/bmp");
    }
    if str_eq(ext, "ico") {
        return Some("image/x-icon");
    }
    if str_eq(ext, "mp3") {
        return Some("audio/mpeg");
    }
    if str_eq(ext, "flac") {
        return Some("audio/flac");
    }
    if str_eq(ext, "wav") {
        return Some("audio/wav");
    }
    if str_eq(ext, "ogg") {
        return Some("audio/ogg");
    }
    if str_eq(ext, "mp4") {
        return Some("video/mp4");
    }
    if str_eq(ext, "m4v") {
        return Some("video/mp4");
    }
    if str_eq(ext, "mkv") {
        return Some("video/x-matroska");
    }
    if str_eq(ext, "webm") {
        return Some("video/webm");
    }
    if str_eq(ext, "pdf") {
        return Some("application/pdf");
    }
    if str_eq(ext, "zip") {
        return Some("application/zip");
    }
    if str_eq(ext, "tar") {
        return Some("application/x-tar");
    }
    if str_eq(ext, "gz") {
        return Some("application/gzip");
    }
    if str_eq(ext, "xz") {
        return Some("application/x-xz");
    }
    if str_eq(ext, "7z") {
        return Some("application/x-7z-compressed");
    }
    if str_eq(ext, "desktop") {
        return Some("application/x-desktop");
    }
    None
}

pub open spec fn starts_bytes(d: Seq<u8>, p: Seq<u8>) -> bool {
    p.len() <= d.len() && d.take(p.len() as int) == p
}

/// What the first bytes of a file say about its type.
pub open spec fn sniff_spec(d: Seq<u8>) -> Option<Seq<char>> {
    if d.len() == 0 {
        Some("inode/x-empty"@)
    } else if starts_bytes(d, seq![0x7fu8, 0x45u8, 0x4cu8, 0x46u8]) {
        Some("application/x-executable"@)
    } else if starts_bytes(d, seq![0x23u8, 0x21u8]) {
        Some("text/x-script"@)
    } else if starts_bytes(d, seq![0x89u8, 0x50u8, 0x4eu8, 0x47u8, 0x0du8, 0x0au8, 0x1au8, 0x0au8]) {
        Some("image/png"@)
    } else if starts_bytes(d, seq![0xffu8, 0xd8u8, 0xffu8]) {
        Some("image/jpeg"@)
    } else if starts_bytes(d, seq![0x47u8, 0x49u8, 0x46u8, 0x38u8, 0x37u8, 0x61u8]) || starts_bytes(
        d,
        seq![0x47u8, 0x49u8, 0x46u8, 0x38u8, 0x39u8, 0x61u8],
    ) {
        Some("image/gif"@)
    } else if d.len() >= 12 && starts_bytes(d, seq![0x52u8, 0x49u8, 0x46u8, 0x46u8]) && d.subrange(8, 12) == seq![
        0x57u8,
        0x45u8,
        0x42u8,
        0x50u8,
    ] {
        Some("image/webp"@)
    } else if starts_bytes(d, seq![0x25u8, 0x50u8, 0x44u8, 0x46u8]) {
        Some("application/pdf"@)
    } else if starts_bytes(d, seq![0x50u8, 0x4bu8, 0x03u8, 0x04u8]) {
        Some("application/zip"@)
    } else if starts_bytes(d, seq![0x1fu8, 0x8bu8]) {
        Some("application/gzip"@)
    } else if starts_bytes(d, seq![0x66u8, 0x4cu8, 0x61u8, 0x43u8]) {
        Some("audio/flac"@)
    } else if starts_bytes(d, seq![0x49u8, 0x44u8, 0x33u8]) {
        Some("audio/mpeg"@)
    } else if starts_bytes(d, seq![0x4fu8, 0x67u8, 0x67u8, 0x53u8]) {
        Some("audio/ogg"@)
    } else if starts_bytes(d, seq![0x3cu8, 0x3fu8, 0x78u8, 0x6du8, 0x6cu8]) || starts_bytes(
        d,
        seq![0x3cu8, 0x73u8, 0x76u8, 0x67u8],
    ) {
        Some("image/svg+xml"@)
    } else if vstd::utf8::valid_utf8(d) && !d.contains(0u8) {
        Some("text/plain"@)
    } else {
        None
    }
}

fn starts_bytes_exec(d: &[u8], p: &[u8]) -> (r: bool)
    ensures
        r == starts_bytes(d@, p@),
{
    if p.len() > d.len() {
        return false;
    }
    let mut i: usize = 0;
    while i < p.len()
        invariant
            i <= p@.len() <= d@.len(),
            forall|j: int| 0 <= j < i ==> d@[j] == p@[j],
        decreases p.len() - i,
    {
        if d[i] != p[i] {
            assert(d@.take(p@.len() as int)[i as int] != p@[i as int]);
            return false;
        }
        i = i + 1;
    }
    assert(d@.take(p@.len() as int) =~= p@);
    true
}

fn bytes_vec(d: &[u8]) -> (r: Vec<u8>)
    ensures
        r@ == d@,
{
    let mut v: Vec<u8> = Vec::new();
    let mut i: usize = 0;
    while i < d.len()
        invariant
            i <= d@.len(),
            v@ == d@.take(i as int),
        decreases d.len() - i,
    {
        v.push(d[i]);
        assert(v@ =~= d@.take(i + 1));
        i = i + 1;
    }
    assert(d@.take(d@.len() as int) =~= d@);
    v
}

/// Content sniffing on the first bytes of a file.
pub fn sniff_magic(d: &[u8]) -> (r: Option<&'static str>)
    ensures
        match r {
            Some(m) => sniff_spec(d@) == Some(m@),
            None => sniff_spec(d@) is None,
        },
{
    if d.len() == 0 {
        return Some("inode/x-empty");
    }
    let elf: [u8; 4] = [0x7f, 0x45, 0x4c, 0x46];
    let shebang: [u8; 2] = [0x23, 0x21];
    let png: [u8; 8] = [0x89, 0x50, 0x4e, 0x47, 0x0d, 0x0a, 0x1a, 0x0a];
    let jpeg: [u8; 3] = [0xff, 0xd8, 0xff];
    let gif7: [u8; 6] = [0x47, 0x49, 0x46, 0x38, 0x37, 0x61];
    let gif9: [u8; 6] = [0x47, 0x49, 0x46, 0x38, 0x39, 0x61];
    let riff: [u8; 4] = [0x52, 0x49, 0x46, 0x46];
    let pdf: [u8; 4] = [0x25, 0x50, 0x44, 0x46];
    let zip: [u8; 4] = [0x50, 0x4b, 0x03, 0x04];
    let gz: [u8; 2] = [0x1f, 0x8b];
    let flac: [u8; 4] = [0x66, 0x4c, 0x61, 0x43];
    let id3: [u8; 3] = [0x49, 0x44, 0x33];
    let ogg: [u8; 4] = [0x4f, 0x67, 0x67, 0x53];
    let xml: [u8; 5] = [0x3c, 0x3f, 0x78, 0x6d, 0x6c];
    let svg: [u8; 4] = [0x3c, 0x73, 0x76, 0x67];
    assert(elf@ =~= seq![0x7fu8, 0x45u8, 0x4cu8, 0x46u8]);
    assert(shebang@ =~= seq![0x23u8, 0x21u8]);
    assert(png@ =~= seq![0x89u8, 0x50u8, 0x4eu8, 0x47u8, 0x0du8, 0x0au8, 0x1au8, 0x0au8]);
    assert(jpeg@ =~= seq![0xffu8, 0xd8u8, 0xffu8]);
    assert(gif7@ =~= seq![0x47u8, 0x49u8, 0x46u8, 0x38u8, 0x37u8, 0x61u8]);
    assert(gif9@ =~= seq![0x47u8, 0x49u8, 0x46u8, 0x38u8, 0x39u8, 0x61u8]);
    assert(riff@ =~= seq![0x52u8, 0x49u8, 0x46u8, 0x46u8]);
    assert(pdf@ =~= seq![0x25u8, 0x50u8, 0x44u8, 0x46u8]);
    assert(zip@ =~= seq![0x50u8, 0x4bu8, 0x03u8, 0x04u8]);
    assert(gz@ =~= seq![0x1fu8, 0x8bu8]);
    assert(flac@ =~= seq![0x66u8, 0x4cu8, 0x61u8, 0x43u8]);
    assert(id3@ =~= seq![0x49u8, 0x44u8, 0x33u8]);
    assert(ogg@ =~= seq![0x4fu8, 0x67u8, 0x67u8, 0x53u8]);
    assert(xml@ =~= seq![0x3cu8, 0x3fu8, 0x78u8, 0x6du8, 0x6cu8]);
    assert(svg@ =~= seq![0x3cu8, 0x73u8, 0x76u8, 0x67u8]);
    if starts_bytes_exec(d, &elf) {
        return Some("application/x-executable");
    }
    if starts_bytes_exec(d, &shebang) {
        return Some("text/x-script");
    }
    if starts_bytes_exec(d, &png) {
        return Some("image/png");
    }
    if starts_bytes_exec(d, &jpeg) {
        return Some("image/jpeg");
    }
    if starts_bytes_exec(d, &gif7) || starts_bytes_exec(d, &gif9) {
        return Some("image/gif");
    }
    if d.len() >= 12 && starts_bytes_exec(d, &riff) && d[8] == 0x57 && d[9] == 0x45 && d[10] == 0x42 && d[11]
        == 0x50 {
        assert(d@.subrange(8, 12) =~= seq![0x57u8, 0x45u8, 0x42u8, 0x50u8]);
        return Some("image/webp");
    }
    assert(d@.len() >= 12 && starts_bytes(d@, riff@) ==> d@.subrange(8, 12) != seq![0x57u8, 0x45u8, 0x42u8, 0x50u8]) by {
        if d@.len() >= 12 && starts_bytes(d@, riff@) && d@.subrange(8, 12) == seq![0x57u8, 0x45u8, 0x42u8, 0x50u8] {
            assert(d@.subrange(8, 12)[0] == d@[8]);
            assert(d@.subrange(8, 12)[1] == d@[9]);
            assert(d@.subrange(8, 12)[2] == d@[10]);
            assert(d@.subrange(8, 12)[3] == d@[11]);
        }
    }
    if starts_bytes_exec(d, &pdf) {
        return Some("application/pdf");
    }
    if starts_bytes_exec(d, &zip) {
        return Some("application/zip");
    }
    if starts_bytes_exec(d, &gz) {
        return Some("application/gzip");
    }
    if starts_bytes_exec(d, &flac) {
        return Some("audio/flac");
    }
    if starts_bytes_exec(d, &id3) {
        return Some("audio/mpeg");
    }
    if starts_bytes_exec(d, &ogg) {
        return Some("audio/ogg");
    }
    if starts_bytes_exec(d, &xml) || starts_bytes_exec(d, &svg) {
        return Some("image/svg+xml");
    }
    let mut has_nul = false;
    let mut i: usize = 0;
    while i < d.len()
        invariant
            i <= d@.len(),
            has_nul == d@.take(i as int).contains(0u8),
        decreases d.len() - i,
    {
        if d[i] == 0 {
            assert(d@.take(i + 1)[i as int] == 0u8);
            has_nul = true;
        } else {
            assert(d@.take(i + 1) =~= d@.take(i as int).push(d@[i as int]));
            assert(has_nul ==> d@.take(i + 1).contains(0u8)) by {
                if has_nul {
                    let k = choose|k: int| 0 <= k < i && d@.take(i as int)[k] == 0u8;
                    assert(d@.take(i + 1)[k] == 0u8);
                }
            }
        }
        if has_nul {
            let k = i;
            assert(d@.take(i + 1).contains(0u8));
        }
        i = i + 1;
    }
    assert(d@.take(d@.len() as int) =~= d@);
    let text = crate::text::string_from_utf8(bytes_vec(d));
    if text.is_some() && !has_nul {
        return Some("text/plain");
    }
    None
}

/// The MIME type decision for a path.
pub open spec fn guess_spec(
    rules: Seq<(u32, Seq<char>, Seq<char>, bool)>,
    aliases: Seq<(Seq<char>, Seq<char>)>,
    path: Seq<char>,
    is_dir: bool,
    head: Option<Seq<u8>>,
) -> Seq<char> {
    if is_dir {
        "inode/directory"@
    } else {
        let name = file_name_or_empty(path);
        match first_glob(rules, name) {
            Some(m) => canonical(aliases, m),
            None => {
                let builtin = match extension_spec(name) {
                    Some(e) => builtin_spec(ascii_lower_seq(e)),
                    None => None,
                };
                match builtin {
                    Some(m) => canonical(aliases, m),
                    None => match head {
                        Some(h) => match sniff_spec(h) {
                            Some(m) => canonical(aliases, m),
                            None => "application/octet-stream"@,
                        },
                        None => "application/octet-stream"@,
                    },
                }
            },
        }
    }
}

} // verus!
