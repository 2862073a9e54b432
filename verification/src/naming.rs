//! Non-clobbering names: the first member of a family of candidate names
//! (`name`, `name.1`, `name (copy)`, `New Folder 2`, …) that is not taken.
//!
//! Which names are taken is read from the file system by the caller.
use vstd::prelude::*;

use crate::engine::format::{dec, decimal, digit};
use crate::text::{chars_of, eq_chars, push_all, push_str, slice_to_vec, string_of};

verus! {

/// The naming schemes used when a name is already taken.
#[derive(Clone, Copy, Debug, PartialEq, Eq, Structural)]
pub enum NameFamily {
    /// `name`, `name.1`, `name.2`, … (trash storage names).
    Numbered,
    /// `name`, `name (copy)`, `name (copy 2)`, … (paste collisions).
    Copy,
    /// `name`, `name (restored)`, `name (restored 2)`, … (trash restore).
    Restored,
    /// `New Folder`, `New Folder 2`, `New Folder 3`, … (new folders).
    NewFolder,
}

pub open spec fn labelled(base: Seq<char>, word: Seq<char>, n: nat) -> Seq<char> {
    if n == 0 {
        base
    } else if n == 1 {
        base + " ("@ + word + ")"@
    } else {
        base + " ("@ + word + " "@ + dec(n) + ")"@
    }
}

/// The `n`-th candidate of a family (the `0`-th is tried first).
pub open spec fn family_name(f: NameFamily, base: Seq<char>, n: nat) -> Seq<char> {
    match f {
        NameFamily::Numbered => if n == 0 {
            base
        } else {
            base + "."@ + dec(n)
        },
        NameFamily::Copy => labelled(base, "copy"@, n),
        NameFamily::Restored => labelled(base, "restored"@, n),
        NameFamily::NewFolder => if n == 0 {
            "New Folder"@
        } else {
            "New Folder "@ + dec(n + 1)
        },
    }
}

/// `r` is the first candidate of the family that `taken` does not hold.
pub open spec fn first_free(f: NameFamily, base: Seq<char>, taken: Seq<Seq<char>>, r: Seq<char>) -> bool {
    &&& !taken.contains(r)
    &&& exists|n: nat|
        #[trigger] family_name(f, base, n) == r && (forall|m: nat|
            m < n ==> taken.contains(#[trigger] family_name(f, base, m)))
}

fn listed(v: &[String], s: &[char]) -> (r: bool)
    ensures
        r == v@.map_values(|x: String| x@).contains(s@),
{
    let ghost vv = v@.map_values(|x: String| x@);
    let mut i: usize = 0;
    while i < v.len()
        invariant
            i <= v@.len(),
            vv == v@.map_values(|x: String| x@),
            forall|j: int| 0 <= j < i ==> vv[j] != s@,
        decreases v.len() - i,
    {
        let c = chars_of(v[i].as_str());
        if eq_chars(c.as_slice(), s) {
            assert(vv[i as int] == s@);
            return true;
        }
        i = i + 1;
    }
    false
}

fn candidate(f: NameFamily, base: &[char], n: u64) -> (r: Vec<char>)
    requires
        n < u64::MAX,
    ensures
        r@ == family_name(f, base@, n as nat),
{
    let mut out: Vec<char> = Vec::new();
    match f {
        NameFamily::NewFolder => {
            if n == 0 {
                push_str(&mut out, "New Folder");
            } else {
                push_str(&mut out, "New Folder ");
                let d = decimal(n + 1);
                push_all(&mut out, d.as_slice());
            }
        },
        NameFamily::Numbered => {
            push_all(&mut out, base);
            if n > 0 {
                push_str(&mut out, ".");
                let d = decimal(n);
                push_all(&mut out, d.as_slice());
            }
        },
        _ => {
            let word = match f {
                NameFamily::Copy => "copy",
                _ => "restored",
            };
            push_all(&mut out, base);
            if n == 1 {
                push_str(&mut out, " (");
                push_str(&mut out, word);
                push_str(&mut out, ")");
            } else if n > 1 {
                push_str(&mut out, " (");
                push_str(&mut out, word);
                push_str(&mut out, " ");
                let d = decimal(n);
                push_all(&mut out, d.as_slice());
                push_str(&mut out, ")");
            }
        },
    }
    out
}

/// The first candidate of family `f` for `base` that is not among `taken`.
pub fn first_free_name(f: NameFamily, base: &str, taken: &[String]) -> (r: String)
    requires
        taken@.len() < u64::MAX,
    ensures
        first_free(f, base@, taken@.map_values(|x: String| x@), r@),
{
    let ghost tv = taken@.map_values(|x: String| x@);
    let b = chars_of(base);
    let tl = taken.len();
    let mut n: u64 = 0;
    loop
        invariant
            tl == taken@.len(),
            tv == taken@.map_values(|x: String| x@),
            b@ == base@,
            n <= tl,
            tl < u64::MAX,
            forall|m: nat| m < n ==> tv.contains(#[trigger] family_name(f, base@, m)),
        decreases tl - n,
    {
        let cand = candidate(f, b.as_slice(), n);
        if !listed(taken, cand.as_slice()) {
            assert(family_name(f, base@, n as nat) == cand@);
            return string_of(cand.as_slice());
        }
        proof {
            lemma_family_distinct(f, base@, (n + 1) as nat);
            let g = |m: nat| family_name(f, base@, m);
            assert forall|m: nat| m < n + 1 implies tv.contains(#[trigger] g(m)) by {
                assert(g(m) == family_name(f, base@, m));
            }
            lemma_pigeon(tv, g, (n + 1) as nat);
        }
        n = n + 1;
    }
}

pub proof fn lemma_digit_injective(a: nat, b: nat)
    requires
        a < 10,
        b < 10,
        digit(a) == digit(b),
    ensures
        a == b,
{
    assert(digit(a) as u32 == 48 + a);
    assert(digit(b) as u32 == 48 + b);
}

pub proof fn lemma_dec_len(a: nat)
    ensures
        dec(a).len() >= 1,
    decreases a,
{
    if a >= 10 {
        lemma_dec_len(a / 10);
    }
}

/// Decimal notation is injective.
pub proof fn lemma_dec_injective(a: nat, b: nat)
    requires
        dec(a) == dec(b),
    ensures
        a == b,
    decreases a,
{
    let da = dec(a);
    let db = dec(b);
    if a < 10 && b < 10 {
        assert(da[0] == digit(a));
        assert(db[0] == digit(b));
        lemma_digit_injective(a, b);
    } else if a < 10 {
        lemma_dec_len(b / 10);
        assert(db.len() >= 2);
    } else if b < 10 {
        lemma_dec_len(a / 10);
        assert(da.len() >= 2);
    } else {
        assert(da.last() == digit(a % 10));
        assert(db.last() == digit(b % 10));
        lemma_digit_injective(a % 10, b % 10);
        assert(dec(a / 10) =~= da.drop_last());
        assert(dec(b / 10) =~= db.drop_last());
        lemma_dec_injective(a / 10, b / 10);
    }
}

proof fn lemma_labelled_distinct(base: Seq<char>, word: Seq<char>, i: nat, j: nat)
    requires
        i < j,
    ensures
        labelled(base, word, i) != labelled(base, word, j),
{
    reveal_strlit(" (");
    reveal_strlit(")");
    reveal_strlit(" ");
    let ci = labelled(base, word, i);
    let cj = labelled(base, word, j);
    lemma_dec_len(j);
    lemma_dec_len(i);
    if ci == cj {
        if i == 0 {
            assert(cj.len() > base.len());
        } else if i == 1 {
            let k: int = base.len() + 2int + word.len();
            assert(ci[k] == ')');
            assert(cj[k] == ' ');
        } else {
            let lo: int = base.len() + 3int + word.len();
            assert(ci.len() == cj.len());
            assert(dec(i) =~= ci.subrange(lo, ci.len() - 1));
            assert(dec(j) =~= cj.subrange(lo, cj.len() - 1));
            lemma_dec_injective(i, j);
        }
    }
}

/// Distinct indices give distinct candidates.
pub proof fn lemma_family_distinct(f: NameFamily, base: Seq<char>, k: nat)
    ensures
        forall|i: nat, j: nat| i < j < k ==> family_name(f, base, i) != family_name(f, base, j),
{
    assert forall|i: nat, j: nat| i < j < k implies family_name(f, base, i) != family_name(f, base, j) by {
        reveal_strlit(".");
        reveal_strlit("New Folder");
        reveal_strlit("New Folder ");
        let ci = family_name(f, base, i);
        let cj = family_name(f, base, j);
        lemma_dec_len(i);
        lemma_dec_len(j);
        lemma_dec_len(i + 1);
        lemma_dec_len(j + 1);
        match f {
            NameFamily::Numbered => {
                if ci == cj {
                    if i == 0 {
                        assert(cj.len() > base.len());
                    } else {
                        assert(dec(i) =~= ci.skip(base.len() + 1int));
                        assert(dec(j) =~= cj.skip(base.len() + 1int));
                        lemma_dec_injective(i, j);
                    }
                }
            },
            NameFamily::Copy => {
                lemma_labelled_distinct(base, "copy"@, i, j);
            },
            NameFamily::Restored => {
                lemma_labelled_distinct(base, "restored"@, i, j);
            },
            NameFamily::NewFolder => {
                if ci == cj {
                    if i == 0 {
                        assert(cj.len() > ci.len());
                    } else {
                        assert(dec(i + 1) =~= ci.skip(11));
                        assert(dec(j + 1) =~= cj.skip(11));
                        lemma_dec_injective(i + 1, j + 1);
                    }
                }
            },
        }
    }
}

/// The first `k` members of a family of candidates.
pub open spec fn cand_set<A>(f: spec_fn(nat) -> A, k: nat) -> Set<A>
    decreases k,
{
    if k == 0 {
        Set::empty()
    } else {
        cand_set(f, (k - 1) as nat).insert(f((k - 1) as nat))
    }
}

proof fn lemma_cand_set<A>(f: spec_fn(nat) -> A, k: nat)
    requires
        forall|i: nat, j: nat| i < j < k ==> #[trigger] f(i) != #[trigger] f(j),
    ensures
        cand_set(f, k).finite(),
        cand_set(f, k).len() == k,
        forall|x: A| #[trigger] cand_set(f, k).contains(x) ==> exists|m: nat| m < k && #[trigger] f(m) == x,
    decreases k,
{
    if k > 0 {
        lemma_cand_set(f, (k - 1) as nat);
        let c = f((k - 1) as nat);
        if cand_set(f, (k - 1) as nat).contains(c) {
            let m = choose|m: nat| m < k - 1 && #[trigger] f(m) == c;
            assert(f(m) != f((k - 1) as nat));
        }
        assert forall|x: A| #[trigger] cand_set(f, k).contains(x) implies exists|m: nat| m < k && #[trigger] f(m) == x by {
            if x == c {
                assert(f((k - 1) as nat) == x);
            } else {
                assert(cand_set(f, (k - 1) as nat).contains(x));
            }
        }
    }
}

/// `k` distinct candidates all listed in `taken` force `k <= taken.len()`.
pub proof fn lemma_pigeon<A>(taken: Seq<A>, f: spec_fn(nat) -> A, k: nat)
    requires
        forall|m: nat| m < k ==> taken.contains(#[trigger] f(m)),
        forall|i: nat, j: nat| i < j < k ==> #[trigger] f(i) != #[trigger] f(j),
    ensures
        k <= taken.len(),
{
    lemma_cand_set(f, k);
    let s = cand_set(f, k);
    let ts = taken.to_set();
    assert forall|x: A| s.contains(x) implies ts.contains(x) by {
        let m = choose|m: nat| m < k && #[trigger] f(m) == x;
        assert(taken.contains(f(m)));
    }
    taken.lemma_cardinality_of_set();
    vstd::set_lib::lemma_len_subset(s, ts);
}

} // verus!
