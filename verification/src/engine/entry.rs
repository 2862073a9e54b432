//! Directory entries: sorting and filtering of a listing.
//!
//! Reading a directory is I/O and happens outside this crate; the listing
//! arrives here as plain [`Entry`] values.
use vstd::prelude::*;

use crate::engine::path::{join, join_spec};
use crate::text::{
    chars_of, contains_chars, contains_sub, eq_chars, lemma_lexord_antisym, lemma_lexord_refl,
    lemma_lexord_trans, lex_compare, lexord, lower, lowercase, trim, trimmed,
};

verus! {

broadcast use vstd::seq_lib::group_to_multiset_ensures;

/// What a directory entry points at.
#[derive(Clone, Copy, PartialEq, Eq, Debug, Structural)]
pub enum FileType {
    Directory,
    Regular,
    Symlink,
    Other,
}

/// One row in the file list.
#[derive(Clone, Debug)]
pub struct Entry {
    pub name: String,
    pub file_type: FileType,
    pub size: u64,
    /// Seconds since the Unix epoch, 0 when unavailable.
    pub mtime: i64,
    pub hidden: bool,
    /// True for directories and for symlinks that resolve to a directory
    /// (so activating them navigates instead of opening).
    pub navigable: bool,
    /// The XDG MIME type of the entry (e.g. `image/png`, `inode/directory`).
    pub mime_type: String,
}

impl Entry {
    pub fn is_dir(&self) -> (r: bool)
        ensures
            r == (self.file_type == FileType::Directory),
    {
        match self.file_type {
            FileType::Directory => true,
            _ => false,
        }
    }
}

/// Column the list is sorted by.
#[derive(Clone, Copy, PartialEq, Eq, Debug, Structural, Default)]
pub enum SortKey {
    #[default]
    Name,
    Size,
    Mtime,
}

impl SortKey {
    pub fn as_str(self) -> (r: &'static str)
        ensures
            r@ == match self {
                SortKey::Name => "name"@,
                SortKey::Size => "size"@,
                SortKey::Mtime => "mtime"@,
            },
    {
        match self {
            SortKey::Name => "name",
            SortKey::Size => "size",
            SortKey::Mtime => "mtime",
        }
    }

    pub fn parse(s: &str) -> (r: Option<SortKey>)
        ensures
            r == if s@ == "name"@ {
                Some(SortKey::Name)
            } else if s@ == "size"@ {
                Some(SortKey::Size)
            } else if s@ == "mtime"@ {
                Some(SortKey::Mtime)
            } else {
                None::<SortKey>
            },
    {
        let c = chars_of(s);
        let n = chars_of("name");
        let z = chars_of("size");
        let m = chars_of("mtime");
        if eq_chars(c.as_slice(), n.as_slice()) {
            Some(SortKey::Name)
        } else if eq_chars(c.as_slice(), z.as_slice()) {
            Some(SortKey::Size)
        } else if eq_chars(c.as_slice(), m.as_slice()) {
            Some(SortKey::Mtime)
        } else {
            None
        }
    }
}

pub open spec fn sign(x: int) -> int {
    if x < 0 {
        -1
    } else if x > 0 {
        1
    } else {
        0
    }
}

/// The listing order: navigable entries first, then the chosen key (ties,
/// and `Name`, by case-folded name), reversed for descending order.
pub open spec fn entry_order(a: Entry, b: Entry, key: SortKey, ascending: bool) -> int {
    if a.navigable && !b.navigable {
        -1
    } else if !a.navigable && b.navigable {
        1
    } else {
        let by_name = lexord(lower(a.name@), lower(b.name@));
        let c = match key {
            SortKey::Name => by_name,
            SortKey::Size => sign(a.size - b.size),
            SortKey::Mtime => sign(a.mtime - b.mtime),
        };
        let c2 = if c == 0 && key != SortKey::Name {
            by_name
        } else {
            c
        };
        if ascending {
            c2
        } else {
            -c2
        }
    }
}

pub open spec fn sorted_entries(s: Seq<Entry>, key: SortKey, ascending: bool) -> bool {
    forall|i: int, j: int|
        0 <= i < j < s.len() ==> entry_order(#[trigger] s[i], #[trigger] s[j], key, ascending) <= 0
}

proof fn lemma_order_antisym(a: Entry, b: Entry, key: SortKey, asc: bool)
    ensures
        entry_order(a, b, key, asc) == -entry_order(b, a, key, asc),
{
    lemma_lexord_antisym(lower(a.name@), lower(b.name@));
}

proof fn lemma_order_trans(a: Entry, b: Entry, c: Entry, key: SortKey, asc: bool)
    requires
        entry_order(a, b, key, asc) <= 0,
        entry_order(b, c, key, asc) <= 0,
    ensures
        entry_order(a, c, key, asc) <= 0,
{
    let (la, lb, lc) = (lower(a.name@), lower(b.name@), lower(c.name@));
    lemma_lexord_antisym(la, lb);
    lemma_lexord_antisym(lb, lc);
    lemma_lexord_antisym(la, lc);
    if lexord(la, lb) <= 0 && lexord(lb, lc) <= 0 {
        lemma_lexord_trans(la, lb, lc);
    }
    if lexord(lc, lb) <= 0 && lexord(lb, la) <= 0 {
        lemma_lexord_trans(lc, lb, la);
    }
}

fn order_exec(a: &Entry, b: &Entry, key: SortKey, ascending: bool) -> (r: i8)
    ensures
        r as int == entry_order(*a, *b, key, ascending),
{
    if a.navigable && !b.navigable {
        return -1;
    }
    if !a.navigable && b.navigable {
        return 1;
    }
    let an = chars_of(a.name.as_str());
    let bn = chars_of(b.name.as_str());
    let la = lowercase(an.as_slice());
    let lb = lowercase(bn.as_slice());
    let by_name = lex_compare(la.as_slice(), lb.as_slice());
    proof {
        lemma_lexord_antisym(la@, lb@);
    }
    let c: i8 = match key {
        SortKey::Name => by_name,
        SortKey::Size => if a.size < b.size {
            -1
        } else if a.size > b.size {
            1
        } else {
            0
        },
        SortKey::Mtime => if a.mtime < b.mtime {
            -1
        } else if a.mtime > b.mtime {
            1
        } else {
            0
        },
    };
    let is_name = match key {
        SortKey::Name => true,
        _ => false,
    };
    let c2 = if c == 0 && !is_name {
        by_name
    } else {
        c
    };
    if ascending {
        c2
    } else {
        -c2
    }
}

/// The entries that compare equal to `e` (the same kind, key and
/// case-folded name).
pub open spec fn ties_with(e: Entry, key: SortKey, ascending: bool) -> spec_fn(Entry) -> bool {
    |x: Entry| entry_order(x, e, key, ascending) == 0
}

proof fn lemma_tie_trans(a: Entry, b: Entry, c: Entry, key: SortKey, asc: bool)
    requires
        entry_order(a, b, key, asc) == 0,
        entry_order(b, c, key, asc) == 0,
    ensures
        entry_order(a, c, key, asc) == 0,
{
    lemma_order_trans(a, b, c, key, asc);
    lemma_order_antisym(a, b, key, asc);
    lemma_order_antisym(b, c, key, asc);
    lemma_order_trans(c, b, a, key, asc);
    lemma_order_antisym(a, c, key, asc);
}

proof fn lemma_single_filter(x: Entry, f: spec_fn(Entry) -> bool)
    ensures
        seq![x].filter(f) == (if f(x) {
            seq![x]
        } else {
            Seq::<Entry>::empty()
        }),
{
    Seq::<Entry>::empty().lemma_filter_push(x, f);
    assert(Seq::<Entry>::empty().push(x) =~= seq![x]);
    reveal(Seq::filter);
    assert(Seq::<Entry>::empty().filter(f) =~= Seq::<Entry>::empty());
}

/// Inserting `x` before entries that all order after it adds `x` at the end
/// of its ties.
proof fn lemma_insert_ties(before: Seq<Entry>, p: int, x: Entry, e: Entry, key: SortKey, asc: bool)
    requires
        0 <= p <= before.len(),
        forall|k: int| p <= k < before.len() ==> entry_order(x, #[trigger] before[k], key, asc) < 0,
    ensures
        before.insert(p, x).filter(ties_with(e, key, asc)) == before.filter(ties_with(e, key, asc))
            + seq![x].filter(ties_with(e, key, asc)),
{
    let f = ties_with(e, key, asc);
    let a = before.take(p);
    let b = before.skip(p);
    assert(before.insert(p, x) =~= a + seq![x] + b);
    assert(before =~= a + b);
    Seq::filter_distributes_over_add(a + seq![x], b, f);
    Seq::filter_distributes_over_add(a, seq![x], f);
    Seq::filter_distributes_over_add(a, b, f);
    lemma_single_filter(x, f);
    if f(x) {
        assert(b.filter(f).len() == 0) by {
            if b.filter(f).len() > 0 {
                b.lemma_filter_pred(f, 0);
                let y = b.filter(f)[0];
                assert(b.filter(f).contains(y));
                b.lemma_filter_contains_rev(f, y);
                let k = choose|k: int| 0 <= k < b.len() && b[k] == y;
                assert(b[k] == before[k + p]);
                assert(entry_order(x, before[k + p], key, asc) < 0);
                lemma_order_antisym(x, e, key, asc);
                lemma_tie_trans(y, e, x, key, asc);
                lemma_order_antisym(y, x, key, asc);
            }
        }
        assert(b.filter(f) =~= Seq::<Entry>::empty());
        assert(before.insert(p, x).filter(f) =~= a.filter(f) + seq![x]);
        assert(before.filter(f) + seq![x].filter(f) =~= a.filter(f) + seq![x]);
    } else {
        assert(before.insert(p, x).filter(f) =~= a.filter(f) + b.filter(f));
    }
}

/// In-place stable sort: navigable entries always before files, then the
/// chosen key; ties (and `Name`) fall back to case-insensitive name order.
pub fn sort_entries(entries: &mut Vec<Entry>, key: SortKey, ascending: bool)
    ensures
        final(entries)@.to_multiset() == old(entries)@.to_multiset(),
        sorted_entries(final(entries)@, key, ascending),
        forall|e: Entry|
            #[trigger] final(entries)@.filter(ties_with(e, key, ascending)) == old(entries)@.filter(
                ties_with(e, key, ascending),
            ),
{
    let mut src: Vec<Entry> = Vec::new();
    std::mem::swap(&mut src, entries);
    let ghost orig = src@;
    let mut out: Vec<Entry> = Vec::new();
    proof {
        vstd::seq_lib::lemma_multiset_commutative(out@, src@);
        assert(out@ + src@ =~= src@);
    }
    proof {
        assert forall|e: Entry| #[trigger] out@.filter(ties_with(e, key, ascending)) + src@.filter(
            ties_with(e, key, ascending),
        ) == orig.filter(ties_with(e, key, ascending)) by {
            reveal(Seq::filter);
            assert(out@.filter(ties_with(e, key, ascending)) =~= Seq::<Entry>::empty());
            assert(Seq::<Entry>::empty() + src@.filter(ties_with(e, key, ascending)) =~= src@.filter(
                ties_with(e, key, ascending),
            ));
        }
    }
    while src.len() > 0
        invariant
            (out@ + src@).to_multiset() == orig.to_multiset(),
            sorted_entries(out@, key, ascending),
            forall|e: Entry|
                #[trigger] out@.filter(ties_with(e, key, ascending)) + src@.filter(
                    ties_with(e, key, ascending),
                ) == orig.filter(ties_with(e, key, ascending)),
        decreases src.len(),
    {
        let ghost src0 = src@;
        let x = src.remove(0);
        let mut p = out.len();
        while p > 0 && order_exec(&x, &out[p - 1], key, ascending) < 0
            invariant
                p <= out@.len(),
                forall|k: int| p <= k < out@.len() ==> entry_order(x, #[trigger] out@[k], key, ascending) < 0,
            decreases p,
        {
            p = p - 1;
        }
        let ghost before = out@;
        proof {
            if p > 0 {
                lemma_order_antisym(x, before[p - 1], key, ascending);
                assert forall|i: int| 0 <= i < p implies entry_order(#[trigger] before[i], x, key, ascending) <= 0 by {
                    if i < p - 1 {
                        lemma_order_trans(before[i], before[p - 1], x, key, ascending);
                    }
                }
            }
        }
        out.insert(p, x);
        proof {
            let s = out@;
            assert forall|i: int, j: int| 0 <= i < j < s.len() implies entry_order(#[trigger] s[i], #[trigger] s[j], key, ascending) <= 0 by {
                if j < p {
                    assert(s[i] == before[i] && s[j] == before[j]);
                } else if j == p {
                    assert(s[i] == before[i]);
                } else if i == p {
                    assert(s[j] == before[j - 1]);
                } else if i < p {
                    assert(s[i] == before[i] && s[j] == before[j - 1]);
                    lemma_order_trans(before[i], x, before[j - 1], key, ascending);
                } else {
                    assert(s[i] == before[i - 1] && s[j] == before[j - 1]);
                }
            }
            broadcast use vstd::multiset::group_multiset_axioms;
            vstd::seq_lib::lemma_multiset_commutative(out@, src@);
            vstd::seq_lib::lemma_multiset_commutative(before, src0);
            assert(src@ == src0.remove(0));
            assert(src0.to_multiset().contains(x));
            assert(src@.to_multiset() == src0.to_multiset().remove(x));
            assert(out@.to_multiset() == before.to_multiset().insert(x));
            assert(out@.to_multiset().add(src@.to_multiset()) =~= before.to_multiset().add(src0.to_multiset()));
            assert forall|e: Entry| #[trigger] out@.filter(ties_with(e, key, ascending)) + src@.filter(
                ties_with(e, key, ascending),
            ) == orig.filter(ties_with(e, key, ascending)) by {
                let f = ties_with(e, key, ascending);
                lemma_insert_ties(before, p as int, x, e, key, ascending);
                assert(src0 =~= seq![x] + src@);
                Seq::filter_distributes_over_add(seq![x], src@, f);
                assert(before.filter(f) + src0.filter(f) == orig.filter(f));
                assert(out@.filter(f) + src@.filter(f) =~= before.filter(f) + src0.filter(f));
            }
        }
    }
    assert(out@ + src@ =~= out@);
    proof {
        assert forall|e: Entry| #[trigger] out@.filter(ties_with(e, key, ascending)) == orig.filter(
            ties_with(e, key, ascending),
        ) by {
            reveal(Seq::filter);
            assert(src@.filter(ties_with(e, key, ascending)) =~= Seq::<Entry>::empty());
            assert(out@.filter(ties_with(e, key, ascending)) + Seq::<Entry>::empty() =~= out@.filter(
                ties_with(e, key, ascending),
            ));
        }
    }
    *entries = out;
}

/// Indices of entries whose name contains `query` (case-insensitive).
/// An empty query matches everything.
pub open spec fn filter_matches(e: Entry, q: Seq<char>) -> bool {
    q.len() == 0 || contains_sub(lower(e.name@), q)
}

/// The name filter keeps exactly the entries in whose lower-cased name the
/// trimmed, lower-cased query occurs, at any position; an empty query keeps
/// every entry. The kept indices are in listing order.
pub proof fn law_filter_keeps_names_containing(entries: Seq<Entry>, query: Seq<char>, r: Seq<usize>)
    requires
        entries.len() <= usize::MAX,
        forall|k: int| 0 <= k < r.len() ==> r[k] < entries.len() && filter_matches(
            entries[r[k] as int],
            lower(trim(query)),
        ),
        forall|k1: int, k2: int| 0 <= k1 < k2 < r.len() ==> r[k1] < r[k2],
        forall|i: int|
            0 <= i < entries.len() && filter_matches(#[trigger] entries[i], lower(trim(query)))
                ==> r.contains(i as usize),
    ensures
        forall|i: int|
            #![trigger entries[i]]
            0 <= i < entries.len() ==> (r.contains(i as usize) <==> ({
                let q = lower(trim(query));
                let n = lower(entries[i].name@);
                q.len() == 0 || exists|k: int| 0 <= k && k + q.len() <= n.len() && #[trigger] n.subrange(k, k + q.len()) == q
            })),
        forall|k: int| 0 <= k < r.len() ==> r[k] < entries.len(),
        forall|k1: int, k2: int| 0 <= k1 < k2 < r.len() ==> r[k1] < r[k2],
{
    assert forall|i: int| #![trigger entries[i]] 0 <= i < entries.len() implies (r.contains(i as usize) <==> ({
        let q = lower(trim(query));
        let n = lower(entries[i].name@);
        q.len() == 0 || exists|k: int| 0 <= k && k + q.len() <= n.len() && #[trigger] n.subrange(k, k + q.len()) == q
    })) by {
        let q = lower(trim(query));
        if r.contains(i as usize) {
            let k = choose|k: int| 0 <= k < r.len() && r[k] == i as usize;
            assert(r[k] as int == i);
            assert(filter_matches(entries[r[k] as int], q));
            assert(filter_matches(entries[i], q));
        } else {
            assert(!filter_matches(entries[i], q));
        }
    }
}

pub fn filtered_indices(entries: &[Entry], query: &str) -> (r: Vec<usize>)
    ensures
        r@.len() <= entries@.len(),
        forall|k: int| 0 <= k < r@.len() ==> r@[k] < entries@.len() && filter_matches(
            entries@[r@[k] as int],
            lower(trim(query@)),
        ),
        forall|k1: int, k2: int| 0 <= k1 < k2 < r@.len() ==> r@[k1] < r@[k2],
        forall|i: int|
            0 <= i < entries@.len() && filter_matches(#[trigger] entries@[i], lower(trim(query@)))
                ==> r@.contains(i as usize),
{
    let qc = chars_of(query);
    let qt = trimmed(qc.as_slice());
    let q = lowercase(qt.as_slice());
    let mut out: Vec<usize> = Vec::new();
    let mut i: usize = 0;
    while i < entries.len()
        invariant
            i <= entries@.len(),
            q@ == lower(trim(query@)),
            out@.len() <= i,
            forall|k: int| 0 <= k < out@.len() ==> out@[k] < i && filter_matches(
                entries@[out@[k] as int],
                q@,
            ),
            forall|k1: int, k2: int| 0 <= k1 < k2 < out@.len() ==> out@[k1] < out@[k2],
            forall|j: int| 0 <= j < i && filter_matches(#[trigger] entries@[j], q@) ==> out@.contains(j as usize),
        decreases entries.len() - i,
    {
        let keep = if q.len() == 0 {
            true
        } else {
            let nc = chars_of(entries[i].name.as_str());
            let ln = lowercase(nc.as_slice());
            contains_chars(ln.as_slice(), q.as_slice())
        };
        let ghost prev = out@;
        if keep {
            out.push(i);
            proof {
                assert forall|j: int| 0 <= j < i + 1 && filter_matches(#[trigger] entries@[j], q@) implies out@.contains(j as usize) by {
                    if j < i {
                        let w = choose|w: int| 0 <= w < prev.len() && prev[w] == j as usize;
                        assert(out@[w] == j as usize);
                    } else {
                        assert(out@[prev.len() as int] == i);
                    }
                }
            }
        }
        i = i + 1;
    }
    out
}

/// Join a child `name` onto directory `dir`.
pub fn child_path(dir: &str, name: &str) -> (r: String)
    ensures
        r@ == join_spec(dir@, name@),
{
    join(dir, name)
}

/// Whether a listing shows an item named `name`: never `.` or `..`, and
/// names starting with a dot only when hidden files are shown.
pub open spec fn listed(name: Seq<char>, show_hidden: bool) -> bool {
    name != seq!['.'] && name != seq!['.', '.'] && (show_hidden || name.len() == 0 || name[0] != '.')
}

/// The listing row for a directory item, or `None` when it is not listed
/// (see [`listed`]). `kind` is the item's own type (a symlink reports
/// itself); `target_is_dir` tells whether a symlink resolves to a directory,
/// which makes the row navigable. Navigable rows have the MIME type
/// `inode/directory`, others `guessed_mime`.
pub fn listing_entry(
    name: String,
    kind: FileType,
    target_is_dir: bool,
    size: u64,
    mtime: i64,
    guessed_mime: String,
    show_hidden: bool,
) -> (r: Option<Entry>)
    ensures
        !listed(name@, show_hidden) ==> r is None,
        listed(name@, show_hidden) ==> (r matches Some(e) && e.name@ == name@ && e.file_type == kind
            && e.size == size && e.mtime == mtime && e.hidden == (name@.len() > 0 && name@[0] == '.')
            && e.navigable == (kind == FileType::Directory || (kind == FileType::Symlink && target_is_dir))
            && e.mime_type@ == (if e.navigable { "inode/directory"@ } else { guessed_mime@ })),
{
    let nc = chars_of(name.as_str());
    let is_dot = nc.len() == 1 && nc[0] == '.';
    let is_dotdot = nc.len() == 2 && nc[0] == '.' && nc[1] == '.';
    proof {
        if nc@.len() == 1 && nc@[0] == '.' {
            assert(nc@ =~= seq!['.']);
        }
        if nc@.len() == 2 && nc@[0] == '.' && nc@[1] == '.' {
            assert(nc@ =~= seq!['.', '.']);
        }
        if nc@ == seq!['.'] {
            assert(nc@.len() == 1);
        }
        if nc@ == seq!['.', '.'] {
            assert(nc@.len() == 2);
        }
    }
    if is_dot || is_dotdot {
        return None;
    }
    let hidden = nc.len() > 0 && nc[0] == '.';
    if hidden && !show_hidden {
        return None;
    }
    let navigable = match kind {
        FileType::Directory => true,
        FileType::Symlink => target_is_dir,
        _ => false,
    };
    let mime_type = if navigable {
        String::from_str("inode/directory")
    } else {
        guessed_mime
    };
    Some(Entry { name, file_type: kind, size, mtime, hidden, navigable, mime_type })
}

} // verus!
