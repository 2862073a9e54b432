//! Thumbnails on the GPU side: premultiplying a decoded image's colours by
//! its alpha before upload, and the bounded, least-recently-uploaded-first
//! order in which uploaded images are released. Uploading and releasing
//! textures is the front end's part.
use vstd::prelude::*;

use crate::text::str_eq;

verus! {

/// At most this many thumbnails stay uploaded.
pub const MAX_UPLOADS: usize = 512;

/// One colour channel premultiplied by alpha `a`, rounded to nearest.
pub open spec fn premul(c: u8, a: u8) -> int {
    (c * a + 127) / 255
}

/// RGBA pixels with each colour channel premultiplied by the pixel's alpha;
/// alpha, and bytes after the last whole pixel, stay as they are.
pub open spec fn premultiplied_spec(px: Seq<u8>) -> Seq<u8> {
    Seq::new(
        px.len(),
        |i: int|
            if i < px.len() - px.len() % 4 && i % 4 != 3 {
                premul(px[i], px[i - i % 4 + 3]) as u8
            } else {
                px[i]
            },
    )
}

fn premul_exec(c: u8, a: u8) -> (r: u8)
    ensures
        r as int == premul(c, a),
{
    let c32 = c as u32;
    let a32 = a as u32;
    assert(c32 * a32 <= 65025) by (nonlinear_arith)
        requires
            c32 <= 255,
            a32 <= 255,
    ;
    let v: u32 = c32 * a32 + 127;
    let q = v / 255;
    assert(q <= 255);
    q as u8
}

/// The pixels to upload for a decoded RGBA image (see
/// [`premultiplied_spec`]).
pub fn premultiplied(px: &[u8]) -> (r: Vec<u8>)
    ensures
        r@ == premultiplied_spec(px@),
{
    let n = px.len();
    let whole = n - n % 4;
    let mut out: Vec<u8> = Vec::new();
    let mut k: usize = 0;
    while k < n
        invariant
            k <= n == px@.len(),
            whole == n - n % 4,
            k <= whole ==> k % 4 == 0,
            out@ == premultiplied_spec(px@).take(k as int),
        decreases n - k,
    {
        if n - k >= 4 {
            assert(k < whole);
            let a = px[k + 3];
            out.push(premul_exec(px[k], a));
            out.push(premul_exec(px[k + 1], a));
            out.push(premul_exec(px[k + 2], a));
            out.push(a);
            proof {
                assert(k + 4 <= whole) by (nonlinear_arith)
                    requires
                        k % 4 == 0,
                        n - k >= 4,
                        whole == n - n % 4,
                ;
                assert((k + 1) % 4 == 1 && (k + 2) % 4 == 2 && (k + 3) % 4 == 3) by (nonlinear_arith)
                    requires
                        k % 4 == 0,
                ;
                assert(out@ =~= premultiplied_spec(px@).take(k + 4));
            }
            k = k + 4;
        } else {
            assert(k >= whole) by (nonlinear_arith)
                requires
                    k <= whole ==> k % 4 == 0,
                    n - k < 4,
                    whole == n - n % 4,
            ;
            out.push(px[k]);
            assert(out@ =~= premultiplied_spec(px@).take(k + 1));
            k = k + 1;
        }
    }
    assert(premultiplied_spec(px@).take(n as int) =~= premultiplied_spec(px@));
    out
}

/// The uploaded thumbnails' paths, least recently uploaded first.
pub struct UploadOrder {
    order: Vec<String>,
}

pub open spec fn texts(v: Seq<String>) -> Seq<Seq<char>> {
    v.map_values(|s: String| s@)
}

/// The order after uploading `path`, before releasing any: `path` moves to
/// the end.
pub open spec fn touched(order: Seq<Seq<char>>, path: Seq<char>) -> Seq<Seq<char>> {
    order.filter(other_than(path)).push(path)
}

pub open spec fn other_than(path: Seq<char>) -> spec_fn(Seq<char>) -> bool {
    |p: Seq<char>| p != path
}

/// How many of the oldest uploads a list of `len` releases.
pub open spec fn overflow(len: nat) -> nat {
    if len > MAX_UPLOADS {
        (len - MAX_UPLOADS) as nat
    } else {
        0
    }
}

impl View for UploadOrder {
    type V = Seq<Seq<char>>;

    closed spec fn view(&self) -> Seq<Seq<char>> {
        texts(self.order@)
    }
}

impl UploadOrder {
    /// No two entries are the same path, and at most [`MAX_UPLOADS`] are
    /// kept.
    pub open spec fn wf(&self) -> bool {
        self@.no_duplicates() && self@.len() <= MAX_UPLOADS
    }

    pub fn new() -> (s: Self)
        ensures
            s@ == Seq::<Seq<char>>::empty(),
            s.wf(),
    {
        UploadOrder { order: Vec::new() }
    }

    /// Record that `path` was uploaded; gives the paths whose images are to
    /// be released, oldest first.
    pub fn insert(&mut self, path: String) -> (released: Vec<String>)
        ensures
            final(self)@ == touched(old(self)@, path@).skip(
                overflow(touched(old(self)@, path@).len()) as int,
            ),
            texts(released@) == touched(old(self)@, path@).take(
                overflow(touched(old(self)@, path@).len()) as int,
            ),
            old(self).wf() ==> final(self).wf(),
    {
        let ghost old_v = texts(self.order@);
        let ghost pv = path@;
        let mut kept: Vec<String> = Vec::new();
        let mut i: usize = 0;
        assert(old_v.take(0) =~= Seq::<Seq<char>>::empty());
        while i < self.order.len()
            invariant
                i <= self.order@.len(),
                old_v == texts(self.order@),
                pv == path@,
                texts(kept@) == old_v.take(i as int).filter(other_than(pv)),
            decreases self.order.len() - i,
        {
            assert(old_v.take(i + 1).drop_last() =~= old_v.take(i as int));
            proof {
                reveal(Seq::filter);
            }
            if !str_eq(self.order[i].as_str(), path.as_str()) {
                let ghost before = texts(kept@);
                kept.push(self.order[i].clone());
                assert(texts(kept@) =~= before.push(old_v[i as int]));
            }
            i = i + 1;
        }
        assert(old_v.take(self.order@.len() as int) =~= old_v);
        let ghost before = texts(kept@);
        assert(before == old_v.filter(other_than(pv)));
        kept.push(path);
        let ghost full = texts(kept@);
        assert(full =~= before.push(pv));
        assert(full =~= touched(old_v, pv));
        let k: usize = if kept.len() > MAX_UPLOADS {
            kept.len() - MAX_UPLOADS
        } else {
            0
        };
        let mut released: Vec<String> = Vec::new();
        let mut rest: Vec<String> = Vec::new();
        let mut j: usize = 0;
        while j < kept.len()
            invariant
                j <= kept@.len(),
                k <= kept@.len(),
                full == texts(kept@),
                texts(released@) == full.take(if j < k {
                    j as int
                } else {
                    k as int
                }),
                texts(rest@) == (if j <= k {
                    Seq::<Seq<char>>::empty()
                } else {
                    full.subrange(k as int, j as int)
                }),
            decreases kept.len() - j,
        {
            let s = kept[j].clone();
            assert(s@ == full[j as int]);
            if j < k {
                let ghost b = texts(released@);
                released.push(s);
                assert(texts(released@) =~= b.push(full[j as int]));
                assert(texts(released@) =~= full.take(j + 1));
            } else {
                let ghost b = texts(rest@);
                rest.push(s);
                assert(texts(rest@) =~= b.push(full[j as int]));
                assert(texts(rest@) =~= full.subrange(k as int, j + 1));
            }
            j = j + 1;
        }
        if kept.len() <= k {
            assert(full.skip(k as int) =~= Seq::<Seq<char>>::empty());
        } else {
            assert(full.subrange(k as int, kept@.len() as int) =~= full.skip(k as int));
        }
        proof {
            if old_v.no_duplicates() {
                lemma_touched_distinct(old_v, pv);
                assert(full.skip(k as int).no_duplicates());
            }
        }
        self.order = rest;
        released
    }
}

proof fn lemma_filter_distinct(s: Seq<Seq<char>>, path: Seq<char>)
    requires
        s.no_duplicates(),
    ensures
        s.filter(other_than(path)).no_duplicates(),
        !s.filter(other_than(path)).contains(path),
        s.filter(other_than(path)).len() <= s.len(),
    decreases s.len(),
{
    reveal(Seq::filter);
    let pred = other_than(path);
    if s.len() > 0 {
        let d = s.drop_last();
        assert(d.no_duplicates()) by {
            assert forall|a: int, b: int| 0 <= a < b < d.len() implies d[a] != d[b] by {
                assert(d[a] == s[a] && d[b] == s[b]);
            }
        }
        lemma_filter_distinct(d, path);
        let fd = d.filter(pred);
        assert(s.filter(pred) == if pred(s.last()) { fd.push(s.last()) } else { fd });
        if pred(s.last()) {
            assert(!fd.contains(s.last())) by {
                if fd.contains(s.last()) {
                    d.lemma_filter_contains_rev(pred, s.last());
                    let k = choose|k: int| 0 <= k < d.len() && d[k] == s.last();
                    assert(s[k] == s[s.len() - 1]);
                }
            }
            let t = fd.push(s.last());
            assert forall|a: int, b: int| 0 <= a < b < t.len() implies t[a] != t[b] by {
                if b == t.len() - 1 {
                    assert(t[a] == fd[a]);
                    assert(fd.contains(fd[a]));
                } else {
                    assert(t[a] == fd[a] && t[b] == fd[b]);
                }
            }
            assert(!t.contains(path)) by {
                if t.contains(path) {
                    let k = choose|k: int| 0 <= k < t.len() && t[k] == path;
                    if k < fd.len() {
                        assert(t[k] == fd[k]);
                        assert(fd.contains(path));
                    }
                }
            }
        }
    }
}

proof fn lemma_touched_distinct(order: Seq<Seq<char>>, path: Seq<char>)
    requires
        order.no_duplicates(),
    ensures
        forall|k: int| 0 <= k <= touched(order, path).len() ==> #[trigger] touched(order, path).skip(
            k,
        ).no_duplicates(),
        touched(order, path).len() <= order.len() + 1,
{
    lemma_filter_distinct(order, path);
    let f = order.filter(other_than(path));
    let t = f.push(path);
    assert(t == touched(order, path));
    assert forall|a: int, b: int| 0 <= a < b < t.len() implies t[a] != t[b] by {
        if b == t.len() - 1 {
            assert(t[a] == f[a]);
            assert(f.contains(f[a]));
        } else {
            assert(t[a] == f[a] && t[b] == f[b]);
        }
    }
    assert forall|k: int| 0 <= k <= t.len() implies #[trigger] t.skip(k).no_duplicates() by {
        assert forall|a: int, b: int| 0 <= a < b < t.skip(k).len() implies t.skip(k)[a] != t.skip(
            k,
        )[b] by {
            assert(t.skip(k)[a] == t[a + k]);
            assert(t.skip(k)[b] == t[b + k]);
        }
    }
}

} // verus!
