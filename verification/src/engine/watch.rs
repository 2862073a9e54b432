//! The decisions of the directory watcher.
//!
//! The watcher thread polls an inotify descriptor and a wake-up pipe, adds
//! and removes kernel watches and sends changed directories to the
//! application. Those calls are the caller's. This module keeps the
//! watcher's state (which descriptor watches which directory, which
//! directories changed and when they settle) and decides: how long to
//! poll, which watches to drop or add for a new set of directories, what a
//! raw inotify buffer says, how an event marks a directory dirty, and which
//! directories have settled.
//!
//! Times are nanoseconds on a monotonic clock chosen by the caller.
use std::collections::HashMap;
use vstd::prelude::*;

use crate::text::{chars_of, contains_char, str_eq};

verus! {

broadcast use vstd::std_specs::hash::group_hash_axioms;

/// The queue of the kernel overflowed: every watched directory is dirty.
pub const IN_Q_OVERFLOW: u32 = 0x4000;

/// The watch was removed by the kernel (directory deleted or unmounted).
pub const IN_IGNORED: u32 = 0x8000;

/// Settling delay after a change: 50 ms.
pub const SETTLE_NS: u64 = 50_000_000;

/// Longest a burst of changes is held back: 200 ms.
pub const HOLD_NS: u64 = 200_000_000;

/// A changed directory waiting to settle: it is reported from `earliest`
/// on; new changes push `earliest` back, but never past `latest`.
#[derive(Clone, Debug)]
pub struct DirtyEntry {
    pub path: String,
    pub earliest: u64,
    pub latest: u64,
}

/// The watcher's state: descriptor to directory, directory to descriptor,
/// and the directories waiting to settle.
pub struct WatchState {
    wd_to_path: HashMap<i32, String>,
    path_to_wd: Vec<(String, i32)>,
    dirty: Vec<DirtyEntry>,
}

pub struct WatchView {
    pub wd_to_path: Map<i32, Seq<char>>,
    pub path_to_wd: Seq<(Seq<char>, i32)>,
    pub dirty: Seq<(Seq<char>, u64, u64)>,
}

pub open spec fn wd_map(m: Map<i32, String>) -> Map<i32, Seq<char>> {
    m.map_values(|s: String| s@)
}

pub open spec fn path_pairs(s: Seq<(String, i32)>) -> Seq<(Seq<char>, i32)> {
    s.map_values(|e: (String, i32)| (e.0@, e.1))
}

pub open spec fn dirty_triples(s: Seq<DirtyEntry>) -> Seq<(Seq<char>, u64, u64)> {
    s.map_values(|e: DirtyEntry| (e.path@, e.earliest, e.latest))
}

impl View for WatchState {
    type V = WatchView;

    closed spec fn view(&self) -> WatchView {
        WatchView {
            wd_to_path: wd_map(self.wd_to_path@),
            path_to_wd: path_pairs(self.path_to_wd@),
            dirty: dirty_triples(self.dirty@),
        }
    }
}

/// The descriptor watching `p` (the latest entry wins).
pub open spec fn lookup_path(s: Seq<(Seq<char>, i32)>, p: Seq<char>) -> Option<i32>
    decreases s.len(),
{
    if s.len() == 0 {
        None
    } else if s.last().0 == p {
        Some(s.last().1)
    } else {
        lookup_path(s.drop_last(), p)
    }
}

/// The settling window of a dirty directory (the latest entry wins).
pub open spec fn lookup_dirty(s: Seq<(Seq<char>, u64, u64)>, p: Seq<char>) -> Option<(u64, u64)>
    decreases s.len(),
{
    if s.len() == 0 {
        None
    } else if s.last().0 == p {
        Some((s.last().1, s.last().2))
    } else {
        lookup_dirty(s.drop_last(), p)
    }
}

pub open spec fn drop_path(s: Seq<(Seq<char>, i32)>, p: Seq<char>) -> Seq<(Seq<char>, i32)>
    decreases s.len(),
{
    if s.len() == 0 {
        s
    } else if s.last().0 == p {
        drop_path(s.drop_last(), p)
    } else {
        drop_path(s.drop_last(), p).push(s.last())
    }
}

pub open spec fn drop_dirty(s: Seq<(Seq<char>, u64, u64)>, p: Seq<char>) -> Seq<(Seq<char>, u64, u64)>
    decreases s.len(),
{
    if s.len() == 0 {
        s
    } else if s.last().0 == p {
        drop_dirty(s.drop_last(), p)
    } else {
        drop_dirty(s.drop_last(), p).push(s.last())
    }
}

/// Insert or replace the settling window of `p`.
pub open spec fn put_dirty(s: Seq<(Seq<char>, u64, u64)>, p: Seq<char>, earliest: u64, latest: u64) -> Seq<(Seq<char>, u64, u64)> {
    drop_dirty(s, p).push((p, earliest, latest))
}

/// Queue overflow: every watched directory becomes dirty, due now.
pub open spec fn mark_all(d: Seq<(Seq<char>, u64, u64)>, watched: Seq<(Seq<char>, i32)>, now: u64) -> Seq<(Seq<char>, u64, u64)>
    decreases watched.len(),
{
    if watched.len() == 0 {
        d
    } else {
        put_dirty(mark_all(d, watched.drop_last(), now), watched.last().0, now, (now + SETTLE_NS) as u64)
    }
}

/// A change in `p` at `now`: a new burst starts a window of 50 ms (held at
/// most 200 ms); a change during a burst pushes the start back by 50 ms,
/// but not past the end of the window.
pub open spec fn touch(d: Seq<(Seq<char>, u64, u64)>, p: Seq<char>, now: u64) -> Seq<(Seq<char>, u64, u64)> {
    match lookup_dirty(d, p) {
        Some((e, l)) => {
            let soon = (now + SETTLE_NS) as u64;
            put_dirty(d, p, if soon < l { soon } else { l }, l)
        },
        None => put_dirty(d, p, (now + SETTLE_NS) as u64, (now + HOLD_NS) as u64),
    }
}

/// The state after one inotify event.
pub open spec fn event_spec(v: WatchView, wd: i32, mask: u32, now: u64) -> WatchView {
    if mask & IN_Q_OVERFLOW != 0 {
        WatchView { dirty: mark_all(v.dirty, v.path_to_wd, now), ..v }
    } else {
        if !v.wd_to_path.contains_key(wd) {
            v
        } else {
            let p = v.wd_to_path[wd];
            let v2 = if mask & IN_IGNORED != 0 {
                WatchView { wd_to_path: v.wd_to_path.remove(wd), path_to_wd: drop_path(v.path_to_wd, p), ..v }
            } else {
                v
            };
            WatchView { dirty: touch(v2.dirty, p, now), ..v2 }
        }
    }
}

/// The directories that have settled by `now`, in order.
pub open spec fn settled(d: Seq<(Seq<char>, u64, u64)>, now: u64) -> Seq<Seq<char>>
    decreases d.len(),
{
    if d.len() == 0 {
        Seq::empty()
    } else if now >= d.last().1 {
        settled(d.drop_last(), now).push(d.last().0)
    } else {
        settled(d.drop_last(), now)
    }
}

/// The directories still settling at `now`.
pub open spec fn unsettled(d: Seq<(Seq<char>, u64, u64)>, now: u64) -> Seq<(Seq<char>, u64, u64)>
    decreases d.len(),
{
    if d.len() == 0 {
        d
    } else if now >= d.last().1 {
        unsettled(d.drop_last(), now)
    } else {
        unsettled(d.drop_last(), now).push(d.last())
    }
}

/// Earliest due time among the dirty directories.
pub open spec fn min_earliest(d: Seq<(Seq<char>, u64, u64)>) -> u64
    recommends
        d.len() > 0,
    decreases d.len(),
{
    if d.len() <= 1 {
        d[0].1
    } else {
        let m = min_earliest(d.drop_last());
        if d.last().1 < m {
            d.last().1
        } else {
            m
        }
    }
}

/// The poll timeout in milliseconds: wait forever (`-1`) with nothing
/// dirty, `0` when something is due, else the time to the earliest due
/// directory in whole milliseconds, truncated to `i32` and clamped to
/// `1..=1000`.
pub open spec fn timeout_spec(d: Seq<(Seq<char>, u64, u64)>, now: u64) -> i32 {
    if d.len() == 0 {
        -1i32
    } else if min_earliest(d) <= now {
        0i32
    } else {
        let t = (((min_earliest(d) - now) / 1_000_000) as u64) as i32;
        if t < 1 {
            1i32
        } else if t > 1000 {
            1000i32
        } else {
            t
        }
    }
}

fn find_path(s: &Vec<(String, i32)>, p: &str) -> (r: Option<usize>)
    ensures
        match r {
            Some(k) => k < s@.len() && s@[k as int].0@ == p@ && lookup_path(path_pairs(s@), p@) == Some(s@[k as int].1),
            None => lookup_path(path_pairs(s@), p@) is None,
        },
{
    let ghost v = path_pairs(s@);
    let mut i = s.len();
    assert(v.take(i as int) =~= v);
    while i > 0
        invariant
            i <= s@.len(),
            v == path_pairs(s@),
            lookup_path(v, p@) == lookup_path(v.take(i as int), p@),
        decreases i,
    {
        assert(v.take(i as int).drop_last() =~= v.take(i - 1));
        if str_eq(s[i - 1].0.as_str(), p) {
            return Some(i - 1);
        }
        i = i - 1;
    }
    None
}

fn find_dirty(s: &Vec<DirtyEntry>, p: &str) -> (r: Option<usize>)
    ensures
        match r {
            Some(k) => k < s@.len() && s@[k as int].path@ == p@ && lookup_dirty(dirty_triples(s@), p@) == Some(
                (s@[k as int].earliest, s@[k as int].latest),
            ),
            None => lookup_dirty(dirty_triples(s@), p@) is None,
        },
{
    let ghost v = dirty_triples(s@);
    let mut i = s.len();
    assert(v.take(i as int) =~= v);
    while i > 0
        invariant
            i <= s@.len(),
            v == dirty_triples(s@),
            lookup_dirty(v, p@) == lookup_dirty(v.take(i as int), p@),
        decreases i,
    {
        assert(v.take(i as int).drop_last() =~= v.take(i - 1));
        if str_eq(s[i - 1].path.as_str(), p) {
            return Some(i - 1);
        }
        i = i - 1;
    }
    None
}

fn remove_path(s: &mut Vec<(String, i32)>, p: &str)
    ensures
        path_pairs(final(s)@) == drop_path(path_pairs(old(s)@), p@),
{
    let ghost v = path_pairs(s@);
    let mut out: Vec<(String, i32)> = Vec::new();
    let mut i: usize = 0;
    while i < s.len()
        invariant
            i <= s@.len(),
            v == path_pairs(s@),
            path_pairs(out@) == drop_path(v.take(i as int), p@),
        decreases s.len() - i,
    {
        assert(v.take(i + 1).drop_last() =~= v.take(i as int));
        if !str_eq(s[i].0.as_str(), p) {
            let ghost o = out@;
            out.push((s[i].0.clone(), s[i].1));
            assert(path_pairs(out@) =~= path_pairs(o).push(v[i as int]));
        }
        i = i + 1;
    }
    assert(v.take(s@.len() as int) =~= v);
    *s = out;
}

fn remove_dirty(s: &mut Vec<DirtyEntry>, p: &str)
    ensures
        dirty_triples(final(s)@) == drop_dirty(dirty_triples(old(s)@), p@),
{
    let ghost v = dirty_triples(s@);
    let mut out: Vec<DirtyEntry> = Vec::new();
    let mut i: usize = 0;
    while i < s.len()
        invariant
            i <= s@.len(),
            v == dirty_triples(s@),
            dirty_triples(out@) == drop_dirty(v.take(i as int), p@),
        decreases s.len() - i,
    {
        assert(v.take(i + 1).drop_last() =~= v.take(i as int));
        if !str_eq(s[i].path.as_str(), p) {
            let ghost o = out@;
            out.push(DirtyEntry { path: s[i].path.clone(), earliest: s[i].earliest, latest: s[i].latest });
            assert(dirty_triples(out@) =~= dirty_triples(o).push(v[i as int]));
        }
        i = i + 1;
    }
    assert(v.take(s@.len() as int) =~= v);
    *s = out;
}

fn set_dirty(s: &mut Vec<DirtyEntry>, p: String, earliest: u64, latest: u64)
    ensures
        dirty_triples(final(s)@) == put_dirty(dirty_triples(old(s)@), p@, earliest, latest),
{
    remove_dirty(s, p.as_str());
    let ghost o = s@;
    s.push(DirtyEntry { path: p, earliest, latest });
    assert(dirty_triples(s@) =~= dirty_triples(o).push((p@, earliest, latest)));
}

impl WatchState {
    pub fn new() -> (s: Self)
        ensures
            s@.wd_to_path == Map::<i32, Seq<char>>::empty(),
            s@.path_to_wd.len() == 0,
            s@.dirty.len() == 0,
    {
        let s = WatchState { wd_to_path: HashMap::new(), path_to_wd: Vec::new(), dirty: Vec::new() };
        assert(s@.wd_to_path =~= Map::empty());
        assert(s@.path_to_wd =~= Seq::empty());
        assert(s@.dirty =~= Seq::empty());
        s
    }

    /// How long the next poll may block.
    pub fn poll_timeout(&self, now: u64) -> (r: i32)
        ensures
            r == timeout_spec(self@.dirty, now),
    {
        let n = self.dirty.len();
        if n == 0 {
            return -1;
        }
        let ghost d = self@.dirty;
        let mut m = self.dirty[0].earliest;
        let mut i: usize = 1;
        assert(d.take(1).drop_last().len() == 0);
        while i < n
            invariant
                1 <= i <= n == self.dirty@.len(),
                d == dirty_triples(self.dirty@),
                m == min_earliest(d.take(i as int)),
            decreases n - i,
        {
            assert(d.take(i + 1).drop_last() =~= d.take(i as int));
            if self.dirty[i].earliest < m {
                m = self.dirty[i].earliest;
            }
            i = i + 1;
        }
        assert(d.take(n as int) =~= d);
        if m <= now {
            return 0;
        }
        let diff: u64 = (m - now) / 1_000_000;
        let t = diff as i32;
        if t < 1 {
            1
        } else if t > 1000 {
            1000
        } else {
            t
        }
    }

    /// The watches to drop for a new set of directories: those whose
    /// directory is not among `new_paths`.
    pub fn stale_watches(&self, new_paths: &[String]) -> (r: Vec<(String, i32)>)
        ensures
            path_pairs(r@) == stale(self@.path_to_wd, new_paths@.map_values(|s: String| s@)),
    {
        let ghost np = new_paths@.map_values(|s: String| s@);
        let ghost pw = self@.path_to_wd;
        let mut out: Vec<(String, i32)> = Vec::new();
        let mut i: usize = 0;
        while i < self.path_to_wd.len()
            invariant
                i <= self.path_to_wd@.len(),
                pw == path_pairs(self.path_to_wd@),
                np == new_paths@.map_values(|s: String| s@),
                path_pairs(out@) == stale(pw.take(i as int), np),
            decreases self.path_to_wd.len() - i,
        {
            assert(pw.take(i + 1).drop_last() =~= pw.take(i as int));
            let p = &self.path_to_wd[i].0;
            if !listed(new_paths, p.as_str()) {
                out.push((p.clone(), self.path_to_wd[i].1));
                assert(path_pairs(out@) =~= stale(pw.take(i as int), np).push(pw[i as int]));
            }
            i = i + 1;
        }
        assert(pw.take(self.path_to_wd@.len() as int) =~= pw);
        out
    }

    /// Forget the watch `wd` of directory `path` (after removing it from
    /// the kernel), and any pending change of that directory.
    pub fn unwatch(&mut self, path: &str, wd: i32)
        ensures
            final(self)@.path_to_wd == drop_path(old(self)@.path_to_wd, path@),
            final(self)@.wd_to_path == old(self)@.wd_to_path.remove(wd),
            final(self)@.dirty == drop_dirty(old(self)@.dirty, path@),
    {
        let ghost o = self@;
        remove_path(&mut self.path_to_wd, path);
        let ghost m = self.wd_to_path@;
        self.wd_to_path.remove(&wd);
        assert(wd_map(self.wd_to_path@) =~= wd_map(m).remove(wd));
        remove_dirty(&mut self.dirty, path);
    }

    /// The directories of `new_paths` to start watching: not yet watched,
    /// free of NUL characters, each once, in order.
    pub fn paths_to_watch(&self, new_paths: &[String]) -> (r: Vec<String>)
        ensures
            r@.map_values(|s: String| s@) == to_watch(new_paths@.map_values(|s: String| s@), self@.path_to_wd),
    {
        let ghost np = new_paths@.map_values(|s: String| s@);
        let ghost pw = self@.path_to_wd;
        let mut out: Vec<String> = Vec::new();
        let mut i: usize = 0;
        while i < new_paths.len()
            invariant
                i <= new_paths@.len(),
                pw == path_pairs(self.path_to_wd@),
                np == new_paths@.map_values(|s: String| s@),
                out@.map_values(|s: String| s@) == to_watch(np.take(i as int), pw),
            decreases new_paths.len() - i,
        {
            assert(np.take(i + 1).drop_last() =~= np.take(i as int));
            let p = &new_paths[i];
            let pc = chars_of(p.as_str());
            let ghost sofar = out@.map_values(|s: String| s@);
            if !contains_char(pc.as_slice(), '\0') && find_path(&self.path_to_wd, p.as_str()).is_none()
                && !listed(out.as_slice(), p.as_str()) {
                out.push(p.clone());
                assert(out@.map_values(|s: String| s@) =~= sofar.push(np[i as int]));
            }
            i = i + 1;
        }
        assert(np.take(new_paths@.len() as int) =~= np);
        out
    }

    /// Record the descriptor the kernel gave for `path`; a negative one
    /// means the watch could not be added.
    pub fn watched(&mut self, path: String, wd: i32)
        ensures
            wd < 0 ==> final(self)@ == old(self)@,
            wd >= 0 ==> final(self)@.path_to_wd == drop_path(old(self)@.path_to_wd, path@).push((path@, wd))
                && final(self)@.wd_to_path == old(self)@.wd_to_path.insert(wd, path@)
                && final(self)@.dirty == old(self)@.dirty,
    {
        if wd >= 0 {
            remove_path(&mut self.path_to_wd, path.as_str());
            let ghost a = self.path_to_wd@;
            let ghost b = self.wd_to_path@;
            self.path_to_wd.push((path.clone(), wd));
            self.wd_to_path.insert(wd, path);
            assert(path_pairs(self.path_to_wd@) =~= path_pairs(a).push((path@, wd)));
            assert(wd_map(self.wd_to_path@) =~= wd_map(b).insert(wd, path@));
        }
    }

    /// Take in one inotify event seen at `now`.
    pub fn on_event(&mut self, wd: i32, mask: u32, now: u64)
        requires
            now <= u64::MAX - HOLD_NS,
        ensures
            final(self)@ == event_spec(old(self)@, wd, mask, now),
    {
        if mask & IN_Q_OVERFLOW != 0 {
            let ghost pw = self@.path_to_wd;
            let ghost d0 = self@.dirty;
            let mut i: usize = 0;
            while i < self.path_to_wd.len()
                invariant
                    i <= self.path_to_wd@.len(),
                    pw == path_pairs(self.path_to_wd@),
                    self@.wd_to_path == old(self)@.wd_to_path,
                    self@.dirty == mark_all(d0, pw.take(i as int), now),
                    d0 == old(self)@.dirty,
                    now <= u64::MAX - HOLD_NS,
                decreases self.path_to_wd.len() - i,
            {
                assert(pw.take(i + 1).drop_last() =~= pw.take(i as int));
                let p = self.path_to_wd[i].0.clone();
                set_dirty(&mut self.dirty, p, now, now + SETTLE_NS);
                i = i + 1;
            }
            assert(pw.take(pw.len() as int) =~= pw);
            return;
        }
        let found = match self.wd_to_path.get(&wd) {
            Some(p) => Some(p.clone()),
            None => None,
        };
        match found {
            None => {},
            Some(path) => {
                assert(path@ == self@.wd_to_path[wd]);
                if mask & IN_IGNORED != 0 {
                    let ghost m = self.wd_to_path@;
                    self.wd_to_path.remove(&wd);
                    assert(wd_map(self.wd_to_path@) =~= wd_map(m).remove(wd));
                    remove_path(&mut self.path_to_wd, path.as_str());
                }
                let ghost d = self@.dirty;
                match find_dirty(&self.dirty, path.as_str()) {
                    Some(j) => {
                        let l = self.dirty[j].latest;
                        let soon = now + SETTLE_NS;
                        let e = if soon < l { soon } else { l };
                        set_dirty(&mut self.dirty, path, e, l);
                    },
                    None => {
                        set_dirty(&mut self.dirty, path, now + SETTLE_NS, now + HOLD_NS);
                    },
                }
            },
        }
    }

    /// Remove and return the directories that have settled by `now`.
    pub fn take_ready(&mut self, now: u64) -> (r: Vec<String>)
        ensures
            r@.map_values(|s: String| s@) == settled(old(self)@.dirty, now),
            final(self)@.dirty == unsettled(old(self)@.dirty, now),
            final(self)@.wd_to_path == old(self)@.wd_to_path,
            final(self)@.path_to_wd == old(self)@.path_to_wd,
    {
        let mut src: Vec<DirtyEntry> = Vec::new();
        std::mem::swap(&mut src, &mut self.dirty);
        let ghost d = dirty_triples(src@);
        let mut keep: Vec<DirtyEntry> = Vec::new();
        let mut ready: Vec<String> = Vec::new();
        let mut i: usize = 0;
        while i < src.len()
            invariant
                i <= src@.len(),
                d == dirty_triples(src@),
                dirty_triples(keep@) == unsettled(d.take(i as int), now),
                ready@.map_values(|s: String| s@) == settled(d.take(i as int), now),
                self@.wd_to_path == old(self)@.wd_to_path,
                self@.path_to_wd == old(self)@.path_to_wd,
            decreases src.len() - i,
        {
            assert(d.take(i + 1).drop_last() =~= d.take(i as int));
            let ghost k0 = keep@;
            let ghost r0 = ready@;
            let e = DirtyEntry { path: src[i].path.clone(), earliest: src[i].earliest, latest: src[i].latest };
            if now >= e.earliest {
                ready.push(e.path);
                assert(ready@.map_values(|s: String| s@) =~= r0.map_values(|s: String| s@).push(d[i as int].0));
            } else {
                keep.push(e);
                assert(dirty_triples(keep@) =~= dirty_triples(k0).push(d[i as int]));
            }
            i = i + 1;
        }
        assert(d.take(src@.len() as int) =~= d);
        self.dirty = keep;
        ready
    }
}

/// The entries of `pw` whose directory is not in `np`.
pub open spec fn stale(pw: Seq<(Seq<char>, i32)>, np: Seq<Seq<char>>) -> Seq<(Seq<char>, i32)>
    decreases pw.len(),
{
    if pw.len() == 0 {
        pw
    } else if np.contains(pw.last().0) {
        stale(pw.drop_last(), np)
    } else {
        stale(pw.drop_last(), np).push(pw.last())
    }
}

/// The directories of `np` to watch: not watched in `pw`, without NUL,
/// first occurrences only.
pub open spec fn to_watch(np: Seq<Seq<char>>, pw: Seq<(Seq<char>, i32)>) -> Seq<Seq<char>>
    decreases np.len(),
{
    if np.len() == 0 {
        np
    } else {
        let rest = to_watch(np.drop_last(), pw);
        let p = np.last();
        if !p.contains('\0') && lookup_path(pw, p) is None && !rest.contains(p) {
            rest.push(p)
        } else {
            rest
        }
    }
}

fn listed(v: &[String], s: &str) -> (r: bool)
    ensures
        r == v@.map_values(|x: String| x@).contains(s@),
{
    let ghost vv = v@.map_values(|x: String| x@);
    let mut i: usize = 0;
    while i < v.len()
        invariant
            i <= v@.len(),
            vv == v@.map_values(|x: String| x@),
            forall|j: int| 0 <= j < i ==> vv[j] != s@,
        decreases v.len() - i,
    {
        if str_eq(v[i].as_str(), s) {
            assert(vv[i as int] == s@);
            return true;
        }
        i = i + 1;
    }
    false
}

/// A 32-bit word stored at `o`, in little- or big-endian byte order.
pub open spec fn word_at(b: Seq<u8>, o: int, little_endian: bool) -> u32 {
    if little_endian {
        (b[o] + 256 * b[o + 1] + 65536 * b[o + 2] + 16777216 * b[o + 3]) as u32
    } else {
        (b[o + 3] + 256 * b[o + 2] + 65536 * b[o + 1] + 16777216 * b[o]) as u32
    }
}

pub open spec fn left(len: int, o: int) -> nat {
    if o <= len {
        (len - o) as nat
    } else {
        0
    }
}

/// The `(descriptor, mask)` of each `inotify_event` record from offset `o`
/// on: a 16-byte header (descriptor, mask, cookie, name length) and the
/// name; a header that does not fit ends the buffer.
pub open spec fn events_from(b: Seq<u8>, o: int, little_endian: bool) -> Seq<(i32, u32)>
    decreases left(b.len() as int, o),
{
    if o < 0 || o + 16 > b.len() {
        Seq::empty()
    } else {
        seq![(word_at(b, o, little_endian) as i32, word_at(b, o + 4, little_endian))] + events_from(
            b,
            o + 16 + word_at(b, o + 12, little_endian),
            little_endian,
        )
    }
}

fn read_word(b: &[u8], o: usize, little_endian: bool) -> (r: u32)
    requires
        o + 4 <= b@.len(),
    ensures
        r == word_at(b@, o as int, little_endian),
{
    let x0: u32 = b[o] as u32;
    let x1: u32 = b[o + 1] as u32;
    let x2: u32 = b[o + 2] as u32;
    let x3: u32 = b[o + 3] as u32;
    assert(x0 <= 255 && x1 <= 255 && x2 <= 255 && x3 <= 255);
    if little_endian {
        x0 + 256 * x1 + 65536 * x2 + 16777216 * x3
    } else {
        x3 + 256 * x2 + 65536 * x1 + 16777216 * x0
    }
}

/// Decode the events in the first `n` bytes read from the inotify
/// descriptor; `little_endian` is the machine's byte order.
pub fn parse_events(buf: &[u8], little_endian: bool) -> (r: Vec<(i32, u32)>)
    requires
        buf@.len() <= u32::MAX,
    ensures
        r@ == events_from(buf@, 0, little_endian),
{
    let n = buf.len();
    let mut out: Vec<(i32, u32)> = Vec::new();
    let mut offset: u64 = 0;
    while offset + 16 <= n as u64
        invariant
            n == buf@.len() <= u32::MAX,
            offset <= 2 * (u32::MAX as u64) + 16,
            out@ + events_from(buf@, offset as int, little_endian) == events_from(buf@, 0, little_endian),
        decreases left(n as int, offset as int),
    {
        let o = offset as usize;
        let wd = read_word(buf, o, little_endian) as i32;
        let mask = read_word(buf, o + 4, little_endian);
        let len = read_word(buf, o + 12, little_endian);
        let ghost before = out@;
        out.push((wd, mask));
        assert(out@ + events_from(buf@, offset + 16 + len, little_endian) =~= before + events_from(
            buf@,
            offset as int,
            little_endian,
        ));
        offset = offset + 16 + len as u64;
    }
    assert(events_from(buf@, offset as int, little_endian) =~= Seq::<(i32, u32)>::empty());
    assert(out@ =~= out@ + Seq::<(i32, u32)>::empty());
    out
}

/// Changed directories as the application drains them: each once, in the
/// order first reported.
pub open spec fn dedup(s: Seq<Seq<char>>) -> Seq<Seq<char>>
    decreases s.len(),
{
    if s.len() == 0 {
        s
    } else {
        let rest = dedup(s.drop_last());
        if rest.contains(s.last()) {
            rest
        } else {
            rest.push(s.last())
        }
    }
}

/// Drop repeated directories from a batch of reports.
pub fn dedup_paths(paths: Vec<String>) -> (r: Vec<String>)
    ensures
        r@.map_values(|s: String| s@) == dedup(paths@.map_values(|s: String| s@)),
{
    let ghost v = paths@.map_values(|s: String| s@);
    let mut out: Vec<String> = Vec::new();
    let mut i: usize = 0;
    while i < paths.len()
        invariant
            i <= paths@.len(),
            v == paths@.map_values(|s: String| s@),
            out@.map_values(|s: String| s@) == dedup(v.take(i as int)),
        decreases paths.len() - i,
    {
        assert(v.take(i + 1).drop_last() =~= v.take(i as int));
        if !listed(out.as_slice(), paths[i].as_str()) {
            let ghost o = out@;
            out.push(paths[i].clone());
            assert(out@.map_values(|s: String| s@) =~= o.map_values(|s: String| s@).push(v[i as int]));
        }
        i = i + 1;
    }
    assert(v.take(paths@.len() as int) =~= v);
    out
}

} // verus!
