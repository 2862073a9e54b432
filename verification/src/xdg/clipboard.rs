//! Desktop file-clipboard interchange formats:
//! `x-special/gnome-copied-files` and RFC 2483 `text/uri-list`.
//!
//! Which pasted paths exist is decided by the caller; parsing is pure.
use vstd::prelude::*;
use vstd::utf8::encode_utf8;

use crate::engine::bookmarks::{decode_file_uri, decode_uri_text, lemma_uri_text};
use crate::text::{
    chars_of, eq_chars, is_ws, lemma_lines_append, lemma_lines_single, lemma_lines_unbroken,
    lemma_trim_noop, lemma_trim_padded, lines, push_all, split_lines, str_eq, string_of, trim,
    trimmed,
};
use crate::xdg::uri::{ascii_chars, encode_file_uri, file_uri_bytes};

verus! {

pub open spec fn uri_text(p: Seq<char>) -> Seq<char> {
    ascii_chars(file_uri_bytes(encode_utf8(p)))
}

/// Each path's URI followed by `sep`.
pub open spec fn uri_lines(paths: Seq<Seq<char>>, sep: Seq<char>) -> Seq<char>
    decreases paths.len(),
{
    if paths.len() == 0 {
        Seq::empty()
    } else {
        uri_lines(paths.drop_last(), sep) + uri_text(paths.last()) + sep
    }
}

pub open spec fn action_word(cut: bool) -> Seq<char> {
    if cut {
        "cut"@
    } else {
        "copy"@
    }
}

/// `x-special/gnome-copied-files`: the action word, then one URI per line.
pub open spec fn gnome_payload_spec(paths: Seq<Seq<char>>, cut: bool) -> Seq<char> {
    action_word(cut) + seq!['\n'] + uri_lines(paths, seq!['\n'])
}

pub open spec fn strings(v: Seq<String>) -> Seq<Seq<char>> {
    v.map_values(|s: String| s@)
}

fn push_uri_lines(out: &mut Vec<char>, paths: &Vec<String>, sep: &[char])
    ensures
        final(out)@ == old(out)@ + uri_lines(strings(paths@), sep@),
{
    let ghost start = out@;
    let mut i: usize = 0;
    assert(strings(paths@).take(0) =~= Seq::<Seq<char>>::empty());
    while i < paths.len()
        invariant
            i <= paths@.len(),
            out@ == start + uri_lines(strings(paths@).take(i as int), sep@),
        decreases paths.len() - i,
    {
        let u = encode_file_uri(paths[i].as_str());
        let uc = chars_of(u.as_str());
        push_all(out, uc.as_slice());
        push_all(out, sep);
        assert(strings(paths@).take(i + 1).drop_last() =~= strings(paths@).take(i as int));
        assert(out@ =~= start + uri_lines(strings(paths@).take(i + 1), sep@));
        i = i + 1;
    }
    assert(strings(paths@).take(paths@.len() as int) =~= strings(paths@));
}

/// Format as `x-special/gnome-copied-files`.
pub fn gnome_payload(paths: &Vec<String>, cut: bool) -> (r: String)
    ensures
        r@ == gnome_payload_spec(strings(paths@), cut),
{
    let mut out = if cut {
        chars_of("cut")
    } else {
        chars_of("copy")
    };
    out.push('\n');
    let nl: [char; 1] = ['\n'];
    push_uri_lines(&mut out, paths, &nl);
    assert(nl@ =~= seq!['\n']);
    string_of(out.as_slice())
}

/// Format as RFC 2483 `text/uri-list` (CRLF-terminated URIs).
pub fn uri_list(paths: &Vec<String>) -> (r: String)
    ensures
        r@ == uri_lines(strings(paths@), seq!['\r', '\n']),
{
    let mut out: Vec<char> = Vec::new();
    let crlf: [char; 2] = ['\r', '\n'];
    push_uri_lines(&mut out, paths, &crlf);
    assert(crlf@ =~= seq!['\r', '\n']);
    assert(out@ =~= uri_lines(strings(paths@), seq!['\r', '\n']));
    string_of(out.as_slice())
}

/// The candidate path of one payload line: a decoded `file://` URI, or an
/// absolute path; blank and `#` lines give none.
pub open spec fn payload_line(line: Seq<char>) -> Option<Seq<char>> {
    let l = trim(line);
    if l.len() == 0 || l[0] == '#' {
        None
    } else {
        match decode_uri_text(l) {
            Some(p) => Some(p),
            None => if l[0] == '/' {
                Some(l)
            } else {
                None
            },
        }
    }
}

pub open spec fn candidates_of(ls: Seq<Seq<char>>) -> Seq<Seq<char>>
    decreases ls.len(),
{
    if ls.len() == 0 {
        Seq::empty()
    } else {
        match payload_line(ls.last()) {
            Some(p) => candidates_of(ls.drop_last()).push(p),
            None => candidates_of(ls.drop_last()),
        }
    }
}

/// Whether the payload is a cut, and the candidate paths it names, in order:
/// a first line `cut` or `copy` sets the action; otherwise every line
/// (starting with the trimmed first one) is a candidate line.
pub open spec fn payload_spec(text: Seq<char>) -> (bool, Seq<Seq<char>>) {
    let ls = lines(trim(text));
    let first = trim(ls[0]);
    if first == "cut"@ {
        (true, candidates_of(ls.drop_first()))
    } else if first == "copy"@ {
        (false, candidates_of(ls.drop_first()))
    } else {
        (false, candidates_of(seq![first] + ls.drop_first()))
    }
}

/// Every path is absolute (non-empty, starting with `/`).
pub open spec fn absolute_paths(ps: Seq<Seq<char>>) -> bool {
    forall|i: int| 0 <= i < ps.len() ==> ps[i].len() > 0 && ps[i][0] == '/'
}

pub open spec fn uri_texts(ps: Seq<Seq<char>>) -> Seq<Seq<char>> {
    ps.map_values(|p: Seq<char>| uri_text(p))
}

proof fn lemma_uri_line(p: Seq<char>)
    requires
        p.len() > 0,
        p[0] == '/',
    ensures
        uri_text(p).len() > 0,
        !is_ws(uri_text(p)[0]),
        !is_ws(uri_text(p).last()),
        forall|i: int| 0 <= i < uri_text(p).len() ==> uri_text(p)[i] != '\n',
        lines(uri_text(p) + seq!['\n']) == seq![uri_text(p)],
        lines(uri_text(p) + seq!['\r', '\n']) == seq![uri_text(p)],
        payload_line(uri_text(p)) == Some(p),
        trim(uri_text(p)) == uri_text(p),
        uri_text(p)[0] == 'f',
{
    lemma_uri_text(p);
    let u = uri_text(p);
    assert(is_ws('\n') && is_ws('\r'));
    assert forall|i: int| 0 <= i < u.len() implies u[i] != '\n' by {
        assert(!is_ws(u[i]));
    }
    assert(!is_ws(u[u.len() - 1]));
    lemma_lines_single(u);
    crate::text::lemma_lines_single_crlf(u);
    lemma_trim_noop(u);
}

proof fn lemma_uri_lines_crlf(ps: Seq<Seq<char>>)
    requires
        absolute_paths(ps),
    ensures
        lines(uri_lines(ps, seq!['\r', '\n'])) == uri_texts(ps),
    decreases ps.len(),
{
    let crlf = seq!['\r', '\n'];
    if ps.len() == 0 {
        assert(lines(uri_lines(ps, crlf)) =~= Seq::<Seq<char>>::empty());
        assert(uri_texts(ps) =~= Seq::<Seq<char>>::empty());
    } else {
        let rest = ps.drop_last();
        let x = uri_lines(rest, crlf);
        let u = uri_text(ps.last());
        lemma_uri_line(ps.last());
        lemma_uri_lines_crlf(rest);
        if rest.len() > 0 {
            assert(x.last() == '\n');
        }
        lemma_lines_append(x, u + crlf);
        assert(uri_lines(ps, crlf) =~= x + (u + crlf));
        assert(uri_texts(ps) =~= uri_texts(rest) + seq![u]);
    }
}

/// Reading back a `text/uri-list` gives its absolute paths, in order, as a
/// copy (a uri-list carries no cut); when all of them exist, pasting keeps
/// every one.
pub proof fn law_uri_list_roundtrip(ps: Seq<Seq<char>>, existing: Seq<Seq<char>>)
    requires
        ps.len() > 0,
        absolute_paths(ps),
        forall|i: int| 0 <= i < ps.len() ==> existing.contains(#[trigger] ps[i]),
    ensures
        payload_spec(uri_lines(ps, seq!['\r', '\n'])) == (false, ps),
        keep_existing(payload_spec(uri_lines(ps, seq!['\r', '\n'])).1, existing) == ps,
{
    reveal_strlit("cut");
    reveal_strlit("copy");
    let crlf = seq!['\r', '\n'];
    let text = uri_lines(ps, crlf);
    let rest = ps.drop_last();
    let x = uri_lines(rest, crlf);
    let u = uri_text(ps.last());
    lemma_uri_line(ps.last());
    lemma_uri_line(ps[0]);
    lemma_keep_all(ps, existing);
    let v = x + u;
    assert(text =~= Seq::<char>::empty() + v + crlf);
    if rest.len() > 0 {
        lemma_uri_line(rest[0]);
        assert(x == uri_lines(rest.drop_last(), crlf) + uri_text(rest.last()) + crlf);
        lemma_uri_lines_first(rest);
        assert(v[0] == x[0]);
    } else {
        assert(x =~= Seq::<char>::empty());
        assert(v[0] == u[0]);
    }
    assert(v.last() == u.last());
    assert(!is_ws('f'));
    lemma_trim_noop(v);
    assert(is_ws('\r') && is_ws('\n'));
    assert forall|i: int| 0 <= i < crlf.len() implies is_ws(crlf[i]) by {}
    lemma_trim_padded(Seq::<char>::empty(), v, crlf);
    lemma_uri_lines_crlf(rest);
    if rest.len() > 0 {
        assert(x.last() == '\n');
    }
    lemma_lines_append(x, u);
    lemma_lines_unbroken(u);
    assert(uri_texts(ps) =~= uri_texts(rest) + seq![u]);
    let ls = lines(trim(text));
    assert(ls =~= uri_texts(ps));
    assert(ls[0] == uri_text(ps[0]));
    let first = trim(ls[0]);
    assert(first == uri_text(ps[0]));
    assert(first != "cut"@ && first != "copy"@);
    assert(seq![first] + ls.drop_first() =~= uri_texts(ps));
    lemma_candidates(ps);
}

proof fn lemma_uri_lines_first(ps: Seq<Seq<char>>)
    requires
        ps.len() > 0,
        absolute_paths(ps),
    ensures
        uri_lines(ps, seq!['\r', '\n']).len() > 0,
        uri_lines(ps, seq!['\r', '\n'])[0] == 'f',
    decreases ps.len(),
{
    let crlf = seq!['\r', '\n'];
    let rest = ps.drop_last();
    lemma_uri_line(ps.last());
    if rest.len() > 0 {
        lemma_uri_lines_first(rest);
        assert(uri_lines(ps, crlf) == uri_lines(rest, crlf) + uri_text(ps.last()) + crlf);
    } else {
        assert(uri_lines(rest, crlf) =~= Seq::<char>::empty());
        assert(uri_lines(ps, crlf) == uri_lines(rest, crlf) + uri_text(ps.last()) + crlf);
    }
}

proof fn lemma_uri_lines(ps: Seq<Seq<char>>)
    requires
        absolute_paths(ps),
    ensures
        lines(uri_lines(ps, seq!['\n'])) == uri_texts(ps),
    decreases ps.len(),
{
    let nl = seq!['\n'];
    if ps.len() == 0 {
        assert(lines(uri_lines(ps, nl)) =~= Seq::<Seq<char>>::empty());
        assert(uri_texts(ps) =~= Seq::<Seq<char>>::empty());
    } else {
        let rest = ps.drop_last();
        let x = uri_lines(rest, nl);
        let u = uri_text(ps.last());
        lemma_uri_line(ps.last());
        lemma_uri_lines(rest);
        if rest.len() > 0 {
            assert(x.last() == '\n');
        }
        lemma_lines_append(x, u + nl);
        assert(uri_lines(ps, nl) =~= x + (u + nl));
        assert(uri_texts(ps) =~= uri_texts(rest) + seq![u]);
    }
}

proof fn lemma_candidates(ps: Seq<Seq<char>>)
    requires
        absolute_paths(ps),
    ensures
        candidates_of(uri_texts(ps)) == ps,
    decreases ps.len(),
{
    if ps.len() == 0 {
        assert(uri_texts(ps) =~= Seq::<Seq<char>>::empty());
        assert(ps =~= Seq::<Seq<char>>::empty());
    } else {
        let m = uri_texts(ps);
        lemma_uri_line(ps.last());
        lemma_candidates(ps.drop_last());
        assert(m.drop_last() =~= uri_texts(ps.drop_last()));
        assert(m.last() == uri_text(ps.last()));
        assert(ps.drop_last().push(ps.last()) =~= ps);
    }
}

proof fn lemma_keep_all(ps: Seq<Seq<char>>, existing: Seq<Seq<char>>)
    requires
        forall|i: int| 0 <= i < ps.len() ==> existing.contains(#[trigger] ps[i]),
    ensures
        keep_existing(ps, existing) == ps,
    decreases ps.len(),
{
    reveal(Seq::filter);
    if ps.len() == 0 {
        assert(keep_existing(ps, existing) =~= ps);
    } else {
        lemma_keep_all(ps.drop_last(), existing);
        assert(existing.contains(ps[ps.len() - 1]));
        assert(ps.drop_last().push(ps.last()) =~= ps);
    }
}

/// Reading back a `x-special/gnome-copied-files` payload gives the action it
/// was written with and its absolute paths, in order; when all of them exist,
/// pasting keeps every one.
pub proof fn law_gnome_payload_roundtrip(ps: Seq<Seq<char>>, cut: bool, existing: Seq<Seq<char>>)
    requires
        absolute_paths(ps),
        forall|i: int| 0 <= i < ps.len() ==> existing.contains(#[trigger] ps[i]),
    ensures
        payload_spec(gnome_payload_spec(ps, cut)) == (cut, ps),
        keep_existing(payload_spec(gnome_payload_spec(ps, cut)).1, existing) == ps,
{
    reveal_strlit("cut");
    reveal_strlit("copy");
    let w = action_word(cut);
    let nl = seq!['\n'];
    let text = gnome_payload_spec(ps, cut);
    assert(w.len() > 0 && !is_ws(w[0]) && !is_ws(w.last()) && w.last() != '\r');
    assert(forall|i: int| 0 <= i < w.len() ==> w[i] != '\n');
    assert(is_ws('\n'));
    lemma_trim_noop(w);
    lemma_keep_all(ps, existing);
    if ps.len() == 0 {
        assert(uri_lines(ps, nl) =~= Seq::<char>::empty());
        assert(text =~= Seq::<char>::empty() + w + nl);
        assert forall|i: int| 0 <= i < nl.len() implies is_ws(nl[i]) by {}
        lemma_trim_padded(Seq::<char>::empty(), w, nl);
        lemma_lines_unbroken(w);
        assert(seq![w].drop_first() =~= Seq::<Seq<char>>::empty());
        assert(candidates_of(Seq::<Seq<char>>::empty()) =~= ps);
        assert(cut ==> w != "copy"@);
        assert(!cut ==> w != "cut"@);
    } else {
        let rest = ps.drop_last();
        let x = uri_lines(rest, nl);
        let u = uri_text(ps.last());
        lemma_uri_line(ps.last());
        let v = w + nl + x + u;
        assert(text =~= Seq::<char>::empty() + v + nl);
        assert(v[0] == w[0]);
        assert(v.last() == u.last());
        lemma_trim_noop(v);
        assert forall|i: int| 0 <= i < nl.len() implies is_ws(nl[i]) by {}
        lemma_trim_padded(Seq::<char>::empty(), v, nl);
        assert(v =~= (w + nl) + (x + u));
        lemma_lines_append(w + nl, x + u);
        lemma_lines_single(w);
        lemma_uri_lines(rest);
        if rest.len() > 0 {
            assert(x.last() == '\n');
        }
        lemma_lines_append(x, u);
        lemma_lines_unbroken(u);
        assert(uri_texts(ps) =~= uri_texts(rest) + seq![u]);
        lemma_candidates(ps);
        let ls = lines(trim(text));
        assert(ls =~= seq![w] + uri_texts(ps));
        assert(ls.drop_first() =~= uri_texts(ps));
        assert(ls[0] == w);
        assert(cut ==> w != "copy"@);
        assert(!cut ==> w != "cut"@);
    }
}

fn payload_line_exec(line: &[char]) -> (r: Option<String>)
    ensures
        match r {
            Some(p) => payload_line(line@) == Some(p@),
            None => payload_line(line@) is None,
        },
{
    let l = trimmed(line);
    if l.len() == 0 || l[0] == '#' {
        return None;
    }
    let ls = string_of(l.as_slice());
    match decode_file_uri(ls.as_str()) {
        Some(p) => Some(p),
        None => if l[0] == '/' {
            Some(ls)
        } else {
            None
        },
    }
}

fn candidates_exec(ls: &Vec<Vec<char>>, from: usize, first: Option<&Vec<char>>) -> (r: Vec<String>)
    requires
        1 <= from <= ls@.len(),
    ensures
        strings(r@) == candidates_of(
            match first {
                Some(f) => seq![f@] + ls@.map_values(|l: Vec<char>| l@).skip(from as int),
                None => ls@.map_values(|l: Vec<char>| l@).skip(from as int),
            },
        ),
{
    let ghost all = match first {
        Some(f) => seq![f@] + ls@.map_values(|l: Vec<char>| l@).skip(from as int),
        None => ls@.map_values(|l: Vec<char>| l@).skip(from as int),
    };
    let mut out: Vec<String> = Vec::new();
    let mut k: usize = 0;
    let offset: usize = match first {
        Some(_) => 1,
        None => 0,
    };
    let n = ls.len();
    let total = offset + (n - from);
    assert(all.len() == total);
    assert(all.take(0) =~= Seq::<Seq<char>>::empty());
    while k < total
        invariant
            k <= total == all.len(),
            n == ls@.len(),
            1 <= from <= ls@.len(),
            offset == (match first { Some(_) => 1usize, None => 0usize }),
            total == offset + (ls@.len() - from),
            all == (match first {
                Some(f) => seq![f@] + ls@.map_values(|l: Vec<char>| l@).skip(from as int),
                None => ls@.map_values(|l: Vec<char>| l@).skip(from as int),
            }),
            strings(out@) == candidates_of(all.take(k as int)),
        decreases total - k,
    {
        let line: &Vec<char> = if k < offset {
            match first {
                Some(f) => f,
                None => &ls[0],
            }
        } else {
            assert(from + (k - offset) < n);
            &ls[from + (k - offset)]
        };
        assert(line@ == all[k as int]);
        assert(all.take(k + 1).drop_last() =~= all.take(k as int));
        match payload_line_exec(line.as_slice()) {
            Some(p) => {
                out.push(p);
                assert(strings(out@) =~= candidates_of(all.take(k as int)).push(payload_line(all[k as int])->0));
            },
            None => {},
        }
        k = k + 1;
    }
    assert(all.take(total as int) =~= all);
    out
}

/// The action and candidate paths of a clipboard payload (before checking
/// which of them exist); `None` for a blank payload.
pub fn payload_candidates(text: &str) -> (r: Option<(bool, Vec<String>)>)
    ensures
        match r {
            Some((cut, ps)) => trim(text@).len() > 0 && payload_spec(text@) == (cut, strings(ps@)),
            None => trim(text@).len() == 0,
        },
{
    let c = chars_of(text);
    let t = trimmed(c.as_slice());
    if t.len() == 0 {
        return None;
    }
    let ls = split_lines(t.as_slice());
    let ghost lv = ls@.map_values(|l: Vec<char>| l@);
    assert(lv.len() > 0) by {
        assert(lines(t@).len() > 0);
    }
    let first = trimmed(ls[0].as_slice());
    assert(lv.skip(1) =~= lv.drop_first());
    if eq_chars(first.as_slice(), chars_of("cut").as_slice()) {
        Some((true, candidates_exec(&ls, 1, None)))
    } else if eq_chars(first.as_slice(), chars_of("copy").as_slice()) {
        Some((false, candidates_exec(&ls, 1, None)))
    } else {
        Some((false, candidates_exec(&ls, 1, Some(&first))))
    }
}

/// The candidates that exist (are listed in `existing`), in order.
pub open spec fn keep_existing(ps: Seq<Seq<char>>, existing: Seq<Seq<char>>) -> Seq<Seq<char>> {
    ps.filter(|p: Seq<char>| existing.contains(p))
}

fn is_listed(p: &String, existing: &[String]) -> (r: bool)
    ensures
        r == strings(existing@).contains(p@),
{
    let mut i: usize = 0;
    while i < existing.len()
        invariant
            i <= existing@.len(),
            forall|j: int| 0 <= j < i ==> existing@[j]@ != p@,
        decreases existing.len() - i,
    {
        if str_eq(existing[i].as_str(), p.as_str()) {
            assert(strings(existing@)[i as int] == p@);
            return true;
        }
        i = i + 1;
    }
    proof {
        if strings(existing@).contains(p@) {
            let j = choose|j: int| 0 <= j < strings(existing@).len() && strings(existing@)[j] == p@;
            assert(existing@[j]@ == p@);
        }
    }
    false
}

/// Parse a clipboard payload: `x-special/gnome-copied-files`, `text/uri-list`
/// or raw paths, keeping the paths listed in `existing`; `None` when none
/// remain.
pub fn parse_payload(text: &str, existing: &[String]) -> (r: Option<(Vec<String>, bool)>)
    ensures
        match r {
            Some((ps, cut)) => trim(text@).len() > 0 && payload_spec(text@).0 == cut && strings(ps@)
                == keep_existing(payload_spec(text@).1, strings(existing@)) && ps@.len() > 0,
            None => trim(text@).len() == 0 || keep_existing(
                payload_spec(text@).1,
                strings(existing@),
            ).len() == 0,
        },
{
    let (cut, cands) = payload_candidates(text)?;
    let ghost cv = strings(cands@);
    let ghost ev = strings(existing@);
    let mut out: Vec<String> = Vec::new();
    let mut i: usize = 0;
    assert(cv.take(0) =~= Seq::<Seq<char>>::empty());
    while i < cands.len()
        invariant
            i <= cands@.len(),
            cv == strings(cands@),
            ev == strings(existing@),
            strings(out@) == cv.take(i as int).filter(|p: Seq<char>| ev.contains(p)),
        decreases cands.len() - i,
    {
        assert(cv.take(i + 1).drop_last() =~= cv.take(i as int));
        let keep = is_listed(&cands[i], existing);
        if keep {
            out.push(cands[i].clone());
            assert(strings(out@) =~= cv.take(i as int).filter(|p: Seq<char>| ev.contains(p)).push(cv[i as int]));
        }
        proof {
            reveal(Seq::filter);
        }
        i = i + 1;
    }
    assert(cv.take(cands@.len() as int) =~= cv);
    if out.len() == 0 {
        None
    } else {
        Some((out, cut))
    }
}

/// Standard file clipboard payload.
#[derive(Debug, Clone, PartialEq, Eq)]
pub struct FileClipboard {
    pub paths: Vec<String>,
    pub cut: bool,
}

impl FileClipboard {
    pub fn new(paths: Vec<String>, cut: bool) -> (c: Self)
        ensures
            c.paths == paths,
            c.cut == cut,
    {
        Self { paths, cut }
    }

    /// Format as `x-special/gnome-copied-files`.
    pub fn to_gnome_copied_files(&self) -> (r: String)
        ensures
            r@ == gnome_payload_spec(strings(self.paths@), self.cut),
    {
        gnome_payload(&self.paths, self.cut)
    }

    /// Format as RFC 2483 `text/uri-list`.
    pub fn to_uri_list(&self) -> (r: String)
        ensures
            r@ == uri_lines(strings(self.paths@), seq!['\r', '\n']),
    {
        uri_list(&self.paths)
    }

    /// Parse a clipboard payload, keeping the paths listed in `existing`.
    pub fn from_text_payload(text: &str, existing: &[String]) -> (r: Option<Self>)
        ensures
            match r {
                Some(c) => trim(text@).len() > 0 && payload_spec(text@).0 == c.cut && strings(
                    c.paths@,
                ) == keep_existing(payload_spec(text@).1, strings(existing@)) && c.paths@.len()
                    > 0,
                None => trim(text@).len() == 0 || keep_existing(
                    payload_spec(text@).1,
                    strings(existing@),
                ).len() == 0,
            },
    {
        match parse_payload(text, existing) {
            Some((paths, cut)) => Some(Self { paths, cut }),
            None => None,
        }
    }
}

} // verus!
