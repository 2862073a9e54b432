//! XDG Desktop Entry files: parsing and `Exec` field-code expansion.
//!
//! Reading the files and spawning programs is the caller's part.
use vstd::prelude::*;
use vstd::utf8::encode_utf8;

use crate::engine::path::{file_name_chars, file_name_spec};
use crate::text::{
    char_is_ws, char_views, chars_of, eq_chars, is_ws, lines, push_all, slice_to_vec, split_all,
    split_chars, split_lines, split_once, split_once_chars, str_eq, string_of, trim, trimmed,
};
use crate::xdg::uri::{ascii_chars, file_uri_bytes};

verus! {

/// A parsed `.desktop` application entry.
#[derive(Debug, Clone, PartialEq, Eq)]
pub struct DesktopEntry {
    pub id: String,
    pub path: String,
    pub name: String,
    pub command: String,
    pub icon: Option<String>,
    pub mime_types: Vec<String>,
    pub terminal: bool,
    pub no_display: bool,
    pub hidden: bool,
}

/// The entry's fields as text.
pub struct EntryView {
    pub id: Seq<char>,
    pub path: Seq<char>,
    pub name: Seq<char>,
    pub command: Seq<char>,
    pub icon: Option<Seq<char>>,
    pub mime_types: Seq<Seq<char>>,
    pub terminal: bool,
    pub no_display: bool,
    pub hidden: bool,
}

pub open spec fn opt_view(o: Option<String>) -> Option<Seq<char>> {
    match o {
        Some(s) => Some(s@),
        None => None,
    }
}

pub open spec fn string_views(v: Seq<String>) -> Seq<Seq<char>> {
    v.map_values(|s: String| s@)
}

impl View for DesktopEntry {
    type V = EntryView;

    open spec fn view(&self) -> EntryView {
        EntryView {
            id: self.id@,
            path: self.path@,
            name: self.name@,
            command: self.command@,
            icon: opt_view(self.icon),
            mime_types: string_views(self.mime_types@),
            terminal: self.terminal,
            no_display: self.no_display,
            hidden: self.hidden,
        }
    }
}

pub fn clone_strings(v: &Vec<String>) -> (r: Vec<String>)
    ensures
        string_views(r@) == string_views(v@),
{
    let mut out: Vec<String> = Vec::new();
    let mut i: usize = 0;
    while i < v.len()
        invariant
            i <= v@.len(),
            string_views(out@) == string_views(v@).take(i as int),
        decreases v.len() - i,
    {
        let ghost prev = string_views(out@);
        out.push(v[i].clone());
        assert(string_views(out@) =~= prev.push(v@[i as int]@));
        assert(string_views(v@).take(i + 1) =~= string_views(v@).take(i as int).push(v@[i as int]@));
        i = i + 1;
    }
    assert(string_views(v@).take(v@.len() as int) =~= string_views(v@));
    out
}

/// A copy of an entry.
pub fn clone_entry(e: &DesktopEntry) -> (r: DesktopEntry)
    ensures
        r@ == e@,
{
    DesktopEntry {
        id: e.id.clone(),
        path: e.path.clone(),
        name: e.name.clone(),
        command: e.command.clone(),
        icon: match &e.icon {
            Some(s) => Some(s.clone()),
            None => None,
        },
        mime_types: clone_strings(&e.mime_types),
        terminal: e.terminal,
        no_display: e.no_display,
        hidden: e.hidden,
    }
}

// ---- Exec tokenising ----

/// Tokeniser state: tokens so far, current token, inside single quotes,
/// inside double quotes, after a backslash.
pub open spec fn tok_step(st: (Seq<Seq<char>>, Seq<char>, bool, bool, bool), ch: char) -> (Seq<Seq<char>>, Seq<char>, bool, bool, bool) {
    let (toks, cur, single, double, esc) = st;
    if esc {
        (toks, cur.push(ch), single, double, false)
    } else if ch == '\\' && !single {
        (toks, cur, single, double, true)
    } else if ch == '\'' && !double {
        (toks, cur, !single, double, false)
    } else if ch == '"' && !single {
        (toks, cur, single, !double, false)
    } else if is_ws(ch) && !single && !double {
        if cur.len() > 0 {
            (toks.push(cur), Seq::empty(), single, double, false)
        } else {
            st
        }
    } else {
        (toks, cur.push(ch), single, double, false)
    }
}

pub open spec fn tok_fold(s: Seq<char>) -> (Seq<Seq<char>>, Seq<char>, bool, bool, bool)
    decreases s.len(),
{
    if s.len() == 0 {
        (Seq::empty(), Seq::empty(), false, false, false)
    } else {
        tok_step(tok_fold(s.drop_last()), s.last())
    }
}

/// The words of an `Exec` value: split at unquoted whitespace, with
/// single and double quotes grouping and a backslash escaping the next
/// character (outside single quotes).
pub open spec fn tokenize_spec(line: Seq<char>) -> Seq<Seq<char>> {
    let st = tok_fold(line);
    if st.1.len() > 0 {
        st.0.push(st.1)
    } else {
        st.0
    }
}

/// Split an `Exec` value into words.
pub fn tokenize_exec(line: &str) -> (r: Vec<String>)
    ensures
        string_views(r@) == tokenize_spec(line@),
{
    let c = chars_of(line);
    let mut toks: Vec<String> = Vec::new();
    let mut cur: Vec<char> = Vec::new();
    let mut single = false;
    let mut double = false;
    let mut esc = false;
    let mut i: usize = 0;
    while i < c.len()
        invariant
            i <= c@.len(),
            c@ == line@,
            tok_fold(c@.take(i as int)) == (string_views(toks@), cur@, single, double, esc),
        decreases c.len() - i,
    {
        let ch = c[i];
        assert(c@.take(i + 1).drop_last() =~= c@.take(i as int));
        assert(c@.take(i + 1).last() == ch);
        let ghost tv = string_views(toks@);
        if esc {
            cur.push(ch);
            esc = false;
        } else if ch == '\\' && !single {
            esc = true;
        } else if ch == '\'' && !double {
            single = !single;
        } else if ch == '"' && !single {
            double = !double;
        } else if char_is_ws(ch) && !single && !double {
            if cur.len() > 0 {
                let t = string_of(cur.as_slice());
                toks.push(t);
                assert(string_views(toks@) =~= tv.push(cur@));
                cur = Vec::new();
            }
        } else {
            cur.push(ch);
        }
        i = i + 1;
    }
    assert(c@.take(c@.len() as int) =~= c@);
    if cur.len() > 0 {
        let ghost tv = string_views(toks@);
        toks.push(string_of(cur.as_slice()));
        assert(string_views(toks@) =~= tv.push(cur@));
    }
    toks
}

// ---- field codes ----

/// The URI of a path as the entry is handed it.
pub open spec fn uri_of(p: Seq<char>) -> Seq<char> {
    ascii_chars(file_uri_bytes(encode_utf8(p)))
}

pub open spec fn uris_of(ps: Seq<Seq<char>>) -> Seq<Seq<char>> {
    Seq::new(ps.len(), |i: int| uri_of(ps[i]))
}

/// A field code: `%` followed by one more byte.
pub open spec fn is_field_code(t: Seq<char>) -> bool {
    t.len() == 2 && t[0] == '%' && (t[1] as u32) < 0x80
}

/// One word of `Exec` with the paths `ps`: what it adds to the command
/// line, and whether it names the targets.
pub open spec fn expand_word(e: EntryView, ps: Seq<Seq<char>>, t: Seq<char>) -> (Seq<Seq<char>>, bool) {
    if t == "%f"@ {
        (if ps.len() > 0 { seq![ps[0]] } else { Seq::empty() }, true)
    } else if t == "%F"@ {
        (ps, true)
    } else if t == "%u"@ {
        (if ps.len() > 0 { seq![uri_of(ps[0])] } else { Seq::empty() }, true)
    } else if t == "%U"@ {
        (uris_of(ps), true)
    } else if t == "%i"@ {
        (match e.icon {
            Some(i) => seq!["--icon"@, i],
            None => Seq::empty(),
        }, false)
    } else if t == "%c"@ {
        (seq![e.name], false)
    } else if t == "%k"@ {
        (seq![e.path], false)
    } else if is_field_code(t) {
        (Seq::empty(), false)
    } else {
        (seq![t], false)
    }
}

pub open spec fn expand_words(e: EntryView, ps: Seq<Seq<char>>, ts: Seq<Seq<char>>) -> (Seq<Seq<char>>, bool)
    decreases ts.len(),
{
    if ts.len() == 0 {
        (Seq::empty(), false)
    } else {
        let (acc, had) = expand_words(e, ps, ts.drop_last());
        let (w, h) = expand_word(e, ps, ts.last());
        (acc + w, had || h)
    }
}

/// The command line for opening `ps` with entry `e`: its `Exec` words with
/// field codes expanded, and the paths appended when no code named them.
pub open spec fn format_exec_spec(e: EntryView, ps: Seq<Seq<char>>) -> Seq<Seq<char>> {
    let (out, had) = expand_words(e, ps, tokenize_spec(e.command));
    if !had && ps.len() > 0 {
        out + ps
    } else {
        out
    }
}

/// Every word of `ws` is plain text, not a field code.
pub open spec fn plain_words(ws: Seq<Seq<char>>) -> bool {
    forall|j: int| 0 <= j < ws.len() ==> !is_field_code(#[trigger] ws[j])
}

proof fn lemma_codes_are_field_codes()
    ensures
        is_field_code("%f"@),
        is_field_code("%F"@),
        is_field_code("%u"@),
        is_field_code("%U"@),
        is_field_code("%i"@),
        is_field_code("%c"@),
        is_field_code("%k"@),
{
    reveal_strlit("%f");
    reveal_strlit("%F");
    reveal_strlit("%u");
    reveal_strlit("%U");
    reveal_strlit("%i");
    reveal_strlit("%c");
    reveal_strlit("%k");
}

proof fn lemma_plain_words(e: EntryView, ps: Seq<Seq<char>>, ws: Seq<Seq<char>>)
    requires
        plain_words(ws),
    ensures
        expand_words(e, ps, ws) == (ws, false),
    decreases ws.len(),
{
    if ws.len() > 0 {
        lemma_codes_are_field_codes();
        assert(plain_words(ws.drop_last()));
        lemma_plain_words(e, ps, ws.drop_last());
        assert(!is_field_code(ws.last()));
        assert(expand_word(e, ps, ws.last()) == (seq![ws.last()], false));
        assert(ws.drop_last() + seq![ws.last()] =~= ws);
    }
}

proof fn lemma_single_word(e: EntryView, ps: Seq<Seq<char>>, t: Seq<char>)
    ensures
        expand_words(e, ps, seq![t]) == expand_word(e, ps, t),
{
    let z = Seq::<Seq<char>>::empty();
    assert(seq![t].drop_last() =~= z);
    assert(seq![t].last() == t);
    assert(expand_words(e, ps, z) == (z, false));
    assert(z + expand_word(e, ps, t).0 =~= expand_word(e, ps, t).0);
    assert(expand_words(e, ps, seq![t]) == (expand_words(e, ps, z).0 + expand_word(e, ps, t).0, expand_words(e, ps, z).1
        || expand_word(e, ps, t).1));
}

proof fn lemma_words_concat(e: EntryView, ps: Seq<Seq<char>>, a: Seq<Seq<char>>, b: Seq<Seq<char>>)
    ensures
        expand_words(e, ps, a + b) == (expand_words(e, ps, a).0 + expand_words(e, ps, b).0, expand_words(e, ps, a).1
            || expand_words(e, ps, b).1),
    decreases b.len(),
{
    if b.len() == 0 {
        assert(a + b =~= a);
        assert(expand_words(e, ps, a).0 + Seq::<Seq<char>>::empty() =~= expand_words(e, ps, a).0);
    } else {
        lemma_words_concat(e, ps, a, b.drop_last());
        assert((a + b).drop_last() =~= a + b.drop_last());
        assert((a + b).last() == b.last());
        let wa = expand_words(e, ps, a).0;
        let wb = expand_words(e, ps, b.drop_last()).0;
        let wl = expand_word(e, ps, b.last()).0;
        assert(wa + wb + wl =~= wa + (wb + wl));
    }
}

/// An `Exec` line whose only field code is one word `%u` opens the first
/// path through its `file://` URI: the word is replaced by the URI that
/// [`crate::xdg::uri::encode_file_uri`] gives for it, which starts with
/// `file://` and decodes back to the path; the other words stay and no path
/// is appended. Without a path the word is dropped.
pub proof fn law_exec_uri_code(e: EntryView, ps: Seq<Seq<char>>, a: Seq<Seq<char>>, b: Seq<Seq<char>>)
    requires
        tokenize_spec(e.command) == a + seq!["%u"@] + b,
        plain_words(a),
        plain_words(b),
    ensures
        ps.len() > 0 ==> format_exec_spec(e, ps) == a + seq![uri_of(ps[0])] + b,
        ps.len() > 0 ==> uri_of(ps[0]).take(7) == "file://"@,
        ps.len() > 0 ==> crate::arca_core::bookmarks::decode_uri_text(uri_of(ps[0])) == Some(ps[0]),
        ps.len() == 0 ==> format_exec_spec(e, ps) == a + b,
{
    lemma_codes_are_field_codes();
    lemma_plain_words(e, ps, a);
    lemma_plain_words(e, ps, b);
    lemma_words_concat(e, ps, a + seq!["%u"@], b);
    lemma_words_concat(e, ps, a, seq!["%u"@]);
    lemma_single_word(e, ps, "%u"@);
    reveal_strlit("%f");
    reveal_strlit("%F");
    reveal_strlit("%u");
    if ps.len() > 0 {
        assert(expand_word(e, ps, "%u"@) == (seq![uri_of(ps[0])], true));
        crate::arca_core::bookmarks::lemma_uri_text(ps[0]);
        reveal_strlit("file://");
        assert(uri_of(ps[0]).take(7) =~= "file://"@);
    } else {
        assert(expand_word(e, ps, "%u"@).0 =~= Seq::<Seq<char>>::empty());
        assert(a + Seq::<Seq<char>>::empty() =~= a);
    }
}

/// An `Exec` line whose only field code is one word `%U` gets the `file://`
/// URIs of all the paths, in order, in place of that word.
pub proof fn law_exec_uri_list_code(e: EntryView, ps: Seq<Seq<char>>, a: Seq<Seq<char>>, b: Seq<Seq<char>>)
    requires
        tokenize_spec(e.command) == a + seq!["%U"@] + b,
        plain_words(a),
        plain_words(b),
    ensures
        ({
            let out = format_exec_spec(e, ps);
            &&& out.len() == a.len() + ps.len() + b.len()
            &&& out.take(a.len() as int) == a
            &&& out.skip((a.len() + ps.len()) as int) == b
            &&& forall|j: int| 0 <= j < ps.len() ==> #[trigger] out[a.len() + j] == uri_of(ps[j])
                && crate::arca_core::bookmarks::decode_uri_text(out[a.len() + j]) == Some(ps[j])
        }),
{
    lemma_codes_are_field_codes();
    lemma_plain_words(e, ps, a);
    lemma_plain_words(e, ps, b);
    lemma_words_concat(e, ps, a + seq!["%U"@], b);
    lemma_words_concat(e, ps, a, seq!["%U"@]);
    lemma_single_word(e, ps, "%U"@);
    reveal_strlit("%f");
    reveal_strlit("%F");
    reveal_strlit("%u");
    reveal_strlit("%U");
    assert(expand_word(e, ps, "%U"@) == (uris_of(ps), true));
    let out = format_exec_spec(e, ps);
    assert(out == a + uris_of(ps) + b);
    assert(out.take(a.len() as int) =~= a);
    assert(out.skip((a.len() + ps.len()) as int) =~= b);
    assert forall|j: int| 0 <= j < ps.len() implies #[trigger] out[a.len() + j] == uri_of(ps[j])
        && crate::arca_core::bookmarks::decode_uri_text(out[a.len() + j]) == Some(ps[j]) by {
        crate::arca_core::bookmarks::lemma_uri_text(ps[j]);
    }
}

/// An `Exec` line whose only field code is one word `%f` gets the first
/// path itself in place of that word (nothing without a path); `%F` gets
/// all the paths, in order. No path is appended after the line.
pub proof fn law_exec_path_codes(e: EntryView, ps: Seq<Seq<char>>, a: Seq<Seq<char>>, b: Seq<Seq<char>>, code: Seq<char>)
    requires
        code == "%f"@ || code == "%F"@,
        tokenize_spec(e.command) == a + seq![code] + b,
        plain_words(a),
        plain_words(b),
    ensures
        code == "%f"@ ==> format_exec_spec(e, ps) == a + ps.take(if ps.len() > 0 { 1int } else { 0int }) + b,
        code == "%F"@ ==> format_exec_spec(e, ps) == a + ps + b,
{
    lemma_codes_are_field_codes();
    lemma_plain_words(e, ps, a);
    lemma_plain_words(e, ps, b);
    lemma_words_concat(e, ps, a + seq![code], b);
    lemma_words_concat(e, ps, a, seq![code]);
    lemma_single_word(e, ps, code);
    reveal_strlit("%f");
    reveal_strlit("%F");
    if code == "%f"@ {
        if ps.len() > 0 {
            assert(ps.take(1) =~= seq![ps[0]]);
        } else {
            assert(ps.take(0) =~= Seq::<Seq<char>>::empty());
        }
    }
}

/// An `Exec` line without field codes gets the paths appended, in order.
pub proof fn law_exec_appends_paths(e: EntryView, ps: Seq<Seq<char>>)
    requires
        plain_words(tokenize_spec(e.command)),
    ensures
        format_exec_spec(e, ps) == tokenize_spec(e.command) + ps,
{
    lemma_plain_words(e, ps, tokenize_spec(e.command));
    assert(tokenize_spec(e.command) + Seq::<Seq<char>>::empty() =~= tokenize_spec(e.command));
}

fn append_all(out: &mut Vec<String>, items: &Vec<String>)
    ensures
        string_views(final(out)@) == string_views(old(out)@) + string_views(items@),
{
    let ghost base = string_views(out@);
    let mut i: usize = 0;
    while i < items.len()
        invariant
            i <= items@.len(),
            string_views(out@) == base + string_views(items@).take(i as int),
        decreases items.len() - i,
    {
        let ghost prev = string_views(out@);
        out.push(items[i].clone());
        assert(string_views(out@) =~= prev.push(items@[i as int]@));
        assert(string_views(items@).take(i + 1) =~= string_views(items@).take(i as int).push(items@[i as int]@));
        assert(string_views(out@) =~= base + string_views(items@).take(i + 1));
        i = i + 1;
    }
    assert(string_views(items@).take(items@.len() as int) =~= string_views(items@));
}

fn field(t: &str, code: &str) -> (r: bool)
    ensures
        r == (t@ == code@),
{
    str_eq(t, code)
}

impl DesktopEntry {
    /// The command line for opening `paths` with this application: `%f`,
    /// `%F`, `%u`, `%U`, `%i`, `%c` and `%k` expanded, other field codes
    /// dropped, and the paths appended when no code names them.
    pub fn format_exec(&self, paths: &[String]) -> (r: Vec<String>)
        ensures
            string_views(r@) == format_exec_spec(self@, string_views(paths@)),
    {
        let ghost ps = string_views(paths@);
        let tokens = tokenize_exec(self.command.as_str());
        let mut all_paths: Vec<String> = Vec::new();
        let mut all_uris: Vec<String> = Vec::new();
        let mut k: usize = 0;
        while k < paths.len()
            invariant
                k <= paths@.len(),
                ps == string_views(paths@),
                string_views(all_paths@) == ps.take(k as int),
                string_views(all_uris@) == uris_of(ps.take(k as int)),
            decreases paths.len() - k,
        {
            let ghost pp = string_views(all_paths@);
            let ghost pu = string_views(all_uris@);
            all_paths.push(paths[k].clone());
            let u = crate::xdg::uri::encode_file_uri(paths[k].as_str());
            assert(u@ == uri_of(ps[k as int]));
            all_uris.push(u);
            assert(string_views(all_paths@) =~= pp.push(ps[k as int]));
            assert(ps.take(k + 1) =~= ps.take(k as int).push(ps[k as int]));
            assert(string_views(all_paths@) =~= ps.take(k + 1));
            assert(string_views(all_uris@) =~= pu.push(uri_of(ps[k as int])));
            assert(string_views(all_uris@) =~= uris_of(ps.take(k + 1)));
            k = k + 1;
        }
        assert(ps.take(paths@.len() as int) =~= ps);
        let ghost tv = string_views(tokens@);
        let mut result: Vec<String> = Vec::new();
        let mut had = false;
        let mut j: usize = 0;
        while j < tokens.len()
            invariant
                j <= tokens@.len(),
                tv == string_views(tokens@),
                tv == tokenize_spec(self.command@),
                ps == string_views(paths@),
                string_views(all_paths@) == ps,
                string_views(all_uris@) == uris_of(ps),
                all_uris@.len() == paths@.len(),
                expand_words(self@, ps, tv.take(j as int)) == (string_views(result@), had),
            decreases tokens.len() - j,
        {
            assert(tv.take(j + 1).drop_last() =~= tv.take(j as int));
            let t = tokens[j].as_str();
            let ghost before = string_views(result@);
            let ghost tw = tv[j as int];
            assert(tv.take(j + 1).last() == tw);
            assert(t@ == tw);
            proof {
                reveal_strlit("%f");
                reveal_strlit("%F");
                reveal_strlit("%u");
                reveal_strlit("%U");
                reveal_strlit("%i");
                reveal_strlit("%c");
                reveal_strlit("%k");
            }
            if field(t, "%f") {
                had = true;
                if paths.len() > 0 {
                    result.push(paths[0].clone());
                    assert(string_views(result@) =~= before + seq![ps[0]]);
                } else {
                    assert(string_views(result@) =~= before + Seq::<Seq<char>>::empty());
                }
            } else if field(t, "%F") {
                had = true;
                append_all(&mut result, &all_paths);
            } else if field(t, "%u") {
                had = true;
                if paths.len() > 0 {
                    assert(string_views(all_uris@)[0] == uri_of(ps[0]));
                    assert(all_uris@[0]@ == uri_of(ps[0]));
                    result.push(all_uris[0].clone());
                    assert(string_views(result@) =~= before + seq![uri_of(ps[0])]);
                } else {
                    assert(string_views(result@) =~= before + Seq::<Seq<char>>::empty());
                }
            } else if field(t, "%U") {
                had = true;
                append_all(&mut result, &all_uris);
            } else if field(t, "%i") {
                match &self.icon {
                    Some(icon) => {
                        result.push(String::from_str("--icon"));
                        result.push(icon.clone());
                        assert(string_views(result@) =~= before + seq!["--icon"@, icon@]);
                    },
                    None => {
                        assert(string_views(result@) =~= before + Seq::<Seq<char>>::empty());
                    },
                }
            } else if field(t, "%c") {
                result.push(self.name.clone());
                assert(string_views(result@) =~= before + seq![self.name@]);
            } else if field(t, "%k") {
                result.push(self.path.clone());
                assert(string_views(result@) =~= before + seq![self.path@]);
            } else {
                let tc = chars_of(t);
                if tc.len() == 2 && tc[0] == '%' && (tc[1] as u32) < 0x80 {
                    assert(is_field_code(tw));
                    assert(string_views(result@) =~= before + Seq::<Seq<char>>::empty());
                } else {
                    assert(!is_field_code(tw));
                    result.push(tokens[j].clone());
                    assert(string_views(result@) =~= before + seq![tw]);
                }
            }
            j = j + 1;
        }
        assert(tv.take(tokens@.len() as int) =~= tv);
        if !had && paths.len() > 0 {
            append_all(&mut result, &all_paths);
        }
        result
    }
}

// ---- parsing ----

/// What a scan of a desktop file has seen so far.
pub struct Scan {
    pub in_entry: bool,
    pub name: Option<Seq<char>>,
    pub command: Option<Seq<char>>,
    pub icon: Option<Seq<char>>,
    pub mimes: Seq<Seq<char>>,
    pub terminal: bool,
    pub no_display: bool,
    pub hidden: bool,
    pub kind: Option<Seq<char>>,
}

/// The non-empty trimmed pieces of a `;`-separated list.
pub open spec fn list_items(v: Seq<char>) -> Seq<Seq<char>> {
    nonempty_trimmed(split_all(v, ';'))
}

pub open spec fn nonempty_trimmed(ps: Seq<Seq<char>>) -> Seq<Seq<char>>
    decreases ps.len(),
{
    if ps.len() == 0 {
        Seq::empty()
    } else if trim(ps.last()).len() > 0 {
        nonempty_trimmed(ps.drop_last()).push(trim(ps.last()))
    } else {
        nonempty_trimmed(ps.drop_last())
    }
}

/// One line of a desktop file: group headers switch groups; inside
/// `[Desktop Entry]`, `key=value` lines set the known keys (the first
/// `Name` wins; later values of the other keys replace earlier ones).
pub open spec fn scan_step(s: Scan, line: Seq<char>) -> Scan {
    let l = trim(line);
    if l.len() == 0 || l[0] == '#' {
        s
    } else if l[0] == '[' && l.last() == ']' {
        Scan { in_entry: l == "[Desktop Entry]"@, ..s }
    } else if !s.in_entry {
        s
    } else {
        match split_once(l, '=') {
            None => s,
            Some((k0, v0)) => {
                let (k, v) = (trim(k0), trim(v0));
                if k == "Type"@ {
                    Scan { kind: Some(v), ..s }
                } else if k == "Name"@ && s.name is None {
                    Scan { name: Some(v), ..s }
                } else if k == "Exec"@ {
                    Scan { command: Some(v), ..s }
                } else if k == "Icon"@ {
                    Scan { icon: Some(v), ..s }
                } else if k == "Terminal"@ {
                    Scan { terminal: v == "true"@, ..s }
                } else if k == "NoDisplay"@ {
                    Scan { no_display: v == "true"@, ..s }
                } else if k == "Hidden"@ {
                    Scan { hidden: v == "true"@, ..s }
                } else if k == "MimeType"@ {
                    Scan { mimes: list_items(v), ..s }
                } else {
                    s
                }
            },
        }
    }
}

pub open spec fn scan_lines(ls: Seq<Seq<char>>) -> Scan
    decreases ls.len(),
{
    if ls.len() == 0 {
        Scan {
            in_entry: false,
            name: None,
            command: None,
            icon: None,
            mimes: Seq::empty(),
            terminal: false,
            no_display: false,
            hidden: false,
            kind: None,
        }
    } else {
        scan_step(scan_lines(ls.drop_last()), ls.last())
    }
}

/// The entry a desktop file at `path` with `content` describes: an
/// `Application` with a name and a command; its id is the file name.
pub open spec fn parse_spec(path: Seq<char>, content: Seq<char>) -> Option<EntryView> {
    let s = scan_lines(lines(content));
    match (file_name_spec(path), s.kind, s.name, s.command) {
        (Some(id), Some(k), Some(n), Some(x)) => if k == "Application"@ {
            Some(
                EntryView {
                    id,
                    path,
                    name: n,
                    command: x,
                    icon: s.icon,
                    mime_types: s.mimes,
                    terminal: s.terminal,
                    no_display: s.no_display,
                    hidden: s.hidden,
                },
            )
        } else {
            None
        },
        _ => None,
    }
}

/// The non-empty trimmed items of a `;`-separated list.
pub fn split_list(v: &[char]) -> (r: Vec<String>)
    ensures
        string_views(r@) == list_items(v@),
{
    let ps = split_chars(v, ';');
    let ghost pv = char_views(ps@);
    let mut out: Vec<String> = Vec::new();
    let mut i: usize = 0;
    while i < ps.len()
        invariant
            i <= ps@.len(),
            pv == char_views(ps@),
            pv == split_all(v@, ';'),
            string_views(out@) == nonempty_trimmed(pv.take(i as int)),
        decreases ps.len() - i,
    {
        assert(pv.take(i + 1).drop_last() =~= pv.take(i as int));
        let t = trimmed(ps[i].as_slice());
        if t.len() > 0 {
            let ghost prev = string_views(out@);
            out.push(string_of(t.as_slice()));
            assert(string_views(out@) =~= prev.push(t@));
        }
        i = i + 1;
    }
    assert(pv.take(ps@.len() as int) =~= pv);
    out
}

/// The directories searched for desktop files, in order: `applications` in
/// each data dir, then in the data home (later ones win).
pub open spec fn application_dirs_spec(data_home: Seq<char>, data_dirs: Seq<Seq<char>>) -> Seq<
    Seq<char>,
> {
    Seq::new(data_dirs.len(), |i: int| crate::xdg::base::path_join_spec(data_dirs[i], "applications"@)).push(
        crate::xdg::base::path_join_spec(data_home, "applications"@),
    )
}

/// The directories searched for desktop files (see
/// [`application_dirs_spec`]).
pub fn application_dirs(data_home: &str, data_dirs: &Vec<String>) -> (r: Vec<String>)
    ensures
        string_views(r@) == application_dirs_spec(data_home@, string_views(data_dirs@)),
{
    let ghost dd = string_views(data_dirs@);
    let mut out: Vec<String> = Vec::new();
    let mut i: usize = 0;
    while i < data_dirs.len()
        invariant
            i <= data_dirs@.len(),
            dd == string_views(data_dirs@),
            string_views(out@) == Seq::new(
                i as nat,
                |k: int| crate::xdg::base::path_join_spec(dd[k], "applications"@),
            ),
        decreases data_dirs.len() - i,
    {
        let ghost before = string_views(out@);
        out.push(crate::xdg::base::path_join(data_dirs[i].as_str(), "applications"));
        assert(string_views(out@) =~= before.push(
            crate::xdg::base::path_join_spec(dd[i as int], "applications"@),
        ));
        assert(string_views(out@) =~= Seq::new(
            (i + 1) as nat,
            |k: int| crate::xdg::base::path_join_spec(dd[k], "applications"@),
        ));
        i = i + 1;
    }
    let ghost before = string_views(out@);
    out.push(crate::xdg::base::path_join(data_home, "applications"));
    assert(string_views(out@) =~= before.push(
        crate::xdg::base::path_join_spec(data_home@, "applications"@),
    ));
    out
}

/// The position of the application with `id`, if any.
pub open spec fn app_index(apps: Seq<EntryView>, id: Seq<char>, i: int) -> Option<int>
    decreases apps.len() - i,
{
    if i < 0 || i >= apps.len() {
        None
    } else if apps[i].id == id {
        Some(i)
    } else {
        app_index(apps, id, i + 1)
    }
}

/// The applications after finding the desktop file `path` holding
/// `content`: a `.desktop` file that parses into an entry not marked hidden
/// takes the place of the application with its id, or joins the list.
pub open spec fn discovered_spec(apps: Seq<EntryView>, path: Seq<char>, content: Seq<char>) -> Seq<
    EntryView,
> {
    if crate::lantern::chooser::path_extension(path) == Some("desktop"@) {
        match parse_spec(path, content) {
            Some(a) => if a.hidden {
                apps
            } else {
                match app_index(apps, a.id, 0) {
                    Some(k) => apps.update(k, a),
                    None => apps.push(a),
                }
            },
            None => apps,
        }
    } else {
        apps
    }
}

/// Take in the desktop file `path` with `content` (see [`discovered_spec`]).
pub fn add_discovered(apps: &mut Vec<DesktopEntry>, path: &str, content: &str)
    ensures
        final(apps)@.map_values(|e: DesktopEntry| e@) == discovered_spec(
            old(apps)@.map_values(|e: DesktopEntry| e@),
            path@,
            content@,
        ),
{
    let ghost av = apps@.map_values(|e: DesktopEntry| e@);
    let is_desktop = match crate::lantern::chooser::path_extension_exec(path) {
        Some(e) => eq_chars(e.as_slice(), chars_of("desktop").as_slice()),
        None => false,
    };
    if !is_desktop {
        return;
    }
    let app = match parse_desktop_file(path, content) {
        Some(a) => a,
        None => {
            return;
        },
    };
    if app.hidden {
        return;
    }
    let mut i: usize = 0;
    while i < apps.len()
        invariant
            i <= apps@.len(),
            av == apps@.map_values(|e: DesktopEntry| e@),
            av == old(apps)@.map_values(|e: DesktopEntry| e@),
            app_index(av, app@.id, 0) == app_index(av, app@.id, i as int),
            crate::lantern::chooser::path_extension(path@) == Some("desktop"@),
            parse_spec(path@, content@) == Some(app@),
            !app.hidden,
        decreases apps.len() - i,
    {
        assert(av[i as int] == apps@[i as int]@);
        if str_eq(apps[i].id.as_str(), app.id.as_str()) {
            assert(av[i as int].id == app@.id);
            assert(app_index(av, app@.id, i as int) == Some(i as int));
            let ghost a = app@;
            apps.set(i, app);
            assert(apps@.map_values(|e: DesktopEntry| e@) =~= av.update(i as int, a));
            return;
        }
        i = i + 1;
    }
    let ghost a = app@;
    apps.push(app);
    assert(apps@.map_values(|e: DesktopEntry| e@) =~= av.push(a));
}

/// Parse the `content` of the desktop file at `path`.
pub fn parse_desktop_file(path: &str, content: &str) -> (r: Option<DesktopEntry>)
    ensures
        match r {
            Some(e) => parse_spec(path@, content@) == Some(e@),
            None => parse_spec(path@, content@) is None,
        },
{
    let c = chars_of(content);
    let ls = split_lines(c.as_slice());
    let ghost lv = ls@.map_values(|l: Vec<char>| l@);
    let mut in_entry = false;
    let mut name: Option<Vec<char>> = None;
    let mut command: Option<Vec<char>> = None;
    let mut icon: Option<Vec<char>> = None;
    let mut mimes: Vec<String> = Vec::new();
    let mut terminal = false;
    let mut no_display = false;
    let mut hidden = false;
    let mut kind: Option<Vec<char>> = None;
    let mut k: usize = 0;
    proof {
        reveal_strlit("[Desktop Entry]");
        reveal_strlit("true");
    }
    assert(lv.take(0) =~= Seq::<Seq<char>>::empty());
    assert(string_views(mimes@) =~= Seq::<Seq<char>>::empty());
    while k < ls.len()
        invariant
            k <= ls@.len(),
            lv == ls@.map_values(|l: Vec<char>| l@),
            lv == lines(content@),
            scan_lines(lv.take(k as int)) == (Scan {
                in_entry,
                name: match name { Some(v) => Some(v@), None => None },
                command: match command { Some(v) => Some(v@), None => None },
                icon: match icon { Some(v) => Some(v@), None => None },
                mimes: string_views(mimes@),
                terminal,
                no_display,
                hidden,
                kind: match kind { Some(v) => Some(v@), None => None },
            }),
        decreases ls.len() - k,
    {
        assert(lv.take(k + 1).drop_last() =~= lv.take(k as int));
        assert(lv.take(k + 1).last() == ls@[k as int]@);
        let l = trimmed(ls[k].as_slice());
        let n = l.len();
        if n == 0 || l[0] == '#' {
        } else if l[0] == '[' && l[n - 1] == ']' {
            in_entry = eq_chars(l.as_slice(), chars_of("[Desktop Entry]").as_slice());
        } else if !in_entry {
        } else {
            match split_once_chars(l.as_slice(), '=') {
                None => {},
                Some((k0, v0)) => {
                    let kt = trimmed(k0.as_slice());
                    let v = trimmed(v0.as_slice());
                    let ks = string_of(kt.as_slice());
                    let key = ks.as_str();
                    let is_true = eq_chars(v.as_slice(), chars_of("true").as_slice());
                    if str_eq(key, "Type") {
                        kind = Some(v);
                    } else if str_eq(key, "Name") && name.is_none() {
                        name = Some(v);
                    } else if str_eq(key, "Exec") {
                        command = Some(v);
                    } else if str_eq(key, "Icon") {
                        icon = Some(v);
                    } else if str_eq(key, "Terminal") {
                        terminal = is_true;
                    } else if str_eq(key, "NoDisplay") {
                        no_display = is_true;
                    } else if str_eq(key, "Hidden") {
                        hidden = is_true;
                    } else if str_eq(key, "MimeType") {
                        mimes = split_list(v.as_slice());
                    }
                },
            }
        }
        k = k + 1;
    }
    assert(lv.take(ls@.len() as int) =~= lv);
    let pc = chars_of(path);
    let id = match file_name_chars(pc.as_slice()) {
        Some(id) => id,
        None => {
            return None;
        },
    };
    let is_app = match &kind {
        Some(t) => eq_chars(t.as_slice(), chars_of("Application").as_slice()),
        None => false,
    };
    if !is_app {
        return None;
    }
    match (name, command) {
        (Some(n), Some(x)) => Some(
            DesktopEntry {
                id: string_of(id.as_slice()),
                path: string_of(pc.as_slice()),
                name: string_of(n.as_slice()),
                command: string_of(x.as_slice()),
                icon: match icon {
                    Some(i) => Some(string_of(i.as_slice())),
                    None => None,
                },
                mime_types: mimes,
                terminal,
                no_display,
                hidden,
            },
        ),
        _ => None,
    }
}

/// How an entry is launched for `ps`: `None` for an empty command line;
/// else the program and its arguments, through `terminal -e` for terminal
/// applications.
pub open spec fn launch_spec(e: EntryView, ps: Seq<Seq<char>>, terminal: Seq<char>) -> Option<(Seq<char>, Seq<Seq<char>>)> {
    let args = format_exec_spec(e, ps);
    if args.len() == 0 {
        None
    } else if e.terminal {
        Some((terminal, seq!["-e"@] + args))
    } else {
        Some((args[0], args.drop_first()))
    }
}

impl DesktopEntry {
    /// The program and arguments that start this application on `paths`;
    /// `terminal` is `$TERMINAL` (`foot` when unset). Starting the process is
    /// the caller's part.
    pub fn launch_command(&self, paths: &[String], terminal: Option<&str>) -> (r: Result<(String, Vec<String>), String>)
        ensures
            match r {
                Ok((prog, args)) => launch_spec(
                    self@,
                    string_views(paths@),
                    match terminal {
                        Some(t) => t@,
                        None => "foot"@,
                    },
                ) == Some((prog@, string_views(args@))),
                Err(e) => launch_spec(
                    self@,
                    string_views(paths@),
                    match terminal {
                        Some(t) => t@,
                        None => "foot"@,
                    },
                ) is None && e@ == "empty exec command"@,
            },
    {
        let args = self.format_exec(paths);
        if args.len() == 0 {
            return Err(String::from_str("empty exec command"));
        }
        let ghost av = string_views(args@);
        if self.terminal {
            let prog = match terminal {
                Some(t) => String::from_str(t),
                None => String::from_str("foot"),
            };
            let mut out: Vec<String> = Vec::new();
            out.push(String::from_str("-e"));
            assert(string_views(out@) =~= seq!["-e"@]);
            let mut i: usize = 0;
            while i < args.len()
                invariant
                    i <= args@.len(),
                    av == string_views(args@),
                    string_views(out@) == seq!["-e"@] + av.take(i as int),
                decreases args.len() - i,
            {
                let ghost prev = string_views(out@);
                out.push(args[i].clone());
                assert(string_views(out@) =~= prev.push(av[i as int]));
                assert(av.take(i + 1) =~= av.take(i as int).push(av[i as int]));
                i = i + 1;
            }
            assert(av.take(args@.len() as int) =~= av);
            Ok((prog, out))
        } else {
            let prog = args[0].clone();
            let mut out: Vec<String> = Vec::new();
            let mut i: usize = 1;
            assert(string_views(out@) =~= av.subrange(1, 1));
            while i < args.len()
                invariant
                    1 <= i <= args@.len(),
                    av == string_views(args@),
                    string_views(out@) == av.subrange(1, i as int),
                decreases args.len() - i,
            {
                let ghost prev = string_views(out@);
                out.push(args[i].clone());
                assert(string_views(out@) =~= prev.push(av[i as int]));
                assert(av.subrange(1, i + 1) =~= av.subrange(1, i as int).push(av[i as int]));
                i = i + 1;
            }
            assert(av.subrange(1, av.len() as int) =~= av.drop_first());
            Ok((prog, out))
        }
    }
}

} // verus!
