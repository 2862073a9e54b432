//! Freedesktop Trash specification: roots, `.trashinfo` metadata and the
//! naming rules for trashed and restored items.
//!
//! Moving files is I/O done by the caller; this module computes the names,
//! the metadata text and the order in which items are listed.
use vstd::prelude::*;

use crate::engine::path::{
    file_name_chars, file_name_spec, join, join_spec, parent_chars, path_parent_spec,
};
use crate::lantern::chooser::{path_extension, path_extension_exec};
use crate::xdg::base::{path_join, path_join_spec};
use crate::text::{
    lemma_lexord_antisym, lemma_lexord_trans, lex_compare, lexord,
    chars_of, is_prefix, is_ws, lemma_lines_append, lemma_lines_single, lemma_trim_noop, lines,
    push_all, push_str, slice_to_vec, split_lines, starts_with, str_eq, string_of, trim, trimmed,
};
use crate::naming::{first_free, first_free_name, NameFamily};
use crate::xdg::uri::{
    ascii_chars, lemma_decode_encode, lemma_encode_ascii, pct_decode, pct_decode_from, pct_encode,
};

verus! {

broadcast use vstd::seq_lib::group_to_multiset_ensures;

/// Information about an item in the trash.
#[derive(Debug, Clone, PartialEq, Eq)]
pub struct TrashItem {
    pub id: String,
    pub original_name: String,
    pub original_path: String,
    pub deletion_date: String,
    pub file_path: String,
    pub info_path: String,
    pub is_dir: bool,
    pub size: u64,
}

/// The home trash root: `Trash` under the data home (`$XDG_DATA_HOME`).
pub fn home_trash_root(data_home: &str) -> (r: String)
    ensures
        r@ == join_spec(data_home@, "Trash"@),
{
    join(data_home, "Trash")
}

/// Compatibility alias for the home trash root.
pub fn trash_root(data_home: &str) -> (r: String)
    ensures
        r@ == join_spec(data_home@, "Trash"@),
{
    home_trash_root(data_home)
}

/// The `.trashinfo` text recording `original` (percent-encoded) and the date.
pub open spec fn trashinfo_text(original: Seq<u8>, date: Seq<char>) -> Seq<char> {
    "[Trash Info]\nPath="@ + ascii_chars(pct_encode(original)) + "\nDeletionDate="@ + date + "\n"@
}

/// The `.trashinfo` content for an item whose absolute original path is
/// `original`, deleted at `deletion_date` (`YYYY-MM-DDTHH:MM:SS`).
pub fn trashinfo_content(original: &str, deletion_date: &str) -> (r: String)
    ensures
        r@ == trashinfo_text(vstd::utf8::encode_utf8(original@), deletion_date@),
{
    let mut out = chars_of("[Trash Info]\nPath=");
    let enc = crate::xdg::uri::encode_file_uri(original);
    let ec = chars_of(enc.as_str());
    proof {
        reveal_strlit("file://");
    }
    let body = slice_to_vec(ec.as_slice(), 7, ec.len());
    assert(body@ =~= ascii_chars(pct_encode(vstd::utf8::encode_utf8(original@))));
    push_all(&mut out, body.as_slice());
    push_str(&mut out, "\nDeletionDate=");
    push_str(&mut out, deletion_date);
    push_str(&mut out, "\n");
    string_of(out.as_slice())
}

/// The original path and deletion date recorded in `.trashinfo` text: the
/// last `Path=` (percent-decoded) and last `DeletionDate=` lines win; a
/// `Path=` line that does not decode to UTF-8 spoils the whole text; `None`
/// unless both are present.
pub open spec fn info_step() -> spec_fn((Option<Option<Seq<u8>>>, Option<Seq<char>>), Seq<char>) -> (Option<Option<Seq<u8>>>, Option<Seq<char>>) {
    |acc: (Option<Option<Seq<u8>>>, Option<Seq<char>>), line: Seq<char>| {
        let l = trim(line);
        if acc.0 == Some(None::<Seq<u8>>) {
            acc
        } else if is_prefix("Path="@, l) {
            let b = pct_decode(vstd::utf8::encode_utf8(l.skip(5)));
            (if vstd::utf8::valid_utf8(b) {
                Some(Some(b))
            } else {
                Some(None)
            }, acc.1)
        } else if is_prefix("DeletionDate="@, l) {
            (acc.0, Some(l.skip(13)))
        } else {
            acc
        }
    }
}

pub open spec fn parse_trashinfo_spec(content: Seq<char>) -> Option<(Seq<char>, Seq<char>)> {
    let (p, d) = lines(content).fold_left((None, None), info_step());
    match (p, d) {
        (Some(Some(bytes)), Some(date)) => Some((vstd::utf8::decode_utf8(bytes), date)),
        _ => None,
    }
}

/// Once spoiled, a `.trashinfo` text stays spoiled.
proof fn lemma_spoiled_stays(ls: Seq<Seq<char>>, k: int, n: int)
    requires
        0 <= k <= n <= ls.len(),
        ls.take(k).fold_left((None, None), info_step()).0 == Some(None::<Seq<u8>>),
    ensures
        ls.take(n).fold_left((None, None), info_step()).0 == Some(None::<Seq<u8>>),
    decreases n - k,
{
    if k < n {
        let f = info_step();
        assert(ls.take(k + 1).drop_last() =~= ls.take(k));
        assert(ls.take(k + 1).fold_left((None, None), f) == f(
            ls.take(k).fold_left((None, None), f),
            ls[k],
        ));
        lemma_spoiled_stays(ls, k + 1, n);
    }
}

proof fn lemma_encoded_text(b: Seq<u8>)
    ensures
        vstd::utf8::encode_utf8(ascii_chars(pct_encode(b))) == pct_encode(b),
        forall|i: int|
            0 <= i < ascii_chars(pct_encode(b)).len() ==> !is_ws(
                #[trigger] ascii_chars(pct_encode(b))[i],
            ) && ascii_chars(pct_encode(b))[i] != '\n',
{
    let bs = pct_encode(b);
    let e = ascii_chars(bs);
    lemma_encode_ascii(b);
    assert forall|i: int| 0 <= i < e.len() implies !is_ws(#[trigger] e[i]) && e[i] != '\n' by {
        assert(bs[i] < 0x80);
        assert(e[i] == bs[i] as char);
    }
    assert(vstd::utf8::is_ascii_chars(e));
    vstd::utf8::is_ascii_chars_encode_utf8(e);
    assert(vstd::utf8::encode_utf8(e) =~= bs);
}

/// A `.trashinfo` text reads back as the original path and the deletion date
/// it records (for a date without a newline or trailing whitespace).
pub proof fn law_trashinfo_roundtrip(original: Seq<char>, date: Seq<char>)
    requires
        forall|i: int| 0 <= i < date.len() ==> date[i] != '\n',
        date.len() == 0 || !is_ws(date.last()),
    ensures
        parse_trashinfo_spec(trashinfo_text(vstd::utf8::encode_utf8(original), date)) == Some(
            (original, date),
        ),
{
    let b = vstd::utf8::encode_utf8(original);
    let e = ascii_chars(pct_encode(b));
    lemma_encoded_text(b);
    let head = "[Trash Info]"@;
    let pk = "Path="@;
    let dk = "DeletionDate="@;
    let nl = seq!['\n'];
    assert("[Trash Info]\nPath="@ =~= head + nl + pk) by {
        reveal_strlit("[Trash Info]\nPath=");
        reveal_strlit("[Trash Info]");
        reveal_strlit("Path=");
    }
    assert("\nDeletionDate="@ =~= nl + dk) by {
        reveal_strlit("\nDeletionDate=");
        reveal_strlit("DeletionDate=");
    }
    assert("\n"@ =~= nl) by {
        reveal_strlit("\n");
    }
    reveal_strlit("[Trash Info]");
    reveal_strlit("Path=");
    reveal_strlit("DeletionDate=");
    let l1 = head;
    let l2 = pk + e;
    let l3 = dk + date;
    let text = trashinfo_text(b, date);
    assert(text == (head + nl + pk) + e + (nl + dk) + date + nl);
    assert(text =~= (l1 + nl) + ((l2 + nl) + (l3 + nl)));
    assert(is_ws('\n') && is_ws('\r'));
    assert forall|i: int| 0 <= i < l2.len() implies l2[i] != '\n' by {
        if i >= 5 {
            assert(l2[i] == e[i - 5]);
        }
    }
    assert forall|i: int| 0 <= i < l3.len() implies l3[i] != '\n' by {
        if i >= 13 {
            assert(l3[i] == date[i - 13]);
        }
    }
    assert(!is_ws(l2.last())) by {
        if e.len() > 0 {
            assert(l2.last() == e[e.len() - 1]);
        }
    }
    assert(!is_ws(l3.last())) by {
        if date.len() > 0 {
            assert(l3.last() == date.last());
        }
    }
    lemma_lines_single(l1);
    lemma_lines_single(l2);
    lemma_lines_single(l3);
    lemma_lines_append(l2 + nl, l3 + nl);
    lemma_lines_append(l1 + nl, (l2 + nl) + (l3 + nl));
    let ls = lines(text);
    assert(ls =~= seq![l1, l2, l3]);
    lemma_trim_noop(l1);
    lemma_trim_noop(l2);
    lemma_trim_noop(l3);
    let f = info_step();
    let s0: (Option<Option<Seq<u8>>>, Option<Seq<char>>) = (None, None);
    let a1 = seq![l1];
    let a2 = seq![l1, l2];
    assert(a1.drop_last() =~= Seq::<Seq<char>>::empty());
    assert(a2.drop_last() =~= a1);
    assert(ls.drop_last() =~= a2);
    assert(l1.subrange(0, 5)[0] != pk[0]);
    assert(!is_prefix(pk, l1) && !is_prefix(dk, l1));
    assert(f(s0, l1) == s0);
    assert(Seq::<Seq<char>>::empty().fold_left(s0, f) == s0);
    assert(a1.fold_left(s0, f) == s0);
    assert(l2.subrange(0, 5) =~= pk);
    assert(l2.skip(5) =~= e);
    lemma_decode_encode(b);
    vstd::utf8::encode_utf8_valid_utf8(original);
    assert(a2.fold_left(s0, f) == (Some(Some(b)), None::<Seq<char>>));
    assert(l3.subrange(0, 5)[0] != pk[0]);
    assert(l3.subrange(0, 13) =~= dk);
    assert(l3.skip(13) =~= date);
    assert(ls.fold_left(s0, f) == (Some(Some(b)), Some(date)));
    vstd::utf8::encode_utf8_decode_utf8(original);
}

/// Parse `.trashinfo` content into the original path and deletion date.
pub fn parse_trashinfo(content: &str) -> (r: Option<(String, String)>)
    ensures
        match r {
            Some((p, d)) => parse_trashinfo_spec(content@) == Some((p@, d@)),
            None => parse_trashinfo_spec(content@) is None,
        },
{
    let c = chars_of(content);
    let ls = split_lines(c.as_slice());
    let ghost lv = ls@.map_values(|l: Vec<char>| l@);
    let mut path: Option<String> = None;
    let mut date: Option<Vec<char>> = None;
    let mut k: usize = 0;
    proof {
        reveal_strlit("Path=");
        reveal_strlit("DeletionDate=");
    }
    assert(lv.take(0) =~= Seq::<Seq<char>>::empty());
    while k < ls.len()
        invariant
            k <= ls@.len(),
            lv == ls@.map_values(|l: Vec<char>| l@),
            lv == lines(content@),
            "Path="@.len() == 5,
            "DeletionDate="@.len() == 13,
            lv.take(k as int).fold_left((None, None), info_step()) == (
                match path {
                    Some(p) => Some(Some(vstd::utf8::encode_utf8(p@))),
                    None => None,
                },
                match date {
                    Some(d) => Some(d@),
                    None => None,
                },
            ),
        decreases ls.len() - k,
    {
        assert(lv.take(k + 1).drop_last() =~= lv.take(k as int));
        let l = trimmed(ls[k].as_slice());
        if starts_with(l.as_slice(), chars_of("Path=").as_slice()) {
            let rest = slice_to_vec(l.as_slice(), 5, l.len());
            let rs = string_of(rest.as_slice());
            let rb = rs.as_str().as_bytes();
            let decoded = pct_decode_from(rb, 0);
            assert(rb@.skip(0) =~= rb@);
            assert(rest@ =~= l@.skip(5));
            let ghost b = decoded@;
            match crate::text::string_from_utf8(decoded) {
                Some(p) => {
                    proof {
                        vstd::utf8::decode_utf8_encode_utf8(b);
                    }
                    path = Some(p);
                },
                None => {
                    proof {
                        lemma_spoiled_stays(lv, k + 1, lv.len() as int);
                        assert(lv.take(lv.len() as int) =~= lv);
                    }
                    return None;
                },
            }
        } else if starts_with(l.as_slice(), chars_of("DeletionDate=").as_slice()) {
            let rest = slice_to_vec(l.as_slice(), 13, l.len());
            assert(rest@ =~= l@.skip(13));
            date = Some(rest);
        }
        k = k + 1;
    }
    assert(lv.take(ls@.len() as int) =~= lv);
    match (path, date) {
        (Some(p), Some(d)) => {
            proof {
                vstd::utf8::encode_utf8_decode_utf8(p@);
            }
            Some((p, string_of(d.as_slice())))
        },
        _ => None,
    }
}

/// The name of the trashed file an info file describes: the info file's name
/// without `.trashinfo`; none for other files.
pub open spec fn info_stem_spec(info_path: Seq<char>) -> Option<Seq<char>> {
    if path_extension(info_path) == Some("trashinfo"@) {
        match file_name_spec(info_path) {
            Some(n) => Some(n.take(n.len() - 10)),
            None => None,
        }
    } else {
        None
    }
}

/// The name of the trashed file that the info file `info_path` describes
/// (see [`info_stem_spec`]).
pub fn info_stem(info_path: &str) -> (r: Option<String>)
    ensures
        match r {
            Some(s) => info_stem_spec(info_path@) == Some(s@),
            None => info_stem_spec(info_path@) is None,
        },
{
    let is_info = match path_extension_exec(info_path) {
        Some(e) => crate::text::eq_chars(e.as_slice(), chars_of("trashinfo").as_slice()),
        None => false,
    };
    if !is_info {
        return None;
    }
    proof {
        reveal_strlit("trashinfo");
    }
    let c = chars_of(info_path);
    match file_name_chars(c.as_slice()) {
        Some(n) => {
            proof {
                crate::text::lemma_rfind(n@, '.');
                let i = crate::text::rfind(n@, '.')->0;
                assert(n@.skip(i + 1) == "trashinfo"@);
                assert(n@.skip(i + 1).len() == 9);
            }
            assert(n@.len() >= 10);
            let stem = slice_to_vec(n.as_slice(), 0, n.len() - 10);
            assert(stem@ =~= n@.take(n@.len() - 10));
            Some(string_of(stem.as_slice()))
        },
        None => None,
    }
}

/// The item a trash's info file describes: `stem` names the trashed file
/// under `root/files` (a directory or not, of `size` bytes), `content` is the
/// info file's text; none when the text records no original path and date.
pub open spec fn trash_item_spec(
    root: Seq<char>,
    stem: Seq<char>,
    content: Seq<char>,
) -> Option<(Seq<char>, Seq<char>, Seq<char>, Seq<char>, Seq<char>, Seq<char>)> {
    match parse_trashinfo_spec(content) {
        Some((orig, date)) => Some(
            (
                stem,
                match file_name_spec(orig) {
                    Some(n) => n,
                    None => stem,
                },
                orig,
                date,
                path_join_spec(path_join_spec(root, "files"@), stem),
                path_join_spec(path_join_spec(root, "info"@), stem + ".trashinfo"@),
            ),
        ),
        None => None,
    }
}

pub open spec fn item_text(i: TrashItem) -> (Seq<char>, Seq<char>, Seq<char>, Seq<char>, Seq<char>, Seq<char>) {
    (i.id@, i.original_name@, i.original_path@, i.deletion_date@, i.file_path@, i.info_path@)
}

/// The trash item of the info file for `stem` in `root` (see
/// [`trash_item_spec`]).
pub fn trash_item(root: &str, stem: &str, content: &str, is_dir: bool, size: u64) -> (r: Option<TrashItem>)
    ensures
        match r {
            Some(i) => trash_item_spec(root@, stem@, content@) == Some(item_text(i)) && i.is_dir
                == is_dir && i.size == size,
            None => trash_item_spec(root@, stem@, content@) is None,
        },
{
    let (orig, date) = match parse_trashinfo(content) {
        Some(x) => x,
        None => {
            return None;
        },
    };
    let oc = chars_of(orig.as_str());
    let original_name = match file_name_chars(oc.as_slice()) {
        Some(n) => string_of(n.as_slice()),
        None => stem.to_string(),
    };
    let files = path_join(root, "files");
    let info = path_join(root, "info");
    let mut info_name = chars_of(stem);
    push_str(&mut info_name, ".trashinfo");
    let info_name = string_of(info_name.as_slice());
    Some(
        TrashItem {
            id: stem.to_string(),
            original_name,
            original_path: orig,
            deletion_date: date,
            file_path: path_join(files.as_str(), stem),
            info_path: path_join(info.as_str(), info_name.as_str()),
            is_dir,
            size,
        },
    )
}

/// Where a restore puts an item: its original path when nothing is there,
/// else the first free `name`, `name (restored)`, `name (restored 2)`, ...
/// (after the `taken` names) in the original directory (`/` when it has
/// none).
pub open spec fn restore_destination_ok(item: TrashItem, original_exists: bool, taken: Seq<Seq<char>>, r: Seq<char>) -> bool {
    if !original_exists {
        r == item.original_path@
    } else {
        let parent = match path_parent_spec(item.original_path@) {
            Some(p) => p,
            None => "/"@,
        };
        exists|n: Seq<char>| #[trigger] first_free(NameFamily::Restored, item.original_name@, taken, n)
            && r == path_join_spec(parent, n)
    }
}

/// Where restoring `item` puts it (see [`restore_destination_ok`]); `taken`
/// lists the names in its original directory.
pub fn restore_destination(item: &TrashItem, original_exists: bool, taken: &[String]) -> (r: String)
    requires
        taken@.len() < u64::MAX,
    ensures
        restore_destination_ok(*item, original_exists, taken@.map_values(|x: String| x@), r@),
{
    if !original_exists {
        return item.original_path.clone();
    }
    let oc = chars_of(item.original_path.as_str());
    let parent = match parent_chars(oc.as_slice()) {
        Some(p) => string_of(p.as_slice()),
        None => "/".to_string(),
    };
    let n = first_free_name(NameFamily::Restored, item.original_name.as_str(), taken);
    let r = path_join(parent.as_str(), n.as_str());
    assert(parent@ == (match path_parent_spec(item.original_path@) {
        Some(p) => p,
        None => "/"@,
    }));
    assert(first_free(NameFamily::Restored, item.original_name@, taken@.map_values(|x: String| x@), n@)
        && r@ == path_join_spec(parent@, n@));
    r
}

/// The `DeletionDate` text for `secs` seconds after the Unix epoch:
/// `YYYY-MM-DDTHH:MM:SS` in UTC.
pub open spec fn deletion_date_text(secs: int) -> Seq<char> {
    let days = secs / 86400;
    let tod = secs % 86400;
    let c = crate::engine::format::civil_spec(days);
    crate::engine::format::pad(c.0 as nat, 4) + seq!['-'] + crate::engine::format::pad(c.1 as nat, 2)
        + seq!['-'] + crate::engine::format::pad(c.2 as nat, 2) + seq!['T']
        + crate::engine::format::pad((tod / 3600) as nat, 2) + seq![':']
        + crate::engine::format::pad(((tod % 3600) / 60) as nat, 2) + seq![':']
        + crate::engine::format::pad((tod % 60) as nat, 2)
}

/// The `DeletionDate` of an item trashed `secs` seconds after the Unix epoch
/// (see [`deletion_date_text`]).
pub fn deletion_date(secs: u64) -> (r: String)
    requires
        secs <= i64::MAX,
    ensures
        r@ == deletion_date_text(secs as int),
{
    let t = secs as i64;
    let days = t / 86400;
    let tod = t % 86400;
    let (y, m, d) = crate::engine::format::civil_from_days(days);
    let ghost c = crate::engine::format::civil_spec(days as int);
    assert(c.0 >= 1970) by (nonlinear_arith)
        requires
            days >= 0,
            c == crate::engine::format::civil_spec(days as int),
    ;
    let mut out = crate::engine::format::padded(y as u64, 4);
    out.push('-');
    crate::text::push_all(&mut out, crate::engine::format::padded(m as u64, 2).as_slice());
    out.push('-');
    crate::text::push_all(&mut out, crate::engine::format::padded(d as u64, 2).as_slice());
    out.push('T');
    crate::text::push_all(&mut out, crate::engine::format::padded((tod / 3600) as u64, 2).as_slice());
    out.push(':');
    crate::text::push_all(
        &mut out,
        crate::engine::format::padded(((tod % 3600) / 60) as u64, 2).as_slice(),
    );
    out.push(':');
    crate::text::push_all(&mut out, crate::engine::format::padded((tod % 60) as u64, 2).as_slice());
    assert(out@ =~= deletion_date_text(secs as int));
    string_of(out.as_slice())
}

proof fn lemma_trim_tail_len(q: Seq<char>)
    ensures
        crate::engine::path::trim_tail(q).len() <= q.len(),
    decreases q.len(),
{
    if q.len() > crate::engine::path::path_base(q) {
        if q.last() == '/' || crate::text::last_segment(q, '/') == crate::engine::path::dot() {
            lemma_trim_tail_len(q.drop_last());
        }
    }
}

/// A parent is shorter than its path.
pub proof fn lemma_parent_shorter(p: Seq<char>)
    ensures
        path_parent_spec(p) matches Some(q) ==> q.len() < p.len(),
    decreases p.len(),
{
    if p.len() > 0 {
        if p.last() == '/' {
            lemma_parent_shorter(p.drop_last());
        } else {
            let seg = crate::text::last_segment(p, '/');
            crate::text::lemma_rfind(p, '/');
            if seg == crate::engine::path::dot() && p.len() > 1 {
                lemma_parent_shorter(p.drop_last());
            } else if seg != crate::engine::path::dot() {
                assert(seg.len() > 0) by {
                    match crate::text::rfind(p, '/') {
                        Some(i) => {
                            assert(i < p.len() - 1);
                        },
                        None => {},
                    }
                }
                lemma_trim_tail_len(p.take(p.len() - seg.len()));
            }
        }
    }
}

/// The ancestors of `p`, nearest first (`Path::parent` until there is none).
pub open spec fn ancestors_of(p: Seq<char>) -> Seq<Seq<char>>
    decreases p.len(),
{
    match path_parent_spec(p) {
        Some(q) => if q.len() < p.len() {
            seq![q] + ancestors_of(q)
        } else {
            Seq::empty()
        },
        None => Seq::empty(),
    }
}

/// The ancestors of `path`, nearest first (see [`ancestors_of`]).
pub fn ancestors(path: &str) -> (r: Vec<String>)
    ensures
        r@.map_values(|x: String| x@) == ancestors_of(path@),
{
    let mut out: Vec<String> = Vec::new();
    let mut cur = chars_of(path);
    let ghost start = path@;
    proof {
        assert(Seq::<Seq<char>>::empty() + ancestors_of(cur@) =~= ancestors_of(start));
    }
    loop
        invariant
            start == path@,
            out@.map_values(|x: String| x@) + ancestors_of(cur@) == ancestors_of(start),
        decreases cur@.len(),
    {
        proof {
            lemma_parent_shorter(cur@);
        }
        match parent_chars(cur.as_slice()) {
            Some(q) => {
                let ghost before = out@.map_values(|x: String| x@);
                out.push(string_of(q.as_slice()));
                assert(out@.map_values(|x: String| x@) =~= before.push(q@));
                assert(ancestors_of(cur@) == seq![q@] + ancestors_of(q@));
                assert(before.push(q@) + ancestors_of(q@) =~= before + (seq![q@] + ancestors_of(q@)));
                cur = q;
            },
            None => {
                assert(ancestors_of(cur@) =~= Seq::<Seq<char>>::empty());
                assert(out@.map_values(|x: String| x@) =~= ancestors_of(start));
                return out;
            },
        }
    }
}

/// How many of the nearest ancestors are on device `dev`, counting until
/// one is not (or its device is unknown).
pub open spec fn same_device_run(devs: Seq<Option<u64>>, dev: u64, i: int) -> int
    decreases devs.len() - i,
{
    if i < 0 || i >= devs.len() {
        0
    } else if devs[i] == Some(dev) {
        1 + same_device_run(devs, dev, i + 1)
    } else {
        0
    }
}

/// The top directory of the mount holding `path`: its farthest ancestor
/// reached through ancestors on the same device `dev`; `devs` gives the
/// devices of `ancestors`, nearest first (`None` when unknown).
pub open spec fn mount_top_spec(path: Seq<char>, ancestors: Seq<Seq<char>>, devs: Seq<Option<u64>>, dev: u64) -> Seq<char> {
    let k = same_device_run(devs, dev, 0);
    if k == 0 {
        path
    } else {
        ancestors[k - 1]
    }
}

/// The top directory of the mount holding `path` (see [`mount_top_spec`]).
pub fn mount_top(path: &str, ancestors: &Vec<String>, devs: &[Option<u64>], dev: u64) -> (r: String)
    requires
        devs@.len() <= ancestors@.len(),
    ensures
        r@ == mount_top_spec(path@, ancestors@.map_values(|x: String| x@), devs@, dev),
{
    let mut k: usize = 0;
    while k < devs.len() && devs[k] == Some(dev)
        invariant
            k <= devs@.len(),
            same_device_run(devs@, dev, 0) == k + same_device_run(devs@, dev, k as int),
        decreases devs.len() - k,
    {
        k = k + 1;
    }
    assert(same_device_run(devs@, dev, k as int) == 0);
    if k == 0 {
        path.to_string()
    } else {
        ancestors[k - 1].clone()
    }
}

/// The per-user trash directory at the top of a mount: `.Trash-<uid>`.
pub open spec fn user_trash_spec(topdir: Seq<char>, uid: u32) -> Seq<char> {
    path_join_spec(topdir, ".Trash-"@ + crate::engine::format::dec(uid as nat))
}

/// The per-user trash directory at the top of a mount (see
/// [`user_trash_spec`]).
pub fn user_trash_dir(topdir: &str, uid: u32) -> (r: String)
    ensures
        r@ == user_trash_spec(topdir@, uid),
{
    let mut n = chars_of(".Trash-");
    crate::text::push_all(&mut n, crate::engine::format::decimal(uid as u64).as_slice());
    let name = string_of(n.as_slice());
    path_join(topdir, name.as_str())
}

/// The name under which `name` is stored in the trash's `files/`
/// directory: `name`, or `name.N` for the smallest `N >= 1` whose name is
/// free; `taken` lists the names already there.
pub fn unique_trash_name(name: &str, taken: &[String]) -> (r: String)
    requires
        taken@.len() < u64::MAX,
    ensures
        first_free(NameFamily::Numbered, name@, taken@.map_values(|x: String| x@), r@),
{
    first_free_name(NameFamily::Numbered, name, taken)
}

/// Trash listings come newest first: by deletion date, descending.
pub open spec fn newer_first(s: Seq<TrashItem>) -> bool {
    forall|i: int, j: int|
        0 <= i < j < s.len() ==> lexord(#[trigger] s[j].deletion_date@, #[trigger] s[i].deletion_date@) <= 0
}

/// The items deleted at `d`.
pub open spec fn dated(d: Seq<char>) -> spec_fn(TrashItem) -> bool {
    |i: TrashItem| i.deletion_date@ == d
}

proof fn lemma_insert_dated(before: Seq<TrashItem>, p: int, x: TrashItem, d: Seq<char>)
    requires
        0 <= p <= before.len(),
        forall|k: int| p <= k < before.len() ==> lexord((#[trigger] before[k]).deletion_date@, x.deletion_date@) < 0,
    ensures
        before.insert(p, x).filter(dated(d)) == before.filter(dated(d)) + seq![x].filter(dated(d)),
{
    let f = dated(d);
    let a = before.take(p);
    let b = before.skip(p);
    assert(before.insert(p, x) =~= a + seq![x] + b);
    assert(before =~= a + b);
    Seq::filter_distributes_over_add(a + seq![x], b, f);
    Seq::filter_distributes_over_add(a, seq![x], f);
    Seq::filter_distributes_over_add(a, b, f);
    Seq::<TrashItem>::empty().lemma_filter_push(x, f);
    assert(Seq::<TrashItem>::empty().push(x) =~= seq![x]);
    reveal(Seq::filter);
    assert(Seq::<TrashItem>::empty().filter(f) =~= Seq::<TrashItem>::empty());
    if f(x) {
        assert(b.filter(f).len() == 0) by {
            if b.filter(f).len() > 0 {
                b.lemma_filter_pred(f, 0);
                let y = b.filter(f)[0];
                assert(b.filter(f).contains(y));
                b.lemma_filter_contains_rev(f, y);
                let k = choose|k: int| 0 <= k < b.len() && b[k] == y;
                assert(b[k] == before[k + p]);
                crate::text::lemma_lexord_refl(x.deletion_date@);
            }
        }
        assert(b.filter(f) =~= Seq::<TrashItem>::empty());
        assert(before.insert(p, x).filter(f) =~= a.filter(f) + seq![x]);
    } else {
        assert(before.insert(p, x).filter(f) =~= a.filter(f) + b.filter(f));
    }
}

/// Order a listing newest first (a stable sort on the deletion date).
pub fn sort_trash_items(items: &mut Vec<TrashItem>)
    ensures
        final(items)@.to_multiset() == old(items)@.to_multiset(),
        newer_first(final(items)@),
        forall|d: Seq<char>| #[trigger] final(items)@.filter(dated(d)) == old(items)@.filter(dated(d)),
{
    let mut src: Vec<TrashItem> = Vec::new();
    std::mem::swap(&mut src, items);
    let ghost orig = src@;
    let mut out: Vec<TrashItem> = Vec::new();
    proof {
        vstd::seq_lib::lemma_multiset_commutative(out@, src@);
        assert(out@ + src@ =~= src@);
        assert forall|d: Seq<char>| #[trigger] out@.filter(dated(d)) + src@.filter(dated(d)) == orig.filter(dated(d)) by {
            reveal(Seq::filter);
            assert(out@.filter(dated(d)) =~= Seq::<TrashItem>::empty());
            assert(Seq::<TrashItem>::empty() + src@.filter(dated(d)) =~= src@.filter(dated(d)));
        }
    }
    while src.len() > 0
        invariant
            (out@ + src@).to_multiset() == orig.to_multiset(),
            forall|d: Seq<char>| #[trigger] out@.filter(dated(d)) + src@.filter(dated(d)) == orig.filter(dated(d)),
            newer_first(out@),
        decreases src.len(),
    {
        let ghost src0 = src@;
        let x = src.remove(0);
        let xd = chars_of(x.deletion_date.as_str());
        let mut p = out.len();
        while p > 0 && lex_compare(chars_of(out[p - 1].deletion_date.as_str()).as_slice(), xd.as_slice()) < 0
            invariant
                p <= out@.len(),
                xd@ == x.deletion_date@,
                forall|k: int| p <= k < out@.len() ==> lexord((#[trigger] out@[k]).deletion_date@, x.deletion_date@) < 0,
            decreases p,
        {
            p = p - 1;
        }
        let ghost before = out@;
        proof {
            if p > 0 {
                lemma_lexord_antisym(before[p - 1].deletion_date@, x.deletion_date@);
                assert forall|i: int| 0 <= i < p implies lexord(x.deletion_date@, (#[trigger] before[i]).deletion_date@) <= 0 by {
                    if i < p - 1 {
                        lemma_lexord_trans(x.deletion_date@, before[p - 1].deletion_date@, before[i].deletion_date@);
                    }
                }
            }
        }
        out.insert(p, x);
        proof {
            let s = out@;
            assert forall|i: int, j: int| 0 <= i < j < s.len() implies lexord(#[trigger] s[j].deletion_date@, #[trigger] s[i].deletion_date@) <= 0 by {
                if j < p {
                    assert(s[i] == before[i] && s[j] == before[j]);
                } else if j == p {
                    assert(s[i] == before[i]);
                } else if i == p {
                    assert(s[j] == before[j - 1]);
                } else if i < p {
                    assert(s[i] == before[i] && s[j] == before[j - 1]);
                    lemma_lexord_trans(before[j - 1].deletion_date@, x.deletion_date@, before[i].deletion_date@);
                } else {
                    assert(s[i] == before[i - 1] && s[j] == before[j - 1]);
                }
            }
            broadcast use vstd::multiset::group_multiset_axioms;
            vstd::seq_lib::lemma_multiset_commutative(out@, src@);
            vstd::seq_lib::lemma_multiset_commutative(before, src0);
            assert(src@ == src0.remove(0));
            assert(src0.to_multiset().contains(x));
            assert(src@.to_multiset() == src0.to_multiset().remove(x));
            assert(out@.to_multiset() == before.to_multiset().insert(x));
            assert(out@.to_multiset().add(src@.to_multiset()) =~= before.to_multiset().add(src0.to_multiset()));
            assert forall|d: Seq<char>| #[trigger] out@.filter(dated(d)) + src@.filter(dated(d)) == orig.filter(dated(d)) by {
                lemma_insert_dated(before, p as int, x, d);
                assert(src0 =~= seq![x] + src@);
                Seq::filter_distributes_over_add(seq![x], src@, dated(d));
                assert(out@.filter(dated(d)) + src@.filter(dated(d)) =~= before.filter(dated(d)) + src0.filter(dated(d)));
            }
        }
    }
    assert(out@ + src@ =~= out@);
    proof {
        assert forall|d: Seq<char>| #[trigger] out@.filter(dated(d)) == orig.filter(dated(d)) by {
            reveal(Seq::filter);
            assert(src@.filter(dated(d)) =~= Seq::<TrashItem>::empty());
            assert(out@.filter(dated(d)) + Seq::<TrashItem>::empty() =~= out@.filter(dated(d)));
        }
    }
    *items = out;
}

} // verus!
