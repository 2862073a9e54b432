//! Trash metadata of the Arca core: the trash root and the percent-encoded
//! `Path=` value of `.trashinfo` files.
use vstd::prelude::*;
use vstd::utf8::encode_utf8;

use crate::engine::path::{join, join_spec};
use crate::text::{chars_of, opt_text, slice_to_vec, string_of};
use crate::xdg::uri::{ascii_chars, pct_encode};

verus! {

/// The data home: `$XDG_DATA_HOME` when set, else `$HOME/.local/share`
/// (with `/` for an unset `HOME`).
pub open spec fn core_data_home(xdg_data_home: Option<Seq<char>>, home: Option<Seq<char>>) -> Seq<char> {
    match xdg_data_home {
        Some(d) => d,
        None => match home {
            Some(h) => h + "/.local/share"@,
            None => "/"@ + "/.local/share"@,
        },
    }
}

/// `~/.local/share/Trash` (or `$XDG_DATA_HOME/Trash`), given the values of
/// the two environment variables.
pub fn trash_root(xdg_data_home: Option<&str>, home: Option<&str>) -> (r: String)
    ensures
        r@ == join_spec(core_data_home(opt_text(xdg_data_home), opt_text(home)), "Trash"@),
{
    let mut base: Vec<char> = Vec::new();
    match xdg_data_home {
        Some(d) => {
            crate::text::push_str(&mut base, d);
        },
        None => {
            match home {
                Some(h) => crate::text::push_str(&mut base, h),
                None => crate::text::push_str(&mut base, "/"),
            }
            crate::text::push_str(&mut base, "/.local/share");
        },
    }
    let b = string_of(base.as_slice());
    join(b.as_str(), "Trash")
}

/// Percent-encode everything except unreserved characters and `/`
/// (the `Path=` value of a `.trashinfo` file is URL-encoded).
pub fn percent_encode(s: &str) -> (r: String)
    ensures
        r@ == ascii_chars(pct_encode(encode_utf8(s@))),
{
    let uri = crate::xdg::uri::encode_file_uri(s);
    let c = chars_of(uri.as_str());
    let body = slice_to_vec(c.as_slice(), 7, c.len());
    assert(body@ =~= ascii_chars(pct_encode(encode_utf8(s@))));
    string_of(body.as_slice())
}

} // verus!
