//! The single-instance protocol: a second invocation hands its directory to
//! the running window over a socket, one `OPEN\t<path>` line answered `OK`.
use vstd::prelude::*;

use crate::engine::path::{join, join_spec};
use crate::text::{chars_of, is_prefix, push_str, slice_to_vec, starts_with, string_of, trim, trimmed};

verus! {

/// The request line that asks the running instance to open `path`.
pub open spec fn open_line_spec(path: Seq<char>) -> Seq<char> {
    "OPEN\t"@ + path + seq!['\n']
}

/// The request line for `path`.
pub fn open_request_line(path: &str) -> (r: String)
    ensures
        r@ == open_line_spec(path@),
{
    let mut out: Vec<char> = Vec::new();
    push_str(&mut out, "OPEN\t");
    push_str(&mut out, path);
    out.push('\n');
    assert(out@ =~= open_line_spec(path@));
    string_of(out.as_slice())
}

/// The path an incoming line asks to open: the trimmed line after `OPEN\t`.
pub open spec fn open_request_spec(line: Seq<char>) -> Option<Seq<char>> {
    let t = trim(line);
    if is_prefix("OPEN\t"@, t) {
        Some(t.skip(5))
    } else {
        None
    }
}

/// The path that the request `line` asks to open, if it is an open request.
pub fn parse_open_request(line: &str) -> (r: Option<String>)
    ensures
        match r {
            Some(p) => open_request_spec(line@) == Some(p@),
            None => open_request_spec(line@) is None,
        },
{
    let lc = chars_of(line);
    let t = trimmed(lc.as_slice());
    let tag = chars_of("OPEN\t");
    proof {
        reveal_strlit("OPEN\t");
    }
    if starts_with(t.as_slice(), tag.as_slice()) {
        let rest = slice_to_vec(t.as_slice(), 5, t.len());
        assert(rest@ =~= t@.skip(5));
        Some(string_of(rest.as_slice()))
    } else {
        None
    }
}

/// Whether the running instance accepted a request: its reply starts with `OK`.
pub fn is_ok_reply(reply: &str) -> (r: bool)
    ensures
        r == is_prefix("OK"@, reply@),
{
    let rc = chars_of(reply);
    let ok = chars_of("OK");
    starts_with(rc.as_slice(), ok.as_slice())
}

/// The path to forward for the command-line argument `path`: absolute and
/// `~` paths as given, others joined to the working directory when it is known.
pub open spec fn forward_path_spec(path: Seq<char>, cwd: Option<Seq<char>>) -> Seq<char> {
    if path.len() > 0 && (path[0] == '/' || path[0] == '~') {
        path
    } else {
        match cwd {
            Some(c) => join_spec(c, path),
            None => path,
        }
    }
}

/// The absolute form of a command-line path to hand to the running instance.
pub fn forward_path(path: &str, cwd: Option<&str>) -> (r: String)
    ensures
        r@ == forward_path_spec(
            path@,
            match cwd {
                Some(c) => Some(c@),
                None => None,
            },
        ),
{
    let pc = chars_of(path);
    if pc.len() > 0 && (pc[0] == '/' || pc[0] == '~') {
        return string_of(pc.as_slice());
    }
    match cwd {
        Some(c) => join(c, path),
        None => string_of(pc.as_slice()),
    }
}

/// The socket of the running instance: `arca-ipc.sock` in the runtime
/// directory, else `arca-ipc-<user>.sock` in the temporary directory
/// (`user` when the user is unknown).
pub open spec fn socket_path_spec(runtime_dir: Option<Seq<char>>, user: Option<Seq<char>>, temp_dir: Seq<char>) -> Seq<char> {
    match runtime_dir {
        Some(r) => join_spec(r, "arca-ipc.sock"@),
        None => join_spec(
            temp_dir,
            "arca-ipc-"@ + (match user {
                Some(u) => u,
                None => "user"@,
            }) + ".sock"@,
        ),
    }
}

/// Where the single-instance socket lives.
pub fn socket_path(runtime_dir: Option<&str>, user: Option<&str>, temp_dir: &str) -> (r: String)
    ensures
        r@ == socket_path_spec(
            match runtime_dir {
                Some(x) => Some(x@),
                None => None,
            },
            match user {
                Some(x) => Some(x@),
                None => None,
            },
            temp_dir@,
        ),
{
    match runtime_dir {
        Some(r) => join(r, "arca-ipc.sock"),
        None => {
            let mut name: Vec<char> = Vec::new();
            push_str(&mut name, "arca-ipc-");
            match user {
                Some(u) => push_str(&mut name, u),
                None => push_str(&mut name, "user"),
            }
            push_str(&mut name, ".sock");
            let n = string_of(name.as_slice());
            join(temp_dir, n.as_str())
        },
    }
}

/// Takes every queued open request, oldest first, leaving the queue empty.
pub fn drain_pending_open_requests(queue: &mut Vec<String>) -> (r: Vec<String>)
    ensures
        r@ == old(queue)@,
        final(queue)@.len() == 0,
{
    let mut taken: Vec<String> = Vec::new();
    std::mem::swap(&mut taken, queue);
    taken
}

/// An open request for a non-empty path that does not end in whitespace
/// reads back as that path.
pub proof fn law_open_request_roundtrip(path: Seq<char>)
    requires
        path.len() > 0,
        !crate::text::is_ws(path.last()),
    ensures
        open_request_spec(open_line_spec(path)) == Some(path),
{
    reveal_strlit("OPEN\t");
    let line = open_line_spec(path);
    let n = 5 + path.len();
    assert(line.len() == n + 1);
    assert(line[0] == 'O');
    assert(line[n - 1] == path.last());
    assert(line[n as int] == '\n');
    crate::text::lemma_trim_start_unique(line, 0);
    crate::text::lemma_trim_end_unique(line, n as int);
    assert(trim(line) =~= "OPEN\t"@ + path);
    assert(("OPEN\t"@ + path).skip(5) =~= path);
    assert(("OPEN\t"@ + path).subrange(0, 5) =~= "OPEN\t"@);
    assert(is_prefix("OPEN\t"@, trim(line)));
}

} // verus!
