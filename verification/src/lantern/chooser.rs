//! The FileChooser portal contract: request and response types, their
//! validation, file filters and the naming of files saved together.
//!
//! JSON encoding and decoding of the wire format is the caller's part.
use vstd::prelude::*;

use crate::engine::format::{dec, decimal};
use crate::text::{
    ascii_lower_seq, char_ascii_lower, chars_of, debug_quoted, debug_text, eq_chars, is_prefix,
    push_all, push_str, rfind, slice_to_vec, starts_with, str_eq, string_from_utf8_lossy, string_of,
    utf8_lossy,
};

pub use crate::lantern::glob::glob_match;

verus! {

/// Version of the private stdin/stdout process contract.
pub const PROCESS_CONTRACT_VERSION: u32 = 6;

/// One filesystem path encoded as native Unix bytes.
#[derive(Debug, Clone)]
pub struct BytePath(pub Vec<u8>);

impl BytePath {
    pub fn is_empty(&self) -> (r: bool)
        ensures
            r == (self.0@.len() == 0),
    {
        self.0.len() == 0
    }
}

/// The FileChooser operation mode requested by the portal.
#[derive(Debug, Clone, Copy, PartialEq, Eq, Structural)]
pub enum FileChooserMode {
    OpenFile,
    OpenDirectory,
    SaveFile,
    SaveFiles,
}

/// The two rule kinds in the portal's filter structure.
#[derive(Debug, Clone, Copy, PartialEq, Eq, Structural)]
pub enum FilterRuleKind {
    Glob,
    Mime,
}

/// One typed file-filter rule.
#[derive(Debug, Clone)]
pub struct FilterRule {
    pub kind: FilterRuleKind,
    pub value: String,
}

/// One user-visible file filter option.
#[derive(Debug, Clone)]
pub struct FileFilter {
    pub label: String,
    pub rules: Vec<FilterRule>,
}

pub open spec fn rules_view(v: Seq<FilterRule>) -> Seq<(FilterRuleKind, Seq<char>)> {
    v.map_values(|r: FilterRule| (r.kind, r.value@))
}

pub open spec fn filter_view(f: FileFilter) -> (Seq<char>, Seq<(FilterRuleKind, Seq<char>)>) {
    (f.label@, rules_view(f.rules@))
}

/// One optional choice control embedded in a request.
#[derive(Debug, Clone)]
pub struct Choice {
    pub id: String,
    pub label: String,
    /// Empty means a boolean check button whose values are `true`/`false`.
    pub options: Vec<(String, String)>,
    pub selected: String,
}

/// The compositor appearance snapshot for dialog styling.
#[derive(Debug, Clone, Copy)]
pub struct PromptAppearance {
    pub color_scheme: PromptColorScheme,
    pub accent_color: Option<PromptAccent>,
    pub high_contrast: bool,
    pub reduced_motion: bool,
}

#[derive(Debug, Clone, Copy, PartialEq, Eq, Structural)]
pub enum PromptColorScheme {
    System,
    Dark,
    Light,
}

#[derive(Debug, Clone, Copy, PartialEq, Eq, Structural)]
pub struct PromptAccent {
    pub red: u8,
    pub green: u8,
    pub blue: u8,
}

impl Default for PromptColorScheme {
    fn default() -> (r: PromptColorScheme)
        ensures
            r == PromptColorScheme::System,
    {
        PromptColorScheme::System
    }
}

impl Default for PromptAppearance {
    fn default() -> (r: PromptAppearance)
        ensures
            r.color_scheme == PromptColorScheme::System,
            r.accent_color is None,
            !r.high_contrast,
            !r.reduced_motion,
    {
        PromptAppearance {
            color_scheme: PromptColorScheme::System,
            accent_color: None,
            high_contrast: false,
            reduced_motion: false,
        }
    }
}

/// One complete request sent from the portal backend to the prompter.
#[derive(Debug, Clone)]
pub struct FileChooserRequest {
    pub mode: FileChooserMode,
    pub app_id: String,
    pub title: String,
    pub accept_label: Option<String>,
    pub modal: bool,
    pub parent_window: Option<String>,
    pub multiple: bool,
    pub current_folder: Option<BytePath>,
    pub current_name: Option<String>,
    pub current_file: Option<BytePath>,
    pub filters: Vec<FileFilter>,
    pub current_filter: Option<FileFilter>,
    pub choices: Vec<Choice>,
    /// Suggested basenames for `SaveFiles`, in request order.
    pub files: Vec<BytePath>,
}

/// The one response emitted by a prompter process.
#[derive(Debug, Clone)]
pub enum FileChooserResponse {
    Selected { paths: Vec<BytePath>, current_filter: Option<FileFilter>, choices: Vec<(String, String)> },
    Cancelled,
    Failed { message: String },
}

/// Envelope for prompter requests.
#[derive(Debug, Clone)]
pub struct PrompterRequest {
    pub version: u32,
    pub prompt: PromptRequest,
    pub appearance: Option<PromptAppearance>,
}

#[derive(Debug, Clone)]
pub enum PromptRequest {
    FileChooser(FileChooserRequest),
    Unknown,
}

/// Envelope for prompter responses.
#[derive(Debug, Clone)]
pub struct PrompterResponse {
    pub version: u32,
    pub result: PromptResult,
}

#[derive(Debug, Clone)]
pub enum PromptResult {
    FileChooser(FileChooserResponse),
}

impl PrompterResponse {
    pub fn new(response: FileChooserResponse) -> (r: Self)
        ensures
            r.version == PROCESS_CONTRACT_VERSION,
            r.result == PromptResult::FileChooser(response),
    {
        PrompterResponse { version: PROCESS_CONTRACT_VERSION, result: PromptResult::FileChooser(response) }
    }
}

// ---- MIME rules ----

/// The MIME type the chooser associates with a lower-case extension.
pub open spec fn ext_mime(ext: Seq<char>) -> Seq<char> {
    if ext == "png"@ {
        "image/png"@
    } else if ext == "jpg"@ || ext == "jpeg"@ {
        "image/jpeg"@
    } else if ext == "gif"@ {
        "image/gif"@
    } else if ext == "webp"@ {
        "image/webp"@
    } else if ext == "svg"@ {
        "image/svg+xml"@
    } else if ext == "bmp"@ {
        "image/bmp"@
    } else if ext == "ico"@ {
        "image/x-icon"@
    } else if ext == "tiff"@ || ext == "tif"@ {
        "image/tiff"@
    } else if ext == "avif"@ {
        "image/avif"@
    } else if ext == "mp3"@ {
        "audio/mpeg"@
    } else if ext == "flac"@ {
        "audio/flac"@
    } else if ext == "wav"@ {
        "audio/wav"@
    } else if ext == "ogg"@ || ext == "oga"@ {
        "audio/ogg"@
    } else if ext == "m4a"@ {
        "audio/mp4"@
    } else if ext == "aac"@ {
        "audio/aac"@
    } else if ext == "opus"@ {
        "audio/opus"@
    } else if ext == "mp4"@ || ext == "m4v"@ {
        "video/mp4"@
    } else if ext == "mkv"@ {
        "video/x-matroska"@
    } else if ext == "webm"@ {
        "video/webm"@
    } else if ext == "avi"@ {
        "video/x-msvideo"@
    } else if ext == "mov"@ {
        "video/quicktime"@
    } else if ext == "txt"@ {
        "text/plain"@
    } else if ext == "md"@ || ext == "markdown"@ {
        "text/markdown"@
    } else if ext == "rs"@ {
        "text/rust"@
    } else if ext == "c"@ || ext == "h"@ {
        "text/x-c"@
    } else if ext == "cpp"@ || ext == "hpp"@ || ext == "cc"@ {
        "text/x-c++"@
    } else if ext == "py"@ {
        "text/x-python"@
    } else if ext == "js"@ {
        "text/javascript"@
    } else if ext == "ts"@ {
        "text/typescript"@
    } else if ext == "html"@ || ext == "htm"@ {
        "text/html"@
    } else if ext == "css"@ {
        "text/css"@
    } else if ext == "json"@ {
        "application/json"@
    } else if ext == "toml"@ {
        "application/toml"@
    } else if ext == "yaml"@ || ext == "yml"@ {
        "application/yaml"@
    } else if ext == "xml"@ {
        "application/xml"@
    } else if ext == "pdf"@ {
        "application/pdf"@
    } else if ext == "zip"@ {
        "application/zip"@
    } else if ext == "tar"@ {
        "application/x-tar"@
    } else if ext == "gz"@ {
        "application/gzip"@
    } else if ext == "sh"@ {
        "application/x-sh"@
    } else {
        "application/octet-stream"@
    }
}

/// The MIME type for a lower-case extension (`application/octet-stream`
/// when unknown).
pub fn extension_to_mime(ext: &str) -> (r: &'static str)
    ensures
        r@ == ext_mime(ext@),
{
    if str_eq(ext, "png") {
        return "image/png";
    }
    if str_eq(ext, "jpg") {
        return "image/jpeg";
    }
    if str_eq(ext, "jpeg") {
        return "image/jpeg";
    }
    if str_eq(ext, "gif") {
        return "image/gif";
    }
    if str_eq(ext, "webp") {
        return "image/webp";
    }
    if str_eq(ext, "svg") {
        return "image/svg+xml";
    }
    if str_eq(ext, "bmp") {
        return "image/bmp";
    }
    if str_eq(ext, "ico") {
        return "image/x-icon";
    }
    if str_eq(ext, "tiff") {
        return "image/tiff";
    }
    if str_eq(ext, "tif") {
        return "image/tiff";
    }
    if str_eq(ext, "avif") {
        return "image/avif";
    }
    if str_eq(ext, "mp3") {
        return "audio/mpeg";
    }
    if str_eq(ext, "flac") {
        return "audio/flac";
    }
    if str_eq(ext, "wav") {
        return "audio/wav";
    }
    if str_eq(ext, "ogg") {
        return "audio/ogg";
    }
    if str_eq(ext, "oga") {
        return "audio/ogg";
    }
    if str_eq(ext, "m4a") {
        return "audio/mp4";
    }
    if str_eq(ext, "aac") {
        return "audio/aac";
    }
    if str_eq(ext, "opus") {
        return "audio/opus";
    }
    if str_eq(ext, "mp4") {
        return "video/mp4";
    }
    if str_eq(ext, "m4v") {
        return "video/mp4";
    }
    if str_eq(ext, "mkv") {
        return "video/x-matroska";
    }
    if str_eq(ext, "webm") {
        return "video/webm";
    }
    if str_eq(ext, "avi") {
        return "video/x-msvideo";
    }
    if str_eq(ext, "mov") {
        return "video/quicktime";
    }
    if str_eq(ext, "txt") {
        return "text/plain";
    }
    if str_eq(ext, "md") {
        return "text/markdown";
    }
    if str_eq(ext, "markdown") {
        return "text/markdown";
    }
    if str_eq(ext, "rs") {
        return "text/rust";
    }
    if str_eq(ext, "c") {
        return "text/x-c";
    }
    if str_eq(ext, "h") {
        return "text/x-c";
    }
    if str_eq(ext, "cpp") {
        return "text/x-c++";
    }
    if str_eq(ext, "hpp") {
        return "text/x-c++";
    }
    if str_eq(ext, "cc") {
        return "text/x-c++";
    }
    if str_eq(ext, "py") {
        return "text/x-python";
    }
    if str_eq(ext, "js") {
        return "text/javascript";
    }
    if str_eq(ext, "ts") {
        return "text/typescript";
    }
    if str_eq(ext, "html") {
        return "text/html";
    }
    if str_eq(ext, "htm") {
        return "text/html";
    }
    if str_eq(ext, "css") {
        return "text/css";
    }
    if str_eq(ext, "json") {
        return "application/json";
    }
    if str_eq(ext, "toml") {
        return "application/toml";
    }
    if str_eq(ext, "yaml") {
        return "application/yaml";
    }
    if str_eq(ext, "yml") {
        return "application/yaml";
    }
    if str_eq(ext, "xml") {
        return "application/xml";
    }
    if str_eq(ext, "pdf") {
        return "application/pdf";
    }
    if str_eq(ext, "zip") {
        return "application/zip";
    }
    if str_eq(ext, "tar") {
        return "application/x-tar";
    }
    if str_eq(ext, "gz") {
        return "application/gzip";
    }
    if str_eq(ext, "sh") {
        return "application/x-sh";
    }
    "application/octet-stream"
}


/// The extension of the last component of `path` (`Path::extension`): the
/// part after its last `.`, unless that dot starts the name.
pub open spec fn path_extension(path: Seq<char>) -> Option<Seq<char>> {
    match crate::engine::path::file_name_spec(path) {
        Some(name) => match rfind(name, '.') {
            Some(i) => if i == 0 {
                None
            } else {
                Some(name.skip(i + 1))
            },
            None => None,
        },
        None => None,
    }
}

pub(crate) fn path_extension_exec(path: &str) -> (r: Option<Vec<char>>)
    ensures
        match r {
            Some(e) => path_extension(path@) == Some(e@),
            None => path_extension(path@) is None,
        },
{
    let pc = chars_of(path);
    match crate::engine::path::file_name_chars(pc.as_slice()) {
        Some(name) => {
            proof {
                crate::text::lemma_rfind(name@, '.');
            }
            let n = name.len();
            match crate::text::rfind_char(name.as_slice(), '.') {
                Some(i) => if i == 0 {
                    None
                } else {
                    let e = slice_to_vec(name.as_slice(), i + 1, n);
                    assert(e@ =~= name@.skip(i + 1));
                    Some(e)
                },
                None => None,
            }
        },
        None => None,
    }
}

/// Whether `path` has a MIME type matching `rule` (`type/subtype`, or a
/// prefix ending in `*`), by its extension; no extension never matches.
pub open spec fn mime_matches_spec(rule: Seq<char>, path: Seq<char>) -> bool {
    let ext = match path_extension(path) {
        Some(e) => ascii_lower_seq(e),
        None => Seq::empty(),
    };
    if ext.len() == 0 {
        false
    } else {
        let mime = ext_mime(ext);
        if rule.len() > 0 && rule.last() == '*' {
            is_prefix(rule.drop_last(), mime)
        } else {
            ascii_lower_seq(mime) == ascii_lower_seq(rule)
        }
    }
}

pub(crate) fn lower_chars(s: &[char]) -> (r: Vec<char>)
    ensures
        r@ == ascii_lower_seq(s@),
{
    let mut low: Vec<char> = Vec::new();
    let mut k: usize = 0;
    while k < s.len()
        invariant
            k <= s@.len(),
            low@ == ascii_lower_seq(s@.take(k as int)),
        decreases s.len() - k,
    {
        low.push(char_ascii_lower(s[k]));
        assert(low@ =~= ascii_lower_seq(s@.take(k + 1)));
        k = k + 1;
    }
    assert(s@.take(s@.len() as int) =~= s@);
    low
}

/// Match `path` against a MIME rule such as `image/png` or `image/*`.
pub fn mime_matches(rule: &str, path: &str) -> (r: bool)
    ensures
        r == mime_matches_spec(rule@, path@),
{
    let ext = match path_extension_exec(path) {
        Some(e) => lower_chars(e.as_slice()),
        None => Vec::new(),
    };
    if ext.len() == 0 {
        return false;
    }
    let es = string_of(ext.as_slice());
    let mime = chars_of(extension_to_mime(es.as_str()));
    let rc = chars_of(rule);
    let n = rc.len();
    if n > 0 && rc[n - 1] == '*' {
        let prefix = slice_to_vec(rc.as_slice(), 0, n - 1);
        assert(prefix@ =~= rc@.drop_last());
        starts_with(mime.as_slice(), prefix.as_slice())
    } else {
        eq_chars(lower_chars(mime.as_slice()).as_slice(), lower_chars(rc.as_slice()).as_slice())
    }
}

impl FileFilter {
    pub fn new(label: String, rules: Vec<FilterRule>) -> (f: Self)
        ensures
            f.label == label,
            f.rules == rules,
    {
        FileFilter { label, rules }
    }

    /// Whether this filter allows the file `name` at `path`: no rules allow
    /// everything; otherwise some glob rule matches the name or some MIME
    /// rule matches the path.
    pub fn allows(&self, name: &str, path: &str) -> (r: bool)
        ensures
            r == (self.rules@.len() == 0 || exists|i: int|
                0 <= i < self.rules@.len() && rule_allows(#[trigger] self.rules@[i], name@, path@)),
    {
        if self.rules.len() == 0 {
            return true;
        }
        let mut i: usize = 0;
        while i < self.rules.len()
            invariant
                i <= self.rules@.len(),
                forall|j: int| 0 <= j < i ==> !rule_allows(#[trigger] self.rules@[j], name@, path@),
            decreases self.rules.len() - i,
        {
            let rule = &self.rules[i];
            let ok = match rule.kind {
                FilterRuleKind::Glob => glob_match(rule.value.as_str(), name),
                FilterRuleKind::Mime => mime_matches(rule.value.as_str(), path),
            };
            if ok {
                assert(rule_allows(self.rules@[i as int], name@, path@));
                return true;
            }
            i = i + 1;
        }
        false
    }
}

pub open spec fn rule_allows(rule: FilterRule, name: Seq<char>, path: Seq<char>) -> bool {
    match rule.kind {
        FilterRuleKind::Glob => crate::lantern::glob::glob_spec(rule.value@, name),
        FilterRuleKind::Mime => mime_matches_spec(rule.value@, path),
    }
}

// ---- validation ----

/// An absolute Unix path without NUL bytes.
pub open spec fn valid_abs(p: Seq<u8>) -> bool {
    p.len() > 0 && p[0] == 0x2fu8 && !p.contains(0u8)
}

/// Index of the first `c` at or after `from` (or the length).
pub open spec fn find_byte(s: Seq<u8>, c: u8, from: int) -> int
    decreases s.len() - from,
{
    if from >= s.len() || from < 0 {
        s.len() as int
    } else if s[from] == c {
        from
    } else {
        find_byte(s, c, from + 1)
    }
}

proof fn lemma_find_byte(s: Seq<u8>, c: u8, from: int)
    requires
        0 <= from <= s.len(),
    ensures
        from <= find_byte(s, c, from) <= s.len(),
    decreases s.len() - from,
{
    if from < s.len() && s[from] != c {
        lemma_find_byte(s, c, from + 1);
    }
}

/// The `/`-separated pieces of `p` from `i` on, without empty and `.`
/// pieces.
pub open spec fn byte_pieces(p: Seq<u8>, i: int) -> Seq<Seq<u8>>
    decreases p.len() - i,
    when 0 <= i <= p.len()
{
    let j = find_byte(p, 0x2fu8, i);
    let piece = if i <= j <= p.len() { p.subrange(i, j) } else { Seq::empty() };
    let head = if piece.len() == 0 || piece == seq![0x2eu8] { Seq::empty() } else { seq![piece] };
    if i <= j < p.len() {
        head + byte_pieces(p, j + 1)
    } else {
        head
    }
}

/// Exactly one normal path component (`Path::components`).
pub open spec fn single_name(b: Seq<u8>) -> bool {
    let lead_dot = b == seq![0x2eu8] || (b.len() >= 2 && b[0] == 0x2eu8 && b[1] == 0x2fu8);
    &&& !(b.len() > 0 && b[0] == 0x2fu8)
    &&& !lead_dot
    &&& byte_pieces(b, 0).len() == 1
    &&& byte_pieces(b, 0)[0] != seq![0x2eu8, 0x2eu8]
}

/// The error for a suggested `SaveFiles` name, if it is not a basename.
pub open spec fn basename_error(b: Seq<u8>) -> Option<Seq<char>> {
    if b.contains(0u8) {
        Some("SaveFiles basenames must not contain NUL"@)
    } else if !single_name(b) {
        Some("SaveFiles name "@ + debug_text(utf8_lossy(b)) + " is not a single non-empty basename"@)
    } else {
        None
    }
}

fn has_nul(b: &[u8]) -> (r: bool)
    ensures
        r == b@.contains(0u8),
{
    let mut i: usize = 0;
    while i < b.len()
        invariant
            i <= b@.len(),
            forall|j: int| 0 <= j < i ==> b@[j] != 0u8,
        decreases b.len() - i,
    {
        if b[i] == 0 {
            assert(b@[i as int] == 0u8);
            return true;
        }
        i = i + 1;
    }
    false
}

fn count_pieces(b: &[u8]) -> (r: (usize, bool))
    ensures
        r.0 as int == byte_pieces(b@, 0).len() || (r.0 == 2 && byte_pieces(b@, 0).len() >= 2),
        r.0 == 1 ==> (r.1 == (byte_pieces(b@, 0)[0] == seq![0x2eu8, 0x2eu8])),
{
    let n = b.len();
    let mut count: usize = 0;
    let mut dotdot = false;
    let mut i: usize = 0;
    let ghost empty: Seq<Seq<u8>> = Seq::empty();
    let ghost mut seen: Seq<Seq<u8>> = Seq::empty();
    loop
        invariant_except_break
            i <= n == b@.len(),
            seen + byte_pieces(b@, i as int) == byte_pieces(b@, 0),
            count as int == seen.len(),
            count <= 1,
            count == 1 ==> dotdot == (seen[0] == seq![0x2eu8, 0x2eu8]),
        ensures
            count as int == byte_pieces(b@, 0).len() || (count == 2 && byte_pieces(b@, 0).len() >= 2),
            count == 1 ==> (dotdot == (byte_pieces(b@, 0)[0] == seq![0x2eu8, 0x2eu8])),
        decreases n - i,
    {
        let mut j = i;
        while j < n && b[j] != 0x2f
            invariant
                i <= j <= n,
                n == b@.len(),
                forall|k: int| i <= k < j ==> b@[k] != 0x2fu8,
                find_byte(b@, 0x2fu8, i as int) == find_byte(b@, 0x2fu8, j as int),
            decreases n - j,
        {
            j = j + 1;
        }
        proof {
            lemma_find_byte(b@, 0x2fu8, i as int);
        }
        let len = j - i;
        let is_dot = len == 1 && b[i] == 0x2e;
        let is_dotdot = len == 2 && b[i] == 0x2e && b[i + 1] == 0x2e;
        let ghost piece = b@.subrange(i as int, j as int);
        assert(piece.len() == len);
        assert(is_dot == (piece == seq![0x2eu8])) by {
            if len == 1 {
                assert(piece[0] == b@[i as int]);
                if is_dot {
                    assert(piece =~= seq![0x2eu8]);
                } else {
                    assert(piece[0] != seq![0x2eu8][0]);
                }
            }
        }
        assert(is_dotdot == (piece == seq![0x2eu8, 0x2eu8])) by {
            if len == 2 {
                assert(piece[0] == b@[i as int]);
                assert(piece[1] == b@[i + 1]);
                if is_dotdot {
                    assert(piece =~= seq![0x2eu8, 0x2eu8]);
                } else {
                    assert(piece[0] != seq![0x2eu8, 0x2eu8][0] || piece[1] != seq![0x2eu8, 0x2eu8][1]);
                }
            }
        }
        let ghost head = if piece.len() == 0 || piece == seq![0x2eu8] { Seq::<Seq<u8>>::empty() } else { seq![piece] };
        assert(byte_pieces(b@, i as int) == head + (if j < n { byte_pieces(b@, j + 1) } else { Seq::empty() }));
        if len > 0 && !is_dot {
            if count == 1 {
                count = 2;
                proof {
                    assert((seen + head).len() == 2);
                    if j < n {
                        assert(byte_pieces(b@, 0) == seen + head + byte_pieces(b@, j + 1));
                    } else {
                        assert(byte_pieces(b@, 0) =~= seen + head);
                    }
                }
                break;
            }
            count = 1;
            dotdot = is_dotdot;
            proof {
                seen = seen + head;
            }
        }
        if j >= n {
            proof {
                assert(byte_pieces(b@, 0) =~= seen + Seq::<Seq<u8>>::empty()) by {
                    assert(seen + byte_pieces(b@, j as int) == byte_pieces(b@, 0)) by {
                        if len > 0 && !is_dot {
                        } else {
                        }
                    }
                }
            }
            break;
        }
        proof {
            if len > 0 && !is_dot {
                assert(seen + byte_pieces(b@, j + 1) =~= (seen.drop_last()) + byte_pieces(b@, i as int));
            } else {
                assert(seen + byte_pieces(b@, j + 1) =~= seen + byte_pieces(b@, i as int));
            }
        }
        i = j + 1;
    }
    (count, dotdot)
}

/// Check a suggested `SaveFiles` name: one non-empty path component
/// without NUL.
pub fn validate_basename(name: &[u8]) -> (r: Result<(), String>)
    ensures
        match r {
            Ok(()) => basename_error(name@) is None,
            Err(e) => basename_error(name@) == Some(e@),
        },
{
    if has_nul(name) {
        return Err(String::from_str("SaveFiles basenames must not contain NUL"));
    }
    let n = name.len();
    let absolute = n > 0 && name[0] == 0x2f;
    let lead_dot = (n == 1 && name[0] == 0x2e) || (n >= 2 && name[0] == 0x2e && name[1] == 0x2f);
    assert(lead_dot == (name@ == seq![0x2eu8] || (name@.len() >= 2 && name@[0] == 0x2eu8 && name@[1] == 0x2fu8))) by {
        if name@ == seq![0x2eu8] {
            assert(name@.len() == 1 && name@[0] == 0x2eu8);
        }
        if n == 1 && name[0] == 0x2e {
            assert(name@ =~= seq![0x2eu8]);
        }
    }
    let (count, dotdot) = count_pieces(name);
    if absolute || lead_dot || count != 1 || dotdot {
        let lossy = string_from_utf8_lossy(name);
        let mut m: Vec<char> = Vec::new();
        push_str(&mut m, "SaveFiles name ");
        push_str(&mut m, debug_quoted(lossy.as_str()).as_str());
        push_str(&mut m, " is not a single non-empty basename");
        return Err(string_of(m.as_slice()));
    }
    Ok(())
}

pub open spec fn options_view(v: Seq<(String, String)>) -> Seq<(Seq<char>, Seq<char>)> {
    v.map_values(|o: (String, String)| (o.0@, o.1@))
}

pub open spec fn option_ids(opts: Seq<(Seq<char>, Seq<char>)>) -> Seq<Seq<char>> {
    opts.map_values(|o: (Seq<char>, Seq<char>)| o.0)
}

pub open spec fn choice_ids(cs: Seq<Choice>) -> Seq<Seq<char>> {
    cs.map_values(|c: Choice| c.id@)
}

/// What is wrong with one choice, given the ids of the choices before it.
pub open spec fn choice_error(c: Choice, earlier: Seq<Seq<char>>) -> Option<Seq<char>> {
    let opts = options_view(c.options@);
    let ids = option_ids(opts);
    if c.id@.len() == 0 || c.label@.len() == 0 {
        Some("choice ids and labels must not be empty"@)
    } else if earlier.contains(c.id@) {
        Some("duplicate choice id "@ + debug_text(c.id@))
    } else if exists|k: int| 0 <= k < opts.len() && ((#[trigger] opts[k]).0.len() == 0 || opts[k].1.len() == 0) {
        Some("choice "@ + debug_text(c.id@) + " contains an empty option"@)
    } else if !ids.no_duplicates() {
        Some("choice "@ + debug_text(c.id@) + " contains duplicate option ids"@)
    } else if opts.len() == 0 {
        if c.selected@ != "true"@ && c.selected@ != "false"@ {
            Some("boolean choice "@ + debug_text(c.id@) + " selected value must be 'true' or 'false'"@)
        } else {
            None
        }
    } else if !ids.contains(c.selected@) {
        Some("choice "@ + debug_text(c.id@) + " initial value "@ + debug_text(c.selected@) + " is not among its options"@)
    } else {
        None
    }
}

/// The first error among the choices from index `i` on.
pub open spec fn choices_error(cs: Seq<Choice>, i: int) -> Option<Seq<char>>
    decreases cs.len() - i,
{
    if i < 0 || i >= cs.len() {
        None
    } else {
        match choice_error(cs[i], choice_ids(cs.take(i))) {
            Some(e) => Some(e),
            None => choices_error(cs, i + 1),
        }
    }
}

fn quoted(m: &mut Vec<char>, s: &str)
    ensures
        final(m)@ == old(m)@ + debug_text(s@),
{
    let q = debug_quoted(s);
    push_str(m, q.as_str());
}

fn seen_str(v: &[Choice], upto: usize, s: &str) -> (r: bool)
    requires
        upto <= v@.len(),
    ensures
        r == choice_ids(v@.take(upto as int)).contains(s@),
{
    let ghost ids = choice_ids(v@.take(upto as int));
    let mut i: usize = 0;
    while i < upto
        invariant
            i <= upto <= v@.len(),
            ids == choice_ids(v@.take(upto as int)),
            forall|j: int| 0 <= j < i ==> ids[j] != s@,
        decreases upto - i,
    {
        if str_eq(v[i].id.as_str(), s) {
            assert(ids[i as int] == s@);
            return true;
        }
        i = i + 1;
    }
    false
}

#[verifier::loop_isolation(false)]
fn check_choice(cs: &[Choice], i: usize) -> (r: Option<String>)
    requires
        i < cs@.len(),
    ensures
        match r {
            Some(e) => choice_error(cs@[i as int], choice_ids(cs@.take(i as int))) == Some(e@),
            None => choice_error(cs@[i as int], choice_ids(cs@.take(i as int))) is None,
        },
{
    let c = &cs[i];
    let ghost opts = options_view(c.options@);
    let ghost ids = option_ids(opts);
    let mut m: Vec<char> = Vec::new();
    if chars_of(c.id.as_str()).len() == 0 || chars_of(c.label.as_str()).len() == 0 {
        return Some(String::from_str("choice ids and labels must not be empty"));
    }
    if seen_str(cs, i, c.id.as_str()) {
        push_str(&mut m, "duplicate choice id ");
        quoted(&mut m, c.id.as_str());
        return Some(string_of(m.as_slice()));
    }
    let mut k: usize = 0;
    while k < c.options.len()
        invariant
            m@ == Seq::<char>::empty(),
            k <= c.options@.len(),
            opts == options_view(c.options@),
            forall|j: int| 0 <= j < k ==> !((#[trigger] opts[j]).0.len() == 0 || opts[j].1.len() == 0),
        decreases c.options.len() - k,
    {
        assert(opts[k as int] == (c.options@[k as int].0@, c.options@[k as int].1@));
        if chars_of(c.options[k].0.as_str()).len() == 0 || chars_of(c.options[k].1.as_str()).len() == 0 {
            push_str(&mut m, "choice ");
            quoted(&mut m, c.id.as_str());
            push_str(&mut m, " contains an empty option");
            return Some(string_of(m.as_slice()));
        }
        k = k + 1;
    }
    let mut a: usize = 0;
    while a < c.options.len()
        invariant
            m@ == Seq::<char>::empty(),
            a <= c.options@.len(),
            opts == options_view(c.options@),
            ids == option_ids(opts),
            forall|x: int, y: int| 0 <= x < y < a ==> ids[x] != ids[y],
        decreases c.options.len() - a,
    {
        let mut b: usize = 0;
        while b < a
            invariant
                m@ == Seq::<char>::empty(),
            m@ == Seq::<char>::empty(),
                b <= a < c.options@.len(),
                opts == options_view(c.options@),
                ids == option_ids(opts),
                forall|y: int| 0 <= y < b ==> ids[y] != ids[a as int],
            decreases a - b,
        {
            if str_eq(c.options[b].0.as_str(), c.options[a].0.as_str()) {
                assert(ids[b as int] == ids[a as int]);
                assert(!ids.no_duplicates());
                push_str(&mut m, "choice ");
                quoted(&mut m, c.id.as_str());
                push_str(&mut m, " contains duplicate option ids");
                return Some(string_of(m.as_slice()));
            }
            b = b + 1;
        }
        a = a + 1;
    }
    assert(ids.no_duplicates());
    if c.options.len() == 0 {
        if !str_eq(c.selected.as_str(), "true") && !str_eq(c.selected.as_str(), "false") {
            push_str(&mut m, "boolean choice ");
            quoted(&mut m, c.id.as_str());
            push_str(&mut m, " selected value must be 'true' or 'false'");
            return Some(string_of(m.as_slice()));
        }
        return None;
    }
    let mut t: usize = 0;
    while t < c.options.len()
        invariant
            m@ == Seq::<char>::empty(),
            t <= c.options@.len(),
            opts == options_view(c.options@),
            ids == option_ids(opts),
            forall|y: int| 0 <= y < t ==> ids[y] != c.selected@,
        decreases c.options.len() - t,
    {
        if str_eq(c.options[t].0.as_str(), c.selected.as_str()) {
            assert(ids[t as int] == c.selected@);
            return None;
        }
        t = t + 1;
    }
    push_str(&mut m, "choice ");
    quoted(&mut m, c.id.as_str());
    push_str(&mut m, " initial value ");
    quoted(&mut m, c.selected.as_str());
    push_str(&mut m, " is not among its options");
    Some(string_of(m.as_slice()))
}

/// Check the choices of a request.
pub fn validate_choices(choices: &[Choice]) -> (r: Result<(), String>)
    ensures
        match r {
            Ok(()) => choices_error(choices@, 0) is None,
            Err(e) => choices_error(choices@, 0) == Some(e@),
        },
{
    let mut i: usize = 0;
    while i < choices.len()
        invariant
            i <= choices@.len(),
            choices_error(choices@, 0) == choices_error(choices@, i as int),
        decreases choices.len() - i,
    {
        match check_choice(choices, i) {
            Some(e) => {
                return Err(e);
            },
            None => {},
        }
        i = i + 1;
    }
    Ok(())
}

/// The choice with `id`.
pub open spec fn find_choice(cs: Seq<Choice>, id: Seq<char>) -> Option<Choice>
    decreases cs.len(),
{
    if cs.len() == 0 {
        None
    } else if cs[0].id@ == id {
        Some(cs[0])
    } else {
        find_choice(cs.drop_first(), id)
    }
}

pub open spec fn answer_ids(a: Seq<(String, String)>) -> Seq<Seq<char>> {
    a.map_values(|x: (String, String)| x.0@)
}

/// What is wrong with one answer, given the ids answered before it.
pub open spec fn answer_error(id: Seq<char>, value: Seq<char>, earlier: Seq<Seq<char>>, cs: Seq<Choice>) -> Option<Seq<char>> {
    if earlier.contains(id) {
        Some("prompter returned duplicate answer for "@ + debug_text(id))
    } else {
        match find_choice(cs, id) {
            None => Some("prompter answered unoffered choice "@ + debug_text(id)),
            Some(c) => {
                let ids = option_ids(options_view(c.options@));
                if ids.len() == 0 {
                    if value != "true"@ && value != "false"@ {
                        Some("boolean choice "@ + debug_text(id) + " answered with "@ + debug_text(value))
                    } else {
                        None
                    }
                } else if !ids.contains(value) {
                    Some("prompter answered choice "@ + debug_text(id) + " with unoffered option "@ + debug_text(value))
                } else {
                    None
                }
            },
        }
    }
}

pub open spec fn answers_error(a: Seq<(String, String)>, cs: Seq<Choice>, i: int) -> Option<Seq<char>>
    decreases a.len() - i,
{
    if i < 0 || i >= a.len() {
        None
    } else {
        match answer_error(a[i].0@, a[i].1@, answer_ids(a.take(i)), cs) {
            Some(e) => Some(e),
            None => answers_error(a, cs, i + 1),
        }
    }
}

/// The error for the choice answers of a response, if any.
pub open spec fn answers_check(a: Seq<(String, String)>, cs: Seq<Choice>) -> Option<Seq<char>> {
    if a.len() != cs.len() {
        Some("prompter returned "@ + dec(a.len()) + " choice answer(s), expected "@ + dec(cs.len()))
    } else {
        answers_error(a, cs, 0)
    }
}

fn find_choice_exec(cs: &[Choice], id: &str) -> (r: Option<usize>)
    ensures
        match r {
            Some(k) => k < cs@.len() && find_choice(cs@, id@) == Some(cs@[k as int]),
            None => find_choice(cs@, id@) is None,
        },
{
    let mut i: usize = 0;
    assert(cs@.skip(0) =~= cs@);
    while i < cs.len()
        invariant
            i <= cs@.len(),
            find_choice(cs@.skip(i as int), id@) == find_choice(cs@, id@),
        decreases cs.len() - i,
    {
        assert(cs@.skip(i as int).drop_first() =~= cs@.skip(i + 1));
        if str_eq(cs[i].id.as_str(), id) {
            return Some(i);
        }
        i = i + 1;
    }
    None
}

#[verifier::loop_isolation(false)]
fn check_answer(a: &[(String, String)], i: usize, cs: &[Choice]) -> (r: Option<String>)
    requires
        i < a@.len(),
    ensures
        match r {
            Some(e) => answer_error(a@[i as int].0@, a@[i as int].1@, answer_ids(a@.take(i as int)), cs@) == Some(e@),
            None => answer_error(a@[i as int].0@, a@[i as int].1@, answer_ids(a@.take(i as int)), cs@) is None,
        },
{
    let id = a[i].0.as_str();
    let value = a[i].1.as_str();
    let mut m: Vec<char> = Vec::new();
    let ghost earlier = answer_ids(a@.take(i as int));
    let mut j: usize = 0;
    while j < i
        invariant
            m@ == Seq::<char>::empty(),
            j <= i < a@.len(),
            earlier == answer_ids(a@.take(i as int)),
            forall|k: int| 0 <= k < j ==> earlier[k] != id@,
        decreases i - j,
    {
        if str_eq(a[j].0.as_str(), id) {
            assert(earlier[j as int] == id@);
            push_str(&mut m, "prompter returned duplicate answer for ");
            quoted(&mut m, id);
            return Some(string_of(m.as_slice()));
        }
        j = j + 1;
    }
    assert(!earlier.contains(id@));
    match find_choice_exec(cs, id) {
        None => {
            push_str(&mut m, "prompter answered unoffered choice ");
            quoted(&mut m, id);
            Some(string_of(m.as_slice()))
        },
        Some(k) => {
            let c = &cs[k];
            let ghost ids = option_ids(options_view(c.options@));
            if c.options.len() == 0 {
                if !str_eq(value, "true") && !str_eq(value, "false") {
                    push_str(&mut m, "boolean choice ");
                    quoted(&mut m, id);
                    push_str(&mut m, " answered with ");
                    quoted(&mut m, value);
                    return Some(string_of(m.as_slice()));
                }
                return None;
            }
            let mut t: usize = 0;
            while t < c.options.len()
                invariant
                m@ == Seq::<char>::empty(),
            m@ == Seq::<char>::empty(),
                    t <= c.options@.len(),
                    ids == option_ids(options_view(c.options@)),
                    forall|y: int| 0 <= y < t ==> ids[y] != value@,
                decreases c.options.len() - t,
            {
                if str_eq(c.options[t].0.as_str(), value) {
                    assert(ids[t as int] == value@);
                    return None;
                }
                t = t + 1;
            }
            push_str(&mut m, "prompter answered choice ");
            quoted(&mut m, id);
            push_str(&mut m, " with unoffered option ");
            quoted(&mut m, value);
            Some(string_of(m.as_slice()))
        },
    }
}

/// Check the choice answers of a response against the offered choices.
pub fn validate_choice_answers(answers: &[(String, String)], choices: &[Choice]) -> (r: Result<(), String>)
    ensures
        match r {
            Ok(()) => answers_check(answers@, choices@) is None,
            Err(e) => answers_check(answers@, choices@) == Some(e@),
        },
{
    if answers.len() != choices.len() {
        let mut m: Vec<char> = Vec::new();
        push_str(&mut m, "prompter returned ");
        push_all(&mut m, decimal(answers.len() as u64).as_slice());
        push_str(&mut m, " choice answer(s), expected ");
        push_all(&mut m, decimal(choices.len() as u64).as_slice());
        return Err(string_of(m.as_slice()));
    }
    let mut i: usize = 0;
    while i < answers.len()
        invariant
            i <= answers@.len(),
            answers@.len() == choices@.len(),
            answers_error(answers@, choices@, 0) == answers_error(answers@, choices@, i as int),
        decreases answers.len() - i,
    {
        match check_answer(answers, i, choices) {
            Some(e) => {
                return Err(e);
            },
            None => {},
        }
        i = i + 1;
    }
    Ok(())
}

/// A filter with an empty label or an empty rule.
pub open spec fn filter_bad(f: FileFilter) -> bool {
    f.label@.len() == 0 || exists|k: int| 0 <= k < f.rules@.len() && (#[trigger] f.rules@[k]).value@.len() == 0
}

/// The first error among the suggested names from index `i` on.
pub open spec fn names_error(files: Seq<BytePath>, i: int) -> Option<Seq<char>>
    decreases files.len() - i,
{
    if i < 0 || i >= files.len() {
        None
    } else {
        match basename_error(files[i].0@) {
            Some(e) => Some(e),
            None => names_error(files, i + 1),
        }
    }
}

/// What is wrong with a request, checked in order: the two paths, the
/// suggested names for the mode, each name, the filters, the choices.
pub open spec fn request_error(r: FileChooserRequest) -> Option<Seq<char>> {
    if r.current_folder is Some && !valid_abs((r.current_folder->0).0@) {
        Some("current_folder is not a valid absolute Unix path"@)
    } else if r.current_file is Some && !valid_abs((r.current_file->0).0@) {
        Some("current_file is not a valid absolute Unix path"@)
    } else if r.mode != FileChooserMode::SaveFiles && r.files@.len() > 0 {
        Some("suggested files are valid only for SaveFiles"@)
    } else if r.mode == FileChooserMode::SaveFiles && r.files@.len() == 0 {
        Some("SaveFiles requires at least one suggested basename"@)
    } else {
        match names_error(r.files@, 0) {
            Some(e) => Some(e),
            None => if (exists|i: int| 0 <= i < r.filters@.len() && filter_bad(#[trigger] r.filters@[i])) || (
            r.current_filter is Some && filter_bad(r.current_filter->0)) {
                Some("filter labels and rules must not be empty"@)
            } else {
                choices_error(r.choices@, 0)
            },
        }
    }
}

fn abs_ok(p: &BytePath) -> (r: bool)
    ensures
        r == valid_abs(p.0@),
{
    p.0.len() > 0 && p.0[0] == 0x2f && !has_nul(p.0.as_slice())
}

fn bad_filter(f: &FileFilter) -> (r: bool)
    ensures
        r == filter_bad(*f),
{
    if chars_of(f.label.as_str()).len() == 0 {
        return true;
    }
    let mut k: usize = 0;
    while k < f.rules.len()
        invariant
            k <= f.rules@.len(),
            forall|j: int| 0 <= j < k ==> (#[trigger] f.rules@[j]).value@.len() != 0,
        decreases f.rules.len() - k,
    {
        if chars_of(f.rules[k].value.as_str()).len() == 0 {
            return true;
        }
        k = k + 1;
    }
    false
}

impl FileChooserRequest {
    /// Reject malformed values before any dialog or filesystem access.
    #[verifier::loop_isolation(false)]
    pub fn validate(&self) -> (r: Result<(), String>)
        ensures
            match r {
                Ok(()) => request_error(*self) is None,
                Err(e) => request_error(*self) == Some(e@),
            },
    {
        match &self.current_folder {
            Some(p) => if !abs_ok(p) {
                return Err(String::from_str("current_folder is not a valid absolute Unix path"));
            },
            None => {},
        }
        match &self.current_file {
            Some(p) => if !abs_ok(p) {
                return Err(String::from_str("current_file is not a valid absolute Unix path"));
            },
            None => {},
        }
        let save_files = match self.mode {
            FileChooserMode::SaveFiles => true,
            _ => false,
        };
        if !save_files && self.files.len() > 0 {
            return Err(String::from_str("suggested files are valid only for SaveFiles"));
        }
        if save_files && self.files.len() == 0 {
            return Err(String::from_str("SaveFiles requires at least one suggested basename"));
        }
        let mut i: usize = 0;
        while i < self.files.len()
            invariant
                i <= self.files@.len(),
                names_error(self.files@, 0) == names_error(self.files@, i as int),
            decreases self.files.len() - i,
        {
            match validate_basename(self.files[i].0.as_slice()) {
                Err(e) => {
                    return Err(e);
                },
                Ok(()) => {},
            }
            i = i + 1;
        }
        let mut k: usize = 0;
        while k < self.filters.len()
            invariant
                k <= self.filters@.len(),
                forall|j: int| 0 <= j < k ==> !filter_bad(#[trigger] self.filters@[j]),
            decreases self.filters.len() - k,
        {
            if bad_filter(&self.filters[k]) {
                return Err(String::from_str("filter labels and rules must not be empty"));
            }
            k = k + 1;
        }
        match &self.current_filter {
            Some(f) => if bad_filter(f) {
                return Err(String::from_str("filter labels and rules must not be empty"));
            },
            None => {},
        }
        validate_choices(self.choices.as_slice())
    }
}

/// How `{:?}` names a mode.
pub open spec fn mode_name(m: FileChooserMode) -> Seq<char> {
    match m {
        FileChooserMode::OpenFile => "OpenFile"@,
        FileChooserMode::OpenDirectory => "OpenDirectory"@,
        FileChooserMode::SaveFile => "SaveFile"@,
        FileChooserMode::SaveFiles => "SaveFiles"@,
    }
}

/// How many paths a request asks for (`None`: one or more).
pub open spec fn expected_paths(r: FileChooserRequest) -> Option<nat> {
    match r.mode {
        FileChooserMode::SaveFile => Some(1),
        FileChooserMode::SaveFiles => Some(r.files@.len()),
        _ => if !r.multiple {
            Some(1)
        } else {
            None
        },
    }
}

/// The filter returned was offered by the request.
pub open spec fn filter_offered(f: FileFilter, r: FileChooserRequest) -> bool {
    (exists|i: int| 0 <= i < r.filters@.len() && filter_view(#[trigger] r.filters@[i]) == filter_view(f)) || (
    r.filters@.len() == 0 && r.current_filter is Some && filter_view(r.current_filter->0) == filter_view(f))
}

pub open spec fn paths_error(paths: Seq<BytePath>, i: int) -> Option<Seq<char>>
    decreases paths.len() - i,
{
    if i < 0 || i >= paths.len() {
        None
    } else if !valid_abs(paths[i].0@) {
        Some("prompter returned an invalid local path "@ + debug_text(utf8_lossy(paths[i].0@)))
    } else {
        paths_error(paths, i + 1)
    }
}

/// What is wrong with a response to `req`.
pub open spec fn response_error(resp: FileChooserResponse, req: FileChooserRequest) -> Option<Seq<char>> {
    match resp {
        FileChooserResponse::Selected { paths, current_filter, choices } => {
            let n = paths@.len();
            if n == 0 || (expected_paths(req) is Some && n != expected_paths(req)->0) {
                Some("prompter returned "@ + dec(n) + " path(s), incompatible with "@ + mode_name(req.mode))
            } else {
                match paths_error(paths@, 0) {
                    Some(e) => Some(e),
                    None => if current_filter is Some && !filter_offered(current_filter->0, req) {
                        Some("prompter returned a filter that was not offered"@)
                    } else {
                        answers_check(choices@, req.choices@)
                    },
                }
            }
        },
        _ => None,
    }
}

pub(crate) fn filter_eq(a: &FileFilter, b: &FileFilter) -> (r: bool)
    ensures
        r == (filter_view(*a) == filter_view(*b)),
{
    if !str_eq(a.label.as_str(), b.label.as_str()) || a.rules.len() != b.rules.len() {
        proof {
            if a.label@ == b.label@ {
                assert(rules_view(a.rules@).len() != rules_view(b.rules@).len());
            }
        }
        return false;
    }
    let ghost ra = rules_view(a.rules@);
    let ghost rb = rules_view(b.rules@);
    let mut i: usize = 0;
    while i < a.rules.len()
        invariant
            i <= a.rules@.len() == b.rules@.len(),
            ra == rules_view(a.rules@),
            rb == rules_view(b.rules@),
            a.label@ == b.label@,
            forall|j: int| 0 <= j < i ==> ra[j] == rb[j],
        decreases a.rules.len() - i,
    {
        if a.rules[i].kind != b.rules[i].kind || !str_eq(a.rules[i].value.as_str(), b.rules[i].value.as_str()) {
            assert(ra[i as int] != rb[i as int]);
            assert(ra != rb);
            return false;
        }
        i = i + 1;
    }
    assert(ra =~= rb);
    true
}

fn push_mode(m: &mut Vec<char>, mode: FileChooserMode)
    ensures
        final(m)@ == old(m)@ + mode_name(mode),
{
    match mode {
        FileChooserMode::OpenFile => push_str(m, "OpenFile"),
        FileChooserMode::OpenDirectory => push_str(m, "OpenDirectory"),
        FileChooserMode::SaveFile => push_str(m, "SaveFile"),
        FileChooserMode::SaveFiles => push_str(m, "SaveFiles"),
    }
}

fn offered_in(filters: &Vec<FileFilter>, f: &FileFilter) -> (r: bool)
    ensures
        r == exists|i: int| 0 <= i < filters@.len() && filter_view(#[trigger] filters@[i]) == filter_view(*f),
{
    let mut k: usize = 0;
    while k < filters.len()
        invariant
            k <= filters@.len(),
            forall|j: int| 0 <= j < k ==> filter_view(#[trigger] filters@[j]) != filter_view(*f),
        decreases filters.len() - k,
    {
        if filter_eq(&filters[k], f) {
            return true;
        }
        k = k + 1;
    }
    false
}

impl FileChooserResponse {
    /// Validate the prompter's result against the exact request.
    #[verifier::loop_isolation(false)]
    pub fn validate_for(&self, request: &FileChooserRequest) -> (r: Result<(), String>)
        ensures
            match r {
                Ok(()) => response_error(*self, *request) is None,
                Err(e) => response_error(*self, *request) == Some(e@),
            },
    {
        match self {
            FileChooserResponse::Selected { paths, current_filter, choices } => {
                let n = paths.len();
                let expected: Option<usize> = match request.mode {
                    FileChooserMode::SaveFile => Some(1),
                    FileChooserMode::SaveFiles => Some(request.files.len()),
                    _ => if !request.multiple {
                        Some(1)
                    } else {
                        None
                    },
                };
                let wrong_count = match expected {
                    Some(e) => n != e,
                    None => false,
                };
                if n == 0 || wrong_count {
                    let mut m: Vec<char> = Vec::new();
                    push_str(&mut m, "prompter returned ");
                    push_all(&mut m, decimal(n as u64).as_slice());
                    push_str(&mut m, " path(s), incompatible with ");
                    push_mode(&mut m, request.mode);
                    return Err(string_of(m.as_slice()));
                }
                let mut i: usize = 0;
                while i < n
                    invariant
                        i <= n == paths@.len(),
                        paths_error(paths@, 0) == paths_error(paths@, i as int),
                    decreases n - i,
                {
                    if !abs_ok(&paths[i]) {
                        let lossy = string_from_utf8_lossy(paths[i].0.as_slice());
                        let mut m: Vec<char> = Vec::new();
                        push_str(&mut m, "prompter returned an invalid local path ");
                        quoted(&mut m, lossy.as_str());
                        return Err(string_of(m.as_slice()));
                    }
                    i = i + 1;
                }
                match current_filter {
                    Some(f) => {
                        let mut offered = offered_in(&request.filters, f);
                        if !offered && request.filters.len() == 0 {
                            match &request.current_filter {
                                Some(cf) => {
                                    offered = filter_eq(cf, f);
                                },
                                None => {},
                            }
                        }
                        if !offered {
                            return Err(String::from_str("prompter returned a filter that was not offered"));
                        }
                    },
                    None => {},
                }
                validate_choice_answers(choices.as_slice(), request.choices.as_slice())
            },
            _ => Ok(()),
        }
    }
}

/// Accept a decoded request envelope: its file chooser request, checked,
/// and the appearance.
pub fn accept_prompter_request(req: PrompterRequest) -> (r: Result<(FileChooserRequest, Option<PromptAppearance>), String>)
    ensures
        match req.prompt {
            PromptRequest::FileChooser(fc) => match request_error(fc) {
                Some(e) => r is Err && r->Err_0@ == e,
                None => r == Ok::<(FileChooserRequest, Option<PromptAppearance>), String>((fc, req.appearance)),
            },
            PromptRequest::Unknown => r is Err && r->Err_0@ == "request did not contain a file chooser prompt"@,
        },
{
    match req.prompt {
        PromptRequest::FileChooser(fc) => {
            match fc.validate() {
                Ok(()) => Ok((fc, req.appearance)),
                Err(e) => Err(e),
            }
        },
        PromptRequest::Unknown => Err(String::from_str("request did not contain a file chooser prompt")),
    }
}

// ---- SaveFiles names ----------------------------------------------------------

/// The bytes of ASCII text.
pub open spec fn ascii_bytes(cs: Seq<char>) -> Seq<u8> {
    Seq::new(cs.len(), |i: int| (cs[i] as u32) as u8)
}

/// A basename split at its last dot into stem and extension; a name without
/// a dot, with a leading dot only, or ending in a dot has no extension.
pub open spec fn split_ext(name: Seq<u8>) -> (Seq<u8>, Option<Seq<u8>>) {
    match last_byte(name, 0x2eu8, name.len() as int) {
        Some(d) => if d == 0 || d + 1 == name.len() {
            (name, None)
        } else {
            (name.take(d), Some(name.skip(d + 1)))
        },
        None => (name, None),
    }
}

/// Index of the last `b` in `s[..end]`.
pub open spec fn last_byte(s: Seq<u8>, b: u8, end: int) -> Option<int>
    decreases end,
{
    if end <= 0 {
        None
    } else if s[end - 1] == b {
        Some(end - 1)
    } else {
        last_byte(s, b, end - 1)
    }
}

/// The `n`-th name tried for a suggested basename: the name itself, then
/// `stem (n).ext`.
pub open spec fn save_candidate(name: Seq<u8>, n: nat) -> Seq<u8> {
    if n == 0 {
        name
    } else {
        let (stem, ext) = split_ext(name);
        stem + ascii_bytes(" ("@ + dec(n) + ")"@) + match ext {
            Some(e) => seq![0x2eu8] + e,
            None => Seq::empty(),
        }
    }
}

/// `folder` joined with the relative `name`.
pub open spec fn byte_join(folder: Seq<u8>, name: Seq<u8>) -> Seq<u8> {
    if folder.len() == 0 {
        name
    } else if folder.last() == 0x2fu8 {
        folder + name
    } else {
        folder + seq![0x2fu8] + name
    }
}

/// The first candidate number from `n` (up to `u32::MAX`) whose path is not taken.
pub open spec fn first_free_candidate(folder: Seq<u8>, name: Seq<u8>, taken: Seq<Seq<u8>>, n: nat) -> Option<nat>
    decreases u32::MAX + 1 - n,
{
    if n > u32::MAX {
        None
    } else if !taken.contains(byte_join(folder, save_candidate(name, n))) {
        Some(n)
    } else {
        first_free_candidate(folder, name, taken, n + 1)
    }
}

/// A path in `folder` for the suggested basename `name` that is not among
/// `taken`, or the error.
pub open spec fn unique_child_spec(folder: Seq<u8>, name: Seq<u8>, taken: Seq<Seq<u8>>) -> Result<Seq<u8>, Seq<char>> {
    match basename_error(name) {
        Some(e) => Err(e),
        None => match first_free_candidate(folder, name, taken, 0) {
            Some(n) => Ok(byte_join(folder, save_candidate(name, n))),
            None => Err("could not construct a unique filename for "@ + debug_text(utf8_lossy(name))),
        },
    }
}

/// The byte contents of byte paths.
pub open spec fn byte_paths(v: Seq<BytePath>) -> Seq<Seq<u8>> {
    Seq::new(v.len(), |i: int| v[i].0@)
}

/// The paths for the first `k` suggested basenames in `folder`, each avoiding
/// the paths `occupied` and the ones chosen before it.
pub open spec fn finish_spec(folder: Seq<u8>, files: Seq<Seq<u8>>, occupied: Seq<Seq<u8>>, k: int) -> Result<Seq<Seq<u8>>, Seq<char>>
    decreases k,
{
    if k <= 0 {
        Ok(Seq::empty())
    } else {
        match finish_spec(folder, files, occupied, k - 1) {
            Err(e) => Err(e),
            Ok(done) => match unique_child_spec(folder, files[k - 1], done + occupied) {
                Ok(p) => Ok(done.push(p)),
                Err(e) => Err(e),
            },
        }
    }
}

/// The bytes `s[a..b]`.
pub(crate) fn byte_range(s: &[u8], a: usize, b: usize) -> (r: Vec<u8>)
    requires
        a <= b <= s@.len(),
    ensures
        r@ == s@.subrange(a as int, b as int),
{
    let mut r: Vec<u8> = Vec::new();
    let mut k = a;
    while k < b
        invariant
            a <= k <= b <= s@.len(),
            r@ == s@.subrange(a as int, k as int),
        decreases b - k,
    {
        r.push(s[k]);
        k = k + 1;
        assert(r@ =~= s@.subrange(a as int, k as int));
    }
    r
}

/// Whether two byte strings are equal.
fn bytes_equal(a: &[u8], b: &[u8]) -> (r: bool)
    ensures
        r == (a@ == b@),
{
    if a.len() != b.len() {
        return false;
    }
    let mut k: usize = 0;
    while k < a.len()
        invariant
            a@.len() == b@.len(),
            k <= a@.len(),
            forall|j: int| 0 <= j < k ==> a@[j] == b@[j],
        decreases a@.len() - k,
    {
        if a[k] != b[k] {
            return false;
        }
        k = k + 1;
    }
    assert(a@ =~= b@);
    true
}

fn push_bytes(dst: &mut Vec<u8>, src: &[u8])
    ensures
        final(dst)@ == old(dst)@ + src@,
{
    let mut k: usize = 0;
    while k < src.len()
        invariant
            k <= src@.len(),
            dst@ == old(dst)@ + src@.take(k as int),
        decreases src@.len() - k,
    {
        dst.push(src[k]);
        k = k + 1;
        assert(src@.take(k as int) =~= src@.take(k - 1).push(src@[k - 1]));
    }
    assert(src@.take(src@.len() as int) =~= src@);
}

fn push_ascii(dst: &mut Vec<u8>, cs: &[char])
    ensures
        final(dst)@ == old(dst)@ + ascii_bytes(cs@),
{
    let mut k: usize = 0;
    while k < cs.len()
        invariant
            k <= cs@.len(),
            dst@ == old(dst)@ + ascii_bytes(cs@.take(k as int)),
        decreases cs@.len() - k,
    {
        dst.push((cs[k] as u32) as u8);
        k = k + 1;
        assert(ascii_bytes(cs@.take(k as int)) =~= ascii_bytes(cs@.take(k - 1)).push((cs@[k - 1] as u32) as u8));
    }
    assert(cs@.take(cs@.len() as int) =~= cs@);
}

fn split_ext_exec(name: &[u8]) -> (r: (usize, Option<usize>))
    ensures
        r.0 <= name@.len(),
        r.1 matches Some(e) ==> r.0 < e <= name@.len(),
        split_ext(name@) == (name@.take(r.0 as int), match r.1 {
            Some(e) => Some(name@.skip(e as int)),
            None => None,
        }),
{
    let n = name.len();
    let mut end = n;
    while end > 0 && name[end - 1] != 0x2e
        invariant
            end <= n,
            n == name@.len(),
            last_byte(name@, 0x2eu8, end as int) == last_byte(name@, 0x2eu8, n as int),
        decreases end,
    {
        end = end - 1;
    }
    assert(name@.take(n as int) =~= name@);
    if end == 0 {
        return (n, None);
    }
    let d = end - 1;
    if d == 0 || d + 1 == n {
        (n, None)
    } else {
        (d, Some(d + 1))
    }
}

fn candidate_bytes(name: &[u8], n: u64) -> (r: Vec<u8>)
    ensures
        r@ == save_candidate(name@, n as nat),
{
    if n == 0 {
        let mut r: Vec<u8> = Vec::new();
        push_bytes(&mut r, name);
        assert(r@ =~= name@);
        return r;
    }
    let (stem_end, ext) = split_ext_exec(name);
    let mut r: Vec<u8> = Vec::new();
    let stem = byte_range(name, 0, stem_end);
    push_bytes(&mut r, stem.as_slice());
    let mut label: Vec<char> = Vec::new();
    push_str(&mut label, " (");
    let digits = decimal(n);
    push_all(&mut label, digits.as_slice());
    push_str(&mut label, ")");
    push_ascii(&mut r, label.as_slice());
    match ext {
        Some(e) => {
            r.push(0x2e);
            let rest = byte_range(name, e, name.len());
            push_bytes(&mut r, rest.as_slice());
        },
        None => {},
    }
    assert(r@ =~= save_candidate(name@, n as nat));
    r
}

fn join_bytes(folder: &[u8], name: &[u8]) -> (r: Vec<u8>)
    ensures
        r@ == byte_join(folder@, name@),
{
    let mut r: Vec<u8> = Vec::new();
    push_bytes(&mut r, folder);
    if folder.len() > 0 && folder[folder.len() - 1] != 0x2f {
        r.push(0x2f);
    }
    push_bytes(&mut r, name);
    assert(r@ =~= byte_join(folder@, name@));
    r
}

fn taken_by(taken: &Vec<BytePath>, extra: &[BytePath], p: &[u8]) -> (r: bool)
    ensures
        r == (byte_paths(taken@) + byte_paths(extra@)).contains(p@),
{
    let ghost all = byte_paths(taken@) + byte_paths(extra@);
    let mut k: usize = 0;
    while k < taken.len()
        invariant
            all == byte_paths(taken@) + byte_paths(extra@),
            k <= taken@.len(),
            forall|j: int| 0 <= j < k ==> byte_paths(taken@)[j] != p@,
        decreases taken@.len() - k,
    {
        if bytes_equal(taken[k].0.as_slice(), p) {
            assert(byte_paths(taken@)[k as int] == p@);
            assert(all[k as int] == p@);
            return true;
        }
        k = k + 1;
    }
    let mut j: usize = 0;
    while j < extra.len()
        invariant
            all == byte_paths(taken@) + byte_paths(extra@),
            j <= extra@.len(),
            forall|i: int| 0 <= i < taken@.len() ==> byte_paths(taken@)[i] != p@,
            forall|i: int| 0 <= i < j ==> byte_paths(extra@)[i] != p@,
        decreases extra@.len() - j,
    {
        if bytes_equal(extra[j].0.as_slice(), p) {
            assert(byte_paths(extra@)[j as int] == p@);
            assert(all[taken@.len() + j] == p@);
            return true;
        }
        j = j + 1;
    }
    assert forall|i: int| 0 <= i < all.len() implies all[i] != p@ by {
        if i < taken@.len() {
            assert(all[i] == byte_paths(taken@)[i]);
        } else {
            assert(all[i] == byte_paths(extra@)[i - taken@.len()]);
        }
    }
    false
}

/// A path in `folder` for `name` avoiding `reserved` and `occupied`.
fn unique_child(folder: &[u8], name: &[u8], reserved: &Vec<BytePath>, occupied: &[BytePath]) -> (r: Result<BytePath, String>)
    ensures
        match r {
            Ok(p) => unique_child_spec(folder@, name@, byte_paths(reserved@) + byte_paths(occupied@)) == Ok::<Seq<u8>, Seq<char>>(p.0@),
            Err(e) => unique_child_spec(folder@, name@, byte_paths(reserved@) + byte_paths(occupied@)) == Err::<Seq<u8>, Seq<char>>(e@),
        },
{
    let ghost taken = byte_paths(reserved@) + byte_paths(occupied@);
    match validate_basename(name) {
        Err(e) => {
            return Err(e);
        },
        Ok(()) => {},
    }
    let mut n: u64 = 0;
    while n <= 4294967295
        invariant
            taken == byte_paths(reserved@) + byte_paths(occupied@),
            basename_error(name@) is None,
            n <= 4294967296,
            first_free_candidate(folder@, name@, taken, n as nat) == first_free_candidate(folder@, name@, taken, 0),
        decreases 4294967296 - n,
    {
        let cand = candidate_bytes(name, n);
        let path = join_bytes(folder, cand.as_slice());
        if !taken_by(reserved, occupied, path.as_slice()) {
            assert(first_free_candidate(folder@, name@, taken, n as nat) == Some(n as nat));
            return Ok(BytePath(path));
        }
        n = n + 1;
    }
    assert(first_free_candidate(folder@, name@, taken, n as nat) is None);
    let lossy = string_from_utf8_lossy(name);
    let mut m: Vec<char> = Vec::new();
    push_str(&mut m, "could not construct a unique filename for ");
    push_str(&mut m, debug_quoted(lossy.as_str()).as_str());
    Err(string_of(m.as_slice()))
}

impl FileChooserRequest {
    /// The final paths of a chooser answer: for `SaveFiles`, one path per
    /// suggested basename in the chosen folder (the first selected path),
    /// each avoiding the `occupied` paths and the ones chosen before it;
    /// other modes keep the selection.
    pub fn finish_paths(&self, selected: Vec<BytePath>, occupied: &[BytePath]) -> (r: Result<Vec<BytePath>, String>)
        ensures
            self.mode != FileChooserMode::SaveFiles ==> (r matches Ok(v) && byte_paths(v@) == byte_paths(selected@)),
            self.mode == FileChooserMode::SaveFiles && selected@.len() == 0 ==> (r matches Err(e) && e@ == "SaveFiles returned no selected folder"@),
            self.mode == FileChooserMode::SaveFiles && selected@.len() > 0 ==> match finish_spec(
                selected@[0].0@,
                byte_paths(self.files@),
                byte_paths(occupied@),
                self.files@.len() as int,
            ) {
                Ok(ps) => r matches Ok(v) && byte_paths(v@) == ps,
                Err(e) => r matches Err(m) && m@ == e,
            },
    {
        if self.mode != FileChooserMode::SaveFiles {
            return Ok(selected);
        }
        if selected.len() == 0 {
            return Err(String::from_str("SaveFiles returned no selected folder"));
        }
        let folder = &selected[0].0;
        let ghost fs = byte_paths(self.files@);
        let mut out: Vec<BytePath> = Vec::new();
        assert(byte_paths(out@) =~= Seq::<Seq<u8>>::empty());
        let mut k: usize = 0;
        while k < self.files.len()
            invariant
                self.mode == FileChooserMode::SaveFiles,
                selected@.len() > 0,
                k <= self.files@.len(),
                fs == byte_paths(self.files@),
                folder@ == selected@[0].0@,
                finish_spec(folder@, fs, byte_paths(occupied@), k as int) == Ok::<Seq<Seq<u8>>, Seq<char>>(byte_paths(out@)),
            decreases self.files@.len() - k,
        {
            match unique_child(folder.as_slice(), self.files[k].0.as_slice(), &out, occupied) {
                Ok(p) => {
                    let ghost before = byte_paths(out@);
                    out.push(p);
                    assert(byte_paths(out@) =~= before.push(p.0@));
                },
                Err(e) => {
                    proof {
                        lemma_finish_err(folder@, fs, byte_paths(occupied@), k as int + 1, self.files@.len() as int, e@);
                    }
                    return Err(e);
                },
            }
            k = k + 1;
        }
        assert(fs.len() == self.files@.len());
        Ok(out)
    }
}

proof fn lemma_finish_err(folder: Seq<u8>, files: Seq<Seq<u8>>, occupied: Seq<Seq<u8>>, k: int, n: int, e: Seq<char>)
    requires
        1 <= k <= n,
        finish_spec(folder, files, occupied, k) == Err::<Seq<Seq<u8>>, Seq<char>>(e),
    ensures
        finish_spec(folder, files, occupied, n) == Err::<Seq<Seq<u8>>, Seq<char>>(e),
    decreases n - k,
{
    if n > k {
        lemma_finish_err(folder, files, occupied, k, n - 1, e);
    }
}

} // verus!
