//! Thumbnails: where the encoded picture of a file lies (plain image files,
//! FLAC `PICTURE` blocks, ID3v2 `APIC`/`PIC` frames), the on-disk cache entry
//! format, and the request / result / LRU bookkeeping of the decode service.
//!
//! Every parser works on the bytes of a file and never indexes outside them:
//! malformed input gives `None`.
use vstd::prelude::*;
use vstd::utf8::*;
use crate::lantern::chooser::{lower_chars, path_extension, path_extension_exec};
use crate::text::{ascii_lower_seq, string_of};

verus! {

/// Longest edge of a decoded thumbnail.
pub const THUMB_SIZE: u32 = 128;

/// Upper bound for any single buffer read from disk.
pub const READ_CAP: u64 = 33554432;

/// Unfinished requests beyond this many drop the oldest queued one.
pub const MAX_PENDING: usize = 256;

/// Most thumbnails held in memory.
pub const MAX_CACHED: usize = 512;

/// Most pixel bytes held in memory.
pub const MAX_CACHE_BYTES: usize = 67108864;

/// Upper bound of the decode pool.
pub const MAX_WORKERS: usize = 4;

/// Bound on the on-disk cache, enforced once per start.
pub const MAX_DISK_ENTRIES: usize = 4096;

/// Disk entry header: width u32 LE, height u32 LE, source size u64 LE,
/// source mtime seconds u64 LE.
pub const DISK_HEADER: usize = 24;

// ---- integers in byte sequences -------------------------------------------

/// Big-endian 32-bit value at `i`.
pub open spec fn be32(s: Seq<u8>, i: int) -> int {
    s[i] * 16777216 + s[i + 1] * 65536 + s[i + 2] * 256 + s[i + 3]
}

/// Big-endian 24-bit value at `i`.
pub open spec fn be24(s: Seq<u8>, i: int) -> int {
    s[i] * 65536 + s[i + 1] * 256 + s[i + 2]
}

/// Little-endian 32-bit value at `i`.
pub open spec fn le32(s: Seq<u8>, i: int) -> int {
    s[i] + s[i + 1] * 256 + s[i + 2] * 65536 + s[i + 3] * 16777216
}

/// Little-endian 64-bit value at `i`.
pub open spec fn le64(s: Seq<u8>, i: int) -> int {
    le32(s, i) + le32(s, i + 4) * 4294967296
}

/// Whether the four bytes at `i` form an ID3 "syncsafe" integer (top bits clear).
pub open spec fn syncsafe_ok(s: Seq<u8>, i: int) -> bool {
    s[i] < 128 && s[i + 1] < 128 && s[i + 2] < 128 && s[i + 3] < 128
}

/// Value of the syncsafe integer at `i`: four 7-bit groups, most significant first.
pub open spec fn syncsafe_val(s: Seq<u8>, i: int) -> int {
    s[i] * 2097152 + s[i + 1] * 16384 + s[i + 2] * 128 + s[i + 3]
}

fn read_be32(s: &[u8], i: usize) -> (r: u32)
    requires
        i + 4 <= s@.len(),
    ensures
        r == be32(s@, i as int),
{
    let a = s[i] as u32;
    let b = s[i + 1] as u32;
    let c = s[i + 2] as u32;
    let d = s[i + 3] as u32;
    a * 16777216 + b * 65536 + c * 256 + d
}

fn read_be24(s: &[u8], i: usize) -> (r: u32)
    requires
        i + 3 <= s@.len(),
    ensures
        r == be24(s@, i as int),
{
    let a = s[i] as u32;
    let b = s[i + 1] as u32;
    let c = s[i + 2] as u32;
    a * 65536 + b * 256 + c
}

fn read_le32(s: &[u8], i: usize) -> (r: u32)
    requires
        i + 4 <= s@.len(),
    ensures
        r == le32(s@, i as int),
{
    let a = s[i] as u32;
    let b = s[i + 1] as u32;
    let c = s[i + 2] as u32;
    let d = s[i + 3] as u32;
    a + b * 256 + c * 65536 + d * 16777216
}

fn read_le64(s: &[u8], i: usize) -> (r: u64)
    requires
        i + 8 <= s@.len(),
    ensures
        r == le64(s@, i as int),
{
    let n = s.len();
    let lo = read_le32(s, i) as u64;
    let hi = read_le32(s, i + 4) as u64;
    lo + hi * 4294967296
}

/// The ID3 syncsafe integer at `i`, or `None` when a byte has its top bit set.
fn read_syncsafe(s: &[u8], i: usize) -> (r: Option<u32>)
    requires
        i + 4 <= s@.len(),
    ensures
        syncsafe_ok(s@, i as int) ==> r == Some(syncsafe_val(s@, i as int) as u32),
        !syncsafe_ok(s@, i as int) ==> r is None,
        r matches Some(v) ==> v == syncsafe_val(s@, i as int),
{
    let a = s[i] as u32;
    let b = s[i + 1] as u32;
    let c = s[i + 2] as u32;
    let d = s[i + 3] as u32;
    if a >= 128 || b >= 128 || c >= 128 || d >= 128 {
        None
    } else {
        Some(a * 2097152 + b * 16384 + c * 128 + d)
    }
}

/// The bytes `s[a..b]`.
fn copy_range(s: &[u8], a: usize, b: usize) -> (r: Vec<u8>)
    requires
        a <= b <= s@.len(),
    ensures
        r@ == s@.subrange(a as int, b as int),
{
    let mut r: Vec<u8> = Vec::new();
    let mut k = a;
    while k < b
        invariant
            a <= k <= b <= s@.len(),
            r@ == s@.subrange(a as int, k as int),
        decreases b - k,
    {
        r.push(s[k]);
        k = k + 1;
        assert(r@ =~= s@.subrange(a as int, k as int));
    }
    r
}

/// A range found by a parser, as mathematical integers.
pub open spec fn opt_range(r: Option<(usize, usize)>) -> Option<(int, int)> {
    match r {
        Some((a, b)) => Some((a as int, b as int)),
        None => None,
    }
}

/// The bytes of `s` in the range `r`, if there is one.
pub open spec fn range_bytes(s: Seq<u8>, r: Option<(int, int)>) -> Option<Seq<u8>> {
    match r {
        Some((a, b)) => Some(s.subrange(a, b)),
        None => None,
    }
}

/// The contents of an optional byte vector.
pub open spec fn opt_bytes(v: Option<Vec<u8>>) -> Option<Seq<u8>> {
    match v {
        Some(x) => Some(x@),
        None => None,
    }
}

// ---- terminated strings ----------------------------------------------------

/// Index of the first NUL byte in `s[i..end]`.
pub open spec fn first_zero(s: Seq<u8>, i: int, end: int) -> Option<int>
    decreases end - i,
{
    if i >= end {
        None
    } else if s[i] == 0 {
        Some(i)
    } else {
        first_zero(s, i + 1, end)
    }
}

/// Index of the first NUL pair at an even offset from `i` in `s[i..end]`.
pub open spec fn zero_pair(s: Seq<u8>, i: int, end: int) -> Option<int>
    decreases end - i,
{
    if i + 1 >= end {
        None
    } else if s[i] == 0 && s[i + 1] == 0 {
        Some(i)
    } else {
        zero_pair(s, i + 2, end)
    }
}

/// Where the bytes after a string starting at `i` begin: encodings 1 and 2
/// (UTF-16) end at an aligned NUL pair, the others at one NUL.
pub open spec fn text_data_start(s: Seq<u8>, i: int, end: int, encoding: u8) -> Option<int> {
    if encoding == 1 || encoding == 2 {
        match zero_pair(s, i, end) {
            Some(p) => Some(p + 2),
            None => None,
        }
    } else {
        match first_zero(s, i, end) {
            Some(p) => Some(p + 1),
            None => None,
        }
    }
}

proof fn lemma_first_zero_bounds(s: Seq<u8>, i: int, end: int)
    ensures
        first_zero(s, i, end) matches Some(p) ==> i <= p < end && s[p] == 0,
    decreases end - i,
{
    if i < end && s[i] != 0 {
        lemma_first_zero_bounds(s, i + 1, end);
    }
}

proof fn lemma_zero_pair_bounds(s: Seq<u8>, i: int, end: int)
    ensures
        zero_pair(s, i, end) matches Some(p) ==> i <= p && p + 1 < end,
    decreases end - i,
{
    if i + 1 < end && !(s[i] == 0 && s[i + 1] == 0) {
        lemma_zero_pair_bounds(s, i + 2, end);
    }
}

fn find_zero(s: &[u8], i: usize, end: usize) -> (r: Option<usize>)
    requires
        i <= end <= s@.len(),
    ensures
        opt_index(r) == first_zero(s@, i as int, end as int),
{
    let mut k = i;
    while k < end
        invariant
            i <= k <= end <= s@.len(),
            first_zero(s@, k as int, end as int) == first_zero(s@, i as int, end as int),
        decreases end - k,
    {
        if s[k] == 0 {
            return Some(k);
        }
        k = k + 1;
    }
    None
}

fn find_zero_pair(s: &[u8], i: usize, end: usize) -> (r: Option<usize>)
    requires
        i <= end <= s@.len(),
    ensures
        opt_index(r) == zero_pair(s@, i as int, end as int),
{
    let mut k = i;
    while k < end && end - k > 1
        invariant
            i <= k,
            end <= s@.len(),
            zero_pair(s@, k as int, end as int) == zero_pair(s@, i as int, end as int),
        decreases end - k,
    {
        if s[k] == 0 && s[k + 1] == 0 {
            return Some(k);
        }
        k = k + 2;
    }
    None
}

/// An optional index, as a mathematical integer.
pub open spec fn opt_index(r: Option<usize>) -> Option<int> {
    match r {
        Some(p) => Some(p as int),
        None => None,
    }
}

fn text_start(s: &[u8], i: usize, end: usize, encoding: u8) -> (r: Option<usize>)
    requires
        i <= end <= s@.len(),
    ensures
        opt_index(r) == text_data_start(s@, i as int, end as int, encoding),
        r matches Some(d) ==> d <= end,
{
    if encoding == 1 || encoding == 2 {
        proof {
            lemma_zero_pair_bounds(s@, i as int, end as int);
        }
        match find_zero_pair(s, i, end) {
            Some(p) => Some(p + 2),
            None => None,
        }
    } else {
        proof {
            lemma_first_zero_bounds(s@, i as int, end as int);
        }
        match find_zero(s, i, end) {
            Some(p) => Some(p + 1),
            None => None,
        }
    }
}

// ---- ID3v2 -----------------------------------------------------------------

/// ASCII letter or digit.
pub open spec fn is_alnum(b: u8) -> bool {
    (48 <= b <= 57) || (65 <= b <= 90) || (97 <= b <= 122)
}

/// Whether the `n` bytes from `a` are all NUL (frame padding).
pub open spec fn all_zero(s: Seq<u8>, a: int, n: int) -> bool {
    forall|k: int| a <= k < a + n ==> s[k] == 0
}

/// Picture data of an `APIC` body `s[a..b]`: text encoding byte, NUL-terminated
/// MIME type, picture type byte, description terminated per its encoding, data.
pub open spec fn apic_data(s: Seq<u8>, a: int, b: int) -> Option<(int, int)> {
    if a >= b || s[a] > 3 {
        None
    } else {
        match first_zero(s, a + 1, b) {
            None => None,
            Some(z) => if z + 1 >= b {
                None
            } else {
                match text_data_start(s, z + 2, b, s[a]) {
                    None => None,
                    Some(d) => if d >= b {
                        None
                    } else {
                        Some((d, b))
                    },
                }
            },
        }
    }
}

/// Picture data of a `PIC` body `s[a..b]` (ID3v2.2): like `APIC` with a fixed
/// three-byte image format in place of the MIME type.
pub open spec fn pic_data(s: Seq<u8>, a: int, b: int) -> Option<(int, int)> {
    if a >= b || s[a] > 3 {
        None
    } else if a + 4 >= b {
        None
    } else {
        match text_data_start(s, a + 5, b, s[a]) {
            None => None,
            Some(d) => if d >= b {
                None
            } else {
                Some((d, b))
            },
        }
    }
}

/// Size of the frame whose size field starts at `p`: big-endian in v2.3,
/// syncsafe in v2.4.
pub open spec fn frame_size(s: Seq<u8>, p: int, major: u8) -> Option<int> {
    if major == 3 {
        Some(be32(s, p))
    } else if syncsafe_ok(s, p) {
        Some(syncsafe_val(s, p))
    } else {
        None
    }
}

/// The picture of the first `APIC` frame among the v2.3/v2.4 frames in `s[pos..end]`.
pub open spec fn id3_frames(s: Seq<u8>, pos: int, end: int, major: u8) -> Option<(int, int)>
    decreases end - pos,
{
    if pos + 10 > end {
        None
    } else if all_zero(s, pos, 10) {
        None
    } else if !(is_alnum(s[pos]) && is_alnum(s[pos + 1]) && is_alnum(s[pos + 2]) && is_alnum(
        s[pos + 3],
    )) {
        None
    } else {
        match frame_size(s, pos + 4, major) {
            None => None,
            Some(size) => {
                let body_end = pos + 10 + size;
                if size < 0 || body_end > end {
                    None
                } else if s[pos] == 65 && s[pos + 1] == 80 && s[pos + 2] == 73 && s[pos + 3] == 67 {
                    apic_data(s, pos + 10, body_end)
                } else {
                    id3_frames(s, body_end, end, major)
                }
            },
        }
    }
}

/// The picture of the first `PIC` frame among the v2.2 frames in `s[pos..end]`.
pub open spec fn id3_v22_frames(s: Seq<u8>, pos: int, end: int) -> Option<(int, int)>
    decreases end - pos,
{
    if pos + 6 > end {
        None
    } else if all_zero(s, pos, 6) {
        None
    } else if !(is_alnum(s[pos]) && is_alnum(s[pos + 1]) && is_alnum(s[pos + 2])) {
        None
    } else {
        let body_end = pos + 6 + be24(s, pos + 3);
        proof {
            assert(body_end >= pos + 6);
        }
        if body_end > end {
            None
        } else if s[pos] == 80 && s[pos + 1] == 73 && s[pos + 2] == 67 {
            pic_data(s, pos + 6, body_end)
        } else {
            id3_v22_frames(s, body_end, end)
        }
    }
}

/// Where the frames of an ID3 tag ending at `end` begin: after the 10-byte
/// header, and after the extended header when flag 0x40 is set (v2.3: a
/// big-endian size not counting itself; v2.4: a syncsafe size counting itself).
pub open spec fn id3_frames_start(s: Seq<u8>, major: u8, flags: u8, end: int) -> Option<int> {
    if (flags / 64) % 2 == 0 || major == 2 {
        Some(10)
    } else if major == 3 {
        if 14 > end || 14 + be32(s, 10) > end {
            None
        } else {
            Some(14 + be32(s, 10))
        }
    } else {
        if 14 > end || !syncsafe_ok(s, 10) {
            None
        } else if syncsafe_val(s, 10) < 4 || 10 + syncsafe_val(s, 10) > end {
            None
        } else {
            Some(10 + syncsafe_val(s, 10))
        }
    }
}

/// The picture in the ID3v2 tag at the start of `s`: the first `APIC`
/// (v2.3, v2.4) or `PIC` (v2.2) frame.
pub open spec fn id3_picture_range(s: Seq<u8>) -> Option<(int, int)> {
    if s.len() < 10 {
        None
    } else if !(s[0] == 73 && s[1] == 68 && s[2] == 51) {
        None
    } else if s[3] < 2 || s[3] > 4 || s[4] == 255 {
        None
    } else if !syncsafe_ok(s, 6) {
        None
    } else if syncsafe_val(s, 6) >= READ_CAP || 10 + syncsafe_val(s, 6) > s.len() {
        None
    } else {
        let end = 10 + syncsafe_val(s, 6);
        match id3_frames_start(s, s[3], s[5], end) {
            None => None,
            Some(start) => if s[3] == 2 {
                id3_v22_frames(s, start, end)
            } else {
                id3_frames(s, start, end, s[3])
            },
        }
    }
}

fn apic_exec(s: &[u8], a: usize, b: usize) -> (r: Option<(usize, usize)>)
    requires
        a <= b <= s@.len(),
    ensures
        opt_range(r) == apic_data(s@, a as int, b as int),
        r matches Some((x, y)) ==> x <= y <= s@.len(),
{
    if a >= b || s[a] > 3 {
        return None;
    }
    proof {
        lemma_first_zero_bounds(s@, a + 1, b as int);
    }
    match find_zero(s, a + 1, b) {
        None => None,
        Some(z) => if z + 1 >= b {
            None
        } else {
            match text_start(s, z + 2, b, s[a]) {
                None => None,
                Some(d) => if d >= b {
                    None
                } else {
                    Some((d, b))
                },
            }
        },
    }
}

fn pic_exec(s: &[u8], a: usize, b: usize) -> (r: Option<(usize, usize)>)
    requires
        a <= b <= s@.len(),
    ensures
        opt_range(r) == pic_data(s@, a as int, b as int),
        r matches Some((x, y)) ==> x <= y <= s@.len(),
{
    if a >= b || s[a] > 3 {
        return None;
    }
    if b - a <= 4 {
        return None;
    }
    match text_start(s, a + 5, b, s[a]) {
        None => None,
        Some(d) => if d >= b {
            None
        } else {
            Some((d, b))
        },
    }
}

fn all_zero_exec(s: &[u8], a: usize, n: usize) -> (r: bool)
    requires
        a + n <= s@.len(),
    ensures
        r == all_zero(s@, a as int, n as int),
{
    let total = s.len();
    let mut k: usize = 0;
    while k < n
        invariant
            k <= n,
            total == s@.len(),
            a + n <= s@.len(),
            forall|j: int| a <= j < a + k ==> s@[j] == 0,
        decreases n - k,
    {
        if s[a + k] != 0 {
            return false;
        }
        k = k + 1;
    }
    true
}

fn alnum(b: u8) -> (r: bool)
    ensures
        r == is_alnum(b),
{
    (48 <= b && b <= 57) || (65 <= b && b <= 90) || (97 <= b && b <= 122)
}

fn id3_frames_exec(s: &[u8], start: usize, end: usize, major: u8) -> (r: Option<(usize, usize)>)
    requires
        start <= end <= s@.len(),
    ensures
        opt_range(r) == id3_frames(s@, start as int, end as int, major),
        r matches Some((x, y)) ==> x <= y <= s@.len(),
{
    let mut pos = start;
    loop
        invariant
            start <= pos,
            end <= s@.len(),
            id3_frames(s@, pos as int, end as int, major) == id3_frames(
                s@,
                start as int,
                end as int,
                major,
            ),
        decreases end - pos,
    {
        if pos > end || end - pos < 10 {
            return None;
        }
        if all_zero_exec(s, pos, 10) {
            return None;
        }
        if !(alnum(s[pos]) && alnum(s[pos + 1]) && alnum(s[pos + 2]) && alnum(s[pos + 3])) {
            return None;
        }
        let size: u32 = if major == 3 {
            read_be32(s, pos + 4)
        } else {
            match read_syncsafe(s, pos + 4) {
                Some(v) => v,
                None => {
                    return None;
                },
            }
        };
        let size = size as usize;
        if size > end - pos - 10 {
            return None;
        }
        let body_end = pos + 10 + size;
        if s[pos] == 65 && s[pos + 1] == 80 && s[pos + 2] == 73 && s[pos + 3] == 67 {
            return apic_exec(s, pos + 10, body_end);
        }
        pos = body_end;
    }
}

fn id3_v22_frames_exec(s: &[u8], start: usize, end: usize) -> (r: Option<(usize, usize)>)
    requires
        start <= end <= s@.len(),
    ensures
        opt_range(r) == id3_v22_frames(s@, start as int, end as int),
        r matches Some((x, y)) ==> x <= y <= s@.len(),
{
    let mut pos = start;
    loop
        invariant
            start <= pos,
            end <= s@.len(),
            id3_v22_frames(s@, pos as int, end as int) == id3_v22_frames(
                s@,
                start as int,
                end as int,
            ),
        decreases end - pos,
    {
        if pos > end || end - pos < 6 {
            return None;
        }
        if all_zero_exec(s, pos, 6) {
            return None;
        }
        if !(alnum(s[pos]) && alnum(s[pos + 1]) && alnum(s[pos + 2])) {
            return None;
        }
        let size = read_be24(s, pos + 3) as usize;
        if size > end - pos - 6 {
            return None;
        }
        let body_end = pos + 6 + size;
        if s[pos] == 80 && s[pos + 1] == 73 && s[pos + 2] == 67 {
            return pic_exec(s, pos + 6, body_end);
        }
        pos = body_end;
    }
}

/// The encoded picture in the ID3v2 tag at the start of an MP3 file's bytes.
pub fn id3_picture(content: &[u8]) -> (r: Option<Vec<u8>>)
    ensures
        opt_bytes(r) == range_bytes(content@, id3_picture_range(content@)),
{
    let n = content.len();
    if n < 10 {
        return None;
    }
    if !(content[0] == 73 && content[1] == 68 && content[2] == 51) {
        return None;
    }
    let major = content[3];
    if major < 2 || major > 4 || content[4] == 255 {
        return None;
    }
    let flags = content[5];
    let tag_size = match read_syncsafe(content, 6) {
        Some(v) => v,
        None => {
            return None;
        },
    };
    if tag_size as u64 >= READ_CAP || tag_size as usize > n - 10 {
        return None;
    }
    let end = 10 + tag_size as usize;
    let start: usize = if (flags / 64) % 2 == 0 || major == 2 {
        10
    } else if major == 3 {
        if end < 14 {
            return None;
        }
        let size = read_be32(content, 10) as usize;
        if size > end - 14 {
            return None;
        }
        14 + size
    } else {
        if end < 14 {
            return None;
        }
        let size = match read_syncsafe(content, 10) {
            Some(v) => v as usize,
            None => {
                return None;
            },
        };
        if size < 4 || size > end - 10 {
            return None;
        }
        10 + size
    };
    assert(id3_frames_start(content@, major, flags, end as int) == Some(start as int));
    let found = if major == 2 {
        id3_v22_frames_exec(content, start, end)
    } else {
        id3_frames_exec(content, start, end, major)
    };
    match found {
        Some((a, b)) => Some(copy_range(content, a, b)),
        None => None,
    }
}

// ---- FLAC ------------------------------------------------------------------

/// Picture data of a FLAC `PICTURE` block body `s[a..b]`: picture type,
/// MIME type (length-prefixed), description (length-prefixed), width,
/// height, depth, colour count, then the length-prefixed data, which must
/// be shorter than [`READ_CAP`].
pub open spec fn flac_block(s: Seq<u8>, a: int, b: int) -> Option<(int, int)> {
    if a + 8 > b {
        None
    } else {
        let p1 = a + 8 + be32(s, a + 4);
        if p1 + 4 > b {
            None
        } else {
            let p2 = p1 + 4 + be32(s, p1);
            if p2 + 20 > b {
                None
            } else {
                let data_len = be32(s, p2 + 16);
                if data_len >= READ_CAP || p2 + 20 + data_len > b {
                    None
                } else {
                    Some((p2 + 20, p2 + 20 + data_len))
                }
            }
        }
    }
}

/// The first `PICTURE` block (type 6) among the metadata blocks from `pos`:
/// each block has a header byte (top bit: last block; low seven bits: type)
/// and a 24-bit big-endian length.
pub open spec fn flac_scan(s: Seq<u8>, pos: int) -> Option<(int, int)>
    decreases s.len() - pos,
{
    if pos < 0 || pos + 4 > s.len() {
        None
    } else {
        let length = be24(s, pos + 1);
        proof {
            assert(length >= 0);
        }
        if s[pos] % 128 == 6 {
            if pos + 4 + length > s.len() {
                None
            } else {
                flac_block(s, pos + 4, pos + 4 + length)
            }
        } else if s[pos] >= 128 || pos + 4 + length > s.len() {
            None
        } else {
            flac_scan(s, pos + 4 + length)
        }
    }
}

/// The picture of a FLAC stream: the `fLaC` marker, then its metadata blocks.
pub open spec fn flac_picture_range(s: Seq<u8>) -> Option<(int, int)> {
    if s.len() < 4 || !(s[0] == 102 && s[1] == 76 && s[2] == 97 && s[3] == 67) {
        None
    } else {
        flac_scan(s, 4)
    }
}

fn flac_block_exec(s: &[u8], a: usize, b: usize) -> (r: Option<(usize, usize)>)
    requires
        a <= b <= s@.len(),
    ensures
        opt_range(r) == flac_block(s@, a as int, b as int),
        r matches Some((x, y)) ==> x <= y <= s@.len(),
{
    if b - a < 8 {
        return None;
    }
    let mime_len = read_be32(s, a + 4) as usize;
    if mime_len > b - a - 8 || b - a - 8 - mime_len < 4 {
        return None;
    }
    let p1 = a + 8 + mime_len;
    let desc_len = read_be32(s, p1) as usize;
    if desc_len > b - p1 - 4 || b - p1 - 4 - desc_len < 20 {
        return None;
    }
    let p2 = p1 + 4 + desc_len;
    let data_len = read_be32(s, p2 + 16);
    if data_len as u64 >= READ_CAP || data_len as usize > b - p2 - 20 {
        return None;
    }
    Some((p2 + 20, p2 + 20 + data_len as usize))
}

/// The encoded cover picture in the metadata blocks of a FLAC file's bytes.
pub fn flac_picture(content: &[u8]) -> (r: Option<Vec<u8>>)
    ensures
        opt_bytes(r) == range_bytes(content@, flac_picture_range(content@)),
{
    let n = content.len();
    if n < 4 || !(content[0] == 102 && content[1] == 76 && content[2] == 97 && content[3] == 67) {
        return None;
    }
    let mut pos: usize = 4;
    loop
        invariant
            4 <= pos,
            n == content@.len(),
            flac_scan(content@, pos as int) == flac_picture_range(content@),
        decreases n - pos,
    {
        if pos > n || n - pos < 4 {
            return None;
        }
        let length = read_be24(content, pos + 1) as usize;
        let head = content[pos];
        if head % 128 == 6 {
            if length > n - pos - 4 {
                return None;
            }
            return match flac_block_exec(content, pos + 4, pos + 4 + length) {
                Some((a, b)) => Some(copy_range(content, a, b)),
                None => None,
            };
        }
        if head >= 128 {
            return None;
        }
        if length > n - pos - 4 {
            return None;
        }
        pos = pos + 4 + length;
    }
}

// ---- decoded thumbnails ------------------------------------------------------

/// A decoded thumbnail: tightly packed RGBA8 (not premultiplied).
#[derive(Clone, Debug)]
pub struct Thumb {
    pub width: u32,
    pub height: u32,
    pub rgba: Vec<u8>,
}

impl View for Thumb {
    type V = (u32, u32, Seq<u8>);

    open spec fn view(&self) -> (u32, u32, Seq<u8>) {
        (self.width, self.height, self.rgba@)
    }
}

/// A thumbnail equal to `t`.
fn copy_thumb(t: &Thumb) -> (r: Thumb)
    ensures
        r@ == t@,
{
    let rgba = copy_range(t.rgba.as_slice(), 0, t.rgba.len());
    assert(rgba@ =~= t.rgba@);
    Thumb { width: t.width, height: t.height, rgba }
}

/// Where a file's encoded picture comes from, by its extension.
#[derive(Clone, Copy, Debug, PartialEq, Eq)]
pub enum ThumbSource {
    /// A FLAC file's `PICTURE` block.
    Flac,
    /// An MP3 file's ID3v2 `APIC` / `PIC` frame.
    Id3,
    /// The file itself (PNG or JPEG).
    Image,
}

/// The source kind for `path`: its extension, ASCII-lower-cased, must be
/// `flac`, `mp3`, `png`, `jpg` or `jpeg`.
pub open spec fn thumb_source_spec(path: Seq<char>) -> Option<ThumbSource> {
    match path_extension(path) {
        Some(e) => {
            let l = ascii_lower_seq(e);
            if l == seq!['f', 'l', 'a', 'c'] {
                Some(ThumbSource::Flac)
            } else if l == seq!['m', 'p', '3'] {
                Some(ThumbSource::Id3)
            } else if l == seq!['p', 'n', 'g'] || l == seq!['j', 'p', 'g'] || l == seq![
                'j',
                'p',
                'e',
                'g',
            ] {
                Some(ThumbSource::Image)
            } else {
                None
            }
        },
        None => None,
    }
}

/// Whether `a` holds exactly the characters of `lit`.
fn is_word(a: &[char], lit: &[char]) -> (r: bool)
    ensures
        r == (a@ == lit@),
{
    if a.len() != lit.len() {
        return false;
    }
    let mut k: usize = 0;
    while k < a.len()
        invariant
            a@.len() == lit@.len(),
            k <= a@.len(),
            forall|j: int| 0 <= j < k ==> a@[j] == lit@[j],
        decreases a@.len() - k,
    {
        if a[k] != lit[k] {
            return false;
        }
        k = k + 1;
    }
    assert(a@ =~= lit@);
    true
}

/// The source kind of `path`'s thumbnail, if it has one.
pub fn thumb_source(path: &str) -> (r: Option<ThumbSource>)
    ensures
        r == thumb_source_spec(path@),
{
    let ext = match path_extension_exec(path) {
        Some(e) => e,
        None => {
            return None;
        },
    };
    let l = lower_chars(ext.as_slice());
    let flac = ['f', 'l', 'a', 'c'];
    let mp3 = ['m', 'p', '3'];
    let png = ['p', 'n', 'g'];
    let jpg = ['j', 'p', 'g'];
    let jpeg = ['j', 'p', 'e', 'g'];
    assert(flac@ =~= seq!['f', 'l', 'a', 'c']);
    assert(mp3@ =~= seq!['m', 'p', '3']);
    assert(png@ =~= seq!['p', 'n', 'g']);
    assert(jpg@ =~= seq!['j', 'p', 'g']);
    assert(jpeg@ =~= seq!['j', 'p', 'e', 'g']);
    if is_word(l.as_slice(), flac.as_slice()) {
        Some(ThumbSource::Flac)
    } else if is_word(l.as_slice(), mp3.as_slice()) {
        Some(ThumbSource::Id3)
    } else if is_word(l.as_slice(), png.as_slice()) || is_word(l.as_slice(), jpg.as_slice())
        || is_word(l.as_slice(), jpeg.as_slice()) {
        Some(ThumbSource::Image)
    } else {
        None
    }
}

/// At most the first [`READ_CAP`] bytes of `s`.
pub open spec fn capped(s: Seq<u8>) -> Seq<u8> {
    if s.len() > READ_CAP {
        s.take(READ_CAP as int)
    } else {
        s
    }
}

/// The encoded picture for a file at `path` whose bytes are `content`.
pub open spec fn picture_bytes_spec(path: Seq<char>, content: Seq<u8>) -> Option<Seq<u8>> {
    match thumb_source_spec(path) {
        Some(ThumbSource::Flac) => range_bytes(content, flac_picture_range(content)),
        Some(ThumbSource::Id3) => range_bytes(content, id3_picture_range(content)),
        Some(ThumbSource::Image) => Some(capped(content)),
        None => None,
    }
}

/// The encoded picture to decode for the file at `path` with bytes `content`:
/// the embedded cover of FLAC and MP3 files, the first [`READ_CAP`] bytes of
/// PNG and JPEG files, nothing for other files.
pub fn picture_bytes(path: &str, content: &[u8]) -> (r: Option<Vec<u8>>)
    ensures
        opt_bytes(r) == picture_bytes_spec(path@, content@),
{
    match thumb_source(path) {
        Some(ThumbSource::Flac) => flac_picture(content),
        Some(ThumbSource::Id3) => id3_picture(content),
        Some(ThumbSource::Image) => {
            let n = content.len();
            let end: usize = if n as u64 > READ_CAP {
                READ_CAP as usize
            } else {
                n
            };
            let r = copy_range(content, 0, end);
            assert(r@ =~= capped(content@));
            Some(r)
        },
        None => None,
    }
}

/// What the `image` crate makes of encoded picture bytes: `load_from_memory`,
/// then `thumbnail(max, max)` and `to_rgba8`, as width, height and RGBA
/// bytes; `None` where the bytes do not decode. The one name stands for the
/// three calls together: between them the picture is a `DynamicImage`,
/// which holds nothing the library reads, so only the end result is named.
pub uninterp spec fn decoded_thumbnail(bytes: Seq<u8>, max: u32) -> Option<(u32, u32, Seq<u8>)>;

/// Decodes `bytes` with `image::load_from_memory` and scales the image with
/// `DynamicImage::thumbnail(max, max)` then `to_rgba8`. The result is named by
/// [`decoded_thumbnail`]; for a positive `max`, `thumbnail` keeps both sides
/// within it (its sizes are rounded and at least 1, so a zero `max` still
/// gives a side of 1). Nothing is claimed of the pixel bytes.
#[verifier::external_body]
fn decode_image_thumbnail(bytes: &[u8], max: u32) -> (r: Option<(u32, u32, Vec<u8>)>)
    ensures
        match r {
            Some((w, h, px)) => decoded_thumbnail(bytes@, max) == Some((w, h, px@)) && (max > 0 ==> (
            w <= max && h <= max)),
            None => decoded_thumbnail(bytes@, max) is None,
        },
{
    match image::load_from_memory(bytes) {
        Ok(img) => {
            let t = img.thumbnail(max, max).to_rgba8();
            Some((t.width(), t.height(), t.into_raw()))
        },
        Err(_) => None,
    }
}

/// A thumbnail out of a decoder's result: `None` for a failed decode or an
/// empty image.
pub open spec fn thumb_of_decoded(d: Option<(u32, u32, Seq<u8>)>) -> Option<(u32, u32, Seq<u8>)> {
    match d {
        Some((w, h, px)) => if w == 0 || h == 0 {
            None
        } else {
            Some((w, h, px))
        },
        None => None,
    }
}

/// The view of an optional thumbnail.
pub open spec fn opt_thumb(t: Option<Thumb>) -> Option<(u32, u32, Seq<u8>)> {
    match t {
        Some(x) => Some(x@),
        None => None,
    }
}

/// The thumbnail for a decoder's result (width, height, RGBA bytes).
pub fn thumb_from_decoded(decoded: Option<(u32, u32, Vec<u8>)>) -> (r: Option<Thumb>)
    ensures
        opt_thumb(r) == thumb_of_decoded(
            match decoded {
                Some((w, h, px)) => Some((w, h, px@)),
                None => None,
            },
        ),
{
    match decoded {
        Some((w, h, px)) => if w == 0 || h == 0 {
            None
        } else {
            Some(Thumb { width: w, height: h, rgba: px })
        },
        None => None,
    }
}

/// The thumbnail of the file at `path` with bytes `content`.
pub open spec fn decode_thumb_spec(path: Seq<char>, content: Seq<u8>) -> Option<(u32, u32, Seq<u8>)> {
    match picture_bytes_spec(path, content) {
        Some(b) => thumb_of_decoded(decoded_thumbnail(b, THUMB_SIZE)),
        None => None,
    }
}

/// Decodes the file at `path`, whose bytes are `content`, to a thumbnail no
/// larger than [`THUMB_SIZE`] on either side; `None` for unsupported or
/// invalid input.
pub fn decode_thumb(path: &str, content: &[u8]) -> (r: Option<Thumb>)
    ensures
        opt_thumb(r) == decode_thumb_spec(path@, content@),
        r matches Some(t) ==> 1 <= t.width <= THUMB_SIZE && 1 <= t.height <= THUMB_SIZE,
{
    let bytes = match picture_bytes(path, content) {
        Some(b) => b,
        None => {
            return None;
        },
    };
    let decoded = decode_image_thumbnail(bytes.as_slice(), THUMB_SIZE);
    thumb_from_decoded(decoded)
}

// ---- the on-disk cache -------------------------------------------------------

/// Little-endian bytes of a 32-bit value.
pub open spec fn le32_bytes(x: u32) -> Seq<u8> {
    seq![
        (x % 256) as u8,
        ((x / 256) % 256) as u8,
        ((x / 65536) % 256) as u8,
        ((x / 16777216) % 256) as u8,
    ]
}

/// Little-endian bytes of a 64-bit value.
pub open spec fn le64_bytes(x: u64) -> Seq<u8> {
    le32_bytes((x % 4294967296) as u32) + le32_bytes((x / 4294967296) as u32)
}

/// A disk cache entry: width, height, the source's size and modification
/// time (seconds), then the pixels.
pub open spec fn disk_entry_spec(t: (u32, u32, Seq<u8>), size: u64, mtime: u64) -> Seq<u8> {
    le32_bytes(t.0) + le32_bytes(t.1) + le64_bytes(size) + le64_bytes(mtime) + t.2
}

/// What a disk cache entry holds, given the source's current `(size, mtime)`
/// stamp when it can be read: `None` for a short or inconsistent entry
/// (a side of 0 or above [`THUMB_SIZE`], a pixel length other than
/// `4 * width * height`) and for one whose stored stamp disagrees.
pub open spec fn disk_read_spec(bytes: Seq<u8>, stamp: Option<(u64, u64)>) -> Option<
    (u32, u32, Seq<u8>),
> {
    if bytes.len() < DISK_HEADER {
        None
    } else {
        let w = le32(bytes, 0);
        let h = le32(bytes, 4);
        if w == 0 || w > THUMB_SIZE || h == 0 || h > THUMB_SIZE {
            None
        } else if bytes.len() - DISK_HEADER != w * h * 4 {
            None
        } else if stamp matches Some(st) && (st.0 != le64(bytes, 8) || st.1 != le64(bytes, 16)) {
            None
        } else {
            Some((w as u32, h as u32, bytes.skip(DISK_HEADER as int)))
        }
    }
}

fn push_le32(out: &mut Vec<u8>, x: u32)
    ensures
        final(out)@ == old(out)@ + le32_bytes(x),
{
    out.push((x % 256) as u8);
    out.push(((x / 256) % 256) as u8);
    out.push(((x / 65536) % 256) as u8);
    out.push(((x / 16777216) % 256) as u8);
    assert(final(out)@ =~= old(out)@ + le32_bytes(x));
}

/// The bytes of the disk cache entry for `thumb`, made from a source file of
/// `size` bytes last modified at `mtime` (seconds since the epoch).
pub fn disk_entry(thumb: &Thumb, size: u64, mtime: u64) -> (r: Vec<u8>)
    ensures
        r@ == disk_entry_spec(thumb@, size, mtime),
{
    let mut out: Vec<u8> = Vec::new();
    push_le32(&mut out, thumb.width);
    push_le32(&mut out, thumb.height);
    push_le32(&mut out, (size % 4294967296) as u32);
    push_le32(&mut out, (size / 4294967296) as u32);
    push_le32(&mut out, (mtime % 4294967296) as u32);
    push_le32(&mut out, (mtime / 4294967296) as u32);
    let n = thumb.rgba.len();
    let mut k: usize = 0;
    while k < n
        invariant
            n == thumb.rgba@.len(),
            k <= n,
            out@ == le32_bytes(thumb.width) + le32_bytes(thumb.height) + le64_bytes(size)
                + le64_bytes(mtime) + thumb.rgba@.take(k as int),
        decreases n - k,
    {
        out.push(thumb.rgba[k]);
        k = k + 1;
        assert(thumb.rgba@.take(k as int) =~= thumb.rgba@.take(k - 1).push(thumb.rgba@[k - 1]));
    }
    assert(thumb.rgba@.take(n as int) =~= thumb.rgba@);
    out
}

/// Reads a disk cache entry; `stamp` is the source's current `(size, mtime)`
/// when the source can be inspected, `None` when it is gone (a cover is
/// then served unverified).
pub fn disk_read(bytes: &[u8], stamp: Option<(u64, u64)>) -> (r: Option<Thumb>)
    ensures
        opt_thumb(r) == disk_read_spec(bytes@, stamp),
{
    let n = bytes.len();
    if n < DISK_HEADER {
        return None;
    }
    let w = read_le32(bytes, 0);
    let h = read_le32(bytes, 4);
    let size = read_le64(bytes, 8);
    let mtime = read_le64(bytes, 16);
    if w == 0 || w > THUMB_SIZE || h == 0 || h > THUMB_SIZE {
        return None;
    }
    assert((w as int) * (h as int) <= 16384) by (nonlinear_arith)
        requires
            w <= 128,
            h <= 128,
    ;
    let pixels = (w as usize) * (h as usize) * 4;
    if n - DISK_HEADER != pixels {
        return None;
    }
    if let Some(st) = stamp {
        if st.0 != size || st.1 != mtime {
            return None;
        }
    }
    let rgba = copy_range(bytes, DISK_HEADER, n);
    assert(rgba@ =~= bytes@.skip(DISK_HEADER as int));
    Some(Thumb { width: w, height: h, rgba })
}

proof fn lemma_le32_bytes(x: u32)
    ensures
        le32(le32_bytes(x), 0) == x,
{
    let b = le32_bytes(x);
    assert(b[0] == x % 256);
    assert(b[1] == (x / 256) % 256);
    assert(b[2] == (x / 65536) % 256);
    assert(b[3] == (x / 16777216) % 256);
    assert(x == x % 256 + ((x / 256) % 256) * 256 + ((x / 65536) % 256) * 65536 + ((x
        / 16777216) % 256) * 16777216) by (nonlinear_arith);
}

proof fn lemma_le32_at(s: Seq<u8>, i: int, x: u32)
    requires
        0 <= i,
        i + 4 <= s.len(),
        s.subrange(i, i + 4) == le32_bytes(x),
    ensures
        le32(s, i) == x,
{
    lemma_le32_bytes(x);
    assert(s[i] == le32_bytes(x)[0]);
    assert(s[i + 1] == le32_bytes(x)[1]);
    assert(s[i + 2] == le32_bytes(x)[2]);
    assert(s[i + 3] == le32_bytes(x)[3]);
}

proof fn lemma_le64_at(s: Seq<u8>, i: int, x: u64)
    requires
        0 <= i,
        i + 8 <= s.len(),
        s.subrange(i, i + 8) == le64_bytes(x),
    ensures
        le64(s, i) == x,
{
    let lo = (x % 4294967296) as u32;
    let hi = (x / 4294967296) as u32;
    assert(s.subrange(i, i + 4) =~= le32_bytes(lo));
    let whole = s.subrange(i, i + 8);
    assert(whole.subrange(4, 8) =~= le32_bytes(hi));
    assert(s.subrange(i + 4, i + 8) =~= whole.subrange(4, 8));
    lemma_le32_at(s, i, lo);
    lemma_le32_at(s, i + 4, hi);
    assert(x == (x % 4294967296) + (x / 4294967296) * 4294967296) by (nonlinear_arith);
}

/// A disk cache entry reads back as the thumbnail it was written from, when
/// the source is unchanged or gone, provided the thumbnail is one the
/// decoder can produce (sides in `1..=THUMB_SIZE`, four bytes per pixel);
/// a source whose stamp changed reads as a miss.
pub proof fn law_disk_entry_roundtrip(t: (u32, u32, Seq<u8>), size: u64, mtime: u64, now: Option<(u64, u64)>)
    requires
        1 <= t.0 <= THUMB_SIZE,
        1 <= t.1 <= THUMB_SIZE,
        t.2.len() == 4 * t.0 * t.1,
    ensures
        disk_read_spec(disk_entry_spec(t, size, mtime), now) == (if now matches Some(st) && st != (
            size,
            mtime,
        ) {
            None
        } else {
            Some(t)
        }),
{
    let e = disk_entry_spec(t, size, mtime);
    assert(e.len() == 24 + t.2.len());
    assert(e.subrange(0, 4) =~= le32_bytes(t.0));
    assert(e.subrange(4, 8) =~= le32_bytes(t.1));
    assert(e.subrange(8, 16) =~= le64_bytes(size));
    assert(e.subrange(16, 24) =~= le64_bytes(mtime));
    lemma_le32_at(e, 0, t.0);
    lemma_le32_at(e, 4, t.1);
    lemma_le64_at(e, 8, size);
    lemma_le64_at(e, 16, mtime);
    assert(e.skip(24) =~= t.2);
    assert(t.2.len() == t.0 * t.1 * 4) by (nonlinear_arith)
        requires
            t.2.len() == 4 * t.0 * t.1,
    ;
}

// ---- cache keys --------------------------------------------------------------

/// The FNV-1a prime for 64-bit hashes.
pub const FNV_PRIME: u64 = 1099511628211;

/// First cache-key seed (the FNV-1a offset basis).
pub const KEY_SEED_A: u64 = 14695981039346656037;

/// Second cache-key seed (the offset basis with its halves swapped).
pub const KEY_SEED_B: u64 = 9521211207457086692;

/// FNV-1a over `bytes` from `seed`: xor each byte in, then multiply by
/// [`FNV_PRIME`] modulo 2^64.
pub open spec fn fnv1a_spec(seed: u64, bytes: Seq<u8>) -> u64
    decreases bytes.len(),
{
    if bytes.len() == 0 {
        seed
    } else {
        (fnv1a_spec(seed, bytes.drop_last()) ^ (bytes.last() as u64)).wrapping_mul(FNV_PRIME)
    }
}

/// 64-bit FNV-1a hash of `bytes` starting from `seed`.
pub fn fnv1a(seed: u64, bytes: &[u8]) -> (r: u64)
    ensures
        r == fnv1a_spec(seed, bytes@),
{
    let mut hash = seed;
    let n = bytes.len();
    let mut k: usize = 0;
    while k < n
        invariant
            n == bytes@.len(),
            k <= n,
            hash == fnv1a_spec(seed, bytes@.take(k as int)),
        decreases n - k,
    {
        assert(bytes@.take(k + 1).drop_last() =~= bytes@.take(k as int));
        hash = (hash ^ (bytes[k] as u64)).wrapping_mul(FNV_PRIME);
        k = k + 1;
    }
    assert(bytes@.take(n as int) =~= bytes@);
    hash
}

/// Lower-case hexadecimal digit for `d < 16`.
pub open spec fn hex_lower(d: int) -> char {
    if d < 10 {
        (48 + d) as char
    } else {
        (87 + d) as char
    }
}

/// The last `n` hexadecimal digits of `x`, most significant first, zero-padded.
pub open spec fn hex_digits(x: u64, n: nat) -> Seq<char>
    decreases n,
{
    if n == 0 {
        Seq::empty()
    } else {
        hex_digits(x / 16, (n - 1) as nat).push(hex_lower((x % 16) as int))
    }
}

fn hex_digits_exec(x: u64, n: usize) -> (r: Vec<char>)
    ensures
        r@ == hex_digits(x, n as nat),
    decreases n,
{
    if n == 0 {
        Vec::new()
    } else {
        let mut v = hex_digits_exec(x / 16, n - 1);
        let d = x % 16;
        let c: char = if d < 10 {
            (48 + d as u8) as char
        } else {
            (87 + d as u8) as char
        };
        v.push(c);
        v
    }
}

/// The disk cache file name for a source path: two FNV-1a hashes of the
/// path's UTF-8 bytes (seeds [`KEY_SEED_A`], [`KEY_SEED_B`]), each as sixteen
/// lower-case hexadecimal digits.
pub open spec fn cache_key_spec(path: Seq<char>) -> Seq<char> {
    hex_digits(fnv1a_spec(KEY_SEED_A, encode_utf8(path)), 16) + hex_digits(
        fnv1a_spec(KEY_SEED_B, encode_utf8(path)),
        16,
    )
}

/// The disk cache file name for `path`. The source's size and modification
/// time are not part of it: they are stored inside the entry, so a cover is
/// still served when the file itself is gone.
pub fn cache_key(path: &str) -> (r: String)
    ensures
        r@ == cache_key_spec(path@),
{
    let bytes = path.as_bytes();
    let a = hex_digits_exec(fnv1a(KEY_SEED_A, bytes), 16);
    let b = hex_digits_exec(fnv1a(KEY_SEED_B, bytes), 16);
    let mut all = a;
    let mut k: usize = 0;
    while k < b.len()
        invariant
            k <= b@.len(),
            all@ == hex_digits(fnv1a_spec(KEY_SEED_A, encode_utf8(path@)), 16) + b@.take(k as int),
        decreases b@.len() - k,
    {
        all.push(b[k]);
        k = k + 1;
        assert(b@.take(k as int) =~= b@.take(k - 1).push(b@[k - 1]));
    }
    assert(b@.take(b@.len() as int) =~= b@);
    string_of(all.as_slice())
}

// ---- the decode service's bookkeeping ---------------------------------------------

/// A cached thumbnail under its path.
pub open spec fn entries(c: Seq<(String, Thumb)>) -> Seq<(Seq<char>, (u32, u32, Seq<u8>))> {
    Seq::new(c.len(), |i: int| (c[i].0@, c[i].1@))
}

/// The texts of a list of strings.
pub open spec fn keys(v: Seq<String>) -> Seq<Seq<char>> {
    Seq::new(v.len(), |i: int| v[i]@)
}

/// Pixel bytes held by the cache entries `c`.
pub open spec fn total_bytes(c: Seq<(Seq<char>, (u32, u32, Seq<u8>))>) -> nat
    decreases c.len(),
{
    if c.len() == 0 {
        0
    } else {
        c[0].1.2.len() + total_bytes(c.drop_first())
    }
}

/// Index of the first entry of `c` at or after `i` whose path is `k`.
pub open spec fn key_index_from(c: Seq<(Seq<char>, (u32, u32, Seq<u8>))>, k: Seq<char>, i: int) -> Option<int>
    decreases c.len() - i,
{
    if i < 0 || i >= c.len() {
        None
    } else if c[i].0 == k {
        Some(i)
    } else {
        key_index_from(c, k, i + 1)
    }
}

/// Index of the entry of `c` whose path is `k`.
pub open spec fn key_index(c: Seq<(Seq<char>, (u32, u32, Seq<u8>))>, k: Seq<char>) -> Option<int> {
    key_index_from(c, k, 0)
}

/// `c` without the entry for `k`.
pub open spec fn remove_key(c: Seq<(Seq<char>, (u32, u32, Seq<u8>))>, k: Seq<char>) -> Seq<(Seq<char>, (u32, u32, Seq<u8>))> {
    match key_index(c, k) {
        Some(i) => c.remove(i),
        None => c,
    }
}

/// Evicts least-recently-used entries (the front) while more than
/// [`MAX_CACHED`] entries or [`MAX_CACHE_BYTES`] bytes are held.
pub open spec fn evict(c: Seq<(Seq<char>, (u32, u32, Seq<u8>))>) -> Seq<(Seq<char>, (u32, u32, Seq<u8>))>
    decreases c.len(),
{
    if c.len() > 0 && (c.len() > MAX_CACHED || total_bytes(c) > MAX_CACHE_BYTES) {
        evict(c.drop_first())
    } else {
        c
    }
}

/// The cache after storing `t` under `k` as most recently used.
pub open spec fn cache_insert(c: Seq<(Seq<char>, (u32, u32, Seq<u8>))>, k: Seq<char>, t: (u32, u32, Seq<u8>)) -> Seq<(Seq<char>, (u32, u32, Seq<u8>))> {
    evict(remove_key(c, k).push((k, t)))
}

/// What a [`ThumbService`] holds.
pub struct ThumbServiceView {
    /// Requests not yet taken by a decoder, oldest first.
    pub queue: Seq<Seq<char>>,
    /// Paths requested and not finished (queued or being decoded).
    pub pending: Set<Seq<char>>,
    /// Cached thumbnails, least recently used first.
    pub cache: Seq<(Seq<char>, (u32, u32, Seq<u8>))>,
    /// Paths that produced no thumbnail.
    pub negative: Set<Seq<char>>,
}

/// Request / result bookkeeping of the thumbnail decode service, with an LRU
/// pixel cache. The decoders themselves run elsewhere: they take requests
/// with [`ThumbService::take_queued`] and hand results back through
/// [`ThumbService::drain`].
pub struct ThumbService {
    queue: Vec<String>,
    pending: Vec<String>,
    cache: Vec<(String, Thumb)>,
    cache_bytes: usize,
    negative: Vec<String>,
}

impl View for ThumbService {
    type V = ThumbServiceView;

    closed spec fn view(&self) -> ThumbServiceView {
        ThumbServiceView {
            queue: keys(self.queue@),
            pending: keys(self.pending@).to_set(),
            cache: entries(self.cache@),
            negative: keys(self.negative@).to_set(),
        }
    }
}

/// The service after a request for `p`, and whether `p` was queued: nothing
/// happens for a path that is cached, known to fail, or pending; otherwise,
/// when [`MAX_PENDING`] paths are pending, the oldest queued request is
/// dropped (and stops being pending) before `p` joins the queue.
pub open spec fn request_spec(v: ThumbServiceView, p: Seq<char>) -> (ThumbServiceView, bool) {
    if key_index(v.cache, p) is Some || v.negative.contains(p) || v.pending.contains(p) {
        (v, false)
    } else {
        let drop = v.pending.len() >= MAX_PENDING && v.queue.len() > 0;
        let q = if drop {
            v.queue.drop_first()
        } else {
            v.queue
        };
        let pend = if drop {
            v.pending.remove(v.queue[0])
        } else {
            v.pending
        };
        (
            ThumbServiceView {
                queue: q.push(p),
                pending: pend.insert(p),
                cache: v.cache,
                negative: v.negative,
            },
            true,
        )
    }
}

/// The service after the decode of `k` finished with `res`: `k` stops being
/// pending, a thumbnail is cached as most recently used, a failure is
/// remembered.
pub open spec fn finish_spec(v: ThumbServiceView, k: Seq<char>, res: Option<(u32, u32, Seq<u8>)>) -> ThumbServiceView {
    match res {
        Some(t) => ThumbServiceView {
            queue: v.queue,
            pending: v.pending.remove(k),
            cache: cache_insert(v.cache, k, t),
            negative: v.negative,
        },
        None => ThumbServiceView {
            queue: v.queue,
            pending: v.pending.remove(k),
            cache: v.cache,
            negative: v.negative.insert(k),
        },
    }
}

/// A decoder's results, as paths and optional thumbnails.
pub open spec fn results_view(rs: Seq<(String, Option<Thumb>)>) -> Seq<(Seq<char>, Option<(u32, u32, Seq<u8>)>)> {
    Seq::new(rs.len(), |i: int| (rs[i].0@, opt_thumb(rs[i].1)))
}

/// The service after the results `rs`, in order.
pub open spec fn drain_spec(v: ThumbServiceView, rs: Seq<(Seq<char>, Option<(u32, u32, Seq<u8>)>)>) -> ThumbServiceView
    decreases rs.len(),
{
    if rs.len() == 0 {
        v
    } else {
        finish_spec(drain_spec(v, rs.drop_last()), rs.last().0, rs.last().1)
    }
}

/// The successful results among `rs`, in order.
pub open spec fn ready_spec(rs: Seq<(Seq<char>, Option<(u32, u32, Seq<u8>)>)>) -> Seq<(Seq<char>, (u32, u32, Seq<u8>))>
    decreases rs.len(),
{
    if rs.len() == 0 {
        Seq::empty()
    } else {
        match rs.last().1 {
            Some(t) => ready_spec(rs.drop_last()).push((rs.last().0, t)),
            None => ready_spec(rs.drop_last()),
        }
    }
}

proof fn lemma_total_push(c: Seq<(Seq<char>, (u32, u32, Seq<u8>))>, e: (Seq<char>, (u32, u32, Seq<u8>)))
    ensures
        total_bytes(c.push(e)) == total_bytes(c) + e.1.2.len(),
    decreases c.len(),
{
    if c.len() > 0 {
        assert(c.push(e).drop_first() =~= c.drop_first().push(e));
        lemma_total_push(c.drop_first(), e);
    } else {
        assert(c.push(e).drop_first() =~= c);
    }
}

proof fn lemma_total_remove(c: Seq<(Seq<char>, (u32, u32, Seq<u8>))>, i: int)
    requires
        0 <= i < c.len(),
    ensures
        total_bytes(c.remove(i)) + c[i].1.2.len() == total_bytes(c),
    decreases c.len(),
{
    if i > 0 {
        assert(c.remove(i).drop_first() =~= c.drop_first().remove(i - 1));
        lemma_total_remove(c.drop_first(), i - 1);
    } else {
        assert(c.remove(0) =~= c.drop_first());
    }
}

proof fn lemma_key_index_from(c: Seq<(Seq<char>, (u32, u32, Seq<u8>))>, k: Seq<char>, i: int)
    requires
        0 <= i,
    ensures
        key_index_from(c, k, i) matches Some(j) ==> i <= j < c.len() && c[j].0 == k,
        key_index_from(c, k, i) is None ==> forall|j: int| i <= j < c.len() ==> c[j].0 != k,
    decreases c.len() - i,
{
    if i < c.len() && c[i].0 != k {
        lemma_key_index_from(c, k, i + 1);
    }
}

/// No two cache entries share a path.
pub open spec fn unique_keys(c: Seq<(Seq<char>, (u32, u32, Seq<u8>))>) -> bool {
    forall|i: int, j: int| 0 <= i < j < c.len() ==> c[i].0 != c[j].0
}

impl ThumbService {
    /// The service's invariant: each path pending once, each path cached
    /// once, the byte count exact, and the cache within [`MAX_CACHED`]
    /// entries and [`MAX_CACHE_BYTES`] bytes.
    pub closed spec fn wf(&self) -> bool {
        &&& keys(self.pending@).no_duplicates()
        &&& unique_keys(entries(self.cache@))
        &&& self.cache_bytes == total_bytes(entries(self.cache@))
        &&& self.cache@.len() <= MAX_CACHED
        &&& self.cache_bytes <= MAX_CACHE_BYTES
    }

    /// An empty service.
    pub fn new() -> (s: ThumbService)
        ensures
            s.wf(),
            s@.queue.len() == 0,
            s@.pending.is_empty(),
            s@.cache.len() == 0,
            s@.negative.is_empty(),
    {
        let s = ThumbService {
            queue: Vec::new(),
            pending: Vec::new(),
            cache: Vec::new(),
            cache_bytes: 0,
            negative: Vec::new(),
        };
        assert(keys(s.pending@) =~= Seq::<Seq<char>>::empty());
        assert(entries(s.cache@) =~= Seq::<(Seq<char>, (u32, u32, Seq<u8>))>::empty());
        assert(s@.pending =~= Set::<Seq<char>>::empty());
        assert(s@.negative =~= Set::<Seq<char>>::empty());
        s
    }
}

proof fn lemma_remove_unique(s: Seq<Seq<char>>, i: int)
    requires
        s.no_duplicates(),
        0 <= i < s.len(),
    ensures
        s.remove(i).to_set() =~= s.to_set().remove(s[i]),
        s.remove(i).no_duplicates(),
{
    let r = s.remove(i);
    assert forall|x: Seq<char>| r.contains(x) <==> s.to_set().remove(s[i]).contains(x) by {
        if r.contains(x) {
            let j = choose|j: int| 0 <= j < r.len() && r[j] == x;
            if j < i {
                assert(s[j] == x);
            } else {
                assert(s[j + 1] == x);
            }
        }
        if s.to_set().remove(s[i]).contains(x) {
            let j = choose|j: int| 0 <= j < s.len() && s[j] == x;
            if j < i {
                assert(r[j] == x);
            } else {
                assert(r[j - 1] == x);
            }
        }
    }
    assert forall|a: int, b: int| 0 <= a < r.len() && 0 <= b < r.len() && a != b implies r[a] != r[b] by {
        let a2 = if a < i { a } else { a + 1 };
        let b2 = if b < i { b } else { b + 1 };
        assert(r[a] == s[a2] && r[b] == s[b2]);
    }
}

proof fn lemma_push_set(s: Seq<Seq<char>>, x: Seq<char>)
    ensures
        s.push(x).to_set() =~= s.to_set().insert(x),
{
    let r = s.push(x);
    assert forall|y: Seq<char>| r.contains(y) <==> s.to_set().insert(x).contains(y) by {
        if r.contains(y) {
            let j = choose|j: int| 0 <= j < r.len() && r[j] == y;
            if j < s.len() {
                assert(s[j] == y);
            }
        }
        if s.contains(y) {
            let j = choose|j: int| 0 <= j < s.len() && s[j] == y;
            assert(r[j] == y);
        }
        if y == x {
            assert(r[s.len() as int] == y);
        }
    }
}

proof fn lemma_push_unique(s: Seq<Seq<char>>, x: Seq<char>)
    requires
        s.no_duplicates(),
        !s.contains(x),
    ensures
        s.push(x).to_set() =~= s.to_set().insert(x),
        s.push(x).no_duplicates(),
{
    let r = s.push(x);
    assert forall|y: Seq<char>| r.contains(y) <==> s.to_set().insert(x).contains(y) by {
        if r.contains(y) {
            let j = choose|j: int| 0 <= j < r.len() && r[j] == y;
            if j < s.len() {
                assert(s[j] == y);
            }
        }
        if s.contains(y) {
            let j = choose|j: int| 0 <= j < s.len() && s[j] == y;
            assert(r[j] == y);
        }
        if y == x {
            assert(r[s.len() as int] == y);
        }
    }
    assert forall|a: int, b: int| 0 <= a < r.len() && 0 <= b < r.len() && a != b implies r[a] != r[b] by {
        if a < s.len() && b < s.len() {
        } else if a < s.len() {
            assert(s.contains(r[a]));
        } else {
            assert(s.contains(r[b]));
        }
    }
}

/// Index of a string equal to `p` in `v`.
fn index_of(v: &Vec<String>, p: &str) -> (r: Option<usize>)
    ensures
        r matches Some(i) ==> i < v@.len() && keys(v@)[i as int] == p@,
        r is None ==> !keys(v@).contains(p@),
{
    let mut k: usize = 0;
    while k < v.len()
        invariant
            k <= v@.len(),
            forall|j: int| 0 <= j < k ==> keys(v@)[j] != p@,
        decreases v@.len() - k,
    {
        if crate::text::str_eq(v[k].as_str(), p) {
            return Some(k);
        }
        k = k + 1;
    }
    None
}

/// Index of the cache entry for `p`.
fn cache_index_of(c: &Vec<(String, Thumb)>, p: &str) -> (r: Option<usize>)
    ensures
        opt_index(r) == key_index(entries(c@), p@),
{
    let mut k: usize = 0;
    while k < c.len()
        invariant
            k <= c@.len(),
            key_index_from(entries(c@), p@, k as int) == key_index(entries(c@), p@),
        decreases c@.len() - k,
    {
        if crate::text::str_eq(c[k].0.as_str(), p) {
            return Some(k);
        }
        k = k + 1;
    }
    None
}

impl ThumbService {
    /// Queues `path` for decoding unless it is cached, known to fail, or
    /// already pending; at [`MAX_PENDING`] pending paths the oldest queued
    /// request is dropped first (a later request for it queues it again).
    /// Returns whether `path` was queued.
    pub fn request(&mut self, path: &str) -> (queued: bool)
        requires
            old(self).wf(),
        ensures
            final(self).wf(),
            (final(self)@, queued) == request_spec(old(self)@, path@),
    {
        let ghost v0 = self@;
        proof {
            keys(self.pending@).unique_seq_to_set();
        }
        if cache_index_of(&self.cache, path).is_some() {
            return false;
        }
        if index_of(&self.negative, path).is_some() {
            return false;
        }
        if index_of(&self.pending, path).is_some() {
            return false;
        }
        if self.pending.len() >= MAX_PENDING && self.queue.len() > 0 {
            let dropped = self.queue.remove(0);
            assert(keys(self.queue@) =~= v0.queue.drop_first());
            match index_of(&self.pending, dropped.as_str()) {
                Some(i) => {
                    proof {
                        lemma_remove_unique(keys(self.pending@), i as int);
                    }
                    self.pending.remove(i);
                    assert(keys(self.pending@) =~= keys(old(self).pending@).remove(i as int));
                },
                None => {
                    assert(v0.pending.remove(dropped@) =~= v0.pending);
                },
            }
        }
        let ghost mid = keys(self.pending@);
        assert(!mid.contains(path@));
        proof {
            lemma_push_unique(mid, path@);
        }
        self.queue.push(String::from_str(path));
        self.pending.push(String::from_str(path));
        assert(keys(self.pending@) =~= mid.push(path@));
        assert(keys(self.queue@) =~= request_spec(v0, path@).0.queue);
        true
    }
}

/// Whether a result's pixel buffer has a length any vector can have.
pub open spec fn fits_memory(r: (String, Option<Thumb>)) -> bool {
    match r.1 {
        Some(t) => t.rgba@.len() <= isize::MAX,
        None => true,
    }
}

/// The view of a list of ready thumbnails.
pub open spec fn ready_view(r: Seq<(String, Thumb)>) -> Seq<(Seq<char>, (u32, u32, Seq<u8>))> {
    entries(r)
}

proof fn lemma_unique_remove(c: Seq<(Seq<char>, (u32, u32, Seq<u8>))>, i: int)
    requires
        unique_keys(c),
        0 <= i < c.len(),
    ensures
        unique_keys(c.remove(i)),
        forall|j: int| 0 <= j < c.remove(i).len() ==> c.remove(i)[j].0 != c[i].0,
{
    let r = c.remove(i);
    assert forall|a: int, b: int| 0 <= a < b < r.len() implies r[a].0 != r[b].0 by {
        let a2 = if a < i { a } else { a + 1 };
        let b2 = if b < i { b } else { b + 1 };
        assert(r[a] == c[a2] && r[b] == c[b2]);
    }
    assert forall|j: int| 0 <= j < r.len() implies r[j].0 != c[i].0 by {
        let j2 = if j < i { j } else { j + 1 };
        assert(r[j] == c[j2]);
    }
}

impl ThumbService {
    /// Stores `thumb` under `path` as most recently used (replacing an older
    /// entry for `path`), then evicts least-recently-used entries while more
    /// than [`MAX_CACHED`] entries or [`MAX_CACHE_BYTES`] bytes are held.
    pub fn insert(&mut self, path: String, thumb: Thumb)
        requires
            old(self).wf(),
            thumb.rgba@.len() <= isize::MAX,
        ensures
            final(self).wf(),
            final(self)@ == (ThumbServiceView {
                queue: old(self)@.queue,
                pending: old(self)@.pending,
                cache: cache_insert(old(self)@.cache, path@, thumb@),
                negative: old(self)@.negative,
            }),
    {
        let ghost c0 = entries(self.cache@);
        let ghost k = path@;
        let ghost t = thumb@;
        proof {
            lemma_key_index_from(c0, k, 0);
        }
        match cache_index_of(&self.cache, path.as_str()) {
            Some(i) => {
                proof {
                    lemma_total_remove(c0, i as int);
                    lemma_unique_remove(c0, i as int);
                }
                let old_entry = self.cache.remove(i);
                self.cache_bytes = self.cache_bytes - old_entry.1.rgba.len();
                assert(entries(self.cache@) =~= c0.remove(i as int));
            },
            None => {},
        }
        let ghost c1 = entries(self.cache@);
        assert(c1 == remove_key(c0, k));
        assert(forall|j: int| 0 <= j < c1.len() ==> c1[j].0 != k);
        let n = thumb.rgba.len();
        proof {
            lemma_total_push(c1, (k, t));
        }
        self.cache_bytes = self.cache_bytes + n;
        self.cache.push((path, thumb));
        assert(entries(self.cache@) =~= c1.push((k, t)));
        assert(unique_keys(entries(self.cache@)));
        while self.cache.len() > MAX_CACHED || self.cache_bytes > MAX_CACHE_BYTES
            invariant
                self.cache_bytes == total_bytes(entries(self.cache@)),
                unique_keys(entries(self.cache@)),
                evict(entries(self.cache@)) == cache_insert(c0, k, t),
                self.queue == old(self).queue,
                self.pending == old(self).pending,
                self.negative == old(self).negative,
            decreases self.cache@.len(),
        {
            let ghost before = entries(self.cache@);
            assert(before.len() > 0);
            let e = self.cache.remove(0);
            assert(entries(self.cache@) =~= before.drop_first());
            self.cache_bytes = self.cache_bytes - e.1.rgba.len();
        }
    }

    /// The cached thumbnail for `path`, which becomes most recently used.
    pub fn get(&mut self, path: &str) -> (r: Option<Thumb>)
        requires
            old(self).wf(),
        ensures
            final(self).wf(),
            match key_index(old(self)@.cache, path@) {
                Some(i) => r matches Some(t) && t@ == old(self)@.cache[i].1 && final(self)@ == (
                ThumbServiceView {
                    queue: old(self)@.queue,
                    pending: old(self)@.pending,
                    cache: old(self)@.cache.remove(i).push(old(self)@.cache[i]),
                    negative: old(self)@.negative,
                }),
                None => r is None && final(self)@ == old(self)@,
            },
    {
        let ghost c0 = entries(self.cache@);
        match cache_index_of(&self.cache, path) {
            Some(i) => {
                proof {
                    lemma_key_index_from(c0, path@, 0);
                    lemma_total_remove(c0, i as int);
                    lemma_unique_remove(c0, i as int);
                    lemma_total_push(c0.remove(i as int), c0[i as int]);
                }
                let e = self.cache.remove(i);
                let t = copy_thumb(&e.1);
                self.cache.push(e);
                assert(entries(self.cache@) =~= c0.remove(i as int).push(c0[i as int]));
                Some(t)
            },
            None => None,
        }
    }

    /// The oldest queued request, which a decoder now works on (it stays
    /// pending until its result is drained).
    pub fn take_queued(&mut self) -> (r: Option<String>)
        requires
            old(self).wf(),
        ensures
            final(self).wf(),
            match r {
                Some(p) => old(self)@.queue.len() > 0 && p@ == old(self)@.queue[0] && final(self)@ == (
                ThumbServiceView {
                    queue: old(self)@.queue.drop_first(),
                    pending: old(self)@.pending,
                    cache: old(self)@.cache,
                    negative: old(self)@.negative,
                }),
                None => old(self)@.queue.len() == 0 && final(self)@ == old(self)@,
            },
    {
        if self.queue.len() == 0 {
            return None;
        }
        let p = self.queue.remove(0);
        assert(keys(self.queue@) =~= keys(old(self).queue@).drop_first());
        Some(p)
    }

    fn finish(&mut self, key: String, res: Option<Thumb>)
        requires
            old(self).wf(),
            res matches Some(t) ==> t.rgba@.len() <= isize::MAX,
        ensures
            final(self).wf(),
            final(self)@ == finish_spec(old(self)@, key@, opt_thumb(res)),
    {
        let ghost v0 = self@;
        match index_of(&self.pending, key.as_str()) {
            Some(i) => {
                proof {
                    lemma_remove_unique(keys(self.pending@), i as int);
                }
                self.pending.remove(i);
                assert(keys(self.pending@) =~= keys(old(self).pending@).remove(i as int));
            },
            None => {
                assert(v0.pending.remove(key@) =~= v0.pending);
            },
        }
        assert(self@.pending == v0.pending.remove(key@));
        match res {
            Some(t) => {
                self.insert(key, t);
            },
            None => {
                let ghost n0 = keys(self.negative@);
                self.negative.push(key);
                assert(keys(self.negative@) =~= n0.push(key@));
                proof {
                    lemma_push_set(n0, key@);
                }
                assert(keys(self.negative@).to_set() =~= v0.negative.insert(key@));
            },
        }
    }

    /// Takes the decoders' results (path and thumbnail, `None` for a failed
    /// decode) in the order they finished: each path stops being pending,
    /// thumbnails are cached, failures remembered. Returns the thumbnails
    /// that arrived, in order.
    pub fn drain(&mut self, results: Vec<(String, Option<Thumb>)>) -> (ready: Vec<(String, Thumb)>)
        requires
            old(self).wf(),
            forall|i: int| 0 <= i < results@.len() ==> fits_memory(#[trigger] results@[i]),
        ensures
            final(self).wf(),
            final(self)@ == drain_spec(old(self)@, results_view(results@)),
            ready_view(ready@) == ready_spec(results_view(results@)),
    {
        let ghost v0 = self@;
        let ghost rv = results_view(results@);
        let mut ready: Vec<(String, Thumb)> = Vec::new();
        let n = results.len();
        let mut k: usize = 0;
        while k < n
            invariant
                n == results@.len(),
                rv == results_view(results@),
                k <= n,
                self.wf(),
                forall|i: int| 0 <= i < results@.len() ==> fits_memory(#[trigger] results@[i]),
                self@ == drain_spec(v0, rv.take(k as int)),
                ready_view(ready@) == ready_spec(rv.take(k as int)),
            decreases n - k,
        {
            assert(rv.take(k + 1).drop_last() =~= rv.take(k as int));
            let key = results[k].0.clone();
            let res: Option<Thumb> = match &results[k].1 {
                Some(t) => Some(copy_thumb(t)),
                None => None,
            };
            assert(opt_thumb(res) == rv[k as int].1);
            assert(fits_memory(results@[k as int]));
            let ghost r0 = ready@;
            match &res {
                Some(t) => {
                    ready.push((key.clone(), copy_thumb(t)));
                    assert(ready_view(ready@) =~= ready_view(r0).push((key@, t@)));
                },
                None => {},
            }
            self.finish(key, res);
            k = k + 1;
        }
        assert(rv.take(n as int) =~= rv);
        ready
    }

    /// Forgets the queued requests (they stop being pending) and the
    /// remembered failures; cached thumbnails stay.
    pub fn clear_pending(&mut self)
        requires
            old(self).wf(),
        ensures
            final(self).wf(),
            final(self)@ == (ThumbServiceView {
                queue: Seq::empty(),
                pending: old(self)@.pending.difference(old(self)@.queue.to_set()),
                cache: old(self)@.cache,
                negative: Set::empty(),
            }),
    {
        let ghost v0 = self@;
        let n = self.queue.len();
        let mut k: usize = 0;
        while k < n
            invariant
                n == self.queue@.len(),
                k <= n,
                self.wf(),
                keys(self.queue@) == v0.queue,
                self.cache == old(self).cache,
                keys(self.pending@).to_set() == v0.pending.difference(v0.queue.take(k as int).to_set()),
            decreases n - k,
        {
            let ghost p0 = keys(self.pending@);
            let q = self.queue[k].clone();
            assert(v0.queue.take(k + 1) =~= v0.queue.take(k as int).push(q@));
            proof {
                lemma_push_set(v0.queue.take(k as int), q@);
            }
            match index_of(&self.pending, q.as_str()) {
                Some(i) => {
                    proof {
                        lemma_remove_unique(p0, i as int);
                    }
                    self.pending.remove(i);
                    assert(keys(self.pending@) =~= p0.remove(i as int));
                },
                None => {},
            }
            assert(keys(self.pending@).to_set() =~= v0.pending.difference(
                v0.queue.take(k + 1).to_set(),
            ));
            k = k + 1;
        }
        assert(v0.queue.take(n as int) =~= v0.queue);
        self.queue = Vec::new();
        self.negative = Vec::new();
        assert(keys(self.queue@) =~= Seq::<Seq<char>>::empty());
        assert(keys(self.negative@).to_set() =~= Set::<Seq<char>>::empty());
    }

    /// How many paths are pending (queued or being decoded).
    pub fn pending_count(&self) -> (r: usize)
        requires
            self.wf(),
        ensures
            r == self@.pending.len(),
    {
        proof {
            keys(self.pending@).unique_seq_to_set();
        }
        self.pending.len()
    }

    /// Whether `path` is pending.
    pub fn is_pending(&self, path: &str) -> (r: bool)
        ensures
            r == self@.pending.contains(path@),
    {
        index_of(&self.pending, path).is_some()
    }

    /// How many requests are queued.
    pub fn queued_count(&self) -> (r: usize)
        ensures
            r == self@.queue.len(),
    {
        self.queue.len()
    }

    /// Whether `path` is queued.
    pub fn is_queued(&self, path: &str) -> (r: bool)
        ensures
            r == self@.queue.contains(path@),
    {
        index_of(&self.queue, path).is_some()
    }

    /// Whether a thumbnail for `path` is cached.
    pub fn is_cached(&self, path: &str) -> (r: bool)
        ensures
            r == key_index(self@.cache, path@) is Some,
    {
        cache_index_of(&self.cache, path).is_some()
    }

    /// How many thumbnails are cached.
    pub fn cached_count(&self) -> (r: usize)
        ensures
            r == self@.cache.len(),
    {
        self.cache.len()
    }

    /// Pixel bytes held by the cache.
    pub fn cached_bytes(&self) -> (r: usize)
        requires
            self.wf(),
        ensures
            r == total_bytes(self@.cache),
    {
        self.cache_bytes
    }

    /// Whether `path` is remembered as failing.
    pub fn is_negative(&self, path: &str) -> (r: bool)
        ensures
            r == self@.negative.contains(path@),
    {
        index_of(&self.negative, path).is_some()
    }
}

proof fn lemma_evict_suffix(c: Seq<(Seq<char>, (u32, u32, Seq<u8>))>)
    ensures
        evict(c).len() <= c.len(),
        evict(c) == c.skip(c.len() - evict(c).len()),
        c.len() >= 1 && c.last().1.2.len() <= MAX_CACHE_BYTES ==> evict(c).len() >= 1,
    decreases c.len(),
{
    if c.len() > 0 && (c.len() > MAX_CACHED || total_bytes(c) > MAX_CACHE_BYTES) {
        let d = c.drop_first();
        lemma_evict_suffix(d);
        assert(c.skip(c.len() - evict(c).len()) =~= d.skip(d.len() - evict(d).len()));
        if c.len() == 1 {
            assert(d.len() == 0);
            if c.last().1.2.len() <= MAX_CACHE_BYTES {
                assert(total_bytes(d) == 0);
                assert(total_bytes(c) == c[0].1.2.len() + total_bytes(d));
                assert(false);
            }
        } else {
            assert(d.last() == c.last());
        }
    } else {
        assert(c.skip(0) =~= c);
    }
}

proof fn lemma_key_of_last(d: Seq<(Seq<char>, (u32, u32, Seq<u8>))>)
    requires
        unique_keys(d),
        d.len() >= 1,
    ensures
        key_index(d, d.last().0) == Some((d.len() - 1) as int),
{
    lemma_key_index_from(d, d.last().0, 0);
}

/// The cache never holds more than [`MAX_CACHED`] thumbnails or more than
/// [`MAX_CACHE_BYTES`] pixel bytes, and never two entries for one path.
pub proof fn law_cache_bounded(s: &ThumbService)
    requires
        s.wf(),
    ensures
        s@.cache.len() <= MAX_CACHED,
        total_bytes(s@.cache) <= MAX_CACHE_BYTES,
        unique_keys(s@.cache),
{
}

/// A thumbnail that arrives for a path is then cached under it, as the most
/// recently used entry, unless it alone exceeds [`MAX_CACHE_BYTES`].
pub proof fn law_finished_thumb_is_cached(s: &ThumbService, k: Seq<char>, t: (u32, u32, Seq<u8>))
    requires
        s.wf(),
        t.2.len() <= MAX_CACHE_BYTES,
    ensures
        ({
            let c = finish_spec(s@, k, Some(t)).cache;
            key_index(c, k) == Some((c.len() - 1) as int) && c.last() == (k, t)
        }),
        !finish_spec(s@, k, Some(t)).pending.contains(k),
{
    let c0 = s@.cache;
    lemma_key_index_from(c0, k, 0);
    let c1 = remove_key(c0, k);
    match key_index(c0, k) {
        Some(i) => {
            lemma_unique_remove(c0, i);
        },
        None => {},
    }
    assert(forall|j: int| 0 <= j < c1.len() ==> c1[j].0 != k);
    let c2 = c1.push((k, t));
    assert(unique_keys(c2)) by {
        assert forall|a: int, b: int| 0 <= a < b < c2.len() implies c2[a].0 != c2[b].0 by {
            if b < c1.len() {
                assert(c2[a] == c1[a] && c2[b] == c1[b]);
            } else {
                assert(c2[a] == c1[a]);
            }
        }
    }
    lemma_evict_suffix(c2);
    let e = evict(c2);
    assert(e.last() == c2.last());
    assert(unique_keys(e)) by {
        let j = c2.len() - e.len();
        assert forall|a: int, b: int| 0 <= a < b < e.len() implies e[a].0 != e[b].0 by {
            assert(e[a] == c2[a + j] && e[b] == c2[b + j]);
        }
    }
    lemma_key_of_last(e);
}

/// A path whose decode failed is not queued again until the failures are
/// forgotten by [`ThumbService::clear_pending`].
pub proof fn law_failure_not_requeued(v: ThumbServiceView, k: Seq<char>)
    ensures
        request_spec(finish_spec(v, k, None), k).1 == false,
        request_spec(finish_spec(v, k, None), k).0 == finish_spec(v, k, None),
{
}

/// The service after [`ThumbService::get`] of `p`: a cached `p` becomes the
/// most recently used entry; nothing else changes.
pub open spec fn get_view(v: ThumbServiceView, p: Seq<char>) -> ThumbServiceView {
    match key_index(v.cache, p) {
        Some(i) => ThumbServiceView {
            queue: v.queue,
            pending: v.pending,
            cache: v.cache.remove(i).push(v.cache[i]),
            negative: v.negative,
        },
        None => v,
    }
}

/// A lookup keeps every cached thumbnail and its pixels, and finds one
/// exactly when it is cached; a found path becomes the most recently used,
/// so it is evicted after every other cached path.
pub proof fn law_get_keeps_cache(s: &ThumbService, p: Seq<char>)
    requires
        s.wf(),
    ensures
        get_view(s@, p).cache.to_multiset() == s@.cache.to_multiset(),
        get_view(s@, p).queue == s@.queue && get_view(s@, p).pending == s@.pending
            && get_view(s@, p).negative == s@.negative,
        key_index(s@.cache, p) is Some <==> exists|i: int| 0 <= i < s@.cache.len() && #[trigger] s@.cache[i].0 == p,
        key_index(s@.cache, p) is Some ==> get_view(s@, p).cache.last().0 == p && key_index(
            get_view(s@, p).cache,
            p,
        ) == Some((s@.cache.len() - 1) as int),
{
    let c = s@.cache;
    lemma_key_index_from(c, p, 0);
    match key_index(c, p) {
        Some(i) => {
            broadcast use vstd::seq_lib::group_to_multiset_ensures;
            let d = c.remove(i).push(c[i]);
            assert(c.remove(i).to_multiset() == c.to_multiset().remove(c[i]));
            assert(d.to_multiset() == c.remove(i).to_multiset().insert(c[i]));
            assert(c.to_multiset().contains(c[i]));
            assert(d.to_multiset() =~= c.to_multiset());
            lemma_unique_remove(c, i);
            assert(unique_keys(d)) by {
                assert forall|a: int, b: int| 0 <= a < b < d.len() implies d[a].0 != d[b].0 by {
                    if b < d.len() - 1 {
                        assert(d[a] == c.remove(i)[a] && d[b] == c.remove(i)[b]);
                    } else {
                        assert(d[a] == c.remove(i)[a]);
                    }
                }
            }
            lemma_key_of_last(d);
        },
        None => {},
    }
}

/// The service after [`ThumbService::clear_pending`].
pub open spec fn cleared_view(v: ThumbServiceView) -> ThumbServiceView {
    ThumbServiceView {
        queue: Seq::empty(),
        pending: v.pending.difference(v.queue.to_set()),
        cache: v.cache,
        negative: Set::empty(),
    }
}

/// Clearing keeps every cached thumbnail, leaves nothing queued, and forgets
/// failures: a path that failed (and is not being decoded) is queued again
/// on its next request.
pub proof fn law_clear_forgets_failures(v: ThumbServiceView, p: Seq<char>)
    requires
        key_index(v.cache, p) is None,
        !v.pending.contains(p) || v.queue.contains(p),
    ensures
        cleared_view(v).queue.len() == 0,
        cleared_view(v).cache == v.cache,
        request_spec(cleared_view(v), p).1,
        request_spec(cleared_view(v), p).0.queue == seq![p],
{
    let c = cleared_view(v);
    if v.queue.contains(p) {
        assert(v.queue.to_set().contains(p));
    }
    assert(!c.pending.contains(p));
    assert(Seq::<Seq<char>>::empty().push(p) =~= seq![p]);
}

/// After a batch of decoder results, none of their paths is pending, every
/// path whose decode failed is remembered as failed, and when the last
/// result is a thumbnail that fits the cache it is the most recently used
/// entry, found under its path.
pub proof fn law_drain_outcome(
    v: ThumbServiceView,
    rs: Seq<(Seq<char>, Option<(u32, u32, Seq<u8>)>)>,
    s: &ThumbService,
)
    requires
        s.wf(),
        s@ == drain_spec(v, rs),
    ensures
        forall|i: int| 0 <= i < rs.len() ==> !s@.pending.contains(#[trigger] rs[i].0),
        forall|i: int| 0 <= i < rs.len() && rs[i].1 is None ==> s@.negative.contains(#[trigger] rs[i].0),
        rs.len() > 0 ==> (rs.last().1 matches Some(t) ==> (t.2.len() <= MAX_CACHE_BYTES ==> (
        s@.cache.last() == (rs.last().0, t) && key_index(s@.cache, rs.last().0) == Some(
            (s@.cache.len() - 1) as int,
        )))),
{
    lemma_drain_sets(v, rs);
    if rs.len() > 0 {
        match rs.last().1 {
            Some(t) => {
                if t.2.len() <= MAX_CACHE_BYTES {
                    let w = drain_spec(v, rs.drop_last());
                    let k = rs.last().0;
                    let c2 = remove_key(w.cache, k).push((k, t));
                    lemma_evict_suffix(c2);
                    assert(s@.cache == evict(c2));
                    assert(s@.cache.last() == c2.last());
                    law_cache_bounded(s);
                    lemma_key_of_last(s@.cache);
                }
            },
            None => {},
        }
    }
}

proof fn lemma_drain_sets(v: ThumbServiceView, rs: Seq<(Seq<char>, Option<(u32, u32, Seq<u8>)>)>)
    ensures
        forall|i: int| 0 <= i < rs.len() ==> !drain_spec(v, rs).pending.contains(#[trigger] rs[i].0),
        forall|i: int|
            0 <= i < rs.len() && rs[i].1 is None ==> drain_spec(v, rs).negative.contains(#[trigger] rs[i].0),
        drain_spec(v, rs).pending.subset_of(v.pending),
        v.negative.subset_of(drain_spec(v, rs).negative),
    decreases rs.len(),
{
    if rs.len() > 0 {
        let d = rs.drop_last();
        lemma_drain_sets(v, d);
        assert forall|i: int| 0 <= i < rs.len() implies !drain_spec(v, rs).pending.contains(#[trigger] rs[i].0) by {
            if i < rs.len() - 1 {
                assert(rs[i] == d[i]);
            }
        }
        assert forall|i: int| 0 <= i < rs.len() && rs[i].1 is None implies drain_spec(v, rs).negative.contains(
            #[trigger] rs[i].0,
        ) by {
            if i < rs.len() - 1 {
                assert(rs[i] == d[i]);
            }
        }
    }
}

// ---- the disk cache janitor ---------------------------------------------------

/// Whether `order` lists positions of `keys` in non-decreasing key order.
pub open spec fn sorted_by_key(order: Seq<usize>, keys: Seq<u128>) -> bool {
    forall|a: int, b: int| 0 <= a < b < order.len() ==> keys[order[a] as int] <= keys[order[b] as int]
}

/// Whether `order` holds distinct positions below `n`.
pub open spec fn distinct_below(order: Seq<usize>, n: int) -> bool {
    &&& forall|a: int| 0 <= a < order.len() ==> order[a] < n
    &&& forall|a: int, b: int| 0 <= a < b < order.len() ==> order[a] != order[b]
}

/// Positions with equal keys appear in increasing order.
pub open spec fn stable_by_key(order: Seq<usize>, keys: Seq<u128>) -> bool {
    forall|a: int, b: int|
        0 <= a < b < order.len() && keys[order[a] as int] == keys[order[b] as int] ==> order[a] < order[b]
}

/// The positions of `keys`, ordered by key; equal keys keep their order.
fn order_by_key(keys: &[u128]) -> (order: Vec<usize>)
    ensures
        order@.len() == keys@.len(),
        distinct_below(order@, keys@.len() as int),
        forall|b: usize| b < keys@.len() ==> #[trigger] order@.contains(b),
        sorted_by_key(order@, keys@),
        stable_by_key(order@, keys@),
{
    let n = keys.len();
    let mut order: Vec<usize> = Vec::new();
    let mut i: usize = 0;
    while i < n
        invariant
            n == keys@.len(),
            i <= n,
            order@.len() == i,
            distinct_below(order@, i as int),
            forall|b: usize| b < i ==> #[trigger] order@.contains(b),
            sorted_by_key(order@, keys@),
            stable_by_key(order@, keys@),
        decreases n - i,
    {
        let mut p: usize = 0;
        while p < order.len() && keys[order[p]] <= keys[i]
            invariant
                n == keys@.len(),
                i < n,
                p <= order@.len(),
                distinct_below(order@, i as int),
                forall|a: int| 0 <= a < p ==> keys@[order@[a] as int] <= keys@[i as int],
            decreases order@.len() - p,
        {
            p = p + 1;
        }
        let ghost o0 = order@;
        order.insert(p, i);
        let ghost o1 = order@;
        assert(o1 =~= o0.insert(p as int, i));
        assert(stable_by_key(o1, keys@)) by {
            assert forall|a: int, b: int|
                0 <= a < b < o1.len() && keys@[o1[a] as int] == keys@[o1[b] as int] implies o1[a] < o1[b] by {
                if b < p {
                    assert(o1[a] == o0[a] && o1[b] == o0[b]);
                } else if b == p {
                    assert(o1[a] == o0[a]);
                } else if a == p {
                    assert(o1[b] == o0[b - 1]);
                    assert(keys@[o0[p as int] as int] > keys@[i as int]);
                    if b - 1 > p {
                        assert(keys@[o0[p as int] as int] <= keys@[o0[b - 1] as int]);
                    }
                } else if a < p {
                    assert(o1[a] == o0[a] && o1[b] == o0[b - 1]);
                    assert(keys@[o0[p as int] as int] > keys@[i as int]);
                    if b - 1 > p {
                        assert(keys@[o0[p as int] as int] <= keys@[o0[b - 1] as int]);
                    }
                    assert(keys@[o0[a] as int] <= keys@[i as int]);
                } else {
                    assert(o1[a] == o0[a - 1] && o1[b] == o0[b - 1]);
                }
            }
        }
        assert(sorted_by_key(o1, keys@)) by {
            assert forall|a: int, b: int| 0 <= a < b < o1.len() implies keys@[o1[a] as int] <= keys@[o1[b] as int] by {
                if b < p {
                    assert(o1[a] == o0[a] && o1[b] == o0[b]);
                } else if b == p {
                    assert(o1[a] == o0[a]);
                } else if a == p {
                    assert(o1[b] == o0[b - 1]);
                    assert(keys@[o0[p as int] as int] > keys@[i as int]);
                    if b - 1 > p {
                        assert(keys@[o0[p as int] as int] <= keys@[o0[b - 1] as int]);
                    }
                } else if a < p {
                    assert(o1[a] == o0[a] && o1[b] == o0[b - 1]);
                    assert(keys@[o0[p as int] as int] > keys@[i as int]);
                    if b - 1 > p {
                        assert(keys@[o0[p as int] as int] <= keys@[o0[b - 1] as int]);
                    }
                } else {
                    assert(o1[a] == o0[a - 1] && o1[b] == o0[b - 1]);
                }
            }
        }
        assert(distinct_below(o1, i + 1)) by {
            assert forall|a: int, b: int| 0 <= a < b < o1.len() implies o1[a] != o1[b] by {
                let a2 = if a < p { a } else { a - 1 };
                let b2 = if b < p { b } else { b - 1 };
                if a != p && b != p {
                    assert(o1[a] == o0[a2] && o1[b] == o0[b2]);
                } else if a == p {
                    assert(o1[b] == o0[b2]);
                } else {
                    assert(o1[a] == o0[a2]);
                }
            }
        }
        assert forall|b: usize| b < i + 1 implies #[trigger] o1.contains(b) by {
            if b == i {
                assert(o1[p as int] == i);
            } else {
                assert(o0.contains(b));
                let q = choose|q: int| 0 <= q < o0.len() && o0[q] == b;
                if q < p {
                    assert(o1[q] == o0[q]);
                } else {
                    assert(o1[q + 1] == o0[q]);
                }
            }
        }
        i = i + 1;
    }
    order
}

/// Which cache files to delete so that at most `max_entries` stay, given
/// each file's modification time: the oldest ones, as positions in `mtimes`.
/// Every deleted file is at least as old as every kept one, and of equally
/// old files those listed first go first.
pub fn prune_victims(mtimes: &[u128], max_entries: usize) -> (r: Vec<usize>)
    ensures
        mtimes@.len() <= max_entries ==> r@.len() == 0,
        mtimes@.len() > max_entries ==> r@.len() == mtimes@.len() - max_entries,
        distinct_below(r@, mtimes@.len() as int),
        forall|i: int, b: usize| 0 <= i < r@.len() && b < mtimes@.len() && !r@.contains(b) ==> mtimes@[#[trigger] r@[i] as int]
            <= #[trigger] mtimes@[b as int],
        forall|i: int, b: usize|
            0 <= i < r@.len() && b < mtimes@.len() && !r@.contains(b) && mtimes@[#[trigger] r@[i] as int]
                == #[trigger] mtimes@[b as int] ==> r@[i] < b,
{
    let n = mtimes.len();
    if n <= max_entries {
        return Vec::new();
    }
    let order = order_by_key(mtimes);
    let excess = n - max_entries;
    let mut r: Vec<usize> = Vec::new();
    let mut k: usize = 0;
    while k < excess
        invariant
            excess <= n,
            n == mtimes@.len(),
            order@.len() == n,
            k <= excess,
            r@ == order@.take(k as int),
        decreases excess - k,
    {
        r.push(order[k]);
        k = k + 1;
        assert(r@ =~= order@.take(k as int));
    }
    assert forall|i: int, b: usize| 0 <= i < r@.len() && b < mtimes@.len() && !r@.contains(b)
        implies mtimes@[#[trigger] r@[i] as int] <= #[trigger] mtimes@[b as int] by {
        assert(order@.contains(b));
        let q = choose|q: int| 0 <= q < order@.len() && order@[q] == b;
        if q < excess {
            assert(r@[q] == b);
        }
        assert(r@[i] == order@[i]);
    }
    assert forall|i: int, b: usize|
        0 <= i < r@.len() && b < mtimes@.len() && !r@.contains(b) && mtimes@[#[trigger] r@[i] as int]
            == #[trigger] mtimes@[b as int] implies r@[i] < b by {
        assert(order@.contains(b));
        let q = choose|q: int| 0 <= q < order@.len() && order@[q] == b;
        if q < excess {
            assert(r@[q] == b);
        }
        assert(r@[i] == order@[i]);
    }
    r
}

} // verus!
