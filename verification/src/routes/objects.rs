//! Object keys, validators and byte ranges: what the object endpoints decide
//! before and after they touch the store.
//!
//! A key is text whose segments stand between `/`; no other character
//! separates, so a `\` is part of a segment. A valid key names a path
//! below the root of the store, segment by segment. Nothing here follows
//! links: an entry of the store that points out of it leads out of it.

use crate::decimal::{all_digits, decimal, is_digit, lemma_decimal_injective,
    lemma_decimal_reads_back, push_decimal, read_u64, unsigned_up_to};
use crate::error::{store_failure, ApiError, StoreError};
use crate::text::{chars_of, cuts, cuts_within, find_char, is_space,
    lemma_cut_at_first, lemma_first_at, lemma_first_at_is, lemma_split_ends_empty,
    lemma_split_joined, lemma_split_one, lemma_split_pieces_hold_no_sep, lowered, range_is,
    range_is_lowered, slice_string, split, split_ranges, starts_with, trim, trim_range};
use vstd::prelude::*;
use vstd::string::StringExecFns;

verus! {

/// A segment that names an entry below the directory it stands in: not
/// empty, and neither `.` nor `..`.
pub open spec fn is_normal_segment(seg: Seq<char>) -> bool {
    seg.len() > 0 && seg != seq!['.'] && seg != seq!['.', '.']
}

/// A key is valid where each of its segments, the pieces between `/`, is a
/// normal one. The empty key has one segment, the empty one, and so has a
/// key that starts or ends with `/` or holds `//`.
pub open spec fn valid_key(key: Seq<char>) -> bool {
    forall|i: int|
        0 <= i < split(key, '/').len() ==> is_normal_segment(#[trigger] split(key, '/')[i])
}

/// The path of `key` below `root`: one `/` stands between them unless
/// `root` is empty or brings its own.
pub open spec fn resolved(root: Seq<char>, key: Seq<char>) -> Seq<char> {
    if root.len() == 0 || root.last() == '/' {
        root + key
    } else {
        root + seq!['/'] + key
    }
}

fn normal_segment(v: &Vec<char>, lo: usize, hi: usize) -> (r: bool)
    requires
        lo <= hi <= v.len(),
    ensures
        r == is_normal_segment(v@.subrange(lo as int, hi as int)),
{
    let ghost seg = v@.subrange(lo as int, hi as int);
    if hi == lo {
        false
    } else if hi - lo == 1 && v[lo] == '.' {
        assert(seg =~= seq!['.']);
        false
    } else if hi - lo == 2 && v[lo] == '.' && v[lo + 1] == '.' {
        assert(seg =~= seq!['.', '.']);
        false
    } else {
        assert(seg != seq!['.']) by {
            if seg == seq!['.'] {
                assert(seg.len() == 1 && seg[0] == '.');
            }
        }
        assert(seg != seq!['.', '.']) by {
            if seg == seq!['.', '.'] {
                assert(seg.len() == 2 && seg[0] == '.' && seg[1] == '.');
            }
        }
        true
    }
}

/// Whether `key` is a valid key.
pub fn is_valid_key(key: &str) -> (r: bool)
    ensures
        r == valid_key(key@),
{
    let kv = chars_of(key);
    assert(kv@.subrange(0, kv.len() as int) =~= key@);
    let segs = split_ranges(&kv, 0, kv.len(), '/');
    let mut i: usize = 0;
    while i < segs.len()
        invariant
            i <= segs.len(),
            kv@ == key@,
            cuts_within(segs@, 0, kv.len() as int),
            cuts(kv@, segs@) == split(key@, '/'),
            forall|k: int| 0 <= k < i ==> is_normal_segment(#[trigger] split(key@, '/')[k]),
        decreases segs.len() - i,
    {
        let (a, b) = segs[i];
        assert(cuts(kv@, segs@)[i as int] == kv@.subrange(a as int, b as int));
        if !normal_segment(&kv, a, b) {
            return false;
        }
        i += 1;
    }
    true
}

/// `rel` below `root`, with one `/` between them unless `root` is empty or
/// brings its own.
pub fn join_path(root: &str, rel: &str) -> (r: String)
    ensures
        r@ == resolved(root@, rel@),
{
    let rv = chars_of(root);
    let mut out = root.to_owned();
    if rv.len() > 0 && rv[rv.len() - 1] != '/' {
        proof {
            reveal_strlit("/");
        }
        out.append("/");
    }
    out.append(rel);
    out
}

/// The path below `root` that `key` names, for a valid key; `None` for any
/// other key.
pub fn resolve_key(root: &str, key: &str) -> (r: Option<String>)
    ensures
        match r {
            Some(p) => valid_key(key@) && p@ == resolved(root@, key@),
            None => !valid_key(key@),
        },
{
    if is_valid_key(key) {
        Some(join_path(root, key))
    } else {
        None
    }
}

/// The path of the object at `key` below `root`; a key that is not valid
/// is refused as an invalid key.
pub fn object_path(root: &str, key: &str) -> (r: Result<String, ApiError>)
    ensures
        match r {
            Ok(p) => valid_key(key@) && p@ == resolved(root@, key@),
            Err(e) => !valid_key(key@) && e == ApiError::InvalidKey,
        },
{
    match resolve_key(root, key) {
        Some(p) => Ok(p),
        None => Err(ApiError::InvalidKey),
    }
}

/// A valid key resolves to a path below the root: the path starts with the
/// root, what follows is the key after at most one `/`, and no segment of
/// the key is empty, `.` or `..` or holds a `/`, so the path never climbs.
pub proof fn lemma_resolved_stays_below_root(root: Seq<char>, key: Seq<char>)
    requires
        valid_key(key),
    ensures
        root.is_prefix_of(resolved(root, key)),
        resolved(root, key).skip(root.len() as int) == key || resolved(root, key).skip(
            root.len() as int,
        ) == seq!['/'] + key,
        forall|i: int|
            0 <= i < split(key, '/').len() ==> {
                let seg = #[trigger] split(key, '/')[i];
                &&& seg.len() > 0
                &&& seg != seq!['.']
                &&& seg != seq!['.', '.']
                &&& !seg.contains('/')
            },
{
    lemma_split_pieces_hold_no_sep(key, '/');
}

/// The empty key, a key that starts with `/` and a key with a segment `..`
/// are not valid.
pub proof fn lemma_rejected_keys(key: Seq<char>)
    ensures
        key.len() == 0 ==> !valid_key(key),
        key.len() > 0 && key[0] == '/' ==> !valid_key(key),
        split(key, '/').contains(seq!['.', '.']) ==> !valid_key(key),
{
    lemma_first_at(key, '/');
    lemma_split_one(key, '/');
    if key.len() == 0 {
        assert(split(key, '/')[0] == key);
    } else if key[0] == '/' {
        assert(split(key, '/')[0] =~= key.take(0));
    }
    if split(key, '/').contains(seq!['.', '.']) {
        let i = choose|i: int| 0 <= i < split(key, '/').len() && split(key, '/')[i] == seq![
            '.',
            '.',
        ];
    }
}

/// A normal segment directly below the root, or below a valid key, is a
/// valid key again: what a directory of the store holds under such a name
/// can be asked for by the key that this gives.
pub proof fn lemma_child_key_is_valid(dir: Seq<char>, name: Seq<char>)
    requires
        dir.len() == 0 || valid_key(dir),
        is_normal_segment(name),
        !name.contains('/'),
    ensures
        valid_key(resolved(dir, name)),
        dir.len() == 0 ==> resolved(dir, name) == name,
        dir.len() > 0 ==> resolved(dir, name) == dir + seq!['/'] + name,
{
    assert forall|k: int| 0 <= k < name.len() implies name[k] != '/' by {
        if name[k] == '/' {
            assert(name.contains('/'));
        }
    }
    lemma_first_at_is(name, '/', name.len() as int);
    lemma_split_one(name, '/');
    if dir.len() == 0 {
        assert(resolved(dir, name) =~= name);
    } else {
        if dir.last() == '/' {
            lemma_split_ends_empty(dir, '/');
            let n = split(dir, '/').len();
            assert(!is_normal_segment(split(dir, '/')[n - 1]));
        }
        lemma_split_joined(dir, name, '/');
        let pieces = split(dir + seq!['/'] + name, '/');
        assert forall|i: int| 0 <= i < pieces.len() implies is_normal_segment(
            #[trigger] pieces[i],
        ) by {
            if i < split(dir, '/').len() {
                assert(pieces[i] == split(dir, '/')[i]);
            } else {
                assert(pieces[i] == name);
            }
        }
    }
}

/// The place of the last `sep` in `s`; -1 where it has none.
pub open spec fn last_at(s: Seq<char>, sep: char) -> int
    decreases s.len(),
{
    if s.len() == 0 {
        -1
    } else if s.last() == sep {
        s.len() - 1
    } else {
        last_at(s.drop_last(), sep)
    }
}

/// The last segment of `key`: what follows its last `/`.
pub open spec fn file_name(key: Seq<char>) -> Seq<char> {
    key.skip(last_at(key, '/') + 1)
}

/// The extension of the key's file name: what follows its last `.`. A name
/// without a `.`, a name whose only `.` is its first character, and the
/// name `..` have none.
pub open spec fn extension(key: Seq<char>) -> Option<Seq<char>> {
    let name = file_name(key);
    let dot = last_at(name, '.');
    if dot <= 0 || name == seq!['.', '.'] {
        None
    } else {
        Some(name.skip(dot + 1))
    }
}

/// The media type that goes with an extension, capitals in it counting as
/// their lower-case letters.
pub open spec fn media_type(ext: Seq<char>) -> Seq<char> {
    let e = lowered(ext);
    if e == "png"@ {
        "image/png"@
    } else if e == "jpg"@ || e == "jpeg"@ {
        "image/jpeg"@
    } else if e == "gif"@ {
        "image/gif"@
    } else if e == "webp"@ {
        "image/webp"@
    } else if e == "svg"@ {
        "image/svg+xml"@
    } else if e == "txt"@ {
        "text/plain; charset=utf-8"@
    } else if e == "json"@ {
        "application/json"@
    } else if e == "html"@ {
        "text/html; charset=utf-8"@
    } else if e == "css"@ {
        "text/css; charset=utf-8"@
    } else if e == "js"@ {
        "application/javascript"@
    } else if e == "pdf"@ {
        "application/pdf"@
    } else if e == "mp4"@ {
        "video/mp4"@
    } else if e == "mp3"@ {
        "audio/mpeg"@
    } else if e == "wav"@ {
        "audio/wav"@
    } else {
        "application/octet-stream"@
    }
}

/// The media type served for `key`.
pub open spec fn content_type(key: Seq<char>) -> Seq<char> {
    match extension(key) {
        Some(ext) => media_type(ext),
        None => "application/octet-stream"@,
    }
}

/// The place of the last `sep` in `v[lo..hi]`, counted from `lo`, as an
/// index one higher: `lo` where there is none.
fn after_last(v: &Vec<char>, lo: usize, hi: usize, sep: char) -> (r: usize)
    requires
        lo <= hi <= v.len(),
    ensures
        lo <= r <= hi,
        r - lo == last_at(v@.subrange(lo as int, hi as int), sep) + 1,
{
    let mut i: usize = hi;
    while i > lo && v[i - 1] != sep
        invariant
            lo <= i <= hi <= v.len(),
            last_at(v@.subrange(lo as int, hi as int), sep) == last_at(
                v@.subrange(lo as int, i as int),
                sep,
            ),
        decreases i - lo,
    {
        assert(v@.subrange(lo as int, i as int).drop_last() =~= v@.subrange(lo as int, i - 1));
        i -= 1;
    }
    i
}

/// The media type served for `key`, by the extension of its file name.
pub fn guess_content_type(key: &str) -> (r: &'static str)
    ensures
        r@ == content_type(key@),
{
    let kv = chars_of(key);
    let n = kv.len();
    assert(kv@.subrange(0, n as int) =~= key@);
    let start = after_last(&kv, 0, n, '/');
    let ghost name = file_name(key@);
    let after_dot = after_last(&kv, start, n, '.');
    let two_dots = n - start == 2 && kv[start] == '.' && kv[start + 1] == '.';
    proof {
        if two_dots {
            assert(name =~= seq!['.', '.']);
        }
    }
    if after_dot - start <= 1 || two_dots {
        return "application/octet-stream";
    }
    let ghost ext = name.skip(last_at(name, '.') + 1);
    assert(kv@.subrange(after_dot as int, n as int) =~= ext);
    if range_is_lowered(&kv, after_dot, n, "png") {
        "image/png"
    } else if range_is_lowered(&kv, after_dot, n, "jpg") || range_is_lowered(
        &kv,
        after_dot,
        n,
        "jpeg",
    ) {
        "image/jpeg"
    } else if range_is_lowered(&kv, after_dot, n, "gif") {
        "image/gif"
    } else if range_is_lowered(&kv, after_dot, n, "webp") {
        "image/webp"
    } else if range_is_lowered(&kv, after_dot, n, "svg") {
        "image/svg+xml"
    } else if range_is_lowered(&kv, after_dot, n, "txt") {
        "text/plain; charset=utf-8"
    } else if range_is_lowered(&kv, after_dot, n, "json") {
        "application/json"
    } else if range_is_lowered(&kv, after_dot, n, "html") {
        "text/html; charset=utf-8"
    } else if range_is_lowered(&kv, after_dot, n, "css") {
        "text/css; charset=utf-8"
    } else if range_is_lowered(&kv, after_dot, n, "js") {
        "application/javascript"
    } else if range_is_lowered(&kv, after_dot, n, "pdf") {
        "application/pdf"
    } else if range_is_lowered(&kv, after_dot, n, "mp4") {
        "video/mp4"
    } else if range_is_lowered(&kv, after_dot, n, "mp3") {
        "audio/mpeg"
    } else if range_is_lowered(&kv, after_dot, n, "wav") {
        "audio/wav"
    } else {
        "application/octet-stream"
    }
}

/// What the store knows of an object without reading it.
#[derive(Clone, Copy, Debug, PartialEq, Eq, Structural)]
pub struct ObjectMetadata {
    /// The length of the object in bytes.
    pub size: u64,
    /// When the object was last written: whole seconds since the epoch.
    pub modified_secs: u64,
    /// The nanoseconds that go with `modified_secs`.
    pub modified_nanos: u32,
}

/// The validator of an object with metadata `m`: `W/"size-seconds-nanos"`.
pub open spec fn etag(m: ObjectMetadata) -> Seq<char> {
    "W/\""@ + decimal(m.size as nat) + "-"@ + decimal(m.modified_secs as nat) + "-"@ + decimal(
        m.modified_nanos as nat,
    ) + "\""@
}

/// The validator of an object, made of its size and modification time alone.
pub fn make_etag(meta: &ObjectMetadata) -> (r: String)
    ensures
        r@ == etag(*meta),
{
    let mut out = "W/\"".to_owned();
    push_decimal(&mut out, meta.size);
    out.append("-");
    push_decimal(&mut out, meta.modified_secs);
    out.append("-");
    push_decimal(&mut out, meta.modified_nanos as u64);
    out.append("\"");
    out
}

/// Two runs of digits, each followed by `sep` and more text, are the same
/// run where the whole texts are the same; so is what follows `sep`.
proof fn lemma_same_head(
    a: Seq<char>,
    ta: Seq<char>,
    b: Seq<char>,
    tb: Seq<char>,
    sep: char,
)
    requires
        all_digits(a),
        all_digits(b),
        !is_digit(sep),
        a + seq![sep] + ta == b + seq![sep] + tb,
    ensures
        a == b,
        ta == tb,
{
    let x = a + seq![sep] + ta;
    lemma_cut_at_first(x, a, sep, ta);
    lemma_cut_at_first(x, b, sep, tb);
}

/// What stands between the quotes of a validator, nested so that each run
/// of digits is followed by its separator and the rest.
spec fn etag_tail(m: ObjectMetadata) -> Seq<char> {
    decimal(m.size as nat) + seq!['-'] + (decimal(m.modified_secs as nat) + seq!['-'] + (decimal(
        m.modified_nanos as nat,
    ) + seq!['"'] + Seq::<char>::empty()))
}

proof fn lemma_etag_shape(m: ObjectMetadata)
    ensures
        etag(m) == seq!['W', '/', '"'] + etag_tail(m),
{
    reveal_strlit("W/\"");
    reveal_strlit("-");
    reveal_strlit("\"");
}

proof fn lemma_same_after_prefix(p: Seq<char>, x: Seq<char>, y: Seq<char>)
    requires
        p + x == p + y,
    ensures
        x == y,
{
    assert((p + x).skip(p.len() as int) =~= x);
}

/// Objects have the same validator exactly when they have the same size,
/// the same seconds and the same nanoseconds.
pub proof fn lemma_etag_tells_metadata_apart(a: ObjectMetadata, b: ObjectMetadata)
    ensures
        (etag(a) == etag(b)) <==> (a == b),
{
    if etag(a) == etag(b) {
        lemma_etag_shape(a);
        lemma_etag_shape(b);
        lemma_same_after_prefix(seq!['W', '/', '"'], etag_tail(a), etag_tail(b));
        let a1 = decimal(a.size as nat);
        let a2 = decimal(a.modified_secs as nat);
        let a3 = decimal(a.modified_nanos as nat);
        let b1 = decimal(b.size as nat);
        let b2 = decimal(b.modified_secs as nat);
        let b3 = decimal(b.modified_nanos as nat);
        lemma_decimal_reads_back(a.size as nat);
        lemma_decimal_reads_back(a.modified_secs as nat);
        lemma_decimal_reads_back(a.modified_nanos as nat);
        lemma_decimal_reads_back(b.size as nat);
        lemma_decimal_reads_back(b.modified_secs as nat);
        lemma_decimal_reads_back(b.modified_nanos as nat);
        let e = Seq::<char>::empty();
        lemma_same_head(a1, a2 + seq!['-'] + (a3 + seq!['"'] + e), b1, b2 + seq!['-'] + (b3 + seq![
            '"',
        ] + e), '-');
        lemma_same_head(a2, a3 + seq!['"'] + e, b2, b3 + seq!['"'] + e, '-');
        lemma_same_head(a3, e, b3, e, '"');
        lemma_decimal_injective(a.size as nat, b.size as nat);
        lemma_decimal_injective(a.modified_secs as nat, b.modified_secs as nat);
        lemma_decimal_injective(a.modified_nanos as nat, b.modified_nanos as nat);
    }
}

/// The first and last byte that a `Range` header asks for, of an object of
/// `total` bytes. The header is `bytes=` and one range, white space around
/// it set aside: `start-` runs to the last byte, `-n` is the last `n` bytes
/// (all of them where `n` is more), `start-end` names both. A range that
/// starts behind the last byte, ends behind it or before its start, asks
/// for the last 0 bytes or is not of these forms gives `None`.
pub open spec fn byte_range(header: Seq<char>, total: u64) -> Option<(u64, u64)> {
    let s = trim(header);
    let unit = "bytes="@;
    if !unit.is_prefix_of(s) {
        None
    } else {
        let spec = s.skip(unit.len() as int);
        let parts = split(spec, '-');
        if spec.contains(',') || parts.len() != 2 {
            None
        } else {
            let first = unsigned_up_to(parts[0], u64::MAX as nat);
            let last = unsigned_up_to(parts[1], u64::MAX as nat);
            if parts[0].len() == 0 {
                match last {
                    Some(n) if n != 0 && total != 0 => Some(
                        (
                            if n < total {
                                (total - n) as u64
                            } else {
                                0
                            },
                            (total - 1) as u64,
                        ),
                    ),
                    _ => None,
                }
            } else if parts[1].len() == 0 {
                match first {
                    Some(start) if start < total => Some((start as u64, (total - 1) as u64)),
                    _ => None,
                }
            } else {
                match (first, last) {
                    (Some(start), Some(end)) if start <= end && end < total => Some(
                        (start as u64, end as u64),
                    ),
                    _ => None,
                }
            }
        }
    }
}

/// The header `bytes=` with `left`, a `-` and `right`, where each of the
/// two is empty or a run of digits, stands as it is once trimmed, and its
/// range has the two parts `left` and `right`.
proof fn lemma_range_parts(left: Seq<char>, right: Seq<char>)
    requires
        all_digits(left),
        all_digits(right),
    ensures
        ({
            let h = "bytes="@ + left + seq!['-'] + right;
            &&& trim(h) == h
            &&& "bytes="@.is_prefix_of(h)
            &&& h.skip("bytes="@.len() as int) == left + seq!['-'] + right
            &&& !h.skip("bytes="@.len() as int).contains(',')
            &&& split(h.skip("bytes="@.len() as int), '-') == seq![left, right]
        }),
{
    reveal_strlit("bytes=");
    let unit = "bytes="@;
    let h = unit + left + seq!['-'] + right;
    let spec = left + seq!['-'] + right;
    assert(h[0] == 'b');
    assert(h.last() == if right.len() > 0 {
        right.last()
    } else {
        '-'
    });
    assert(!is_space(h.last()));
    assert(h.subrange(0, unit.len() as int) =~= unit);
    assert(h.skip(unit.len() as int) =~= spec);
    assert forall|k: int| 0 <= k < spec.len() implies spec[k] != ',' by {
        if k < left.len() {
            assert(spec[k] == left[k]);
        } else if k > left.len() {
            assert(spec[k] == right[k - left.len() - 1]);
        }
    }
    lemma_cut_at_first(spec, left, '-', right);
    lemma_first_at_is(right, '-', right.len() as int);
    lemma_split_one(right, '-');
    assert(split(spec, '-') =~= seq![left, right]);
}

/// A range `start-` asks for the bytes from `start` to the last one,
/// where the object has a byte `start`, and for none where it has not.
pub proof fn lemma_range_from(start: u64, total: u64)
    ensures
        byte_range("bytes="@ + decimal(start as nat) + seq!['-'], total) == (if start < total {
            Some((start, (total - 1) as u64))
        } else {
            None
        }),
{
    let left = decimal(start as nat);
    let right = Seq::<char>::empty();
    lemma_decimal_reads_back(start as nat);
    lemma_range_parts(left, right);
    assert("bytes="@ + left + seq!['-'] + right =~= "bytes="@ + left + seq!['-']);
}

/// A range `-n` asks for the last `n` bytes, or for all where the object
/// has fewer; it asks for none where `n` is 0 or the object is empty.
pub proof fn lemma_range_suffix(n: u64, total: u64)
    ensures
        byte_range("bytes="@ + seq!['-'] + decimal(n as nat), total) == (if n != 0 && total != 0 {
            Some(
                (
                    if n < total {
                        (total - n) as u64
                    } else {
                        0
                    },
                    (total - 1) as u64,
                ),
            )
        } else {
            None
        }),
{
    let left = Seq::<char>::empty();
    let right = decimal(n as nat);
    lemma_decimal_reads_back(n as nat);
    lemma_range_parts(left, right);
    assert("bytes="@ + left + seq!['-'] + right =~= "bytes="@ + seq!['-'] + right);
}

/// A range `start-end` asks for the bytes from `start` to `end`, where
/// `start` is not behind `end` and the object has a byte `end`, and for
/// none where that is not so.
pub proof fn lemma_range_between(start: u64, end: u64, total: u64)
    ensures
        byte_range(
            "bytes="@ + decimal(start as nat) + seq!['-'] + decimal(end as nat),
            total,
        ) == (if start <= end && end < total {
            Some((start, end))
        } else {
            None
        }),
{
    lemma_decimal_reads_back(start as nat);
    lemma_decimal_reads_back(end as nat);
    lemma_range_parts(decimal(start as nat), decimal(end as nat));
}

/// Reads a `Range` header against an object of `total` bytes.
pub fn parse_range(h: &str, total: u64) -> (r: Option<(u64, u64)>)
    ensures
        r == byte_range(h@, total),
        r matches Some((start, end)) ==> start <= end < total,
{
    let v = chars_of(h);
    assert(v@.subrange(0, v.len() as int) =~= h@);
    let (a, b) = trim_range(&v, 0, v.len());
    let ghost s = trim(h@);
    if !starts_with(&v, a, b, "bytes=") {
        return None;
    }
    proof {
        reveal_strlit("bytes=");
    }
    let lo: usize = a + 6;
    let ghost spec = s.skip(6);
    assert(v@.subrange(lo as int, b as int) =~= spec);
    let comma = find_char(&v, lo, b, ',');
    proof {
        lemma_first_at(spec, ',');
    }
    if comma < b {
        return None;
    }
    let dash = find_char(&v, lo, b, '-');
    proof {
        lemma_first_at(spec, '-');
        lemma_split_one(spec, '-');
    }
    if dash == b {
        return None;
    }
    let ghost rest = spec.skip(dash - lo + 1);
    assert(v@.subrange(dash + 1, b as int) =~= rest);
    let dash2 = find_char(&v, dash + 1, b, '-');
    proof {
        lemma_first_at(rest, '-');
        lemma_split_one(rest, '-');
    }
    if dash2 < b {
        return None;
    }
    let ghost parts = split(spec, '-');
    assert(v@.subrange(lo as int, dash as int) =~= parts[0]);
    if dash == lo {
        match read_u64(&v, dash + 1, b) {
            Some(n) => {
                if n == 0 || total == 0 {
                    None
                } else if n < total {
                    Some((total - n, total - 1))
                } else {
                    Some((0, total - 1))
                }
            },
            None => None,
        }
    } else if dash + 1 == b {
        match read_u64(&v, lo, dash) {
            Some(start) => {
                if start >= total {
                    None
                } else {
                    Some((start, total - 1))
                }
            },
            None => None,
        }
    } else {
        let first = read_u64(&v, lo, dash);
        let last = read_u64(&v, dash + 1, b);
        match (first, last) {
            (Some(start), Some(end)) => {
                if start > end || end >= total {
                    None
                } else {
                    Some((start, end))
                }
            },
            _ => None,
        }
    }
}

/// A header of a request, as the transport hands it over.
#[derive(Clone, Debug, PartialEq, Eq)]
pub enum HeaderField {
    /// The request has no such header.
    Absent,
    /// The header is there, and its value is not text.
    Opaque,
    /// The header is there with this value.
    Text(String),
}

/// The first and last byte that a `Range` header which the request has
/// asks for: what its text asks for; none where its value is not text.
pub open spec fn asked_range(range: HeaderField, total: u64) -> Option<(u64, u64)> {
    match range {
        HeaderField::Text(s) => byte_range(s@, total),
        _ => None,
    }
}

/// Whether the header names the validator of `meta`, white space around
/// it set aside.
pub open spec fn names_etag(h: HeaderField, meta: ObjectMetadata) -> bool {
    match h {
        HeaderField::Text(s) => trim(s@) == etag(meta),
        _ => false,
    }
}

/// Whether the header is the one character `*`, white space around it set aside.
pub open spec fn is_wildcard(h: HeaderField) -> bool {
    match h {
        HeaderField::Text(s) => trim(s@) == seq!['*'],
        _ => false,
    }
}

/// Whether the response presents the object as a download: unless the
/// request says `download=0`, it does.
pub open spec fn as_attachment(download: Option<u8>) -> bool {
    match download {
        Some(d) => d != 0,
        None => true,
    }
}

/// The `Content-Disposition` of the response for `key`.
pub open spec fn disposition(key: Seq<char>, download: Option<u8>) -> Seq<char> {
    (if as_attachment(download) {
        "attachment"@
    } else {
        "inline"@
    }) + "; filename=\""@ + file_name(key) + "\""@
}

/// The `Content-Range` of a response with the bytes `start` to `end` of `total`.
pub open spec fn content_range(start: u64, end: u64, total: u64) -> Seq<char> {
    "bytes "@ + decimal(start as nat) + "-"@ + decimal(end as nat) + "/"@ + decimal(total as nat)
}

/// The `Content-Range` of a response to a range that an object of `total`
/// bytes cannot meet.
pub open spec fn unmet_range(total: u64) -> Seq<char> {
    "bytes */"@ + decimal(total as nat)
}

/// The headers that describe an object in a response.
#[derive(Clone, Debug, PartialEq, Eq)]
pub struct ObjectHeaders {
    pub content_type: &'static str,
    pub content_length: u64,
    pub etag: String,
    pub accept_ranges: &'static str,
    pub content_disposition: String,
}

/// Whether `h` describes `length` bytes of the object at `key` with metadata `meta`.
pub open spec fn describes(
    h: ObjectHeaders,
    key: Seq<char>,
    meta: ObjectMetadata,
    download: Option<u8>,
    length: u64,
) -> bool {
    &&& h.content_type@ == content_type(key)
    &&& h.content_length == length
    &&& h.etag@ == etag(meta)
    &&& h.accept_ranges@ == "bytes"@
    &&& h.content_disposition@ == disposition(key, download)
}

/// The answer to a request for an object's headers.
#[derive(Clone, Debug, PartialEq, Eq)]
pub enum HeadOutcome {
    /// Status 304: the caller's copy is current.
    NotModified,
    /// Status 200, with these headers and no body.
    Found(ObjectHeaders),
}

/// The answer to a request for an object.
#[derive(Clone, Debug, PartialEq, Eq)]
pub enum GetOutcome {
    /// Status 304: the caller's copy is current; no body.
    NotModified,
    /// Status 200: the whole object.
    Full(ObjectHeaders),
    /// Status 206: the bytes `start` to `end`, both included.
    Partial { start: u64, end: u64, headers: ObjectHeaders, content_range: String },
    /// Status 416: the object has none of the bytes asked for; no body.
    Unsatisfiable { content_range: String },
}

/// Whether `r` is the answer to a request for the headers of the object
/// at `key`: not modified where `If-None-Match` names its validator, else
/// the headers of the whole object.
pub open spec fn head_answer(
    r: HeadOutcome,
    key: Seq<char>,
    meta: ObjectMetadata,
    if_none_match: HeaderField,
    download: Option<u8>,
) -> bool {
    if names_etag(if_none_match, meta) {
        r is NotModified
    } else {
        match r {
            HeadOutcome::Found(h) => describes(h, key, meta, download, meta.size),
            _ => false,
        }
    }
}

/// Whether `r` is the answer to a request for the object at `key`: not
/// modified where `If-None-Match` names its validator; else the whole
/// object where the request has no `Range` header; else the bytes that
/// the header asks for, or the refusal of a header that asks for none, be
/// it text that names no range of the object or a value that is not text.
/// A `Range` header that is there is never passed over.
pub open spec fn get_answer(
    r: GetOutcome,
    key: Seq<char>,
    meta: ObjectMetadata,
    if_none_match: HeaderField,
    range: HeaderField,
    download: Option<u8>,
) -> bool {
    if names_etag(if_none_match, meta) {
        r is NotModified
    } else {
        match range {
            HeaderField::Absent => match r {
                GetOutcome::Full(h) => describes(h, key, meta, download, meta.size),
                _ => false,
            },
            _ => match asked_range(range, meta.size) {
                Some((first, last)) => match r {
                    GetOutcome::Partial { start, end, headers, content_range: cr } => {
                        &&& start == first
                        &&& end == last
                        &&& describes(headers, key, meta, download, (last - first + 1) as u64)
                        &&& cr@ == content_range(first, last, meta.size)
                    },
                    _ => false,
                },
                None => match r {
                    GetOutcome::Unsatisfiable { content_range: cr } => cr@ == unmet_range(meta.size),
                    _ => false,
                },
            },
        }
    }
}

/// The HTTP status of each answer to a request for headers.
pub open spec fn head_status(r: HeadOutcome) -> u16 {
    match r {
        HeadOutcome::NotModified => 304,
        HeadOutcome::Found(_) => 200,
    }
}

/// The HTTP status of each answer to a request for an object.
pub open spec fn get_status(r: GetOutcome) -> u16 {
    match r {
        GetOutcome::NotModified => 304,
        GetOutcome::Full(_) => 200,
        GetOutcome::Partial { .. } => 206,
        GetOutcome::Unsatisfiable { .. } => 416,
    }
}

/// The failure that an answer reports, where it reports one.
pub open spec fn get_failure(r: GetOutcome) -> Option<ApiError> {
    match r {
        GetOutcome::Unsatisfiable { .. } => Some(ApiError::RangeNotSatisfiable),
        _ => None,
    }
}

/// A request that brings a `Range` header never gets the whole object:
/// unless the caller's copy is current, it gets the bytes that the header
/// asks for with status 206, or status 416 with the size of the object.
pub proof fn lemma_range_is_never_passed_over(
    r: GetOutcome,
    key: Seq<char>,
    meta: ObjectMetadata,
    if_none_match: HeaderField,
    range: HeaderField,
    download: Option<u8>,
)
    requires
        get_answer(r, key, meta, if_none_match, range, download),
        !(range is Absent),
        !names_etag(if_none_match, meta),
    ensures
        get_status(r) == 206 || get_status(r) == 416,
        (get_status(r) == 416) <==> asked_range(range, meta.size).is_none(),
        range is Opaque ==> get_status(r) == 416,
        get_status(r) == 416 ==> r->Unsatisfiable_content_range@ == unmet_range(meta.size),
{
}

/// Whether the header is the one character `*`.
pub fn header_is_wildcard(h: &HeaderField) -> (r: bool)
    ensures
        r == is_wildcard(*h),
{
    match h {
        HeaderField::Text(s) => {
            let v = chars_of(s.as_str());
            assert(v@.subrange(0, v.len() as int) =~= s@);
            let (a, b) = trim_range(&v, 0, v.len());
            let r = b - a == 1 && v[a] == '*';
            proof {
                let t = trim(s@);
                if r {
                    assert(t =~= seq!['*']);
                }
                if t == seq!['*'] {
                    assert(t.len() == 1 && t[0] == '*');
                }
            }
            r
        },
        _ => false,
    }
}

/// Whether the header names the validator of `meta`.
pub fn header_names_etag(h: &HeaderField, meta: &ObjectMetadata) -> (r: bool)
    ensures
        r == names_etag(*h, *meta),
{
    match h {
        HeaderField::Text(s) => {
            let v = chars_of(s.as_str());
            assert(v@.subrange(0, v.len() as int) =~= s@);
            let (a, b) = trim_range(&v, 0, v.len());
            let current = make_etag(meta);
            let cv = chars_of(current.as_str());
            range_is(&v, a, b, &cv)
        },
        _ => false,
    }
}

fn object_headers(key: &str, meta: &ObjectMetadata, download: Option<u8>, length: u64) -> (h:
    ObjectHeaders)
    ensures
        describes(h, key@, *meta, download, length),
{
    let attachment = match download {
        Some(d) => d != 0,
        None => true,
    };
    let kv = chars_of(key);
    let n = kv.len();
    assert(kv@.subrange(0, n as int) =~= key@);
    let start = after_last(&kv, 0, n, '/');
    let name = slice_string(key, start, n);
    let mut disp = if attachment {
        "attachment".to_owned()
    } else {
        "inline".to_owned()
    };
    disp.append("; filename=\"");
    disp.append(name.as_str());
    disp.append("\"");
    ObjectHeaders {
        content_type: guess_content_type(key),
        content_length: length,
        etag: make_etag(meta),
        accept_ranges: "bytes",
        content_disposition: disp,
    }
}

/// Answers a request for the headers of the object at `key`, which the
/// store holds with metadata `meta`.
pub fn head_object(key: &str, meta: &ObjectMetadata, if_none_match: &HeaderField, download: Option<
    u8,
>) -> (r: HeadOutcome)
    ensures
        head_answer(r, key@, *meta, *if_none_match, download),
{
    if header_names_etag(if_none_match, meta) {
        HeadOutcome::NotModified
    } else {
        HeadOutcome::Found(object_headers(key, meta, download, meta.size))
    }
}

/// Answers a request for the object at `key`, which the store holds with
/// metadata `meta`.
pub fn get_object(
    key: &str,
    meta: &ObjectMetadata,
    if_none_match: &HeaderField,
    range: &HeaderField,
    download: Option<u8>,
) -> (r: GetOutcome)
    ensures
        get_answer(r, key@, *meta, *if_none_match, *range, download),
{
    if header_names_etag(if_none_match, meta) {
        return GetOutcome::NotModified;
    }
    let total = meta.size;
    let asked = match range {
        HeaderField::Absent => {
            return GetOutcome::Full(object_headers(key, meta, download, total));
        },
        HeaderField::Opaque => None,
        HeaderField::Text(text) => parse_range(text.as_str(), total),
    };
    match asked {
        Some((start, end)) => {
            let length = end - start + 1;
            let mut cr = "bytes ".to_owned();
            push_decimal(&mut cr, start);
            cr.append("-");
            push_decimal(&mut cr, end);
            cr.append("/");
            push_decimal(&mut cr, total);
            GetOutcome::Partial {
                start,
                end,
                headers: object_headers(key, meta, download, length),
                content_range: cr,
            }
        },
        None => {
            let mut cr = "bytes */".to_owned();
            push_decimal(&mut cr, total);
            GetOutcome::Unsatisfiable { content_range: cr }
        },
    }
}

impl HeadOutcome {
    /// The HTTP status of this answer.
    pub fn status(&self) -> (r: u16)
        ensures
            r == head_status(*self),
    {
        match self {
            HeadOutcome::NotModified => 304,
            HeadOutcome::Found(_) => 200,
        }
    }
}

impl GetOutcome {
    /// The failure that this answer reports, where it reports one: a
    /// range that cannot be met.
    pub fn failure(&self) -> (r: Option<ApiError>)
        ensures
            r == get_failure(*self),
            r matches Some(e) ==> crate::error::status_of(e) == get_status(*self),
    {
        match self {
            GetOutcome::Unsatisfiable { .. } => Some(ApiError::RangeNotSatisfiable),
            _ => None,
        }
    }

    /// The HTTP status of this answer.
    pub fn status(&self) -> (r: u16)
        ensures
            r == get_status(*self),
    {
        match self {
            GetOutcome::NotModified => 304,
            GetOutcome::Full(_) => 200,
            GetOutcome::Partial { .. } => 206,
            GetOutcome::Unsatisfiable { .. } => 416,
        }
    }
}

/// Turns what the store said of an object into the metadata to serve, or
/// into the failure to answer with.
pub fn find_object(found: Result<ObjectMetadata, StoreError>) -> (r: Result<
    ObjectMetadata,
    ApiError,
>)
    ensures
        r == match found {
            Ok(meta) => Ok::<ObjectMetadata, ApiError>(meta),
            Err(e) => Err::<ObjectMetadata, ApiError>(store_failure(e)),
        },
{
    match found {
        Ok(meta) => Ok(meta),
        Err(e) => Err(ApiError::from_store(e)),
    }
}

/// The status that answers a delete once the store has removed the object.
pub const NO_CONTENT: u16 = 204;

/// Answers a delete from what the store said when asked to remove the
/// object: `NO_CONTENT` where it was removed, not found where there was
/// none, so the second of two deletes is not found.
pub fn delete_object(removed: Result<(), StoreError>) -> (r: Result<u16, ApiError>)
    ensures
        r == match removed {
            Ok(_) => Ok::<u16, ApiError>(NO_CONTENT),
            Err(e) => Err::<u16, ApiError>(store_failure(e)),
        },
{
    match removed {
        Ok(_) => Ok(NO_CONTENT),
        Err(e) => Err(ApiError::from_store(e)),
    }
}

} // verus!
