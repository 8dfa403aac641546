//! Text as sequences of characters: the vocabulary in which the rest of the
//! crate states what it reads from headers, keys and configuration values.
//!
//! Every function here works on the characters of a string (`s@`), never on
//! its bytes, so an index always names a whole character.

use vstd::prelude::*;
use vstd::string::StrSliceExecFns;

verus! {

/// The characters that `str::trim` and `str::split_whitespace` remove: the
/// code points with the Unicode property `White_Space`.
pub open spec fn is_space(c: char) -> bool {
    ||| ('\u{9}' <= c && c <= '\u{d}')
    ||| c == ' '
    ||| c == '\u{85}'
    ||| c == '\u{a0}'
    ||| c == '\u{1680}'
    ||| ('\u{2000}' <= c && c <= '\u{200a}')
    ||| c == '\u{2028}'
    ||| c == '\u{2029}'
    ||| c == '\u{202f}'
    ||| c == '\u{205f}'
    ||| c == '\u{3000}'
}

/// `s` without its leading white space.
pub open spec fn trim_start(s: Seq<char>) -> Seq<char>
    decreases s.len(),
{
    if s.len() > 0 && is_space(s[0]) {
        trim_start(s.drop_first())
    } else {
        s
    }
}

/// `s` without its trailing white space.
pub open spec fn trim_end(s: Seq<char>) -> Seq<char>
    decreases s.len(),
{
    if s.len() > 0 && is_space(s.last()) {
        trim_end(s.drop_last())
    } else {
        s
    }
}

/// `s` without leading and trailing white space.
pub open spec fn trim(s: Seq<char>) -> Seq<char> {
    trim_end(trim_start(s))
}

/// The ASCII lower-case form of `c`; every other character is itself.
pub open spec fn lower(c: char) -> char {
    if 'A' <= c && c <= 'Z' {
        ((c as u8) + 32) as u8 as char
    } else {
        c
    }
}

/// `s` with each ASCII capital replaced by its lower-case letter.
pub open spec fn lowered(s: Seq<char>) -> Seq<char> {
    Seq::new(s.len(), |i: int| lower(s[i]))
}

/// The text of each string of `v`, in order.
pub open spec fn texts(v: Seq<String>) -> Seq<Seq<char>> {
    Seq::new(v.len(), |i: int| v[i]@)
}

/// The text of a string that may be missing.
pub open spec fn opt_text(s: Option<String>) -> Option<Seq<char>> {
    match s {
        Some(s) => Some(s@),
        None => None,
    }
}

/// The text of each item of `v` that is a string, `None` for the others.
pub open spec fn opt_texts(v: Seq<Option<String>>) -> Seq<Option<Seq<char>>> {
    Seq::new(v.len(), |i: int| opt_text(v[i]))
}

/// The place of the first `sep` in `s`; the length of `s` where it has none.
pub open spec fn first_at(s: Seq<char>, sep: char) -> int
    decreases s.len(),
{
    if s.len() == 0 || s[0] == sep {
        0
    } else {
        1 + first_at(s.drop_first(), sep)
    }
}

/// The pieces of `s` between occurrences of `sep`, as `str::split` gives
/// them: one more piece than there are separators, empty pieces included.
pub open spec fn split(s: Seq<char>, sep: char) -> Seq<Seq<char>>
    decreases s.len(),
{
    let i = first_at(s, sep);
    if 0 <= i < s.len() {
        seq![s.take(i)] + split(s.skip(i + 1), sep)
    } else {
        seq![s]
    }
}

/// The place of the first white space in `s`; the length of `s` where it has none.
pub open spec fn first_space(s: Seq<char>) -> int
    decreases s.len(),
{
    if s.len() == 0 || is_space(s[0]) {
        0
    } else {
        1 + first_space(s.drop_first())
    }
}

/// The maximal runs of characters of `s` that are not white space, as
/// `str::split_whitespace` gives them.
pub open spec fn words(s: Seq<char>) -> Seq<Seq<char>>
    decreases s.len(),
{
    if s.len() == 0 {
        Seq::empty()
    } else if is_space(s[0]) {
        words(s.drop_first())
    } else {
        let n = first_space(s);
        proof {
            lemma_first_space(s);
        }
        seq![s.take(n)] + words(s.skip(n))
    }
}

/// The text that each pair of bounds in `r` cuts out of `s`.
pub open spec fn cuts(s: Seq<char>, r: Seq<(usize, usize)>) -> Seq<Seq<char>> {
    Seq::new(r.len(), |i: int| s.subrange(r[i].0 as int, r[i].1 as int))
}

/// Whether every pair of `r` bounds a range that lies within `lo..hi`.
pub open spec fn cuts_within(r: Seq<(usize, usize)>, lo: int, hi: int) -> bool {
    forall|i: int| 0 <= i < r.len() ==> lo <= (#[trigger] r[i]).0 <= r[i].1 <= hi
}

/// The first separator stands within the text or at its end, with no
/// separator before it.
pub proof fn lemma_first_at(s: Seq<char>, sep: char)
    ensures
        0 <= first_at(s, sep) <= s.len(),
        forall|k: int| 0 <= k < first_at(s, sep) ==> s[k] != sep,
        first_at(s, sep) < s.len() ==> s[first_at(s, sep)] == sep,
    decreases s.len(),
{
    if s.len() > 0 && s[0] != sep {
        let t = s.drop_first();
        lemma_first_at(t, sep);
        assert forall|k: int| 0 <= k < first_at(s, sep) implies s[k] != sep by {
            if k > 0 {
                assert(s[k] == t[k - 1]);
            }
        }
    }
}

/// The first separator is where one stands with none before it.
pub proof fn lemma_first_at_is(s: Seq<char>, sep: char, k: int)
    requires
        0 <= k <= s.len(),
        forall|j: int| 0 <= j < k ==> s[j] != sep,
        k < s.len() ==> s[k] == sep,
    ensures
        first_at(s, sep) == k,
{
    lemma_first_at(s, sep);
}

/// The first white space stands within the text or at its end, with no
/// white space before it; it is not at the start of a text that starts
/// with another character.
pub proof fn lemma_first_space(s: Seq<char>)
    ensures
        0 <= first_space(s) <= s.len(),
        forall|k: int| 0 <= k < first_space(s) ==> !is_space(s[k]),
        first_space(s) < s.len() ==> is_space(s[first_space(s)]),
        s.len() > 0 && !is_space(s[0]) ==> first_space(s) > 0,
    decreases s.len(),
{
    if s.len() > 0 && !is_space(s[0]) {
        let t = s.drop_first();
        lemma_first_space(t);
        assert forall|k: int| 0 <= k < first_space(s) implies !is_space(s[k]) by {
            if k > 0 {
                assert(s[k] == t[k - 1]);
            }
        }
    }
}

/// A text without `sep` is one piece.
pub proof fn lemma_split_one(s: Seq<char>, sep: char)
    ensures
        (split(s, sep).len() == 1) == (first_at(s, sep) == s.len()),
        first_at(s, sep) == s.len() ==> split(s, sep) == seq![s],
        split(s, sep).len() >= 1,
    decreases s.len(),
{
    lemma_first_at(s, sep);
    let i = first_at(s, sep);
    if i < s.len() {
        lemma_split_one(s.skip(i + 1), sep);
    }
}

/// Where `head` holds no `sep`, the first `sep` of `head + sep + tail`
/// stands right behind `head`.
pub proof fn lemma_cut_at_first(x: Seq<char>, head: Seq<char>, sep: char, tail: Seq<char>)
    requires
        x == head + seq![sep] + tail,
        forall|k: int| 0 <= k < head.len() ==> head[k] != sep,
    ensures
        first_at(x, sep) == head.len(),
        x.take(head.len() as int) == head,
        x.skip(head.len() as int + 1) == tail,
{
    lemma_first_at_is(x, sep, head.len() as int);
}

/// No piece of a split holds the separator.
pub proof fn lemma_split_pieces_hold_no_sep(s: Seq<char>, sep: char)
    ensures
        forall|i: int, k: int|
            0 <= i < split(s, sep).len() && 0 <= k < split(s, sep)[i].len() ==> split(
                s,
                sep,
            )[i][k] != sep,
    decreases s.len(),
{
    lemma_first_at(s, sep);
    let n = first_at(s, sep);
    if n < s.len() {
        let rest = s.skip(n + 1);
        lemma_split_pieces_hold_no_sep(rest, sep);
        assert forall|i: int, k: int|
            0 <= i < split(s, sep).len() && 0 <= k < split(s, sep)[i].len() implies split(
            s,
            sep,
        )[i][k] != sep by {
            if i > 0 {
                assert(split(s, sep)[i] == split(rest, sep)[i - 1]);
            }
        }
    }
}

/// The pieces of `a`, a separator and `b` are the pieces of `a` and then
/// those of `b`.
pub proof fn lemma_split_joined(a: Seq<char>, b: Seq<char>, sep: char)
    ensures
        split(a + seq![sep] + b, sep) == split(a, sep) + split(b, sep),
    decreases a.len(),
{
    let x = a + seq![sep] + b;
    lemma_first_at(a, sep);
    let i = first_at(a, sep);
    if i == a.len() {
        lemma_cut_at_first(x, a, sep, b);
        assert(split(a, sep) =~= seq![a]);
    } else {
        assert forall|k: int| 0 <= k < i implies x[k] != sep by {
            assert(x[k] == a[k]);
        }
        assert(x[i] == a[i]);
        lemma_first_at_is(x, sep, i);
        assert(x.take(i) =~= a.take(i));
        assert(x.skip(i + 1) =~= a.skip(i + 1) + seq![sep] + b);
        lemma_split_joined(a.skip(i + 1), b, sep);
        assert(split(x, sep) =~= split(a, sep) + split(b, sep));
    }
}

/// The last piece of a text that ends with the separator is empty.
pub proof fn lemma_split_ends_empty(s: Seq<char>, sep: char)
    requires
        s.len() > 0,
        s.last() == sep,
    ensures
        split(s, sep).last().len() == 0,
    decreases s.len(),
{
    lemma_first_at(s, sep);
    let i = first_at(s, sep);
    let rest = s.skip(i + 1);
    lemma_split_one(rest, sep);
    if rest.len() > 0 {
        assert(rest.last() == s.last());
        lemma_split_ends_empty(rest, sep);
    }
    assert(split(s, sep).last() == split(rest, sep).last());
}

/// Whether `c` is white space.
pub fn is_space_char(c: char) -> (r: bool)
    ensures
        r == is_space(c),
{
    (c >= '\u{9}' && c <= '\u{d}') || c == ' ' || c == '\u{85}' || c == '\u{a0}' || c
        == '\u{1680}' || (c >= '\u{2000}' && c <= '\u{200a}') || c == '\u{2028}' || c
        == '\u{2029}' || c == '\u{202f}' || c == '\u{205f}' || c == '\u{3000}'
}

/// The ASCII lower-case form of `c`.
pub fn to_lower(c: char) -> (r: char)
    ensures
        r == lower(c),
{
    if c >= 'A' && c <= 'Z' {
        let b: u8 = c as u8;
        (b + 32) as char
    } else {
        c
    }
}

/// The characters of `s`, in order.
pub fn chars_of(s: &str) -> (v: Vec<char>)
    ensures
        v@ == s@,
{
    broadcast use vstd::string::group_string_axioms;

    let mut v: Vec<char> = Vec::new();
    for c in it: s.chars()
        invariant
            it.seq() == s@,
            v@ == s@.take(it.index()),
    {
        v.push(c);
    }
    v
}

/// Whether `v[lo..hi]` and `w` hold the same characters.
pub fn range_is(v: &Vec<char>, lo: usize, hi: usize, w: &Vec<char>) -> (r: bool)
    requires
        lo <= hi <= v.len(),
    ensures
        r == (v@.subrange(lo as int, hi as int) == w@),
{
    if hi - lo != w.len() {
        return false;
    }
    let mut i: usize = 0;
    while i < w.len()
        invariant
            lo <= hi <= v.len(),
            hi - lo == w.len(),
            i <= w.len(),
            forall|k: int| 0 <= k < i ==> v@[lo + k] == w@[k],
        decreases w.len() - i,
    {
        if v[lo + i] != w[i] {
            return false;
        }
        i += 1;
    }
    assert(v@.subrange(lo as int, hi as int) =~= w@);
    true
}

/// Whether two strings hold the same characters.
pub fn same_text(a: &str, b: &str) -> (r: bool)
    ensures
        r == (a@ == b@),
{
    let va = chars_of(a);
    let vb = chars_of(b);
    assert(va@.subrange(0, va@.len() as int) =~= va@);
    range_is(&va, 0, va.len(), &vb)
}

/// Whether `v[lo..hi]`, with its ASCII capitals lowered, reads as `w`.
pub fn range_is_lowered(v: &Vec<char>, lo: usize, hi: usize, w: &str) -> (r: bool)
    requires
        lo <= hi <= v.len(),
    ensures
        r == (lowered(v@.subrange(lo as int, hi as int)) == w@),
{
    let wv = chars_of(w);
    let ghost low = lowered(v@.subrange(lo as int, hi as int));
    if hi - lo != wv.len() {
        return false;
    }
    let mut i: usize = 0;
    while i < wv.len()
        invariant
            lo <= hi <= v.len(),
            hi - lo == wv.len(),
            i <= wv.len(),
            wv@ == w@,
            low == lowered(v@.subrange(lo as int, hi as int)),
            forall|k: int| 0 <= k < i ==> lower(v@[lo + k]) == wv@[k],
        decreases wv.len() - i,
    {
        if to_lower(v[lo + i]) != wv[i] {
            return false;
        }
        i += 1;
    }
    assert(low =~= w@);
    true
}

/// Whether `v[lo..hi]` starts with the characters of `p`.
pub fn starts_with(v: &Vec<char>, lo: usize, hi: usize, p: &str) -> (r: bool)
    requires
        lo <= hi <= v.len(),
    ensures
        r == p@.is_prefix_of(v@.subrange(lo as int, hi as int)),
{
    let p = chars_of(p);
    if hi - lo < p.len() {
        return false;
    }
    let r = range_is(v, lo, lo + p.len(), &p);
    proof {
        let s = v@.subrange(lo as int, hi as int);
        assert(s.subrange(0, p@.len() as int) =~= v@.subrange(lo as int, lo + p@.len()));
    }
    r
}

/// The bounds of `v[lo..hi]` once leading and trailing white space is left out.
pub fn trim_range(v: &Vec<char>, lo: usize, hi: usize) -> (r: (usize, usize))
    requires
        lo <= hi <= v.len(),
    ensures
        lo <= r.0 <= r.1 <= hi,
        v@.subrange(r.0 as int, r.1 as int) == trim(v@.subrange(lo as int, hi as int)),
{
    let mut a: usize = lo;
    while a < hi && is_space_char(v[a])
        invariant
            lo <= a <= hi <= v.len(),
            trim_start(v@.subrange(lo as int, hi as int)) == trim_start(
                v@.subrange(a as int, hi as int),
            ),
        decreases hi - a,
    {
        assert(v@.subrange(a as int, hi as int).drop_first() =~= v@.subrange(
            a + 1,
            hi as int,
        ));
        a += 1;
    }
    let mut b: usize = hi;
    while b > a && is_space_char(v[b - 1])
        invariant
            a <= b <= hi <= v.len(),
            trim_end(v@.subrange(a as int, hi as int)) == trim_end(
                v@.subrange(a as int, b as int),
            ),
        decreases b - a,
    {
        assert(v@.subrange(a as int, b as int).drop_last() =~= v@.subrange(a as int, b - 1));
        b -= 1;
    }
    (a, b)
}

/// The characters `from..to` of `s` as a string of their own.
pub fn slice_string(s: &str, from: usize, to: usize) -> (r: String)
    requires
        from <= to <= s@.len(),
    ensures
        r@ == s@.subrange(from as int, to as int),
{
    s.substring_char(from, to).to_owned()
}

/// The place of the first `sep` in `v[lo..hi]`, or `hi` where there is none.
pub fn find_char(v: &Vec<char>, lo: usize, hi: usize, sep: char) -> (r: usize)
    requires
        lo <= hi <= v.len(),
    ensures
        lo <= r <= hi,
        r - lo == first_at(v@.subrange(lo as int, hi as int), sep),
{
    let ghost s = v@.subrange(lo as int, hi as int);
    let mut i: usize = lo;
    while i < hi && v[i] != sep
        invariant
            lo <= i <= hi <= v.len(),
            s == v@.subrange(lo as int, hi as int),
            forall|j: int| 0 <= j < i - lo ==> s[j] != sep,
        decreases hi - i,
    {
        i += 1;
    }
    proof {
        lemma_first_at_is(s, sep, i - lo);
    }
    i
}

/// The place of the first white space in `v[lo..hi]`, or `hi` where there is none.
pub fn find_space(v: &Vec<char>, lo: usize, hi: usize) -> (r: usize)
    requires
        lo <= hi <= v.len(),
    ensures
        lo <= r <= hi,
        r - lo == first_space(v@.subrange(lo as int, hi as int)),
{
    let ghost s = v@.subrange(lo as int, hi as int);
    let mut i: usize = lo;
    while i < hi && !is_space_char(v[i])
        invariant
            lo <= i <= hi <= v.len(),
            s == v@.subrange(lo as int, hi as int),
            forall|j: int| 0 <= j < i - lo ==> !is_space(s[j]),
        decreases hi - i,
    {
        i += 1;
    }
    proof {
        lemma_first_space(s);
        if first_space(s) > i - lo {
            assert(is_space(s[i - lo]));
        }
    }
    i
}

/// The bounds of the pieces of `v[lo..hi]` between occurrences of `sep`.
pub fn split_ranges(v: &Vec<char>, lo: usize, hi: usize, sep: char) -> (r: Vec<(usize, usize)>)
    requires
        lo <= hi <= v.len(),
    ensures
        cuts_within(r@, lo as int, hi as int),
        cuts(v@, r@) == split(v@.subrange(lo as int, hi as int), sep),
{
    let ghost whole = split(v@.subrange(lo as int, hi as int), sep);
    let mut out: Vec<(usize, usize)> = Vec::new();
    let mut start: usize = lo;
    let mut done = false;
    while !done
        invariant
            lo <= start <= hi <= v.len(),
            cuts_within(out@, lo as int, hi as int),
            whole == split(v@.subrange(lo as int, hi as int), sep),
            !done ==> cuts(v@, out@) + split(v@.subrange(start as int, hi as int), sep)
                == whole,
            done ==> cuts(v@, out@) == whole,
        decreases hi - start + (if done { 0int } else { 1int }),
    {
        let j = find_char(v, start, hi, sep);
        let ghost rest = v@.subrange(start as int, hi as int);
        out.push((start, j));
        assert(rest.take(j - start) =~= v@.subrange(start as int, j as int));
        if j == hi {
            done = true;
        } else {
            assert(rest.skip(j - start + 1) =~= v@.subrange(j + 1, hi as int));
            start = j + 1;
        }
    }
    out
}

/// The bounds of the words of `v[lo..hi]`.
pub fn word_ranges(v: &Vec<char>, lo: usize, hi: usize) -> (r: Vec<(usize, usize)>)
    requires
        lo <= hi <= v.len(),
    ensures
        cuts_within(r@, lo as int, hi as int),
        cuts(v@, r@) == words(v@.subrange(lo as int, hi as int)),
{
    let ghost whole = words(v@.subrange(lo as int, hi as int));
    let mut out: Vec<(usize, usize)> = Vec::new();
    let mut i: usize = lo;
    while i < hi
        invariant
            lo <= i <= hi <= v.len(),
            cuts_within(out@, lo as int, hi as int),
            cuts(v@, out@) + words(v@.subrange(i as int, hi as int)) == whole,
        decreases hi - i,
    {
        let ghost rest = v@.subrange(i as int, hi as int);
        if is_space_char(v[i]) {
            assert(rest.drop_first() =~= v@.subrange(i + 1, hi as int));
            i += 1;
        } else {
            let j = find_space(v, i, hi);
            out.push((i, j));
            proof {
                lemma_first_space(rest);
                assert(rest.take(j - i) =~= v@.subrange(i as int, j as int));
                assert(rest.skip(j - i) =~= v@.subrange(j as int, hi as int));
            }
            i = j;
        }
    }
    out
}

/// The texts that the bounds in `r` cut out of `s`, each as a string.
pub fn cut_strings(s: &str, r: &Vec<(usize, usize)>) -> (out: Vec<String>)
    requires
        cuts_within(r@, 0, s@.len() as int),
    ensures
        texts(out@) == cuts(s@, r@),
{
    let mut out: Vec<String> = Vec::new();
    let mut i: usize = 0;
    while i < r.len()
        invariant
            i <= r.len(),
            cuts_within(r@, 0, s@.len() as int),
            out.len() == i,
            texts(out@) == cuts(s@, r@.take(i as int)),
        decreases r.len() - i,
    {
        let (a, b) = r[i];
        let piece = slice_string(s, a, b);
        let ghost before = out@;
        out.push(piece);
        assert forall|k: int| 0 <= k < out@.len() implies texts(out@)[k] == cuts(
            s@,
            r@.take(i + 1),
        )[k] by {
            if k < i {
                assert(texts(before)[k] == cuts(s@, r@.take(i as int))[k]);
            }
        }
        i += 1;
    }
    out
}

/// Whether `list` holds a string with the text of `s`.
pub fn holds_text(list: &[String], s: &String) -> (r: bool)
    ensures
        r == texts(list@).contains(s@),
{
    let mut i: usize = 0;
    while i < list.len()
        invariant
            i <= list.len(),
            forall|k: int| 0 <= k < i ==> texts(list@)[k] != s@,
        decreases list.len() - i,
    {
        if list[i] == *s {
            assert(texts(list@)[i as int] == s@);
            return true;
        }
        i += 1;
    }
    false
}

} // verus!
