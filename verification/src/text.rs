//! Byte-level text operations used by the parser and the response writer.
//!
//! Text arrives as UTF-8 bytes. White space is every code point with the
//! Unicode `White_Space` property, recognised by its UTF-8 encoding.

use vstd::prelude::*;

verus! {

/// The six single-byte white-space characters: tab, line feed, vertical tab,
/// form feed, carriage return and space.
pub open spec fn is_space1(b: u8) -> bool {
    (0x09 <= b && b <= 0x0D) || b == 0x20
}

/// The two-byte encodings of U+0085 and U+00A0.
pub open spec fn is_space2(a: u8, b: u8) -> bool {
    a == 0xC2 && (b == 0x85 || b == 0xA0)
}

/// The three-byte encodings of U+1680, U+2000 to U+200A, U+2028, U+2029,
/// U+202F, U+205F and U+3000.
pub open spec fn is_space3(a: u8, b: u8, c: u8) -> bool {
    ||| (a == 0xE1 && b == 0x9A && c == 0x80)
    ||| (a == 0xE2 && b == 0x80 && ((0x80 <= c && c <= 0x8A) || c == 0xA8 || c == 0xA9 || c == 0xAF))
    ||| (a == 0xE2 && b == 0x81 && c == 0x9F)
    ||| (a == 0xE3 && b == 0x80 && c == 0x80)
}

/// Number of bytes of the white-space character that starts at `i`, or 0 if
/// none starts there.
pub open spec fn space_len(s: Seq<u8>, i: int) -> int {
    if i < 0 || i >= s.len() {
        0
    } else if is_space1(s[i]) {
        1
    } else if i + 1 < s.len() && is_space2(s[i], s[i + 1]) {
        2
    } else if i + 2 < s.len() && is_space3(s[i], s[i + 1], s[i + 2]) {
        3
    } else {
        0
    }
}

/// The first position after `i` where a white-space character starts;
/// `s.len()` if there is none.
pub open spec fn word_end(s: Seq<u8>, i: int) -> int
    decreases s.len() - i,
{
    if i < 0 || i + 1 >= s.len() {
        s.len() as int
    } else if space_len(s, i + 1) > 0 {
        i + 1
    } else {
        word_end(s, i + 1)
    }
}

/// The words of `s` from position `i` on: the maximal runs of bytes that hold
/// no white space, in order.
pub open spec fn words_from(s: Seq<u8>, i: int) -> Seq<Seq<u8>>
    decreases s.len() - i,
    via words_from_decreases
{
    if i < 0 || i >= s.len() {
        Seq::empty()
    } else if space_len(s, i) > 0 {
        words_from(s, i + space_len(s, i))
    } else {
        let end = word_end(s, i);
        seq![s.subrange(i, end)] + words_from(s, end)
    }
}

#[via_fn]
proof fn words_from_decreases(s: Seq<u8>, i: int) {
    if 0 <= i < s.len() {
        lemma_word_end_bound(s, i);
    }
}

/// The words of `s`.
pub open spec fn words(s: Seq<u8>) -> Seq<Seq<u8>> {
    words_from(s, 0)
}

/// No word is empty.
pub proof fn lemma_words_are_not_empty(s: Seq<u8>, i: int, j: int)
    requires
        0 <= j < words_from(s, i).len(),
    ensures
        words_from(s, i)[j].len() > 0,
    decreases s.len() - i,
{
    if 0 <= i < s.len() {
        if space_len(s, i) > 0 {
            lemma_words_are_not_empty(s, i + space_len(s, i), j);
        } else {
            lemma_word_end_bound(s, i);
            if j > 0 {
                lemma_words_are_not_empty(s, word_end(s, i), j - 1);
            }
        }
    }
}

/// A word that starts inside the text ends after its start and inside the
/// text.
pub proof fn lemma_word_end_bound(s: Seq<u8>, i: int)
    requires
        0 <= i < s.len(),
    ensures
        i < word_end(s, i) <= s.len(),
    decreases s.len() - i,
{
    if i + 1 < s.len() && space_len(s, i + 1) == 0 {
        lemma_word_end_bound(s, i + 1);
    }
}

/// Number of bytes of the line end that `s` ends with: 2 for a carriage
/// return and a line feed, 1 for a line feed alone, 0 otherwise.
pub open spec fn line_end_len(s: Seq<u8>) -> int {
    let n = s.len() as int;
    if n >= 2 && s[n - 2] == 0x0D && s[n - 1] == 0x0A {
        2
    } else if n >= 1 && s[n - 1] == 0x0A {
        1
    } else {
        0
    }
}

/// `s` without the line end that it ends with. Nothing else is taken off:
/// white space before the line end stays.
pub open spec fn without_line_end(s: Seq<u8>) -> Seq<u8> {
    s.take(s.len() - line_end_len(s))
}

/// Whether `s` begins with `prefix`.
pub open spec fn has_prefix(s: Seq<u8>, prefix: Seq<u8>) -> bool {
    prefix.len() <= s.len() && s.take(prefix.len() as int) == prefix
}

/// Whether the header separator, a colon and a space, stands at `i`.
pub open spec fn separator_at(s: Seq<u8>, i: int) -> bool {
    0 <= i && i + 1 < s.len() && s[i] == 0x3A && s[i + 1] == 0x20
}

/// The first position at or after `i` where the header separator stands;
/// `s.len()` if there is none.
pub open spec fn separator_from(s: Seq<u8>, i: int) -> int
    decreases s.len() - i,
{
    if i < 0 || i >= s.len() {
        s.len() as int
    } else if separator_at(s, i) {
        i
    } else {
        separator_from(s, i + 1)
    }
}

/// `separator_from` finds a separator exactly when there is one, and then the
/// first.
pub proof fn lemma_separator_first(s: Seq<u8>, i: int)
    requires
        0 <= i <= s.len(),
    ensures
        i <= separator_from(s, i) <= s.len(),
        separator_from(s, i) < s.len() ==> separator_at(s, separator_from(s, i)),
        forall|j: int| i <= j < separator_from(s, i) ==> !separator_at(s, j),
    decreases s.len() - i,
{
    if i < s.len() && !separator_at(s, i) {
        lemma_separator_first(s, i + 1);
    }
}

/// The views of a vector of byte strings.
pub open spec fn views(v: Seq<Vec<u8>>) -> Seq<Seq<u8>> {
    Seq::new(v.len(), |j: int| v[j]@)
}

/// The position just after the first line feed at or after `i`; `s.len()`
/// if there is none. The line that starts at `i` ends there.
pub open spec fn line_end(s: Seq<u8>, i: int) -> int
    decreases s.len() - i,
{
    if i < 0 || i >= s.len() {
        s.len() as int
    } else if s[i] == 0x0A {
        i + 1
    } else {
        line_end(s, i + 1)
    }
}

/// A line that starts inside the text is not empty and ends inside the text.
pub proof fn lemma_line_end_bound(s: Seq<u8>, i: int)
    requires
        0 <= i < s.len(),
    ensures
        i < line_end(s, i) <= s.len(),
    decreases s.len() - i,
{
    if s[i] != 0x0A {
        if i + 1 < s.len() {
            lemma_line_end_bound(s, i + 1);
        } else {
            assert(line_end(s, i + 1) == s.len());
        }
    }
}

/// The lines of `s` from position `i` on, each with its line feed. Text after
/// the last line feed is a line of its own.
pub open spec fn lines_from(s: Seq<u8>, i: int) -> Seq<Seq<u8>>
    decreases s.len() - i,
    via lines_from_decreases
{
    if i < 0 || i >= s.len() {
        Seq::empty()
    } else {
        seq![s.subrange(i, line_end(s, i))] + lines_from(s, line_end(s, i))
    }
}

#[via_fn]
proof fn lines_from_decreases(s: Seq<u8>, i: int) {
    if 0 <= i < s.len() {
        lemma_line_end_bound(s, i);
    }
}

/// The lines of `s`.
pub open spec fn lines(s: Seq<u8>) -> Seq<Seq<u8>> {
    lines_from(s, 0)
}

/// The decimal digits of `n`, most significant first, without leading zeros.
pub open spec fn decimal(n: nat) -> Seq<u8>
    decreases n,
{
    if n < 10 {
        seq![(0x30 + n) as u8]
    } else {
        decimal(n / 10) + seq![(0x30 + n % 10) as u8]
    }
}

/// Whether two byte strings are equal.
pub fn bytes_eq(a: &[u8], b: &[u8]) -> (r: bool)
    ensures
        r == (a@ == b@),
{
    if a.len() != b.len() {
        return false;
    }
    let mut i: usize = 0;
    while i < a.len()
        invariant
            a@.len() == b@.len(),
            0 <= i <= a@.len(),
            a@.take(i as int) == b@.take(i as int),
        decreases a@.len() - i,
    {
        if a[i] != b[i] {
            return false;
        }
        assert(a@.take(i + 1) == a@.take(i as int).push(a@[i as int]));
        assert(b@.take(i + 1) == b@.take(i as int).push(b@[i as int]));
        i += 1;
    }
    assert(a@.take(i as int) == a@);
    assert(b@.take(i as int) == b@);
    true
}

/// Appends `src` to `dst`.
pub fn append(dst: &mut Vec<u8>, src: &[u8])
    ensures
        final(dst)@ == old(dst)@ + src@,
{
    let mut i: usize = 0;
    while i < src.len()
        invariant
            0 <= i <= src@.len(),
            dst@ == old(dst)@ + src@.take(i as int),
        decreases src@.len() - i,
    {
        dst.push(src[i]);
        assert(src@.take(i + 1) == src@.take(i as int).push(src@[i as int]));
        i += 1;
    }
    assert(src@.take(i as int) == src@);
}

/// Appends the decimal digits of `n` to `dst`.
pub fn append_decimal(dst: &mut Vec<u8>, n: usize)
    ensures
        final(dst)@ == old(dst)@ + decimal(n as nat),
    decreases n,
{
    if n >= 10 {
        append_decimal(dst, n / 10);
    }
    let digit: u8 = (n % 10) as u8;
    dst.push(0x30 + digit);
}

/// Whether `s` begins with `prefix`.
pub fn starts_with(s: &[u8], prefix: &[u8]) -> (r: bool)
    ensures
        r == has_prefix(s@, prefix@),
{
    if prefix.len() > s.len() {
        return false;
    }
    bytes_eq(vstd::slice::slice_subrange(s, 0, prefix.len()), prefix)
}

/// Length in bytes of the white-space character that starts at `i`, or 0.
pub fn space_at(s: &[u8], i: usize) -> (k: usize)
    ensures
        k == space_len(s@, i as int),
        i + k <= s@.len() || k == 0,
{
    let n: usize = s.len();
    if i >= n {
        return 0;
    }
    let a: u8 = s[i];
    if (0x09 <= a && a <= 0x0D) || a == 0x20 {
        return 1;
    }
    if n - i < 2 {
        return 0;
    }
    let b: u8 = s[i + 1];
    if a == 0xC2 && (b == 0x85 || b == 0xA0) {
        return 2;
    }
    if n - i < 3 {
        return 0;
    }
    let c: u8 = s[i + 2];
    if (a == 0xE1 && b == 0x9A && c == 0x80) || (a == 0xE2 && b == 0x80 && ((0x80 <= c && c <= 0x8A)
        || c == 0xA8 || c == 0xA9 || c == 0xAF)) || (a == 0xE2 && b == 0x81 && c == 0x9F) || (a
        == 0xE3 && b == 0x80 && c == 0x80) {
        return 3;
    }
    0
}

/// Splits `s` into its words.
pub fn split_words(s: &[u8]) -> (r: Vec<Vec<u8>>)
    ensures
        views(r@) == words(s@),
{
    let n: usize = s.len();
    let mut out: Vec<Vec<u8>> = Vec::new();
    let mut i: usize = 0;
    assert(views(out@) + words_from(s@, 0) == words(s@));
    while i < n
        invariant
            n == s@.len(),
            0 <= i <= n,
            views(out@) + words_from(s@, i as int) == words(s@),
        decreases n - i,
    {
        let k: usize = space_at(s, i);
        if k > 0 {
            i += k;
        } else {
            let start: usize = i;
            i += 1;
            while i < n && space_at(s, i) == 0
                invariant
                    n == s@.len(),
                    start < i <= n,
                    word_end(s@, start as int) == word_end(s@, i - 1),
                decreases n - i,
            {
                i += 1;
            }
            let word: Vec<u8> = vstd::slice::slice_to_vec(vstd::slice::slice_subrange(s, start, i));
            let ghost before = out@;
            out.push(word);
            proof {
                assert(word_end(s@, start as int) == i);
                assert(views(out@) == views(before) + seq![s@.subrange(start as int, i as int)]);
                assert(views(out@) + words_from(s@, i as int) == views(before) + words_from(
                    s@,
                    start as int,
                ));
            }
        }
    }
    assert(views(out@) + words_from(s@, i as int) == views(out@));
    out
}

/// `s` without the line end that it ends with.
pub fn strip_line_end(s: &[u8]) -> (r: &[u8])
    ensures
        r@ == without_line_end(s@),
{
    let n: usize = s.len();
    if n >= 2 && s[n - 2] == 0x0D && s[n - 1] == 0x0A {
        vstd::slice::slice_subrange(s, 0, n - 2)
    } else if n >= 1 && s[n - 1] == 0x0A {
        vstd::slice::slice_subrange(s, 0, n - 1)
    } else {
        vstd::slice::slice_subrange(s, 0, n)
    }
}

/// Position of the first header separator in `s`, if there is one.
pub fn find_separator(s: &[u8]) -> (r: Option<usize>)
    ensures
        r.is_some() <==> separator_from(s@, 0) < s@.len(),
        r.is_some() ==> r.unwrap() == separator_from(s@, 0),
        r.is_some() ==> r.unwrap() + 2 <= s@.len(),
{
    let n: usize = s.len();
    let mut i: usize = 0;
    while i < n
        invariant
            n == s@.len(),
            0 <= i <= n,
            separator_from(s@, i as int) == separator_from(s@, 0),
        decreases n - i,
    {
        if s[i] == 0x3A && n - i >= 2 && s[i + 1] == 0x20 {
            return Some(i);
        }
        i += 1;
    }
    None
}

/// The end of the line that starts at `i`; a line that starts inside the
/// text is not empty.
pub fn next_line(s: &[u8], i: usize) -> (e: usize)
    ensures
        e == line_end(s@, i as int),
        e <= s@.len(),
        i < s@.len() ==> i < e,
{
    let n: usize = s.len();
    if i >= n {
        return n;
    }
    let mut j: usize = i;
    while j < n && s[j] != 0x0A
        invariant
            n == s@.len(),
            i <= j <= n,
            line_end(s@, j as int) == line_end(s@, i as int),
        decreases n - j,
    {
        j += 1;
    }
    if j < n {
        j + 1
    } else {
        j
    }
}

} // verus!
