//! Scanning text: trimming, lines, separators, fields, prefixes.

use crate::text;
use vstd::prelude::*;
use vstd::slice::slice_subrange;

verus! {

/// A class of characters that text is trimmed of or split at.
#[derive(Clone, Copy)]
pub enum CharClass {
    /// Unicode white space.
    Space,
    /// ASCII white space: space, tab, line feed, form feed, carriage return.
    AsciiSpace,
    /// One character.
    One(char),
}

/// The characters with the Unicode property `White_Space`.
pub open spec fn is_space(c: char) -> bool {
    ||| '\u{9}' <= c <= '\u{d}'
    ||| c == '\u{20}'
    ||| c == '\u{85}'
    ||| c == '\u{a0}'
    ||| c == '\u{1680}'
    ||| '\u{2000}' <= c <= '\u{200a}'
    ||| c == '\u{2028}'
    ||| c == '\u{2029}'
    ||| c == '\u{202f}'
    ||| c == '\u{205f}'
    ||| c == '\u{3000}'
}

impl CharClass {
    /// Membership.
    pub open spec fn has(self, c: char) -> bool {
        match self {
            CharClass::Space => is_space(c),
            CharClass::AsciiSpace => c == ' ' || c == '\t' || c == '\n' || c == '\u{c}' || c == '\r',
            CharClass::One(d) => c == d,
        }
    }

    /// Whether `c` belongs to the class.
    pub fn holds(self, c: char) -> (r: bool)
        ensures
            r == self.has(c),
    {
        match self {
            CharClass::Space => {
                ('\u{9}' <= c && c <= '\u{d}') || c == '\u{20}' || c == '\u{85}' || c == '\u{a0}' || c
                    == '\u{1680}' || ('\u{2000}' <= c && c <= '\u{200a}') || c == '\u{2028}' || c == '\u{2029}'
                    || c == '\u{202f}' || c == '\u{205f}' || c == '\u{3000}'
            },
            CharClass::AsciiSpace => c == ' ' || c == '\t' || c == '\n' || c == '\u{c}' || c == '\r',
            CharClass::One(d) => c == d,
        }
    }
}

// ---------------------------------------------------------------------
// Searching
// ---------------------------------------------------------------------

/// Index of the first character of class `k`, or the length.
pub open spec fn find(s: Seq<char>, k: CharClass) -> int
    decreases s.len(),
{
    if s.len() == 0 || k.has(s[0]) {
        0
    } else {
        1 + find(s.drop_first(), k)
    }
}

/// `find` stops at the first character of the class.
pub proof fn lemma_find(s: Seq<char>, k: CharClass)
    ensures
        0 <= find(s, k) <= s.len(),
        find(s, k) < s.len() ==> k.has(s[find(s, k)]),
        forall|j: int| 0 <= j < find(s, k) ==> !k.has(#[trigger] s[j]),
    decreases s.len(),
{
    if s.len() > 0 && !k.has(s[0]) {
        let t = s.drop_first();
        lemma_find(t, k);
        assert forall|j: int| 0 <= j < find(s, k) implies !k.has(#[trigger] s[j]) by {
            if j > 0 {
                assert(s[j] == t[j - 1]);
            }
        }
    }
}

/// An index with the properties of `find` is its result.
pub proof fn lemma_find_at(s: Seq<char>, k: CharClass, i: int)
    requires
        0 <= i <= s.len(),
        i < s.len() ==> k.has(s[i]),
        forall|j: int| 0 <= j < i ==> !k.has(#[trigger] s[j]),
    ensures
        find(s, k) == i,
{
    lemma_find(s, k);
    let f = find(s, k);
    if f < i {
        assert(!k.has(s[f]));
    }
    if i < f {
        assert(!k.has(s[i]));
    }
}

/// Index of the first character of class `k` at or after `from`.
pub fn find_from(v: &[char], from: usize, k: CharClass) -> (r: usize)
    requires
        from <= v@.len(),
    ensures
        from <= r <= v@.len(),
        r - from == find(v@.skip(from as int), k),
{
    let mut i: usize = from;
    while i < v.len()
        invariant
            from <= i <= v@.len(),
            forall|j: int| from <= j < i ==> !k.has(#[trigger] v@[j]),
        decreases v@.len() - i,
    {
        if k.holds(v[i]) {
            proof {
                lemma_find_at(v@.skip(from as int), k, i - from);
            }
            return i;
        }
        i = i + 1;
    }
    proof {
        lemma_find_at(v@.skip(from as int), k, i - from);
    }
    i
}

/// Whether `s` contains a character of class `k`.
pub fn has_char(s: &str, k: CharClass) -> (r: bool)
    ensures
        r == exists|i: int| 0 <= i < s@.len() && k.has(#[trigger] s@[i]),
{
    let v = text::chars_of(s);
    let i = find_from(v.as_slice(), 0, k);
    proof {
        assert(v@.skip(0) =~= v@);
        lemma_find(v@, k);
    }
    if i < v.len() {
        assert(k.has(s@[i as int]));
        true
    } else {
        false
    }
}

/// `sub` occurs in `s` as a contiguous piece.
pub open spec fn has_sub(s: Seq<char>, sub: Seq<char>) -> bool {
    exists|i: int| occurs_at(s, sub, i)
}

/// `sub` occurs in `s` at index `i`.
pub open spec fn occurs_at(s: Seq<char>, sub: Seq<char>, i: int) -> bool {
    0 <= i && i + sub.len() <= s.len() && s.subrange(i, i + sub.len()) == sub
}

/// Whether `sub` occurs in `s`.
pub fn contains(s: &str, sub: &str) -> (r: bool)
    ensures
        r == has_sub(s@, sub@),
{
    let v = text::chars_of(s);
    let w = text::chars_of(sub);
    let n: usize = v.len();
    let m: usize = w.len();
    if m > n {
        return false;
    }
    let mut i: usize = 0;
    while i <= n - m
        invariant
            v@ == s@,
            w@ == sub@,
            n == v@.len(),
            m == w@.len(),
            m <= n,
            i <= n - m + 1,
            forall|j: int| 0 <= j < i ==> !occurs_at(s@, sub@, j),
        decreases n - m + 1 - i,
    {
        let here = slice_subrange(v.as_slice(), i, i + m);
        if text::same_chars(here, w.as_slice()) {
            assert(occurs_at(s@, sub@, i as int));
            return true;
        }
        assert(m > 0) by {
            if m == 0 {
                assert(here@ =~= w@);
            }
        }
        i = i + 1;
    }
    false
}

// ---------------------------------------------------------------------
// Prefixes and suffixes
// ---------------------------------------------------------------------

/// `p` begins `s`.
pub open spec fn has_prefix(s: Seq<char>, p: Seq<char>) -> bool {
    p.len() <= s.len() && s.take(p.len() as int) == p
}

/// `p` ends `s`.
pub open spec fn has_suffix(s: Seq<char>, p: Seq<char>) -> bool {
    p.len() <= s.len() && s.skip(s.len() - p.len()) == p
}

/// `s` without the prefix `p`, if it has it.
pub open spec fn prefix_stripped(s: Seq<char>, p: Seq<char>) -> Option<Seq<char>> {
    if has_prefix(s, p) {
        Some(s.skip(p.len() as int))
    } else {
        None
    }
}

/// `s` without the suffix `p`, if it has it.
pub open spec fn suffix_stripped(s: Seq<char>, p: Seq<char>) -> Option<Seq<char>> {
    if has_suffix(s, p) {
        Some(s.take(s.len() - p.len()))
    } else {
        None
    }
}

/// What begins with a text that begins with `p`, begins with `p`.
pub proof fn lemma_prefix_extends(s: Seq<char>, rest: Seq<char>, p: Seq<char>)
    requires
        has_prefix(s, p),
    ensures
        has_prefix(s + rest, p),
{
    assert((s + rest).take(p.len() as int) =~= s.take(p.len() as int));
}

/// The rest of `s` after the prefix `p`.
pub fn strip_prefix(s: &str, p: &str) -> (r: Option<String>)
    ensures
        text::opt_text(r) == prefix_stripped(s@, p@),
{
    let v = text::chars_of(s);
    let w = text::chars_of(p);
    if w.len() > v.len() {
        return None;
    }
    let head = slice_subrange(v.as_slice(), 0, w.len());
    assert(head@ =~= s@.take(p@.len() as int));
    if text::same_chars(head, w.as_slice()) {
        assert(v@.subrange(w@.len() as int, v@.len() as int) =~= s@.skip(p@.len() as int));
        Some(text::piece(v.as_slice(), w.len(), v.len()))
    } else {
        None
    }
}

/// The rest of `s` before the suffix `p`.
pub fn strip_suffix(s: &str, p: &str) -> (r: Option<String>)
    ensures
        text::opt_text(r) == suffix_stripped(s@, p@),
{
    let v = text::chars_of(s);
    let w = text::chars_of(p);
    if w.len() > v.len() {
        return None;
    }
    let cut: usize = v.len() - w.len();
    let tail = slice_subrange(v.as_slice(), cut, v.len());
    assert(tail@ =~= s@.skip(s@.len() - p@.len()));
    if text::same_chars(tail, w.as_slice()) {
        assert(v@.subrange(0, cut as int) =~= s@.take(s@.len() - p@.len()));
        Some(text::piece(v.as_slice(), 0, cut))
    } else {
        None
    }
}

/// Whether `s` begins with `p`.
pub fn starts_with(s: &str, p: &str) -> (r: bool)
    ensures
        r == has_prefix(s@, p@),
{
    strip_prefix(s, p).is_some()
}

/// Whether `s` ends with `p`.
pub fn ends_with(s: &str, p: &str) -> (r: bool)
    ensures
        r == has_suffix(s@, p@),
{
    strip_suffix(s, p).is_some()
}

// ---------------------------------------------------------------------
// Trimming
// ---------------------------------------------------------------------

/// `s` without its leading characters of class `k`.
pub open spec fn drop_leading(s: Seq<char>, k: CharClass) -> Seq<char>
    decreases s.len(),
{
    if s.len() > 0 && k.has(s[0]) {
        drop_leading(s.drop_first(), k)
    } else {
        s
    }
}

/// `s` without its trailing characters of class `k`.
pub open spec fn drop_trailing(s: Seq<char>, k: CharClass) -> Seq<char>
    decreases s.len(),
{
    if s.len() > 0 && k.has(s.last()) {
        drop_trailing(s.drop_last(), k)
    } else {
        s
    }
}

/// `s` without the characters of class `k` at both ends.
pub open spec fn trimmed(s: Seq<char>, k: CharClass) -> Seq<char> {
    drop_trailing(drop_leading(s, k), k)
}

/// `s` without white space at both ends.
pub open spec fn trim_space(s: Seq<char>) -> Seq<char> {
    trimmed(s, CharClass::Space)
}

proof fn lemma_drop_leading_at(s: Seq<char>, k: CharClass, i: int)
    requires
        0 <= i <= s.len(),
        i < s.len() ==> !k.has(s[i]),
        forall|j: int| 0 <= j < i ==> k.has(#[trigger] s[j]),
    ensures
        drop_leading(s, k) == s.skip(i),
    decreases i,
{
    if i == 0 {
        assert(s.skip(0) =~= s);
    } else {
        assert(k.has(s[0]));
        let t = s.drop_first();
        assert forall|j: int| 0 <= j < i - 1 implies k.has(#[trigger] t[j]) by {
            assert(t[j] == s[j + 1]);
        }
        lemma_drop_leading_at(t, k, i - 1);
        assert(t.skip(i - 1) =~= s.skip(i));
    }
}

proof fn lemma_drop_trailing_at(s: Seq<char>, k: CharClass, i: int)
    requires
        0 <= i <= s.len(),
        i > 0 ==> !k.has(s[i - 1]),
        forall|j: int| i <= j < s.len() ==> k.has(#[trigger] s[j]),
    ensures
        drop_trailing(s, k) == s.take(i),
    decreases s.len() - i,
{
    if i == s.len() {
        assert(s.take(i) =~= s);
    } else {
        assert(k.has(s[s.len() - 1]));
        let t = s.drop_last();
        lemma_drop_trailing_at(t, k, i);
        assert(t.take(i) =~= s.take(i));
    }
}

/// Leading trimming leaves a tail that does not begin in the class.
pub proof fn lemma_drop_leading(s: Seq<char>, k: CharClass)
    ensures
        drop_leading(s, k).len() <= s.len(),
        drop_leading(s, k).len() > 0 ==> !k.has(drop_leading(s, k)[0]),
    decreases s.len(),
{
    if s.len() > 0 && k.has(s[0]) {
        lemma_drop_leading(s.drop_first(), k);
    }
}

/// Trimming leaves the piece between the first and the last character
/// outside the class.
pub proof fn lemma_trimmed(s: Seq<char>, k: CharClass) -> (r: (int, int))
    ensures
        0 <= r.0 <= r.1 <= s.len(),
        trimmed(s, k) == s.subrange(r.0, r.1),
        r.0 < r.1 ==> !k.has(s[r.0]) && !k.has(s[r.1 - 1]),
{
    let a = lemma_leading_end(s, k);
    let t = s.skip(a);
    let b = lemma_trailing_start(t, k);
    assert(t.take(b) =~= s.subrange(a, a + b));
    (a, a + b)
}

proof fn lemma_leading_end(s: Seq<char>, k: CharClass) -> (a: int)
    ensures
        0 <= a <= s.len(),
        drop_leading(s, k) == s.skip(a),
        a < s.len() ==> !k.has(s[a]),
    decreases s.len(),
{
    if s.len() > 0 && k.has(s[0]) {
        let a = lemma_leading_end(s.drop_first(), k);
        assert(s.drop_first().skip(a) =~= s.skip(a + 1));
        a + 1
    } else {
        assert(s.skip(0) =~= s);
        0
    }
}

proof fn lemma_trailing_start(s: Seq<char>, k: CharClass) -> (b: int)
    ensures
        0 <= b <= s.len(),
        drop_trailing(s, k) == s.take(b),
        b > 0 ==> !k.has(s[b - 1]),
        s.len() > 0 && !k.has(s[0]) ==> b > 0,
    decreases s.len(),
{
    if s.len() > 0 && k.has(s.last()) {
        let b = lemma_trailing_start(s.drop_last(), k);
        assert(s.drop_last().take(b) =~= s.take(b));
        b
    } else {
        assert(s.take(s.len() as int) =~= s);
        s.len() as int
    }
}

/// Index after the leading characters of class `k` at or after `from`.
pub fn skip_from(v: &[char], from: usize, k: CharClass) -> (r: usize)
    requires
        from <= v@.len(),
    ensures
        from <= r <= v@.len(),
        v@.skip(r as int) == drop_leading(v@.skip(from as int), k),
        r < v@.len() ==> !k.has(v@[r as int]),
{
    let mut i: usize = from;
    while i < v.len() && k.holds(v[i])
        invariant
            from <= i <= v@.len(),
            forall|j: int| from <= j < i ==> k.has(#[trigger] v@[j]),
        decreases v@.len() - i,
    {
        i = i + 1;
    }
    proof {
        lemma_drop_leading_at(v@.skip(from as int), k, i - from);
        assert(v@.skip(from as int).skip(i - from) =~= v@.skip(i as int));
    }
    i
}

/// End index before the trailing characters of class `k`, at or after `from`.
pub fn trail_from(v: &[char], from: usize, k: CharClass) -> (r: usize)
    requires
        from <= v@.len(),
    ensures
        from <= r <= v@.len(),
        v@.subrange(from as int, r as int) == drop_trailing(v@.skip(from as int), k),
{
    let mut i: usize = v.len();
    while i > from && k.holds(v[i - 1])
        invariant
            from <= i <= v@.len(),
            forall|j: int| i <= j < v@.len() ==> k.has(#[trigger] v@[j]),
        decreases i,
    {
        i = i - 1;
    }
    proof {
        let s = v@.skip(from as int);
        assert forall|j: int| i - from <= j < s.len() implies k.has(#[trigger] s[j]) by {
            assert(s[j] == v@[j + from]);
        }
        lemma_drop_trailing_at(s, k, i - from);
        assert(s.take(i - from) =~= v@.subrange(from as int, i as int));
    }
    i
}

/// `s` without the characters of class `k` at both ends.
pub fn trim_of(s: &str, k: CharClass) -> (r: String)
    ensures
        r@ == trimmed(s@, k),
{
    let v = text::chars_of(s);
    assert(v@.skip(0) =~= s@);
    let a = skip_from(v.as_slice(), 0, k);
    let b = trail_from(v.as_slice(), a, k);
    text::piece(v.as_slice(), a, b)
}

/// `s` without white space at both ends.
pub fn trim(s: &str) -> (r: String)
    ensures
        r@ == trim_space(s@),
{
    trim_of(s, CharClass::Space)
}

/// `s` without its trailing characters of class `k`.
pub fn trim_end_of(s: &str, k: CharClass) -> (r: String)
    ensures
        r@ == drop_trailing(s@, k),
{
    let v = text::chars_of(s);
    assert(v@.skip(0) =~= s@);
    let b = trail_from(v.as_slice(), 0, k);
    text::piece(v.as_slice(), 0, b)
}

/// `s` without all its leading occurrences of the text `p`.
pub open spec fn drop_leading_text(s: Seq<char>, p: Seq<char>) -> Seq<char>
    decreases s.len(),
{
    if p.len() > 0 && has_prefix(s, p) {
        drop_leading_text(s.skip(p.len() as int), p)
    } else {
        s
    }
}

/// `s` without all its leading occurrences of the text `p`.
pub fn trim_start_text(s: &str, p: &str) -> (r: String)
    requires
        p@.len() > 0,
    ensures
        r@ == drop_leading_text(s@, p@),
{
    let mut cur: String = s.to_owned();
    loop
        invariant
            p@.len() > 0,
            drop_leading_text(cur@, p@) == drop_leading_text(s@, p@),
        ensures
            cur@ == drop_leading_text(s@, p@),
        decreases cur@.len(),
    {
        match strip_prefix(cur.as_str(), p) {
            Some(rest) => {
                cur = rest;
            },
            None => {
                break;
            },
        }
    }
    cur
}

// ---------------------------------------------------------------------
// Splitting
// ---------------------------------------------------------------------

/// A line without the carriage return of its `\r\n` terminator.
pub open spec fn without_cr(s: Seq<char>) -> Seq<char> {
    if s.len() > 0 && s.last() == '\r' {
        s.drop_last()
    } else {
        s
    }
}

/// The lines of a text, each ended by `\n` or `\r\n`, the last end optional.
pub open spec fn lines_of(s: Seq<char>) -> Seq<Seq<char>>
    decreases s.len(),
    via lines_of_shrinks
{
    let i = find(s, CharClass::One('\n'));
    if s.len() == 0 {
        Seq::empty()
    } else if i == s.len() {
        seq![s]
    } else {
        seq![without_cr(s.take(i))] + lines_of(s.skip(i + 1))
    }
}

#[via_fn]
proof fn lines_of_shrinks(s: Seq<char>) {
    lemma_find(s, CharClass::One('\n'));
}

/// The pieces of a text between occurrences of `c`.
pub open spec fn split_of(s: Seq<char>, c: char) -> Seq<Seq<char>>
    decreases s.len(),
    via split_of_shrinks
{
    let i = find(s, CharClass::One(c));
    if i == s.len() {
        seq![s]
    } else {
        seq![s.take(i)] + split_of(s.skip(i + 1), c)
    }
}

#[via_fn]
proof fn split_of_shrinks(s: Seq<char>, c: char) {
    lemma_find(s, CharClass::One(c));
}

/// Two texts with `c` between them have the pieces of both.
pub proof fn lemma_split_joined(a: Seq<char>, b: Seq<char>, c: char)
    ensures
        split_of(a + seq![c] + b, c) == split_of(a, c) + split_of(b, c),
    decreases a.len(),
{
    let k = CharClass::One(c);
    let s = a + seq![c] + b;
    lemma_find(a, k);
    lemma_find(s, k);
    let i = find(a, k);
    if i == a.len() {
        assert(s[i] == c);
        assert(find(s, k) == i) by {
            if find(s, k) < i {
                assert(s[find(s, k)] == a[find(s, k)]);
            }
        }
        assert(s.take(i) =~= a);
        assert(s.skip(i + 1) =~= b);
    } else {
        assert(s[i] == a[i]);
        assert(find(s, k) == i) by {
            if find(s, k) < i {
                assert(s[find(s, k)] == a[find(s, k)]);
            }
        }
        assert(s.take(i) =~= a.take(i));
        assert(s.skip(i + 1) =~= a.skip(i + 1) + seq![c] + b);
        lemma_split_joined(a.skip(i + 1), b, c);
        assert(split_of(s, c) =~= split_of(a, c) + split_of(b, c));
    }
}

/// The non-empty fields of a text between runs of characters of class `k`.
pub open spec fn fields_of(s: Seq<char>, k: CharClass) -> Seq<Seq<char>>
    decreases s.len(),
    via fields_of_shrinks
{
    let t = drop_leading(s, k);
    if t.len() == 0 {
        Seq::empty()
    } else {
        seq![t.take(find(t, k))] + fields_of(t.skip(find(t, k)), k)
    }
}

#[via_fn]
proof fn fields_of_shrinks(s: Seq<char>, k: CharClass) {
    let t = drop_leading(s, k);
    lemma_drop_leading(s, k);
    lemma_find(t, k);
}

/// The two sides of the first occurrence of `c`.
pub open spec fn split_once_of(s: Seq<char>, c: char) -> Option<(Seq<char>, Seq<char>)> {
    let i = find(s, CharClass::One(c));
    if i < s.len() {
        Some((s.take(i), s.skip(i + 1)))
    } else {
        None
    }
}

/// The text after the last occurrence of `c`.
pub open spec fn after_last(s: Seq<char>, c: char) -> Option<Seq<char>> {
    if split_of(s, c).len() > 1 {
        Some(split_of(s, c).last())
    } else {
        None
    }
}

/// The lines of `s`.
pub fn lines(s: &str) -> (r: Vec<String>)
    ensures
        text::texts(r@) == lines_of(s@),
{
    let v = text::chars_of(s);
    let nl = CharClass::One('\n');
    let mut out: Vec<String> = Vec::new();
    let mut from: usize = 0;
    assert(v@.skip(0) =~= s@);
    assert(text::texts(out@) + lines_of(v@.skip(0)) =~= lines_of(s@));
    while from < v.len()
        invariant
            v@ == s@,
            nl == CharClass::One('\n'),
            from <= v@.len(),
            text::texts(out@) + lines_of(v@.skip(from as int)) == lines_of(s@),
        decreases v@.len() - from,
    {
        let ghost rest = v@.skip(from as int);
        let ghost before = out@;
        let i = find_from(v.as_slice(), from, nl);
        proof {
            lemma_find(rest, nl);
        }
        if i == v.len() {
            out.push(text::piece(v.as_slice(), from, i));
            proof {
                assert(v@.subrange(from as int, i as int) =~= rest);
                assert(text::texts(out@) =~= text::texts(before) + seq![rest]);
                assert(text::texts(out@) + lines_of(v@.skip(i as int)) =~= lines_of(s@));
            }
            from = i;
        } else {
            let mut end: usize = i;
            if i > from && v[i - 1] == '\r' {
                end = i - 1;
            }
            out.push(text::piece(v.as_slice(), from, end));
            proof {
                let head = rest.take(i - from);
                assert(head =~= v@.subrange(from as int, i as int));
                assert(v@.subrange(from as int, end as int) =~= without_cr(head));
                assert(rest.skip(i - from + 1) =~= v@.skip(i + 1));
                assert(text::texts(out@) =~= text::texts(before) + seq![without_cr(head)]);
                assert(text::texts(out@) + lines_of(v@.skip(i + 1)) =~= text::texts(before) + (seq![
                    without_cr(head),
                ] + lines_of(v@.skip(i + 1))));
            }
            from = i + 1;
        }
    }
    proof {
        assert(v@.skip(from as int) =~= Seq::<char>::empty());
        assert(text::texts(out@) + Seq::<Seq<char>>::empty() =~= text::texts(out@));
    }
    out
}

/// The pieces of `s` between occurrences of `c`.
pub fn split(s: &str, c: char) -> (r: Vec<String>)
    ensures
        text::texts(r@) == split_of(s@, c),
{
    let v = text::chars_of(s);
    let k = CharClass::One(c);
    let mut out: Vec<String> = Vec::new();
    let mut from: usize = 0;
    assert(v@.skip(0) =~= s@);
    assert(text::texts(out@) + split_of(v@.skip(0), c) =~= split_of(s@, c));
    loop
        invariant
            v@ == s@,
            k == CharClass::One(c),
            from <= v@.len(),
            text::texts(out@) + split_of(v@.skip(from as int), c) == split_of(s@, c),
        decreases v@.len() - from,
    {
        let ghost rest = v@.skip(from as int);
        let ghost before = out@;
        let i = find_from(v.as_slice(), from, k);
        proof {
            lemma_find(rest, k);
        }
        out.push(text::piece(v.as_slice(), from, i));
        proof {
            assert(v@.subrange(from as int, i as int) =~= rest.take(i - from));
            assert(text::texts(out@) =~= text::texts(before) + seq![rest.take(i - from)]);
        }
        if i == v.len() {
            proof {
                assert(rest.take(i - from) =~= rest);
            }
            return out;
        }
        proof {
            assert(rest.skip(i - from + 1) =~= v@.skip(i + 1));
            assert(text::texts(out@) + split_of(v@.skip(i + 1), c) =~= text::texts(before) + (seq![
                rest.take(i - from),
            ] + split_of(v@.skip(i + 1), c)));
        }
        from = i + 1;
    }
}

/// The fields of `s` between runs of characters of class `k`.
pub fn fields(s: &str, k: CharClass) -> (r: Vec<String>)
    ensures
        text::texts(r@) == fields_of(s@, k),
{
    let v = text::chars_of(s);
    let mut out: Vec<String> = Vec::new();
    let mut from: usize = 0;
    assert(v@.skip(0) =~= s@);
    assert(text::texts(out@) + fields_of(v@.skip(0), k) =~= fields_of(s@, k));
    loop
        invariant
            v@ == s@,
            from <= v@.len(),
            text::texts(out@) + fields_of(v@.skip(from as int), k) == fields_of(s@, k),
        decreases v@.len() - from,
    {
        let ghost before = out@;
        let a = skip_from(v.as_slice(), from, k);
        let ghost t = v@.skip(a as int);
        if a == v.len() {
            proof {
                assert(text::texts(out@) + Seq::<Seq<char>>::empty() =~= text::texts(out@));
            }
            return out;
        }
        let b = find_from(v.as_slice(), a, k);
        proof {
            lemma_find(t, k);
            assert(t[0] == v@[a as int]);
        }
        out.push(text::piece(v.as_slice(), a, b));
        proof {
            assert(v@.subrange(a as int, b as int) =~= t.take(b - a));
            assert(t.skip(b - a) =~= v@.skip(b as int));
            assert(text::texts(out@) =~= text::texts(before) + seq![t.take(b - a)]);
            assert(text::texts(out@) + fields_of(v@.skip(b as int), k) =~= text::texts(before) + (seq![
                t.take(b - a),
            ] + fields_of(v@.skip(b as int), k)));
        }
        from = b;
    }
}

/// The two sides of the first occurrence of `c` in `s`.
pub fn split_once(s: &str, c: char) -> (r: Option<(String, String)>)
    ensures
        match r {
            Some((a, b)) => split_once_of(s@, c) == Some((a@, b@)),
            None => split_once_of(s@, c) is None,
        },
{
    let v = text::chars_of(s);
    assert(v@.skip(0) =~= s@);
    let i = find_from(v.as_slice(), 0, CharClass::One(c));
    if i == v.len() {
        None
    } else {
        assert(v@.subrange(0, i as int) =~= s@.take(i as int));
        assert(v@.subrange(i + 1, v@.len() as int) =~= s@.skip(i + 1));
        Some((text::piece(v.as_slice(), 0, i), text::piece(v.as_slice(), i + 1, v.len())))
    }
}

// ---------------------------------------------------------------------
// Joining and letter case
// ---------------------------------------------------------------------

/// The text after the last occurrence of `c`.
pub fn rsplit_after(s: &str, c: char) -> (r: Option<String>)
    ensures
        text::opt_text(r) == after_last(s@, c),
{
    let parts = split(s, c);
    let ghost all = split_of(s@, c);
    assert(all.len() == parts@.len());
    if parts.len() > 1 {
        assert(all.last() == parts@[parts@.len() - 1]@);
        Some(parts[parts.len() - 1].clone())
    } else {
        None
    }
}

/// Texts joined with a separator between them.
pub open spec fn joined(parts: Seq<Seq<char>>, sep: Seq<char>) -> Seq<char>
    decreases parts.len(),
{
    if parts.len() == 0 {
        Seq::empty()
    } else if parts.len() == 1 {
        parts[0]
    } else {
        joined(parts.drop_last(), sep) + sep + parts.last()
    }
}

/// The strings of `parts` with `sep` between them.
pub fn join(parts: &Vec<String>, sep: &str) -> (r: String)
    ensures
        r@ == joined(text::texts(parts@), sep@),
{
    let mut out = String::new();
    let mut i: usize = 0;
    while i < parts.len()
        invariant
            i <= parts@.len(),
            out@ == joined(text::texts(parts@.take(i as int)), sep@),
        decreases parts@.len() - i,
    {
        if i > 0 {
            out.append(sep);
        }
        out.append(parts[i].as_str());
        proof {
            let t = text::texts(parts@.take(i + 1));
            assert(t.drop_last() =~= text::texts(parts@.take(i as int)));
            assert(t.last() == parts@[i as int]@);
            assert(out@ =~= joined(t, sep@));
        }
        i = i + 1;
    }
    proof {
        assert(parts@.take(parts@.len() as int) =~= parts@);
    }
    out
}

/// ASCII lower case of one character.
pub open spec fn lower_char(c: char) -> char {
    if 'A' <= c <= 'Z' {
        ((c as u32 + 32) as u32) as char
    } else {
        c
    }
}

/// ASCII lower case of a text.
pub open spec fn lower_text(s: Seq<char>) -> Seq<char> {
    s.map_values(|c: char| lower_char(c))
}

/// ASCII lower case of `c`.
pub fn lower(c: char) -> (r: char)
    ensures
        r == lower_char(c),
{
    if 'A' <= c && c <= 'Z' {
        let b: u8 = c as u8;
        let d: u8 = b + 32;
        d as char
    } else {
        c
    }
}

/// ASCII lower case of `s`.
pub fn to_lower(s: &str) -> (r: String)
    ensures
        r@ == lower_text(s@),
{
    let v = text::chars_of(s);
    let mut out = String::new();
    let mut i: usize = 0;
    while i < v.len()
        invariant
            v@ == s@,
            i <= v@.len(),
            out@ == lower_text(v@.take(i as int)),
        decreases v@.len() - i,
    {
        out.push(lower(v[i]));
        i = i + 1;
        assert(out@ =~= lower_text(v@.take(i as int)));
    }
    assert(v@.take(v@.len() as int) =~= v@);
    out
}

/// Equality of `a` and `b` up to ASCII letter case.
pub fn same_ignoring_case(a: &str, b: &str) -> (r: bool)
    ensures
        r == (lower_text(a@) == lower_text(b@)),
{
    let x = to_lower(a);
    let y = to_lower(b);
    text::same(x.as_str(), y.as_str())
}

} // verus!
