//! What holds of texts, numbers, paths and times, whoever uses them.

use crate::number;
use crate::paths;
use crate::scan;
use crate::scan::CharClass;
use crate::time;
use vstd::prelude::*;

verus! {

// ---------------------------------------------------------------------
// Texts
// ---------------------------------------------------------------------

/// No character of the text is of the class.
pub open spec fn free_of(s: Seq<char>, k: CharClass) -> bool {
    forall|i: int| 0 <= i < s.len() ==> !k.has(#[trigger] s[i])
}

/// Every character of the text is of the class.
pub open spec fn all_of(s: Seq<char>, k: CharClass) -> bool {
    forall|i: int| 0 <= i < s.len() ==> k.has(#[trigger] s[i])
}

proof fn lemma_drop_leading_of(a: Seq<char>, b: Seq<char>, k: CharClass)
    requires
        all_of(a, k),
        b.len() > 0 ==> !k.has(b[0]),
    ensures
        scan::drop_leading(a + b, k) == b,
    decreases a.len(),
{
    if a.len() == 0 {
        assert(a + b =~= b);
    } else {
        let s = a + b;
        assert(k.has(a[0]));
        let t = a.drop_first();
        assert forall|i: int| 0 <= i < t.len() implies k.has(#[trigger] t[i]) by {
            assert(t[i] == a[i + 1]);
        }
        lemma_drop_leading_of(t, b, k);
        assert(s.drop_first() =~= t + b);
    }
}

proof fn lemma_drop_trailing_of(a: Seq<char>, b: Seq<char>, k: CharClass)
    requires
        all_of(b, k),
        a.len() > 0 ==> !k.has(a.last()),
    ensures
        scan::drop_trailing(a + b, k) == a,
    decreases b.len(),
{
    if b.len() == 0 {
        assert(a + b =~= a);
    } else {
        let s = a + b;
        assert(k.has(b[b.len() - 1]));
        let t = b.drop_last();
        assert forall|i: int| 0 <= i < t.len() implies k.has(#[trigger] t[i]) by {
            assert(t[i] == b[i]);
        }
        lemma_drop_trailing_of(a, t, k);
        assert(s.drop_last() =~= a + t);
    }
}

/// Trimming takes off what is of the class at both ends, and nothing else.
pub proof fn law_trimming(a: Seq<char>, core: Seq<char>, b: Seq<char>, k: CharClass)
    requires
        all_of(a, k),
        all_of(b, k),
        core.len() > 0 ==> !k.has(core[0]) && !k.has(core.last()),
    ensures
        core.len() > 0 ==> scan::trimmed(a + core + b, k) == core,
        scan::trimmed(a, k).len() == 0,
{
    assert(a + Seq::<char>::empty() =~= a);
    lemma_drop_leading_of(a, Seq::empty(), k);
    if core.len() > 0 {
        assert(a + core + b =~= a + (core + b));
        lemma_drop_leading_of(a, core + b, k);
        lemma_drop_trailing_of(core, b, k);
    }
}

proof fn lemma_field(word: Seq<char>, c: char, rest: Seq<char>, k: CharClass)
    requires
        word.len() > 0,
        free_of(word, k),
        k.has(c),
    ensures
        scan::fields_of(word + (seq![c] + rest), k) == seq![word] + scan::fields_of(seq![c] + rest, k),
{
    let tail = seq![c] + rest;
    let s = word + tail;
    assert(!k.has(word[0]));
    assert(s[0] == word[0]);
    assert(scan::drop_leading(s, k) == s);
    assert(s[word.len() as int] == c);
    assert forall|j: int| 0 <= j < word.len() implies !k.has(#[trigger] s[j]) by {
        assert(s[j] == word[j]);
    }
    scan::lemma_find_at(s, k, word.len() as int);
    assert(s.take(word.len() as int) =~= word);
    assert(s.skip(word.len() as int) =~= tail);
}

/// The fields of a text are its words: one word is one field, what stands
/// between words counts for nothing, and the words keep their order.
pub proof fn law_fields(word: Seq<char>, c: char, rest: Seq<char>, k: CharClass)
    requires
        word.len() > 0,
        free_of(word, k),
        k.has(c),
    ensures
        scan::fields_of(Seq::empty(), k).len() == 0,
        scan::fields_of(word, k) == seq![word],
        scan::fields_of(seq![c] + rest, k) == scan::fields_of(rest, k),
        scan::fields_of(word + (seq![c] + rest), k) == seq![word] + scan::fields_of(rest, k),
{
    let tail = seq![c] + rest;
    assert(tail[0] == c);
    assert(tail.drop_first() =~= rest);
    assert(scan::drop_leading(tail, k) == scan::drop_leading(rest, k));
    assert(scan::fields_of(tail, k) == scan::fields_of(rest, k));
    lemma_field(word, c, rest, k);
    assert(!k.has(word[0]));
    assert(scan::drop_leading(word, k) == word);
    scan::lemma_find_at(word, k, word.len() as int);
    assert(word.take(word.len() as int) =~= word);
    assert(word.skip(word.len() as int) =~= Seq::<char>::empty());
    assert(scan::fields_of(Seq::empty(), k) =~= Seq::empty());
    assert(scan::fields_of(word, k) =~= seq![word]);
}

/// A text is split where the character first occurs, and not at all where it
/// does not.
pub proof fn law_split_once(a: Seq<char>, c: char, b: Seq<char>)
    requires
        free_of(a, CharClass::One(c)),
    ensures
        scan::split_once_of(a + seq![c] + b, c) == Some((a, b)),
        scan::split_once_of(a, c) is None,
{
    let s = a + seq![c] + b;
    let k = CharClass::One(c);
    assert(s[a.len() as int] == c);
    assert forall|j: int| 0 <= j < a.len() implies !k.has(#[trigger] s[j]) by {
        assert(s[j] == a[j]);
    }
    scan::lemma_find_at(s, k, a.len() as int);
    scan::lemma_find_at(a, k, a.len() as int);
    assert(s.take(a.len() as int) =~= a);
    assert(s.skip(a.len() as int + 1) =~= b);
}

/// A line ends at a line feed, or at a carriage return and a line feed; what
/// comes behind the last one is a line too, unless there is nothing.
pub proof fn law_lines(a: Seq<char>, rest: Seq<char>)
    requires
        free_of(a, CharClass::One('\n')),
        a.len() > 0 ==> a.last() != '\r',
    ensures
        scan::lines_of(Seq::empty()).len() == 0,
        a.len() > 0 ==> scan::lines_of(a) == seq![a],
        scan::lines_of(a + seq!['\n'] + rest) == seq![a] + scan::lines_of(rest),
        scan::lines_of(a + seq!['\r'] + seq!['\n'] + rest) == seq![a] + scan::lines_of(rest),
{
    let k = CharClass::One('\n');
    let s = a + seq!['\n'] + rest;
    assert(s[a.len() as int] == '\n');
    assert forall|j: int| 0 <= j < a.len() implies !k.has(#[trigger] s[j]) by {
        assert(s[j] == a[j]);
    }
    scan::lemma_find_at(s, k, a.len() as int);
    scan::lemma_find_at(a, k, a.len() as int);
    assert(s.take(a.len() as int) =~= a);
    assert(s.skip(a.len() as int + 1) =~= rest);
    let b = a + seq!['\r'];
    let t = a + seq!['\r'] + seq!['\n'] + rest;
    assert(t[b.len() as int] == '\n');
    assert forall|j: int| 0 <= j < b.len() implies !k.has(#[trigger] t[j]) by {
        if j < a.len() {
            assert(t[j] == a[j]);
        } else {
            assert(t[j] == '\r');
        }
    }
    scan::lemma_find_at(t, k, b.len() as int);
    assert(t.take(b.len() as int) =~= b);
    assert(t.skip(b.len() as int + 1) =~= rest);
    assert(b.drop_last() =~= a);
}

// ---------------------------------------------------------------------
// Numbers
// ---------------------------------------------------------------------

/// An integer is read as it is written, with a minus sign where it is
/// negative.
pub proof fn law_signed_numeral_reads_back(n: int)
    ensures
        number::signed_of(number::signed_decimal(n)) == Some(n),
{
    reveal_strlit("-");
    if n < 0 {
        let s = number::signed_decimal(n);
        let d = number::decimal((-n) as nat);
        assert(s.drop_first() =~= d);
        assert(s[0] == '-');
        number::law_decimal_reads_back((-n) as nat, (-n) as nat);
        lemma_numeral_is_digits((-n) as nat);
    } else {
        number::law_decimal_reads_back(n as nat, n as nat);
        lemma_numeral_is_digits(n as nat);
    }
}

/// A numeral is made of digits.
pub proof fn lemma_numeral_is_digits(n: nat)
    ensures
        number::decimal(n).len() > 0,
        number::decimal(n)[0] != '+',
        number::decimal(n)[0] != '-',
        forall|i: int| 0 <= i < number::decimal(n).len() ==> '0' <= #[trigger] number::decimal(n)[i] <= '9',
    decreases n,
{
    let s = number::decimal(n);
    if n >= 10 {
        lemma_numeral_is_digits(n / 10);
        let t = number::decimal(n / 10);
        assert(s == t.push(number::digit_char(n % 10)));
    } else {
        assert(s.len() == 1);
    }
}

proof fn lemma_digit_run(s: Seq<char>)
    requires
        forall|i: int| 0 <= i < s.len() ==> '0' <= #[trigger] s[i] <= '9',
    ensures
        number::digit_run(s) == s.len(),
    decreases s.len(),
{
    if s.len() > 0 {
        let t = s.drop_first();
        assert('0' <= s[0] <= '9');
        assert forall|i: int| 0 <= i < t.len() implies '0' <= #[trigger] t[i] <= '9' by {
            assert(t[i] == s[i + 1]);
        }
        lemma_digit_run(t);
    }
}

proof fn lemma_digit_run_stops(s: Seq<char>, rest: Seq<char>)
    requires
        forall|i: int| 0 <= i < s.len() ==> '0' <= #[trigger] s[i] <= '9',
        rest.len() > 0 ==> !('0' <= rest[0] <= '9'),
    ensures
        number::digit_run(s + rest) == s.len(),
    decreases s.len(),
{
    let all = s + rest;
    if s.len() > 0 {
        let t = s.drop_first();
        assert('0' <= s[0] <= '9');
        assert(all[0] == s[0]);
        assert forall|i: int| 0 <= i < t.len() implies '0' <= #[trigger] t[i] <= '9' by {
            assert(t[i] == s[i + 1]);
        }
        lemma_digit_run_stops(t, rest);
        assert(all.drop_first() =~= t + rest);
    } else {
        assert(all =~= rest);
    }
}

/// Numerals, and numerals with a point and more digits, are numbers; the
/// empty text, a lone sign and a lone point are not.
pub proof fn law_figures(whole: nat, part: nat)
    ensures
        number::is_float_literal(number::decimal(whole)),
        number::is_float_literal(number::decimal(whole) + seq!['.'] + number::decimal(part)),
        number::is_float_literal(seq!['-'] + number::decimal(whole)),
        !number::is_float_literal(Seq::empty()),
        !number::is_float_literal(seq!['-']),
        !number::is_float_literal(seq!['.']),
{
    let a = number::decimal(whole);
    let b = number::decimal(part);
    lemma_numeral_is_digits(whole);
    lemma_numeral_is_digits(part);
    lemma_digit_run(a);
    lemma_digit_run(b);
    assert(a.skip(a.len() as int) =~= Seq::<char>::empty());
    assert(b.skip(b.len() as int) =~= Seq::<char>::empty());
    let s = a + seq!['.'] + b;
    let tail = seq!['.'] + b;
    assert(s =~= a + tail);
    lemma_digit_run_stops(a, tail);
    assert(s.skip(a.len() as int) =~= tail);
    assert(tail.drop_first() =~= b);
    assert(s[0] == a[0]);
    assert((seq!['-'] + a).drop_first() =~= a);
    reveal_strlit("inf");
    reveal_strlit("infinity");
    reveal_strlit("nan");
    assert("inf"@.len() == 3 && "infinity"@.len() == 8 && "nan"@.len() == 3);
    assert(seq!['-'].drop_first() =~= Seq::<char>::empty());
    assert(seq!['.'].skip(0) =~= seq!['.']);
    assert(seq!['.'].drop_first() =~= Seq::<char>::empty());
    assert(number::digit_run(seq!['.']) == 0);
    assert(number::digit_run(Seq::<char>::empty()) == 0);
    assert(Seq::<char>::empty().skip(0) =~= Seq::<char>::empty());
}

// ---------------------------------------------------------------------
// Paths
// ---------------------------------------------------------------------

/// An ordinary name of a file.
pub open spec fn is_name(s: Seq<char>) -> bool {
    &&& s.len() > 0
    &&& !s.contains('/')
    &&& s != seq!['.']
    &&& s != seq!['.', '.']
}

proof fn lemma_components_push(pieces: Seq<Seq<char>>, p: Seq<char>, rooted: bool)
    requires
        pieces.len() > 0,
        p.len() > 0,
        p != seq!['.'],
    ensures
        paths::components(pieces.push(p), rooted) == paths::components(pieces, rooted).push(p),
{
    assert(pieces.push(p).drop_last() =~= pieces);
}

/// What is joined to a directory is in it, under its own name.
pub proof fn law_joined_path(dir: Seq<char>, name: Seq<char>)
    requires
        is_name(name),
        dir.len() > 0,
        dir.last() != '/',
    ensures
        paths::file_name_of(paths::joined_path(dir, name)) == Some(name),
        paths::parent_of(paths::joined_path(dir, name)) == Some(paths::path_of(dir)),
{
    let s = dir + seq!['/'] + name;
    let k = CharClass::One('/');
    assert(paths::joined_path(dir, name) == s);
    scan::lemma_split_joined(dir, name, '/');
    scan::lemma_find(name, k);
    if scan::find(name, k) < name.len() {
        assert(name.contains(name[scan::find(name, k)]));
    }
    assert(scan::split_of(name, '/') =~= seq![name]);
    let pieces = scan::split_of(dir, '/');
    assert(scan::split_of(s, '/') =~= pieces.push(name));
    let rooted = dir[0] == '/';
    assert(s[0] == dir[0]);
    assert(pieces.len() > 0);
    lemma_components_push(pieces, name, rooted);
    let parts = paths::components(pieces, rooted);
    assert(parts.push(name).drop_last() =~= parts);
}

// ---------------------------------------------------------------------
// Times
// ---------------------------------------------------------------------

/// So many seconds before a moment lie so many seconds before it.
pub proof fn law_seconds_before(now: i64, secs: u64)
    requires
        secs <= i64::MAX,
        i64::MIN <= now - secs,
    ensures
        time::seconds_before(now, secs) + secs == now,
{
}

proof fn lemma_time_of_day(secs: int)
    ensures
        ({
            let of_day = secs % 86_400;
            let h = of_day / 3600;
            let m = (of_day - h * 3600) / 60;
            let s = of_day - h * 3600 - m * 60;
            &&& 0 <= h < 24
            &&& 0 <= m < 60
            &&& 0 <= s < 60
            &&& (secs / 3600) % 24 == h
            &&& (secs / 60) % 60 == m
            &&& secs % 60 == s
        }),
{
    let q = secs / 86_400;
    let of_day = secs % 86_400;
    let h = of_day / 3600;
    let rest = of_day - h * 3600;
    let m = rest / 60;
    let s = rest - m * 60;
    assert(secs == 86_400 * q + 3600 * h + 60 * m + s);
    assert(secs / 3600 == 24 * q + h);
    assert(secs / 60 == 1440 * q + 60 * h + m);
}

/// The stamp of a second is that of its day and of its time of day: hours,
/// minutes and seconds with two digits each, behind a date with a year, a
/// month and a day.
pub proof fn law_parts_of_a_stamp(secs: int, h: int, m: int, s: int)
    requires
        0 <= h < 24,
        0 <= m < 60,
        0 <= s < 60,
        secs % 86_400 == h * 3600 + m * 60 + s,
    ensures
        ({
            let d = time::date_of(secs / 86_400);
            &&& time::is_date_of(secs / 86_400, d.0, d.1, d.2)
            &&& time::stamp(secs) == time::year_text(d.0) + (seq!['-'] + (time::two_digits(d.1) + (seq!['-'] + (
            time::two_digits(d.2) + (seq!['T'] + (time::two_digits(h) + (seq![':'] + (time::two_digits(m) + (seq![
                ':',
            ] + (time::two_digits(s) + seq!['Z']))))))))))
        }),
{
    time::law_date_exists(secs / 86_400);
    lemma_time_of_day(secs);
    assert((secs / 3600) % 24 == h && (secs / 60) % 60 == m && secs % 60 == s);
}

/// The calendar goes on day by day: behind the last day of a month comes the
/// first of the next, behind the last of December the first of the next
/// year, and the count starts at 1970.
pub proof fn law_calendar(y: int, m: int, d: int)
    ensures
        time::day_number(1970, 1, 1) == 0,
        time::day_number(y, m, d + 1) == time::day_number(y, m, d) + 1,
        1 <= m < 12 ==> time::day_number(y, m + 1, 1) == time::day_number(y, m, time::days_in_month(y, m)) + 1,
        time::days_in_month(y, 2) == 29 <==> y % 400 == 0 || (y % 4 == 0 && y % 100 != 0),
        time::days_in_month(y, 2) == 28 || time::days_in_month(y, 2) == 29,
        m == 4 || m == 6 || m == 9 || m == 11 ==> time::days_in_month(y, m) == 30,
        m == 1 || m == 3 || m == 5 || m == 7 || m == 8 || m == 10 || m == 12 ==> time::days_in_month(y, m) == 31,
        time::is_date(y, m, d) <==> 1 <= m <= 12 && 1 <= d <= time::days_in_month(y, m),
{
}

/// A text begins and ends with its parts, and holds what is between them.
pub proof fn law_parts_of_a_text(a: Seq<char>, b: Seq<char>, c: Seq<char>, other: Seq<char>)
    ensures
        scan::has_prefix(a + b, a),
        scan::has_suffix(a + b, b),
        scan::has_sub(a + b + c, b),
        scan::has_prefix(other, a) ==> exists|rest: Seq<char>| other == #[trigger] (a + rest),
        scan::has_suffix(other, b) ==> exists|rest: Seq<char>| other == #[trigger] (rest + b),
{
    assert((a + b).take(a.len() as int) =~= a);
    assert((a + b).skip((a + b).len() - b.len()) =~= b);
    let s = a + b + c;
    let n = a.len() as int;
    assert(s.subrange(n, n + b.len()) =~= b);
    assert(scan::occurs_at(s, b, n));
    if scan::has_prefix(other, a) {
        assert(other =~= a + other.skip(a.len() as int));
    }
    if scan::has_suffix(other, b) {
        assert(other =~= other.take(other.len() - b.len()) + b);
    }
}

/// Blanks, tabs and line ends are white space; letters, digits and signs are
/// not.
pub proof fn law_white_space(c: char)
    ensures
        c == ' ' || c == '\t' || c == '\n' || c == '\r' ==> CharClass::Space.has(c) && CharClass::AsciiSpace.has(c),
        '!' <= c <= '~' ==> !CharClass::Space.has(c) && !CharClass::AsciiSpace.has(c),
        CharClass::AsciiSpace.has(c) ==> CharClass::Space.has(c),
{
}

/// What is joined to a path that ends in a slash, or to none, stands right
/// behind it.
pub proof fn law_joined_to_a_slash(dir: Seq<char>, name: Seq<char>)
    ensures
        paths::joined_path(Seq::empty(), name) == name,
        paths::joined_path(dir + seq!['/'], name) == dir + seq!['/'] + name,
{
    assert(Seq::<char>::empty() + name =~= name);
    assert((dir + seq!['/']).last() == '/');
}

} // verus!
