//! Numbers as text: parsing of integers, recognition of floating-point
//! literals, and decimal and hexadecimal numerals.

use crate::scan;
use crate::text;
use vstd::prelude::*;

verus! {

// ---------------------------------------------------------------------
// Parsing
// ---------------------------------------------------------------------

/// The value of a digit in base 16 or below.
pub open spec fn digit_of(c: char, radix: nat) -> Option<nat> {
    let d: int = if '0' <= c <= '9' {
        c as int - '0' as int
    } else if 'a' <= c <= 'f' {
        c as int - 'a' as int + 10
    } else if 'A' <= c <= 'F' {
        c as int - 'A' as int + 10
    } else {
        16
    };
    if d < radix {
        Some(d as nat)
    } else {
        None
    }
}

/// The number that a sequence of digits denotes.
pub open spec fn value_of(s: Seq<char>, radix: nat) -> nat
    decreases s.len(),
{
    if s.len() == 0 {
        0
    } else {
        value_of(s.drop_last(), radix) * radix + digit_of(s.last(), radix).unwrap_or(0)
    }
}

/// Every character is a digit.
pub open spec fn all_digits(s: Seq<char>, radix: nat) -> bool {
    forall|i: int| 0 <= i < s.len() ==> digit_of(#[trigger] s[i], radix) is Some
}

/// A text without one leading `+`.
pub open spec fn without_plus(s: Seq<char>) -> Seq<char> {
    if s.len() > 0 && s[0] == '+' {
        s.drop_first()
    } else {
        s
    }
}

/// The natural number that a text denotes: an optional `+`, then digits.
pub open spec fn unsigned_of(s: Seq<char>, radix: nat) -> Option<nat> {
    let d = without_plus(s);
    if d.len() > 0 && all_digits(d, radix) {
        Some(value_of(d, radix))
    } else {
        None
    }
}

/// `unsigned_of`, where the number is at most `max`.
pub open spec fn bounded_of(s: Seq<char>, radix: nat, max: nat) -> Option<nat> {
    match unsigned_of(s, radix) {
        Some(n) => if n <= max {
            Some(n)
        } else {
            None
        },
        None => None,
    }
}

/// The integer that a text denotes: an optional sign, then digits.
pub open spec fn signed_of(s: Seq<char>) -> Option<int> {
    if s.len() > 0 && s[0] == '-' {
        let d = s.drop_first();
        if d.len() > 0 && all_digits(d, 10) {
            Some(-(value_of(d, 10) as int))
        } else {
            None
        }
    } else {
        match unsigned_of(s, 10) {
            Some(n) => Some(n as int),
            None => None,
        }
    }
}

fn digit(c: char, radix: u64) -> (r: Option<u64>)
    requires
        radix <= 16,
    ensures
        match r {
            Some(d) => digit_of(c, radix as nat) == Some(d as nat) && d < radix,
            None => digit_of(c, radix as nat) is None,
        },
{
    let d: u64 = if '0' <= c && c <= '9' {
        c as u64 - '0' as u64
    } else if 'a' <= c && c <= 'f' {
        c as u64 - 'a' as u64 + 10
    } else if 'A' <= c && c <= 'F' {
        c as u64 - 'A' as u64 + 10
    } else {
        16
    };
    if d < radix {
        Some(d)
    } else {
        None
    }
}

/// A longer run of digits denotes no smaller number.
proof fn lemma_value_grows(s: Seq<char>, i: int, radix: nat)
    requires
        0 <= i <= s.len(),
        radix >= 1,
    ensures
        value_of(s.take(i), radix) <= value_of(s, radix),
    decreases s.len() - i,
{
    if i == s.len() {
        assert(s.take(i) =~= s);
    } else {
        let t = s.take(i + 1);
        assert(t.drop_last() =~= s.take(i));
        let v = value_of(s.take(i), radix);
        assert(v * radix >= v) by (nonlinear_arith)
            requires
                radix >= 1,
                v >= 0,
        ;
        lemma_value_grows(s, i + 1, radix);
    }
}

fn parse_digits(v: &Vec<char>, from: usize, radix: u64, max: u64) -> (r: Option<u64>)
    requires
        2 <= radix <= 16,
        from <= v@.len(),
    ensures
        ({
            let d = v@.skip(from as int);
            match r {
                Some(n) => d.len() > 0 && all_digits(d, radix as nat) && value_of(d, radix as nat) == n && n <= max,
                None => d.len() == 0 || !all_digits(d, radix as nat) || value_of(d, radix as nat) > max,
            }
        }),
{
    let ghost d = v@.skip(from as int);
    if from == v.len() {
        return None;
    }
    let mut acc: u64 = 0;
    let mut i: usize = from;
    proof {
        assert(d.take(0) =~= Seq::<char>::empty());
    }
    while i < v.len()
        invariant
            2 <= radix <= 16,
            from <= i <= v@.len(),
            d == v@.skip(from as int),
            acc <= max,
            acc == value_of(d.take(i - from), radix as nat),
            forall|j: int| 0 <= j < i - from ==> digit_of(#[trigger] d[j], radix as nat) is Some,
        decreases v@.len() - i,
    {
        match digit(v[i], radix) {
            Some(x) => {
                assert(acc * radix <= 16 * u64::MAX) by (nonlinear_arith)
                    requires
                        acc <= u64::MAX,
                        radix <= 16,
                ;
                let wide: u128 = acc as u128 * radix as u128 + x as u128;
                proof {
                    let t = d.take(i - from + 1);
                    assert(t.drop_last() =~= d.take(i - from));
                    assert(t.last() == v@[i as int]);
                    assert(value_of(t, radix as nat) == wide);
                    lemma_value_grows(d, i - from + 1, radix as nat);
                }
                if wide > max as u128 {
                    return None;
                }
                acc = wide as u64;
            },
            None => {
                assert(digit_of(d[i - from], radix as nat) is None);
                return None;
            },
        }
        i = i + 1;
    }
    proof {
        assert(d.take(d.len() as int) =~= d);
    }
    Some(acc)
}

/// The number in base `radix` that `s` denotes, if it is at most `max`.
pub fn parse_bounded(s: &str, radix: u64, max: u64) -> (r: Option<u64>)
    requires
        2 <= radix <= 16,
    ensures
        match r {
            Some(n) => bounded_of(s@, radix as nat, max as nat) == Some(n as nat),
            None => bounded_of(s@, radix as nat, max as nat) is None,
        },
{
    let v = text::chars_of(s);
    let from: usize = if v.len() > 0 && v[0] == '+' {
        1
    } else {
        0
    };
    proof {
        assert(v@.skip(from as int) =~= without_plus(s@));
    }
    parse_digits(&v, from, radix, max)
}

/// The decimal `u64` that `s` denotes.
pub fn parse_u64(s: &str) -> (r: Option<u64>)
    ensures
        match r {
            Some(n) => bounded_of(s@, 10, u64::MAX as nat) == Some(n as nat),
            None => bounded_of(s@, 10, u64::MAX as nat) is None,
        },
{
    parse_bounded(s, 10, u64::MAX)
}

/// The decimal `u32` that `s` denotes.
pub fn parse_u32(s: &str) -> (r: Option<u32>)
    ensures
        match r {
            Some(n) => bounded_of(s@, 10, u32::MAX as nat) == Some(n as nat),
            None => bounded_of(s@, 10, u32::MAX as nat) is None,
        },
{
    match parse_bounded(s, 10, u32::MAX as u64) {
        Some(n) => Some(n as u32),
        None => None,
    }
}

/// The decimal `usize` that `s` denotes.
pub fn parse_usize(s: &str) -> (r: Option<usize>)
    ensures
        match r {
            Some(n) => bounded_of(s@, 10, usize::MAX as nat) == Some(n as nat),
            None => bounded_of(s@, 10, usize::MAX as nat) is None,
        },
{
    match parse_bounded(s, 10, usize::MAX as u64) {
        Some(n) => Some(n as usize),
        None => None,
    }
}

/// `signed_of`, where the integer is an `i32`.
pub open spec fn i32_of(s: Seq<char>) -> Option<int> {
    match signed_of(s) {
        Some(n) => if i32::MIN <= n <= i32::MAX {
            Some(n)
        } else {
            None
        },
        None => None,
    }
}

/// The decimal `i32` that `s` denotes.
pub fn parse_i32(s: &str) -> (r: Option<i32>)
    ensures
        match r {
            Some(n) => i32_of(s@) == Some(n as int),
            None => i32_of(s@) is None,
        },
{
    let v = text::chars_of(s);
    if v.len() > 0 && v[0] == '-' {
        proof {
            assert(v@.skip(1) =~= s@.drop_first());
        }
        match parse_digits(&v, 1, 10, 0x8000_0000) {
            Some(n) => Some((0 - n as i64) as i32),
            None => None,
        }
    } else {
        match parse_bounded(s, 10, 0x7fff_ffff) {
            Some(n) => Some(n as i32),
            None => None,
        }
    }
}

// ---------------------------------------------------------------------
// Floating-point literals
// ---------------------------------------------------------------------

/// How many characters of `s` from its start are decimal digits.
pub open spec fn digit_run(s: Seq<char>) -> int
    decreases s.len(),
{
    if s.len() > 0 && '0' <= s[0] <= '9' {
        1 + digit_run(s.drop_first())
    } else {
        0
    }
}

/// A text without one leading sign.
pub open spec fn without_sign(s: Seq<char>) -> Seq<char> {
    if s.len() > 0 && (s[0] == '+' || s[0] == '-') {
        s.drop_first()
    } else {
        s
    }
}

/// Nothing, or `e`, an optional sign and digits.
pub open spec fn is_exponent_or_end(s: Seq<char>) -> bool {
    s.len() == 0 || ((s[0] == 'e' || s[0] == 'E') && {
        let w = without_sign(s.drop_first());
        w.len() > 0 && digit_run(w) == w.len()
    })
}

/// Digits with an optional point among or beside them, then an optional
/// exponent.
pub open spec fn is_decimal_number(s: Seq<char>) -> bool {
    let a = digit_run(s);
    let rest = s.skip(a);
    if rest.len() > 0 && rest[0] == '.' {
        let frac = rest.drop_first();
        let b = digit_run(frac);
        a + b > 0 && is_exponent_or_end(frac.skip(b))
    } else {
        a > 0 && is_exponent_or_end(rest)
    }
}

/// The texts that denote a floating-point number: an optional sign, then
/// `inf`, `infinity`, `nan` in any letter case, or a decimal number.
pub open spec fn is_float_literal(s: Seq<char>) -> bool {
    let t = without_sign(s);
    let l = scan::lower_text(t);
    l == "inf"@ || l == "infinity"@ || l == "nan"@ || is_decimal_number(t)
}

proof fn lemma_digit_run_at(s: Seq<char>, i: int)
    requires
        0 <= i <= s.len(),
        i < s.len() ==> !('0' <= s[i] <= '9'),
        forall|j: int| 0 <= j < i ==> '0' <= #[trigger] s[j] <= '9',
    ensures
        digit_run(s) == i,
    decreases i,
{
    if i > 0 {
        assert('0' <= s[0] <= '9');
        let t = s.drop_first();
        assert forall|j: int| 0 <= j < i - 1 implies '0' <= #[trigger] t[j] <= '9' by {
            assert(t[j] == s[j + 1]);
        }
        lemma_digit_run_at(t, i - 1);
    }
}

fn digits_end(v: &Vec<char>, from: usize) -> (r: usize)
    requires
        from <= v@.len(),
    ensures
        from <= r <= v@.len(),
        r - from == digit_run(v@.skip(from as int)),
{
    let mut i: usize = from;
    while i < v.len() && '0' <= v[i] && v[i] <= '9'
        invariant
            from <= i <= v@.len(),
            forall|j: int| from <= j < i ==> '0' <= #[trigger] v@[j] <= '9',
        decreases v@.len() - i,
    {
        i = i + 1;
    }
    proof {
        let s = v@.skip(from as int);
        assert forall|j: int| 0 <= j < i - from implies '0' <= #[trigger] s[j] <= '9' by {
            assert(s[j] == v@[j + from]);
        }
        lemma_digit_run_at(s, i - from);
    }
    i
}

fn sign_end(v: &Vec<char>, from: usize) -> (r: usize)
    requires
        from <= v@.len(),
    ensures
        from <= r <= v@.len(),
        v@.skip(r as int) == without_sign(v@.skip(from as int)),
{
    if from < v.len() && (v[from] == '+' || v[from] == '-') {
        proof {
            assert(v@.skip(from + 1) =~= v@.skip(from as int).drop_first());
        }
        from + 1
    } else {
        from
    }
}

fn exponent_or_end(v: &Vec<char>, from: usize) -> (r: bool)
    requires
        from <= v@.len(),
    ensures
        r == is_exponent_or_end(v@.skip(from as int)),
{
    if from == v.len() {
        return true;
    }
    if v[from] != 'e' && v[from] != 'E' {
        return false;
    }
    proof {
        assert(v@.skip(from + 1) =~= v@.skip(from as int).drop_first());
    }
    let a = sign_end(v, from + 1);
    let b = digits_end(v, a);
    a < v.len() && b == v.len()
}

/// Whether `s` denotes a floating-point number.
pub fn float_literal(s: &str) -> (r: bool)
    ensures
        r == is_float_literal(s@),
{
    let v = text::chars_of(s);
    proof {
        assert(v@.skip(0) =~= s@);
    }
    let from = sign_end(&v, 0);
    let ghost t = without_sign(s@);
    let word = text::piece(v.as_slice(), from, v.len());
    proof {
        assert(v@.subrange(from as int, v@.len() as int) =~= t);
    }
    let l = scan::to_lower(word.as_str());
    if text::same(l.as_str(), "inf") || text::same(l.as_str(), "infinity") || text::same(l.as_str(), "nan") {
        return true;
    }
    let a = digits_end(&v, from);
    proof {
        assert(t.skip(a - from) =~= v@.skip(a as int));
    }
    if a < v.len() && v[a] == '.' {
        let ghost frac = v@.skip(a as int).drop_first();
        proof {
            assert(v@.skip(a + 1) =~= frac);
        }
        let b = digits_end(&v, a + 1);
        proof {
            assert(frac.skip(b - (a + 1)) =~= v@.skip(b as int));
        }
        (a > from || b > a + 1) && exponent_or_end(&v, b)
    } else {
        a > from && exponent_or_end(&v, a)
    }
}

// ---------------------------------------------------------------------
// Numerals
// ---------------------------------------------------------------------

/// The digit with value `d`, lower case above nine.
pub open spec fn digit_char(d: nat) -> char {
    if d < 10 {
        ('0' as nat + d) as char
    } else {
        ('a' as nat + d - 10) as char
    }
}

/// The numeral of `n`, without leading zeros.
pub open spec fn numeral(n: nat, radix: nat) -> Seq<char>
    decreases n,
    via numeral_shrinks
{
    if radix < 2 {
        Seq::empty()
    } else if n < radix {
        seq![digit_char(n)]
    } else {
        numeral(n / radix, radix).push(digit_char(n % radix))
    }
}

#[via_fn]
proof fn numeral_shrinks(n: nat, radix: nat) {
    if radix >= 2 && n >= radix {
        lemma_quotient_shrinks(n, radix);
    }
}

proof fn lemma_quotient_shrinks(n: nat, radix: nat)
    requires
        radix >= 2,
        n >= radix,
    ensures
        n / radix < n,
{
    assert(n / radix < n) by (nonlinear_arith)
        requires
            radix >= 2,
            n >= radix,
    ;
}

/// The decimal numeral of `n`.
pub open spec fn decimal(n: nat) -> Seq<char> {
    numeral(n, 10)
}

proof fn lemma_decimal_digits(n: nat)
    ensures
        decimal(n).len() > 0,
        all_digits(decimal(n), 10),
        value_of(decimal(n), 10) == n,
    decreases n,
{
    let s = decimal(n);
    let d = n % 10;
    assert(digit_of(digit_char(d), 10) == Some(d));
    if n < 10 {
        assert(s.drop_last() =~= Seq::empty());
        assert(value_of(s.drop_last(), 10) == 0);
    } else {
        lemma_decimal_digits(n / 10);
        let head = decimal(n / 10);
        assert(s.drop_last() =~= head);
        assert forall|i: int| 0 <= i < s.len() implies digit_of(#[trigger] s[i], 10) is Some by {
            if i < head.len() {
                assert(s[i] == head[i]);
            }
        }
    }
}

/// The decimal numeral of a number is read as that number.
pub proof fn law_decimal_reads_back(n: nat, max: nat)
    requires
        n <= max,
    ensures
        bounded_of(decimal(n), 10, max) == Some(n),
{
    lemma_decimal_digits(n);
    let s = decimal(n);
    assert(digit_of(s[0], 10) is Some);
    assert(s[0] != '+');
}

/// The decimal numeral of an integer.
pub open spec fn signed_decimal(n: int) -> Seq<char> {
    if n < 0 {
        seq!['-'] + decimal((-n) as nat)
    } else {
        decimal(n as nat)
    }
}

/// The lower-case hexadecimal numeral of `n`.
pub open spec fn hex(n: nat) -> Seq<char> {
    numeral(n, 16)
}

/// `s` with zeros in front up to `width` characters.
pub open spec fn zero_padded(s: Seq<char>, width: nat) -> Seq<char>
    decreases width - s.len(),
{
    if s.len() >= width {
        s
    } else {
        zero_padded(seq!['0'] + s, width)
    }
}

/// The last `width` decimal digits of `n`.
pub open spec fn fixed(n: nat, width: nat) -> Seq<char>
    decreases width,
{
    if width == 0 {
        Seq::empty()
    } else {
        fixed(n / 10, (width - 1) as nat).push(digit_char(n % 10))
    }
}

/// The number of numerals of `width` digits.
pub open spec fn ten_to(width: nat) -> nat
    decreases width,
{
    if width == 0 {
        1
    } else {
        10 * ten_to((width - 1) as nat)
    }
}

proof fn lemma_pad_push(s: Seq<char>, c: char, width: nat)
    ensures
        zero_padded(s.push(c), width + 1) == zero_padded(s, width).push(c),
    decreases width - s.len(),
{
    if s.len() < width {
        lemma_pad_push(seq!['0'] + s, c, width);
        assert(seq!['0'] + s.push(c) =~= (seq!['0'] + s).push(c));
    }
}

proof fn lemma_fixed_zero(width: nat)
    ensures
        zero_padded(Seq::empty(), width) == fixed(0, width),
    decreases width,
{
    if width > 0 {
        let k = (width - 1) as nat;
        lemma_fixed_zero(k);
        lemma_pad_push(Seq::empty(), '0', k);
        assert(seq!['0'] + Seq::<char>::empty() =~= Seq::<char>::empty().push('0'));
    }
}

/// A padded numeral that fits its width is its last digits.
pub proof fn lemma_padded_is_fixed(n: nat, width: nat)
    requires
        n < ten_to(width),
        width > 0,
    ensures
        zero_padded(decimal(n), width) == fixed(n, width),
    decreases width,
{
    let k = (width - 1) as nat;
    let d = digit_char(n % 10);
    if n < 10 {
        lemma_fixed_zero(k);
        lemma_pad_push(Seq::empty(), d, k);
        assert(decimal(n) =~= Seq::<char>::empty().push(d));
        assert(n / 10 == 0);
    } else {
        reveal_with_fuel(ten_to, 2);
        lemma_padded_is_fixed(n / 10, k);
        lemma_pad_push(decimal(n / 10), d, k);
    }
}

/// `fixed` gives as many digits as asked for.
pub proof fn lemma_fixed_len(n: nat, width: nat)
    ensures
        fixed(n, width).len() == width,
    decreases width,
{
    if width > 0 {
        lemma_fixed_len(n / 10, (width - 1) as nat);
    }
}

/// Digits of one width compare as the numbers do.
pub proof fn lemma_fixed_lt(a: nat, b: nat, width: nat)
    requires
        a < b < ten_to(width),
    ensures
        text::text_lt(fixed(a, width), fixed(b, width)),
    decreases width,
{
    if width > 0 {
        let k = (width - 1) as nat;
        let p = fixed(a / 10, k);
        let q = fixed(b / 10, k);
        let x = seq![digit_char(a % 10)];
        let y = seq![digit_char(b % 10)];
        lemma_fixed_len(a / 10, k);
        lemma_fixed_len(b / 10, k);
        assert(fixed(a, width) =~= p + x);
        assert(fixed(b, width) =~= q + y);
        if a / 10 < b / 10 {
            lemma_fixed_lt(a / 10, b / 10, k);
            text::lemma_text_lt_extend(p, q, x, y);
        } else {
            text::lemma_text_lt_common_prefix(p, x, y);
        }
    }
}

fn digit_to_char(d: u128) -> (r: char)
    requires
        d < 16,
    ensures
        r == digit_char(d as nat),
{
    let x: u8 = d as u8;
    if x < 10 {
        (0x30 + x) as char
    } else {
        (0x61 + (x - 10)) as char
    }
}

fn numeral_chars(n: u128, radix: u128) -> (r: Vec<char>)
    requires
        2 <= radix <= 16,
    ensures
        r@ == numeral(n as nat, radix as nat),
    decreases n,
{
    if n < radix {
        let mut v: Vec<char> = Vec::new();
        v.push(digit_to_char(n));
        assert(v@ =~= seq![digit_char(n as nat)]);
        v
    } else {
        proof {
            lemma_quotient_shrinks(n as nat, radix as nat);
        }
        let mut v = numeral_chars(n / radix, radix);
        v.push(digit_to_char(n % radix));
        v
    }
}

/// The decimal numeral of `n`.
pub fn dec(n: u64) -> (r: String)
    ensures
        r@ == decimal(n as nat),
{
    let v = numeral_chars(n as u128, 10);
    text::string_of(v.as_slice())
}

/// The decimal numeral of `n`.
pub fn dec_u128(n: u128) -> (r: String)
    ensures
        r@ == decimal(n as nat),
{
    let v = numeral_chars(n, 10);
    text::string_of(v.as_slice())
}

/// The decimal numeral of `n`.
pub fn dec_usize(n: usize) -> (r: String)
    ensures
        r@ == decimal(n as nat),
{
    dec(n as u64)
}

/// The decimal numeral of `n`.
pub fn dec_i64(n: i64) -> (r: String)
    ensures
        r@ == signed_decimal(n as int),
{
    if n < 0 {
        let m: u64 = if n == i64::MIN {
            0x8000_0000_0000_0000
        } else {
            (0 - n) as u64
        };
        let d = dec(m);
        let r = text::join2("-", d.as_str());
        proof {
            reveal_strlit("-");
            assert("-"@ =~= seq!['-']);
        }
        r
    } else {
        dec(n as u64)
    }
}

/// `s` with zeros in front up to `width` characters.
pub fn pad_zeros(s: String, width: usize) -> (r: String)
    ensures
        r@ == zero_padded(s@, width as nat),
{
    let mut v = text::chars_of(s.as_str());
    while v.len() < width
        invariant
            zero_padded(v@, width as nat) == zero_padded(s@, width as nat),
        decreases width - v@.len(),
    {
        let ghost before = v@;
        v.insert(0, '0');
        assert(v@ =~= seq!['0'] + before);
    }
    text::string_of(v.as_slice())
}

/// The lower-case hexadecimal numeral of `n` with zeros in front up to
/// `width` characters.
pub fn hex_padded(n: u64, width: usize) -> (r: String)
    ensures
        r@ == zero_padded(hex(n as nat), width as nat),
{
    let v = numeral_chars(n as u128, 16);
    pad_zeros(text::string_of(v.as_slice()), width)
}

/// The decimal numeral of `n` with zeros in front up to `width` characters.
pub fn dec_padded(n: u64, width: usize) -> (r: String)
    ensures
        r@ == zero_padded(decimal(n as nat), width as nat),
{
    pad_zeros(dec(n), width)
}

} // verus!
