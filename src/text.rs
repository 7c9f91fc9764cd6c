//! Character-level helpers: whitespace normalisation, trimming, decimal
//! integers, and building `String`s from characters.
use vstd::prelude::*;

verus! {

/// Whitespace as the language sees it: the Unicode `White_Space`
/// characters, the set that `char::is_whitespace` and `str::trim` use.
pub open spec fn is_space(c: char) -> bool {
    ('\u{9}' <= c && c <= '\u{d}') || c == ' ' || c == '\u{85}' || c == '\u{a0}' || c
        == '\u{1680}' || ('\u{2000}' <= c && c <= '\u{200a}') || c == '\u{2028}' || c
        == '\u{2029}' || c == '\u{202f}' || c == '\u{205f}' || c == '\u{3000}'
}

pub open spec fn is_digit(c: char) -> bool {
    '0' <= c && c <= '9'
}

pub open spec fn digit_value(c: char) -> int {
    (c as int) - ('0' as int)
}

/// Every whitespace run becomes a single space, and leading whitespace is
/// dropped; a single trailing space may remain.
pub open spec fn squeeze(s: Seq<char>) -> Seq<char>
    decreases s.len(),
{
    if s.len() == 0 {
        Seq::empty()
    } else {
        let rest = squeeze(s.drop_last());
        let c = s.last();
        if is_space(c) {
            if rest.len() == 0 || rest.last() == ' ' {
                rest
            } else {
                rest.push(' ')
            }
        } else {
            rest.push(c)
        }
    }
}

/// The source text with whitespace runs collapsed to single spaces and
/// both ends trimmed.
pub open spec fn normalize(s: Seq<char>) -> Seq<char> {
    let q = squeeze(s);
    if q.len() > 0 && q.last() == ' ' {
        q.drop_last()
    } else {
        q
    }
}

/// Index of the first non-whitespace character in `s[i..b]` (or `b`).
pub open spec fn skip_start(s: Seq<char>, i: int, b: int) -> int
    decreases b - i,
{
    if i < b && is_space(s[i]) {
        skip_start(s, i + 1, b)
    } else {
        i
    }
}

/// One past the last non-whitespace character of `s[lo..j]` (or `lo`).
pub open spec fn skip_end(s: Seq<char>, lo: int, j: int) -> int
    decreases j - lo,
{
    if j > lo && is_space(s[j - 1]) {
        skip_end(s, lo, j - 1)
    } else {
        j
    }
}

/// The bounds of `s[a..b]` with surrounding whitespace removed.
pub open spec fn trim_bounds(s: Seq<char>, a: int, b: int) -> (int, int) {
    let x = skip_start(s, a, b);
    (x, skip_end(s, x, b))
}

/// `s` without leading and trailing whitespace.
pub open spec fn trim(s: Seq<char>) -> Seq<char> {
    let (x, y) = trim_bounds(s, 0, s.len() as int);
    s.subrange(x, y)
}

pub open spec fn all_digits(d: Seq<char>) -> bool {
    forall|i: int| 0 <= i < d.len() ==> is_digit(#[trigger] d[i])
}

/// The value of a string of decimal digits.
pub open spec fn digits_value(d: Seq<char>) -> int
    decreases d.len(),
{
    if d.len() == 0 {
        0
    } else {
        digits_value(d.drop_last()) * 10 + digit_value(d.last())
    }
}

/// `s` without a leading sign.
pub open spec fn unsigned_part(s: Seq<char>) -> Seq<char> {
    if s.len() > 0 && (s[0] == '-' || s[0] == '+') {
        s.drop_first()
    } else {
        s
    }
}

/// The integer that `s` spells: an optional sign and one or more decimal
/// digits, within the range of `i32`.
pub open spec fn parse_int(s: Seq<char>) -> Option<i32> {
    let neg = s.len() > 0 && s[0] == '-';
    let d = unsigned_part(s);
    let v = if neg { -digits_value(d) } else { digits_value(d) };
    if d.len() > 0 && all_digits(d) && i32::MIN <= v <= i32::MAX {
        Some(v as i32)
    } else {
        None
    }
}

pub open spec fn digit_char(n: int) -> char {
    if n <= 0 {
        '0'
    } else if n == 1 {
        '1'
    } else if n == 2 {
        '2'
    } else if n == 3 {
        '3'
    } else if n == 4 {
        '4'
    } else if n == 5 {
        '5'
    } else if n == 6 {
        '6'
    } else if n == 7 {
        '7'
    } else if n == 8 {
        '8'
    } else {
        '9'
    }
}

/// The decimal digits of a natural number, most significant first.
pub open spec fn nat_text(n: nat) -> Seq<char>
    decreases n,
{
    if n < 10 {
        seq![digit_char(n as int)]
    } else {
        nat_text(n / 10).push(digit_char((n % 10) as int))
    }
}

/// The decimal text of an integer, with a leading `-` when negative.
pub open spec fn int_text(n: int) -> Seq<char> {
    if n < 0 {
        seq!['-'] + nat_text((-n) as nat)
    } else {
        nat_text(n as nat)
    }
}

/// Relies on `String::push`: appends one character.
#[verifier::external_body]
pub(crate) fn push_char(s: &mut String, c: char)
    ensures
        final(s)@ == old(s)@.push(c),
{
    s.push(c)
}

/// The characters of a string slice.
pub fn chars_of(s: &str) -> (r: Vec<char>)
    ensures
        r@ == s@,
{
    let mut r: Vec<char> = Vec::new();
    for c in it: s.chars()
        invariant
            r@ == it.seq().take(it.index() as int),
    {
        r.push(c);
    }
    r
}

/// A `String` holding `text[a..b]`.
pub fn string_of(text: &Vec<char>, a: usize, b: usize) -> (r: String)
    requires
        a <= b <= text@.len(),
    ensures
        r@ == text@.subrange(a as int, b as int),
{
    let mut r = String::new();
    let mut i = a;
    while i < b
        invariant
            a <= i <= b <= text@.len(),
            r@ == text@.subrange(a as int, i as int),
        decreases b - i,
    {
        push_char(&mut r, text[i]);
        i = i + 1;
        assert(r@ =~= text@.subrange(a as int, i as int));
    }
    r
}

/// Appends all characters of `t` to `s`.
pub fn push_chars(s: &mut String, t: &Vec<char>)
    ensures
        final(s)@ == old(s)@ + t@,
{
    let ghost s0 = s@;
    let mut i: usize = 0;
    while i < t.len()
        invariant
            i <= t@.len(),
            s@ == s0 + t@.take(i as int),
        decreases t.len() - i,
    {
        push_char(s, t[i]);
        i = i + 1;
        assert(s@ =~= s0 + t@.take(i as int));
    }
    assert(t@.take(i as int) =~= t@);
}

/// Whitespace test on one character.
pub fn space(c: char) -> (r: bool)
    ensures
        r == is_space(c),
{
    ('\u{9}' <= c && c <= '\u{d}') || c == ' ' || c == '\u{85}' || c == '\u{a0}' || c
        == '\u{1680}' || ('\u{2000}' <= c && c <= '\u{200a}') || c == '\u{2028}' || c
        == '\u{2029}' || c == '\u{202f}' || c == '\u{205f}' || c == '\u{3000}'
}

/// `s` with whitespace runs collapsed and both ends trimmed.
pub fn normalize_chars(s: &Vec<char>) -> (r: Vec<char>)
    ensures
        r@ == normalize(s@),
{
    let mut r: Vec<char> = Vec::new();
    let mut i: usize = 0;
    while i < s.len()
        invariant
            i <= s@.len(),
            r@ == squeeze(s@.take(i as int)),
        decreases s.len() - i,
    {
        let c = s[i];
        assert(s@.take(i as int + 1).drop_last() =~= s@.take(i as int));
        if space(c) {
            if r.len() > 0 && r[r.len() - 1] != ' ' {
                r.push(' ');
            }
        } else {
            r.push(c);
        }
        i = i + 1;
    }
    assert(s@.take(i as int) =~= s@);
    if r.len() > 0 && r[r.len() - 1] == ' ' {
        r.pop();
    }
    r
}

/// The bounds of `text[a..b]` without surrounding whitespace.
pub fn trim_range(text: &Vec<char>, a: usize, b: usize) -> (r: (usize, usize))
    requires
        a <= b <= text@.len(),
    ensures
        r.0 as int == trim_bounds(text@, a as int, b as int).0,
        r.1 as int == trim_bounds(text@, a as int, b as int).1,
        a <= r.0 <= r.1 <= b,
{
    let mut x = a;
    while x < b && space(text[x])
        invariant
            a <= x <= b <= text@.len(),
            skip_start(text@, x as int, b as int) == skip_start(text@, a as int, b as int),
        decreases b - x,
    {
        x = x + 1;
    }
    let mut y = b;
    while y > x && space(text[y - 1])
        invariant
            x <= y <= b <= text@.len(),
            skip_end(text@, x as int, y as int) == skip_end(text@, x as int, b as int),
        decreases y - x,
    {
        y = y - 1;
    }
    (x, y)
}

/// Trimming a window of a subrange is trimming the same window of the
/// whole sequence, shifted.
pub proof fn lemma_trim_shift(text: Seq<char>, lo: int, hi: int, x: int, y: int)
    requires
        0 <= lo <= hi <= text.len(),
        0 <= x <= y <= hi - lo,
    ensures
        trim_bounds(text.subrange(lo, hi), x, y).0 == trim_bounds(text, lo + x, lo + y).0 - lo,
        trim_bounds(text.subrange(lo, hi), x, y).1 == trim_bounds(text, lo + x, lo + y).1 - lo,
        x <= trim_bounds(text, lo + x, lo + y).0 - lo <= trim_bounds(text, lo + x, lo + y).1 - lo
            <= y,
{
    let sub = text.subrange(lo, hi);
    lemma_skip_start_shift(text, lo, hi, x, y);
    let s0 = skip_start(sub, x, y);
    lemma_skip_end_shift(text, lo, hi, s0, y);
}

proof fn lemma_skip_start_shift(text: Seq<char>, lo: int, hi: int, i: int, y: int)
    requires
        0 <= lo <= hi <= text.len(),
        0 <= i <= y <= hi - lo,
    ensures
        skip_start(text.subrange(lo, hi), i, y) == skip_start(text, lo + i, lo + y) - lo,
        i <= skip_start(text.subrange(lo, hi), i, y) <= y,
    decreases y - i,
{
    if i < y {
        assert(text.subrange(lo, hi)[i] == text[lo + i]);
        lemma_skip_start_shift(text, lo, hi, i + 1, y);
    }
}

proof fn lemma_skip_end_shift(text: Seq<char>, lo: int, hi: int, x: int, j: int)
    requires
        0 <= lo <= hi <= text.len(),
        0 <= x <= j <= hi - lo,
    ensures
        skip_end(text.subrange(lo, hi), x, j) == skip_end(text, lo + x, lo + j) - lo,
        x <= skip_end(text.subrange(lo, hi), x, j) <= j,
    decreases j - x,
{
    if j > x {
        assert(text.subrange(lo, hi)[j - 1] == text[lo + j - 1]);
        lemma_skip_end_shift(text, lo, hi, x, j - 1);
    }
}

/// The character of one decimal digit.
pub fn digit(d: u32) -> (c: char)
    requires
        d < 10,
    ensures
        c == digit_char(d as int),
{
    if d == 0 {
        '0'
    } else if d == 1 {
        '1'
    } else if d == 2 {
        '2'
    } else if d == 3 {
        '3'
    } else if d == 4 {
        '4'
    } else if d == 5 {
        '5'
    } else if d == 6 {
        '6'
    } else if d == 7 {
        '7'
    } else if d == 8 {
        '8'
    } else {
        '9'
    }
}

/// Appends the decimal digits of `m` to `out`.
pub fn push_nat_text(m: u32, out: &mut Vec<char>)
    ensures
        final(out)@ == old(out)@ + nat_text(m as nat),
    decreases m,
{
    if m < 10 {
        out.push(digit(m));
        assert(nat_text(m as nat) == seq![digit_char(m as int)]);
    } else {
        let ghost before = out@;
        push_nat_text(m / 10, out);
        out.push(digit(m % 10));
        assert(out@ =~= before + nat_text(m as nat));
    }
}

/// The decimal text of `n`.
pub fn int_chars(n: i32) -> (r: Vec<char>)
    ensures
        r@ == int_text(n as int),
{
    let mut r: Vec<char> = Vec::new();
    if n < 0 {
        r.push('-');
        let m: u32 = if n == i32::MIN {
            2147483648u32
        } else {
            (-n) as u32
        };
        push_nat_text(m, &mut r);
        assert(r@ =~= int_text(n as int));
    } else {
        push_nat_text(n as u32, &mut r);
        assert(r@ =~= int_text(n as int));
    }
    r
}

/// A string of digits only gains value as it grows.
pub proof fn lemma_digits_prefix_le(d: Seq<char>, k: int)
    requires
        all_digits(d),
        0 <= k <= d.len(),
    ensures
        0 <= digits_value(d.take(k)) <= digits_value(d),
    decreases d.len(),
{
    if d.len() > 0 {
        let p = d.drop_last();
        assert(all_digits(p)) by {
            assert forall|i: int| 0 <= i < p.len() implies is_digit(#[trigger] p[i]) by {
                assert(p[i] == d[i]);
            }
        }
        assert(is_digit(d[d.len() - 1]));
        if k < d.len() {
            assert(d.take(k) =~= p.take(k));
            lemma_digits_prefix_le(p, k);
        } else {
            assert(d.take(k) =~= d);
            lemma_digits_prefix_le(p, p.len() as int);
            assert(p.take(p.len() as int) =~= p);
        }
    }
}

/// The integer spelled by `text[a..b]`, if any.
pub fn parse_int_range(text: &Vec<char>, a: usize, b: usize) -> (r: Option<i32>)
    requires
        a <= b <= text@.len(),
    ensures
        r == parse_int(text@.subrange(a as int, b as int)),
{
    let ghost s = text@.subrange(a as int, b as int);
    if a == b {
        return None;
    }
    let c0 = text[a];
    let neg = c0 == '-';
    let start = if c0 == '-' || c0 == '+' {
        a + 1
    } else {
        a
    };
    let ghost d = text@.subrange(start as int, b as int);
    assert(s[0] == c0);
    assert(d =~= unsigned_part(s));
    if start == b {
        return None;
    }
    let mut v: i64 = 0;
    let mut i = start;
    while i < b
        invariant
            a <= start <= i <= b <= text@.len(),
            d == text@.subrange(start as int, b as int),
            s == text@.subrange(a as int, b as int),
            d == unsigned_part(s),
            s.len() > 0,
            neg == (s[0] == '-'),
            d.take(i - start) == text@.subrange(start as int, i as int),
            all_digits(text@.subrange(start as int, i as int)),
            v as int == digits_value(text@.subrange(start as int, i as int)),
            0 <= v <= 2147483648,
        decreases b - i,
    {
        let c = text[i];
        let ghost p = text@.subrange(start as int, i as int);
        let ghost q = text@.subrange(start as int, i as int + 1);
        assert(q.drop_last() =~= p);
        assert(q.last() == c);
        if !('0' <= c && c <= '9') {
            assert(d[i - start] == c);
            assert(!is_digit(d[i - start]));
            assert(!all_digits(d));
            return None;
        }
        let dv = (c as u32 - '0' as u32) as i64;
        let nv = v * 10 + dv;
        assert(all_digits(q)) by {
            assert forall|j: int| 0 <= j < q.len() implies is_digit(#[trigger] q[j]) by {
                if j < p.len() {
                    assert(q[j] == p[j]);
                }
            }
        }
        assert(nv as int == digits_value(q));
        if nv > 2147483648 {
            assert(d.take(i + 1 - start) =~= q);
            proof {
                if all_digits(d) {
                    lemma_digits_prefix_le(d, (i + 1 - start) as int);
                    assert(digits_value(d) > 2147483648);
                }
            }
            return None;
        }
        v = nv;
        i = i + 1;
        assert(d.take(i - start) =~= text@.subrange(start as int, i as int));
    }
    assert(text@.subrange(start as int, i as int) =~= d);
    if neg {
        Some((-v) as i32)
    } else if v > 2147483647 {
        None
    } else {
        Some(v as i32)
    }
}

} // verus!
