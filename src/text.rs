//! Text primitives of the structure-file grammar: trimming, digit runs, fixed-point
//! decimals and whitespace-separated tokens.
use vstd::prelude::*;

verus! {

/// The characters that `char::is_whitespace` accepts: Unicode `White_Space`.
pub open spec fn is_space(c: char) -> bool {
    ('\u{9}' <= c && c <= '\u{d}') || c == ' ' || c == '\u{85}' || c == '\u{a0}' || c == '\u{1680}'
        || ('\u{2000}' <= c && c <= '\u{200a}') || c == '\u{2028}' || c == '\u{2029}' || c == '\u{202f}'
        || c == '\u{205f}' || c == '\u{3000}'
}

pub open spec fn is_digit(c: char) -> bool {
    '0' <= c && c <= '9'
}

pub open spec fn digit_value(c: char) -> int {
    (c as u32) as int - 48
}

pub open spec fn all_digits(s: Seq<char>) -> bool {
    forall|i: int| 0 <= i < s.len() ==> is_digit(#[trigger] s[i])
}

/// The number that a run of decimal digits spells.
pub open spec fn digits_value(s: Seq<char>) -> int
    decreases s.len(),
{
    if s.len() == 0 {
        0
    } else {
        10 * digits_value(s.drop_last()) + digit_value(s.last())
    }
}

/// `s` without its leading and trailing whitespace.
pub open spec fn trim(s: Seq<char>) -> Seq<char>
    decreases s.len(),
{
    if s.len() > 0 && is_space(s[0]) {
        trim(s.drop_first())
    } else if s.len() > 0 && is_space(s.last()) {
        trim(s.drop_last())
    } else {
        s
    }
}

/// Removes leading and trailing whitespace.
pub fn trim_str(s: &str) -> (r: &str)
    ensures
        r@ == trim(s@),
{
    let mut cur: &str = s;
    let mut n = cur.unicode_len();
    while n > 0 && is_space_char(cur.get_char(0))
        invariant
            n == cur@.len(),
            trim(cur@) == trim(s@),
        decreases n,
    {
        let next = cur.substring_char(1, n);
        assert(next@ =~= cur@.drop_first());
        cur = next;
        n = n - 1;
    }
    while n > 0 && is_space_char(cur.get_char(n - 1))
        invariant
            n == cur@.len(),
            trim(cur@) == trim(s@),
            n > 0 ==> !is_space(cur@[0]),
        decreases n,
    {
        let next = cur.substring_char(0, n - 1);
        assert(next@ =~= cur@.drop_last());
        proof {
            if n > 1 {
                assert(next@[0] == cur@[0]);
            }
        }
        cur = next;
        n = n - 1;
    }
    cur
}

pub fn is_space_char(c: char) -> (r: bool)
    ensures
        r == is_space(c),
{
    ('\u{9}' <= c && c <= '\u{d}') || c == ' ' || c == '\u{85}' || c == '\u{a0}' || c == '\u{1680}'
        || ('\u{2000}' <= c && c <= '\u{200a}') || c == '\u{2028}' || c == '\u{2029}' || c == '\u{202f}'
        || c == '\u{205f}' || c == '\u{3000}'
}

/// Leading digits keep the value of a digit run at most as large as the whole run.
pub proof fn lemma_digits_prefix(s: Seq<char>, k: int)
    requires
        all_digits(s),
        0 <= k <= s.len(),
    ensures
        0 <= digits_value(s.subrange(0, k)) <= digits_value(s),
    decreases s.len(),
{
    if s.len() == 0 {
        assert(s.subrange(0, k) =~= s);
    } else if k == s.len() {
        assert(s.subrange(0, k) =~= s);
        lemma_digits_nonneg(s);
    } else {
        let t = s.drop_last();
        assert(all_digits(t)) by {
            assert forall|i: int| 0 <= i < t.len() implies is_digit(#[trigger] t[i]) by {
                assert(t[i] == s[i]);
            }
        }
        lemma_digits_prefix(t, k);
        lemma_digits_nonneg(t);
        assert(t.subrange(0, k) =~= s.subrange(0, k));
        assert(is_digit(s[s.len() - 1]));
    }
}

pub proof fn lemma_digits_nonneg(s: Seq<char>)
    requires
        all_digits(s),
    ensures
        digits_value(s) >= 0,
    decreases s.len(),
{
    if s.len() > 0 {
        let t = s.drop_last();
        assert forall|i: int| 0 <= i < t.len() implies is_digit(#[trigger] t[i]) by {
            assert(t[i] == s[i]);
        }
        lemma_digits_nonneg(t);
        assert(is_digit(s[s.len() - 1]));
    }
}

/// The largest digit-run value that `parse_digits` accumulates.
pub const DIGITS_CAP: u128 = 0x10_0000_0000_0000_0000_0000_0000;

/// Reads a run of decimal digits. `None` if a character is not a digit, or if the value
/// exceeds `DIGITS_CAP`.
pub fn parse_digits(s: &str) -> (r: Option<u128>)
    ensures
        match r {
            Some(v) => all_digits(s@) && v == digits_value(s@) && v <= DIGITS_CAP,
            None => !all_digits(s@) || digits_value(s@) > DIGITS_CAP,
        },
{
    let n = s.unicode_len();
    let mut v: u128 = 0;
    let mut i: usize = 0;
    while i < n
        invariant
            n == s@.len(),
            i <= n,
            all_digits(s@.subrange(0, i as int)),
            v == digits_value(s@.subrange(0, i as int)),
            v <= DIGITS_CAP,
        decreases n - i,
    {
        let c = s.get_char(i);
        let ghost t = s@.subrange(0, i + 1);
        proof {
            assert(t.drop_last() =~= s@.subrange(0, i as int));
            assert(t.last() == c);
        }
        if !('0' <= c && c <= '9') {
            proof {
                assert(!is_digit(s@[i as int]));
            }
            return None;
        }
        let d: u128 = (c as u32 - 48) as u128;
        let next: u128 = 10 * v + d;
        proof {
            assert forall|j: int| 0 <= j < t.len() implies is_digit(#[trigger] t[j]) by {
                if j < i {
                    assert(t[j] == s@.subrange(0, i as int)[j]);
                }
            }
        }
        if next > DIGITS_CAP {
            proof {
                if all_digits(s@) {
                    lemma_digits_prefix(s@, i + 1);
                }
            }
            return None;
        }
        v = next;
        i = i + 1;
    }
    assert(s@.subrange(0, n as int) =~= s@);
    Some(v)
}

/// `p` is the position of the first `c` in `s`.
pub open spec fn is_first(s: Seq<char>, c: char, p: int) -> bool {
    &&& 0 <= p < s.len()
    &&& s[p] == c
    &&& forall|j: int| 0 <= j < p ==> s[j] != c
}

/// Finds the first occurrence of a character.
pub fn find_char(s: &str, c: char) -> (r: Option<usize>)
    ensures
        match r {
            Some(i) => is_first(s@, c, i as int),
            None => forall|j: int| 0 <= j < s@.len() ==> s@[j] != c,
        },
{
    let n = s.unicode_len();
    let mut i: usize = 0;
    while i < n
        invariant
            n == s@.len(),
            i <= n,
            forall|j: int| 0 <= j < i ==> s@[j] != c,
        decreases n - i,
    {
        if s.get_char(i) == c {
            return Some(i);
        }
        i = i + 1;
    }
    None
}

/// `10^n` for `n >= 0`.
pub open spec fn pow10(n: int) -> int
    decreases n,
{
    if n <= 0 {
        1
    } else {
        10 * pow10(n - 1)
    }
}

pub proof fn lemma_pow10_grows(n: int, m: int)
    requires
        0 <= m <= n,
    ensures
        1 <= pow10(m) <= pow10(n),
    decreases n,
{
    if n > m {
        lemma_pow10_grows(n - 1, m);
    } else if m > 0 {
        lemma_pow10_grows(m - 1, m - 1);
    }
}

/// A magnitude bound far beyond any `i32` coordinate: 2^40 steps.
pub const STEPS_CAP: u128 = 0x100_0000_0000;

/// `d * 10^n` exceeds `STEPS_CAP` once `d >= 1` and `n >= 14`.
proof fn lemma_far_exceeds(d: int, n: int)
    requires
        d >= 1,
        n >= 14,
    ensures
        d * pow10(n) > STEPS_CAP,
{
    reveal_with_fuel(pow10, 15);
    lemma_pow10_grows(n, 14);
    let p = pow10(n);
    assert(d * p >= p) by (nonlinear_arith)
        requires
            d >= 1,
            p >= 1,
    ;
}

pub open spec fn is_exp_mark(c: char) -> bool {
    c == 'e' || c == 'E'
}

/// `p` is the position of the first exponent mark in `s`.
pub open spec fn is_first_exp(s: Seq<char>, p: int) -> bool {
    &&& 0 <= p < s.len()
    &&& is_exp_mark(s[p])
    &&& forall|j: int| 0 <= j < p ==> !is_exp_mark(s[j])
}

/// An integer with an optional `+` or `-` and at least one digit.
pub open spec fn signed_value(s: Seq<char>) -> Option<int> {
    let neg = s.len() > 0 && s[0] == '-';
    let b = if s.len() > 0 && (s[0] == '+' || s[0] == '-') {
        s.drop_first()
    } else {
        s
    };
    if b.len() > 0 && all_digits(b) {
        Some(
            if neg {
                -digits_value(b)
            } else {
                digits_value(b)
            },
        )
    } else {
        None
    }
}

/// The digits of a mantissa `ddd`, `ddd.fff`, `.fff` or `ddd.`, and how many of them
/// stand before the point.
pub open spec fn mantissa_parts(m: Seq<char>) -> Option<(Seq<char>, int)> {
    if exists|p: int| is_first(m, '.', p) {
        let p = choose|p: int| is_first(m, '.', p);
        let ip = m.subrange(0, p);
        let fp = m.subrange(p + 1, m.len() as int);
        if all_digits(ip) && all_digits(fp) && ip.len() + fp.len() > 0 {
            Some((ip + fp, p))
        } else {
            None
        }
    } else if m.len() > 0 && all_digits(m) {
        Some((m, m.len() as int))
    } else {
        None
    }
}

/// The digits of an unsigned decimal with an optional exponent (`e` or `E`, then a
/// signed integer), and the position of the decimal point among them once the
/// exponent is applied.
pub open spec fn decimal_parts(b: Seq<char>) -> Option<(Seq<char>, int)> {
    if exists|x: int| is_first_exp(b, x) {
        let x = choose|x: int| is_first_exp(b, x);
        match (mantissa_parts(b.subrange(0, x)), signed_value(b.subrange(x + 1, b.len() as int))) {
            (Some(m), Some(e)) => Some((m.0, m.1 + e)),
            _ => None,
        }
    } else {
        mantissa_parts(b)
    }
}

/// 1 where the digit at position `c` of `d` is 5 or more, else 0.
pub open spec fn round_up_at(d: Seq<char>, c: int) -> int {
    if 0 <= c < d.len() && digit_value(d[c]) >= 5 {
        1
    } else {
        0
    }
}

/// The digits `d` read as an integer that ends before position `c` (zero-padded past the
/// end of `d`), rounded half up on the digit at position `c`.
pub open spec fn rounded_at(d: Seq<char>, c: int) -> int {
    let whole = if c <= 0 {
        0
    } else if c <= d.len() {
        digits_value(d.subrange(0, c))
    } else {
        digits_value(d) * pow10(c - d.len())
    };
    whole + round_up_at(d, c)
}

/// A decimal with an optional `+` or `-` sign and an optional exponent, in fixed-point
/// steps of 1/10000, rounded half away from zero, if it fits an `i32`.
pub open spec fn fixed_of(t: Seq<char>) -> Option<i32> {
    let neg = t.len() > 0 && t[0] == '-';
    let b = if t.len() > 0 && (t[0] == '-' || t[0] == '+') {
        t.drop_first()
    } else {
        t
    };
    match decimal_parts(b) {
        Some(parts) => {
            let m = rounded_at(parts.0, parts.1 + 4);
            let x = if neg {
                -m
            } else {
                m
            };
            if i32::MIN <= x <= i32::MAX {
                Some(x as i32)
            } else {
                None
            }
        },
        None => None,
    }
}

/// Far past the last digit, a digit string rounds to 0 if all its digits are 0, and
/// beyond `STEPS_CAP` otherwise.
proof fn lemma_far_right(d: Seq<char>, c1: int, c2: int)
    requires
        all_digits(d),
        c1 >= d.len() + 14,
        c2 >= d.len() + 14,
    ensures
        (rounded_at(d, c1) == 0 && rounded_at(d, c2) == 0) || (rounded_at(d, c1) > STEPS_CAP && rounded_at(d, c2)
            > STEPS_CAP),
{
    lemma_digits_nonneg(d);
    if digits_value(d) > 0 {
        lemma_far_exceeds(digits_value(d), c1 - d.len());
        lemma_far_exceeds(digits_value(d), c2 - d.len());
    }
}

/// Whether every character is a decimal digit.
pub fn digits_only(s: &str) -> (r: bool)
    ensures
        r == all_digits(s@),
{
    let n = s.unicode_len();
    let mut i: usize = 0;
    while i < n
        invariant
            n == s@.len(),
            i <= n,
            forall|j: int| 0 <= j < i ==> is_digit(#[trigger] s@[j]),
        decreases n - i,
    {
        let c = s.get_char(i);
        if !('0' <= c && c <= '9') {
            return false;
        }
        i = i + 1;
    }
    true
}

fn find_exp_mark(s: &str) -> (r: Option<usize>)
    ensures
        match r {
            Some(i) => is_first_exp(s@, i as int),
            None => forall|j: int| 0 <= j < s@.len() ==> !is_exp_mark(#[trigger] s@[j]),
        },
{
    let n = s.unicode_len();
    let mut i: usize = 0;
    while i < n
        invariant
            n == s@.len(),
            i <= n,
            forall|j: int| 0 <= j < i ==> !is_exp_mark(#[trigger] s@[j]),
        decreases n - i,
    {
        let c = s.get_char(i);
        if c == 'e' || c == 'E' {
            return Some(i);
        }
        i = i + 1;
    }
    None
}

/// Reads a mantissa into its digits and the count of digits before the point.
fn parse_mantissa(m: &str) -> (r: Option<(String, usize)>)
    ensures
        match r {
            Some(x) => mantissa_parts(m@) == Some((x.0@, x.1 as int)) && all_digits(x.0@),
            None => mantissa_parts(m@) is None,
        },
{
    let n = m.unicode_len();
    match find_char(m, '.') {
        Some(p) => {
            proof {
                let c = choose|c: int| is_first(m@, '.', c);
                assert(c == p as int) by {
                    if c < p as int {
                        assert(m@[c] != '.');
                    } else if c > p as int {
                        assert(m@[p as int] != '.');
                    }
                }
            }
            let ip = m.substring_char(0, p);
            let fp = m.substring_char(p + 1, n);
            if n > 1 && digits_only(ip) && digits_only(fp) {
                let d = String::from_str(ip).concat(fp);
                assert forall|j: int| 0 <= j < d@.len() implies is_digit(#[trigger] d@[j]) by {
                    if j < ip@.len() {
                        assert(d@[j] == ip@[j]);
                    } else {
                        assert(d@[j] == fp@[j - ip@.len()]);
                    }
                }
                Some((d, p))
            } else {
                None
            }
        },
        None => {
            if n > 0 && digits_only(m) {
                Some((String::from_str(m), n))
            } else {
                None
            }
        },
    }
}

/// Reads a signed exponent; a magnitude beyond `DIGITS_CAP` is clamped to it.
fn parse_exponent(s: &str) -> (r: Option<i128>)
    ensures
        match r {
            Some(e) => -DIGITS_CAP <= e <= DIGITS_CAP && signed_value(s@) is Some && {
                let v = signed_value(s@)->0;
                v == e || (e == DIGITS_CAP && v > DIGITS_CAP) || (e == -DIGITS_CAP && v < -DIGITS_CAP)
            },
            None => signed_value(s@) is None,
        },
{
    let n = s.unicode_len();
    if n == 0 {
        return None;
    }
    let c0 = s.get_char(0);
    let neg = c0 == '-';
    let b = if c0 == '+' || c0 == '-' {
        s.substring_char(1, n)
    } else {
        s
    };
    assert((c0 == '+' || c0 == '-') ==> b@ =~= s@.drop_first());
    if b.unicode_len() == 0 || !digits_only(b) {
        return None;
    }
    let v: i128 = match parse_digits(b) {
        Some(v) => v as i128,
        None => DIGITS_CAP as i128,
    };
    if neg {
        Some(-v)
    } else {
        Some(v)
    }
}

/// Reads an unsigned decimal into its digits and the position of its point; a point
/// position pushed beyond reach by a huge exponent is clamped.
fn parse_decimal(b: &str) -> (r: Option<(String, i128)>)
    ensures
        match r {
            Some(x) => decimal_parts(b@) is Some && all_digits(x.0@) && -DIGITS_CAP <= x.1 <= usize::MAX
                + DIGITS_CAP && {
                let parts = decimal_parts(b@)->0;
                &&& parts.0 == x.0@
                &&& (parts.1 == x.1 || (x.1 >= DIGITS_CAP && parts.1 > x.1) || (x.1 <= usize::MAX
                    - DIGITS_CAP && parts.1 < x.1))
            },
            None => decimal_parts(b@) is None,
        },
{
    let n = b.unicode_len();
    match find_exp_mark(b) {
        Some(x) => {
            proof {
                let c = choose|c: int| is_first_exp(b@, c);
                assert(c == x as int) by {
                    if c < x as int {
                        assert(!is_exp_mark(b@[c]));
                    } else if c > x as int {
                        assert(!is_exp_mark(b@[x as int]));
                    }
                }
            }
            let m = b.substring_char(0, x);
            let e = b.substring_char(x + 1, n);
            match (parse_mantissa(m), parse_exponent(e)) {
                (Some((d, p)), Some(ev)) => Some((d, p as i128 + ev)),
                _ => None,
            }
        },
        None => {
            match parse_mantissa(b) {
                Some((d, p)) => Some((d, p as i128)),
                None => None,
            }
        },
    }
}

/// Computes `rounded_at(d, c)`; `None` where it exceeds `STEPS_CAP`.
fn rounded_steps(d: &str, c: i128) -> (r: Option<u128>)
    requires
        all_digits(d@),
    ensures
        match r {
            Some(v) => v == rounded_at(d@, c as int),
            None => rounded_at(d@, c as int) > STEPS_CAP,
        },
{
    let k = d.unicode_len();
    let up: u128 = if 0 <= c && c < k as i128 {
        let ch = d.get_char(c as usize);
        if ch >= '5' {
            1
        } else {
            0
        }
    } else {
        0
    };
    proof {
        lemma_digits_nonneg(d@);
    }
    if c <= 0 {
        return Some(up);
    }
    if c <= k as i128 {
        let head = d.substring_char(0, c as usize);
        assert(all_digits(head@)) by {
            assert forall|j: int| 0 <= j < head@.len() implies is_digit(#[trigger] head@[j]) by {
                assert(head@[j] == d@[j]);
            }
        }
        return match parse_digits(head) {
            Some(w) => Some(w + up),
            None => None,
        };
    }
    let base = match parse_digits(d) {
        Some(v) => v,
        None => {
            proof {
                lemma_pow10_grows(c - k, 0);
                let p = pow10(c - k);
                let dv = digits_value(d@);
                assert(dv * p >= dv) by (nonlinear_arith)
                    requires
                        dv >= 0,
                        p >= 1,
                ;
            }
            return None;
        },
    };
    if base == 0 {
        assert(0 * pow10(c - k) == 0);
        return Some(0);
    }
    if c - k as i128 > 13 {
        proof {
            lemma_far_exceeds(base as int, c - k);
        }
        return None;
    }
    if base > STEPS_CAP {
        proof {
            lemma_pow10_grows(c - k, 0);
            let p = pow10(c - k);
            assert(base * p >= base) by (nonlinear_arith)
                requires
                    base >= 0,
                    p >= 1,
            ;
        }
        return None;
    }
    let shift: i128 = c - k as i128;
    let mut pw: u128 = 1;
    let mut i: i128 = 0;
    proof {
        reveal_with_fuel(pow10, 14);
    }
    while i < shift
        invariant
            0 <= i <= shift <= 13,
            pw == pow10(i as int),
            pow10(13) == 10_000_000_000_000,
        decreases shift - i,
    {
        proof {
            lemma_pow10_grows(13, i + 1);
        }
        pw = pw * 10;
        i = i + 1;
    }
    proof {
        lemma_pow10_grows(13, shift as int);
    }
    assert(base * pw <= 0x100_0000_0000 * 10_000_000_000_000) by (nonlinear_arith)
        requires
            base <= 0x100_0000_0000,
            pw <= 10_000_000_000_000,
    ;
    Some(base * pw)
}

/// Reads a field such as `  -12.345 `, `+1.5` or `1e2` into fixed-point steps.
pub fn parse_fixed(field: &str) -> (r: Option<i32>)
    ensures
        r == fixed_of(trim(field@)),
{
    let t = trim_str(field);
    let n = t.unicode_len();
    if n == 0 {
        assert(!exists|p: int| is_first(t@, '.', p));
        assert(!exists|x: int| is_first_exp(t@, x));
        return None;
    }
    let c0 = t.get_char(0);
    let neg = c0 == '-';
    let b = if c0 == '-' || c0 == '+' {
        t.substring_char(1, n)
    } else {
        t
    };
    assert((c0 == '-' || c0 == '+') ==> b@ =~= t@.drop_first());
    match parse_decimal(b) {
        Some((d, c)) => {
            let k = d.as_str().unicode_len();
            let m = rounded_steps(d.as_str(), c + 4);
            proof {
                let parts = decimal_parts(b@)->0;
                if parts.1 != c as int {
                    if c >= DIGITS_CAP {
                        lemma_far_right(d@, c + 4, parts.1 + 4);
                    }
                }
            }
            match m {
                Some(m) => {
                    if m > 0x8000_0000 {
                        return None;
                    }
                    let x: i64 = if neg {
                        -(m as i64)
                    } else {
                        m as i64
                    };
                    if x < i32::MIN as i64 || x > i32::MAX as i64 {
                        None
                    } else {
                        Some(x as i32)
                    }
                },
                None => None,
            }
        },
        None => None,
    }
}

/// Splits at whitespace, the standard way: `cur` is the token being read, `acc` the
/// tokens read so far.
pub open spec fn split_from(s: Seq<char>, cur: Seq<char>, acc: Seq<Seq<char>>) -> Seq<Seq<char>>
    decreases s.len(),
{
    let done = if cur.len() > 0 {
        acc.push(cur)
    } else {
        acc
    };
    if s.len() == 0 {
        done
    } else if is_space(s[0]) {
        split_from(s.drop_first(), Seq::empty(), done)
    } else {
        split_from(s.drop_first(), cur.push(s[0]), acc)
    }
}

/// The whitespace-separated tokens of `s`.
pub open spec fn tokens(s: Seq<char>) -> Seq<Seq<char>> {
    split_from(s, Seq::empty(), Seq::empty())
}

/// Splits a line into its whitespace-separated tokens.
pub fn split_tokens(s: &str) -> (r: Vec<String>)
    ensures
        r@.len() == tokens(s@).len(),
        forall|k: int| 0 <= k < r@.len() ==> (#[trigger] r@[k])@ == tokens(s@)[k],
{
    let n = s.unicode_len();
    let mut out: Vec<String> = Vec::new();
    let ghost mut acc: Seq<Seq<char>> = Seq::empty();
    let mut start: usize = 0;
    let mut i: usize = 0;
    assert(s@.subrange(0, n as int) =~= s@);
    assert(s@.subrange(0, 0) =~= Seq::<char>::empty());
    while i < n
        invariant
            n == s@.len(),
            start <= i <= n,
            out@.len() == acc.len(),
            forall|k: int| 0 <= k < out@.len() ==> (#[trigger] out@[k])@ == acc[k],
            tokens(s@) == split_from(s@.subrange(i as int, n as int), s@.subrange(start as int, i as int), acc),
        decreases n - i,
    {
        let c = s.get_char(i);
        let ghost rest = s@.subrange(i as int, n as int);
        assert(rest[0] == c);
        assert(rest.drop_first() =~= s@.subrange(i + 1, n as int));
        if is_space_char(c) {
            if start < i {
                let tok = String::from_str(s.substring_char(start, i));
                proof {
                    acc = acc.push(s@.subrange(start as int, i as int));
                }
                out.push(tok);
            }
            assert(s@.subrange(i + 1, i + 1).len() == 0);
            assert(s@.subrange(i + 1, i + 1) =~= Seq::<char>::empty());
            start = i + 1;
        } else {
            assert(s@.subrange(start as int, i as int).push(c) =~= s@.subrange(start as int, i + 1));
        }
        i = i + 1;
    }
    if start < n {
        let tok = String::from_str(s.substring_char(start, n));
        proof {
            acc = acc.push(s@.subrange(start as int, n as int));
        }
        out.push(tok);
    }
    out
}

/// A one-based serial number, with an optional `+`, as a zero-based index.
pub open spec fn index_of(tok: Seq<char>) -> Option<usize> {
    let b = if tok.len() > 0 && tok[0] == '+' {
        tok.drop_first()
    } else {
        tok
    };
    if b.len() > 0 && all_digits(b) && 1 <= digits_value(b) <= usize::MAX + 1 {
        Some((digits_value(b) - 1) as usize)
    } else {
        None
    }
}

/// Reads a one-based serial number as a zero-based index.
pub fn parse_index(tok: &str) -> (r: Option<usize>)
    ensures
        r == index_of(tok@),
{
    let n = tok.unicode_len();
    if n == 0 {
        return None;
    }
    let b = if tok.get_char(0) == '+' {
        tok.substring_char(1, n)
    } else {
        tok
    };
    assert(tok@[0] == '+' ==> b@ =~= tok@.drop_first());
    if b.unicode_len() == 0 {
        return None;
    }
    match parse_digits(b) {
        Some(v) => {
            if v == 0 || v - 1 > usize::MAX as u128 {
                None
            } else {
                Some((v - 1) as usize)
            }
        },
        None => None,
    }
}

} // verus!
