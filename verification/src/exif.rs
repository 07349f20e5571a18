//! How exposure values read on screen.

use vstd::prelude::*;

use crate::loupe::{tenths_text, trim_number};
use crate::text::{decimal, decimal_chars, from_chars, push_text, to_chars};

verus! {

/// Two to the power of 52: significands of double-precision numbers are no
/// smaller.
pub const SIGNIFICAND_MIN: u128 = 4503599627370496;

/// A fraction `p / unit` with both sides doubled until `p` is at least
/// `SIGNIFICAND_MIN` times `q`.
pub open spec fn enlarged(p: nat, unit: nat, q: nat) -> (nat, nat)
    decreases
            (if p < SIGNIFICAND_MIN * q {
                SIGNIFICAND_MIN * q - p
            } else {
                0
            }),
{
    if p == 0 || p >= SIGNIFICAND_MIN * q {
        (p, unit)
    } else {
        enlarged(2 * p, 2 * unit, q)
    }
}

/// The integer nearest to `a / q`; the even one of two.
pub open spec fn nearest_even(a: nat, q: nat) -> nat {
    let below = a / q;
    let rest = a % q;
    if 2 * rest < q || 2 * rest == q && below % 2 == 0 {
        below
    } else {
        below + 1
    }
}

/// `p / q` as double-precision division gives it, for quotients less than
/// two to the power of 53: a significand and the unit to divide it by.
pub open spec fn quotient(p: nat, q: nat) -> (nat, nat) {
    let (a, unit) = enlarged(p, 1, q);
    (nearest_even(a, q), unit)
}

/// One by `n / d`, both divisions in double precision, to the nearest
/// integer; the larger one of two.
pub open spec fn reciprocal(n: nat, d: nat) -> nat {
    let (seconds, unit) = quotient(n, d);
    let (inverse, fine) = quotient(unit, seconds);
    (2 * inverse + fine) / (2 * fine)
}

/// `n / d` in tenths, to the nearest; the larger one of two.
pub open spec fn tenths_of(n: nat, d: nat) -> nat {
    (20 * n + d) / (2 * d)
}

/// A shutter speed of `n / d` seconds in words: from one second on in seconds
/// and tenths, below as a reciprocal.
pub open spec fn shutter_words(n: nat, d: nat) -> Seq<char> {
    if n >= d {
        tenths_text(tenths_of(n, d)) + " s"@
    } else {
        "1/"@ + decimal(
            if reciprocal(n, d) < 1 {
                1
            } else {
                reciprocal(n, d)
            },
        ) + " s"@
    }
}

/// Character of Unicode's `White_Space` property.
pub open spec fn is_space(c: char) -> bool {
    let v = c as u32;
    ||| 0x9 <= v <= 0xd
    ||| v == 0x20
    ||| v == 0x85
    ||| v == 0xa0
    ||| v == 0x1680
    ||| 0x2000 <= v <= 0x200a
    ||| v == 0x2028
    ||| v == 0x2029
    ||| v == 0x202f
    ||| v == 0x205f
    ||| v == 0x3000
}

/// Whether a character is white space.
pub fn char_is_space(c: char) -> (r: bool)
    ensures
        r == is_space(c),
{
    let v: u32 = c as u32;
    (0x9 <= v && v <= 0xd) || v == 0x20 || v == 0x85 || v == 0xa0 || v == 0x1680 || (0x2000 <= v && v <= 0x200a) || v
        == 0x2028 || v == 0x2029 || v == 0x202f || v == 0x205f || v == 0x3000
}

/// A text without the white space at its start.
pub open spec fn trimmed_start(s: Seq<char>) -> Seq<char>
    decreases s.len(),
{
    if s.len() > 0 && is_space(s[0]) {
        trimmed_start(s.drop_first())
    } else {
        s
    }
}

/// A text without the white space at its end.
pub open spec fn trimmed_end(s: Seq<char>) -> Seq<char>
    decreases s.len(),
{
    if s.len() > 0 && is_space(s.last()) {
        trimmed_end(s.drop_last())
    } else {
        s
    }
}

/// A text without the white space around it.
pub open spec fn trimmed(s: Seq<char>) -> Seq<char> {
    trimmed_end(trimmed_start(s))
}

/// Takes the white space around a text away.
pub fn trim(text: &str) -> (chars: Vec<char>)
    ensures
        chars@ == trimmed(text@),
{
    let all: Vec<char> = to_chars(text);
    let mut from: usize = 0;
    proof {
        assert(all@.skip(0) =~= all@);
    }
    while from < all.len() && char_is_space(all[from])
        invariant
            from <= all.len(),
            trimmed_start(all@) == trimmed_start(all@.skip(from as int)),
        decreases all.len() - from,
    {
        proof {
            assert(all@.skip(from as int).drop_first() =~= all@.skip(from + 1));
        }
        from = from + 1;
    }
    let ghost rest = all@.skip(from as int);
    let mut to: usize = all.len();
    proof {
        assert(all@.subrange(from as int, to as int) =~= rest);
    }
    while to > from && char_is_space(all[to - 1])
        invariant
            from <= to <= all.len(),
            trimmed_end(rest) == trimmed_end(all@.subrange(from as int, to as int)),
        decreases to,
    {
        proof {
            assert(all@.subrange(from as int, to as int).drop_last() =~= all@.subrange(from as int, to - 1));
        }
        to = to - 1;
    }
    let mut out: Vec<char> = Vec::new();
    let mut i: usize = from;
    while i < to
        invariant
            from <= i <= to <= all.len(),
            out@ == all@.subrange(from as int, i as int),
        decreases to - i,
    {
        out.push(all[i]);
        i = i + 1;
        proof {
            assert(out@ =~= all@.subrange(from as int, i as int));
        }
    }
    out
}

/// A decimal digit.
pub open spec fn is_digit(c: char) -> bool {
    '0' <= c <= '9'
}

/// A text that starts like an EXIF date: `2024:05:01`.
pub open spec fn starts_with_date(s: Seq<char>) -> bool {
    &&& s.len() >= 10
    &&& is_digit(s[0]) && is_digit(s[1]) && is_digit(s[2]) && is_digit(s[3])
    &&& s[4] == ':'
    &&& is_digit(s[5]) && is_digit(s[6])
    &&& s[7] == ':'
    &&& is_digit(s[8]) && is_digit(s[9])
}

/// How a capture time reads: trimmed, and with dashes in an EXIF date.
pub open spec fn capture_time(raw: Seq<char>) -> Seq<char> {
    let s = trimmed(raw);
    if starts_with_date(s) {
        s.update(4, '-').update(7, '-')
    } else {
        s
    }
}

/// `shown` is the text that `raw` is with white space around it, with dashes
/// in place of the colons of a date `NNNN:NN:NN` at its start; all else stays.
pub open spec fn dashes_the_date(raw: Seq<char>, shown: Seq<char>) -> bool {
    exists|from: int|
        {
            &&& 0 <= from <= from + shown.len() <= raw.len()
            &&& #[trigger] blank_but(raw, from, from + shown.len())
            &&& shown.len() > 0 ==> !is_space(raw[from]) && !is_space(raw[from + shown.len() - 1])
            &&& forall|k: int|
                0 <= k < shown.len() ==> #[trigger] shown[k] == (if (k == 4 || k == 7) && dated(raw, from, shown.len() as int) {
                    '-'
                } else {
                    raw[from + k]
                })
        }
}

/// A text is blank outside of a range.
pub open spec fn blank_but(raw: Seq<char>, from: int, to: int) -> bool {
    &&& forall|k: int| 0 <= k < from ==> is_space(#[trigger] raw[k])
    &&& forall|k: int| to <= k < raw.len() ==> is_space(#[trigger] raw[k])
}

/// A date `NNNN:NN:NN` starts at a position of a text, and fits into `len`
/// characters.
pub open spec fn dated(raw: Seq<char>, from: int, len: int) -> bool {
    &&& len >= 10
    &&& forall|k: int|
        0 <= k < 10 ==> if k == 4 || k == 7 {
            #[trigger] raw[from + k] == ':'
        } else {
            '0' <= raw[from + k] <= '9'
        }
}

/// Trimming takes the white space at both ends away and nothing else.
pub proof fn trimming_takes_the_ends(text: Seq<char>) -> (from: int)
    ensures
        0 <= from <= from + trimmed(text).len() <= text.len(),
        blank_but(text, from, from + trimmed(text).len()),
        trimmed(text) == text.subrange(from, from + trimmed(text).len()),
        trimmed(text).len() > 0 ==> !is_space(trimmed(text)[0]) && !is_space(trimmed(text).last()),
{
    let from = lemma_trimmed_start(text);
    let rest = trimmed_start(text);
    lemma_trimmed_end(rest);
    let kept = trimmed(text);
    assert(rest == text.skip(from));
    assert(kept =~= text.subrange(from, from + kept.len()));
    assert forall|k: int| from + kept.len() <= k < text.len() implies is_space(#[trigger] text[k]) by {
        assert(rest[k - from] == text[k]);
    }
    if kept.len() > 0 {
        assert(kept[0] == rest[0]);
    }
    from
}

proof fn lemma_trimmed_start(text: Seq<char>) -> (from: int)
    ensures
        0 <= from <= text.len(),
        trimmed_start(text) == text.skip(from),
        forall|k: int| 0 <= k < from ==> is_space(#[trigger] text[k]),
        from < text.len() ==> !is_space(text[from]),
    decreases text.len(),
{
    if text.len() > 0 && is_space(text[0]) {
        let rest = text.drop_first();
        let from = lemma_trimmed_start(rest);
        assert(rest.skip(from) =~= text.skip(from + 1));
        assert forall|k: int| 0 <= k < from + 1 implies is_space(#[trigger] text[k]) by {
            if k > 0 {
                assert(rest[k - 1] == text[k]);
            }
        }
        if from < rest.len() {
            assert(rest[from] == text[from + 1]);
        }
        from + 1
    } else {
        assert(text.skip(0) =~= text);
        0
    }
}

proof fn lemma_trimmed_end(text: Seq<char>)
    ensures
        trimmed_end(text).len() <= text.len(),
        trimmed_end(text) == text.take(trimmed_end(text).len() as int),
        forall|k: int| trimmed_end(text).len() <= k < text.len() ==> is_space(#[trigger] text[k]),
        trimmed_end(text).len() > 0 ==> !is_space(trimmed_end(text).last()),
    decreases text.len(),
{
    if text.len() > 0 && is_space(text.last()) {
        let head = text.drop_last();
        lemma_trimmed_end(head);
        let n = trimmed_end(text).len() as int;
        assert(head.take(n) =~= text.take(n));
        assert forall|k: int| n <= k < text.len() implies is_space(#[trigger] text[k]) by {
            if k < head.len() {
                assert(head[k] == text[k]);
            }
        }
    } else {
        assert(text.take(text.len() as int) =~= text);
    }
}

/// A capture time is shown trimmed, with dashes in its date if it starts with
/// one.
pub proof fn capture_times_are_trimmed(raw: Seq<char>)
    ensures
        dashes_the_date(raw, capture_time(raw)),
{
    let from = trimming_takes_the_ends(raw);
    let s = trimmed(raw);
    let shown = capture_time(raw);
    assert(shown.len() == s.len());
    assert forall|k: int| 0 <= k < s.len() implies #[trigger] s[k] == raw[from + k] by {}
    if starts_with_date(s) {
        assert forall|k: int| 0 <= k < 10 implies if k == 4 || k == 7 {
            #[trigger] raw[from + k] == ':'
        } else {
            '0' <= raw[from + k] <= '9'
        } by {
            assert(s[k] == raw[from + k]);
        }
        assert(dated(raw, from, s.len() as int));
    } else if dated(raw, from, s.len() as int) {
        assert forall|k: int| 0 <= k < 10 implies if k == 4 || k == 7 {
            #[trigger] s[k] == ':'
        } else {
            '0' <= s[k] <= '9'
        } by {
            assert(s[k] == raw[from + k]);
        }
        assert(starts_with_date(s)) by {
            assert(s[0] == raw[from + 0] && s[1] == raw[from + 1] && s[2] == raw[from + 2] && s[3] == raw[from + 3]);
            assert(s[4] == raw[from + 4] && s[5] == raw[from + 5] && s[6] == raw[from + 6] && s[7] == raw[from + 7]);
            assert(s[8] == raw[from + 8] && s[9] == raw[from + 9]);
        }
    }
    assert(blank_but(raw, from, from + shown.len()));
    if shown.len() > 0 {
        assert(s[0] == raw[from + 0]);
        assert(s[s.len() - 1] == raw[from + s.len() - 1]);
    }
    assert forall|k: int| 0 <= k < shown.len() implies #[trigger] shown[k] == (if (k == 4 || k == 7) && dated(
        raw,
        from,
        shown.len() as int,
    ) {
        '-'
    } else {
        raw[from + k]
    }) by {
        assert(s[k] == raw[from + k]);
    }
}

fn char_is_digit(c: char) -> (r: bool)
    ensures
        r == is_digit(c),
{
    '0' <= c && c <= '9'
}

/// Writes a capture time for display. What does not look like an EXIF date is
/// only trimmed.
pub fn format_capture_time(raw: &str) -> (text: String)
    ensures
        text@ == capture_time(raw@),
{
    let mut s: Vec<char> = trim(raw);
    if s.len() >= 10 && char_is_digit(s[0]) && char_is_digit(s[1]) && char_is_digit(s[2]) && char_is_digit(s[3]) && s[4]
        == ':' && char_is_digit(s[5]) && char_is_digit(s[6]) && s[7] == ':' && char_is_digit(s[8]) && char_is_digit(
        s[9],
    ) {
        s.set(4, '-');
        s.set(7, '-');
    }
    from_chars(&s)
}

fn enlarge(p: u128, q: u128) -> (r: (u128, u128))
    requires
        0 < p <= 0x1_0000_0000_0000_0000_0000_0000,
        0 < q <= 0x40_0000_0000_0000,
    ensures
        (r.0 as nat, r.1 as nat) == enlarged(p as nat, 1, q as nat),
        r.0 <= 0x1_0000_0000_0000_0000_0000_0000_0000,
        r.0 >= SIGNIFICAND_MIN * q,
        r.1 > 0,
        r.0 == p * r.1,
        r.0 == p || r.0 < 2 * (SIGNIFICAND_MIN * q),
{
    let goal: u128 = SIGNIFICAND_MIN * q;
    let mut a: u128 = p;
    let mut unit: u128 = 1;
    while a < goal
        invariant
            0 < p,
            0 < q <= 0x40_0000_0000_0000,
            goal == SIGNIFICAND_MIN * q,
            p <= a,
            a == p * unit,
            unit > 0,
            a == p || a < 2 * goal,
            p <= 0x1_0000_0000_0000_0000_0000_0000,
            enlarged(p as nat, 1, q as nat) == enlarged(a as nat, unit as nat, q as nat),
        decreases
                (if a < goal {
                    goal - a
                } else {
                    0
                }),
    {
        proof {
            assert(unit <= a) by (nonlinear_arith)
                requires
                    a == p * unit,
                    0 < p,
                    unit > 0,
            ;
            assert(p * (2 * unit) == 2 * (p * unit)) by (nonlinear_arith);
        }
        a = 2 * a;
        unit = 2 * unit;
    }
    (a, unit)
}

fn nearest(a: u128, q: u128) -> (m: u128)
    requires
        0 < q <= 0x40_0000_0000_0000,
        a <= 0x1_0000_0000_0000_0000_0000_0000_0000,
    ensures
        m as nat == nearest_even(a as nat, q as nat),
        m <= a / q + 1,
        m >= a / q,
{
    let below: u128 = a / q;
    let rest: u128 = a % q;
    proof {
        assert(below <= a) by (nonlinear_arith)
            requires
                below == a / q,
                q > 0,
        ;
    }
    if 2 * rest < q || (2 * rest == q && below % 2 == 0) {
        below
    } else {
        below + 1
    }
}

fn shutter_reciprocal(n: u32, d: u32) -> (k: u64)
    requires
        0 < n < d,
    ensures
        k as nat == reciprocal(n as nat, d as nat),
{
    let (a, unit) = enlarge(n as u128, d as u128);
    let seconds: u128 = nearest(a, d as u128);
    proof {
        assert(a / (d as u128) >= SIGNIFICAND_MIN) by (nonlinear_arith)
            requires
                a >= SIGNIFICAND_MIN * d,
                d > 0,
        ;
        assert(a / (d as u128) < 2 * SIGNIFICAND_MIN) by (nonlinear_arith)
            requires
                a < 2 * (SIGNIFICAND_MIN * d),
                d > 0,
        ;
        assert(unit <= a) by (nonlinear_arith)
            requires
                a == n * unit,
                n > 0,
                unit > 0,
        ;
    }
    let (b, fine) = enlarge(unit, seconds);
    let inverse: u128 = nearest(b, seconds);
    proof {
        assert(fine <= b) by (nonlinear_arith)
            requires
                b == unit * fine,
                unit > 0,
                fine > 0,
        ;
        assert(b / seconds <= 0x1000_0000_0000_0000) by (nonlinear_arith)
            requires
                b <= 0x1_0000_0000_0000_0000_0000_0000_0000,
                seconds >= SIGNIFICAND_MIN,
        ;
    }
    let k: u128 = (2 * inverse + fine) / (2 * fine);
    proof {
        assert(k <= inverse + 1) by (nonlinear_arith)
            requires
                k == (2 * inverse + fine) / (2 * fine),
                fine >= 1,
        ;
    }
    k as u64
}

/// Writes a shutter speed, given as a fraction of a second; `None` if a side
/// of the fraction is zero.
pub fn format_shutter(numerator: u32, denominator: u32) -> (text: Option<String>)
    ensures
        match text {
            None => numerator == 0 || denominator == 0,
            Some(words) => numerator != 0 && denominator != 0 && words@ == shutter_words(
                numerator as nat,
                denominator as nat,
            ),
        },
{
    if numerator == 0 || denominator == 0 {
        return None;
    }
    let mut words: Vec<char> = Vec::new();
    if numerator >= denominator {
        let tenths: u64 = rounded_tenths(numerator, denominator);
        words = trim_number(tenths);
    } else {
        let k: u64 = shutter_reciprocal(numerator, denominator);
        push_text(&mut words, "1/");
        let number: Vec<char> = decimal_chars(
            if k < 1 {
                1
            } else {
                k
            },
        );
        let digits: String = from_chars(&number);
        push_text(&mut words, digits.as_str());
    }
    push_text(&mut words, " s");
    proof {
        assert(words@ =~= shutter_words(numerator as nat, denominator as nat));
    }
    Some(from_chars(&words))
}

/// A fraction in tenths, to the nearest; the larger one of two.
pub fn rounded_tenths(n: u32, d: u32) -> (tenths: u64)
    requires
        d > 0,
    ensures
        tenths as nat == tenths_of(n as nat, d as nat),
{
    (20 * n as u64 + d as u64) / (2 * d as u64)
}

proof fn lemma_enlarged(p: nat, unit: nat, q: nat, start: nat)
    requires
        p > 0,
        unit > 0,
        p == start * unit,
    ensures
        ({
            let (a, u) = enlarged(p, unit, q);
            &&& a == start * u
            &&& a >= SIGNIFICAND_MIN * q
            &&& u > 0
        }),
    decreases
            (if p < SIGNIFICAND_MIN * q {
                SIGNIFICAND_MIN * q - p
            } else {
                0
            }),
{
    if p < SIGNIFICAND_MIN * q {
        assert(2 * p == start * (2 * unit)) by (nonlinear_arith)
            requires
                p == start * unit,
        ;
        lemma_enlarged(2 * p, 2 * unit, q, start);
    }
}

proof fn lemma_nearest(a: nat, q: nat)
    requires
        q > 0,
    ensures
        -q <= 2 * (nearest_even(a, q) * q) - 2 * a <= q,
        nearest_even(a, q) >= a / q,
{
    let below = a / q;
    vstd::arithmetic::div_mod::lemma_fundamental_div_mod(a as int, q as int);
    assert(q * below == below * q) by (nonlinear_arith);
    assert((below + 1) * q == below * q + q) by (nonlinear_arith);
}

/// The reciprocal that is shown for a speed below a second is an integer
/// nearest to the true one, for every fraction that EXIF can hold.
pub proof fn reciprocals_are_nearest(n: nat, d: nat)
    requires
        0 < n < d,
        d <= u32::MAX,
    ensures
        2 * d - n <= 2 * (reciprocal(n, d) * n) <= 2 * d + n,
{
    let (a, u) = enlarged(n, 1, d);
    lemma_enlarged(n, 1, d, n);
    lemma_nearest(a, d);
    let s = nearest_even(a, d);
    assert(a / d >= SIGNIFICAND_MIN) by (nonlinear_arith)
        requires
            a >= SIGNIFICAND_MIN * d,
            d > 0,
    ;
    let (b, f) = enlarged(u, 1, s);
    lemma_enlarged(u, 1, s, u);
    lemma_nearest(b, s);
    let i = nearest_even(b, s);
    let k = (2 * i + f) / (2 * f);
    vstd::arithmetic::div_mod::lemma_fundamental_div_mod((2 * i + f) as int, (2 * f) as int);
    vstd::arithmetic::div_mod::lemma_mod_bound((2 * i + f) as int, (2 * f) as int);
    assert((2 * f) * k == 2 * (k * f)) by (nonlinear_arith);
    lemma_close(n as int, d as int, u as int, s as int, f as int, i as int, k as int);
}

proof fn lemma_close(n: int, d: int, u: int, s: int, f: int, i: int, k: int)
    requires
        0 < n < d <= u32::MAX,
        u > 0,
        s >= SIGNIFICAND_MIN,
        f > 0,
        k >= 0,
        -d <= 2 * (s * d) - 2 * (n * u) <= d,
        -s <= 2 * (i * s) - 2 * (u * f) <= s,
        -f <= 2 * (k * f) - 2 * i <= f,
        u * f >= SIGNIFICAND_MIN * s,
    ensures
        2 * d - n <= 2 * (k * n) <= 2 * d + n,
{
    let sf = s * f;
    // The three roundings, brought to the common denominator `s * f`.
    assert(-(sf * n) <= 2 * (k * n * sf) - 2 * (i * s * n) <= sf * n) by (nonlinear_arith)
        requires
            -f <= 2 * (k * f) - 2 * i <= f,
            sf == s * f,
            s > 0,
            n > 0,
    ;
    assert(-(s * n) <= 2 * (i * s * n) - 2 * (u * f * n) <= s * n) by (nonlinear_arith)
        requires
            -s <= 2 * (i * s) - 2 * (u * f) <= s,
            n > 0,
    ;
    assert(-(d * f) <= 2 * (d * sf) - 2 * (u * f * n) <= d * f) by (nonlinear_arith)
        requires
            -d <= 2 * (s * d) - 2 * (n * u) <= d,
            sf == s * f,
            f > 0,
    ;
    // The slack is less than one part in `s * f`.
    assert(s * (d + 1) == s * d + s) by (nonlinear_arith);
    assert(n * u <= s * (d + 1));
    assert(SIGNIFICAND_MIN * n <= (d + 1) * f) by (nonlinear_arith)
        requires
            u * f >= SIGNIFICAND_MIN * s,
            n * u <= s * (d + 1),
            s > 0,
            n > 0,
            f > 0,
    ;
    assert(n * 0x80000 <= f) by (nonlinear_arith)
        requires
            SIGNIFICAND_MIN * n <= (d + 1) * f,
            d + 1 <= 0x1_0000_0000,
            f > 0,
            SIGNIFICAND_MIN == 4503599627370496,
    ;
    assert(s * n * 0x80000 <= sf) by (nonlinear_arith)
        requires
            n * 0x80000 <= f,
            sf == s * f,
            s > 0,
    ;
    assert(d * f * 0x80000 <= sf) by (nonlinear_arith)
        requires
            d * 0x80000 <= s,
            sf == s * f,
            f > 0,
    ;
    assert(sf > 0) by (nonlinear_arith)
        requires
            sf == s * f,
            s > 0,
            f > 0,
    ;
    assert(2 * (k * n * sf) - 2 * (d * sf) < sf * n + sf);
    assert(2 * (k * n * sf) - 2 * (d * sf) > -(sf * n) - sf);
    assert(2 * (k * n) - 2 * d < n + 1) by (nonlinear_arith)
        requires
            2 * (k * n * sf) - 2 * (d * sf) < sf * n + sf,
            sf > 0,
    ;
    assert(2 * (k * n) - 2 * d > -n - 1) by (nonlinear_arith)
        requires
            2 * (k * n * sf) - 2 * (d * sf) > -(sf * n) - sf,
            sf > 0,
    ;
}

} // verus!
