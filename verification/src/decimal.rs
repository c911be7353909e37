//! Exact decimal comparison.
//!
//! Numeric constraint operators compare the attribute and each constraint
//! value as decimal numbers: an optional sign, integer digits, an optional
//! fraction, and an optional exponent part (`e` or `E`, an optional sign,
//! and up to the equivalent of four digits of magnitude). Values are
//! compared exactly, as rationals; text that does not fit the grammar —
//! including exponents of magnitude 10000 or more — has no numeric
//! verdict.

use vstd::prelude::*;

verus! {

use vstd::string::StrSliceExecFns;

/// A parsed decimal literal: sign, integer digits, fraction digits.
#[verifier::ext_equal]
pub struct DecV {
    pub neg: bool,
    pub int_digits: Seq<char>,
    pub frac_digits: Seq<char>,
}

/// A decimal digit.
pub open spec fn is_digit(c: char) -> bool {
    '0' <= c && c <= '9'
}

/// All characters are decimal digits.
pub open spec fn all_digits(s: Seq<char>) -> bool {
    forall|i: int| 0 <= i < s.len() ==> is_digit(#[trigger] s[i])
}

/// The numeric value of one digit.
pub open spec fn digit_val(c: char) -> int {
    c as int - 48
}

/// Ten to the `n`.
pub open spec fn pow10(n: nat) -> int
    decreases n,
{
    if n == 0 {
        1
    } else {
        10 * pow10((n - 1) as nat)
    }
}

/// The integer denoted by a digit string (most significant first).
pub open spec fn digits_val(s: Seq<char>) -> int
    decreases s.len(),
{
    if s.len() == 0 {
        0
    } else {
        digit_val(s[0]) * pow10((s.len() - 1) as nat) + digits_val(s.drop_first())
    }
}

/// The value of a single digit string.
pub proof fn lemma_digits_val_singleton(c: char)
    ensures
        digits_val(seq![c]) == digit_val(c),
{
    let x = seq![c];
    assert(x.len() == 1);
    assert(x[0] == c);
    assert(x.drop_first() =~= Seq::<char>::empty());
    assert(digits_val(x.drop_first()) == 0);
    assert(pow10(0) == 1);
    assert(digits_val(x) == digit_val(x[0]) * pow10((x.len() - 1) as nat) + digits_val(
        x.drop_first(),
    ));
    assert(digit_val(c) * 1 == digit_val(c)) by (nonlinear_arith);
}

/// A run of `n` zero digits.
pub open spec fn zero_digits(n: nat) -> Seq<char> {
    Seq::new(n, |i: int| '0')
}

/// The index of the first '.' at or after `i`, or the length when there is
/// none.
pub open spec fn find_dot(s: Seq<char>, i: int) -> int
    decreases s.len() - i,
{
    if i < 0 || i >= s.len() {
        s.len() as int
    } else if s[i] == '.' {
        i
    } else {
        find_dot(s, i + 1)
    }
}

/// The sign and the unsigned remainder of a decimal literal.
pub open spec fn strip_sign(s: Seq<char>) -> (bool, Seq<char>) {
    if s.len() > 0 && s[0] == '-' {
        (true, s.drop_first())
    } else if s.len() > 0 && s[0] == '+' {
        (false, s.drop_first())
    } else {
        (false, s)
    }
}

/// Parse a decimal literal: optional sign, integer digits, optionally a dot
/// and fraction digits; at least one digit in all.
pub open spec fn dec_parse(s: Seq<char>) -> Option<DecV> {
    let (neg, rest) = strip_sign(s);
    let d = find_dot(rest, 0);
    if d == rest.len() {
        if rest.len() > 0 && all_digits(rest) {
            Option::Some(DecV { neg, int_digits: rest, frac_digits: Seq::empty() })
        } else {
            Option::None
        }
    } else {
        let ip = rest.subrange(0, d);
        let fp = rest.subrange(d + 1, rest.len() as int);
        if all_digits(ip) && all_digits(fp) && ip.len() + fp.len() > 0 {
            Option::Some(DecV { neg, int_digits: ip, frac_digits: fp })
        } else {
            Option::None
        }
    }
}

/// The value of a parsed decimal, scaled by ten to the `fl`: the integer
/// `sign * digits * 10^(fl - fraction length)`.
pub open spec fn signed_scaled(x: DecV, fl: nat) -> int
    recommends
        x.frac_digits.len() <= fl,
{
    let m = digits_val(
        x.int_digits + x.frac_digits + zero_digits((fl - x.frac_digits.len()) as nat),
    );
    if x.neg {
        -m
    } else {
        m
    }
}

/// The index of the first 'e' or 'E' at or after `i`, or the length when
/// there is none.
pub open spec fn find_exp(s: Seq<char>, i: int) -> int
    decreases s.len() - i,
{
    if i < 0 || i >= s.len() {
        s.len() as int
    } else if s[i] == 'e' || s[i] == 'E' {
        i
    } else {
        find_exp(s, i + 1)
    }
}

/// The largest exponent magnitude the grammar accepts.
pub open spec fn max_exponent() -> int {
    9999
}

/// A parsed decimal shifted by a power of ten: the digit point moves by
/// `e` places, padding with zero digits where it leaves the mantissa. The
/// result denotes exactly `mantissa * 10^e`.
pub open spec fn shift_decimal(x: DecV, e: int) -> DecV {
    let d = x.int_digits + x.frac_digits;
    let q = x.int_digits.len() + e;
    if q >= d.len() {
        DecV {
            neg: x.neg,
            int_digits: d + zero_digits((q - d.len()) as nat),
            frac_digits: Seq::empty(),
        }
    } else if q <= 0 {
        DecV { neg: x.neg, int_digits: Seq::empty(), frac_digits: zero_digits((-q) as nat) + d }
    } else {
        DecV { neg: x.neg, int_digits: d.take(q), frac_digits: d.skip(q) }
    }
}

/// Parse a decimal literal with an optional exponent part. The exponent is
/// applied exactly, by shifting the digit point; an exponent of magnitude
/// `max_exponent()` or more does not parse.
pub open spec fn dec_parse_sci(s: Seq<char>) -> Option<DecV> {
    let ep = find_exp(s, 0);
    if ep == s.len() {
        dec_parse(s)
    } else {
        let m = s.subrange(0, ep);
        let (eneg, ed) = strip_sign(s.subrange(ep + 1, s.len() as int));
        if ed.len() > 0 && all_digits(ed) && digits_val(ed) <= max_exponent() && dec_parse(
            m,
        ) is Some {
            let e = if eneg {
                -digits_val(ed)
            } else {
                digits_val(ed)
            };
            Option::Some(shift_decimal(dec_parse(m)->Some_0, e))
        } else {
            Option::None
        }
    }
}

/// The exact comparison of two decimal literals: `None` when either fails
/// to parse, otherwise the sign of their difference as rationals.
pub open spec fn dec_cmp(a: Seq<char>, b: Seq<char>) -> Option<i8> {
    match (dec_parse_sci(a), dec_parse_sci(b)) {
        (Option::Some(x), Option::Some(y)) => {
            let fl = if x.frac_digits.len() >= y.frac_digits.len() {
                x.frac_digits.len()
            } else {
                y.frac_digits.len()
            };
            let vx = signed_scaled(x, fl);
            let vy = signed_scaled(y, fl);
            Option::Some(cmp3(vx, vy))
        },
        _ => Option::None,
    }
}

pub proof fn lemma_pow10_pos(n: nat)
    ensures
        pow10(n) >= 1,
    decreases n,
{
    if n > 0 {
        lemma_pow10_pos((n - 1) as nat);
    }
}

pub proof fn lemma_pow10_add(a: nat, b: nat)
    ensures
        pow10(a + b) == pow10(a) * pow10(b),
    decreases a,
{
    if a == 0 {
    } else {
        lemma_pow10_add((a - 1) as nat, b);
        assert(pow10((a - 1) as nat + b) == pow10((a - 1) as nat) * pow10(b));
        assert(10 * (pow10((a - 1) as nat) * pow10(b)) == (10 * pow10((a - 1) as nat)) * pow10(
            b,
        )) by (nonlinear_arith);
        assert((a + b - 1) as nat == (a - 1) as nat + b);
    }
}

/// A digit string's value lies in [0, 10^len).
pub proof fn lemma_digits_val_bounds(s: Seq<char>)
    requires
        all_digits(s),
    ensures
        0 <= digits_val(s) < pow10(s.len()),
    decreases s.len(),
{
    if s.len() == 0 {
    } else {
        assert(is_digit(s[0]));
        lemma_digits_val_bounds(s.drop_first());
        lemma_pow10_pos((s.len() - 1) as nat);
        let p = pow10((s.len() - 1) as nat);
        let d = digit_val(s[0]);
        assert(0 <= d <= 9);
        assert(d * p <= 9 * p) by (nonlinear_arith)
            requires
                0 <= d <= 9,
                p >= 1,
        ;
        assert(d * p >= 0) by (nonlinear_arith)
            requires
                d >= 0,
                p >= 1,
        ;
        assert(digits_val(s) < d * p + p);
        assert(9 * p + p == 10 * p);
    }
}

/// Appending digits multiplies the leading value by ten to their count.
pub proof fn lemma_digits_val_append(s1: Seq<char>, s2: Seq<char>)
    ensures
        digits_val(s1 + s2) == digits_val(s1) * pow10(s2.len()) + digits_val(s2),
    decreases s1.len(),
{
    if s1.len() == 0 {
        assert(s1 + s2 =~= s2);
    } else {
        assert((s1 + s2).drop_first() =~= s1.drop_first() + s2);
        lemma_digits_val_append(s1.drop_first(), s2);
        lemma_pow10_add((s1.len() - 1) as nat, s2.len());
        let d = digit_val(s1[0]);
        let pa = pow10((s1.len() - 1) as nat);
        let pb = pow10(s2.len());
        assert((s1 + s2).len() - 1 == (s1.len() - 1) + s2.len());
        assert((s1 + s2)[0] == s1[0]);
        assert(digits_val(s1 + s2) == d * (pa * pb) + (digits_val(s1.drop_first()) * pb
            + digits_val(s2)));
        assert(d * (pa * pb) + digits_val(s1.drop_first()) * pb == (d * pa + digits_val(
            s1.drop_first(),
        )) * pb) by (nonlinear_arith);
    }
}

/// One trailing digit extends the prefix value by a factor of ten.
pub proof fn lemma_digits_val_step(s: Seq<char>, k: int)
    requires
        0 <= k < s.len(),
    ensures
        digits_val(s.subrange(0, k + 1)) == digits_val(s.subrange(0, k)) * 10 + digit_val(s[k]),
{
    let a = s.subrange(0, k);
    let c = seq![s[k]];
    assert(s.subrange(0, k + 1) =~= a + c);
    lemma_digits_val_append(a, c);
    lemma_digits_val_singleton(s[k]);
    assert(pow10(1) == 10);
}

/// A run of zero digits denotes zero.
pub proof fn lemma_zero_digits_val(n: nat)
    ensures
        all_digits(zero_digits(n)),
        digits_val(zero_digits(n)) == 0,
    decreases n,
{
    if n == 0 {
    } else {
        lemma_zero_digits_val((n - 1) as nat);
        assert(zero_digits(n).drop_first() =~= zero_digits((n - 1) as nat));
        assert(zero_digits(n)[0] == '0');
    }
}

/// Leading zero digits do not change the value.
pub proof fn lemma_digits_val_leftpad(k: nat, s: Seq<char>)
    ensures
        digits_val(zero_digits(k) + s) == digits_val(s),
{
    lemma_zero_digits_val(k);
    lemma_digits_val_append(zero_digits(k), s);
}

/// A digit string's value is zero exactly when every digit is zero.
pub proof fn lemma_digits_val_zero_iff(s: Seq<char>)
    requires
        all_digits(s),
    ensures
        digits_val(s) == 0 <==> (forall|i: int| 0 <= i < s.len() ==> s[i] == '0'),
    decreases s.len(),
{
    if s.len() == 0 {
    } else {
        assert(is_digit(s[0]));
        lemma_digits_val_zero_iff(s.drop_first());
        lemma_digits_val_bounds(s.drop_first());
        lemma_pow10_pos((s.len() - 1) as nat);
        let p = pow10((s.len() - 1) as nat);
        let d = digit_val(s[0]);
        assert(d * p >= d) by (nonlinear_arith)
            requires
                d >= 0,
                p >= 1,
        ;
        assert(d >= 1 ==> d * p >= 1) by (nonlinear_arith)
            requires
                p >= 1,
        ;
        assert(d * p >= 0) by (nonlinear_arith)
            requires
                d >= 0,
                p >= 1,
        ;
        assert(d * p == 0 ==> d == 0) by (nonlinear_arith)
            requires
                p >= 1,
        ;
        let t = s.drop_first();
        assert(forall|i: int| 0 <= i < t.len() ==> #[trigger] t[i] == s[i + 1]);
        if digits_val(s) == 0 {
            assert(d * p == 0 && digits_val(t) == 0);
            assert(s[0] == '0');
            assert forall|i: int| 0 <= i < s.len() implies s[i] == '0' by {
                if i >= 1 {
                    assert(s[i] == t[i - 1]);
                }
            }
        } else {
            if forall|i: int| 0 <= i < s.len() ==> s[i] == '0' {
                assert('0' as int == 48);
                assert(s[0] == '0');
                assert(d == 0);
                assert forall|i: int| 0 <= i < t.len() implies #[trigger] t[i] == '0' by {
                    assert(t[i] == s[i + 1]);
                    assert(s[i + 1] == '0');
                }
                assert(digits_val(t) == 0);
                assert(d * p == 0) by (nonlinear_arith)
                    requires
                        d == 0,
                ;
                assert(digits_val(s) == d * p + digits_val(t));
                assert(false);
            }
        }
    }
}

/// Properties of the first-dot search.
pub proof fn lemma_find_dot_props(s: Seq<char>, i: int)
    requires
        0 <= i <= s.len(),
    ensures
        i <= find_dot(s, i) <= s.len(),
        find_dot(s, i) < s.len() ==> s[find_dot(s, i)] == '.',
        forall|m: int| i <= m < find_dot(s, i) ==> s[m] != '.',
    decreases s.len() - i,
{
    if i < s.len() && s[i] != '.' {
        lemma_find_dot_props(s, i + 1);
    }
}

/// The first-dot search finds a known first dot.
pub proof fn lemma_find_dot_at(s: Seq<char>, i: int, d: int)
    requires
        0 <= i <= d <= s.len(),
        forall|m: int| i <= m < d ==> s[m] != '.',
        d == s.len() || s[d] == '.',
    ensures
        find_dot(s, i) == d,
    decreases d - i,
{
    if i < d {
        lemma_find_dot_at(s, i + 1, d);
    }
}

/// The first-exponent-marker search finds a known first marker.
pub proof fn lemma_find_exp_at(s: Seq<char>, i: int, d: int)
    requires
        0 <= i <= d <= s.len(),
        forall|m: int| i <= m < d ==> s[m] != 'e' && s[m] != 'E',
        d == s.len() || s[d] == 'e' || s[d] == 'E',
    ensures
        find_exp(s, i) == d,
    decreases d - i,
{
    if i < d {
        lemma_find_exp_at(s, i + 1, d);
    }
}

/// Of two equal-length digit strings, the one with the smaller digit at the
/// first difference denotes the smaller value.
pub proof fn lemma_digits_val_first_diff(s1: Seq<char>, s2: Seq<char>, p: int)
    requires
        all_digits(s1),
        all_digits(s2),
        s1.len() == s2.len(),
        0 <= p < s1.len(),
        forall|i: int| 0 <= i < p ==> s1[i] == s2[i],
        digit_val(s1[p]) < digit_val(s2[p]),
    ensures
        digits_val(s1) < digits_val(s2),
    decreases p,
{
    if p == 0 {
        lemma_digits_val_bounds(s1.drop_first());
        lemma_digits_val_bounds(s2.drop_first());
        lemma_pow10_pos((s1.len() - 1) as nat);
        let q = pow10((s1.len() - 1) as nat);
        let d1 = digit_val(s1[0]);
        let d2 = digit_val(s2[0]);
        assert(d1 * q + q <= d2 * q) by (nonlinear_arith)
            requires
                d1 < d2,
                q >= 1,
        ;
    } else {
        assert(forall|i: int|
            0 <= i < s1.drop_first().len() ==> #[trigger] s1.drop_first()[i] == s1[i + 1]);
        assert(forall|i: int|
            0 <= i < s2.drop_first().len() ==> #[trigger] s2.drop_first()[i] == s2[i + 1]);
        lemma_digits_val_first_diff(s1.drop_first(), s2.drop_first(), p - 1);
        assert(s1[0] == s2[0]);
    }
}

/// A digit string with a nonzero leading digit denotes at least ten to the
/// remaining length.
pub proof fn lemma_digits_val_lower(s: Seq<char>)
    requires
        all_digits(s),
        s.len() > 0,
        s[0] != '0',
    ensures
        digits_val(s) >= pow10((s.len() - 1) as nat),
{
    assert(is_digit(s[0]));
    assert(digit_val(s[0]) >= 1);
    lemma_digits_val_bounds(s.drop_first());
    lemma_pow10_pos((s.len() - 1) as nat);
    let p = pow10((s.len() - 1) as nat);
    let d = digit_val(s[0]);
    assert(d * p >= p) by (nonlinear_arith)
        requires
            d >= 1,
            p >= 1,
    ;
}

/// The sign of `x - y` as a comparison verdict.
pub open spec fn cmp3(x: int, y: int) -> i8 {
    if x < y {
        (-1) as i8
    } else if x == y {
        0 as i8
    } else {
        1 as i8
    }
}

/// The magnitude of a parsed decimal scaled by ten to the `fl`.
pub open spec fn mag_val(x: DecV, fl: nat) -> int
    recommends
        x.frac_digits.len() <= fl,
{
    digits_val(x.int_digits + x.frac_digits + zero_digits((fl - x.frac_digits.len()) as nat))
}

/// A parsed decimal, executable side.
pub struct DecParts {
    pub neg: bool,
    pub int_digits: Vec<char>,
    pub frac_digits: Vec<char>,
}

impl DecParts {
    /// The parsed decimal this value carries.
    pub open spec fn view_dec(&self) -> DecV {
        DecV { neg: self.neg, int_digits: self.int_digits@, frac_digits: self.frac_digits@ }
    }
}

/// Whether a character is a decimal digit.
fn digit_char(c: char) -> (r: bool)
    ensures
        r == is_digit(c),
{
    let u: u32 = c as u32;
    48 <= u && u <= 57
}

/// Parse a decimal literal.
#[verifier::loop_isolation(false)]
#[verifier::rlimit(60)]
pub fn parse_dec(s: &str) -> (r: Option<DecParts>)
    ensures
        match r {
            Option::Some(p) => {
                &&& dec_parse(s@) == Option::Some(p.view_dec())
                &&& all_digits(p.int_digits@)
                &&& all_digits(p.frac_digits@)
                &&& p.int_digits@.len() + p.frac_digits@.len() >= 1
            },
            Option::None => dec_parse(s@) is None,
        },
{
    let n: usize = s.unicode_len();
    let mut start: usize = 0;
    let mut neg: bool = false;
    if n > 0 {
        let c0: char = s.get_char(0);
        if c0 == '-' {
            neg = true;
            start = 1;
        } else if c0 == '+' {
            start = 1;
        }
    }
    let ghost rest: Seq<char> = s@.subrange(start as int, n as int);
    proof {
        if start == 1 {
            assert(rest =~= s@.drop_first());
        } else {
            assert(rest =~= s@);
        }
        assert(strip_sign(s@) == (neg, rest));
    }

    let mut int_digits: Vec<char> = Vec::new();
    let mut frac_digits: Vec<char> = Vec::new();
    let mut dot: Option<usize> = Option::None;
    let mut j: usize = start;
    while j < n
        invariant
            start <= j <= n,
            match dot {
                Option::Some(dj) => {
                    &&& start <= dj < j
                    &&& rest[dj - start] == '.'
                    &&& forall|m: int| 0 <= m < dj - start ==> rest[m] != '.'
                    &&& int_digits@ =~= rest.subrange(0, dj - start)
                    &&& frac_digits@ =~= rest.subrange(dj + 1 - start, j - start)
                },
                Option::None => {
                    &&& forall|m: int| 0 <= m < j - start ==> rest[m] != '.'
                    &&& int_digits@ =~= rest.subrange(0, j - start)
                    &&& frac_digits@.len() == 0
                },
            },
            all_digits(int_digits@),
            all_digits(frac_digits@),
        decreases n - j,
    {
        let c: char = s.get_char(j);
        proof {
            assert(c == rest[j - start]);
        }
        if c == '.' {
            match dot {
                Option::Some(dj) => {
                    proof {
                        let d = find_dot(rest, 0);
                        lemma_find_dot_at(rest, 0, dj - start);
                        assert(d == dj - start);
                        let fp = rest.subrange(d + 1, rest.len() as int);
                        assert(fp[j - start - d - 1] == '.');
                        assert(!all_digits(fp));
                    }
                    return Option::None;
                },
                Option::None => {
                    dot = Option::Some(j);
                },
            }
        } else if digit_char(c) {
            match dot {
                Option::Some(_) => {
                    frac_digits.push(c);
                },
                Option::None => {
                    int_digits.push(c);
                },
            }
            proof {
                match dot {
                    Option::Some(dj) => {
                        assert(frac_digits@ =~= rest.subrange(dj + 1 - start, j + 1 - start));
                    },
                    Option::None => {
                        assert(int_digits@ =~= rest.subrange(0, j + 1 - start));
                    },
                }
            }
        } else {
            proof {
                let k = j - start;
                let d = find_dot(rest, 0);
                lemma_find_dot_props(rest, 0);
                if d == rest.len() {
                    assert(rest[k] == c && !is_digit(c));
                    assert(!all_digits(rest));
                } else if k < d {
                    let ip = rest.subrange(0, d);
                    assert(ip[k] == c);
                    assert(!all_digits(ip));
                } else {
                    assert(k != d);
                    let fp = rest.subrange(d + 1, rest.len() as int);
                    assert(fp[k - d - 1] == c);
                    assert(!all_digits(fp));
                }
            }
            return Option::None;
        }
        j = j + 1;
    }
    match dot {
        Option::Some(dj) => {
            proof {
                lemma_find_dot_at(rest, 0, dj - start);
                let d = find_dot(rest, 0);
                assert(d == dj - start);
                assert(0 <= d < rest.len());
                assert(int_digits@ == rest.subrange(0, d));
                assert(frac_digits@ == rest.subrange(d + 1, rest.len() as int));
            }
            if int_digits.len() == 0 && frac_digits.len() == 0 {
                return Option::None;
            }
            proof {
                assert(dec_parse(s@)->Some_0 =~= DecV {
                    neg,
                    int_digits: int_digits@,
                    frac_digits: frac_digits@,
                });
            }
            Option::Some(DecParts { neg, int_digits, frac_digits })
        },
        Option::None => {
            proof {
                lemma_find_dot_at(rest, 0, rest.len() as int);
            }
            if int_digits.len() == 0 {
                return Option::None;
            }
            proof {
                assert(int_digits@ =~= rest);
                assert(dec_parse(s@)->Some_0 =~= DecV {
                    neg,
                    int_digits: int_digits@,
                    frac_digits: frac_digits@,
                });
            }
            Option::Some(DecParts { neg, int_digits, frac_digits })
        },
    }
}

/// The position of the first exponent marker, or the length when there is
/// none.
#[verifier::loop_isolation(false)]
fn find_exp_pos(s: &str) -> (r: usize)
    ensures
        r as int == find_exp(s@, 0),
        r <= s@.len(),
{
    let n: usize = s.unicode_len();
    let mut j: usize = 0;
    while j < n
        invariant
            j <= n,
            forall|m: int| 0 <= m < j ==> s@[m] != 'e' && #[trigger] s@[m] != 'E',
        decreases n - j,
    {
        let c: char = s.get_char(j);
        if c == 'e' || c == 'E' {
            proof {
                lemma_find_exp_at(s@, 0, j as int);
            }
            return j;
        }
        j = j + 1;
    }
    proof {
        lemma_find_exp_at(s@, 0, n as int);
    }
    n
}

/// Append `count` zero digits to a digit vector.
#[verifier::loop_isolation(false)]
fn push_zero_digits(v: &mut Vec<char>, count: usize)
    ensures
        final(v)@ == old(v)@ + zero_digits(count as nat),
{
    let mut k: usize = 0;
    while k < count
        invariant
            k <= count,
            v@ =~= old(v)@ + zero_digits(k as nat),
        decreases count - k,
    {
        v.push('0');
        k = k + 1;
        proof {
            assert(v@ =~= old(v)@ + zero_digits(k as nat));
        }
    }
    proof {
        assert(v@ =~= old(v)@ + zero_digits(count as nat));
    }
}

/// Parse a decimal literal with an optional exponent part, normalizing the
/// exponent away by shifting the digit point.
#[verifier::loop_isolation(false)]
#[verifier::rlimit(60)]
pub fn parse_dec_sci(s: &str) -> (r: Option<DecParts>)
    ensures
        match r {
            Option::Some(p) => {
                &&& dec_parse_sci(s@) == Option::Some(p.view_dec())
                &&& all_digits(p.int_digits@)
                &&& all_digits(p.frac_digits@)
            },
            Option::None => dec_parse_sci(s@) is None,
        },
{
    let n: usize = s.unicode_len();
    let ep: usize = find_exp_pos(s);
    if ep == n {
        let m = parse_dec(s);
        proof {
            if m is Some {
                lemma_zero_digits_val(0);
            }
        }
        return m;
    }
    let m_str: &str = s.substring_char(0, ep);
    let e_str: &str = s.substring_char(ep + 1, n);
    proof {
        assert(m_str@ =~= s@.subrange(0, ep as int));
        assert(e_str@ =~= s@.subrange(ep as int + 1, s@.len() as int));
    }

    let en: usize = e_str.unicode_len();
    let mut estart: usize = 0;
    let mut eneg: bool = false;
    if en > 0 {
        let c0: char = e_str.get_char(0);
        if c0 == '-' {
            eneg = true;
            estart = 1;
        } else if c0 == '+' {
            estart = 1;
        }
    }
    let ghost ed: Seq<char> = e_str@.subrange(estart as int, en as int);
    proof {
        if estart == 1 {
            assert(ed =~= e_str@.drop_first());
        } else {
            assert(ed =~= e_str@);
        }
        assert(strip_sign(e_str@) == (eneg, ed));
    }
    if estart == en {
        return Option::None;
    }

    let mut emag: u32 = 0;
    let mut k: usize = estart;
    proof {
        assert(ed.subrange(0, 0) =~= Seq::<char>::empty());
    }
    while k < en
        invariant
            estart <= k <= en,
            all_digits(ed.subrange(0, k - estart)),
            if digits_val(ed.subrange(0, k - estart)) <= max_exponent() {
                emag == digits_val(ed.subrange(0, k - estart))
            } else {
                emag == 10000
            },
        decreases en - k,
    {
        let c: char = e_str.get_char(k);
        let u: u32 = c as u32;
        if u < 48 || u > 57 {
            proof {
                assert(ed[k - estart] == e_str@[k as int]);
                assert(!is_digit(ed[k - estart]));
            }
            return Option::None;
        }
        let d: u32 = u - 48;
        proof {
            assert(ed[k - estart] == e_str@[k as int]);
            assert(is_digit(ed[k - estart]));
            assert(ed.subrange(0, k - estart + 1) =~= ed.subrange(0, k - estart) + seq![
                ed[k - estart],
            ]);
            lemma_digits_val_step(ed, k - estart);
            lemma_digits_val_bounds(ed.subrange(0, k - estart));
        }
        let t: u32 = emag * 10 + d;
        emag = if t > 10000 {
            10000
        } else {
            t
        };
        k = k + 1;
    }
    proof {
        assert(ed.subrange(0, en - estart) =~= ed);
    }
    if emag > 9999 {
        return Option::None;
    }

    let mp: DecParts = match parse_dec(m_str) {
        Option::Some(p) => p,
        Option::None => {
            return Option::None;
        },
    };
    let ghost x: DecV = mp.view_dec();
    let ghost e: int = if eneg {
        -digits_val(ed)
    } else {
        digits_val(ed)
    };
    proof {
        assert(dec_parse_sci(s@) == Option::Some(shift_decimal(x, e)));
    }

    let q0: usize = mp.int_digits.len();
    let fl: usize = mp.frac_digits.len();
    let mut d_all: Vec<char> = mp.int_digits;
    let mut fi: usize = 0;
    while fi < mp.frac_digits.len()
        invariant
            fi <= mp.frac_digits@.len(),
            d_all@ =~= x.int_digits + x.frac_digits.subrange(0, fi as int),
        decreases mp.frac_digits@.len() - fi,
    {
        d_all.push(mp.frac_digits[fi]);
        fi = fi + 1;
        proof {
            assert(d_all@ =~= x.int_digits + x.frac_digits.subrange(0, fi as int));
        }
    }
    proof {
        assert(d_all@ =~= x.int_digits + x.frac_digits);
        lemma_zero_digits_val(0);
    }
    let d_len: usize = d_all.len();

    if eneg {
        if (emag as usize) >= q0 {
            let lead: usize = (emag as usize) - q0;
            let mut frac2: Vec<char> = Vec::new();
            push_zero_digits(&mut frac2, lead);
            let mut di: usize = 0;
            while di < d_all.len()
                invariant
                    di <= d_all@.len(),
                    frac2@ =~= zero_digits(lead as nat) + d_all@.subrange(0, di as int),
                decreases d_all@.len() - di,
            {
                frac2.push(d_all[di]);
                di = di + 1;
                proof {
                    assert(frac2@ =~= zero_digits(lead as nat) + d_all@.subrange(0, di as int));
                }
            }
            proof {
                assert(frac2@ =~= zero_digits(lead as nat) + d_all@);
                assert(shift_decimal(x, e).int_digits =~= Seq::<char>::empty());
                assert(shift_decimal(x, e).frac_digits =~= frac2@);
                lemma_zero_digits_val(lead as nat);
            }
            return Option::Some(
                DecParts { neg: mp.neg, int_digits: Vec::new(), frac_digits: frac2 },
            );
        }
        let qq: usize = q0 - (emag as usize);
        let mut int2: Vec<char> = Vec::new();
        let mut ii: usize = 0;
        while ii < qq
            invariant
                ii <= qq,
                qq <= d_all@.len(),
                int2@ =~= d_all@.subrange(0, ii as int),
            decreases qq - ii,
        {
            int2.push(d_all[ii]);
            ii = ii + 1;
            proof {
                assert(int2@ =~= d_all@.subrange(0, ii as int));
            }
        }
        let mut frac2: Vec<char> = Vec::new();
        let mut fj: usize = qq;
        while fj < d_all.len()
            invariant
                qq <= fj <= d_all@.len(),
                frac2@ =~= d_all@.subrange(qq as int, fj as int),
            decreases d_all@.len() - fj,
        {
            frac2.push(d_all[fj]);
            fj = fj + 1;
            proof {
                assert(frac2@ =~= d_all@.subrange(qq as int, fj as int));
            }
        }
        proof {
            assert(shift_decimal(x, e).int_digits =~= int2@);
            assert(shift_decimal(x, e).frac_digits =~= frac2@);
        }
        return Option::Some(DecParts { neg: mp.neg, int_digits: int2, frac_digits: frac2 });
    }

    // non-negative exponent: the point moves right
    if (emag as usize) >= fl {
        let pad: usize = (emag as usize) - fl;
        let mut int2: Vec<char> = d_all;
        push_zero_digits(&mut int2, pad);
        proof {
            assert(shift_decimal(x, e).int_digits =~= int2@);
            assert(shift_decimal(x, e).frac_digits =~= Seq::<char>::empty());
            lemma_zero_digits_val(pad as nat);
        }
        return Option::Some(DecParts { neg: mp.neg, int_digits: int2, frac_digits: Vec::new() });
    }
    proof {
        assert(q0 + emag <= d_len);
    }
    let qq: usize = q0 + (emag as usize);
    let mut int2: Vec<char> = Vec::new();
    let mut ii: usize = 0;
    while ii < qq
        invariant
            ii <= qq,
            qq <= d_all@.len(),
            int2@ =~= d_all@.subrange(0, ii as int),
        decreases qq - ii,
    {
        int2.push(d_all[ii]);
        ii = ii + 1;
        proof {
            assert(int2@ =~= d_all@.subrange(0, ii as int));
        }
    }
    let mut frac2: Vec<char> = Vec::new();
    let mut fj: usize = qq;
    while fj < d_all.len()
        invariant
            qq <= fj <= d_all@.len(),
            frac2@ =~= d_all@.subrange(qq as int, fj as int),
        decreases d_all@.len() - fj,
    {
        frac2.push(d_all[fj]);
        fj = fj + 1;
        proof {
            assert(frac2@ =~= d_all@.subrange(qq as int, fj as int));
        }
    }
    proof {
        assert(shift_decimal(x, e).int_digits =~= int2@);
        assert(shift_decimal(x, e).frac_digits =~= frac2@);
    }
    Option::Some(DecParts { neg: mp.neg, int_digits: int2, frac_digits: frac2 })
}

/// Ten to the power is monotonic.
pub proof fn lemma_pow10_mono(a: nat, b: nat)
    requires
        a <= b,
    ensures
        pow10(a) <= pow10(b),
    decreases b,
{
    if a < b {
        lemma_pow10_mono(a, (b - 1) as nat);
        lemma_pow10_pos((b - 1) as nat);
    }
}

/// A fraction padded with zero digits to a given scale.
pub open spec fn pad_frac(f: Seq<char>, fl: nat) -> Seq<char>
    recommends
        f.len() <= fl,
{
    f + zero_digits((fl - f.len()) as nat)
}

/// The scaled magnitude splits into integer and padded-fraction parts.
proof fn lemma_mag_decompose(x: DecV, fl: nat)
    requires
        all_digits(x.int_digits),
        all_digits(x.frac_digits),
        x.frac_digits.len() <= fl,
    ensures
        all_digits(pad_frac(x.frac_digits, fl)),
        mag_val(x, fl) == digits_val(x.int_digits) * pow10(fl) + digits_val(
            pad_frac(x.frac_digits, fl),
        ),
        0 <= digits_val(pad_frac(x.frac_digits, fl)) < pow10(fl),
        0 <= digits_val(x.int_digits),
{
    let pf = pad_frac(x.frac_digits, fl);
    lemma_zero_digits_val((fl - x.frac_digits.len()) as nat);
    assert(all_digits(pf));
    assert(x.int_digits + x.frac_digits + zero_digits((fl - x.frac_digits.len()) as nat)
        =~= x.int_digits + pf);
    lemma_digits_val_append(x.int_digits, pf);
    lemma_digits_val_bounds(pf);
    lemma_digits_val_bounds(x.int_digits);
}

/// When the integer parts order two magnitudes, the fractions cannot undo
/// it.
proof fn lemma_mag_cmp_by_int(x: DecV, y: DecV, fl: nat)
    requires
        all_digits(x.int_digits),
        all_digits(x.frac_digits),
        all_digits(y.int_digits),
        all_digits(y.frac_digits),
        x.frac_digits.len() <= fl,
        y.frac_digits.len() <= fl,
        digits_val(x.int_digits) < digits_val(y.int_digits),
    ensures
        mag_val(x, fl) < mag_val(y, fl),
{
    lemma_mag_decompose(x, fl);
    lemma_mag_decompose(y, fl);
    let p = pow10(fl);
    let ix = digits_val(x.int_digits);
    let iy = digits_val(y.int_digits);
    lemma_pow10_pos(fl);
    assert(ix * p + p <= iy * p) by (nonlinear_arith)
        requires
            ix < iy,
            p >= 1,
    ;
}

/// The index of the first nonzero digit.
fn leading_zeros(v: &Vec<char>) -> (z: usize)
    ensures
        z <= v@.len(),
        forall|m: int| 0 <= m < z ==> v@[m] == '0',
        z < v@.len() ==> v@[z as int] != '0',
{
    let mut z: usize = 0;
    while z < v.len()
        invariant
            z <= v@.len(),
            forall|m: int| 0 <= m < z ==> v@[m] == '0',
        decreases v@.len() - z,
    {
        if v[z] != '0' {
            return z;
        }
        z = z + 1;
    }
    z
}

/// Compare the integer values of two digit strings.
#[verifier::loop_isolation(false)]
#[verifier::rlimit(60)]
fn cmp_int_digits(a: &Vec<char>, b: &Vec<char>) -> (m: i8)
    requires
        all_digits(a@),
        all_digits(b@),
    ensures
        m == cmp3(digits_val(a@), digits_val(b@)),
{
    let za: usize = leading_zeros(a);
    let zb: usize = leading_zeros(b);
    let ghost sa: Seq<char> = a@.skip(za as int);
    let ghost sb: Seq<char> = b@.skip(zb as int);
    proof {
        assert(a@ =~= zero_digits(za as nat) + sa);
        assert(b@ =~= zero_digits(zb as nat) + sb);
        lemma_digits_val_leftpad(za as nat, sa);
        lemma_digits_val_leftpad(zb as nat, sb);
        assert(all_digits(sa));
        assert(all_digits(sb));
    }
    let ea: usize = a.len() - za;
    let eb: usize = b.len() - zb;
    if ea < eb {
        proof {
            lemma_digits_val_bounds(sa);
            lemma_digits_val_lower(sb);
            lemma_pow10_mono(ea as nat, (eb - 1) as nat);
        }
        return -1;
    }
    if ea > eb {
        proof {
            lemma_digits_val_bounds(sb);
            lemma_digits_val_lower(sa);
            lemma_pow10_mono(eb as nat, (ea - 1) as nat);
        }
        return 1;
    }
    let mut k: usize = 0;
    while k < ea
        invariant
            k <= ea,
            forall|m: int| 0 <= m < k ==> sa[m] == sb[m],
        decreases ea - k,
    {
        let ca: char = a[za + k];
        let cb: char = b[zb + k];
        if (ca as u32) < (cb as u32) {
            proof {
                lemma_digits_val_first_diff(sa, sb, k as int);
            }
            return -1;
        }
        if (ca as u32) > (cb as u32) {
            proof {
                lemma_digits_val_first_diff(sb, sa, k as int);
            }
            return 1;
        }
        k = k + 1;
    }
    proof {
        assert(sa =~= sb);
    }
    0
}

/// Compare the values of two fractions, each padded to their common scale.
#[verifier::loop_isolation(false)]
fn cmp_frac_digits(a: &Vec<char>, b: &Vec<char>) -> (m: i8)
    requires
        all_digits(a@),
        all_digits(b@),
    ensures
        ({
            let fl: nat = if a@.len() >= b@.len() {
                a@.len()
            } else {
                b@.len()
            };
            m == cmp3(digits_val(pad_frac(a@, fl)), digits_val(pad_frac(b@, fl)))
        }),
{
    let fl: usize = if a.len() >= b.len() {
        a.len()
    } else {
        b.len()
    };
    let ghost pa: Seq<char> = pad_frac(a@, fl as nat);
    let ghost pb: Seq<char> = pad_frac(b@, fl as nat);
    proof {
        lemma_zero_digits_val((fl - a@.len()) as nat);
        lemma_zero_digits_val((fl - b@.len()) as nat);
        assert(all_digits(pa));
        assert(all_digits(pb));
    }
    let mut p: usize = 0;
    while p < fl
        invariant
            p <= fl,
            forall|m: int| 0 <= m < p ==> pa[m] == pb[m],
        decreases fl - p,
    {
        let ca: char = if p < a.len() {
            a[p]
        } else {
            '0'
        };
        let cb: char = if p < b.len() {
            b[p]
        } else {
            '0'
        };
        proof {
            assert(pa[p as int] == ca);
            assert(pb[p as int] == cb);
        }
        if (ca as u32) < (cb as u32) {
            proof {
                lemma_digits_val_first_diff(pa, pb, p as int);
            }
            return -1;
        }
        if (ca as u32) > (cb as u32) {
            proof {
                lemma_digits_val_first_diff(pb, pa, p as int);
            }
            return 1;
        }
        p = p + 1;
    }
    proof {
        assert(pa =~= pb);
    }
    0
}

/// Whether the parsed decimal denotes zero.
#[verifier::loop_isolation(false)]
fn dec_is_zero(p: &DecParts) -> (r: bool)
    requires
        all_digits(p.int_digits@),
        all_digits(p.frac_digits@),
    ensures
        r == (digits_val(p.int_digits@) == 0 && digits_val(p.frac_digits@) == 0),
{
    proof {
        lemma_digits_val_zero_iff(p.int_digits@);
        lemma_digits_val_zero_iff(p.frac_digits@);
    }
    let mut i: usize = 0;
    while i < p.int_digits.len()
        invariant
            i <= p.int_digits@.len(),
            forall|m: int| 0 <= m < i ==> p.int_digits@[m] == '0',
        decreases p.int_digits@.len() - i,
    {
        if p.int_digits[i] != '0' {
            return false;
        }
        i = i + 1;
    }
    let mut k: usize = 0;
    while k < p.frac_digits.len()
        invariant
            k <= p.frac_digits@.len(),
            forall|m: int| 0 <= m < k ==> p.frac_digits@[m] == '0',
        decreases p.frac_digits@.len() - k,
    {
        if p.frac_digits[k] != '0' {
            return false;
        }
        k = k + 1;
    }
    true
}

/// The scaled magnitude is zero exactly when both digit parts are zero.
proof fn lemma_mag_zero(x: DecV, fl: nat)
    requires
        all_digits(x.int_digits),
        all_digits(x.frac_digits),
        x.frac_digits.len() <= fl,
    ensures
        (mag_val(x, fl) == 0) == (digits_val(x.int_digits) == 0 && digits_val(x.frac_digits)
            == 0),
        mag_val(x, fl) >= 0,
{
    lemma_mag_decompose(x, fl);
    let p = pow10(fl);
    let ix = digits_val(x.int_digits);
    let pf = digits_val(pad_frac(x.frac_digits, fl));
    lemma_pow10_pos(fl);
    assert(ix >= 1 ==> ix * p >= p) by (nonlinear_arith)
        requires
            p >= 1,
    ;
    assert(ix * p >= 0) by (nonlinear_arith)
        requires
            ix >= 0,
            p >= 1,
    ;
    lemma_digits_val_append(x.frac_digits, zero_digits((fl - x.frac_digits.len()) as nat));
    lemma_zero_digits_val((fl - x.frac_digits.len()) as nat);
    let q = pow10((fl - x.frac_digits.len()) as nat);
    let fx = digits_val(x.frac_digits);
    lemma_pow10_pos((fl - x.frac_digits.len()) as nat);
    lemma_digits_val_bounds(x.frac_digits);
    assert(fx * q == 0 <==> fx == 0) by (nonlinear_arith)
        requires
            q >= 1,
            fx >= 0,
    ;
    assert(fx * q >= 0) by (nonlinear_arith)
        requires
            q >= 1,
            fx >= 0,
    ;
}

/// Compare two magnitudes at their common scale.
fn cmp_magnitude(pa: &DecParts, pb: &DecParts) -> (m: i8)
    requires
        all_digits(pa.int_digits@),
        all_digits(pa.frac_digits@),
        all_digits(pb.int_digits@),
        all_digits(pb.frac_digits@),
    ensures
        ({
            let fl: nat = if pa.frac_digits@.len() >= pb.frac_digits@.len() {
                pa.frac_digits@.len()
            } else {
                pb.frac_digits@.len()
            };
            m == cmp3(mag_val(pa.view_dec(), fl), mag_val(pb.view_dec(), fl))
        }),
{
    let ghost fl: nat = if pa.frac_digits@.len() >= pb.frac_digits@.len() {
        pa.frac_digits@.len()
    } else {
        pb.frac_digits@.len()
    };
    let mi = cmp_int_digits(&pa.int_digits, &pb.int_digits);
    if mi != 0 {
        proof {
            if mi == -1 {
                lemma_mag_cmp_by_int(pa.view_dec(), pb.view_dec(), fl);
            } else {
                lemma_mag_cmp_by_int(pb.view_dec(), pa.view_dec(), fl);
            }
        }
        return mi;
    }
    let mf = cmp_frac_digits(&pa.frac_digits, &pb.frac_digits);
    proof {
        lemma_mag_decompose(pa.view_dec(), fl);
        lemma_mag_decompose(pb.view_dec(), fl);
    }
    mf
}

/// Compare two decimal literals exactly.
pub fn cmp_decimal(a: &str, b: &str) -> (r: Option<i8>)
    ensures
        r == dec_cmp(a@, b@),
{
    let pa = match parse_dec_sci(a) {
        Option::Some(p) => p,
        Option::None => {
            return Option::None;
        },
    };
    let pb = match parse_dec_sci(b) {
        Option::Some(p) => p,
        Option::None => {
            return Option::None;
        },
    };
    let ghost x: DecV = pa.view_dec();
    let ghost y: DecV = pb.view_dec();
    let ghost fl: nat = if x.frac_digits.len() >= y.frac_digits.len() {
        x.frac_digits.len()
    } else {
        y.frac_digits.len()
    };
    proof {
        lemma_mag_zero(x, fl);
        lemma_mag_zero(y, fl);
    }
    let za = dec_is_zero(&pa);
    let zb = dec_is_zero(&pb);
    if za && zb {
        return Option::Some(0);
    }
    if pa.neg != pb.neg {
        if pa.neg {
            return Option::Some(-1);
        }
        return Option::Some(1);
    }
    let m = cmp_magnitude(&pa, &pb);
    if pa.neg {
        Option::Some(-m)
    } else {
        Option::Some(m)
    }
}

} // verus!
