//! Decimal numbers held exactly in thousandths, and the grammar of the
//! decimal literals that grades, weights and averages are written in.

use vstd::prelude::*;
use vstd::arithmetic::div_mod::lemma_fundamental_div_mod_converse;
use vstd::std_specs::cmp::{PartialEqSpecImpl, PartialOrdSpecImpl};
use core::cmp::Ordering;
use crate::text::{chars_of, dec_digits, digit_char, push_decimal};

verus! {

/// A decimal number held in thousandths: `Decimal(1300)` is 1.3.
#[derive(Clone, Copy, Debug)]
pub struct Decimal(pub i64);

impl Decimal {
    /// The number in thousandths.
    pub open spec fn val(self) -> int {
        self.0 as int
    }
}

impl PartialEq for Decimal {
    fn eq(&self, other: &Decimal) -> (r: bool) {
        self.0 == other.0
    }
}

impl PartialEqSpecImpl for Decimal {
    open spec fn obeys_eq_spec() -> bool {
        true
    }

    open spec fn eq_spec(&self, other: &Decimal) -> bool {
        self.0 == other.0
    }
}

impl Eq for Decimal {
}

impl PartialOrd for Decimal {
    fn partial_cmp(&self, other: &Decimal) -> (r: Option<Ordering>) {
        if self.0 < other.0 {
            Some(Ordering::Less)
        } else if self.0 == other.0 {
            Some(Ordering::Equal)
        } else {
            Some(Ordering::Greater)
        }
    }
}

impl PartialOrdSpecImpl for Decimal {
    open spec fn obeys_partial_cmp_spec() -> bool {
        true
    }

    open spec fn partial_cmp_spec(&self, other: &Decimal) -> Option<Ordering> {
        if self.0 < other.0 {
            Some(Ordering::Less)
        } else if self.0 == other.0 {
            Some(Ordering::Equal)
        } else {
            Some(Ordering::Greater)
        }
    }
}

// ---------------------------------------------------------------------------
// Digits and powers of ten

/// Whether `c` is an ASCII decimal digit.
pub open spec fn is_digit(c: char) -> bool {
    '0' <= c && c <= '9'
}

/// The value of the decimal digit `c`.
pub open spec fn digit_value(c: char) -> int {
    (c as int) - ('0' as int)
}

/// Ten to the power `n`.
pub open spec fn pow10(n: nat) -> nat
    decreases n,
{
    if n == 0 {
        1
    } else {
        10 * pow10((n - 1) as nat)
    }
}

/// The value of a sequence of decimal digits, most significant first.
pub open spec fn digits_value(d: Seq<char>) -> int
    decreases d.len(),
{
    if d.len() == 0 {
        0
    } else {
        digits_value(d.drop_last()) * 10 + digit_value(d.last())
    }
}

/// Whether every character of `d` is a digit.
pub open spec fn all_digits(d: Seq<char>) -> bool {
    forall|i: int| 0 <= i < d.len() ==> is_digit(#[trigger] d[i])
}

/// The end of the run of digits in `s` that starts at `i`.
pub open spec fn digit_run(s: Seq<char>, i: int) -> int
    decreases s.len() - i,
{
    if 0 <= i < s.len() && is_digit(s[i]) {
        digit_run(s, i + 1)
    } else {
        i
    }
}

/// `m` scaled by ten to the power `k`, rounded to the nearest whole number,
/// halves rounded up.
pub open spec fn round_shift(m: int, k: int) -> int {
    if k >= 0 {
        m * pow10(k as nat)
    } else {
        (2 * m + pow10((-k) as nat)) / (2 * pow10((-k) as nat) as int)
    }
}

// ---------------------------------------------------------------------------
// Lemmas on digits

pub proof fn lemma_pow10_pos(n: nat)
    ensures
        pow10(n) >= 1,
    decreases n,
{
    if n > 0 {
        lemma_pow10_pos((n - 1) as nat);
    }
}

pub proof fn lemma_pow10_add(a: nat, b: nat)
    ensures
        pow10(a + b) == pow10(a) * pow10(b),
    decreases b,
{
    if b > 0 {
        lemma_pow10_add(a, (b - 1) as nat);
        let x = pow10(a) as int;
        let y = pow10((b - 1) as nat) as int;
        assert(pow10(a + b) == 10 * pow10((a + b - 1) as nat));
        assert(pow10((a + b - 1) as nat) == x * y);
        assert(pow10(b) == 10 * y);
        assert(10 * (x * y) == x * (10 * y)) by (nonlinear_arith);
        assert(pow10(a) * pow10(b) == x * (10 * y));
    } else {
        assert(pow10(0) == 1);
        assert(a + b == a);
    }
}

pub proof fn lemma_pow10_mono(a: nat, b: nat)
    requires
        a <= b,
    ensures
        pow10(a) <= pow10(b),
    decreases b,
{
    if a < b {
        lemma_pow10_mono(a, (b - 1) as nat);
        lemma_pow10_pos((b - 1) as nat);
    }
}

pub proof fn lemma_digits_bound(d: Seq<char>)
    requires
        all_digits(d),
    ensures
        0 <= digits_value(d) < pow10(d.len()),
    decreases d.len(),
{
    if d.len() > 0 {
        let p = d.drop_last();
        assert(all_digits(p)) by {
            assert forall|i: int| 0 <= i < p.len() implies is_digit(#[trigger] p[i]) by {
                assert(p[i] == d[i]);
            }
        }
        lemma_digits_bound(p);
        assert(is_digit(d[d.len() - 1]));
        assert(digits_value(p) + 1 <= pow10(p.len()));
        assert((digits_value(p) + 1) * 10 <= pow10(p.len()) * 10) by (nonlinear_arith)
            requires digits_value(p) + 1 <= pow10(p.len());
    }
}

pub proof fn lemma_digits_concat(a: Seq<char>, b: Seq<char>)
    ensures
        digits_value(a + b) == digits_value(a) * pow10(b.len()) + digits_value(b),
    decreases b.len(),
{
    if b.len() == 0 {
        assert(a + b =~= a);
        assert(pow10(0) == 1);
        assert(digits_value(b) == 0);
    } else {
        let b2 = b.drop_last();
        lemma_digits_concat(a, b2);
        assert((a + b).drop_last() =~= a + b2);
        assert((a + b).last() == b.last());
        let x = digits_value(a);
        let y = digits_value(b2);
        let p = pow10(b2.len()) as int;
        assert(pow10(b.len()) == 10 * p);
        assert(digits_value(a + b) == digits_value(a + b2) * 10 + digit_value(b.last()));
        assert((x * p + y) * 10 + digit_value(b.last()) == x * (10 * p) + (y * 10 + digit_value(b.last()))) by (nonlinear_arith);
        assert(digits_value(b) == y * 10 + digit_value(b.last()));
        assert(digits_value(a) * pow10(b.len()) == x * (10 * p));
    }
}

/// Whether the value of `b` is at least half of its scale is told by its first digit.
pub proof fn lemma_first_digit_half(b: Seq<char>)
    requires
        b.len() >= 1,
        all_digits(b),
    ensures
        (2 * digits_value(b) >= pow10(b.len())) == (digit_value(b[0]) >= 5),
{
    let h = seq![b[0]];
    let t = b.subrange(1, b.len() as int);
    assert(b =~= h + t);
    lemma_digits_concat(h, t);
    assert(all_digits(t)) by {
        assert forall|i: int| 0 <= i < t.len() implies is_digit(#[trigger] t[i]) by {
            assert(t[i] == b[i + 1]);
        }
    }
    lemma_digits_bound(t);
    assert(h.drop_last() =~= Seq::<char>::empty());
    assert(digits_value(Seq::<char>::empty()) == 0);
    assert(h.last() == b[0]);
    assert(digits_value(h) == digit_value(b[0]));
    assert(is_digit(b[0]));
    let q = pow10(t.len());
    assert(pow10(b.len()) == 10 * q) by {
        assert(pow10((t.len() + 1) as nat) == 10 * pow10(t.len()));
    }
    let v = digit_value(b[0]);
    let r = digits_value(t);
    assert(0 <= v <= 9);
    assert((2 * (v * q + r) >= 10 * q) == (v >= 5)) by (nonlinear_arith)
        requires 0 <= v <= 9, 0 <= r < q;
}

/// Rounding a digit string at position `c` by its next digit.
pub proof fn lemma_round_digits(m: Seq<char>, c: int)
    requires
        all_digits(m),
        0 <= c < m.len(),
    ensures
        round_shift(digits_value(m), c - m.len()) == digits_value(m.subrange(0, c)) + (if digit_value(m[c]) >= 5 { 1int } else { 0int }),
{
    let a = m.subrange(0, c);
    let b = m.subrange(c, m.len() as int);
    assert(m =~= a + b);
    lemma_digits_concat(a, b);
    assert(all_digits(b)) by {
        assert forall|i: int| 0 <= i < b.len() implies is_digit(#[trigger] b[i]) by {
            assert(b[i] == m[i + c]);
        }
    }
    lemma_digits_bound(b);
    lemma_first_digit_half(b);
    assert(b[0] == m[c]);
    let q = pow10(b.len()) as int;
    let x = digits_value(a) as int;
    let r = digits_value(b) as int;
    assert((-(c - m.len())) as nat == b.len());
    if 2 * r >= q {
        assert(2 * (x * q + r) + q == (x + 1) * (2 * q) + (2 * r - q)) by (nonlinear_arith);
        lemma_fundamental_div_mod_converse(2 * (x * q + r) + q, 2 * q, x + 1, 2 * r - q);
    } else {
        assert(2 * (x * q + r) + q == x * (2 * q) + (2 * r + q)) by (nonlinear_arith);
        lemma_fundamental_div_mod_converse(2 * (x * q + r) + q, 2 * q, x, 2 * r + q);
    }
}

/// Rounding a digit string at or before its start by more than one place gives zero.
pub proof fn lemma_round_digits_far(m: Seq<char>, k: int)
    requires
        all_digits(m),
        k < -(m.len() as int),
    ensures
        round_shift(digits_value(m), k) == 0,
{
    lemma_digits_bound(m);
    let j = (-k) as nat;
    lemma_pow10_mono((m.len() + 1) as nat, j);
    assert(pow10((m.len() + 1) as nat) == 10 * pow10(m.len()));
    let q = pow10(j) as int;
    let v = digits_value(m) as int;
    assert(2 * v + q < 2 * q);
    lemma_fundamental_div_mod_converse(2 * v + q, 2 * q, 0, 2 * v + q);
}


// ---------------------------------------------------------------------------
// The literal grammar: `[+-]? (digits [. digits?] | . digits) ([eE] [+-]? digits)?`,
// or, after the sign, `inf`, `infinity` or `nan` in any case: what `f32::from_str`
// accepts.

/// Why a literal does not give a decimal.
#[derive(Clone, Copy, Debug, PartialEq, Eq, Structural)]
pub enum DecimalError {
    /// The literal is empty.
    Empty,
    /// The literal is not in the grammar of floating-point literals.
    Invalid,
    /// The literal names infinity or not-a-number.
    NotFinite,
    /// The literal's value does not fit in thousandths held in an `i64`.
    OutOfRange,
}

/// The length of the literal's sign, 0 or 1.
pub open spec fn sign_len(s: Seq<char>) -> int {
    if s.len() > 0 && (s[0] == '+' || s[0] == '-') {
        1
    } else {
        0
    }
}

/// Whether the literal starts with a minus sign.
pub open spec fn negative(s: Seq<char>) -> bool {
    s.len() > 0 && s[0] == '-'
}

/// The end of the integer digits.
pub open spec fn int_end(s: Seq<char>) -> int {
    digit_run(s, sign_len(s))
}

/// Whether a decimal point follows the integer digits.
pub open spec fn has_point(s: Seq<char>) -> bool {
    int_end(s) < s.len() && s[int_end(s)] == '.'
}

/// The start of the fraction digits.
pub open spec fn frac_start(s: Seq<char>) -> int {
    if has_point(s) {
        int_end(s) + 1
    } else {
        int_end(s)
    }
}

/// The end of the fraction digits.
pub open spec fn frac_end(s: Seq<char>) -> int {
    if has_point(s) {
        digit_run(s, frac_start(s))
    } else {
        int_end(s)
    }
}

/// All the digits of the literal before its exponent, point removed.
pub open spec fn mantissa(s: Seq<char>) -> Seq<char> {
    s.subrange(sign_len(s), int_end(s)) + s.subrange(frac_start(s), frac_end(s))
}

/// Whether anything follows the fraction digits.
pub open spec fn has_exponent(s: Seq<char>) -> bool {
    frac_end(s) < s.len()
}

/// Whether the exponent is negative.
pub open spec fn exp_negative(s: Seq<char>) -> bool {
    frac_end(s) + 1 < s.len() && s[frac_end(s) + 1] == '-'
}

/// The start of the exponent's digits.
pub open spec fn exp_digits_start(s: Seq<char>) -> int {
    let e = frac_end(s) + 1;
    if e < s.len() && (s[e] == '+' || s[e] == '-') {
        e + 1
    } else {
        e
    }
}

/// Whether what follows the fraction digits is a well-formed exponent.
pub open spec fn exponent_ok(s: Seq<char>) -> bool {
    !has_exponent(s) || {
        &&& (s[frac_end(s)] == 'e' || s[frac_end(s)] == 'E')
        &&& exp_digits_start(s) < s.len()
        &&& digit_run(s, exp_digits_start(s)) == s.len()
    }
}

/// The value of the exponent, zero when there is none.
pub open spec fn exponent_value(s: Seq<char>) -> int {
    if !has_exponent(s) {
        0
    } else {
        let v = digits_value(s.subrange(exp_digits_start(s), s.len() as int));
        if exp_negative(s) {
            -v
        } else {
            v
        }
    }
}

/// Whether the literal is a finite decimal literal.
pub open spec fn is_decimal_literal(s: Seq<char>) -> bool {
    mantissa(s).len() >= 1 && exponent_ok(s)
}

/// Whether `b` spells the word `lower` in any mix of cases (`upper` is its upper case).
pub open spec fn word_is(b: Seq<char>, lower: Seq<char>, upper: Seq<char>) -> bool {
    &&& b.len() == lower.len()
    &&& forall|i: int| 0 <= i < b.len() ==> (#[trigger] b[i] == lower[i] || b[i] == upper[i])
}

/// Whether the literal names infinity or not-a-number.
pub open spec fn is_nonfinite_literal(s: Seq<char>) -> bool {
    let b = s.subrange(sign_len(s), s.len() as int);
    ||| word_is(b, seq!['i', 'n', 'f'], seq!['I', 'N', 'F'])
    ||| word_is(
        b,
        seq!['i', 'n', 'f', 'i', 'n', 'i', 't', 'y'],
        seq!['I', 'N', 'F', 'I', 'N', 'I', 'T', 'Y'],
    )
    ||| word_is(b, seq!['n', 'a', 'n'], seq!['N', 'A', 'N'])
}

/// The literal's magnitude in thousandths, rounded to the nearest, halves up.
pub open spec fn decimal_magnitude(s: Seq<char>) -> int {
    round_shift(
        digits_value(mantissa(s)),
        (int_end(s) - sign_len(s)) + exponent_value(s) + 3 - mantissa(s).len(),
    )
}

/// What reading the literal `s` gives: its value in thousandths, rounded to
/// the nearest thousandth (halves away from zero), or why there is none.
pub open spec fn spec_parse_decimal(s: Seq<char>) -> Result<Decimal, DecimalError> {
    if s.len() == 0 {
        Err(DecimalError::Empty)
    } else if is_nonfinite_literal(s) {
        Err(DecimalError::NotFinite)
    } else if !is_decimal_literal(s) {
        Err(DecimalError::Invalid)
    } else if decimal_magnitude(s) > i64::MAX {
        Err(DecimalError::OutOfRange)
    } else if negative(s) {
        Ok(Decimal(-decimal_magnitude(s) as i64))
    } else {
        Ok(Decimal(decimal_magnitude(s) as i64))
    }
}


// ---------------------------------------------------------------------------
// Reading literals

proof fn lemma_digit_run(s: Seq<char>, i: int)
    requires
        0 <= i <= s.len(),
    ensures
        i <= digit_run(s, i) <= s.len(),
        forall|k: int| i <= k < digit_run(s, i) ==> is_digit(#[trigger] s[k]),
        digit_run(s, i) < s.len() ==> !is_digit(s[digit_run(s, i)]),
    decreases s.len() - i,
{
    if i < s.len() && is_digit(s[i]) {
        lemma_digit_run(s, i + 1);
    }
}

/// The magnitude of any literal is not negative.
pub proof fn lemma_magnitude_nonneg(s: Seq<char>)
    ensures
        decimal_magnitude(s) >= 0,
{
    let m = mantissa(s);
    let sl = sign_len(s);
    lemma_digit_run(s, sl);
    let ie = int_end(s);
    if has_point(s) {
        lemma_digit_run(s, frac_start(s));
    }
    let fs = frac_start(s);
    let fe = frac_end(s);
    assert(all_digits(m)) by {
        assert forall|k: int| 0 <= k < m.len() implies is_digit(#[trigger] m[k]) by {
            if k < ie - sl {
                assert(m[k] == s[sl + k]);
            } else {
                assert(m[k] == s[fs + k - (ie - sl)]);
            }
        }
    }
    lemma_digits_bound(m);
    let d = digits_value(m);
    let k = (ie - sl) + exponent_value(s) + 3 - m.len();
    if k >= 0 {
        let p = pow10(k as nat) as int;
        assert(d * p >= 0) by (nonlinear_arith)
            requires d >= 0, p >= 0;
    } else {
        let p = pow10((-k) as nat) as int;
        lemma_pow10_pos((-k) as nat);
        assert((2 * d + p) / (2 * p) >= 0) by (nonlinear_arith)
            requires d >= 0, p >= 1;
    }
}

proof fn lemma_digits_step(s: Seq<char>, lo: int, i: int)
    requires
        0 <= lo <= i < s.len(),
    ensures
        digits_value(s.subrange(lo, i + 1)) == digits_value(s.subrange(lo, i)) * 10 + digit_value(s[i]),
{
    assert(s.subrange(lo, i + 1).drop_last() =~= s.subrange(lo, i));
}

proof fn lemma_digits_prefix_le(d: Seq<char>, c: int)
    requires
        all_digits(d),
        0 <= c <= d.len(),
    ensures
        digits_value(d.subrange(0, c)) <= digits_value(d),
{
    let a = d.subrange(0, c);
    let b = d.subrange(c, d.len() as int);
    assert(d =~= a + b);
    lemma_digits_concat(a, b);
    assert(all_digits(a)) by {
        assert forall|i: int| 0 <= i < a.len() implies is_digit(#[trigger] a[i]) by {
            assert(a[i] == d[i]);
        }
    }
    assert(all_digits(b)) by {
        assert forall|i: int| 0 <= i < b.len() implies is_digit(#[trigger] b[i]) by {
            assert(b[i] == d[i + c]);
        }
    }
    lemma_digits_bound(a);
    lemma_digits_bound(b);
    lemma_pow10_pos(b.len());
    let x = digits_value(a);
    let p = pow10(b.len()) as int;
    assert(x * p >= x) by (nonlinear_arith)
        requires x >= 0, p >= 1;
}

/// The end of the run of digits in `s` that starts at `i`.
fn scan_digits(s: &Vec<char>, i: usize) -> (j: usize)
    requires
        i <= s@.len(),
    ensures
        j == digit_run(s@, i as int),
        i <= j <= s@.len(),
{
    proof {
        lemma_digit_run(s@, i as int);
    }
    let mut j = i;
    while j < s.len() && '0' <= s[j] && s[j] <= '9'
        invariant
            i <= j <= s@.len(),
            digit_run(s@, i as int) == digit_run(s@, j as int),
        decreases s@.len() - j,
    {
        j = j + 1;
    }
    j
}

/// The value of the digit `c`.
fn digit_of(c: char) -> (d: u128)
    requires
        is_digit(c),
    ensures
        d as int == digit_value(c),
        d <= 9,
{
    ((c as u32) - 48) as u128
}

/// The value of the digits `s[lo..hi]`, or `None` when it exceeds `cap`.
fn capped_value(s: &Vec<char>, lo: usize, hi: usize, cap: u128) -> (r: Option<u128>)
    requires
        lo <= hi <= s@.len(),
        all_digits(s@.subrange(lo as int, hi as int)),
        cap <= 1_000_000_000_000_000_000_000_000_000_000u128,
    ensures
        match r {
            Some(v) => v as int == digits_value(s@.subrange(lo as int, hi as int)) && v <= cap,
            None => digits_value(s@.subrange(lo as int, hi as int)) > cap,
        },
{
    let mut v: u128 = 0;
    let mut i = lo;
    proof {
        assert(s@.subrange(lo as int, lo as int) =~= Seq::<char>::empty());
    }
    while i < hi
        invariant
            lo <= i <= hi <= s@.len(),
            all_digits(s@.subrange(lo as int, hi as int)),
            cap <= 1_000_000_000_000_000_000_000_000_000_000u128,
            v <= cap,
            v as int == digits_value(s@.subrange(lo as int, i as int)),
        decreases hi - i,
    {
        assert(is_digit(s@[i as int])) by {
            assert(s@.subrange(lo as int, hi as int)[i - lo] == s@[i as int]);
        }
        let d = digit_of(s[i]);
        proof {
            lemma_digits_step(s@, lo as int, i as int);
        }
        let w = v * 10 + d;
        if w > cap {
            proof {
                let whole = s@.subrange(lo as int, hi as int);
                assert(whole.subrange(0, i + 1 - lo) =~= s@.subrange(lo as int, i + 1));
                lemma_digits_prefix_le(whole, i + 1 - lo);
            }
            return None;
        }
        v = w;
        i = i + 1;
    }
    Some(v)
}


/// Whether `s[start..]` spells `lower` in any mix of cases.
fn word_matches(s: &Vec<char>, start: usize, lower: &str, upper: &str) -> (b: bool)
    requires
        start <= s@.len(),
        lower@.len() == upper@.len(),
    ensures
        b == word_is(s@.subrange(start as int, s@.len() as int), lower@, upper@),
{
    let lo = chars_of(lower);
    let up = chars_of(upper);
    let ghost b = s@.subrange(start as int, s@.len() as int);
    let n = s.len();
    if n - start != lo.len() {
        return false;
    }
    let mut i: usize = 0;
    while i < lo.len()
        invariant
            n == s@.len(),
            start + lo@.len() == s@.len(),
            lo@ == lower@,
            up@ == upper@,
            lower@.len() == upper@.len(),
            b == s@.subrange(start as int, s@.len() as int),
            i <= lo@.len(),
            forall|k: int| 0 <= k < i ==> (#[trigger] b[k] == lower@[k] || b[k] == upper@[k]),
        decreases lo@.len() - i,
    {
        if !(s[start + i] == lo[i] || s[start + i] == up[i]) {
            proof {
                assert(b[i as int] == s@[start + i]);
            }
            return false;
        }
        proof {
            assert(b[i as int] == s@[start + i]);
        }
        i = i + 1;
    }
    true
}

/// Whether the literal, after its sign at `s[..sl]`, names infinity or not-a-number.
fn names_nonfinite(s: &Vec<char>, sl: usize) -> (b: bool)
    requires
        sl == sign_len(s@),
        s@.len() > 0,
    ensures
        b == is_nonfinite_literal(s@),
{
    proof {
        reveal_strlit("inf");
        reveal_strlit("INF");
        reveal_strlit("infinity");
        reveal_strlit("INFINITY");
        reveal_strlit("nan");
        reveal_strlit("NAN");
        assert("inf"@ =~= seq!['i', 'n', 'f']);
        assert("INF"@ =~= seq!['I', 'N', 'F']);
        assert("infinity"@ =~= seq!['i', 'n', 'f', 'i', 'n', 'i', 't', 'y']);
        assert("INFINITY"@ =~= seq!['I', 'N', 'F', 'I', 'N', 'I', 'T', 'Y']);
        assert("nan"@ =~= seq!['n', 'a', 'n']);
        assert("NAN"@ =~= seq!['N', 'A', 'N']);
    }
    word_matches(s, sl, "inf", "INF") || word_matches(s, sl, "infinity", "INFINITY")
        || word_matches(s, sl, "nan", "NAN")
}

/// Appends `s[lo..hi]` to `m`.
fn push_range(m: &mut Vec<char>, s: &Vec<char>, lo: usize, hi: usize)
    requires
        lo <= hi <= s@.len(),
    ensures
        final(m)@ == old(m)@ + s@.subrange(lo as int, hi as int),
{
    let mut i = lo;
    while i < hi
        invariant
            lo <= i <= hi <= s@.len(),
            m@ == old(m)@ + s@.subrange(lo as int, i as int),
        decreases hi - i,
    {
        m.push(s[i]);
        i = i + 1;
        proof {
            assert(m@ =~= old(m)@ + s@.subrange(lo as int, i as int));
        }
    }
}

proof fn lemma_pow10_19()
    ensures
        pow10(19) == 10_000_000_000_000_000_000int,
{
    reveal_with_fuel(pow10, 20);
}

/// The bound on exponents that are followed exactly; beyond it every literal
/// with a nonzero mantissa is out of range or rounds to zero.
const EXP_CAP: u128 = 1_000_000_000_000_000_000_000_000_000_000u128;

/// The largest magnitude in thousandths that a `Decimal` holds.
const MAX_MAG: u128 = 9_223_372_036_854_775_807u128;

/// `round_shift(digits_value(m), k)` for `k >= 0`, or `None` when it exceeds `MAX_MAG`.
fn shift_up(m: &Vec<char>, k: i128) -> (r: Option<u128>)
    requires
        all_digits(m@),
        k >= 0,
    ensures
        match r {
            Some(v) => v as int == round_shift(digits_value(m@), k as int) && v <= MAX_MAG,
            None => round_shift(digits_value(m@), k as int) > MAX_MAG,
        },
{
    let ml = m.len();
    proof {
        assert(m@.subrange(0, ml as int) =~= m@);
        lemma_pow10_pos(k as nat);
        lemma_digits_bound(m@);
    }
    match capped_value(m, 0, ml, MAX_MAG) {
        None => {
            proof {
                let d = digits_value(m@);
                let p = pow10(k as nat) as int;
                assert(d * p >= d) by (nonlinear_arith)
                    requires d >= 1, p >= 1;
            }
            None
        },
        Some(v) => {
            if v == 0 {
                return Some(0);
            }
            let mut acc: u128 = v;
            let mut i: i128 = 0;
            proof {
                assert(pow10(0) == 1);
                assert(i as nat == 0);
                assert(pow10(i as nat) == 1);
                assert(acc as int == v as int * pow10(i as nat));
            }
            while i < k
                invariant
                    0 <= i <= k,
                    1 <= acc <= MAX_MAG,
                    v as int == digits_value(m@),
                    acc as int == v as int * pow10(i as nat),
                decreases k - i,
            {
                if acc > MAX_MAG / 10 {
                    proof {
                        lemma_pow10_add(i as nat, (k - i) as nat);
                        lemma_pow10_mono(1, (k - i) as nat);
                        assert(pow10(1) == 10) by {
                            reveal_with_fuel(pow10, 2);
                        }
                        let p = pow10((k - i) as nat) as int;
                        let a = acc as int;
                        assert(a * p >= a * 10) by (nonlinear_arith)
                            requires a >= 1, p >= 10;
                        assert(v as int * pow10(k as nat) == a * p) by (nonlinear_arith)
                            requires a == v as int * pow10(i as nat), pow10(k as nat) == pow10(i as nat) * p;
                    }
                    return None;
                }
                proof {
                    assert(pow10((i + 1) as nat) == 10 * pow10(i as nat));
                    assert(acc * 10 == v as int * pow10((i + 1) as nat)) by (nonlinear_arith)
                        requires acc as int == v as int * pow10(i as nat), pow10((i + 1) as nat) == 10 * pow10(i as nat);
                }
                acc = acc * 10;
                i = i + 1;
            }
            Some(acc)
        },
    }
}

/// `round_shift(digits_value(m), c - m.len())` for a cut `c` inside `m`, or
/// `None` when it exceeds `MAX_MAG`.
fn round_at(m: &Vec<char>, c: usize) -> (r: Option<u128>)
    requires
        all_digits(m@),
        c < m@.len(),
    ensures
        match r {
            Some(v) => v as int == round_shift(digits_value(m@), c - m@.len()) && v <= MAX_MAG,
            None => round_shift(digits_value(m@), c - m@.len()) > MAX_MAG,
        },
{
    proof {
        lemma_round_digits(m@, c as int);
        assert(all_digits(m@.subrange(0, c as int))) by {
            assert forall|k: int| 0 <= k < c implies is_digit(#[trigger] m@.subrange(0, c as int)[k]) by {
                assert(m@.subrange(0, c as int)[k] == m@[k]);
            }
        }
        assert(is_digit(m@[c as int]));
    }
    match capped_value(m, 0, c, MAX_MAG) {
        None => None,
        Some(v) => {
            let up: u128 = if m[c] >= '5' { 1 } else { 0 };
            if v + up > MAX_MAG {
                None
            } else {
                Some(v + up)
            }
        },
    }
}

/// `round_shift(digits_value(m), k)`, or `None` when it exceeds `MAX_MAG`.
fn scaled_magnitude(m: &Vec<char>, k: i128) -> (r: Option<u128>)
    requires
        all_digits(m@),
        m@.len() <= usize::MAX,
    ensures
        match r {
            Some(v) => v as int == round_shift(digits_value(m@), k as int) && v <= MAX_MAG,
            None => round_shift(digits_value(m@), k as int) > MAX_MAG,
        },
{
    let ml = m.len();
    if k >= 0 {
        shift_up(m, k)
    } else if k >= -(ml as i128) {
        let c = (k + ml as i128) as usize;
        round_at(m, c)
    } else {
        proof {
            lemma_round_digits_far(m@, k as int);
        }
        Some(0)
    }
}

proof fn lemma_round_shift_far_up(d: int, k1: int, k2: int)
    requires
        d >= 0,
        k1 >= 19,
        k2 >= 19,
    ensures
        (round_shift(d, k1) > MAX_MAG) == (round_shift(d, k2) > MAX_MAG),
        d == 0 ==> round_shift(d, k1) == 0,
        d >= 1 ==> round_shift(d, k1) > MAX_MAG,
{
    lemma_pow10_19();
    lemma_pow10_mono(19, k1 as nat);
    lemma_pow10_mono(19, k2 as nat);
    let p1 = pow10(k1 as nat) as int;
    let p2 = pow10(k2 as nat) as int;
    if d >= 1 {
        assert(d * p1 >= p1) by (nonlinear_arith)
            requires d >= 1, p1 >= 1;
        assert(d * p2 >= p2) by (nonlinear_arith)
            requires d >= 1, p2 >= 1;
    } else {
        assert(d * p1 == 0);
        assert(d * p2 == 0);
    }
}

/// Where the parts of a finite decimal literal lie.
struct LiteralScan {
    sl: usize,
    ie: usize,
    fs: usize,
    fe: usize,
    exp_neg: bool,
    exp_abs: u128,
    exp_huge: bool,
}

/// Checks the literal's grammar and finds its parts.
fn scan_literal(s: &Vec<char>) -> (r: Result<LiteralScan, DecimalError>)
    ensures
        match r {
            Ok(p) => {
                &&& s@.len() > 0
                &&& !is_nonfinite_literal(s@)
                &&& is_decimal_literal(s@)
                &&& p.sl == sign_len(s@)
                &&& p.ie == int_end(s@)
                &&& p.fs == frac_start(s@)
                &&& p.fe == frac_end(s@)
                &&& p.sl <= p.ie <= p.fs <= p.fe <= s@.len()
                &&& (p.exp_huge ==> (p.exp_neg ==> exponent_value(s@) < -EXP_CAP))
                &&& (p.exp_huge ==> (!p.exp_neg ==> exponent_value(s@) > EXP_CAP))
                &&& (!p.exp_huge ==> exponent_value(s@) == (if p.exp_neg { -(p.exp_abs as int) } else { p.exp_abs as int }))
                &&& (!p.exp_huge ==> p.exp_abs <= EXP_CAP)
            },
            Err(e) => spec_parse_decimal(s@) == Err::<Decimal, DecimalError>(e),
        },
{
    let n = s.len();
    if n == 0 {
        return Err(DecimalError::Empty);
    }
    let sl: usize = if s[0] == '+' || s[0] == '-' { 1 } else { 0 };
    if names_nonfinite(s, sl) {
        return Err(DecimalError::NotFinite);
    }
    let ie = scan_digits(s, sl);
    let point = ie < n && s[ie] == '.';
    let fs = if point { ie + 1 } else { ie };
    let fe = if point { scan_digits(s, fs) } else { ie };
    proof {
        lemma_digit_run(s@, sl as int);
        if point {
            lemma_digit_run(s@, fs as int);
        }
        assert(mantissa(s@).len() == (ie - sl) + (fe - fs));
    }
    if (ie - sl) + (fe - fs) == 0 {
        return Err(DecimalError::Invalid);
    }
    let mut exp_neg = false;
    let mut exp_abs: u128 = 0;
    let mut exp_huge = false;
    if fe < n {
        if !(s[fe] == 'e' || s[fe] == 'E') {
            return Err(DecimalError::Invalid);
        }
        let e = fe + 1;
        exp_neg = e < n && s[e] == '-';
        let ds = if e < n && (s[e] == '+' || s[e] == '-') { e + 1 } else { e };
        if ds >= n {
            return Err(DecimalError::Invalid);
        }
        let de = scan_digits(s, ds);
        if de != n {
            return Err(DecimalError::Invalid);
        }
        proof {
            lemma_digit_run(s@, ds as int);
            assert(all_digits(s@.subrange(ds as int, n as int))) by {
                assert forall|k: int| 0 <= k < n - ds implies is_digit(#[trigger] s@.subrange(ds as int, n as int)[k]) by {
                    assert(s@.subrange(ds as int, n as int)[k] == s@[ds + k]);
                }
            }
        }
        match capped_value(s, ds, n, EXP_CAP) {
            Some(v) => {
                exp_abs = v;
            },
            None => {
                exp_huge = true;
            },
        }
    }
    Ok(LiteralScan { sl, ie, fs, fe, exp_neg, exp_abs, exp_huge })
}

/// Reads a decimal literal into thousandths, rounded to the nearest
/// thousandth with halves away from zero.
pub fn parse_decimal(s: &Vec<char>) -> (r: Result<Decimal, DecimalError>)
    ensures
        r == spec_parse_decimal(s@),
{
    let p = match scan_literal(s) {
        Ok(p) => p,
        Err(e) => {
            return Err(e);
        },
    };
    let neg = s[0] == '-';
    let mut m: Vec<char> = Vec::new();
    push_range(&mut m, s, p.sl, p.ie);
    push_range(&mut m, s, p.fs, p.fe);
    let ghost k_spec = (int_end(s@) - sign_len(s@)) + exponent_value(s@) + 3 - mantissa(s@).len();
    proof {
        lemma_digit_run(s@, p.sl as int);
        if has_point(s@) {
            lemma_digit_run(s@, p.fs as int);
        }
        assert(m@ == mantissa(s@));
        assert(all_digits(m@)) by {
            assert forall|k: int| 0 <= k < m@.len() implies is_digit(#[trigger] m@[k]) by {
                if k < p.ie - p.sl {
                    assert(m@[k] == s@[p.sl + k]);
                } else {
                    assert(m@[k] == s@[p.fs + k - (p.ie - p.sl)]);
                }
            }
        }
        lemma_digits_bound(m@);
    }
    let fl = p.fe - p.fs;
    let k: i128 = if p.exp_huge {
        if p.exp_neg { -(EXP_CAP as i128) } else { EXP_CAP as i128 }
    } else {
        (if p.exp_neg { -(p.exp_abs as i128) } else { p.exp_abs as i128 }) + 3 - (fl as i128)
    };
    proof {
        if p.exp_huge {
            if p.exp_neg {
                lemma_round_digits_far(m@, k_spec);
                lemma_round_digits_far(m@, k as int);
            } else {
                lemma_round_shift_far_up(digits_value(m@), k_spec, k as int);
                lemma_round_shift_far_up(digits_value(m@), k as int, k_spec);
            }
        } else {
            assert(k == k_spec);
        }
    }
    match scaled_magnitude(&m, k) {
        None => Err(DecimalError::OutOfRange),
        Some(mag) => {
            let val = mag as i64;
            if neg {
                Ok(Decimal(-val))
            } else {
                Ok(Decimal(val))
            }
        },
    }
}


// ---------------------------------------------------------------------------
// Writing decimals

/// `n` written in decimal and padded with zeros on the left to `width` digits.
pub open spec fn zero_padded(n: nat, width: nat) -> Seq<char> {
    Seq::new((width - dec_digits(n).len()) as nat, |i: int| '0') + dec_digits(n)
}

/// The magnitude of `x`.
pub open spec fn abs(x: int) -> int {
    if x < 0 { -x } else { x }
}

/// `m` divided by `unit`, rounded to the nearest whole number, an exact
/// half to the even neighbour.
pub open spec fn round_half_even(m: int, unit: int) -> int {
    let q = m / unit;
    let r = m % unit;
    if 2 * r > unit || (2 * r == unit && q % 2 == 1) {
        q + 1
    } else {
        q
    }
}

/// The magnitude of `d` rounded to `places` fraction digits, in units of the
/// last place: to the nearest, an exact half to the even neighbour.
pub open spec fn rounded_units(d: Decimal, places: nat) -> nat {
    round_half_even(abs(d.0 as int), pow10((3 - places) as nat) as int) as nat
}

/// `d` written with `places` fraction digits (one to three): a minus sign for
/// negative values, the whole part, a point and the fraction digits, the
/// magnitude rounded to the nearest, an exact half to the even neighbour, as
/// `{:.places}` rounds a number it holds exactly. (A decimal half that an
/// `f32` cannot hold exactly, such as 1.005, is held a little above or below
/// it there, and may round the other way.)
pub open spec fn fixed_text(d: Decimal, places: nat) -> Seq<char> {
    let q = rounded_units(d, places);
    (if d.0 < 0 { seq!['-'] } else { Seq::<char>::empty() }) + dec_digits(q / pow10(places))
        + seq!['.'] + zero_padded(q % pow10(places), places)
}

/// Rounds `m / unit` to the nearest, an exact half to the even neighbour.
fn round_even(m: u128, unit: u128) -> (q: u128)
    requires
        1 <= unit <= 0x10_0000,
        m < 0x1_0000_0000_0000_0000_0000_0000,
    ensures
        q == round_half_even(m as int, unit as int),
        q <= m + 1,
{
    let q = m / unit;
    let r = m % unit;
    proof {
        assert(q <= m) by (nonlinear_arith)
            requires q == m / unit, unit >= 1;
        assert(r < unit) by (nonlinear_arith)
            requires r == m % unit, unit >= 1;
    }
    if 2 * r > unit || (2 * r == unit && q % 2 == 1) {
        q + 1
    } else {
        q
    }
}

proof fn lemma_dec_digits_small(n: nat)
    requires
        n < 1000,
    ensures
        n < 10 ==> dec_digits(n).len() == 1,
        10 <= n < 100 ==> dec_digits(n).len() == 2,
        100 <= n ==> dec_digits(n).len() == 3,
{
    reveal_with_fuel(dec_digits, 4);
}

proof fn lemma_pow10_small()
    ensures
        pow10(0) == 1,
        pow10(1) == 10,
        pow10(2) == 100,
        pow10(3) == 1000,
{
    reveal_with_fuel(pow10, 4);
}

/// Appends `n` zero-padded to `width` digits.
fn push_zero_padded(out: &mut String, n: u64, width: u64)
    requires
        1 <= width <= 3,
        n < pow10(width as nat),
    ensures
        final(out)@ == old(out)@ + zero_padded(n as nat, width as nat),
{
    proof {
        lemma_pow10_small();
        lemma_dec_digits_small(n as nat);
        reveal_strlit("0");
        reveal_strlit("00");
    }
    let ghost before = out@;
    let ghost zeros = Seq::new((width - dec_digits(n as nat).len()) as nat, |i: int| '0');
    if width == 3 && n < 10 {
        out.append("00");
        proof {
            assert(zeros =~= "00"@);
        }
    } else if (width == 3 && n < 100) || (width == 2 && n < 10) {
        out.append("0");
        proof {
            assert(zeros =~= "0"@);
        }
    } else {
        proof {
            assert(zeros =~= Seq::<char>::empty());
        }
    }
    push_decimal(out, n);
    proof {
        assert(final(out)@ =~= before + zero_padded(n as nat, width as nat));
    }
}

/// Writes `d` with `places` fraction digits, rounded as `fixed_text` says.
pub fn fixed_string(d: Decimal, places: u64) -> (s: String)
    requires
        1 <= places <= 3,
    ensures
        s@ == fixed_text(d, places as nat),
{
    proof {
        lemma_pow10_small();
    }
    let mag: u128 = if d.0 < 0 { (-(d.0 as i128)) as u128 } else { d.0 as u128 };
    let unit: u128 = if places == 1 { 100 } else if places == 2 { 10 } else { 1 };
    let scale: u128 = if places == 1 { 10 } else if places == 2 { 100 } else { 1000 };
    let q = round_even(mag, unit);
    proof {
        assert(unit == pow10((3 - places) as nat));
        assert(scale == pow10(places as nat));
        assert(abs(d.0 as int) == mag);
        assert(q == rounded_units(d, places as nat));
    }
    let whole = q / scale;
    let frac = q % scale;
    let mut out = String::new();
    if d.0 < 0 {
        proof {
            reveal_strlit("-");
        }
        out.append("-");
    }
    push_decimal(&mut out, whole as u64);
    proof {
        reveal_strlit(".");
    }
    out.append(".");
    push_zero_padded(&mut out, frac as u64, places);
    proof {
        assert(out@ =~= fixed_text(d, places as nat));
    }
    out
}

/// `d` written as a number is shown by default: a minus sign for negative
/// values, the whole part, then, unless the fraction is zero, a point and
/// the fraction digits without trailing zeros.
pub open spec fn short_text(d: Decimal) -> Seq<char> {
    let m = abs(d.0 as int);
    let frac = m % 1000;
    (if d.0 < 0 { seq!['-'] } else { Seq::<char>::empty() }) + dec_digits((m / 1000) as nat) + if frac == 0 {
        Seq::<char>::empty()
    } else if frac % 100 == 0 {
        seq!['.'] + dec_digits((frac / 100) as nat)
    } else if frac % 10 == 0 {
        seq!['.'] + zero_padded((frac / 10) as nat, 2)
    } else {
        seq!['.'] + zero_padded(frac as nat, 3)
    }
}

/// Writes `d` in its shortest form: `2`, `1.3`, `1.25`.
pub fn short_string(d: Decimal) -> (s: String)
    ensures
        s@ == short_text(d),
{
    proof {
        lemma_pow10_small();
        reveal_strlit("-");
        reveal_strlit(".");
    }
    let mag: u64 = if d.0 < 0 { (-(d.0 as i128)) as u64 } else { d.0 as u64 };
    let whole = mag / 1000;
    let frac = mag % 1000;
    let mut out = String::new();
    if d.0 < 0 {
        out.append("-");
    }
    push_decimal(&mut out, whole);
    if frac == 0 {
    } else if frac % 100 == 0 {
        out.append(".");
        push_decimal(&mut out, frac / 100);
    } else if frac % 10 == 0 {
        out.append(".");
        push_zero_padded(&mut out, frac / 10, 2);
    } else {
        out.append(".");
        push_zero_padded(&mut out, frac, 3);
    }
    proof {
        assert(out@ =~= short_text(d));
    }
    out
}

/// The quotient of `n` thousandths by `d` written with two fraction digits:
/// a minus sign for a negative quotient, the whole part, a point and two
/// digits, the exact quotient rounded once to the nearest hundredth, an
/// exact half to the even neighbour, as `{:.2}` rounds a number it holds
/// exactly. (A quotient that an `f32` cannot hold exactly is held a little
/// above or below it there, and a half may round the other way.)
pub open spec fn quotient_text(n: int, d: int) -> Seq<char> {
    let q = round_half_even(abs(n), 10 * d) as nat;
    (if n < 0 { seq!['-'] } else { Seq::<char>::empty() }) + dec_digits(q / 100) + seq!['.'] + zero_padded(q % 100, 2)
}

/// The digit written for `d` is a digit of value `d`.
proof fn lemma_digit_char_value(d: int)
    requires
        0 <= d < 10,
    ensures
        is_digit(digit_char(d)),
        digit_value(digit_char(d)) == d,
{
    assert(('1' as int) == ('0' as int) + 1);
    assert(('2' as int) == ('0' as int) + 2);
    assert(('3' as int) == ('0' as int) + 3);
    assert(('4' as int) == ('0' as int) + 4);
    assert(('5' as int) == ('0' as int) + 5);
    assert(('6' as int) == ('0' as int) + 6);
    assert(('7' as int) == ('0' as int) + 7);
    assert(('8' as int) == ('0' as int) + 8);
    assert(('9' as int) == ('0' as int) + 9);
}

/// The decimal digits of `n` are digits, at least one, and read back as `n`.
pub proof fn lemma_dec_digits_value(n: nat)
    ensures
        dec_digits(n).len() >= 1,
        all_digits(dec_digits(n)),
        digits_value(dec_digits(n)) == n,
        n < 10 ==> dec_digits(n).len() == 1,
        n >= 10 ==> dec_digits(n)[0] != '0',
    decreases n,
{
    let t = dec_digits(n);
    lemma_digit_char_value((n % 10) as int);
    if 1 <= n < 10 {
        assert(digit_char(n as int) != '0');
    }
    if n < 10 {
        assert(t.drop_last() =~= Seq::<char>::empty());
        assert(n % 10 == n);
        assert(digits_value(Seq::<char>::empty()) == 0);
        assert(t.last() == digit_char(n as int));
        assert(digits_value(t) == digits_value(t.drop_last()) * 10 + digit_value(t.last()));
    } else {
        lemma_dec_digits_value(n / 10);
        assert(t.drop_last() =~= dec_digits(n / 10));
        assert(t[0] == dec_digits(n / 10)[0]);
        if n / 10 < 10 {
            lemma_digit_char_value((n / 10) as int);
            assert(dec_digits(n / 10)[0] == digit_char((n / 10) as int));
        }
        assert(t.last() == digit_char((n % 10) as int));
        assert(digits_value(t) == digits_value(t.drop_last()) * 10 + digit_value(t.last()));
        assert(n == (n / 10) * 10 + n % 10);
        assert forall|i: int| 0 <= i < t.len() implies is_digit(#[trigger] t[i]) by {
            if i < t.len() - 1 {
                assert(t[i] == dec_digits(n / 10)[i]);
            }
        }
    }
}

/// `n` below a hundred written with two digits reads back as `n`.
proof fn lemma_two_digits_value(n: nat)
    requires
        n < 100,
    ensures
        zero_padded(n, 2).len() == 2,
        all_digits(zero_padded(n, 2)),
        digits_value(zero_padded(n, 2)) == n,
{
    lemma_dec_digits_small(n);
    lemma_dec_digits_value(n);
    let z = zero_padded(n, 2);
    let dd = dec_digits(n);
    if n < 10 {
        assert(z =~= seq!['0'] + dd);
        assert(z.drop_last() =~= seq!['0']);
        assert(seq!['0'].drop_last() =~= Seq::<char>::empty());
        assert(dd.drop_last() =~= Seq::<char>::empty());
        assert(digit_value(dd[0]) == n);
        lemma_digit_char_value(0);
        assert(digit_value('0') == 0);
        assert(digits_value(Seq::<char>::empty()) == 0);
        assert(digits_value(seq!['0']) == digits_value(seq!['0'].drop_last()) * 10 + digit_value('0'));
        assert(dd.last() == dd[0]);
        assert(digits_value(dd) == n);
        assert(z.last() == dd[0]);
        assert(digits_value(z) == digits_value(z.drop_last()) * 10 + digit_value(z.last()));
        assert(is_digit(z[0]));
        assert(z[1] == dd[0]);
    } else {
        assert(z =~= dd);
    }
}

/// The average as written reads back as the exact quotient rounded to
/// hundredths: after an optional minus sign (there exactly when `n` is
/// negative) come the digits of the whole part (no leading zero), a point,
/// and two fraction digits, and the whole part times a hundred plus the fraction digits is
/// the quotient `|n| / (10 d)` rounded to the nearest, a half to even.
pub proof fn law_average_text_reads_back(n: int, d: int)
    requires
        d > 0,
    ensures
        ({
            let t = quotient_text(n, d);
            let q = round_half_even(abs(n), 10 * d);
            let s: int = if n < 0 { 1 } else { 0 };
            &&& t.len() >= s + 4
            &&& (t[0] == '-') == (n < 0)
            &&& t[t.len() - 3] == '.'
            &&& all_digits(t.subrange(s, t.len() - 3))
            &&& (t.len() - 3 - s == 1 || t[s] != '0')
            &&& all_digits(t.subrange(t.len() - 2, t.len() as int))
            &&& digits_value(t.subrange(s, t.len() - 3)) * 100
                + digits_value(t.subrange(t.len() - 2, t.len() as int)) == q
        }),
{
    let q = round_half_even(abs(n), 10 * d);
    let m = abs(n);
    let u = 10 * d;
    assert(m / u >= 0) by (nonlinear_arith) requires m >= 0, u > 0;
    assert(q >= 0);
    let qn = q as nat;
    let sign = if n < 0 { seq!['-'] } else { Seq::<char>::empty() };
    let w = dec_digits(qn / 100);
    let f = zero_padded(qn % 100, 2);
    lemma_dec_digits_value(qn / 100);
    lemma_two_digits_value(qn % 100);
    let t = quotient_text(n, d);
    assert(t =~= sign + w + seq!['.'] + f);
    let s: int = if n < 0 { 1 } else { 0 };
    assert(t.subrange(s, t.len() - 3) =~= w);
    assert(t[s] == w[0]);
    assert(t.subrange(t.len() - 2, t.len() as int) =~= f);
    if n >= 0 {
        assert(t[0] == w[0]);
        assert(is_digit(w[0]));
    }
}

/// Writes the quotient of `n` thousandths by `d` with two fraction digits.
pub fn quotient_string(n: i128, d: u16) -> (s: String)
    requires
        d > 0,
        -0x8000_0000_0000_0000 * d <= n <= 0x8000_0000_0000_0000 * d,
    ensures
        s@ == quotient_text(n as int, d as int),
{
    proof {
        lemma_pow10_small();
        reveal_strlit("-");
        reveal_strlit(".");
    }
    let mag: u128 = if n < 0 { (-n) as u128 } else { n as u128 };
    let dd = d as u128;
    proof {
        assert(mag < 0x1_0000_0000_0000_0000_0000_0000) by (nonlinear_arith)
            requires mag <= 0x8000_0000_0000_0000 * dd, dd <= 0xffff;
    }
    let q = round_even(mag, 10 * dd);
    proof {
        assert(mag < 0x1000_0000_0000_0000 * (10 * dd)) by (nonlinear_arith)
            requires mag <= 0x8000_0000_0000_0000 * dd, dd >= 1;
        crate::model::stats::lemma_quotient_below(mag as int, (10 * dd) as int, 0x1000_0000_0000_0000);
        assert(abs(n as int) == mag);
    }
    let whole = q / 100;
    let frac = q % 100;
    let mut out = String::new();
    if n < 0 {
        out.append("-");
    }
    push_decimal(&mut out, whole as u64);
    out.append(".");
    push_zero_padded(&mut out, frac as u64, 2);
    proof {
        assert(out@ =~= quotient_text(n as int, d as int));
    }
    out
}

/// An exact quotient: `num` thousandths divided by `den`.
#[derive(Clone, Copy, Debug, PartialEq, Eq, Structural)]
pub struct Quotient {
    pub num: i128,
    pub den: u16,
}

impl Quotient {
    /// Whether the quotient equals the decimal `d`.
    pub fn is(&self, d: Decimal) -> (b: bool)
        ensures
            b == (self.num == d.0 * self.den),
    {
        proof {
            let x = d.0 as int;
            let y = self.den as int;
            assert(-0x8000_0000_0000_0000 * 0x10000 <= x * y <= 0x8000_0000_0000_0000 * 0x10000) by (nonlinear_arith)
                requires -0x8000_0000_0000_0000 <= x < 0x8000_0000_0000_0000, 0 <= y < 0x10000;
        }
        self.num == (d.0 as i128) * (self.den as i128)
    }

    /// Whether the quotient is above zero.
    pub fn is_positive(&self) -> (b: bool)
        requires
            self.den > 0,
        ensures
            b == (self.num > 0),
    {
        self.num > 0
    }
}

} // verus!
