//! Decimal numbers: the magnitudes of lengths and of `viewBox` elements.
use vstd::prelude::*;
use crate::text::{digit, is_digit};

verus! {

/// The number of significant digits that a literal keeps; further digits round
/// the last one kept, half up.
pub const SIGNIFICANT_DIGITS: usize = 18;

/// `10` to the power `k`.
pub open spec fn pow10(k: nat) -> nat
    decreases k,
{
    if k == 0 {
        1
    } else {
        10 * pow10((k - 1) as nat)
    }
}

/// `m * 10^e` with the trailing zeros of `m` moved into the exponent; zero is `(0, 0)`.
pub open spec fn strip(m: nat, e: int) -> (nat, int)
    decreases m,
{
    if m == 0 {
        (0, 0)
    } else if m % 10 == 0 {
        strip(m / 10, e + 1)
    } else {
        (m, e)
    }
}

/// The absolute value of `c`.
pub open spec fn abs(c: int) -> nat {
    if c < 0 {
        (-c) as nat
    } else {
        c as nat
    }
}

/// The canonical form `(coefficient, exponent)` of `c * 10^e`: the coefficient
/// is not a multiple of ten, and zero is `(0, 0)`.
pub open spec fn canonical(c: int, e: int) -> (int, int) {
    let (m, x) = strip(abs(c), e);
    (if c < 0 {
        -m
    } else {
        m as int
    }, x)
}

/// The canonical form of `a / 100 * b`.
pub open spec fn percent_of(a: (int, int), b: (int, int)) -> (int, int) {
    canonical(a.0 * b.0, a.1 + b.1 - 2)
}

/// The value of an ASCII digit.
pub open spec fn digit_value(c: char) -> nat {
    if is_digit(c) {
        (c as u32 - '0' as u32) as nat
    } else {
        0
    }
}

/// The value of a run of decimal digits.
pub open spec fn digits_value(d: Seq<char>) -> nat
    decreases d.len(),
{
    if d.len() == 0 {
        0
    } else {
        digits_value(d.drop_last()) * 10 + digit_value(d.last())
    }
}

/// The number of consecutive digits of `t` from position `i` on.
pub open spec fn digit_run(t: Seq<char>, i: int) -> nat
    decreases t.len() - i,
{
    if 0 <= i < t.len() && is_digit(t[i]) {
        1 + digit_run(t, i + 1)
    } else {
        0
    }
}

/// The length of the sign that `t` starts with, if any.
pub open spec fn sign_len(t: Seq<char>) -> int {
    if t.len() > 0 && (t[0] == '+' || t[0] == '-') {
        1
    } else {
        0
    }
}

/// The parts of a decimal literal `[+-]? digits ('.' digits)?`, each run of digits
/// possibly empty but not both: whether it is negative, its integer digits and its
/// fraction digits.
pub open spec fn literal_parts(t: Seq<char>) -> Option<(bool, Seq<char>, Seq<char>)> {
    let a = sign_len(t);
    let p = a + digit_run(t, a);
    let negative = a == 1 && t[0] == '-';
    if p == t.len() {
        if p > a {
            Some((negative, t.subrange(a, p), Seq::<char>::empty()))
        } else {
            None
        }
    } else if t[p] == '.' && p + 1 + digit_run(t, p + 1) == t.len() && t.len() > a + 1 {
        Some((negative, t.subrange(a, p), t.subrange(p + 1, t.len() as int)))
    } else {
        None
    }
}

/// The digits `d` without their leading zeros.
pub open spec fn significant(d: Seq<char>) -> Seq<char>
    decreases d.len(),
{
    if d.len() > 0 && d[0] == '0' {
        significant(d.drop_first())
    } else {
        d
    }
}

/// The coefficient and exponent of the digits `d` times `10^e`, rounded half up
/// to `SIGNIFICANT_DIGITS` significant digits.
pub open spec fn rounded(d: Seq<char>, e: int) -> (nat, int) {
    let s = significant(d);
    let n = SIGNIFICANT_DIGITS as int;
    if s.len() <= n {
        (digits_value(s), e)
    } else {
        (digits_value(s.take(n)) + if s[n] >= '5' {
            1nat
        } else {
            0nat
        }, e + s.len() - n)
    }
}

/// The canonical value of the literal `t`, where it is one: its digits read as one
/// integer, scaled by its fraction digits, rounded to `SIGNIFICANT_DIGITS`
/// significant digits.
pub open spec fn literal_value(t: Seq<char>) -> Option<(int, int)> {
    match literal_parts(t) {
        Some((negative, i, f)) => {
            let (m, e) = rounded(i + f, -(f.len() as int));
            Some(canonical(if negative { -m } else { m as int }, e))
        },
        None => None,
    }
}

/// A character that a decimal literal may hold.
pub open spec fn is_number_char(c: char) -> bool {
    is_digit(c) || c == '+' || c == '-' || c == '.'
}

/// `a / 100 * b` can be held: its coefficient fits in 128 bits and its exponent
/// leaves room for canonical form.
pub open spec fn can_scale(a: (int, int), b: (int, int)) -> bool {
    &&& abs(a.0 * b.0) <= i128::MAX
    &&& i128::MIN <= a.1 + b.1 - 2 <= i128::MAX - 38
}

/// The range of the values of literals read from text: a coefficient of at most
/// `10^18` and an exponent of at most `2^64 + 64` either way.
pub open spec fn is_literal_range(v: (int, int)) -> bool {
    &&& abs(v.0) <= 1_000_000_000_000_000_000
    &&& abs(v.1) <= 0x1_0000_0000_0000_0040
}

/// A decimal number `coefficient * 10^exponent`. Every function that makes one
/// gives it in canonical form, so that two numbers are equal exactly when their
/// values are.
#[derive(Debug, PartialEq, Eq, Structural, Copy, Clone)]
pub struct Number {
    coefficient: i128,
    exponent: i128,
}

impl View for Number {
    type V = (int, int);

    /// The coefficient and the exponent.
    closed spec fn view(&self) -> (int, int) {
        (self.coefficient as int, self.exponent as int)
    }
}

/// Stripping zeros from a nonzero `m` below `10^k` moves the exponent up by at most `k - 1`.
pub proof fn lemma_strip_exponent(m: nat, e: int, k: nat)
    requires
        0 < m < pow10(k),
    ensures
        0 < strip(m, e).0 <= m,
        strip(m, e).0 % 10 != 0,
        e <= strip(m, e).1 <= e + k - 1,
    decreases m,
{
    if k == 0 {
        assert(pow10(0) == 1);
    } else if m % 10 == 0 {
        assert(m / 10 < pow10((k - 1) as nat));
        lemma_strip_exponent(m / 10, e + 1, (k - 1) as nat);
    }
}

/// A run of digits stays within its text.
pub proof fn lemma_digit_run_bound(t: Seq<char>, i: int)
    requires
        0 <= i <= t.len(),
    ensures
        i + digit_run(t, i) <= t.len(),
{
    lemma_digit_run_digits(t, i);
}

proof fn lemma_digit_run_digits(t: Seq<char>, i: int)
    requires
        0 <= i <= t.len(),
    ensures
        i + digit_run(t, i) <= t.len(),
        forall|j: int| i <= j < i + digit_run(t, i) ==> is_digit(#[trigger] t[j]),
    decreases t.len() - i,
{
    if i < t.len() && is_digit(t[i]) {
        lemma_digit_run_digits(t, i + 1);
    }
}

/// A literal is not empty and holds only signs, digits and points.
pub proof fn lemma_literal_chars(t: Seq<char>)
    requires
        literal_parts(t) is Some,
    ensures
        t.len() > 0,
        forall|j: int| 0 <= j < t.len() ==> is_number_char(#[trigger] t[j]),
{
    let a = sign_len(t);
    lemma_digit_run_digits(t, a);
    let p = a + digit_run(t, a);
    if p < t.len() {
        lemma_digit_run_digits(t, p + 1);
    }
}

/// Dropping leading zeros then appending a digit.
proof fn lemma_significant_push(d: Seq<char>, c: char)
    ensures
        significant(d.push(c)) == if significant(d).len() == 0 && c == '0' {
            Seq::<char>::empty()
        } else {
            significant(d).push(c)
        },
        significant(d).len() <= d.len(),
    decreases d.len(),
{
    assert(significant(Seq::<char>::empty()) == Seq::<char>::empty());
    if d.len() > 0 && d[0] == '0' {
        assert(d.push(c)[0] == '0');
        assert(d.push(c).drop_first() =~= d.drop_first().push(c));
        lemma_significant_push(d.drop_first(), c);
    } else if d.len() == 0 {
        assert(d.push(c) =~= seq![c]);
        if c == '0' {
            assert(seq![c].drop_first() =~= Seq::<char>::empty());
        }
    } else {
        assert(d.push(c)[0] == d[0]);
    }
}

/// A run of `k` digits is worth less than `10^k`.
proof fn lemma_digits_below(d: Seq<char>)
    ensures
        digits_value(d) < pow10(d.len()),
    decreases d.len(),
{
    if d.len() > 0 {
        lemma_digits_below(d.drop_last());
    }
}

/// Two values of the literal range can be scaled.
pub proof fn lemma_literal_range_scales(a: (int, int), b: (int, int))
    requires
        is_literal_range(a),
        is_literal_range(b),
    ensures
        can_scale(a, b),
{
    let (x, y) = (abs(a.0), abs(b.0));
    assert(x * y <= 1_000_000_000_000_000_000 * 1_000_000_000_000_000_000) by (nonlinear_arith)
        requires
            x <= 1_000_000_000_000_000_000,
            y <= 1_000_000_000_000_000_000,
    ;
    assert(abs(a.0 * b.0) == x * y) by (nonlinear_arith)
        requires
            x == abs(a.0),
            y == abs(b.0),
    ;
}

proof fn lemma_u128_below_pow10()
    ensures
        u128::MAX < pow10(39),
{
    reveal_with_fuel(pow10, 40);
}

proof fn lemma_pow10_significant()
    ensures
        pow10(SIGNIFICANT_DIGITS as nat) == 1_000_000_000_000_000_000,
        pow10((SIGNIFICANT_DIGITS - 1) as nat) == 100_000_000_000_000_000,
{
    reveal_with_fuel(pow10, 19);
}

impl Number {
    /// Equal values mean equal numbers.
    pub proof fn lemma_view_injective(a: Number, b: Number)
        requires
            a@ == b@,
        ensures
            a == b,
    {
    }

    /// `strip(m, e)`.
    fn strip_zeros(m: u128, e: i128) -> (r: (u128, i128))
        requires
            e <= i128::MAX - 38,
        ensures
            r.0 == strip(m as nat, e as int).0,
            r.1 == strip(m as nat, e as int).1,
            r.0 <= m,
            r.0 == 0 ==> r.1 == 0,
            r.0 != 0 ==> e <= r.1 <= e + 38,
            m != 0 ==> r.0 != 0,
    {
        let mut c: u128 = m;
        let mut x: i128 = e;
        proof {
            lemma_u128_below_pow10();
        }
        while c != 0 && c % 10 == 0
            invariant
                strip(c as nat, x as int) == strip(m as nat, e as int),
                c <= m,
                e <= x,
                c != 0 ==> x <= e + 38,
                e <= i128::MAX - 38,
                u128::MAX < pow10(39),
            decreases c,
        {
            proof {
                lemma_strip_exponent(c as nat, x as int, 39);
                lemma_strip_exponent((c / 10) as nat, x + 1, 39);
                lemma_strip_exponent(m as nat, e as int, 39);
            }
            c = c / 10;
            x = x + 1;
        }
        proof {
            if c != 0 {
                lemma_strip_exponent(c as nat, x as int, 39);
            }
            if m != 0 {
                lemma_strip_exponent(m as nat, e as int, 39);
            }
        }
        if c == 0 {
            (0, 0)
        } else {
            (c, x)
        }
    }

    /// The number `negative ? -m : m` times `10^e`, in canonical form.
    fn from_parts(negative: bool, m: u128, e: i128) -> (r: Number)
        requires
            m <= i128::MAX,
            e <= i128::MAX - 38,
        ensures
            r@ == canonical(if negative { -m } else { m as int }, e as int),
            abs(r@.0) <= m,
            m == 0 ==> r@.1 == 0,
            m != 0 ==> e <= r@.1 <= e + 38,
    {
        let (c, x) = Self::strip_zeros(m, e);
        Self::signed(negative, c, x)
    }

    fn signed(negative: bool, c: u128, x: i128) -> (r: Number)
        requires
            c <= i128::MAX,
        ensures
            r@ == (if negative { -c } else { c as int }, x as int),
    {
        if negative {
            Number { coefficient: -(c as i128), exponent: x }
        } else {
            Number { coefficient: c as i128, exponent: x }
        }
    }
}

/// Where the run of digits of `t` that starts at `i` ends.
pub fn digits_end(t: &[char], i: usize) -> (r: usize)
    requires
        i <= t@.len(),
    ensures
        r == i + digit_run(t@, i as int),
        r <= t@.len(),
{
    let mut j: usize = i;
    while j < t.len() && digit(t[j])
        invariant
            i <= j <= t@.len(),
            digit_run(t@, i as int) == (j - i) + digit_run(t@, j as int),
        decreases t@.len() - j,
    {
        j = j + 1;
    }
    j
}

/// The digits of a literal read so far, rounded: the significant digits kept, how
/// many there are, whether the first one dropped rounds them up, and how many were
/// dropped.
struct Rounding {
    kept: u64,
    taken: usize,
    round_up: bool,
    dropped: usize,
}

impl Rounding {
    /// `self` is the rounding of the digits `d`.
    spec fn rounds(self, d: Seq<char>) -> bool {
        let s = significant(d);
        let n = SIGNIFICANT_DIGITS as int;
        &&& self.taken == if s.len() <= n {
            s.len() as int
        } else {
            n
        }
        &&& self.kept == digits_value(s.take(self.taken as int))
        &&& self.round_up == (s.len() > n && s[n] >= '5')
        &&& self.dropped == if s.len() <= n {
            0
        } else {
            s.len() - n
        }
    }

    /// Takes the digit `c` after the digits `d`.
    fn push(self, c: char, Ghost(d): Ghost<Seq<char>>) -> (r: Rounding)
        requires
            self.rounds(d),
            is_digit(c),
            d.len() < usize::MAX,
        ensures
            r.rounds(d.push(c)),
    {
        proof {
            lemma_significant_push(d, c);
            lemma_pow10_significant();
            lemma_digits_below(significant(d).take(self.taken as int));
        }
        let s = Ghost(significant(d));
        if self.taken == 0 && c == '0' {
            self
        } else if self.taken < SIGNIFICANT_DIGITS {
            assert(s@.take(self.taken as int) =~= s@);
            assert(s@.push(c).take(self.taken + 1) =~= s@.push(c));
            assert(s@.push(c).drop_last() =~= s@);
            if self.taken < SIGNIFICANT_DIGITS - 1 {
                assert(pow10(self.taken as nat) <= pow10((SIGNIFICANT_DIGITS - 1) as nat)) by {
                    lemma_pow10_monotonic(self.taken as nat, (SIGNIFICANT_DIGITS - 1) as nat);
                }
            }
            let v = (c as u32 - '0' as u32) as u64;
            Rounding { kept: self.kept * 10 + v, taken: self.taken + 1, ..self }
        } else if self.dropped == 0 {
            assert(s@.push(c).take(self.taken as int) =~= s@.take(self.taken as int));
            Rounding { round_up: c >= '5', dropped: 1, ..self }
        } else {
            assert(s@.push(c).take(self.taken as int) =~= s@.take(self.taken as int));
            assert(s@.push(c)[SIGNIFICANT_DIGITS as int] == s@[SIGNIFICANT_DIGITS as int]);
            Rounding { dropped: self.dropped + 1, ..self }
        }
    }
}

proof fn lemma_pow10_monotonic(i: nat, j: nat)
    requires
        i <= j,
    ensures
        pow10(i) <= pow10(j),
    decreases j,
{
    if i < j {
        lemma_pow10_monotonic(i, (j - 1) as nat);
    }
}

/// Reads the run of digits of `t` from `start` on, after the digits `before`
/// whose rounding is `r0`: where it ends, and the rounding of all those digits.
fn read_digits(t: &[char], start: usize, r0: Rounding, Ghost(before): Ghost<Seq<char>>) -> (r: (
    usize,
    Rounding,
))
    requires
        start <= t@.len(),
        before.len() <= start,
        r0.rounds(before),
    ensures
        r.0 == start + digit_run(t@, start as int),
        r.1.rounds(before + t@.subrange(start as int, r.0 as int)),
{
    let mut i: usize = start;
    let mut rounding = r0;
    while i < t.len() && digit(t[i])
        invariant
            start <= i <= t@.len(),
            before.len() <= start,
            digit_run(t@, start as int) == (i - start) + digit_run(t@, i as int),
            rounding.rounds(before + t@.subrange(start as int, i as int)),
        decreases t@.len() - i,
    {
        let ghost done = before + t@.subrange(start as int, i as int);
        assert(before + t@.subrange(start as int, i + 1) =~= done.push(t@[i as int]));
        rounding = rounding.push(t[i], Ghost(done));
        i = i + 1;
    }
    (i, rounding)
}

impl Number {
    /// The number `coefficient * 10^exponent`.
    pub fn new(coefficient: i64, exponent: i32) -> (r: Number)
        ensures
            r@ == canonical(coefficient as int, exponent as int),
    {
        let m: u128 = if coefficient < 0 {
            (-(coefficient as i128)) as u128
        } else {
            coefficient as u128
        };
        Self::from_parts(coefficient < 0, m, exponent as i128)
    }

    /// The coefficient of the canonical form.
    pub fn coefficient(&self) -> (r: i128)
        ensures
            r == self@.0,
    {
        self.coefficient
    }

    /// The exponent of the canonical form.
    pub fn exponent(&self) -> (r: i128)
        ensures
            r == self@.1,
    {
        self.exponent
    }

    /// Reads the decimal literal that is the whole of `t`, rounded to
    /// `SIGNIFICANT_DIGITS` significant digits.
    pub fn from_chars(t: &[char]) -> (r: Option<Number>)
        ensures
            literal_value(t@) matches Some(v) ==> (r matches Some(n) && n@ == v && is_literal_range(v)),
            literal_value(t@) is None ==> r is None,
    {
        let n = t.len();
        let negative = n > 0 && t[0] == '-';
        let a: usize = if n > 0 && (t[0] == '+' || t[0] == '-') {
            1
        } else {
            0
        };
        let start = Rounding { kept: 0, taken: 0, round_up: false, dropped: 0 };
        assert(significant(Seq::<char>::empty()) =~= Seq::<char>::empty());
        let (p, int_rounding) = read_digits(t, a, start, Ghost(Seq::empty()));
        let ghost int_digits = t@.subrange(a as int, p as int);
        assert(Seq::<char>::empty() + int_digits =~= int_digits);
        let (end, rounding) = if p < n && t[p] == '.' {
            read_digits(t, p + 1, int_rounding, Ghost(int_digits))
        } else {
            (p, int_rounding)
        };
        if end != n || end == a || (p < n && end == a + 1) {
            return None;
        }
        let f: usize = if p < n {
            end - p - 1
        } else {
            0
        };
        let ghost frac_digits = if p < n {
            t@.subrange(p + 1, n as int)
        } else {
            Seq::<char>::empty()
        };
        let ghost digits = int_digits + frac_digits;
        let ghost sig = significant(digits);
        proof {
            if p == n {
                assert(digits =~= int_digits);
            }
            assert(rounding.rounds(digits));
            assert(literal_parts(t@) == Some((negative, int_digits, frac_digits)));
            assert(frac_digits.len() == f);
            lemma_pow10_significant();
            lemma_digits_below(sig.take(rounding.taken as int));
            assert(pow10(rounding.taken as nat) <= pow10(SIGNIFICANT_DIGITS as nat)) by {
                lemma_pow10_monotonic(rounding.taken as nat, SIGNIFICANT_DIGITS as nat);
            }
            if sig.len() <= SIGNIFICANT_DIGITS {
                assert(sig.take(sig.len() as int) =~= sig);
            }
        }
        let m: u64 = if rounding.round_up {
            rounding.kept + 1
        } else {
            rounding.kept
        };
        Some(Number::from_parts(negative, m as u128, rounding.dropped as i128 - f as i128))
    }
}

impl Number {
    /// `self / 100 * other`: `self` percent of `other`, exactly.
    pub fn percent_of(&self, other: &Number) -> (r: Number)
        requires
            can_scale(self@, other@),
        ensures
            r@ == percent_of(self@, other@),
    {
        let c: i128 = self.coefficient * other.coefficient;
        let m: u128 = if c < 0 {
            (-c) as u128
        } else {
            c as u128
        };
        Self::from_parts(c < 0, m, self.exponent + other.exponent - 2)
    }

    /// Whether `self / 100 * other` can be held.
    pub fn can_scale(&self, other: &Number) -> (r: bool)
        ensures
            r == can_scale(self@, other@),
    {
        let fits = match self.coefficient.checked_mul(other.coefficient) {
            Some(c) => c != i128::MIN,
            None => false,
        };
        let e = match self.exponent.checked_add(other.exponent) {
            Some(x) => x.checked_sub(2),
            None => None,
        };
        fits && match e {
            Some(x) => x <= i128::MAX - 38,
            None => false,
        }
    }
}

} // verus!
