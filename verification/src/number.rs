//! The numeric value model.
//!
//! A `Number` is an exact decimal with nine fractional digits, stored as a
//! single scaled integer: the represented value is `scaled / 10^9`. The
//! magnitude of `scaled` is bounded by `10^29`, so every arithmetic step
//! fits comfortably in 128-bit intermediates. Sums and differences are
//! exact while they stay in range; products and quotients are truncated
//! toward zero to the nine-digit grid; an out-of-range result is reported
//! as `None` rather than wrapped or saturated.
use vstd::prelude::*;

use crate::chars::chars_to_string;

verus! {

/// The character for one decimal digit.
pub open spec fn digit_char(d: int) -> char {
    if d == 0 {
        '0'
    } else if d == 1 {
        '1'
    } else if d == 2 {
        '2'
    } else if d == 3 {
        '3'
    } else if d == 4 {
        '4'
    } else if d == 5 {
        '5'
    } else if d == 6 {
        '6'
    } else if d == 7 {
        '7'
    } else if d == 8 {
        '8'
    } else {
        '9'
    }
}

/// The usual decimal text of a nonnegative integer, without leading zeros.
pub open spec fn uint_text(n: int) -> Seq<char>
    decreases n,
{
    if n < 10 {
        seq![digit_char(n)]
    } else {
        uint_text(n / 10).push(digit_char(n % 10))
    }
}

/// Exactly `d` decimal digits of `n`, low digit last, with leading zeros.
pub open spec fn fixed_digits(n: int, d: nat) -> Seq<char>
    decreases d,
{
    if d == 0 {
        Seq::empty()
    } else {
        fixed_digits(n / 10, (d - 1) as nat).push(digit_char(n % 10))
    }
}

/// The sequence with its trailing `'0'` characters removed.
pub open spec fn strip_zeros(s: Seq<char>) -> Seq<char>
    decreases s.len(),
{
    if s.len() > 0 && s.last() == '0' {
        strip_zeros(s.drop_last())
    } else {
        s
    }
}

/// Ten to the given power.
pub open spec fn pow10(d: nat) -> int
    decreases d,
{
    if d == 0 {
        1
    } else {
        10 * pow10((d - 1) as nat)
    }
}

/// The display text of the number with scaled value `k`: a minus sign for a
/// negative value, the whole part in plain decimal, and, when the fractional
/// part is not zero, a point followed by the fractional digits with trailing
/// zeros removed.
pub open spec fn number_text(k: int) -> Seq<char> {
    if k < 0 {
        seq!['-'] + mag_text(-k)
    } else {
        mag_text(k)
    }
}

/// The display text of a nonnegative scaled value.
pub open spec fn mag_text(m: int) -> Seq<char> {
    uint_text(m / (SCALE as int)) + if m % (SCALE as int) == 0 {
        Seq::<char>::empty()
    } else {
        seq!['.'] + strip_zeros(fixed_digits(m % (SCALE as int), 9))
    }
}

/// Scale factor: a `Number` stores its value times `SCALE`.
pub const SCALE: i128 = 1_000_000_000;

/// Largest allowed magnitude of the scaled value (`10^29`).
pub const MAX_SCALED: i128 = 100_000_000_000_000_000_000_000_000_000;

/// Unsigned twin of `SCALE` for magnitude arithmetic.
pub const SCALE_MAG: u128 = 1_000_000_000;

/// Unsigned twin of `MAX_SCALED`.
pub const MAX_MAG: u128 = 100_000_000_000_000_000_000_000_000_000;

/// Whether a scaled value lies in the representable range.
pub open spec fn in_range(k: int) -> bool {
    -(MAX_SCALED as int) <= k <= MAX_SCALED as int
}

/// Division truncated toward zero, the rounding used for products and
/// quotients that fall between grid points.
pub open spec fn div_trunc(a: int, b: int) -> int
    recommends
        b != 0,
{
    if (a >= 0) == (b >= 0) {
        abs_int(a) / abs_int(b)
    } else {
        -(abs_int(a) / abs_int(b))
    }
}

/// Absolute value of a mathematical integer.
pub open spec fn abs_int(a: int) -> int {
    if a >= 0 {
        a
    } else {
        -a
    }
}

/// An exact decimal number with nine fractional digits.
#[derive(Debug, Clone, Copy, PartialEq, Eq)]
pub struct Number {
    scaled: i128,
}

impl Number {
    /// The scaled integer value `value * 10^9` that this number stands for.
    pub closed spec fn view(&self) -> int {
        self.scaled as int
    }

    #[verifier::type_invariant]
    spec fn type_inv(self) -> bool {
        in_range(self.scaled as int)
    }

    /// The number with the given integer value.
    pub fn from_int(i: i64) -> (r: Number)
        ensures
            r@ == i * SCALE,
    {
        let s: i128 = (i as i128) * SCALE;
        proof {
            assert(-(MAX_SCALED as int) <= (i as int) * (SCALE as int) <= MAX_SCALED as int)
                by (nonlinear_arith)
                requires
                    -0x8000_0000_0000_0000 <= i as int <= 0x7fff_ffff_ffff_ffff,
            ;
        }
        Number { scaled: s }
    }

    /// The number with the given scaled value, when it is in range.
    pub fn from_scaled(scaled: i128) -> (r: Option<Number>)
        ensures
            r is Some <==> in_range(scaled as int),
            r matches Some(n) ==> n@ == scaled as int,
    {
        if -MAX_SCALED <= scaled && scaled <= MAX_SCALED {
            Some(Number { scaled })
        } else {
            None
        }
    }

    /// The number with the given nonnegative scaled value, clamped to the
    /// largest representable value when it is out of range.
    pub fn from_scaled_clamped(scaled: u128) -> (r: Number)
        ensures
            r@ == if scaled <= MAX_MAG {
                scaled as int
            } else {
                MAX_SCALED as int
            },
    {
        if scaled <= MAX_MAG {
            Number { scaled: scaled as i128 }
        } else {
            Number { scaled: MAX_SCALED }
        }
    }

    /// Whether this number is zero.
    pub fn is_zero(&self) -> (r: bool)
        ensures
            r == (self@ == 0),
    {
        self.scaled == 0
    }

    /// The negated number; negation is always exact and in range.
    pub fn neg(&self) -> (r: Number)
        ensures
            r@ == -self@,
    {
        proof {
            use_type_invariant(self);
        }
        Number { scaled: -self.scaled }
    }

    /// Whether `self` and `other` stand for the same value.
    pub fn eq_value(&self, other: &Number) -> (r: bool)
        ensures
            r == (self@ == other@),
    {
        self.scaled == other.scaled
    }

    /// Whether `self < other`.
    pub fn lt(&self, other: &Number) -> (r: bool)
        ensures
            r == (self@ < other@),
    {
        self.scaled < other.scaled
    }

    /// Whether `self <= other`.
    pub fn le(&self, other: &Number) -> (r: bool)
        ensures
            r == (self@ <= other@),
    {
        self.scaled <= other.scaled
    }

    /// Whether `self > other`.
    pub fn gt(&self, other: &Number) -> (r: bool)
        ensures
            r == (self@ > other@),
    {
        self.scaled > other.scaled
    }

    /// Whether `self >= other`.
    pub fn ge(&self, other: &Number) -> (r: bool)
        ensures
            r == (self@ >= other@),
    {
        self.scaled >= other.scaled
    }

    /// The exact sum, or `None` when it falls outside the range.
    pub fn checked_add(&self, other: &Number) -> (r: Option<Number>)
        ensures
            r is Some <==> in_range(self@ + other@),
            r matches Some(n) ==> n@ == self@ + other@,
    {
        proof {
            use_type_invariant(self);
            use_type_invariant(other);
        }
        let s: i128 = self.scaled + other.scaled;
        if -MAX_SCALED <= s && s <= MAX_SCALED {
            Some(Number { scaled: s })
        } else {
            None
        }
    }

    /// The exact difference, or `None` when it falls outside the range.
    pub fn checked_sub(&self, other: &Number) -> (r: Option<Number>)
        ensures
            r is Some <==> in_range(self@ - other@),
            r matches Some(n) ==> n@ == self@ - other@,
    {
        proof {
            use_type_invariant(self);
            use_type_invariant(other);
        }
        let s: i128 = self.scaled - other.scaled;
        if -MAX_SCALED <= s && s <= MAX_SCALED {
            Some(Number { scaled: s })
        } else {
            None
        }
    }

    /// The magnitude of this number's scaled value.
    fn mag(&self) -> (m: u128)
        ensures
            m == abs_int(self@),
    {
        proof {
            use_type_invariant(self);
        }
        if self.scaled >= 0 {
            self.scaled as u128
        } else {
            (-self.scaled) as u128
        }
    }

    /// Rebuilds a number from a sign and a magnitude of its scaled value,
    /// or `None` when the magnitude is out of range.
    fn from_sign_mag(negative: bool, m: u128) -> (r: Option<Number>)
        ensures
            r is Some <==> m <= MAX_MAG,
            r matches Some(n) ==> n@ == if negative {
                -(m as int)
            } else {
                m as int
            },
    {
        if m <= MAX_MAG {
            let s: i128 = m as i128;
            if negative {
                Some(Number { scaled: -s })
            } else {
                Some(Number { scaled: s })
            }
        } else {
            None
        }
    }

    /// The product, truncated toward zero to the nine-digit grid, or `None`
    /// when it falls outside the range.
    pub fn checked_mul(&self, other: &Number) -> (r: Option<Number>)
        ensures
            r is Some <==> in_range(div_trunc(self@ * other@, SCALE as int)),
            r matches Some(n) ==> n@ == div_trunc(self@ * other@, SCALE as int),
    {
        let m1: u128 = self.mag();
        let m2: u128 = other.mag();
        let negative = (self.scaled < 0) != (other.scaled < 0);
        proof {
            use_type_invariant(self);
            use_type_invariant(other);
            assert(abs_int(self@ * other@) == abs_int(self@) * abs_int(other@))
                by (nonlinear_arith);
        }
        // The result magnitude is (m1 * m2) / SCALE_MAG; it is in range
        // exactly when m1 * m2 <= MAX_MAG * SCALE_MAG + (SCALE_MAG - 1).
        let limit: u128 = 0xffff_ffff_ffff_ffff_ffff_ffff_ffff_ffff;
        if m2 != 0 && m1 > limit / m2 {
            // m1 * m2 overflows u128, so it is far beyond the range limit.
            proof {
                lemma_div_guard_exceeds(m1 as int, m2 as int, limit as int);
                assert((MAX_MAG as int) * (SCALE_MAG as int) + (SCALE_MAG as int) < limit as int);
                lemma_div_grows(m1 as int * m2 as int, MAX_MAG as int * SCALE_MAG as int
                    + SCALE_MAG as int, SCALE_MAG as int);
            }
            return None;
        }
        proof {
            if m2 != 0 {
                lemma_div_guard_holds(m1 as int, m2 as int, limit as int);
            }
        }
        let prod: u128 = m1 * m2;
        let mag: u128 = prod / SCALE_MAG;
        proof {
            assert(mag as int == abs_int(self@ * other@) / (SCALE as int));
            if self@ == 0 || other@ == 0 {
                assert(self@ * other@ == 0) by (nonlinear_arith)
                    requires
                        self@ == 0 || other@ == 0,
                ;
            } else {
                assert((self@ * other@ > 0) == ((self@ > 0) == (other@ > 0)))
                    by (nonlinear_arith)
                    requires
                        self@ != 0,
                        other@ != 0,
                ;
            }
        }
        Self::from_sign_mag(negative, mag)
    }

    /// The quotient, truncated toward zero to the nine-digit grid, or `None`
    /// when it falls outside the range. The divisor must not be zero; the
    /// evaluator tests that first and reports its own failure.
    pub fn checked_div(&self, other: &Number) -> (r: Option<Number>)
        requires
            other@ != 0,
        ensures
            r is Some <==> in_range(div_trunc(self@ * SCALE as int, other@)),
            r matches Some(n) ==> n@ == div_trunc(self@ * SCALE as int, other@),
    {
        let m1: u128 = self.mag();
        let m2: u128 = other.mag();
        let negative = (self.scaled < 0) != (other.scaled < 0);
        proof {
            use_type_invariant(self);
            use_type_invariant(other);
            assert(abs_int(self@ * SCALE as int) == abs_int(self@) * (SCALE as int))
                by (nonlinear_arith)
                requires
                    SCALE as int > 0,
            ;
            assert((m1 as int) * (SCALE as int) <= (MAX_MAG as int) * (SCALE as int))
                by (nonlinear_arith)
                requires
                    m1 as int <= MAX_MAG as int,
                    SCALE as int > 0,
            ;
        }
        let num: u128 = m1 * SCALE_MAG;
        let mag: u128 = num / m2;
        proof {
            assert(mag as int == abs_int(self@ * SCALE as int) / abs_int(other@));
            lemma_div_trunc_sign(self@ * SCALE as int, other@);
        }
        Self::from_sign_mag(negative, mag)
    }
}

/// The character for one decimal digit, as executable code.
fn digit_to_char(d: u128) -> (c: char)
    requires
        d < 10,
    ensures
        c == digit_char(d as int),
{
    if d == 0 {
        '0'
    } else if d == 1 {
        '1'
    } else if d == 2 {
        '2'
    } else if d == 3 {
        '3'
    } else if d == 4 {
        '4'
    } else if d == 5 {
        '5'
    } else if d == 6 {
        '6'
    } else if d == 7 {
        '7'
    } else if d == 8 {
        '8'
    } else {
        '9'
    }
}

/// Appends the decimal text of `n` without leading zeros.
fn push_uint(out: &mut Vec<char>, n: u128)
    ensures
        final(out)@ == old(out)@ + uint_text(n as int),
    decreases n,
{
    if n < 10 {
        out.push(digit_to_char(n));
        proof {
            assert(out@ =~= old(out)@ + uint_text(n as int));
        }
    } else {
        push_uint(out, n / 10);
        out.push(digit_to_char(n % 10));
        proof {
            assert(out@ =~= old(out)@ + uint_text(n as int));
        }
    }
}

/// Appends exactly `d` decimal digits of `n`, with leading zeros.
fn push_fixed(out: &mut Vec<char>, n: u128, d: u32)
    ensures
        final(out)@ == old(out)@ + fixed_digits(n as int, d as nat),
    decreases d,
{
    if d > 0 {
        push_fixed(out, n / 10, d - 1);
        out.push(digit_to_char(n % 10));
        proof {
            assert(out@ =~= old(out)@ + fixed_digits(n as int, d as nat));
        }
    } else {
        proof {
            assert(out@ =~= old(out)@ + fixed_digits(n as int, 0));
        }
    }
}

/// Removing a trailing zero digit does not change the stripped text.
proof fn lemma_strip_push_zero(s: Seq<char>)
    ensures
        strip_zeros(s.push('0')) == strip_zeros(s),
{
    let t = s.push('0');
    assert(t.last() == '0');
    assert(t.drop_last() =~= s);
}

/// The decimal text of a nonnegative integer as an owned string.
pub(crate) fn uint_string(n: u128) -> (s: String)
    ensures
        s@ == uint_text(n as int),
{
    let mut out: Vec<char> = Vec::new();
    push_uint(&mut out, n);
    proof {
        assert(out@ =~= uint_text(n as int));
    }
    chars_to_string(out)
}

impl Number {
    /// The display text of this number.
    pub fn to_text(&self) -> (s: String)
        ensures
            s@ == number_text(self@),
    {
        proof {
            use_type_invariant(self);
        }
        let mut out: Vec<char> = Vec::new();
        if self.scaled < 0 {
            out.push('-');
        }
        let m: u128 = self.mag();
        let whole: u128 = m / SCALE_MAG;
        let frac: u128 = m % SCALE_MAG;
        push_uint(&mut out, whole);
        if frac != 0 {
            out.push('.');
            let mut f: u128 = frac;
            let mut d: u32 = 9;
            proof {
                reveal_with_fuel(pow10, 10);
            }
            while f % 10 == 0
                invariant
                    1 <= f,
                    1 <= d <= 9,
                    f < pow10(d as nat),
                    strip_zeros(fixed_digits(frac as int, 9)) == strip_zeros(
                        fixed_digits(f as int, d as nat),
                    ),
                decreases f,
            {
                proof {
                    assert(f >= 10);
                    assert(fixed_digits(f as int, d as nat) == fixed_digits(
                        (f as int) / 10,
                        (d - 1) as nat,
                    ).push('0'));
                    lemma_strip_push_zero(fixed_digits((f as int) / 10, (d - 1) as nat));
                    assert((f as int) / 10 < pow10((d - 1) as nat)) by (nonlinear_arith)
                        requires
                            (f as int) < pow10(d as nat),
                            pow10(d as nat) == 10 * pow10((d - 1) as nat),
                            f >= 10,
                    ;
                    assert(pow10((d - 1) as nat) > 1) by {
                        if d - 1 == 0 {
                            assert(pow10(0) == 1);
                            assert(false);
                        } else {
                            lemma_pow10_at_least(( d - 1) as nat);
                        }
                    }
                }
                f = f / 10;
                d = d - 1;
            }
            proof {
                assert(fixed_digits(f as int, d as nat).last() == digit_char((f as int) % 10));
                assert(digit_char((f as int) % 10) != '0');
                assert(strip_zeros(fixed_digits(f as int, d as nat)) == fixed_digits(
                    f as int,
                    d as nat,
                ));
            }
            push_fixed(&mut out, f, d);
        }
        proof {
            assert(out@ =~= number_text(self@));
        }
        chars_to_string(out)
    }
}

/// Ten to a positive power is at least ten.
proof fn lemma_pow10_at_least(d: nat)
    requires
        d >= 1,
    ensures
        pow10(d) >= 10,
    decreases d,
{
    if d == 1 {
        assert(pow10(1) == 10 * pow10(0));
    } else {
        lemma_pow10_at_least((d - 1) as nat);
        assert(pow10(d) == 10 * pow10((d - 1) as nat));
        assert(10 * pow10((d - 1) as nat) >= 10) by (nonlinear_arith)
            requires
                pow10((d - 1) as nat) >= 10,
        ;
    }
}

/// `a <= limit / b` implies `a * b <= limit` (for positive `b`).
proof fn lemma_div_guard_holds(a: int, b: int, limit: int)
    requires
        0 <= a,
        0 < b,
        0 <= limit,
        a <= limit / b,
    ensures
        a * b <= limit,
{
    assert(a * b <= (limit / b) * b) by (nonlinear_arith)
        requires
            0 <= a,
            0 < b,
            a <= limit / b,
    ;
    assert((limit / b) * b <= limit) by (nonlinear_arith)
        requires
            0 < b,
            0 <= limit,
    ;
}

/// `a > limit / b` implies `a * b > limit` (for positive `b`).
proof fn lemma_div_guard_exceeds(a: int, b: int, limit: int)
    requires
        0 <= a,
        0 < b,
        0 <= limit,
        a > limit / b,
    ensures
        a * b > limit,
{
    assert(a * b >= (limit / b + 1) * b) by (nonlinear_arith)
        requires
            0 <= a,
            0 < b,
            a >= limit / b + 1,
    ;
    assert((limit / b + 1) * b > limit) by (nonlinear_arith)
        requires
            0 < b,
            0 <= limit,
    ;
}

/// Division by a positive divisor is monotone in the dividend.
proof fn lemma_div_grows(big: int, small: int, d: int)
    requires
        0 <= small <= big,
        0 < d,
    ensures
        small / d <= big / d,
{
    assert(small / d <= big / d) by (nonlinear_arith)
        requires
            0 <= small <= big,
            0 < d,
    ;
}

/// Relates truncating division of two signed values to division of their
/// magnitudes.
proof fn lemma_div_trunc_sign(a: int, b: int)
    requires
        b != 0,
    ensures
        abs_int(div_trunc(a, b)) == abs_int(a) / abs_int(b),
{
}

} // verus!
